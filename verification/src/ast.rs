use crate::token::{Token, TokenView};
use vstd::prelude::*;

verus! {

/// A name in the source text.
#[derive(Debug, PartialEq, Eq)]
pub struct Identifier {
    pub token: Token,
    pub value: String,
}

/// What an identifier holds, as plain values.
pub struct IdentifierView {
    pub token: TokenView,
    pub value: Seq<char>,
}

/// An expression of the language.
#[derive(Debug, PartialEq, Eq)]
#[allow(inconsistent_fields)]
pub enum Expression {
    Integer { token: Token, value: i64 },
    Boolean { token: Token, value: bool },
    /// `right` is absent where no operand could be parsed.
    Prefix { token: Token, operator: String, right: Box<Option<Expression>> },
    Infix { token: Token, operator: String, right: Box<Expression>, left: Box<Expression> },
    /// `consequence` and `alternative` are blocks.
    If {
        token: Token,
        condition: Box<Expression>,
        consequence: Box<Statement>,
        alternative: Option<Box<Statement>>,
    },
    Function { token: Token, parameters: Vec<Identifier>, body: Box<Statement> },
    /// `arguments` is absent for an empty argument list.
    Call { token: Token, function: Box<Expression>, arguments: Option<Vec<Expression>> },
    Identifier(Identifier),
}

/// A statement of the language.
#[derive(Debug, PartialEq, Eq)]
#[allow(inconsistent_fields)]
pub enum Statement {
    Let { token: Token, name: Identifier, value: Expression },
    Return { token: Token, value: Expression },
    Block { token: Token, statements: Vec<Statement> },
    Expression(Expression),
}

/// A parsed source text: its statements in source order.
#[derive(Debug, PartialEq, Eq, Clone)]
pub struct Program {
    pub statements: Vec<Statement>,
}

/// A program, a statement or an expression.
#[derive(Debug, PartialEq, Eq, Clone)]
pub enum Node {
    Program(Program),
    Statement(Statement),
    Expression(Expression),
}

/// What a node holds, as plain values.
pub enum NodeView {
    Program(ProgramView),
    Statement(StatementView),
    Expression(ExpressionView),
}

#[allow(inconsistent_fields)]
/// What an expression holds, as plain values.
pub enum ExpressionView {
    Integer { token: TokenView, value: i64 },
    Boolean { token: TokenView, value: bool },
    Prefix { token: TokenView, operator: Seq<char>, right: Option<Box<ExpressionView>> },
    Infix {
        token: TokenView,
        operator: Seq<char>,
        right: Box<ExpressionView>,
        left: Box<ExpressionView>,
    },
    If {
        token: TokenView,
        condition: Box<ExpressionView>,
        consequence: Box<StatementView>,
        alternative: Option<Box<StatementView>>,
    },
    Function { token: TokenView, parameters: Seq<IdentifierView>, body: Box<StatementView> },
    Call { token: TokenView, function: Box<ExpressionView>, arguments: Option<Seq<ExpressionView>> },
    Identifier(IdentifierView),
}

#[allow(inconsistent_fields)]
/// What a statement holds, as plain values.
pub enum StatementView {
    Let { token: TokenView, name: IdentifierView, value: ExpressionView },
    Return { token: TokenView, value: ExpressionView },
    Block { token: TokenView, statements: Seq<StatementView> },
    Expression(ExpressionView),
}

/// What a program holds, as plain values.
pub struct ProgramView {
    pub statements: Seq<StatementView>,
}

impl View for Identifier {
    type V = IdentifierView;

    open spec fn view(&self) -> IdentifierView {
        IdentifierView { token: self.token@, value: self.value@ }
    }
}

/// The views of a sequence of identifiers, in order.
pub open spec fn identifiers_model(v: Seq<Identifier>) -> Seq<IdentifierView> {
    Seq::new(v.len(), |i: int| v[i]@)
}

/// The views of a sequence of expressions, in order.
pub open spec fn expressions_model(v: Seq<Expression>) -> Seq<ExpressionView>
    decreases v, 0nat,
{
    if v.len() == 0 {
        Seq::empty()
    } else {
        expressions_model(v.drop_last()).push(v.last().model())
    }
}

/// The views of a sequence of statements, in order.
pub open spec fn statements_model(v: Seq<Statement>) -> Seq<StatementView>
    decreases v, 0nat,
{
    if v.len() == 0 {
        Seq::empty()
    } else {
        statements_model(v.drop_last()).push(v.last().model())
    }
}

impl Expression {
    /// What the expression holds, as plain values.
    pub open spec fn model(&self) -> ExpressionView
        decreases self, 1nat,
    {
        match self {
            Expression::Integer { token, value } => ExpressionView::Integer {
                token: token@,
                value: *value,
            },
            Expression::Boolean { token, value } => ExpressionView::Boolean {
                token: token@,
                value: *value,
            },
            Expression::Prefix { token, operator, right } => ExpressionView::Prefix {
                token: token@,
                operator: operator@,
                right: match **right {
                    Some(e) => Some(Box::new(e.model())),
                    None => None,
                },
            },
            Expression::Infix { token, operator, right, left } => ExpressionView::Infix {
                token: token@,
                operator: operator@,
                right: Box::new(right.model()),
                left: Box::new(left.model()),
            },
            Expression::If { token, condition, consequence, alternative } => ExpressionView::If {
                token: token@,
                condition: Box::new(condition.model()),
                consequence: Box::new(consequence.model()),
                alternative: match alternative {
                    Some(a) => Some(Box::new(a.model())),
                    None => None,
                },
            },
            Expression::Function { token, parameters, body } => ExpressionView::Function {
                token: token@,
                parameters: identifiers_model(parameters@),
                body: Box::new(body.model()),
            },
            Expression::Call { token, function, arguments } => ExpressionView::Call {
                token: token@,
                function: Box::new(function.model()),
                arguments: match arguments {
                    Some(a) => Some(expressions_model(a@)),
                    None => None,
                },
            },
            Expression::Identifier(identifier) => ExpressionView::Identifier(identifier@),
        }
    }
}

impl Statement {
    /// What the statement holds, as plain values.
    pub open spec fn model(&self) -> StatementView
        decreases self, 1nat,
    {
        match self {
            Statement::Let { token, name, value } => StatementView::Let {
                token: token@,
                name: name@,
                value: value.model(),
            },
            Statement::Return { token, value } => StatementView::Return {
                token: token@,
                value: value.model(),
            },
            Statement::Block { token, statements } => StatementView::Block {
                token: token@,
                statements: statements_model(statements@),
            },
            Statement::Expression(expression) => StatementView::Expression(expression.model()),
        }
    }
}

impl View for Expression {
    type V = ExpressionView;

    open spec fn view(&self) -> ExpressionView {
        self.model()
    }
}

impl View for Statement {
    type V = StatementView;

    open spec fn view(&self) -> StatementView {
        self.model()
    }
}

impl View for Node {
    type V = NodeView;

    open spec fn view(&self) -> NodeView {
        match self {
            Node::Program(program) => NodeView::Program(program@),
            Node::Statement(statement) => NodeView::Statement(statement@),
            Node::Expression(expression) => NodeView::Expression(expression@),
        }
    }
}

impl View for Program {
    type V = ProgramView;

    open spec fn view(&self) -> ProgramView {
        ProgramView { statements: statements_model(self.statements@) }
    }
}

/// The view of a sequence of expressions has the view of each, in its place.
pub proof fn lemma_expressions_model(v: Seq<Expression>)
    ensures
        expressions_model(v).len() == v.len(),
        forall|i: int| 0 <= i < v.len() ==> #[trigger] expressions_model(v)[i] == v[i].model(),
    decreases v.len(),
{
    if v.len() > 0 {
        lemma_expressions_model(v.drop_last());
    }
}

/// The view of a sequence of statements has the view of each, in its place.
pub proof fn lemma_statements_model(v: Seq<Statement>)
    ensures
        statements_model(v).len() == v.len(),
        forall|i: int| 0 <= i < v.len() ==> #[trigger] statements_model(v)[i] == v[i].model(),
    decreases v.len(),
{
    if v.len() > 0 {
        lemma_statements_model(v.drop_last());
    }
}

/// One more expression at the end is one more view at the end.
pub proof fn lemma_expressions_model_push(v: Seq<Expression>, e: Expression)
    ensures
        expressions_model(v.push(e)) == expressions_model(v).push(e.model()),
{
    assert(v.push(e).drop_last() == v);
}

/// One more statement at the end is one more view at the end.
pub proof fn lemma_statements_model_push(v: Seq<Statement>, s: Statement)
    ensures
        statements_model(v.push(s)) == statements_model(v).push(s.model()),
{
    assert(v.push(s).drop_last() == v);
}

/// The names of a parameter list, separated by ` , `.
pub open spec fn join_identifiers(v: Seq<IdentifierView>) -> Seq<char>
    decreases v.len(),
{
    if v.len() == 0 {
        Seq::empty()
    } else if v.len() == 1 {
        v[0].token.literal
    } else {
        join_identifiers(v.drop_last()) + " , "@ + v.last().token.literal
    }
}

/// The texts of an argument list, separated by `, `.
pub open spec fn join_expressions(v: Seq<ExpressionView>) -> Seq<char>
    decreases v, 0nat,
{
    if v.len() == 0 {
        Seq::empty()
    } else if v.len() == 1 {
        expression_text(v[0])
    } else {
        join_expressions(v.drop_last()) + ", "@ + expression_text(v.last())
    }
}

/// The texts of the statements of a block, one after the other.
pub open spec fn statements_text(v: Seq<StatementView>) -> Seq<char>
    decreases v, 0nat,
{
    if v.len() == 0 {
        Seq::empty()
    } else {
        statements_text(v.drop_last()) + statement_text(v.last())
    }
}

/// The text of an expression. Every infix expression stands in parentheses,
/// so the text shows how the operands are grouped.
pub open spec fn expression_text(e: ExpressionView) -> Seq<char>
    decreases e, 1nat,
{
    match e {
        ExpressionView::Integer { token, .. } => token.literal,
        ExpressionView::Boolean { value, .. } => if value {
            "true"@
        } else {
            "false"@
        },
        ExpressionView::Prefix { operator, right, .. } => match right {
            Some(operand) => operator + expression_text(*operand),
            None => "("@ + operator + "None)"@,
        },
        ExpressionView::Infix { operator, right, left, .. } => "("@ + expression_text(*left)
            + " "@ + operator + " "@ + expression_text(*right) + ")"@,
        ExpressionView::If { condition, consequence, alternative, .. } => match alternative {
            Some(other) => "if "@ + expression_text(*condition) + " { "@ + statement_text(
                *consequence,
            ) + " } else { "@ + statement_text(*other) + " }"@,
            None => "if "@ + expression_text(*condition) + " { "@ + statement_text(*consequence)
                + " }"@,
        },
        ExpressionView::Function { parameters, body, .. } => "fn ("@ + join_identifiers(
            parameters,
        ) + ") { "@ + statement_text(*body) + " }"@,
        ExpressionView::Call { function, arguments, .. } => expression_text(*function) + "("@
            + (match arguments {
            Some(list) => join_expressions(list),
            None => Seq::empty(),
        }) + ")"@,
        ExpressionView::Identifier(identifier) => identifier.value,
    }
}

/// The text of a statement.
pub open spec fn statement_text(s: StatementView) -> Seq<char>
    decreases s, 1nat,
{
    match s {
        StatementView::Let { token, name, value } => token.literal + " "@ + name.token.literal
            + " = "@ + expression_text(value) + ";"@,
        StatementView::Return { value, .. } => "return "@ + expression_text(value) + ";"@,
        StatementView::Block { statements, .. } => statements_text(statements),
        StatementView::Expression(expression) => expression_text(expression),
    }
}

/// The literal of a statement's first token; for an expression statement,
/// the text of the expression.
pub open spec fn statement_token_literal(s: StatementView) -> Seq<char> {
    match s {
        StatementView::Let { token, .. } => token.literal,
        StatementView::Return { token, .. } => token.literal,
        StatementView::Block { token, .. } => token.literal,
        StatementView::Expression(expression) => expression_text(expression),
    }
}

impl Identifier {
    /// The literal of the identifier's token.
    pub fn token_literal(&self) -> (s: String)
        ensures
            s@ == self@.token.literal,
    {
        self.token.literal.clone()
    }

    /// The text of the identifier: the literal of its token.
    pub fn to_string(&self) -> (s: String)
        ensures
            s@ == self@.token.literal,
    {
        self.token.literal.clone()
    }
}

fn identifiers_to_string(v: &Vec<Identifier>) -> (s: String)
    ensures
        s@ == join_identifiers(identifiers_model(v@)),
{
    let mut s = String::new();
    let mut i: usize = 0;
    while i < v.len()
        invariant
            i <= v.len(),
            s@ == join_identifiers(identifiers_model(v@.take(i as int))),
        decreases v.len() - i,
    {
        proof {
            let before = identifiers_model(v@.take(i as int));
            let after = identifiers_model(v@.take(i + 1));
            assert(after.drop_last() == before);
            assert(after.last() == v[i as int]@);
            if i == 0 {
                assert(Seq::<char>::empty() + v[i as int]@.token.literal
                    == v[i as int]@.token.literal);
            }
        }
        if i > 0 {
            s.append(" , ");
        }
        s.append(v[i].token.literal.as_str());
        i += 1;
    }
    assert(v@.take(v.len() as int) == v@);
    s
}

fn expressions_to_string(v: &Vec<Expression>) -> (s: String)
    ensures
        s@ == join_expressions(expressions_model(v@)),
    decreases v, 0nat,
{
    let mut s = String::new();
    let mut i: usize = 0;
    while i < v.len()
        invariant
            i <= v.len(),
            s@ == join_expressions(expressions_model(v@.take(i as int))),
        decreases v.len() - i,
    {
        let text = v[i].token_literal();
        proof {
            let before = expressions_model(v@.take(i as int));
            lemma_expressions_model_push(v@.take(i as int), v[i as int]);
            assert(v@.take(i as int).push(v[i as int]) == v@.take(i + 1));
            lemma_expressions_model(v@.take(i as int));
            assert(before.push(v[i as int]@).drop_last() == before);
            if i == 0 {
                assert(Seq::<char>::empty() + text@ == text@);
            }
        }
        if i > 0 {
            s.append(", ");
        }
        s.append(text.as_str());
        i += 1;
    }
    assert(v@.take(v.len() as int) == v@);
    s
}

fn statements_to_string(v: &Vec<Statement>) -> (s: String)
    ensures
        s@ == statements_text(statements_model(v@)),
    decreases v, 0nat,
{
    let mut s = String::new();
    let mut i: usize = 0;
    while i < v.len()
        invariant
            i <= v.len(),
            s@ == statements_text(statements_model(v@.take(i as int))),
        decreases v.len() - i,
    {
        let text = v[i].to_string();
        proof {
            let before = statements_model(v@.take(i as int));
            lemma_statements_model_push(v@.take(i as int), v[i as int]);
            assert(v@.take(i as int).push(v[i as int]) == v@.take(i + 1));
            assert(before.push(v[i as int]@).drop_last() == before);
        }
        s.append(text.as_str());
        i += 1;
    }
    assert(v@.take(v.len() as int) == v@);
    s
}

impl Expression {
    /// The text of the expression.
    pub fn token_literal(&self) -> (s: String)
        ensures
            s@ == expression_text(self@),
        decreases self, 1nat,
    {
        match self {
            Expression::Integer { token, .. } => token.literal.clone(),
            Expression::Boolean { value, .. } => if *value {
                String::from_str("true")
            } else {
                String::from_str("false")
            },
            Expression::Prefix { operator, right, .. } => match &**right {
                Some(operand) => {
                    let mut s = operator.clone();
                    let text = operand.token_literal();
                    s.append(text.as_str());
                    s
                },
                None => {
                    let mut s = String::from_str("(");
                    s.append(operator.as_str());
                    s.append("None)");
                    s
                },
            },
            Expression::Infix { operator, right, left, .. } => {
                let mut s = String::from_str("(");
                let l = left.token_literal();
                s.append(l.as_str());
                s.append(" ");
                s.append(operator.as_str());
                s.append(" ");
                let r = right.token_literal();
                s.append(r.as_str());
                s.append(")");
                s
            },
            Expression::If { condition, consequence, alternative, .. } => {
                let mut s = String::from_str("if ");
                let c = condition.token_literal();
                s.append(c.as_str());
                s.append(" { ");
                let body = consequence.to_string();
                s.append(body.as_str());
                match alternative {
                    Some(other) => {
                        s.append(" } else { ");
                        let text = other.to_string();
                        s.append(text.as_str());
                        s.append(" }");
                    },
                    None => {
                        s.append(" }");
                    },
                }
                s
            },
            Expression::Function { parameters, body, .. } => {
                let mut s = String::from_str("fn (");
                let names = identifiers_to_string(parameters);
                s.append(names.as_str());
                s.append(") { ");
                let text = body.to_string();
                s.append(text.as_str());
                s.append(" }");
                s
            },
            Expression::Call { function, arguments, .. } => {
                let mut s = function.token_literal();
                s.append("(");
                match arguments {
                    Some(list) => {
                        let text = expressions_to_string(list);
                        s.append(text.as_str());
                    },
                    None => {
                        assert(s@ + Seq::<char>::empty() == s@);
                    },
                }
                s.append(")");
                s
            },
            Expression::Identifier(identifier) => identifier.value.clone(),
        }
    }

    /// The text of the expression.
    pub fn to_string(&self) -> (s: String)
        ensures
            s@ == expression_text(self@),
    {
        self.token_literal()
    }
}

impl Statement {
    /// The text of the statement.
    pub fn to_string(&self) -> (s: String)
        ensures
            s@ == statement_text(self@),
        decreases self, 1nat,
    {
        match self {
            Statement::Let { token, name, value } => {
                let mut s = token.literal.clone();
                s.append(" ");
                s.append(name.token.literal.as_str());
                s.append(" = ");
                let text = value.token_literal();
                s.append(text.as_str());
                s.append(";");
                s
            },
            Statement::Return { value, .. } => {
                let mut s = String::from_str("return ");
                let text = value.token_literal();
                s.append(text.as_str());
                s.append(";");
                s
            },
            Statement::Block { statements, .. } => statements_to_string(statements),
            Statement::Expression(expression) => expression.token_literal(),
        }
    }

    /// The literal of the statement's first token; for an expression
    /// statement, the text of the expression.
    pub fn token_literal(&self) -> (s: String)
        ensures
            s@ == statement_token_literal(self@),
    {
        match self {
            Statement::Let { token, .. } => token.literal.clone(),
            Statement::Return { token, .. } => token.literal.clone(),
            Statement::Block { token, .. } => token.literal.clone(),
            Statement::Expression(expression) => expression.token_literal(),
        }
    }
}

/// The texts of statements, each on a line of its own.
pub open spec fn statement_lines(v: Seq<StatementView>) -> Seq<char>
    decreases v.len(),
{
    if v.len() == 0 {
        Seq::empty()
    } else {
        statement_lines(v.drop_last()) + statement_text(v.last()) + "\n"@
    }
}

/// The text of a node, which ends its line: a program shows the text of
/// each statement on a line of its own, a statement the literal of its
/// first token, an expression its text.
pub open spec fn node_text(node: NodeView) -> Seq<char> {
    match node {
        NodeView::Program(program) => statement_lines(program.statements),
        NodeView::Statement(statement) => statement_token_literal(statement) + "\n"@,
        NodeView::Expression(expression) => expression_text(expression) + "\n"@,
    }
}

impl Node {
    /// The text of the node.
    pub fn to_string(&self) -> (s: String)
        ensures
            s@ == node_text(self@),
    {
        match self {
            Node::Program(program) => {
                let mut s = String::new();
                let mut i: usize = 0;
                while i < program.statements.len()
                    invariant
                        i <= program.statements.len(),
                        s@ == statement_lines(
                            statements_model(program.statements@.take(i as int)),
                        ),
                    decreases program.statements.len() - i,
                {
                    let text = program.statements[i].to_string();
                    proof {
                        let all = program.statements@;
                        let before = statements_model(all.take(i as int));
                        lemma_statements_model_push(all.take(i as int), all[i as int]);
                        assert(all.take(i as int).push(all[i as int]) == all.take(i + 1));
                        assert(before.push(all[i as int]@).drop_last() == before);
                    }
                    s.append(text.as_str());
                    s.append("\n");
                    i += 1;
                }
                assert(program.statements@.take(program.statements.len() as int)
                    == program.statements@);
                s
            },
            Node::Statement(statement) => {
                let mut s = statement.token_literal();
                s.append("\n");
                s
            },
            Node::Expression(expression) => {
                let mut s = expression.token_literal();
                s.append("\n");
                s
            },
        }
    }
}

impl Program {
    /// A program without statements.
    pub fn new() -> (program: Self)
        ensures
            program@.statements.len() == 0,
            program.statements@.len() == 0,
    {
        Program { statements: Vec::new() }
    }
}

impl Default for Program {
    fn default() -> (program: Self)
        ensures
            program@.statements.len() == 0,
            program.statements@.len() == 0,
    {
        Program::new()
    }
}

impl Clone for Identifier {
    fn clone(&self) -> (r: Self)
        ensures
            r == *self,
    {
        Identifier { token: self.token.clone(), value: self.value.clone() }
    }
}

fn copy_identifiers(v: &Vec<Identifier>) -> (r: Vec<Identifier>)
    ensures
        r@ == v@,
{
    let mut out: Vec<Identifier> = Vec::new();
    let mut i: usize = 0;
    while i < v.len()
        invariant
            i <= v.len(),
            out@ == v@.take(i as int),
        decreases v.len() - i,
    {
        out.push(v[i].clone());
        i += 1;
    }
    assert(v@.take(v.len() as int) == v@);
    out
}

fn copy_expressions(v: &Vec<Expression>) -> (r: Vec<Expression>)
    ensures
        expressions_model(r@) == expressions_model(v@),
    decreases v, 0nat,
{
    let mut out: Vec<Expression> = Vec::new();
    let mut i: usize = 0;
    while i < v.len()
        invariant
            i <= v.len(),
            expressions_model(out@) == expressions_model(v@.take(i as int)),
        decreases v.len() - i,
    {
        let e = copy_expression(&v[i]);
        proof {
            lemma_expressions_model_push(out@, e);
            lemma_expressions_model_push(v@.take(i as int), v[i as int]);
            assert(v@.take(i as int).push(v[i as int]) == v@.take(i + 1));
        }
        out.push(e);
        i += 1;
    }
    assert(v@.take(v.len() as int) == v@);
    out
}

fn copy_statements(v: &Vec<Statement>) -> (r: Vec<Statement>)
    ensures
        statements_model(r@) == statements_model(v@),
    decreases v, 0nat,
{
    let mut out: Vec<Statement> = Vec::new();
    let mut i: usize = 0;
    while i < v.len()
        invariant
            i <= v.len(),
            statements_model(out@) == statements_model(v@.take(i as int)),
        decreases v.len() - i,
    {
        let s = copy_statement(&v[i]);
        proof {
            lemma_statements_model_push(out@, s);
            lemma_statements_model_push(v@.take(i as int), v[i as int]);
            assert(v@.take(i as int).push(v[i as int]) == v@.take(i + 1));
        }
        out.push(s);
        i += 1;
    }
    assert(v@.take(v.len() as int) == v@);
    out
}

fn copy_expression(e: &Expression) -> (r: Expression)
    ensures
        r@ == e@,
    decreases e, 1nat,
{
    match e {
        Expression::Integer { token, value } => Expression::Integer {
            token: token.clone(),
            value: *value,
        },
        Expression::Boolean { token, value } => Expression::Boolean {
            token: token.clone(),
            value: *value,
        },
        Expression::Prefix { token, operator, right } => {
            let operand = match &**right {
                Some(x) => Some(copy_expression(x)),
                None => None,
            };
            Expression::Prefix {
                token: token.clone(),
                operator: operator.clone(),
                right: Box::new(operand),
            }
        },
        Expression::Infix { token, operator, right, left } => Expression::Infix {
            token: token.clone(),
            operator: operator.clone(),
            right: Box::new(copy_expression(right)),
            left: Box::new(copy_expression(left)),
        },
        Expression::If { token, condition, consequence, alternative } => {
            let other = match alternative {
                Some(a) => Some(Box::new(copy_statement(a))),
                None => None,
            };
            Expression::If {
                token: token.clone(),
                condition: Box::new(copy_expression(condition)),
                consequence: Box::new(copy_statement(consequence)),
                alternative: other,
            }
        },
        Expression::Function { token, parameters, body } => Expression::Function {
            token: token.clone(),
            parameters: copy_identifiers(parameters),
            body: Box::new(copy_statement(body)),
        },
        Expression::Call { token, function, arguments } => {
            let args = match arguments {
                Some(a) => Some(copy_expressions(a)),
                None => None,
            };
            Expression::Call {
                token: token.clone(),
                function: Box::new(copy_expression(function)),
                arguments: args,
            }
        },
        Expression::Identifier(identifier) => Expression::Identifier(identifier.clone()),
    }
}

fn copy_statement(s: &Statement) -> (r: Statement)
    ensures
        r@ == s@,
    decreases s, 1nat,
{
    match s {
        Statement::Let { token, name, value } => Statement::Let {
            token: token.clone(),
            name: name.clone(),
            value: copy_expression(value),
        },
        Statement::Return { token, value } => Statement::Return {
            token: token.clone(),
            value: copy_expression(value),
        },
        Statement::Block { token, statements } => Statement::Block {
            token: token.clone(),
            statements: copy_statements(statements),
        },
        Statement::Expression(expression) => Statement::Expression(copy_expression(expression)),
    }
}

impl Clone for Expression {
    fn clone(&self) -> (r: Self)
        ensures
            r@ == self@,
    {
        copy_expression(self)
    }
}

impl Clone for Statement {
    fn clone(&self) -> (r: Self)
        ensures
            r@ == self@,
    {
        copy_statement(self)
    }
}

} // verus!
