use crate::ast::{
    lemma_statements_model_push, statements_model, Expression, ExpressionView, Program, Statement,
    StatementView,
};
use crate::object::Object;
use crate::text::{is_char, is_pair, same_text};
use vstd::prelude::*;

verus! {

/// Whether a value counts as true in a condition: `false` and the null value
/// do not, everything else does.
pub open spec fn truthy(o: Object) -> bool {
    match o {
        Object::Bool(b) => b,
        Object::Null => false,
        _ => true,
    }
}

/// What `!` makes of a value: the opposite of its truth, and the null value
/// where the operand is a value on its way out of a `return`.
pub open spec fn bang_result(o: Object) -> Object {
    match o {
        Object::Bool(b) => Object::Bool(!b),
        Object::Int(_) => Object::Bool(false),
        Object::Null => Object::Bool(true),
        Object::ReturnValue(_) => Object::Null,
    }
}

/// What prefix `-` makes of a value: the negation of an integer, where it
/// fits in 64 bits, and nothing otherwise.
pub open spec fn minus_result(o: Object) -> Option<Object> {
    match o {
        Object::Int(i) => if -i <= i64::MAX {
            Some(Object::Int((-i) as i64))
        } else {
            None
        },
        _ => None,
    }
}

/// What a prefix operator makes of a value; nothing for any operator but
/// `-` and `!`.
pub open spec fn prefix_result(operator: Seq<char>, o: Object) -> Option<Object> {
    if is_char(operator, '-') {
        minus_result(o)
    } else if is_char(operator, '!') {
        Some(bang_result(o))
    } else {
        None
    }
}

/// The quotient of two integers, rounded towards zero. The divisor is not 0.
pub open spec fn quotient(l: int, r: int) -> int {
    if l >= 0 && r > 0 {
        l / r
    } else if l < 0 && r < 0 {
        (-l) / (-r)
    } else if l < 0 {
        -((-l) / r)
    } else {
        -(l / (-r))
    }
}

/// An integer as a value, where it fits in 64 bits.
pub open spec fn int_object(n: int) -> Option<Object> {
    if i64::MIN <= n <= i64::MAX {
        Some(Object::Int(n as i64))
    } else {
        None
    }
}

/// What an infix operator makes of two integers. Arithmetic yields an
/// integer, or nothing where the result does not fit in 64 bits or the
/// divisor is 0; a comparison yields a boolean; any other operator nothing.
pub open spec fn integer_infix_result(operator: Seq<char>, l: i64, r: i64) -> Option<Object> {
    if is_char(operator, '+') {
        int_object(l + r)
    } else if is_char(operator, '-') {
        int_object(l - r)
    } else if is_char(operator, '*') {
        int_object(l * r)
    } else if is_char(operator, '/') {
        if r == 0 {
            None
        } else {
            int_object(quotient(l as int, r as int))
        }
    } else if is_char(operator, '<') {
        Some(Object::Bool(l < r))
    } else if is_char(operator, '>') {
        Some(Object::Bool(l > r))
    } else if is_pair(operator, '!', '=') {
        Some(Object::Bool(l != r))
    } else if is_pair(operator, '=', '=') {
        Some(Object::Bool(l == r))
    } else {
        None
    }
}

/// What an infix operator makes of two values: defined on two integers only.
pub open spec fn infix_result(operator: Seq<char>, l: Object, r: Object) -> Option<Object> {
    match (l, r) {
        (Object::Int(a), Object::Int(b)) => integer_infix_result(operator, a, b),
        _ => None,
    }
}

/// The value of a block: that of its last statement that has one, the null
/// value where none has; but the first statement that yields a returned
/// value ends the block, which then yields that value as it is.
pub open spec fn block_value(statements: Seq<StatementView>) -> Object
    decreases statements, 0nat,
{
    if statements.len() == 0 {
        Object::Null
    } else {
        let before = block_value(statements.drop_last());
        if before is ReturnValue {
            before
        } else {
            match statement_value(statements.last()) {
                Some(o) => o,
                None => before,
            }
        }
    }
}

/// The value of an expression, or nothing where an operator does not apply
/// to its operands or the expression is outside the evaluated language
/// (names, function literals, calls, a prefix without operand).
pub open spec fn expression_value(e: ExpressionView) -> Option<Object>
    decreases e, 1nat,
{
    match e {
        ExpressionView::Integer { value, .. } => Some(Object::Int(value)),
        ExpressionView::Boolean { value, .. } => Some(Object::Bool(value)),
        ExpressionView::Prefix { operator, right, .. } => match right {
            Some(operand) => match expression_value(*operand) {
                Some(o) => prefix_result(operator, o),
                None => None,
            },
            None => None,
        },
        ExpressionView::Infix { operator, right, left, .. } => match expression_value(*left) {
            Some(l) => match expression_value(*right) {
                Some(r) => infix_result(operator, l, r),
                None => None,
            },
            None => None,
        },
        ExpressionView::If { condition, consequence, alternative, .. } => match expression_value(
            *condition,
        ) {
            Some(c) => if truthy(c) {
                statement_value(*consequence)
            } else {
                match alternative {
                    Some(other) => statement_value(*other),
                    None => Some(Object::Null),
                }
            },
            None => None,
        },
        ExpressionView::Function { .. } => None,
        ExpressionView::Call { .. } => None,
        ExpressionView::Identifier(_) => None,
    }
}

/// The value of a statement. A `return` wraps the value of its expression;
/// a `let` has no value.
pub open spec fn statement_value(s: StatementView) -> Option<Object>
    decreases s, 1nat,
{
    match s {
        StatementView::Let { .. } => None,
        StatementView::Return { value, .. } => match expression_value(value) {
            Some(o) => Some(Object::ReturnValue(Box::new(o))),
            None => None,
        },
        StatementView::Block { statements, .. } => Some(block_value(statements)),
        StatementView::Expression(expression) => expression_value(expression),
    }
}

/// What the statements of a program have yielded so far: the value of the
/// last statement, or the first returned value, after which nothing counts.
pub open spec fn program_state(statements: Seq<StatementView>) -> Option<Object>
    decreases statements.len(),
{
    if statements.len() == 0 {
        Some(Object::Null)
    } else {
        let before = program_state(statements.drop_last());
        if before matches Some(Object::ReturnValue(_)) {
            before
        } else {
            statement_value(statements.last())
        }
    }
}

/// The value of a program: what its first `return` hands back, without
/// the wrappers, else the value of its last statement, the null value where
/// it has none.
pub open spec fn program_value(statements: Seq<StatementView>) -> Object {
    match program_state(statements) {
        Some(Object::ReturnValue(inner)) => inner.unwrapped(),
        Some(o) => o,
        None => Object::Null,
    }
}

/// Whether a value counts as true in a condition.
pub fn is_truthy(object: Object) -> (r: bool)
    ensures
        r == truthy(object),
{
    match object {
        Object::Int(_) => true,
        Object::Bool(b) => b,
        Object::Null => false,
        _ => true,
    }
}

/// Applies `!` to a value.
pub fn eval_bang_operator_expression(right: Object) -> (r: Object)
    ensures
        r == bang_result(right),
{
    match right {
        Object::Bool(b) => Object::Bool(!b),
        Object::Int(_) => Object::Bool(false),
        Object::Null => Object::Bool(true),
        _ => Object::Null,
    }
}

/// Applies prefix `-` to a value.
pub fn eval_minus_prefix_operator_expression(right: Object) -> (r: Option<Object>)
    ensures
        r == minus_result(right),
{
    match right {
        Object::Int(i) => match 0i64.checked_sub(i) {
            Some(n) => Some(Object::Int(n)),
            None => None,
        },
        _ => None,
    }
}

/// Applies the prefix operator `operator` to a value.
pub fn eval_prefix_expression(operator: &str, right: Object) -> (r: Option<Object>)
    ensures
        r == prefix_result(operator@, right),
{
    proof {
        reveal_strlit("-");
        reveal_strlit("!");
        if is_char(operator@, '-') {
            assert(operator@ =~= "-"@);
        }
        if is_char(operator@, '!') {
            assert(operator@ =~= "!"@);
        }
    }
    if same_text(operator, "-") {
        eval_minus_prefix_operator_expression(right)
    } else if same_text(operator, "!") {
        Some(eval_bang_operator_expression(right))
    } else {
        None
    }
}

/// Applies the infix operator `operator` to two integers.
pub fn eval_integer_infix_operation(operator: &str, l: i64, r: i64) -> (res: Option<Object>)
    ensures
        res == integer_infix_result(operator@, l, r),
{
    proof {
        reveal_strlit("+");
        reveal_strlit("-");
        reveal_strlit("*");
        reveal_strlit("/");
        reveal_strlit("<");
        reveal_strlit(">");
        reveal_strlit("!=");
        reveal_strlit("==");
        if is_char(operator@, '+') {
            assert(operator@ =~= "+"@);
        }
        if is_char(operator@, '-') {
            assert(operator@ =~= "-"@);
        }
        if is_char(operator@, '*') {
            assert(operator@ =~= "*"@);
        }
        if is_char(operator@, '/') {
            assert(operator@ =~= "/"@);
        }
        if is_char(operator@, '<') {
            assert(operator@ =~= "<"@);
        }
        if is_char(operator@, '>') {
            assert(operator@ =~= ">"@);
        }
        if is_pair(operator@, '!', '=') {
            assert(operator@ =~= "!="@);
        }
        if is_pair(operator@, '=', '=') {
            assert(operator@ =~= "=="@);
        }
    }
    if same_text(operator, "+") {
        match l.checked_add(r) {
            Some(n) => Some(Object::Int(n)),
            None => None,
        }
    } else if same_text(operator, "-") {
        match l.checked_sub(r) {
            Some(n) => Some(Object::Int(n)),
            None => None,
        }
    } else if same_text(operator, "*") {
        match l.checked_mul(r) {
            Some(n) => Some(Object::Int(n)),
            None => None,
        }
    } else if same_text(operator, "/") {
        match l.checked_div(r) {
            Some(n) => Some(Object::Int(n)),
            None => None,
        }
    } else if same_text(operator, "<") {
        Some(Object::Bool(l < r))
    } else if same_text(operator, ">") {
        Some(Object::Bool(l > r))
    } else if same_text(operator, "!=") {
        Some(Object::Bool(l != r))
    } else if same_text(operator, "==") {
        Some(Object::Bool(l == r))
    } else {
        None
    }
}

/// Applies the infix operator `operator` to two values.
pub fn eval_infix_expression(operator: &str, lt: Object, rt: Object) -> (r: Option<Object>)
    ensures
        r == infix_result(operator@, lt, rt),
{
    match (lt, rt) {
        (Object::Int(l), Object::Int(r)) => eval_integer_infix_operation(operator, l, r),
        _ => None,
    }
}

/// `!` twice makes of a value its truth: of a truthy value that is no
/// boolean it makes `true`, not the value itself.
pub proof fn lemma_double_bang(o: Object)
    requires
        !(o is ReturnValue),
    ensures
        bang_result(bang_result(o)) == Object::Bool(truthy(o)),
        bang_result(o) == Object::Bool(!truthy(o)),
{
}

/// The value of a program is never a value still wrapped by a `return`.
pub proof fn lemma_program_value_is_unwrapped(statements: Seq<StatementView>)
    ensures
        !(program_value(statements) is ReturnValue),
{
    match program_state(statements) {
        Some(Object::ReturnValue(inner)) => {
            crate::object::lemma_text_of_unwrapped(*inner);
        },
        _ => {},
    }
}

/// A statement that yields a returned value ends its block: the block
/// yields that value, whatever statements follow.
pub proof fn lemma_return_ends_block(statements: Seq<StatementView>, k: int)
    requires
        0 <= k < statements.len(),
        !(block_value(statements.take(k)) is ReturnValue),
        statement_value(statements[k]) matches Some(Object::ReturnValue(_)),
    ensures
        Some(block_value(statements)) == statement_value(statements[k]),
{
    let upto = statements.take(k + 1);
    assert(upto.drop_last() == statements.take(k));
    assert(upto.last() == statements[k]);
    lemma_block_return_is_final(statements, k + 1);
}

/// Once a block has yielded a returned value, the statements that follow
/// change nothing.
pub proof fn lemma_block_return_is_final(statements: Seq<StatementView>, k: int)
    requires
        0 <= k <= statements.len(),
        block_value(statements.take(k)) is ReturnValue,
    ensures
        block_value(statements) == block_value(statements.take(k)),
    decreases statements.len() - k,
{
    if k < statements.len() {
        let longer = statements.take(k + 1);
        assert(longer.drop_last() == statements.take(k));
        assert(block_value(longer) == block_value(statements.take(k)));
        lemma_block_return_is_final(statements, k + 1);
    } else {
        assert(statements.take(k) == statements);
    }
}

/// Once a program has yielded a returned value, the statements that follow
/// change nothing.
pub proof fn lemma_program_return_is_final(statements: Seq<StatementView>, k: int)
    requires
        0 <= k <= statements.len(),
        program_state(statements.take(k)) matches Some(Object::ReturnValue(_)),
    ensures
        program_state(statements) == program_state(statements.take(k)),
    decreases statements.len() - k,
{
    if k < statements.len() {
        let longer = statements.take(k + 1);
        assert(longer.drop_last() == statements.take(k));
        assert(program_state(longer) == program_state(statements.take(k)));
        lemma_program_return_is_final(statements, k + 1);
    } else {
        assert(statements.take(k) == statements);
    }
}

/// Evaluates the statements of a block up to the first that yields a
/// returned value.
pub fn eval_block_statement(statements: &Vec<Statement>) -> (r: Object)
    ensures
        r == block_value(statements_model(statements@)),
    decreases statements, 0nat,
{
    let mut result = Object::Null;
    let mut i: usize = 0;
    while i < statements.len()
        invariant
            i <= statements.len(),
            result == block_value(statements_model(statements@.take(i as int))),
            !(result is ReturnValue),
        decreases statements.len() - i,
    {
        let res = eval_statement(&statements[i]);
        proof {
            let before = statements_model(statements@.take(i as int));
            lemma_statements_model_push(statements@.take(i as int), statements[i as int]);
            assert(statements@.take(i as int).push(statements[i as int]) == statements@.take(
                i + 1,
            ));
            assert(before.push(statements[i as int]@).drop_last() == before);
        }
        match res {
            Some(Object::ReturnValue(inner)) => {
                proof {
                    lemma_statements_take(statements@, i + 1);
                    crate::ast::lemma_statements_model(statements@);
                    lemma_block_return_is_final(statements_model(statements@), i + 1);
                }
                return Object::ReturnValue(inner);
            },
            Some(obj) => {
                result = obj;
            },
            None => {},
        }
        i += 1;
    }
    assert(statements@.take(statements.len() as int) == statements@);
    result
}

/// The view of the first `k` statements is the first `k` of the views.
pub proof fn lemma_statements_take(v: Seq<Statement>, k: int)
    requires
        0 <= k <= v.len(),
    ensures
        statements_model(v.take(k)) == statements_model(v).take(k),
{
    crate::ast::lemma_statements_model(v);
    crate::ast::lemma_statements_model(v.take(k));
    assert(statements_model(v.take(k)) =~= statements_model(v).take(k));
}

fn eval_if_expression(
    condition: &Expression,
    consequence: &Statement,
    alternative: &Option<Box<Statement>>,
    Ghost(whole): Ghost<&Expression>,
) -> (r: Option<Object>)
    requires
        whole matches Expression::If { condition: c, consequence: k, alternative: a, .. }
            && **c == *condition && **k == *consequence && *a == *alternative,
    ensures
        r == (match expression_value(condition@) {
            Some(c) => if truthy(c) {
                statement_value(consequence@)
            } else {
                match alternative {
                    Some(other) => statement_value(other@),
                    None => Some(Object::Null),
                }
            },
            None => None,
        }),
    decreases whole, 0nat,
{
    match eval_expression(condition) {
        Some(c) => if is_truthy(c) {
            eval_statement(consequence)
        } else {
            match alternative {
                Some(other) => eval_statement(other),
                None => Some(Object::Null),
            }
        },
        None => None,
    }
}

/// Evaluates an expression.
pub fn eval_expression(expression: &Expression) -> (r: Option<Object>)
    ensures
        r == expression_value(expression@),
    decreases expression, 1nat,
{
    match expression {
        Expression::Integer { value, .. } => Some(Object::Int(*value)),
        Expression::Boolean { value, .. } => Some(Object::Bool(*value)),
        Expression::Prefix { operator, right, .. } => match &**right {
            Some(operand) => match eval_expression(operand) {
                Some(o) => eval_prefix_expression(operator.as_str(), o),
                None => None,
            },
            None => None,
        },
        Expression::Infix { operator, right, left, .. } => match eval_expression(left) {
            Some(l) => match eval_expression(right) {
                Some(r) => eval_infix_expression(operator.as_str(), l, r),
                None => None,
            },
            None => None,
        },
        Expression::If { condition, consequence, alternative, .. } => eval_if_expression(
            condition,
            consequence,
            alternative,
            Ghost(expression),
        ),
        Expression::Function { .. } => None,
        Expression::Call { .. } => None,
        Expression::Identifier(_) => None,
    }
}

/// Evaluates a statement.
pub fn eval(node: Statement) -> (r: Option<Object>)
    ensures
        r == statement_value(node@),
{
    eval_statement(&node)
}

/// Evaluates a statement that stays with its owner.
pub fn eval_statement(node: &Statement) -> (r: Option<Object>)
    ensures
        r == statement_value(node@),
    decreases node, 1nat,
{
    match node {
        Statement::Let { .. } => None,
        Statement::Return { value, .. } => match eval_expression(value) {
            Some(o) => Some(Object::ReturnValue(Box::new(o))),
            None => None,
        },
        Statement::Block { statements, .. } => Some(eval_block_statement(statements)),
        Statement::Expression(expression) => eval_expression(expression),
    }
}

/// Evaluates a program to its final value; the program is left as it was.
pub fn eval_program(program: &mut Program) -> (r: Object)
    ensures
        r == program_value(old(program)@.statements),
        !(r is ReturnValue),
        *final(program) == *old(program),
{
    let mut result: Option<Object> = Some(Object::Null);
    let mut i: usize = 0;
    while i < program.statements.len()
        invariant
            *program == *old(program),
            i <= program.statements.len(),
            result == program_state(statements_model(program.statements@.take(i as int))),
            !(result matches Some(Object::ReturnValue(_))),
        decreases program.statements.len() - i,
    {
        let value = eval_statement(&program.statements[i]);
        proof {
            let all = program.statements@;
            let before = statements_model(all.take(i as int));
            lemma_statements_model_push(all.take(i as int), all[i as int]);
            assert(all.take(i as int).push(all[i as int]) == all.take(i + 1));
            assert(before.push(all[i as int]@).drop_last() == before);
        }
        match value {
            Some(Object::ReturnValue(inner)) => {
                proof {
                    lemma_statements_take(program.statements@, i + 1);
                    crate::ast::lemma_statements_model(program.statements@);
                    lemma_program_return_is_final(statements_model(program.statements@), i + 1);
                }
                return (*inner).into_unwrapped();
            },
            other => {
                result = other;
            },
        }
        i += 1;
    }
    assert(program.statements@.take(program.statements.len() as int) == program.statements@);
    match result {
        Some(o) => o,
        None => Object::Null,
    }
}

} // verus!
