use vstd::prelude::*;

verus! {

/// Binding power of an operator. The variants are listed from the loosest to
/// the tightest.
#[derive(Debug, PartialEq, Eq, Clone, Copy, PartialOrd, Ord, Structural)]
pub enum Precedence {
    Lowest,
    Equals,
    LessGreater,
    Sum,
    Product,
    Prefix,
    Call,
}

impl Precedence {
    /// Position of the level in the order, starting at 1 for `Lowest`.
    pub open spec fn rank(self) -> nat {
        match self {
            Precedence::Lowest => 1,
            Precedence::Equals => 2,
            Precedence::LessGreater => 3,
            Precedence::Sum => 4,
            Precedence::Product => 5,
            Precedence::Prefix => 6,
            Precedence::Call => 7,
        }
    }

    /// The rank as a machine integer.
    pub fn level(self) -> (r: u8)
        ensures
            r == self.rank(),
    {
        match self {
            Precedence::Lowest => 1,
            Precedence::Equals => 2,
            Precedence::LessGreater => 3,
            Precedence::Sum => 4,
            Precedence::Product => 5,
            Precedence::Prefix => 6,
            Precedence::Call => 7,
        }
    }
}

/// The levels stand in one line: `Lowest` below `Equals` below
/// `LessGreater` below `Sum` below `Product` below `Prefix` below `Call`,
/// and two levels of one rank are one level.
pub proof fn lemma_precedence_is_total_order(a: Precedence, b: Precedence)
    ensures
        a.rank() == b.rank() <==> a == b,
        a.rank() < b.rank() || a == b || b.rank() < a.rank(),
        Precedence::Lowest.rank() < Precedence::Equals.rank() < Precedence::LessGreater.rank()
            < Precedence::Sum.rank() < Precedence::Product.rank() < Precedence::Prefix.rank()
            < Precedence::Call.rank(),
{
}

} // verus!
