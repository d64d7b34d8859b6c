//! Binding strength of operators.
use vstd::prelude::*;

verus! {

/// Precedence levels, from loosest to tightest binding.
#[derive(Clone, Copy, Debug, PartialEq, Eq, Structural)]
pub enum Precendence {
    Lowest,
    Assignment,
    Or,
    And,
    Equality,
    Comparison,
    Term,
    Factor,
    Unary,
    Call,
    Primary,
}

impl Precendence {
    /// The position of the level in the order `Lowest < Assignment < ... < Primary`.
    pub open spec fn spec_rank(&self) -> int {
        match self {
            Precendence::Lowest => 0,
            Precendence::Assignment => 1,
            Precendence::Or => 2,
            Precendence::And => 3,
            Precendence::Equality => 4,
            Precendence::Comparison => 5,
            Precendence::Term => 6,
            Precendence::Factor => 7,
            Precendence::Unary => 8,
            Precendence::Call => 9,
            Precendence::Primary => 10,
        }
    }

    /// The position of the level in the order of binding strength.
    pub fn rank(&self) -> (r: u8)
        ensures
            r == self.spec_rank(),
    {
        match self {
            Precendence::Lowest => 0,
            Precendence::Assignment => 1,
            Precendence::Or => 2,
            Precendence::And => 3,
            Precendence::Equality => 4,
            Precendence::Comparison => 5,
            Precendence::Term => 6,
            Precendence::Factor => 7,
            Precendence::Unary => 8,
            Precendence::Call => 9,
            Precendence::Primary => 10,
        }
    }

    /// Whether `self` binds no tighter than `other`.
    pub fn le(&self, other: &Precendence) -> (r: bool)
        ensures
            r == (self.spec_rank() <= other.spec_rank()),
    {
        self.rank() <= other.rank()
    }

    pub open spec fn spec_next(&self) -> Precendence {
        match *self {
            Precendence::Lowest => Precendence::Assignment,
            Precendence::Assignment => Precendence::Or,
            Precendence::Or => Precendence::And,
            Precendence::And => Precendence::Equality,
            Precendence::Equality => Precendence::Comparison,
            Precendence::Comparison => Precendence::Term,
            Precendence::Term => Precendence::Factor,
            Precendence::Factor => Precendence::Unary,
            Precendence::Unary => Precendence::Call,
            Precendence::Call => Precendence::Primary,
            Precendence::Primary => Precendence::Primary,
        }
    }

    /// The next tighter level; `Primary` is the tightest and maps to itself.
    pub fn next(&self) -> (p: Self)
        ensures
            p == self.spec_next(),
            p.spec_rank() == if self.spec_rank() < 10 {
                self.spec_rank() + 1
            } else {
                10
            },
    {
        match *self {
            Precendence::Lowest => Precendence::Assignment,
            Precendence::Assignment => Precendence::Or,
            Precendence::Or => Precendence::And,
            Precendence::And => Precendence::Equality,
            Precendence::Equality => Precendence::Comparison,
            Precendence::Comparison => Precendence::Term,
            Precendence::Term => Precendence::Factor,
            Precendence::Factor => Precendence::Unary,
            Precendence::Unary => Precendence::Call,
            Precendence::Call => Precendence::Primary,
            Precendence::Primary => Precendence::Primary,
        }
    }
}

/// Two levels with the same rank are the same level.
pub proof fn lemma_rank_injective(a: Precendence, b: Precendence)
    requires
        a.spec_rank() == b.spec_rank(),
    ensures
        a == b,
{
}

} // verus!
