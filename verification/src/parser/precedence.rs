use vstd::prelude::*;

verus! {

/// How tightly an operator binds, from the loosest to the tightest.
#[derive(Debug, Clone, Copy, PartialEq, Eq, PartialOrd, Structural)]
pub enum Precedence {
    Lowest,
    Assignment,
    Or,
    And,
    Equality,
    Comparison,
    Term,
    Factor,
    Unary,
    Call,
    Primary,
}

/// The place of a precedence on the ladder, counted from zero.
pub open spec fn rank_of(p: Precedence) -> usize {
    match p {
        Precedence::Lowest => 0,
        Precedence::Assignment => 1,
        Precedence::Or => 2,
        Precedence::And => 3,
        Precedence::Equality => 4,
        Precedence::Comparison => 5,
        Precedence::Term => 6,
        Precedence::Factor => 7,
        Precedence::Unary => 8,
        Precedence::Call => 9,
        Precedence::Primary => 10,
    }
}

impl Default for Precedence {
    fn default() -> (p: Precedence)
        ensures
            p == Precedence::Lowest,
    {
        Precedence::Lowest
    }
}

impl Precedence {
    /// The place of this precedence on the ladder.
    pub fn rank(self) -> (r: usize)
        ensures
            r == rank_of(self),
            r <= 10,
    {
        match self {
            Precedence::Lowest => 0,
            Precedence::Assignment => 1,
            Precedence::Or => 2,
            Precedence::And => 3,
            Precedence::Equality => 4,
            Precedence::Comparison => 5,
            Precedence::Term => 6,
            Precedence::Factor => 7,
            Precedence::Unary => 8,
            Precedence::Call => 9,
            Precedence::Primary => 10,
        }
    }

    /// The precedence at a place on the ladder.
    pub fn from_rank(v: usize) -> (p: Precedence)
        requires
            v <= 10,
        ensures
            rank_of(p) == v,
    {
        if v == 0 {
            Precedence::Lowest
        } else if v == 1 {
            Precedence::Assignment
        } else if v == 2 {
            Precedence::Or
        } else if v == 3 {
            Precedence::And
        } else if v == 4 {
            Precedence::Equality
        } else if v == 5 {
            Precedence::Comparison
        } else if v == 6 {
            Precedence::Term
        } else if v == 7 {
            Precedence::Factor
        } else if v == 8 {
            Precedence::Unary
        } else if v == 9 {
            Precedence::Call
        } else {
            Precedence::Primary
        }
    }

    /// The next tighter precedence. The tightest has none.
    pub fn next(self) -> (p: Precedence)
        requires
            self != Precedence::Primary,
        ensures
            rank_of(p) == rank_of(self) + 1,
    {
        Self::from_rank(self.rank() + 1)
    }

    /// The next looser precedence. The loosest has none.
    pub fn _prev(self) -> (p: Precedence)
        requires
            self != Precedence::Lowest,
        ensures
            rank_of(p) == rank_of(self) - 1,
    {
        Self::from_rank(self.rank() - 1)
    }

    /// Whether this precedence binds less tightly than `other`.
    pub fn is_below(self, other: Precedence) -> (b: bool)
        ensures
            b == (rank_of(self) < rank_of(other)),
    {
        self.rank() < other.rank()
    }
}

} // verus!
