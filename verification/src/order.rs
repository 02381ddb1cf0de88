//! Three-way outcome of comparing two values, and its lexicographic composition.

use vstd::prelude::*;

verus! {

/// Where the first of two compared values stands relative to the second.
#[derive(Clone, Copy, Debug, PartialEq, Eq, Structural)]
pub enum Rank {
    /// The first value sorts strictly before the second.
    Before,
    /// Neither sorts before the other.
    Same,
    /// The first value sorts strictly after the second.
    After,
}

impl Rank {
    /// The outcome of the same comparison with its arguments exchanged.
    pub open spec fn flip(self) -> Rank {
        match self {
            Rank::Before => Rank::After,
            Rank::Same => Rank::Same,
            Rank::After => Rank::Before,
        }
    }

    /// Lexicographic composition: `self` decides unless it is a tie, in which
    /// case `next` decides.
    pub open spec fn chain(self, next: Rank) -> Rank {
        if self == Rank::Same {
            next
        } else {
            self
        }
    }

    /// The outcome of comparing two integers in ascending order.
    pub open spec fn of_ints(a: int, b: int) -> Rank {
        if a < b {
            Rank::Before
        } else if a == b {
            Rank::Same
        } else {
            Rank::After
        }
    }
}

/// What a total preorder demands of the outcomes `x` of comparing a first
/// value with a second, `y` of the second with a third and `z` of the first
/// with the third: "not after" and "not before" are each transitive, and
/// strict as soon as one of the two steps is strict.
pub open spec fn consistent(x: Rank, y: Rank, z: Rank) -> bool {
    &&& x != Rank::After && y != Rank::After ==> z != Rank::After && (x == Rank::Before || y
        == Rank::Before ==> z == Rank::Before)
    &&& x != Rank::Before && y != Rank::Before ==> z != Rank::Before && (x == Rank::After || y
        == Rank::After ==> z == Rank::After)
}

/// The lexicographic composition of two consistent comparisons is consistent.
pub proof fn lemma_chain_consistent(x1: Rank, y1: Rank, z1: Rank, x2: Rank, y2: Rank, z2: Rank)
    requires
        consistent(x1, y1, z1),
        consistent(x2, y2, z2),
    ensures
        consistent(x1.chain(x2), y1.chain(y2), z1.chain(z2)),
{
}

} // verus!
