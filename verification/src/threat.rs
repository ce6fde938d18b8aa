//! The taxonomy of line shapes and their weights.

use vstd::prelude::*;
use vstd::std_specs::cmp::PartialOrdSpecImpl;
use core::cmp::Ordering;

verus! {

/// A line shape that threatens to become five in a row.
#[derive(PartialEq, Eq, Structural, Debug, Copy, Clone)]
pub enum Threat {
    /// Five in a row: the game is decided.
    Five,
    /// Four in a row, open at both ends.
    StraightFour,
    /// Four stones within five cells.
    Four,
    /// Three in a row with room on both sides.
    Three,
    /// Three stones within four cells, open at both ends.
    BrokenThree,
}

impl Threat {
    /// The weight of the threat in a position's score. `Five` carries none:
    /// it ends the game instead.
    pub open spec fn weight(self) -> int {
        match self {
            Threat::Five => 0,
            Threat::StraightFour => 500000,
            Threat::Four => 50000,
            Threat::Three => 20000,
            Threat::BrokenThree => 10000,
        }
    }

    /// The weight of the threat in a position's score.
    pub fn score(self) -> (score: isize)
        ensures
            score == self.weight(),
    {
        match self {
            Threat::Five => 0,
            Threat::StraightFour => 500000,
            Threat::Four => 50000,
            Threat::Three => 20000,
            Threat::BrokenThree => 10000,
        }
    }

    /// Whether `self` is the stronger threat: `Five` is stronger than every
    /// other threat, and among the others the heavier is the stronger.
    pub open spec fn outranks(self, other: Threat) -> bool {
        other != Threat::Five && (self == Threat::Five || self.weight() > other.weight())
    }

    /// A stronger threat weighs strictly more: a straight four more than a
    /// four, a four more than a three, a three more than a broken three, and
    /// each of them more than nothing. Five in a row is stronger than all.
    pub proof fn lemma_weights_strictly_ordered()
        ensures
            Threat::StraightFour.weight() > Threat::Four.weight(),
            Threat::Four.weight() > Threat::Three.weight(),
            Threat::Three.weight() > Threat::BrokenThree.weight(),
            Threat::BrokenThree.weight() > 0,
            Threat::Five.outranks(Threat::StraightFour),
            Threat::StraightFour.outranks(Threat::Four),
            Threat::Four.outranks(Threat::Three),
            Threat::Three.outranks(Threat::BrokenThree),
            forall|threat: Threat| threat != Threat::Five ==> Threat::Five.outranks(threat),
            forall|threat: Threat| !threat.outranks(Threat::Five),
    {
    }
}

impl PartialOrd for Threat {
    /// `Five` comes above all other threats, which are ordered by weight.
    fn partial_cmp(&self, other: &Self) -> (order: Option<Ordering>) {
        Some(
            match self {
                Threat::Five => match other {
                    Threat::Five => Ordering::Equal,
                    _ => Ordering::Greater,
                },
                _ => match other {
                    Threat::Five => Ordering::Less,
                    _ => {
                        let mine = self.score();
                        let theirs = other.score();
                        if mine < theirs {
                            Ordering::Less
                        } else if mine == theirs {
                            Ordering::Equal
                        } else {
                            Ordering::Greater
                        }
                    },
                },
            },
        )
    }
}

impl PartialOrdSpecImpl for Threat {
    open spec fn obeys_partial_cmp_spec() -> bool {
        true
    }

    open spec fn partial_cmp_spec(&self, other: &Self) -> Option<Ordering> {
        Some(
            if self.outranks(*other) {
                Ordering::Greater
            } else if other.outranks(*self) {
                Ordering::Less
            } else {
                Ordering::Equal
            },
        )
    }
}

} // verus!
