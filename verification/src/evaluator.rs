//! Position scores and the interface of a position scorer.

use vstd::prelude::*;
use crate::bits::Bitboard;

verus! {

/// The verdict on a position, from the evaluated side's point of view.
#[derive(Clone, Copy, PartialEq, Eq, Structural, Debug)]
pub enum Eval {
    Won,
    Lost,
    Score(isize),
}

/// A position scorer. The search engine only relies on this interface, so
/// heuristics can be exchanged.
pub trait Evaluator {
    /// Validity of the scorer's internal state.
    spec fn wf(&self) -> bool;

    /// The verdict of this scorer on a position, given the stones of the
    /// evaluated side and of the other side.
    spec fn evaluation(&self, player: Set<int>, opponent: Set<int>) -> Eval;

    /// Scores a position. The scorer may keep internal memos, but its
    /// verdicts never change.
    fn evaluate(&mut self, player: &Bitboard, opponent: &Bitboard) -> (eval: Eval)
        requires
            old(self).wf(),
        ensures
            final(self).wf(),
            eval == old(self).evaluation(player@, opponent@),
            forall|p: Set<int>, o: Set<int>|
                #[trigger] final(self).evaluation(p, o) == old(self).evaluation(p, o),
    ;
}

} // verus!
