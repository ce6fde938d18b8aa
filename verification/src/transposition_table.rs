//! The transposition cache: verdicts by position hash and side to move.

use vstd::prelude::*;
use std::collections::HashMap;
use crate::evaluator::Eval;
use crate::goban::Player;
use crate::zobrist_hashing::ZobristHash;

verus! {

/// What the cache holds, as a map.
pub type Verdicts = Map<(ZobristHash, Player), Eval>;

/// Verdicts by position hash and side. Entries are never removed.
pub struct TranspositionTable {
    computer: HashMap<ZobristHash, Eval>,
    opponent: HashMap<ZobristHash, Eval>,
}

impl View for TranspositionTable {
    type V = Verdicts;

    closed spec fn view(&self) -> Verdicts {
        Map::new(
            |key: (ZobristHash, Player)|
                match key.1 {
                    Player::Computer => self.computer@.contains_key(key.0),
                    Player::Opponent => self.opponent@.contains_key(key.0),
                },
            |key: (ZobristHash, Player)|
                match key.1 {
                    Player::Computer => self.computer@[key.0],
                    Player::Opponent => self.opponent@[key.0],
                },
        )
    }
}

impl TranspositionTable {
    /// An empty cache.
    pub fn new() -> (table: Self)
        ensures
            table@ == Verdicts::empty(),
    {
        let table = TranspositionTable { computer: HashMap::new(), opponent: HashMap::new() };
        table
    }

    /// The verdict stored under `key`, if any.
    pub fn get(&self, key: (ZobristHash, Player)) -> (found: Option<Eval>)
        ensures
            found == if self@.contains_key(key) {
                Some(self@[key])
            } else {
                None::<Eval>
            },
    {
        let entry = match key.1 {
            Player::Computer => self.computer.get(&key.0),
            Player::Opponent => self.opponent.get(&key.0),
        };
        match entry {
            Some(eval) => Some(*eval),
            None => None,
        }
    }

    /// Stores `eval` under `key`, in place of any verdict there.
    pub fn insert(&mut self, key: (ZobristHash, Player), eval: Eval)
        ensures
            final(self)@ == old(self)@.insert(key, eval),
    {
        match key.1 {
            Player::Computer => {
                self.computer.insert(key.0, eval);
            },
            Player::Opponent => {
                self.opponent.insert(key.0, eval);
            },
        }
    }
}

} // verus!
