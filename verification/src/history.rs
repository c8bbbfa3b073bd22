//! The bounded stack of past game states that makes unmake possible.
use vstd::prelude::*;

verus! {

use crate::defs::NrOf;
use crate::gamestate::GameState;

/// A bounded stack of `GameState` snapshots, newest on top.
///
/// Pushing past `NrOf::MAX_HISTORY` entries signals a caller that never
/// unmakes; it is ruled out by precondition rather than handled.
#[derive(Debug, Clone, PartialEq, Eq)]
pub struct History {
    game_states: Vec<GameState>,
}

impl View for History {
    type V = Seq<GameState>;

    closed spec fn view(&self) -> Seq<GameState> {
        self.game_states@
    }
}

impl History {
    /// An empty history.
    pub fn new() -> (r: History)
        ensures
            r@.len() == 0,
    {
        History { game_states: Vec::new() }
    }

    /// The number of stored states.
    pub fn len(&self) -> (r: usize)
        ensures
            r == self@.len(),
    {
        self.game_states.len()
    }

    /// Puts a state on top of the stack.
    pub fn push(&mut self, gs: GameState)
        requires
            old(self)@.len() < NrOf::MAX_HISTORY,
        ensures
            final(self)@ == old(self)@.push(gs),
    {
        self.game_states.push(gs);
    }

    /// Takes the newest state off the stack, if one is there.
    pub fn pop(&mut self) -> (r: Option<GameState>)
        ensures
            old(self)@.len() == 0 ==> r is None && final(self)@ == old(self)@,
            old(self)@.len() > 0 ==> r == Some(old(self)@.last()) && final(self)@ == old(
                self,
            )@.drop_last(),
    {
        let r = self.game_states.pop();
        proof {
            if old(self)@.len() > 0 {
                assert(final(self)@ =~= old(self)@.drop_last());
            }
        }
        r
    }

    /// Reads the newest state without removing it.
    pub fn get(&self) -> (r: Option<GameState>)
        ensures
            self@.len() == 0 ==> r is None,
            self@.len() > 0 ==> r == Some(self@.last()),
    {
        if self.game_states.len() == 0 {
            None
        } else {
            Some(self.game_states[self.game_states.len() - 1])
        }
    }
}

} // verus!
