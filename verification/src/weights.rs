//! Tapered evaluation weights: a middlegame and an endgame score.
use vstd::prelude::*;

verus! {

/// A pair of evaluation scores, one for the middlegame and one for the
/// endgame.
#[derive(Debug, Clone, Copy, PartialEq, Eq, Structural)]
pub struct Weights(pub i16, pub i16);

impl Weights {
    /// The middlegame score.
    pub fn middlegame(&self) -> (r: i16)
        ensures
            r == self.0,
    {
        self.0
    }

    /// The endgame score.
    pub fn endgame(&self) -> (r: i16)
        ensures
            r == self.1,
    {
        self.1
    }

    /// Component-wise sum of two weight pairs.
    pub fn add(self, rhs: Weights) -> (r: Weights)
        requires
            i16::MIN <= self.0 + rhs.0 <= i16::MAX,
            i16::MIN <= self.1 + rhs.1 <= i16::MAX,
        ensures
            r.0 == self.0 + rhs.0,
            r.1 == self.1 + rhs.1,
    {
        Weights(self.0 + rhs.0, self.1 + rhs.1)
    }
}

} // verus!
