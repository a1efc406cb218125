//! Small values shared by players, bullets and the world.
use vstd::prelude::*;

verus! {

/// Who dealt some damage: a player's id, or 0 for the world.
#[derive(Debug, Clone, Copy, PartialEq, Eq, Structural, Default)]
pub struct Source(pub u8);

impl Source {
    /// The source of world damage (physics objects and walls).
    pub fn world() -> (s: Source)
        ensures
            s == Source(0),
    {
        Source(0)
    }
}

/// How many more times a bullet may bounce before it is destroyed.
#[derive(Debug, Clone, Copy, PartialEq, Eq, Structural, Hash, Default)]
pub struct Bounces(pub u8);

impl Bounces {
    /// Increases bullet bounces by 1.
    pub fn add_bounce(&mut self)
        requires
            old(self).0 < u8::MAX,
        ensures
            final(self).0 == old(self).0 + 1,
    {
        self.0 = self.0 + 1;
    }
}

} // verus!
