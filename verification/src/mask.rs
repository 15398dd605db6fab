//! Collision categories and the mask filter that gates pair testing.

use vstd::prelude::*;

verus! {

/// The single category a collision volume belongs to. Each category occupies
/// one bit, so a set of categories fits in a `u32` `collides_with` mask.
#[derive(Clone, Copy, Debug, PartialEq, Eq, Structural)]
pub enum CollisionMasks {
    Player,
    AI,
    Ground,
    PlayerAttack,
    AIAttack,
}

impl CollisionMasks {
    /// The bit this category occupies inside a `collides_with` mask.
    pub open spec fn spec_bit(self) -> u32 {
        match self {
            CollisionMasks::Player => 1u32,
            CollisionMasks::AI => 2u32,
            CollisionMasks::Ground => 4u32,
            CollisionMasks::PlayerAttack => 8u32,
            CollisionMasks::AIAttack => 16u32,
        }
    }

    #[verifier::when_used_as_spec(spec_bit)]
    pub fn bit(self) -> (r: u32)
        ensures
            r == self.spec_bit(),
    {
        match self {
            CollisionMasks::Player => 1u32,
            CollisionMasks::AI => 2u32,
            CollisionMasks::Ground => 4u32,
            CollisionMasks::PlayerAttack => 8u32,
            CollisionMasks::AIAttack => 16u32,
        }
    }
}

} // verus!
