//! Collision volumes and the two pure tests the resolver is built on:
//! category-mask filtering and strict axis-aligned rectangle overlap.
//!
//! Geometry is carried on an integer lattice: positions are `i32`
//! coordinates and extents are `u32` widths and heights. A rectangle is
//! centered on its owner's position with half-extents of half its size, so
//! the overlap test compares doubled coordinates (`2 * x ± extent`) and
//! loses nothing to division.

use vstd::prelude::*;
use crate::idset::IdSet;
use crate::mask::CollisionMasks;
use crate::timer::Timer;

verus! {

/// An axis-aligned rectangular collision volume attached to one entity.
pub struct CollisionShape {
    /// A stable token distinguishing this volume from all others.
    pub uuid: u64,
    /// Width of the rectangle, centered on the owner's position.
    pub width: u32,
    /// Height of the rectangle, centered on the owner's position.
    pub height: u32,
    /// The single category this volume belongs to.
    pub mask: CollisionMasks,
    /// Bitmask of categories this volume is permitted to test against.
    pub collides_with: u32,
    /// Countdown bounding the volume's lifetime.
    pub timer: Timer,
    /// Owner identities of the volumes presently overlapping this one.
    pub collisions: IdSet,
    /// Owner identities that overlapped last tick but do not this tick;
    /// a one-tick-wide exit signal, overwritten every tick.
    pub collisions_just_ended: IdSet,
}

impl CollisionShape {
    pub fn new(
        uuid: u64,
        width: u32,
        height: u32,
        mask: CollisionMasks,
        collides_with: u32,
        timer: Timer,
    ) -> (s: CollisionShape)
        ensures
            s.uuid == uuid,
            s.width == width,
            s.height == height,
            s.mask == mask,
            s.collides_with == collides_with,
            s.timer == timer,
            s.collisions@ == Set::<u64>::empty(),
            s.collisions_just_ended@ == Set::<u64>::empty(),
    {
        CollisionShape {
            uuid,
            width,
            height,
            mask,
            collides_with,
            timer,
            collisions: IdSet::new(),
            collisions_just_ended: IdSet::new(),
        }
    }

    /// The rectangle's extent as (width, height).
    pub fn size(&self) -> (r: (u32, u32))
        ensures
            r.0 == self.width,
            r.1 == self.height,
    {
        (self.width, self.height)
    }
}

/// Both directions must permit the interaction: each volume's category has
/// to be included in the other volume's `collides_with` mask.
pub open spec fn spec_can_collide(a: CollisionShape, b: CollisionShape) -> bool {
    &&& a.mask.spec_bit() & b.collides_with != 0
    &&& b.mask.spec_bit() & a.collides_with != 0
}

pub fn can_collide(shape_a: &CollisionShape, shape_b: &CollisionShape) -> (r: bool)
    ensures
        r == spec_can_collide(*shape_a, *shape_b),
{
    (shape_a.mask.bit() & shape_b.collides_with != 0) && (shape_b.mask.bit()
        & shape_a.collides_with != 0)
}

/// Strict overlap of two axis-aligned rectangles given by center and size,
/// stated over doubled coordinates so half-extents stay integral. Both axis
/// intervals must strictly intersect: rectangles that merely share a
/// boundary do not overlap.
pub open spec fn spec_overlaps(
    ax: int,
    ay: int,
    aw: int,
    ah: int,
    bx: int,
    by: int,
    bw: int,
    bh: int,
) -> bool {
    &&& 2 * ax - aw < 2 * bx + bw
    &&& 2 * ax + aw > 2 * bx - bw
    &&& 2 * ay - ah < 2 * by + bh
    &&& 2 * ay + ah > 2 * by - bh
}

pub fn collide(
    a_x: i32,
    a_y: i32,
    a_width: u32,
    a_height: u32,
    b_x: i32,
    b_y: i32,
    b_width: u32,
    b_height: u32,
) -> (r: bool)
    ensures
        r == spec_overlaps(
            a_x as int,
            a_y as int,
            a_width as int,
            a_height as int,
            b_x as int,
            b_y as int,
            b_width as int,
            b_height as int,
        ),
{
    let ax2: i64 = 2 * (a_x as i64);
    let ay2: i64 = 2 * (a_y as i64);
    let bx2: i64 = 2 * (b_x as i64);
    let by2: i64 = 2 * (b_y as i64);
    let aw: i64 = a_width as i64;
    let ah: i64 = a_height as i64;
    let bw: i64 = b_width as i64;
    let bh: i64 = b_height as i64;
    (ax2 - aw < bx2 + bw) && (ax2 + aw > bx2 - bw) && (ay2 - ah < by2 + bh) && (ay2 + ah > by2
        - bh)
}

} // verus!
