//! Properties of the overlap resolver that relate several functions or
//! several ticks, stated and proved over the resolver's contract.

use vstd::prelude::*;
use crate::resolver::Collidable;
use crate::resolver::collisions_resolved;
use crate::resolver::pair_skipped;
use crate::resolver::resolved_toward;
use crate::resolver::spec_overlapping;
use crate::shape::spec_can_collide;
use crate::shape::spec_overlaps;

verus! {

/// Law (symmetry): if both directions' masks permit the pair and the two
/// rectangles overlap, then after a resolver pass each entry's
/// `collisions` set holds the other's owner — simultaneously.
pub proof fn lemma_collision_symmetry(
    pre: Seq<Collidable>,
    post: Seq<Collidable>,
    i: int,
    j: int,
)
    requires
        collisions_resolved(pre, post),
        0 <= i < pre.len(),
        0 <= j < pre.len(),
        i != j,
        pre[i].shape.uuid != pre[j].shape.uuid,
        spec_can_collide(pre[i].shape, pre[j].shape),
        spec_overlapping(pre[i], pre[j]),
    ensures
        post[i].shape.collisions@.contains(pre[j].entity),
        post[j].shape.collisions@.contains(pre[i].entity),
{
    assert(resolved_toward(pre, post, i, j));
    assert(resolved_toward(pre, post, j, i));
    assert(spec_overlapping(pre[j], pre[i]));
}

/// Law (mask gating): if either direction's mask excludes the other's
/// category, a resolver pass records no overlap state for the pair,
/// whatever the geometry — membership of each owner in the other's sets is
/// exactly what it was before.
pub proof fn lemma_mask_gating(pre: Seq<Collidable>, post: Seq<Collidable>, i: int, j: int)
    requires
        collisions_resolved(pre, post),
        0 <= i < pre.len(),
        0 <= j < pre.len(),
        i != j,
        !spec_can_collide(pre[i].shape, pre[j].shape),
    ensures
        post[i].shape.collisions@.contains(pre[j].entity) == pre[i].shape.collisions@.contains(
            pre[j].entity,
        ),
        post[i].shape.collisions_just_ended@.contains(pre[j].entity)
            == pre[i].shape.collisions_just_ended@.contains(pre[j].entity),
        post[j].shape.collisions@.contains(pre[i].entity) == pre[j].shape.collisions@.contains(
            pre[i].entity,
        ),
        post[j].shape.collisions_just_ended@.contains(pre[i].entity)
            == pre[j].shape.collisions_just_ended@.contains(pre[i].entity),
{
    assert(resolved_toward(pre, post, i, j));
    assert(resolved_toward(pre, post, j, i));
    assert(pair_skipped(pre[i].shape, pre[j].shape));
    assert(pair_skipped(pre[j].shape, pre[i].shape));
}

/// Law (self-pairing guard): two entries carrying the same volume identity
/// never register a collision with each other — the pair is skipped, so an
/// absent membership stays absent.
pub proof fn lemma_self_pairing_guard(
    pre: Seq<Collidable>,
    post: Seq<Collidable>,
    i: int,
    j: int,
)
    requires
        collisions_resolved(pre, post),
        0 <= i < pre.len(),
        0 <= j < pre.len(),
        i != j,
        pre[i].shape.uuid == pre[j].shape.uuid,
        !pre[i].shape.collisions@.contains(pre[j].entity),
    ensures
        !post[i].shape.collisions@.contains(pre[j].entity),
{
    assert(resolved_toward(pre, post, i, j));
    assert(pair_skipped(pre[i].shape, pre[j].shape));
}

/// Law (edge exclusivity): rectangles that merely share a boundary on
/// either axis — the doubled edge coordinates coincide, zero gap — do not
/// overlap under the strict-inequality rule.
pub proof fn lemma_edge_touch_no_overlap(
    ax: int,
    ay: int,
    aw: int,
    ah: int,
    bx: int,
    by: int,
    bw: int,
    bh: int,
)
    requires
        2 * ax + aw == 2 * bx - bw || 2 * bx + bw == 2 * ax - aw || 2 * ay + ah == 2 * by - bh
            || 2 * by + bh == 2 * ay - ah,
    ensures
        !spec_overlaps(ax, ay, aw, ah, bx, by, bw, bh),
{
}

/// The carry-over of per-entry state from one tick to the next that the
/// enter/exit law speaks of: the pair sits at the same slots, is eligible,
/// owners unchanged, and the sets are exactly what the previous pass left.
pub open spec fn pair_carried(
    post_prev: Seq<Collidable>,
    pre_next: Seq<Collidable>,
    i: int,
    j: int,
) -> bool {
    &&& pre_next[i].entity == post_prev[i].entity
    &&& pre_next[j].entity == post_prev[j].entity
    &&& pre_next[i].shape.collisions@ == post_prev[i].shape.collisions@
    &&& pre_next[i].shape.collisions_just_ended@ == post_prev[i].shape.collisions_just_ended@
    &&& pre_next[j].shape.collisions@ == post_prev[j].shape.collisions@
    &&& pre_next[j].shape.collisions_just_ended@ == post_prev[j].shape.collisions_just_ended@
}

/// Law (enter/exit edge detection): take a pair that overlaps on one tick
/// and is separated — but still mutually eligible — on the two following
/// ticks, its state carried from tick to tick. The owners appear in each
/// other's `just_stopped_colliding` sets exactly on the first separated
/// tick: they are recorded there on that tick and cleared again on the
/// next, a one-tick pulse.
pub proof fn lemma_enter_exit_pulse(
    pre1: Seq<Collidable>,
    post1: Seq<Collidable>,
    pre2: Seq<Collidable>,
    post2: Seq<Collidable>,
    pre3: Seq<Collidable>,
    post3: Seq<Collidable>,
    i: int,
    j: int,
)
    requires
        collisions_resolved(pre1, post1),
        collisions_resolved(pre2, post2),
        collisions_resolved(pre3, post3),
        0 <= i < pre1.len(),
        0 <= j < pre1.len(),
        i != j,
        0 <= i < pre2.len(),
        0 <= j < pre2.len(),
        0 <= i < pre3.len(),
        0 <= j < pre3.len(),
        // tick N: the pair is eligible and overlapping
        !pair_skipped(pre1[i].shape, pre1[j].shape),
        spec_overlapping(pre1[i], pre1[j]),
        // tick N+1: state carried over; the pair is eligible but separated
        pair_carried(post1, pre2, i, j),
        pre2[i].entity == pre1[i].entity,
        pre2[j].entity == pre1[j].entity,
        !pair_skipped(pre2[i].shape, pre2[j].shape),
        !spec_overlapping(pre2[i], pre2[j]),
        // tick N+2: state carried over; the pair is eligible and still separated
        pair_carried(post2, pre3, i, j),
        pre3[i].entity == pre2[i].entity,
        pre3[j].entity == pre2[j].entity,
        !pair_skipped(pre3[i].shape, pre3[j].shape),
        !spec_overlapping(pre3[i], pre3[j]),
    ensures
        // recorded as colliding on tick N
        post1[i].shape.collisions@.contains(pre1[j].entity),
        post1[j].shape.collisions@.contains(pre1[i].entity),
        // the exit pulse fires exactly on tick N+1 ...
        post2[i].shape.collisions_just_ended@.contains(pre1[j].entity),
        post2[j].shape.collisions_just_ended@.contains(pre1[i].entity),
        !post2[i].shape.collisions@.contains(pre1[j].entity),
        !post2[j].shape.collisions@.contains(pre1[i].entity),
        // ... and is gone again on tick N+2
        !post3[i].shape.collisions_just_ended@.contains(pre1[j].entity),
        !post3[j].shape.collisions_just_ended@.contains(pre1[i].entity),
{
    assert(resolved_toward(pre1, post1, i, j));
    assert(resolved_toward(pre1, post1, j, i));
    assert(spec_overlapping(pre1[j], pre1[i]));
    assert(resolved_toward(pre2, post2, i, j));
    assert(resolved_toward(pre2, post2, j, i));
    assert(!spec_overlapping(pre2[j], pre2[i]));
    assert(resolved_toward(pre3, post3, i, j));
    assert(resolved_toward(pre3, post3, j, i));
    assert(!spec_overlapping(pre3[j], pre3[i]));
}

} // verus!
