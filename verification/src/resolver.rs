//! The overlap resolver: pairwise testing of every unordered pair of
//! collision volumes, under category-mask filtering, updating each volume's
//! collision-state sets.
//!
//! The world is an arena of [`Collidable`] entries indexed by position, as
//! the resolver needs to mutate two entries of the same collection per pair.
//! The contract of [`process_collisions`] pins the outcome per key: for each
//! entry, membership of every other entry's owner identity in its two sets
//! is fully determined by the pair's masks, geometry and previous state, and
//! membership of every other identity is untouched.

use vstd::prelude::*;
use crate::shape::CollisionShape;
use crate::shape::can_collide;
use crate::shape::collide;
use crate::shape::spec_can_collide;
use crate::shape::spec_overlaps;

verus! {

/// One entry of the collision arena: a volume, its owner entity's identity,
/// and the owner's current world position.
pub struct Collidable {
    /// The owning entity's identity.
    pub entity: u64,
    /// World x coordinate of the owner (the rectangle's center).
    pub x: i32,
    /// World y coordinate of the owner (the rectangle's center).
    pub y: i32,
    /// The collision volume carried by the owner.
    pub shape: CollisionShape,
}

/// The two entries agree on everything except the two collision-state sets.
pub open spec fn same_static(a: Collidable, b: Collidable) -> bool {
    &&& b.entity == a.entity
    &&& b.x == a.x
    &&& b.y == a.y
    &&& b.shape.uuid == a.shape.uuid
    &&& b.shape.width == a.shape.width
    &&& b.shape.height == a.shape.height
    &&& b.shape.mask == a.shape.mask
    &&& b.shape.collides_with == a.shape.collides_with
    &&& b.shape.timer == a.shape.timer
}

/// The rectangles of the two entries strictly overlap.
pub open spec fn spec_overlapping(a: Collidable, b: Collidable) -> bool {
    spec_overlaps(
        a.x as int,
        a.y as int,
        a.shape.width as int,
        a.shape.height as int,
        b.x as int,
        b.y as int,
        b.shape.width as int,
        b.shape.height as int,
    )
}

/// The pair is skipped entirely: either the two volumes carry the same
/// identity token (a volume must never pair with itself), or at least one
/// direction's mask excludes the other's category.
pub open spec fn pair_skipped(a: CollisionShape, b: CollisionShape) -> bool {
    a.uuid == b.uuid || !spec_can_collide(a, b)
}

/// No owner may appear in two entries: each entity carries at most one
/// collision volume.
pub open spec fn entities_distinct(s: Seq<Collidable>) -> bool {
    forall|a: int, b: int|
        #![trigger s[a].entity, s[b].entity]
        0 <= a < s.len() && 0 <= b < s.len() && a != b ==> s[a].entity != s[b].entity
}

/// Membership of `id` in both of the entry's sets is the same in `c` as in
/// `a`.
pub open spec fn membership_unchanged(a: Collidable, c: Collidable, id: u64) -> bool {
    &&& c.shape.collisions@.contains(id) == a.shape.collisions@.contains(id)
    &&& c.shape.collisions_just_ended@.contains(id)
        == a.shape.collisions_just_ended@.contains(id)
}

/// Some entry other than the one at `i` is owned by `id`.
pub open spec fn owned_by_other(s: Seq<Collidable>, i: int, id: u64) -> bool {
    exists|j: int| 0 <= j < s.len() && j != i && s[j].entity == id
}

/// Identities that own no other entry are never touched by the resolver.
pub open spec fn keys_untouched(pre: Seq<Collidable>, cur: Seq<Collidable>) -> bool {
    forall|i: int, id: u64|
        0 <= i < pre.len() && !owned_by_other(pre, i, id) ==> #[trigger] membership_unchanged(
            pre[i],
            cur[i],
            id,
        )
}

/// How the entry at `i` relates to the entry at `j` after resolution, in
/// terms of the state before the pass: a skipped pair leaves membership of
/// `j`'s owner untouched; an overlapping pair records it in `collisions` and
/// leaves the exit signal alone; a separated pair drops it from
/// `collisions`, raising the exit signal exactly when the overlap was
/// previously recorded.
pub open spec fn resolved_toward(
    pre: Seq<Collidable>,
    post: Seq<Collidable>,
    i: int,
    j: int,
) -> bool
    recommends
        0 <= i < pre.len(),
        0 <= j < pre.len(),
        pre.len() == post.len(),
{
    let a = pre[i];
    let b = pre[j];
    let id = b.entity;
    if pair_skipped(a.shape, b.shape) {
        &&& post[i].shape.collisions@.contains(id) == a.shape.collisions@.contains(id)
        &&& post[i].shape.collisions_just_ended@.contains(id)
            == a.shape.collisions_just_ended@.contains(id)
    } else if spec_overlapping(a, b) {
        &&& post[i].shape.collisions@.contains(id)
        &&& post[i].shape.collisions_just_ended@.contains(id)
            == a.shape.collisions_just_ended@.contains(id)
    } else {
        &&& !post[i].shape.collisions@.contains(id)
        &&& post[i].shape.collisions_just_ended@.contains(id)
            == a.shape.collisions@.contains(id)
    }
}

/// Full contract of one resolver pass over `pre`, yielding `post`.
pub open spec fn collisions_resolved(pre: Seq<Collidable>, post: Seq<Collidable>) -> bool {
    &&& post.len() == pre.len()
    &&& forall|k: int| 0 <= k < pre.len() ==> same_static(pre[k], #[trigger] post[k])
    &&& forall|i: int, j: int|
        0 <= i < pre.len() && 0 <= j < pre.len() && i != j ==> #[trigger] resolved_toward(
            pre,
            post,
            i,
            j,
        )
    &&& keys_untouched(pre, post)
}

/// Exact effect of examining one pair on the first entry's sets, as the
/// set-level update the resolver performs.
pub open spec fn pair_effect(a: Collidable, b: Collidable, a2: Collidable) -> bool {
    let id = b.entity;
    if pair_skipped(a.shape, b.shape) {
        &&& a2.shape.collisions@ == a.shape.collisions@
        &&& a2.shape.collisions_just_ended@ == a.shape.collisions_just_ended@
    } else if spec_overlapping(a, b) {
        &&& a2.shape.collisions@ == a.shape.collisions@.insert(id)
        &&& a2.shape.collisions_just_ended@ == a.shape.collisions_just_ended@
    } else {
        &&& a2.shape.collisions@ == a.shape.collisions@.remove(id)
        &&& a2.shape.collisions_just_ended@ == (if a.shape.collisions@.contains(id) {
            a.shape.collisions_just_ended@.insert(id)
        } else {
            a.shape.collisions_just_ended@.remove(id)
        })
    }
}

/// A pair's effect changes an entry's sets at the other owner's identity
/// only.
proof fn lemma_pair_effect_locality(a: Collidable, b: Collidable, a2: Collidable)
    requires
        pair_effect(a, b, a2),
    ensures
        forall|id: u64| id != b.entity ==> #[trigger] membership_unchanged(a, a2, id),
{
}

/// Membership of `j`'s owner in the sets of the entry at `i` is the same in
/// `cur` as before the pass.
spec fn untouched_toward(
    pre: Seq<Collidable>,
    cur: Seq<Collidable>,
    i: int,
    j: int,
) -> bool {
    membership_unchanged(pre[i], cur[i], pre[j].entity)
}

/// A pair `(a, b)` with `a < b` has been examined once the resolver's
/// lexicographic cursor `(ci, cj)` has passed it.
spec fn pair_done(a: int, b: int, ci: int, cj: int) -> bool {
    a < ci || (a == ci && b < cj)
}

/// State of one pair mid-pass: examined pairs are resolved in both
/// directions, unexamined pairs are untouched in both directions.
spec fn pair_state(
    pre: Seq<Collidable>,
    cur: Seq<Collidable>,
    ci: int,
    cj: int,
    a: int,
    b: int,
) -> bool {
    if pair_done(a, b, ci, cj) {
        resolved_toward(pre, cur, a, b) && resolved_toward(pre, cur, b, a)
    } else {
        untouched_toward(pre, cur, a, b) && untouched_toward(pre, cur, b, a)
    }
}

/// All pairs are in the state the cursor `(ci, cj)` dictates.
spec fn inv_pairs(
    pre: Seq<Collidable>,
    cur: Seq<Collidable>,
    ci: int,
    cj: int,
) -> bool {
    forall|a: int, b: int|
        0 <= a < b < pre.len() ==> #[trigger] pair_state(pre, cur, ci, cj, a, b)
}

/// Length and the non-set fields of every entry are unchanged.
spec fn inv_statics(pre: Seq<Collidable>, cur: Seq<Collidable>) -> bool {
    &&& cur.len() == pre.len()
    &&& forall|k: int| 0 <= k < pre.len() ==> same_static(pre[k], #[trigger] cur[k])
}

/// Examine one pair of distinct arena slots and update both entries' sets.
fn resolve_pair(world: &mut Vec<Collidable>, i: usize, j: usize)
    requires
        i < old(world)@.len(),
        j < old(world)@.len(),
        i != j,
    ensures
        final(world)@.len() == old(world)@.len(),
        forall|k: int|
            0 <= k < old(world)@.len() && k != i && k != j ==> final(world)@[k] == old(
                world,
            )@[k],
        same_static(old(world)@[i as int], final(world)@[i as int]),
        same_static(old(world)@[j as int], final(world)@[j as int]),
        pair_effect(old(world)@[i as int], old(world)@[j as int], final(world)@[i as int]),
        pair_effect(old(world)@[j as int], old(world)@[i as int], final(world)@[j as int]),
{
    if world[i].shape.uuid == world[j].shape.uuid {
        return ;
    }
    if !can_collide(&world[i].shape, &world[j].shape) {
        return ;
    }
    let overlapping = collide(
        world[i].x,
        world[i].y,
        world[i].shape.width,
        world[i].shape.height,
        world[j].x,
        world[j].y,
        world[j].shape.width,
        world[j].shape.height,
    );
    let ei = world[i].entity;
    let ej = world[j].entity;
    if overlapping {
        world[i].shape.collisions.insert(ej);
        world[j].shape.collisions.insert(ei);
    } else {
        let i_had = world[i].shape.collisions.contains(ej);
        if i_had {
            world[i].shape.collisions.remove(ej);
            world[i].shape.collisions_just_ended.insert(ej);
        } else {
            world[i].shape.collisions_just_ended.remove(ej);
            proof {
                assert(world@[i as int].shape.collisions@ =~= old(world)@[
                    i as int
                ].shape.collisions@.remove(ej));
            }
        }
        let j_had = world[j].shape.collisions.contains(ei);
        if j_had {
            world[j].shape.collisions.remove(ei);
            world[j].shape.collisions_just_ended.insert(ei);
        } else {
            world[j].shape.collisions_just_ended.remove(ei);
            proof {
                assert(world@[j as int].shape.collisions@ =~= old(world)@[
                    j as int
                ].shape.collisions@.remove(ei));
            }
        }
    }
}

/// One full resolver pass: every unordered pair of distinct volumes is
/// examined once, in index order, and both entries' collision-state sets
/// are brought up to date. Total over any well-formed arena; an empty arena
/// is a valid no-op.
#[verifier::loop_isolation(false)]
pub fn process_collisions(world: &mut Vec<Collidable>)
    requires
        entities_distinct(old(world)@),
    ensures
        collisions_resolved(old(world)@, final(world)@),
        entities_distinct(final(world)@),
{
    let ghost pre = world@;
    let n = world.len();
    let mut i: usize = 0;
    while i < n
        invariant
            i <= n,
            inv_statics(pre, world@),
            keys_untouched(pre, world@),
            inv_pairs(pre, world@, i as int, i as int + 1),
        decreases n - i,
    {
        let mut j: usize = i + 1;
        while j < n
            invariant
                i < j <= n,
                inv_statics(pre, world@),
                keys_untouched(pre, world@),
                inv_pairs(pre, world@, i as int, j as int),
            decreases n - j,
        {
            let ghost w0 = world@;
            resolve_pair(world, i, j);
            proof {
                reestablish_invariants(pre, w0, world@, i as int, j as int);
            }
            j = j + 1;
        }
        proof {
            assert forall|a: int, b: int|
                #![trigger pair_state(pre, world@, i as int + 1, i as int + 2, a, b)]
                0 <= a < b < pre.len() implies pair_state(
                pre,
                world@,
                i as int + 1,
                i as int + 2,
                a,
                b,
            ) by {
                assert(pair_state(pre, world@, i as int, n as int, a, b));
            }
            assert(inv_pairs(pre, world@, i as int + 1, i as int + 2));
        }
        i = i + 1;
    }
    proof {
        assert forall|i0: int, j0: int|
            0 <= i0 < pre.len() && 0 <= j0 < pre.len() && i0 != j0 implies resolved_toward(
            pre,
            world@,
            i0,
            j0,
        ) by {
            if i0 < j0 {
                assert(pair_state(pre, world@, n as int, n as int + 1, i0, j0));
            } else {
                assert(pair_state(pre, world@, n as int, n as int + 1, j0, i0));
            }
        }
        assert forall|a: int, b: int|
            #![trigger world@[a].entity, world@[b].entity]
            0 <= a < world@.len() && 0 <= b < world@.len() && a != b implies world@[a].entity
            != world@[b].entity by {
            assert(same_static(pre[a], world@[a]) && same_static(pre[b], world@[b]));
        }
    }
}

/// After examining the pair `(i, j)` the cursor advances one step: the pair
/// itself becomes resolved, every other pair keeps its state, and untouched
/// keys stay untouched.
proof fn reestablish_invariants(
    pre: Seq<Collidable>,
    w0: Seq<Collidable>,
    w1: Seq<Collidable>,
    i: int,
    j: int,
)
    requires
        entities_distinct(pre),
        0 <= i < j < pre.len(),
        inv_statics(pre, w0),
        keys_untouched(pre, w0),
        inv_pairs(pre, w0, i, j),
        w1.len() == w0.len(),
        forall|k: int| 0 <= k < w0.len() && k != i && k != j ==> w1[k] == w0[k],
        same_static(w0[i], w1[i]),
        same_static(w0[j], w1[j]),
        pair_effect(w0[i], w0[j], w1[i]),
        pair_effect(w0[j], w0[i], w1[j]),
    ensures
        inv_statics(pre, w1),
        keys_untouched(pre, w1),
        inv_pairs(pre, w1, i, j + 1),
{
    lemma_pair_effect_locality(w0[i], w0[j], w1[i]);
    lemma_pair_effect_locality(w0[j], w0[i], w1[j]);
    let ei = pre[i].entity;
    let ej = pre[j].entity;
    assert(w0[i].entity == ei && w0[j].entity == ej);

    // The pass touches row i at key ej and row j at key ei only.
    assert forall|r: int, id: u64|
        0 <= r < pre.len() && !(r == i && id == ej) && !(r == j && id == ei)
            implies membership_unchanged(w0[r], w1[r], id) by {
        if r == i {
            assert(membership_unchanged(w0[i], w1[i], id));
        } else if r == j {
            assert(membership_unchanged(w0[j], w1[j], id));
        } else {
            assert(w1[r] == w0[r]);
            assert(membership_unchanged(w0[r], w1[r], id));
        }
    }

    assert forall|k: int| 0 <= k < pre.len() implies same_static(pre[k], #[trigger] w1[k]) by {
        if k != i && k != j {
            assert(w1[k] == w0[k]);
        }
        assert(same_static(pre[k], w0[k]));
    }

    assert forall|r: int, id: u64|
        0 <= r < pre.len() && !owned_by_other(pre, r, id) implies membership_unchanged(
        pre[r],
        w1[r],
        id,
    ) by {
        assert(membership_unchanged(pre[r], w0[r], id));
        if r == i && id == ej {
            assert(0 <= j < pre.len() && j != r && pre[j].entity == id);
            assert(owned_by_other(pre, r, id));
        } else if r == j && id == ei {
            assert(0 <= i < pre.len() && i != r && pre[i].entity == id);
            assert(owned_by_other(pre, r, id));
        } else {
            assert(membership_unchanged(w0[r], w1[r], id));
        }
    }

    // Congruence: the pair's decisions over the current rows equal the
    // decisions over the rows before the whole pass.
    assert(same_static(pre[i], w0[i]) && same_static(pre[j], w0[j]));
    assert(pair_skipped(w0[i].shape, w0[j].shape) == pair_skipped(pre[i].shape, pre[j].shape));
    assert(spec_overlapping(w0[i], w0[j]) == spec_overlapping(pre[i], pre[j]));
    assert(spec_overlapping(w0[j], w0[i]) == spec_overlapping(pre[j], pre[i]));

    assert forall|a: int, b: int|
        #![trigger pair_state(pre, w1, i, j + 1, a, b)]
        0 <= a < b < pre.len() implies pair_state(pre, w1, i, j + 1, a, b) by {
        assert(pair_state(pre, w0, i, j, a, b));
        let ida = pre[a].entity;
        let idb = pre[b].entity;
        if a == i && b == j {
            // The pair just examined: untouched before, resolved now.
            assert(untouched_toward(pre, w0, i, j));
            assert(untouched_toward(pre, w0, j, i));
            assert(resolved_toward(pre, w1, i, j));
            assert(resolved_toward(pre, w1, j, i));
        } else {
            // Any other pair reads row a at key idb and row b at key ida;
            // neither spot was touched, by entity distinctness.
            if a == i {
                assert(b != j);
                assert(idb != ej);
            }
            if a == j {
                assert(idb != ei);
            }
            assert(membership_unchanged(w0[a], w1[a], idb));
            if b == i {
                assert(ida != ej);
            }
            if b == j {
                assert(a != i);
                assert(ida != ei);
            }
            assert(membership_unchanged(w0[b], w1[b], ida));
            assert(pair_done(a, b, i, j + 1) == pair_done(a, b, i, j));
        }
    }
}

} // verus!
