//! The volume lifecycle manager: advances every volume's expiry timer by
//! the tick's elapsed duration and removes the volumes whose one-shot timer
//! has finished, together with their owning entities. Repeating timers never
//! trigger removal.

use vstd::prelude::*;
use crate::resolver::Collidable;
use crate::resolver::collisions_resolved;
use crate::resolver::entities_distinct;
use crate::resolver::process_collisions;
use crate::resolver::same_static;
use crate::shape::CollisionShape;

verus! {

/// The entry with its timer advanced by `delta`; nothing else changes.
pub open spec fn ticked(c: Collidable, delta: u64) -> Collidable {
    Collidable {
        shape: CollisionShape { timer: c.shape.timer.spec_ticked(delta), ..c.shape },
        ..c
    }
}

/// The entry is removed this tick: its timer is one-shot and has finished
/// once advanced by `delta`.
pub open spec fn expires(c: Collidable, delta: u64) -> bool {
    &&& !c.shape.timer.repeating
    &&& c.shape.timer.spec_ticked(delta).spec_finished()
}

/// The arena after one lifecycle pass: every entry's timer advanced, expired
/// entries removed, order and everything else kept.
pub open spec fn survivors(s: Seq<Collidable>, delta: u64) -> Seq<Collidable>
    decreases s.len(),
{
    if s.len() == 0 {
        Seq::empty()
    } else {
        let init = survivors(s.drop_last(), delta);
        if expires(s.last(), delta) {
            init
        } else {
            init.push(ticked(s.last(), delta))
        }
    }
}

/// Advance all timers and prune expired one-shot volumes. Removal is atomic
/// within the tick: an expired entry is gone before any consumer sees the
/// arena again.
#[verifier::loop_isolation(false)]
pub fn tick_collision_shapes(world: &mut Vec<Collidable>, delta: u64)
    requires
        forall|k: int| 0 <= k < old(world)@.len() ==> (#[trigger] old(world)@[k]).shape.timer.wf(),
    ensures
        final(world)@ == survivors(old(world)@, delta),
        forall|k: int|
            0 <= k < final(world)@.len() ==> (#[trigger] final(world)@[k]).shape.timer.wf(),
{
    let ghost pre = world@;
    let mut out: Vec<Collidable> = Vec::new();
    proof {
        assert(pre.skip(0) =~= pre);
        assert(pre.take(0) =~= Seq::<Collidable>::empty());
    }
    while world.len() > 0
        invariant
            world@.len() <= pre.len(),
            world@ == pre.skip(pre.len() - world@.len()),
            out@ == survivors(pre.take(pre.len() - world@.len()), delta),
            forall|m: int| 0 <= m < out@.len() ==> (#[trigger] out@[m]).shape.timer.wf(),
        decreases world@.len(),
    {
        let ghost k = pre.len() - world@.len();
        let ghost taken = pre.take(k + 1);
        let mut c = world.remove(0);
        proof {
            assert(world@ =~= pre.skip(k + 1));
            assert(c == pre[k]);
            assert(taken.drop_last() =~= pre.take(k));
            assert(taken.last() == pre[k]);
        }
        c.shape.timer.tick(delta);
        proof {
            assert(c == ticked(pre[k], delta));
        }
        let repeating = c.shape.timer.repeating;
        let finished = c.shape.timer.finished();
        if repeating || !finished {
            out.push(c);
            proof {
                assert(!expires(pre[k], delta));
                assert(out@ == survivors(taken, delta));
            }
        } else {
            proof {
                assert(expires(pre[k], delta));
                assert(out@ == survivors(taken, delta));
            }
        }
    }
    proof {
        assert(pre.take(pre.len() as int) =~= pre);
    }
    *world = out;
}

/// Every surviving entry originates from a live entry: it is that entry
/// with its timer advanced, and that entry did not expire.
pub proof fn lemma_survivors_source(s: Seq<Collidable>, delta: u64, m: int)
    requires
        0 <= m < survivors(s, delta).len(),
    ensures
        exists|k: int|
            0 <= k < s.len() && survivors(s, delta)[m] == ticked(s[k], delta) && !expires(
                s[k],
                delta,
            ),
    decreases s.len(),
{
    let init = survivors(s.drop_last(), delta);
    if m < init.len() {
        lemma_survivors_source(s.drop_last(), delta, m);
        let k2 = choose|k: int|
            0 <= k < s.drop_last().len() && init[m] == ticked(s.drop_last()[k], delta)
                && !expires(s.drop_last()[k], delta);
        assert(s.drop_last()[k2] == s[k2]);
        assert(survivors(s, delta)[m] == init[m]);
        assert(survivors(s, delta)[m] == ticked(s[k2], delta) && !expires(s[k2], delta));
    } else {
        assert(!expires(s.last(), delta));
        assert(survivors(s, delta)[m] == ticked(s[s.len() - 1], delta));
    }
}

/// Law: an entry whose timer does not expire this tick survives the
/// lifecycle pass, with its timer advanced.
pub proof fn lemma_not_expired_kept(s: Seq<Collidable>, delta: u64, i: int)
    requires
        0 <= i < s.len(),
        !expires(s[i], delta),
    ensures
        survivors(s, delta).contains(ticked(s[i], delta)),
    decreases s.len(),
{
    let init = survivors(s.drop_last(), delta);
    if i == s.len() - 1 {
        assert(survivors(s, delta)[init.len() as int] == ticked(s[i], delta));
    } else {
        assert(s.drop_last()[i] == s[i]);
        lemma_not_expired_kept(s.drop_last(), delta, i);
        let m = choose|m: int| 0 <= m < init.len() && init[m] == ticked(s[i], delta);
        assert(survivors(s, delta)[m] == ticked(s[i], delta));
    }
}

/// Law (repeating immunity): a volume with a repeating timer is never
/// removed by the lifecycle manager, whatever time has elapsed.
pub proof fn lemma_repeating_never_removed(s: Seq<Collidable>, delta: u64, i: int)
    requires
        0 <= i < s.len(),
        s[i].shape.timer.repeating,
    ensures
        survivors(s, delta).contains(ticked(s[i], delta)),
{
    lemma_not_expired_kept(s, delta, i);
}

/// Law (one-shot expiry, removal half): an entry whose one-shot timer
/// finishes this tick is gone from the arena — no surviving entry carries
/// its owner's identity.
pub proof fn lemma_expired_removed(s: Seq<Collidable>, delta: u64, i: int)
    requires
        entities_distinct(s),
        0 <= i < s.len(),
        expires(s[i], delta),
    ensures
        forall|m: int|
            0 <= m < survivors(s, delta).len() ==> (#[trigger] survivors(s, delta)[m]).entity
                != s[i].entity,
{
    assert forall|m: int| 0 <= m < survivors(s, delta).len() implies (#[trigger] survivors(
        s,
        delta,
    )[m]).entity != s[i].entity by {
        lemma_survivors_source(s, delta, m);
        let k = choose|k: int|
            0 <= k < s.len() && survivors(s, delta)[m] == ticked(s[k], delta) && !expires(
                s[k],
                delta,
            );
        if s[k].entity == s[i].entity {
            assert(k == i);
        }
    }
}

/// The lifecycle pass never makes two entries share an owner.
pub proof fn lemma_survivors_distinct(s: Seq<Collidable>, delta: u64)
    requires
        entities_distinct(s),
    ensures
        entities_distinct(survivors(s, delta)),
    decreases s.len(),
{
    if s.len() > 0 {
        let init = survivors(s.drop_last(), delta);
        assert(entities_distinct(s.drop_last())) by {
            assert forall|a: int, b: int|
                #![trigger s.drop_last()[a].entity, s.drop_last()[b].entity]
                0 <= a < s.drop_last().len() && 0 <= b < s.drop_last().len() && a != b implies s.drop_last()[a].entity
                != s.drop_last()[b].entity by {
                assert(s.drop_last()[a] == s[a] && s.drop_last()[b] == s[b]);
            }
        }
        lemma_survivors_distinct(s.drop_last(), delta);
        if !expires(s.last(), delta) {
            let out = survivors(s, delta);
            assert forall|a: int, b: int|
                #![trigger out[a].entity, out[b].entity]
                0 <= a < out.len() && 0 <= b < out.len() && a != b implies out[a].entity
                != out[b].entity by {
                if a < init.len() && b < init.len() {
                    assert(out[a] == init[a] && out[b] == init[b]);
                    assert(init[a].entity != init[b].entity);
                } else if a < init.len() {
                    lemma_survivors_source(s.drop_last(), delta, a);
                    let k = choose|k: int|
                        0 <= k < s.drop_last().len() && init[a] == ticked(
                            s.drop_last()[k],
                            delta,
                        ) && !expires(s.drop_last()[k], delta);
                    assert(out[a].entity == s[k].entity);
                    assert(out[b].entity == s[s.len() - 1].entity);
                } else {
                    lemma_survivors_source(s.drop_last(), delta, b);
                    let k = choose|k: int|
                        0 <= k < s.drop_last().len() && init[b] == ticked(
                            s.drop_last()[k],
                            delta,
                        ) && !expires(s.drop_last()[k], delta);
                    assert(out[b].entity == s[k].entity);
                    assert(out[a].entity == s[s.len() - 1].entity);
                }
            }
        }
    }
}

/// One whole simulation tick, in the enforced order: the lifecycle manager
/// advances timers and prunes expired volumes, then the overlap resolver
/// performs its full pairwise pass over the surviving set.
pub fn run_tick(world: &mut Vec<Collidable>, delta: u64)
    requires
        entities_distinct(old(world)@),
        forall|k: int| 0 <= k < old(world)@.len() ==> (#[trigger] old(world)@[k]).shape.timer.wf(),
    ensures
        collisions_resolved(survivors(old(world)@, delta), final(world)@),
        entities_distinct(final(world)@),
        forall|k: int|
            0 <= k < final(world)@.len() ==> (#[trigger] final(world)@[k]).shape.timer.wf(),
{
    proof {
        lemma_survivors_distinct(old(world)@, delta);
    }
    tick_collision_shapes(world, delta);
    let ghost mid = world@;
    process_collisions(world);
    proof {
        assert forall|k: int|
            0 <= k < world@.len() implies (#[trigger] world@[k]).shape.timer.wf() by {
            assert(same_static(mid[k], world@[k]));
            assert(mid[k].shape.timer.wf());
        }
    }
}

} // verus!
