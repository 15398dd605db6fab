//! Sets of entity identities, used for a volume's per-tick collision state.
//!
//! The view of an [`IdSet`] is the mathematical `Set<u64>` of identities it
//! holds; all contracts are stated over that view.

use vstd::prelude::*;

verus! {

/// A finite set of entity identities backed by a vector.
pub struct IdSet {
    ids: Vec<u64>,
}

impl View for IdSet {
    type V = Set<u64>;

    closed spec fn view(&self) -> Set<u64> {
        Set::new(|id: u64| self.ids@.contains(id))
    }
}

impl IdSet {
    pub fn new() -> (s: IdSet)
        ensures
            s@ == Set::<u64>::empty(),
    {
        let s = IdSet { ids: Vec::new() };
        proof {
            assert(s@ =~= Set::<u64>::empty());
        }
        s
    }

    pub fn contains(&self, id: u64) -> (r: bool)
        ensures
            r == self@.contains(id),
    {
        let mut k: usize = 0;
        while k < self.ids.len()
            invariant
                k <= self.ids@.len(),
                forall|m: int| 0 <= m < k ==> self.ids@[m] != id,
            decreases self.ids@.len() - k,
        {
            if self.ids[k] == id {
                return true;
            }
            k = k + 1;
        }
        false
    }

    pub fn insert(&mut self, id: u64)
        ensures
            final(self)@ == old(self)@.insert(id),
    {
        let already = self.contains(id);
        if !already {
            self.ids.push(id);
            proof {
                assert forall|x: u64| self@.contains(x) <==> old(self)@.insert(id).contains(x) by {
                    if old(self).ids@.contains(x) {
                        let m = choose|m: int|
                            0 <= m < old(self).ids@.len() && old(self).ids@[m] == x;
                        assert(self.ids@[m] == x);
                    }
                    if self.ids@.contains(x) {
                        let m = choose|m: int| 0 <= m < self.ids@.len() && self.ids@[m] == x;
                        if m < old(self).ids@.len() {
                            assert(old(self).ids@[m] == x);
                        }
                    }
                    assert(self.ids@[old(self).ids@.len() as int] == id);
                }
                assert(self@ =~= old(self)@.insert(id));
            }
        } else {
            proof {
                assert(self@ =~= old(self)@.insert(id));
            }
        }
    }

    pub fn remove(&mut self, id: u64)
        ensures
            final(self)@ == old(self)@.remove(id),
    {
        let mut kept: Vec<u64> = Vec::new();
        let mut k: usize = 0;
        while k < self.ids.len()
            invariant
                k <= self.ids@.len(),
                self.ids@ == old(self).ids@,
                forall|x: u64|
                    #[trigger] kept@.contains(x) <==> (x != id && exists|m: int|
                        0 <= m < k && self.ids@[m] == x),
            decreases self.ids@.len() - k,
        {
            let v = self.ids[k];
            if v != id {
                let ghost prev = kept@;
                kept.push(v);
                proof {
                    assert forall|x: u64|
                        #[trigger] kept@.contains(x) <==> (x != id && exists|m: int|
                            0 <= m < k + 1 && self.ids@[m] == x) by {
                        if prev.contains(x) {
                            let m = choose|m: int| 0 <= m < prev.len() && prev[m] == x;
                            assert(kept@[m] == x);
                        }
                        if kept@.contains(x) {
                            let m = choose|m: int| 0 <= m < kept@.len() && kept@[m] == x;
                            if m < prev.len() {
                                assert(prev[m] == x);
                            }
                        }
                        assert(kept@[prev.len() as int] == v);
                        if x != id && exists|m: int| 0 <= m < k + 1 && self.ids@[m] == x {
                            let m = choose|m: int| 0 <= m < k + 1 && self.ids@[m] == x;
                            if m < k {
                                assert(prev.contains(x));
                            }
                        }
                    }
                }
            } else {
                proof {
                    assert forall|x: u64|
                        #[trigger] kept@.contains(x) <==> (x != id && exists|m: int|
                            0 <= m < k + 1 && self.ids@[m] == x) by {
                        if x != id && exists|m: int| 0 <= m < k + 1 && self.ids@[m] == x {
                            let m = choose|m: int| 0 <= m < k + 1 && self.ids@[m] == x;
                            assert(0 <= m < k && self.ids@[m] == x);
                        }
                    }
                }
            }
            k = k + 1;
        }
        self.ids = kept;
        proof {
            assert(self@ =~= old(self)@.remove(id));
        }
    }

    /// The identities in this set, as a plain vector for consumers.
    pub fn members(&self) -> (v: Vec<u64>)
        ensures
            forall|x: u64| #[trigger] v@.contains(x) <==> self@.contains(x),
    {
        let mut out: Vec<u64> = Vec::new();
        let mut k: usize = 0;
        while k < self.ids.len()
            invariant
                k <= self.ids@.len(),
                forall|x: u64|
                    #[trigger] out@.contains(x) <==> exists|m: int|
                        0 <= m < k && self.ids@[m] == x,
            decreases self.ids@.len() - k,
        {
            let v = self.ids[k];
            let ghost prev = out@;
            out.push(v);
            proof {
                assert forall|x: u64|
                    #[trigger] out@.contains(x) <==> exists|m: int|
                        0 <= m < k + 1 && self.ids@[m] == x by {
                    if prev.contains(x) {
                        let m = choose|m: int| 0 <= m < prev.len() && prev[m] == x;
                        assert(out@[m] == x);
                    }
                    if out@.contains(x) {
                        let m = choose|m: int| 0 <= m < out@.len() && out@[m] == x;
                        if m < prev.len() {
                            assert(prev[m] == x);
                        }
                    }
                    assert(out@[prev.len() as int] == v);
                    if exists|m: int| 0 <= m < k + 1 && self.ids@[m] == x {
                        let m = choose|m: int| 0 <= m < k + 1 && self.ids@[m] == x;
                        if m < k {
                            assert(prev.contains(x));
                        }
                    }
                }
            }
            k = k + 1;
        }
        out
    }
}

} // verus!
