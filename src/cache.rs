use vstd::prelude::*;

verus! {

/// Section contents by section index, filled on first request.
///
/// An entry, once there, is never replaced: every later request for that
/// section gets the same buffer.
pub struct DataCache<B> {
    slots: Vec<(usize, B)>,
}

impl<B> DataCache<B> {
    /// The cached buffers by section index.
    pub closed spec fn view(&self) -> Map<usize, B> {
        Map::new(
            |k: usize| exists|i: int| 0 <= i < self.slots@.len() && self.slots@[i].0 == k,
            |k: usize|
                self.slots@[choose|i: int| 0 <= i < self.slots@.len() && self.slots@[i].0 == k].1,
        )
    }

    /// Each section index occurs at most once.
    pub closed spec fn wf(&self) -> bool {
        forall|i: int, j: int|
            0 <= i < j < self.slots@.len() ==> self.slots@[i].0 != self.slots@[j].0
    }

    pub fn new() -> (r: DataCache<B>)
        ensures
            r.wf(),
            r.view() == Map::<usize, B>::empty(),
    {
        let r = DataCache { slots: Vec::new() };
        assert(r.view() =~= Map::<usize, B>::empty());
        r
    }

    /// The buffer cached for section `idx`, if any.
    pub fn get(&self, idx: usize) -> (r: Option<&B>)
        requires
            self.wf(),
        ensures
            match r {
                Some(b) => self.view().contains_key(idx) && *b == self.view()[idx],
                None => !self.view().contains_key(idx),
            },
    {
        let mut i: usize = 0;
        while i < self.slots.len()
            invariant
                self.wf(),
                i <= self.slots@.len(),
                forall|m: int| 0 <= m < i ==> self.slots@[m].0 != idx,
            decreases self.slots@.len() - i,
        {
            if self.slots[i].0 == idx {
                proof {
                    let c = choose|c: int| 0 <= c < self.slots@.len() && self.slots@[c].0 == idx;
                    assert(c == i as int) by {
                        if c != i {
                            if c < i {
                            } else {
                                assert(self.slots@[i as int].0 != self.slots@[c].0);
                            }
                        }
                    }
                    assert(self.view().contains_key(idx));
                }
                return Some(&self.slots[i].1);
            }
            i = i + 1;
        }
        None
    }

    /// Caches `b` for section `idx`, which has no entry yet; the other
    /// entries stay as they are.
    pub fn insert(&mut self, idx: usize, b: B)
        requires
            old(self).wf(),
            !old(self).view().contains_key(idx),
        ensures
            final(self).wf(),
            final(self).view() == old(self).view().insert(idx, b),
    {
        let ghost before = self.slots@;
        let ghost old_view = self.view();
        self.slots.push((idx, b));
        proof {
            let after = self.slots@;
            let want = old_view.insert(idx, b);
            assert forall|k: usize| #[trigger] self.view().contains_key(k) == want.contains_key(k) by {
                if exists|i: int| 0 <= i < after.len() && after[i].0 == k {
                    let i = choose|i: int| 0 <= i < after.len() && after[i].0 == k;
                    if i < before.len() {
                        assert(before[i].0 == k);
                    }
                }
                if k != idx && exists|i: int| 0 <= i < before.len() && before[i].0 == k {
                    let i = choose|i: int| 0 <= i < before.len() && before[i].0 == k;
                    assert(after[i].0 == k);
                }
                if k == idx {
                    assert(after[before.len() as int].0 == k);
                }
            }
            assert forall|k: usize| #[trigger] self.view().contains_key(k) implies self.view()[k]
                == want[k] by {
                let c = choose|c: int| 0 <= c < after.len() && after[c].0 == k;
                if k == idx {
                    assert(c == before.len() as int) by {
                        if c < before.len() {
                            assert(before[c].0 == idx);
                        }
                    }
                } else {
                    let d = choose|d: int| 0 <= d < before.len() && before[d].0 == k;
                    assert(after[d].0 == k);
                    assert(c == d) by {
                        if c != d {
                            if c < before.len() {
                                if c < d {
                                    assert(before[c].0 != before[d].0);
                                } else {
                                    assert(before[d].0 != before[c].0);
                                }
                            }
                        }
                    }
                }
            }
            assert(self.view() =~= want);
        }
    }
}

/// A buffer, once cached, is what later lookups of its section return:
/// caching other sections leaves it in place.
pub proof fn lemma_cached_buffer_stays<B>(m: Map<usize, B>, idx: usize, other: usize, b: B)
    requires
        m.contains_key(idx),
        !m.contains_key(other),
    ensures
        m.insert(other, b).contains_key(idx),
        m.insert(other, b)[idx] == m[idx],
{
}

} // verus!
