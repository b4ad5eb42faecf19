use vstd::prelude::*;

verus! {

broadcast use vstd::seq_lib::group_to_multiset_ensures;

/// The keys of a sequence never go up from one item to the next.
pub open spec fn keys_descending<T>(s: Seq<(u64, T)>) -> bool {
    forall|i: int, j: int| #![trigger s[i], s[j]] 0 <= i < j < s.len() ==> s[j].0 <= s[i].0
}

/// `out` arranges the items of `input` by the positions `idx`, and items
/// with equal keys stand in `out` in the reverse of their order in `input`
/// (so that, taken from the end, they leave in the order they were given).
pub open spec fn stable_arrangement<T>(input: Seq<(u64, T)>, out: Seq<(u64, T)>, idx: Seq<int>) -> bool {
    &&& idx.len() == out.len() == input.len()
    &&& forall|k: int| 0 <= k < out.len() ==> 0 <= #[trigger] idx[k] < input.len() && out[k] == input[idx[k]]
    &&& forall|a: int, b: int| #![trigger idx[a], idx[b]] 0 <= a < b < out.len() ==> idx[a] != idx[b]
    &&& forall|a: int, b: int|
        #![trigger out[a], out[b]]
        0 <= a < b < out.len() && out[a].0 == out[b].0 ==> idx[a] > idx[b]
}

/// Items that each become due at a time key. Whatever is due soonest leaves
/// first: the items are kept with the keys descending, the soonest last.
pub struct TimedQueue<T> {
    items: Vec<(u64, T)>,
}

impl<T> TimedQueue<T> {
    /// The items, the soonest last.
    pub closed spec fn view(&self) -> Seq<(u64, T)> {
        self.items@
    }

    pub open spec fn wf(&self) -> bool {
        keys_descending(self.view())
    }

    /// A queue of the given items, each with the time at which it becomes
    /// due. Items due at the same time leave in the order they were given.
    pub fn new(items: Vec<(u64, T)>) -> (r: Self)
        ensures
            r.wf(),
            r.view().to_multiset() == items@.to_multiset(),
            exists|idx: Seq<int>| stable_arrangement(items@, r.view(), idx),
    {
        let mut items = items;
        let mut sorted: Vec<(u64, T)> = Vec::new();
        let ghost all = items@;
        let ghost mut idx: Seq<int> = Seq::empty();
        while items.len() > 0
            invariant
                keys_descending(sorted@),
                sorted@.to_multiset().add(items@.to_multiset()) == all.to_multiset(),
                items@ == all.subrange(0, items@.len() as int),
                idx.len() == sorted@.len() == all.len() - items@.len(),
                forall|k: int|
                    0 <= k < sorted@.len() ==> items@.len() <= #[trigger] idx[k] < all.len()
                        && sorted@[k] == all[idx[k]],
                forall|a: int, b: int|
                    #![trigger idx[a], idx[b]]
                    0 <= a < b < sorted@.len() ==> idx[a] != idx[b],
                forall|a: int, b: int|
                    #![trigger sorted@[a], sorted@[b]]
                    0 <= a < b < sorted@.len() && sorted@[a].0 == sorted@[b].0 ==> idx[a] > idx[b],
            decreases items@.len(),
        {
            let ghost rest = items@;
            let item = items.pop().unwrap();
            let ghost m = items@.len() as int;
            assert(rest =~= items@.push(item));
            assert(item == all[m]);
            assert(items@ =~= all.subrange(0, m));
            let mut i: usize = 0;
            while i < sorted.len() && sorted[i].0 >= item.0
                invariant
                    i <= sorted@.len(),
                    keys_descending(sorted@),
                    forall|k: int| 0 <= k < i ==> sorted@[k].0 >= item.0,
                decreases sorted@.len() - i,
            {
                i = i + 1;
            }
            let ghost before = sorted@;
            sorted.insert(i, item);
            assert(sorted@ == before.insert(i as int, item));
            assert(keys_descending(sorted@)) by {
                assert forall|a: int, b: int| 0 <= a < b < sorted@.len() implies sorted@[b].0
                    <= sorted@[a].0 by {
                    if b < i {
                    } else if b == i {
                    } else if a < i {
                        assert(sorted@[b] == before[b - 1]);
                        if i < before.len() {
                            assert(before[i as int].0 <= item.0);
                            assert(before[b - 1].0 <= before[i as int].0);
                        }
                    } else if a == i {
                        assert(before[b - 1].0 <= before[i as int].0);
                    } else {
                        assert(sorted@[a] == before[a - 1]);
                        assert(sorted@[b] == before[b - 1]);
                    }
                }
            }
            proof {
                vstd::seq_lib::to_multiset_insert(before, i as int, item);
                vstd::seq_lib::to_multiset_build(items@, item);
                assert(sorted@.to_multiset().add(items@.to_multiset()) =~= all.to_multiset());
                let old_idx = idx;
                idx = old_idx.insert(i as int, m);
                assert forall|k: int|
                    0 <= k < sorted@.len() implies items@.len() <= #[trigger] idx[k] < all.len()
                        && sorted@[k] == all[idx[k]] by {
                    if k < i {
                        assert(idx[k] == old_idx[k]);
                    } else if k > i {
                        assert(idx[k] == old_idx[k - 1]);
                        assert(sorted@[k] == before[k - 1]);
                    }
                }
                assert forall|a: int, b: int|
                    #![trigger idx[a], idx[b]]
                    0 <= a < b < sorted@.len() implies idx[a] != idx[b] by {
                    if a != i && b != i {
                        let a0 = if a < i { a } else { a - 1 };
                        let b0 = if b < i { b } else { b - 1 };
                        assert(idx[a] == old_idx[a0]);
                        assert(idx[b] == old_idx[b0]);
                    } else if a == i {
                        assert(idx[b] == old_idx[b - 1]);
                    } else {
                        assert(idx[a] == old_idx[a]);
                    }
                }
                assert forall|a: int, b: int|
                    #![trigger sorted@[a], sorted@[b]]
                    0 <= a < b < sorted@.len() && sorted@[a].0 == sorted@[b].0 implies idx[a]
                        > idx[b] by {
                    if a != i && b != i {
                        let a0 = if a < i { a } else { a - 1 };
                        let b0 = if b < i { b } else { b - 1 };
                        assert(idx[a] == old_idx[a0]);
                        assert(idx[b] == old_idx[b0]);
                        assert(sorted@[a] == before[a0]);
                        assert(sorted@[b] == before[b0]);
                    } else if a == i {
                        assert(sorted@[b] == before[b - 1]);
                        assert(before[i as int].0 < item.0);
                        assert(before[b - 1].0 <= before[i as int].0);
                    } else {
                        assert(idx[a] == old_idx[a]);
                    }
                }
            }
        }
        assert(stable_arrangement(all, sorted@, idx));
        TimedQueue { items: sorted }
    }

    /// Takes out the soonest item if it is due at `before` or earlier.
    pub fn next_before(&mut self, before: u64) -> (r: Option<T>)
        requires
            old(self).wf(),
        ensures
            final(self).wf(),
            old(self).view().len() > 0 && old(self).view().last().0 <= before ==> r == Some(
                old(self).view().last().1,
            ) && final(self).view() == old(self).view().drop_last(),
            !(old(self).view().len() > 0 && old(self).view().last().0 <= before) ==> r is None
                && final(self).view() == old(self).view(),
    {
        let n = self.items.len();
        if n == 0 || self.items[n - 1].0 > before {
            return None;
        }
        let (_, item) = self.items.pop().unwrap();
        Some(item)
    }

    pub fn is_empty(&self) -> (r: bool)
        ensures
            r == (self.view().len() == 0),
    {
        self.items.len() == 0
    }

    pub fn len(&self) -> (r: usize)
        ensures
            r == self.view().len(),
    {
        self.items.len()
    }

    /// The `i`-th item and its key, counted from the latest.
    pub fn get(&self, i: usize) -> (r: (u64, &T))
        requires
            i < self.view().len(),
        ensures
            r.0 == self.view()[i as int].0,
            *r.1 == self.view()[i as int].1,
    {
        (self.items[i].0, &self.items[i].1)
    }
}

/// Draining a queue: the item that leaves is due no later than any item
/// that stays, and it leaves exactly once (the items that stay are the
/// others).
pub proof fn lemma_soonest_leaves_first<T>(q: TimedQueue<T>, before: u64, item: T, after: TimedQueue<T>)
    requires
        q.wf(),
        q.view().len() > 0,
        q.view().last().0 <= before,
        q.view().last().1 == item,
        after.view() == q.view().drop_last(),
    ensures
        after.wf(),
        forall|k: int| 0 <= k < after.view().len() ==> q.view().last().0 <= #[trigger] after.view()[k].0,
        after.view().to_multiset().insert(q.view().last()) == q.view().to_multiset(),
{
    let s = q.view();
    assert(s =~= s.drop_last().push(s.last()));
    vstd::seq_lib::to_multiset_build(s.drop_last(), s.last());
    assert forall|k: int| 0 <= k < after.view().len() implies s.last().0 <= #[trigger] after.view()[k].0 by {
        assert(after.view()[k] == s[k]);
    }
}

} // verus!
