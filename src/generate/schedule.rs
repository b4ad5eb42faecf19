use crate::generate::queue::{stable_arrangement, TimedQueue};
use vstd::prelude::*;

verus! {

/// How many items at the end of `s` (the soonest) are due at `now`.
pub open spec fn due_count<T>(s: Seq<(u64, T)>, now: u64) -> nat
    decreases s.len(),
{
    if s.len() > 0 && s.last().0 <= now {
        1 + due_count(s.drop_last(), now)
    } else {
        0
    }
}

/// The items of `s` that are due at `now`, the soonest first.
pub open spec fn due_items<T>(s: Seq<(u64, T)>, now: u64) -> Seq<T>
    decreases s.len(),
{
    if s.len() > 0 && s.last().0 <= now {
        seq![s.last().1] + due_items(s.drop_last(), now)
    } else {
        Seq::empty()
    }
}

/// A note is still ringing at `now` if it ends later.
pub open spec fn still_ringing<N>(n: (u64, N), now: u64) -> bool {
    n.0 > now
}

/// The time-scoped events of one track while it plays: notes waiting to
/// start, notes ringing (each with the key of its end), and effects waiting
/// to enter the track's chain.
pub struct TrackEvents<N, E> {
    notes: TimedQueue<(u64, N)>,
    effects: TimedQueue<E>,
    ringing: Vec<(u64, N)>,
}

impl<N, E> TrackEvents<N, E> {
    /// Notes waiting to start, keyed by start, each with its end key.
    pub closed spec fn waiting(&self) -> Seq<(u64, (u64, N))> {
        self.notes.view()
    }

    /// Effects waiting to be applied, keyed by activation.
    pub closed spec fn pending(&self) -> Seq<(u64, E)> {
        self.effects.view()
    }

    /// The ringing notes with their end keys, in the order they started.
    pub closed spec fn ringing(&self) -> Seq<(u64, N)> {
        self.ringing@
    }

    pub open spec fn wf(&self) -> bool {
        &&& crate::generate::queue::keys_descending(self.waiting())
        &&& crate::generate::queue::keys_descending(self.pending())
    }

    /// The events of a track: notes as (start key, (end key, note)) and
    /// effects as (activation key, effect). Nothing rings yet. Events due at
    /// the same time come out in the order they were given.
    pub fn new(notes: Vec<(u64, (u64, N))>, effects: Vec<(u64, E)>) -> (r: Self)
        ensures
            r.wf(),
            r.waiting().to_multiset() == notes@.to_multiset(),
            r.pending().to_multiset() == effects@.to_multiset(),
            exists|idx: Seq<int>| stable_arrangement(notes@, r.waiting(), idx),
            exists|idx: Seq<int>| stable_arrangement(effects@, r.pending(), idx),
            r.ringing() == Seq::<(u64, N)>::empty(),
    {
        TrackEvents {
            notes: TimedQueue::new(notes),
            effects: TimedQueue::new(effects),
            ringing: Vec::new(),
        }
    }

    /// Moves the clock to `now`: hands out the effects that become active,
    /// the soonest first; starts the notes that are due; then drops the
    /// ringing notes that end at `now` or earlier.
    pub fn advance(&mut self, now: u64) -> (r: Vec<E>)
        requires
            old(self).wf(),
        ensures
            final(self).wf(),
            r@ == due_items(old(self).pending(), now),
            final(self).pending() == old(self).pending().subrange(
                0,
                old(self).pending().len() - due_count(old(self).pending(), now),
            ),
            final(self).waiting() == old(self).waiting().subrange(
                0,
                old(self).waiting().len() - due_count(old(self).waiting(), now),
            ),
            final(self).ringing() == (old(self).ringing() + due_items(old(self).waiting(), now)).filter(
                |n: (u64, N)| still_ringing(n, now),
            ),
    {
        let ghost pending0 = self.effects.view();
        let mut activated: Vec<E> = Vec::new();
        loop
            invariant
                self.effects.wf(),
                self.notes.wf(),
                self.waiting() == old(self).waiting(),
                self.ringing() == old(self).ringing(),
                pending0 == old(self).pending(),
                self.effects.view().len() <= pending0.len(),
                self.effects.view() == pending0.subrange(0, self.effects.view().len() as int),
                due_items(pending0, now) == activated@ + due_items(self.effects.view(), now),
                due_count(pending0, now) == (pending0.len() - self.effects.view().len()) + due_count(
                    self.effects.view(),
                    now,
                ),
            ensures
                activated@ == due_items(pending0, now),
                self.effects.view() == pending0.subrange(
                    0,
                    pending0.len() - due_count(pending0, now),
                ),
            decreases self.effects.view().len(),
        {
            let ghost before = self.effects.view();
            let ghost acts = activated@;
            match self.effects.next_before(now) {
                Some(e) => {
                    activated.push(e);
                    assert(before.drop_last() =~= pending0.subrange(0, before.len() - 1));
                    assert(acts + (seq![e] + due_items(before.drop_last(), now)) =~= activated@
                        + due_items(self.effects.view(), now));
                },
                None => {
                    assert(due_count(before, now) == 0);
                    assert(due_items(before, now) =~= Seq::<E>::empty());
                    assert(activated@ + Seq::<E>::empty() =~= activated@);
                    break;
                },
            }
        }
        let ghost waiting0 = self.notes.view();
        let ghost ringing0 = self.ringing@;
        let ghost pending1 = self.effects.view();
        loop
            invariant
                self.notes.wf(),
                self.effects.wf(),
                self.effects.view() == pending1,
                waiting0 == old(self).waiting(),
                ringing0 == old(self).ringing(),
                self.notes.view().len() <= waiting0.len(),
                self.notes.view() == waiting0.subrange(0, self.notes.view().len() as int),
                ringing0 + due_items(waiting0, now) == self.ringing@ + due_items(self.notes.view(), now),
                due_count(waiting0, now) == (waiting0.len() - self.notes.view().len()) + due_count(
                    self.notes.view(),
                    now,
                ),
            ensures
                self.ringing@ == ringing0 + due_items(waiting0, now),
                self.notes.view() == waiting0.subrange(
                    0,
                    waiting0.len() - due_count(waiting0, now),
                ),
            decreases self.notes.view().len(),
        {
            let ghost before = self.notes.view();
            let ghost ring = self.ringing@;
            match self.notes.next_before(now) {
                Some(n) => {
                    self.ringing.push(n);
                    assert(before.drop_last() =~= waiting0.subrange(0, before.len() - 1));
                    assert(ring + (seq![n] + due_items(before.drop_last(), now)) =~= self.ringing@
                        + due_items(self.notes.view(), now));
                },
                None => {
                    assert(due_count(before, now) == 0);
                    assert(due_items(before, now) =~= Seq::<(u64, N)>::empty());
                    assert(self.ringing@ + Seq::<(u64, N)>::empty() =~= self.ringing@);
                    break;
                },
            }
        }
        let ghost all = self.ringing@;
        let ghost waiting1 = self.notes.view();
        let mut cursor: usize = 0;
        let ghost mut j: int = 0;
        while cursor < self.ringing.len()
            invariant
                self.notes.wf(),
                self.effects.wf(),
                self.effects.view() == pending1,
                self.notes.view() == waiting1,
                0 <= cursor <= j <= all.len(),
                self.ringing@.len() == cursor + (all.len() - j),
                self.ringing@.subrange(0, cursor as int) == all.subrange(0, j).filter(
                    |n: (u64, N)| still_ringing(n, now),
                ),
                self.ringing@.subrange(cursor as int, self.ringing@.len() as int) == all.subrange(
                    j,
                    all.len() as int,
                ),
            decreases self.ringing@.len() - cursor,
        {
            let ghost r0 = self.ringing@;
            proof {
                reveal(Seq::filter);
                assert(all.subrange(0, j + 1).drop_last() =~= all.subrange(0, j));
                assert(r0.subrange(cursor as int, r0.len() as int)[0] == r0[cursor as int]);
                assert(all.subrange(j, all.len() as int)[0] == all[j]);
                assert(r0[cursor as int] == all[j]);
            }
            if self.ringing[cursor].0 <= now {
                self.ringing.remove(cursor);
                proof {
                    assert(self.ringing@ == r0.remove(cursor as int));
                    assert(self.ringing@.subrange(0, cursor as int) =~= r0.subrange(0, cursor as int));
                    assert forall|k: int|
                        0 <= k < self.ringing@.len() - cursor implies #[trigger] self.ringing@.subrange(
                        cursor as int,
                        self.ringing@.len() as int,
                    )[k] == all.subrange(j + 1, all.len() as int)[k] by {
                        assert(self.ringing@[cursor + k] == r0[cursor + k + 1]);
                        assert(r0.subrange(cursor as int, r0.len() as int)[k + 1] == r0[cursor + k + 1]);
                    }
                    assert(self.ringing@.subrange(cursor as int, self.ringing@.len() as int)
                        =~= all.subrange(j + 1, all.len() as int));
                }
            } else {
                cursor = cursor + 1;
                proof {
                    assert(self.ringing@.subrange(0, cursor as int) =~= r0.subrange(0, cursor - 1).push(
                        all[j],
                    ));
                    assert forall|k: int|
                        0 <= k < self.ringing@.len() - cursor implies #[trigger] self.ringing@.subrange(
                        cursor as int,
                        self.ringing@.len() as int,
                    )[k] == all.subrange(j + 1, all.len() as int)[k] by {
                        assert(r0.subrange(cursor - 1, r0.len() as int)[k + 1] == r0[cursor + k]);
                    }
                    assert(self.ringing@.subrange(cursor as int, self.ringing@.len() as int)
                        =~= all.subrange(j + 1, all.len() as int));
                }
            }
            proof {
                j = j + 1;
            }
        }
        proof {
            assert(self.ringing@ =~= self.ringing@.subrange(0, cursor as int));
            assert(all.subrange(0, j) =~= all);
        }
        activated
    }

    /// How many notes ring.
    pub fn ringing_len(&self) -> (r: usize)
        ensures
            r == self.ringing().len(),
    {
        self.ringing.len()
    }

    /// The `i`-th ringing note.
    pub fn ringing_note(&self, i: usize) -> (r: &N)
        requires
            i < self.ringing().len(),
        ensures
            *r == self.ringing()[i as int].1,
    {
        &self.ringing[i].1
    }

    /// Nothing waits and nothing rings.
    pub fn is_done(&self) -> (r: bool)
        ensures
            r == (self.waiting().len() == 0 && self.pending().len() == 0 && self.ringing().len()
                == 0),
    {
        self.notes.is_empty() && self.effects.is_empty() && self.ringing.len() == 0
    }
}

} // verus!
