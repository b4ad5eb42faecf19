use vstd::prelude::*;

verus! {

/// A ring of a fixed number of slots: each push hands back the oldest value
/// and puts the new one last.
#[derive(Debug)]
pub struct FixedLengthQueue<T: Copy> {
    elements: Vec<T>,
    cursor: usize,
}

impl<T: Copy> FixedLengthQueue<T> {
    /// The values, oldest first.
    pub closed spec fn view(&self) -> Seq<T> {
        self.elements@.subrange(self.cursor as int, self.elements@.len() as int)
            + self.elements@.subrange(0, self.cursor as int)
    }

    pub closed spec fn wf(&self) -> bool {
        self.cursor < self.elements@.len()
    }

    /// `length` slots that all hold `default`.
    pub fn new(length: usize, default: T) -> (r: Self)
        requires
            length > 0,
        ensures
            r.wf(),
            r.view() == Seq::new(length as nat, |i: int| default),
    {
        let mut elements: Vec<T> = Vec::new();
        let mut i: usize = 0;
        while i < length
            invariant
                i <= length,
                elements@ == Seq::new(i as nat, |j: int| default),
            decreases length - i,
        {
            elements.push(default);
            i = i + 1;
            assert(elements@ =~= Seq::new(i as nat, |j: int| default));
        }
        let r = FixedLengthQueue { elements, cursor: 0 };
        assert(r.view() =~= Seq::new(length as nat, |j: int| default));
        r
    }

    /// Puts `element` last and hands back the value that was oldest.
    pub fn push(&mut self, element: T) -> (r: T)
        requires
            old(self).wf(),
        ensures
            final(self).wf(),
            r == old(self).view()[0],
            final(self).view() == old(self).view().drop_first().push(element),
    {
        let popped = self.elements[self.cursor];
        let ghost before = self.view();
        let ghost e = self.elements@;
        let ghost c = self.cursor as int;
        let n = self.elements.len();
        self.elements.set(self.cursor, element);
        self.cursor = if self.cursor + 1 == n {
            0
        } else {
            self.cursor + 1
        };
        proof {
            let e2 = e.update(c, element);
            assert(self.elements@ == e2);
            let want = before.drop_first().push(element);
            if c + 1 < n {
                assert(self.cursor == c + 1);
                assert forall|k: int| 0 <= k < want.len() implies #[trigger] self.view()[k] == want[k] by {
                    if k < n - c - 1 {
                        assert(self.view()[k] == e2[c + 1 + k]);
                        assert(want[k] == before[k + 1]);
                    } else if k < n - 1 {
                        assert(self.view()[k] == e2[k - (n - c - 1)]);
                        assert(want[k] == before[k + 1]);
                    } else {
                        assert(self.view()[k] == e2[c]);
                    }
                }
            } else {
                assert(self.cursor == 0);
                assert forall|k: int| 0 <= k < want.len() implies #[trigger] self.view()[k] == want[k] by {
                    if k < n - 1 {
                        assert(want[k] == before[k + 1]);
                    }
                }
            }
            assert(self.view() =~= want);
        }
        popped
    }

    /// The oldest value.
    pub fn peek(&mut self) -> (r: T)
        requires
            old(self).wf(),
        ensures
            *final(self) == *old(self),
            r == old(self).view()[0],
    {
        self.elements[self.cursor]
    }

    /// Replaces the oldest value by `modifier` of it, puts the result last
    /// and hands it back.
    pub fn modify<F: FnOnce(T) -> T>(&mut self, modifier: F) -> (r: T)
        requires
            old(self).wf(),
            modifier.requires((old(self).view()[0],)),
        ensures
            final(self).wf(),
            modifier.ensures((old(self).view()[0],), r),
            final(self).view() == old(self).view().drop_first().push(r),
    {
        let modified = modifier(self.peek());
        self.push(modified);
        modified
    }
}

} // verus!
