//! A read-only cursor over a container's logical elements.

use vstd::prelude::*;

use crate::container::StackVec;

verus! {

/// A non-owning, read-only cursor that walks a container from index 0 to
/// its logical end, never reading past it. It must be requested anew for
/// re-iteration; once exhausted it stays exhausted.
pub struct StackVecIter<'v, T: Copy, const S: usize> {
    vec: &'v StackVec<T, S>,
    index: usize,
}

impl<'v, T: Copy, const S: usize> StackVecIter<'v, T, S> {
    /// The contents of the container being walked.
    pub closed spec fn elems(&self) -> Seq<T> {
        self.vec@
    }

    /// The cursor's position: the number of elements already yielded.
    pub closed spec fn pos(&self) -> int {
        self.index as int
    }

    /// The cursor's invariant: the position never passes the logical end.
    pub open spec fn wf(&self) -> bool {
        0 <= self.pos() <= self.elems().len()
    }

    /// Yields the element at the current position and advances, or returns
    /// `None` on every call once the end is reached.
    pub fn next(&mut self) -> (r: Option<T>)
        requires
            old(self).wf(),
        ensures
            final(self).wf(),
            final(self).elems() == old(self).elems(),
            old(self).pos() < old(self).elems().len() ==> r == Some(
                old(self).elems()[old(self).pos()],
            ) && final(self).pos() == old(self).pos() + 1,
            old(self).pos() >= old(self).elems().len() ==> r is None && final(self).pos()
                == old(self).pos(),
    {
        match self.vec.get(self.index) {
            Some(v) => {
                proof {
                    self.vec.lemma_len_fits();
                }
                self.index = self.index + 1;
                Some(v)
            },
            None => None,
        }
    }
}

impl<T: Copy, const S: usize> StackVec<T, S> {
    /// Creates a cursor over the current contents, positioned at the start.
    pub fn iter(&self) -> (r: StackVecIter<'_, T, S>)
        ensures
            r.wf(),
            r.elems() == self@,
            r.pos() == 0,
    {
        StackVecIter { vec: self, index: 0 }
    }
}

} // verus!
