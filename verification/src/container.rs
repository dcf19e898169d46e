//! The fixed-capacity container and its basic operations.

use vstd::prelude::*;

verus! {

/// A sequence container holding at most `S` elements of a copyable type.
///
/// The logical elements always occupy a contiguous prefix of the backing
/// store; the capacity `S` is fixed by the type and never changes. Every
/// operation that would grow the container past `S` elements silently
/// discards the excess instead of signalling an error.
pub struct StackVec<T: Copy, const S: usize> {
    pub(crate) buffer: Vec<T>,
}

impl<T: Copy, const S: usize> View for StackVec<T, S> {
    type V = Seq<T>;

    open(crate) spec fn view(&self) -> Seq<T> {
        self.buffer@
    }
}

/// The result of appending `v` to contents `s` under capacity `cap`:
/// appended when there is room, unchanged when the container is full.
pub open spec fn push_spec<T>(s: Seq<T>, cap: int, v: T) -> Seq<T> {
    if s.len() < cap {
        s.push(v)
    } else {
        s
    }
}

/// The result of appending contents `t` to contents `s` under capacity
/// `cap`: elements of `t` beyond the remaining room are silently dropped.
pub open spec fn join_spec<T>(s: Seq<T>, cap: int, t: Seq<T>) -> Seq<T>
    recommends
        s.len() <= cap,
{
    if s.len() + t.len() <= cap {
        s + t
    } else {
        s + t.subrange(0, cap - s.len())
    }
}

/// The result of appending every element of `vs` in order to contents `s`
/// under capacity `cap`, each through `push_spec`.
pub open spec fn push_all_spec<T>(s: Seq<T>, cap: int, vs: Seq<T>) -> Seq<T>
    decreases vs.len(),
{
    if vs.len() == 0 {
        s
    } else {
        push_all_spec(push_spec(s, cap, vs.first()), cap, vs.drop_first())
    }
}

impl<T: Copy, const S: usize> StackVec<T, S> {
    /// The container's invariant: the logical contents never exceed the
    /// fixed capacity.
    pub open spec fn wf(&self) -> bool {
        self@.len() <= S
    }

    /// The logical contents live in a real vector, so their number fits in
    /// a machine word.
    pub proof fn lemma_len_fits(&self)
        ensures
            self@.len() <= usize::MAX,
    {
        broadcast use vstd::std_specs::vec::axiom_spec_len;

        assert(vstd::std_specs::vec::spec_vec_len(&self.buffer) == self.buffer@.len());
    }

    /// Creates an empty container.
    pub fn new() -> (r: Self)
        ensures
            r.wf(),
            r@ == Seq::<T>::empty(),
    {
        StackVec { buffer: Vec::new() }
    }

    /// Appends `value` if there is room; a full container is left unchanged
    /// and the value is silently discarded.
    pub fn push(&mut self, value: T)
        requires
            old(self).wf(),
        ensures
            final(self).wf(),
            final(self)@ == push_spec(old(self)@, S as int, value),
            old(self)@.len() < S ==> final(self)@ == old(self)@.push(value),
            old(self)@.len() == S ==> final(self)@ == old(self)@,
    {
        if self.buffer.len() < S {
            self.buffer.push(value);
        }
    }

    /// Removes and returns the last element, or returns `None` on an empty
    /// container.
    pub fn pop(&mut self) -> (r: Option<T>)
        requires
            old(self).wf(),
        ensures
            final(self).wf(),
            old(self)@.len() == 0 ==> r is None && final(self)@ == old(self)@,
            old(self)@.len() > 0 ==> r == Some(old(self)@.last()) && final(self)@
                == old(self)@.drop_last(),
    {
        self.buffer.pop()
    }

    /// The number of logical elements.
    pub fn len(&self) -> (r: usize)
        ensures
            r == self@.len(),
    {
        self.buffer.len()
    }

    /// The fixed capacity.
    pub fn capacity(&self) -> (r: usize)
        ensures
            r == S,
    {
        S
    }

    /// Removes every element.
    pub fn clear(&mut self)
        ensures
            final(self).wf(),
            final(self)@ == Seq::<T>::empty(),
    {
        self.buffer.clear()
    }

    /// Returns the element at `index`, or `None` when `index` is at or past
    /// the logical end.
    pub fn get(&self, index: usize) -> (r: Option<T>)
        ensures
            index < self@.len() ==> r == Some(self@[index as int]),
            index >= self@.len() ==> r is None,
    {
        if index < self.buffer.len() {
            Some(self.buffer[index])
        } else {
            None
        }
    }

    /// Reverses the logical contents in place by swapping from both ends
    /// toward the middle.
    pub fn rev(&mut self)
        requires
            old(self).wf(),
        ensures
            final(self).wf(),
            final(self)@ == old(self)@.reverse(),
    {
        let n = self.buffer.len();
        let half = n / 2;
        let mut i: usize = 0;
        while i < half
            invariant
                i <= half,
                half == n / 2,
                n == self.buffer@.len(),
                n == old(self).buffer@.len(),
                forall|k: int| 0 <= k < i ==> self.buffer@[k] == old(self).buffer@[n - 1 - k],
                forall|k: int| 0 <= k < i ==> self.buffer@[n - 1 - k] == old(self).buffer@[k],
                forall|k: int| i <= k < n - i ==> self.buffer@[k] == old(self).buffer@[k],
            decreases half - i,
        {
            let j = n - 1 - i;
            let a = self.buffer[i];
            let b = self.buffer[j];
            self.buffer[i] = b;
            self.buffer[j] = a;
            i = i + 1;
        }
        proof {
            assert(self.buffer@ =~= old(self).buffer@.reverse());
        }
    }

    /// Moves the elements from `index` on into a new container of the same
    /// capacity, truncating `self` to `index` elements. When `index` is at
    /// or past the logical end, `self` is unchanged and the result is empty.
    pub fn split(&mut self, index: usize) -> (other: Self)
        requires
            old(self).wf(),
        ensures
            final(self).wf(),
            other.wf(),
            index >= old(self)@.len() ==> final(self)@ == old(self)@ && other@ == Seq::<
                T,
            >::empty(),
            index < old(self)@.len() ==> final(self)@ == old(self)@.subrange(0, index as int)
                && other@ == old(self)@.subrange(index as int, old(self)@.len() as int),
    {
        if index >= self.buffer.len() {
            Self::new()
        } else {
            let mut other = Self::new();
            let n = self.buffer.len();
            let mut i = index;
            while i < n
                invariant
                    index <= i <= n,
                    n == self.buffer@.len() <= S,
                    self.buffer@ == old(self).buffer@,
                    other.buffer@ == old(self).buffer@.subrange(index as int, i as int),
                decreases n - i,
            {
                other.buffer.push(self.buffer[i]);
                i = i + 1;
                proof {
                    assert(other.buffer@ =~= old(self).buffer@.subrange(
                        index as int,
                        i as int,
                    ));
                }
            }
            self.buffer.truncate(index);
            other
        }
    }

    /// Appends each element of `other` in order through `push`, so elements
    /// beyond `self`'s remaining room are silently dropped.
    pub fn join(&mut self, other: Self)
        requires
            old(self).wf(),
            other.wf(),
        ensures
            final(self).wf(),
            final(self)@ == join_spec(old(self)@, S as int, other@),
    {
        let m = other.buffer.len();
        let mut k: usize = 0;
        while k < m
            invariant
                k <= m,
                m == other.buffer@.len(),
                self.wf(),
                old(self).wf(),
                self@ == join_spec(old(self)@, S as int, other@.subrange(0, k as int)),
            decreases m - k,
        {
            let ghost before = self@;
            self.push(other.buffer[k]);
            k = k + 1;
            proof {
                let s0 = old(self)@;
                let t = other.buffer@;
                if s0.len() + k <= S {
                    assert(self@ =~= s0 + t.subrange(0, k as int));
                } else {
                    assert(before.len() == S);
                    assert(self@ =~= s0 + t.subrange(0, S - s0.len()));
                }
                assert(self@ =~= join_spec(s0, S as int, t.subrange(0, k as int)));
            }
        }
        proof {
            assert(other.buffer@.subrange(0, m as int) =~= other.buffer@);
        }
    }

    /// Builds a container from a fixed-size source array, copying only the
    /// first `S` elements when the source is larger than the capacity.
    pub fn from_array<const Z: usize>(value: [T; Z]) -> (r: Self)
        ensures
            r.wf(),
            Z <= S ==> r@ == value@,
            Z > S ==> r@ == value@.subrange(0, S as int),
    {
        let limit = if Z > S {
            S
        } else {
            Z
        };
        let mut r = Self::new();
        let mut i: usize = 0;
        while i < limit
            invariant
                i <= limit,
                limit <= S,
                limit <= Z,
                r.buffer@ == value@.subrange(0, i as int),
            decreases limit - i,
        {
            r.buffer.push(value[i]);
            i = i + 1;
            proof {
                assert(r.buffer@ =~= value@.subrange(0, i as int));
            }
        }
        proof {
            if Z <= S {
                assert(value@.subrange(0, Z as int) =~= value@);
            }
        }
        r
    }

    /// Builds a container from a variable-length source vector, copying only
    /// the first `S` elements when the source is longer than the capacity.
    pub fn from_vec(value: Vec<T>) -> (r: Self)
        ensures
            r.wf(),
            value@.len() <= S ==> r@ == value@,
            value@.len() > S ==> r@ == value@.subrange(0, S as int),
    {
        let limit = if value.len() > S {
            S
        } else {
            value.len()
        };
        let mut r = Self::new();
        let mut i: usize = 0;
        while i < limit
            invariant
                i <= limit,
                limit <= S,
                limit <= value@.len(),
                r.buffer@ == value@.subrange(0, i as int),
            decreases limit - i,
        {
            r.buffer.push(value[i]);
            i = i + 1;
            proof {
                assert(r.buffer@ =~= value@.subrange(0, i as int));
            }
        }
        proof {
            if value@.len() <= S {
                assert(value@.subrange(0, value@.len() as int) =~= value@);
            }
        }
        r
    }
}

} // verus!
