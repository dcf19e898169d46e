//! Searching for a value and removing exact duplicates.

use vstd::prelude::*;

use crate::container::StackVec;

verus! {

/// First-occurrence deduplication: the subsequence of `s` that keeps each
/// value's earliest occurrence and drops every later duplicate, preserving
/// the original order.
pub open spec fn dedup_spec(s: Seq<i64>) -> Seq<i64>
    decreases s.len(),
{
    if s.len() == 0 {
        Seq::empty()
    } else {
        let rest = dedup_spec(s.drop_last());
        if s.drop_last().contains(s.last()) {
            rest
        } else {
            rest.push(s.last())
        }
    }
}

/// Deduplication never lengthens a sequence.
pub proof fn lemma_dedup_len(s: Seq<i64>)
    ensures
        dedup_spec(s).len() <= s.len(),
    decreases s.len(),
{
    if s.len() > 0 {
        lemma_dedup_len(s.drop_last());
    }
}

/// Deduplication keeps exactly the values of the original sequence.
pub proof fn lemma_dedup_contains(s: Seq<i64>, x: i64)
    ensures
        dedup_spec(s).contains(x) <==> s.contains(x),
    decreases s.len(),
{
    if s.len() > 0 {
        let d = s.drop_last();
        let l = s.last();
        let r = dedup_spec(d);
        lemma_dedup_contains(d, x);
        assert(d.contains(x) ==> s.contains(x)) by {
            if d.contains(x) {
                let i = choose|i: int| 0 <= i < d.len() && d[i] == x;
                assert(s[i] == x);
            }
        }
        assert(s.contains(x) ==> d.contains(x) || x == l) by {
            if s.contains(x) {
                let i = choose|i: int| 0 <= i < s.len() && s[i] == x;
                if i < s.len() - 1 {
                    assert(d[i] == x);
                } else {
                    assert(x == l);
                }
            }
        }
        assert(r.push(l).contains(x) <==> r.contains(x) || x == l) by {
            if r.contains(x) {
                let i = choose|i: int| 0 <= i < r.len() && r[i] == x;
                assert(r.push(l)[i] == x);
            }
            if x == l {
                assert(r.push(l)[r.len() as int] == x);
            }
            if r.push(l).contains(x) {
                let i = choose|i: int| 0 <= i < r.push(l).len() && r.push(l)[i] == x;
                if i < r.len() {
                    assert(r[i] == x);
                } else {
                    assert(x == l);
                }
            }
        }
        if d.contains(l) {
            assert(s.contains(l));
        } else {
            assert(s[s.len() - 1] == l);
            assert(s.contains(l));
        }
    }
}

impl<const S: usize> StackVec<i64, S> {
    /// Reports whether some logical element equals `value`.
    pub fn have(&self, value: i64) -> (r: bool)
        ensures
            r == self@.contains(value),
    {
        let n = self.len();
        let mut i: usize = 0;
        while i < n
            invariant
                i <= n,
                n == self@.len(),
                forall|k: int| 0 <= k < i ==> self@[k] != value,
            decreases n - i,
        {
            if let Some(v) = self.get(i) {
                if v == value {
                    assert(self@[i as int] == value);
                    return true;
                }
            }
            i = i + 1;
        }
        false
    }

    /// Rebuilds the container keeping the first occurrence of each value and
    /// dropping later duplicates, preserving the original order. The rebuild
    /// happens only when `1 < len < capacity`; otherwise the container is
    /// left unchanged (a full container has no scratch room of the same
    /// capacity under the silent-truncation policy).
    pub fn distinct(&mut self)
        requires
            old(self).wf(),
        ensures
            final(self).wf(),
            1 < old(self)@.len() < S ==> final(self)@ == dedup_spec(old(self)@),
            !(1 < old(self)@.len() < S) ==> final(self)@ == old(self)@,
    {
        let n = self.len();
        if n > 1 && n < self.capacity() {
            let mut ret = Self::new();
            let mut i: usize = 0;
            while i < n
                invariant
                    i <= n,
                    n == self@.len(),
                    n < S,
                    self@ == old(self)@,
                    ret.wf(),
                    ret@ == dedup_spec(self@.subrange(0, i as int)),
                decreases n - i,
            {
                proof {
                    lemma_dedup_len(self@.subrange(0, i as int));
                }
                if let Some(v) = self.get(i) {
                    proof {
                        lemma_dedup_contains(self@.subrange(0, i as int), v);
                    }
                    if !ret.have(v) {
                        ret.push(v);
                    }
                }
                i = i + 1;
                proof {
                    let p = self@.subrange(0, i as int);
                    assert(p.drop_last() =~= self@.subrange(0, i - 1));
                    assert(ret@ =~= dedup_spec(p));
                }
            }
            proof {
                assert(self@.subrange(0, n as int) =~= self@);
            }
            *self = ret;
        }
    }
}

} // verus!
