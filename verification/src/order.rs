//! In-place heap sort over the container's logical contents, ascending and
//! descending.
//!
//! Both sorts run the same engine: build a binary heap inside the backing
//! store by repeated sift-up, then repeatedly swap the root with the last
//! unsorted element and sift down to restore the heap, shrinking the heap
//! boundary each time. The ascending sort uses a max-heap, the descending
//! sort a min-heap; the direction is the `asc` parameter throughout.

use vstd::prelude::*;

use crate::container::StackVec;

verus! {

/// The parent slot of heap slot `i` in the implicit binary-heap layout.
pub open spec fn heap_parent(i: int) -> int {
    (i - 1) / 2
}

/// The element order being sorted toward: `a` before `b`.
pub open spec fn cmp_le(asc: bool, a: i64, b: i64) -> bool {
    if asc {
        a <= b
    } else {
        b <= a
    }
}

/// Sorted toward direction `asc` over the whole sequence.
pub open spec fn sorted_dir(asc: bool, s: Seq<i64>) -> bool {
    forall|p: int, q: int| 0 <= p <= q < s.len() ==> cmp_le(asc, s[p], s[q])
}

/// Nondecreasing order over the whole sequence.
pub open spec fn sorted_asc(s: Seq<i64>) -> bool {
    sorted_dir(true, s)
}

/// Nonincreasing order over the whole sequence.
pub open spec fn sorted_desc(s: Seq<i64>) -> bool {
    sorted_dir(false, s)
}

/// Heap order on the prefix `[0, n)`: every slot's parent comes no earlier
/// in the sort direction (a max-heap when ascending, a min-heap when
/// descending).
spec fn is_heap(asc: bool, s: Seq<i64>, n: int) -> bool {
    forall|k: int| 1 <= k < n ==> cmp_le(asc, s[k], s[heap_parent(k)])
}

/// Heap order on `[0, n)` except possibly on the edge from `j` up to its
/// parent; `j`'s children are still bounded by `j`'s parent.
spec fn heap_except_up(asc: bool, s: Seq<i64>, n: int, j: int) -> bool {
    &&& forall|k: int| 1 <= k < n && k != j ==> cmp_le(asc, s[k], s[heap_parent(k)])
    &&& forall|k: int|
        1 <= k < n && heap_parent(k) == j && j >= 1 ==> cmp_le(asc, s[k], s[heap_parent(j)])
}

/// Heap order on `[0, n)` except possibly on the edges from `j`'s children
/// up to `j`; those children are still bounded by `j`'s parent.
spec fn heap_except_down(asc: bool, s: Seq<i64>, n: int, j: int) -> bool {
    &&& forall|k: int| 1 <= k < n && heap_parent(k) != j ==> cmp_le(asc, s[k], s[heap_parent(k)])
    &&& forall|k: int|
        1 <= k < n && heap_parent(k) == j && j >= 1 ==> cmp_le(asc, s[k], s[heap_parent(j)])
}

/// The slots whose parent is `j` are exactly `2j + 1` and `2j + 2`.
proof fn lemma_parent_bounds(k: int)
    requires
        k >= 1,
    ensures
        0 <= heap_parent(k) < k,
        k == 2 * heap_parent(k) + 1 || k == 2 * heap_parent(k) + 2,
{
}

/// In a heap prefix, the root bounds every element of the prefix.
proof fn lemma_heap_root(asc: bool, s: Seq<i64>, n: int, k: int)
    requires
        is_heap(asc, s, n),
        n <= s.len(),
        0 <= k < n,
    ensures
        cmp_le(asc, s[k], s[0]),
    decreases k,
{
    if k > 0 {
        lemma_parent_bounds(k);
        assert(cmp_le(asc, s[k], s[heap_parent(k)]));
        lemma_heap_root(asc, s, n, heap_parent(k));
    }
}

/// Two sequences that agree from `m` on and hold the same elements overall
/// also hold the same elements below `m`.
proof fn lemma_prefix_multiset(s1: Seq<i64>, s2: Seq<i64>, m: int)
    requires
        0 <= m <= s1.len(),
        s1.len() == s2.len(),
        s1.to_multiset() == s2.to_multiset(),
        forall|k: int| m <= k < s1.len() ==> s1[k] == s2[k],
    ensures
        s1.subrange(0, m).to_multiset() == s2.subrange(0, m).to_multiset(),
{
    broadcast use vstd::multiset::group_multiset_axioms;

    let a1 = s1.subrange(0, m);
    let b1 = s1.subrange(m, s1.len() as int);
    let a2 = s2.subrange(0, m);
    let b2 = s2.subrange(m, s2.len() as int);
    assert(b1 =~= b2);
    assert(s1 =~= a1 + b1);
    assert(s2 =~= a2 + b2);
    vstd::seq_lib::lemma_multiset_commutative(a1, b1);
    vstd::seq_lib::lemma_multiset_commutative(a2, b2);
    assert forall|x: i64| a1.to_multiset().count(x) == a2.to_multiset().count(x) by {
        assert(s1.to_multiset().count(x) == a1.to_multiset().count(x) + b1.to_multiset().count(
            x,
        ));
        assert(s2.to_multiset().count(x) == a2.to_multiset().count(x) + b2.to_multiset().count(
            x,
        ));
    }
    assert(a1.to_multiset() =~= a2.to_multiset());
}

/// Exchanges the elements at `i` and `j`, keeping the multiset of elements.
fn swap_at(v: &mut Vec<i64>, i: usize, j: usize)
    requires
        i < old(v)@.len(),
        j < old(v)@.len(),
    ensures
        final(v)@ == old(v)@.update(i as int, old(v)@[j as int]).update(
            j as int,
            old(v)@[i as int],
        ),
        final(v)@.len() == old(v)@.len(),
        final(v)@.to_multiset() == old(v)@.to_multiset(),
{
    let a = v[i];
    let b = v[j];
    v[i] = b;
    v[j] = a;
    proof {
        broadcast use vstd::multiset::group_multiset_axioms;
        broadcast use vstd::seq_lib::group_to_multiset_ensures;
        broadcast use vstd::seq_lib::to_multiset_update;

        let s = old(v)@;
        if i == j {
            assert(v@ =~= s);
        } else {
            let s1 = s.update(i as int, s[j as int]);
            assert(s.contains(s[i as int]));
            assert(s1.contains(s1[j as int]));
            assert(v@.to_multiset() =~= s.to_multiset());
        }
    }
}

/// Restores the heap order on `[0, start + 1)` by sifting the element at
/// `start` up toward the root.
fn sift_up(v: &mut Vec<i64>, start: usize, asc: bool)
    requires
        start < old(v)@.len(),
        is_heap(asc, old(v)@, start as int),
    ensures
        final(v)@.len() == old(v)@.len(),
        final(v)@.to_multiset() == old(v)@.to_multiset(),
        is_heap(asc, final(v)@, start as int + 1),
{
    let ghost n = start as int + 1;
    let mut j = start;
    proof {
        assert forall|k: int| 1 <= k < n && heap_parent(k) == j implies false by {
            lemma_parent_bounds(k);
        }
    }
    loop
        invariant
            n == start as int + 1,
            j <= start,
            start < v@.len(),
            v@.len() == old(v)@.len(),
            v@.to_multiset() == old(v)@.to_multiset(),
            heap_except_up(asc, v@, n, j as int),
        ensures
            is_heap(asc, v@, n),
            v@.len() == old(v)@.len(),
            v@.to_multiset() == old(v)@.to_multiset(),
        decreases j,
    {
        if j == 0 {
            assert(is_heap(asc, v@, n));
            break ;
        }
        let p = (j - 1) / 2;
        proof {
            lemma_parent_bounds(j as int);
            assert(p == heap_parent(j as int));
        }
        let settled = if asc {
            v[j] <= v[p]
        } else {
            v[p] <= v[j]
        };
        if settled {
            assert(cmp_le(asc, v@[j as int], v@[p as int]));
            assert(is_heap(asc, v@, n));
            break ;
        }
        let ghost s = v@;
        swap_at(v, j, p);
        proof {
            let s2 = v@;
            let jj = j as int;
            let pp = p as int;
            assert(s2 == s.update(jj, s[pp]).update(pp, s[jj]));
            assert(cmp_le(asc, s[pp], s[jj]));
            assert forall|k: int|
                1 <= k < n && k != pp implies cmp_le(asc, s2[k], s2[heap_parent(k)]) by {
                lemma_parent_bounds(k);
                let pk = heap_parent(k);
                if k == jj {
                    assert(s2[k] == s[pp] && s2[pk] == s[jj]);
                } else if pk == jj {
                    assert(s2[k] == s[k] && s2[pk] == s[pp]);
                    assert(cmp_le(asc, s[k], s[heap_parent(jj)]));
                } else if pk == pp {
                    assert(s2[k] == s[k] && s2[pk] == s[jj]);
                    assert(cmp_le(asc, s[k], s[pp]));
                } else {
                    assert(s2[k] == s[k] && s2[pk] == s[pk]);
                    assert(cmp_le(asc, s[k], s[pk]));
                }
            }
            assert forall|k: int|
                1 <= k < n && heap_parent(k) == pp && pp >= 1 implies cmp_le(
                asc,
                s2[k],
                s2[heap_parent(pp)],
            ) by {
                lemma_parent_bounds(k);
                lemma_parent_bounds(pp);
                let gp = heap_parent(pp);
                assert(s2[gp] == s[gp]);
                if k == jj {
                    assert(s2[k] == s[pp]);
                    assert(cmp_le(asc, s[pp], s[gp]));
                } else {
                    assert(s2[k] == s[k]);
                    assert(cmp_le(asc, s[k], s[pp]) && cmp_le(asc, s[pp], s[gp]));
                }
            }
            assert(heap_except_up(asc, s2, n, pp));
        }
        j = p;
    }
}

/// Restores the heap order on `[0, hi)` after the root was replaced, by
/// sifting the root down. Slots from `hi` on are left untouched.
fn sift_down(v: &mut Vec<i64>, hi: usize, asc: bool)
    requires
        hi <= old(v)@.len(),
        heap_except_down(asc, old(v)@, hi as int, 0),
    ensures
        final(v)@.len() == old(v)@.len(),
        final(v)@.to_multiset() == old(v)@.to_multiset(),
        forall|k: int| hi <= k < old(v)@.len() ==> final(v)@[k] == old(v)@[k],
        is_heap(asc, final(v)@, hi as int),
{
    if hi == 0 {
        return ;
    }
    let mut j: usize = 0;
    loop
        invariant
            j < hi,
            hi <= v@.len(),
            v@.len() == old(v)@.len(),
            v@.to_multiset() == old(v)@.to_multiset(),
            forall|k: int| hi <= k < v@.len() ==> v@[k] == old(v)@[k],
            heap_except_down(asc, v@, hi as int, j as int),
        ensures
            v@.len() == old(v)@.len(),
            v@.to_multiset() == old(v)@.to_multiset(),
            forall|k: int| hi <= k < v@.len() ==> v@[k] == old(v)@[k],
            is_heap(asc, v@, hi as int),
        decreases hi - j,
    {
        let ghost hh = hi as int;
        let ghost jj = j as int;
        if hi - j - 1 <= j {
            // no child of j lies inside the heap
            proof {
                assert forall|k: int| 1 <= k < hh && heap_parent(k) == jj implies false by {
                    lemma_parent_bounds(k);
                }
                assert(is_heap(asc, v@, hh));
            }
            break ;
        }
        let mut c = 2 * j + 1;
        if c + 1 < hi {
            let other_child = if asc {
                v[c] < v[c + 1]
            } else {
                v[c + 1] < v[c]
            };
            if other_child {
                c = c + 1;
            }
        }
        let ghost cc = c as int;
        proof {
            lemma_parent_bounds(cc);
            assert(heap_parent(cc) == jj);
            // c holds the extreme child of j inside the heap
            assert forall|k: int|
                1 <= k < hh && heap_parent(k) == jj implies cmp_le(asc, v@[k], v@[cc]) by {
                lemma_parent_bounds(k);
            }
        }
        let settled = if asc {
            v[c] <= v[j]
        } else {
            v[j] <= v[c]
        };
        if settled {
            proof {
                assert(cmp_le(asc, v@[cc], v@[jj]));
                assert(is_heap(asc, v@, hh));
            }
            break ;
        }
        let ghost s = v@;
        swap_at(v, j, c);
        proof {
            let s2 = v@;
            assert(s2 == s.update(jj, s[cc]).update(cc, s[jj]));
            assert(cmp_le(asc, s[jj], s[cc]));
            assert forall|k: int|
                1 <= k < hh && heap_parent(k) != cc implies cmp_le(asc, s2[k], s2[heap_parent(
                k,
            )]) by {
                lemma_parent_bounds(k);
                let pk = heap_parent(k);
                if k == cc {
                    assert(s2[k] == s[jj] && s2[pk] == s[cc]);
                } else if k == jj {
                    assert(s2[k] == s[cc] && s2[pk] == s[pk]);
                    assert(cmp_le(asc, s[cc], s[heap_parent(jj)]));
                } else if pk == jj {
                    assert(s2[k] == s[k] && s2[pk] == s[cc]);
                    assert(cmp_le(asc, s[k], s[cc]));
                } else {
                    assert(s2[k] == s[k] && s2[pk] == s[pk]);
                }
            }
            assert forall|k: int|
                1 <= k < hh && heap_parent(k) == cc && cc >= 1 implies cmp_le(
                asc,
                s2[k],
                s2[heap_parent(cc)],
            ) by {
                lemma_parent_bounds(k);
                assert(s2[k] == s[k]);
                assert(cmp_le(asc, s[k], s[cc]));
                assert(s2[heap_parent(cc)] == s2[jj] && s2[jj] == s[cc]);
            }
            assert(heap_except_down(asc, s2, hh, cc));
        }
        j = c;
    }
}

/// Sorts the whole vector toward direction `asc`, in place, by binary heap
/// sort: heapify by repeated sift-up, then repeatedly move the root behind
/// the shrinking heap boundary and sift down.
fn heap_sort(v: &mut Vec<i64>, asc: bool)
    ensures
        final(v)@.len() == old(v)@.len(),
        final(v)@.to_multiset() == old(v)@.to_multiset(),
        sorted_dir(asc, final(v)@),
{
    let n = v.len();
    if n > 1 {
        let mut i: usize = 1;
        while i < n
            invariant
                1 <= i <= n,
                n == v@.len(),
                v@.to_multiset() == old(v)@.to_multiset(),
                is_heap(asc, v@, i as int),
            decreases n - i,
        {
            sift_up(v, i, asc);
            i = i + 1;
        }
        let mut hi: usize = n;
        while hi > 1
            invariant
                1 <= hi <= n,
                n == v@.len(),
                v@.to_multiset() == old(v)@.to_multiset(),
                is_heap(asc, v@, hi as int),
                forall|p: int, q: int| hi <= p <= q < n ==> cmp_le(asc, v@[p], v@[q]),
                forall|p: int, q: int| 0 <= p < hi && hi <= q < n ==> cmp_le(asc, v@[p], v@[q]),
            decreases hi,
        {
            hi = hi - 1;
            let ghost s = v@;
            let ghost hh = hi as int;
            proof {
                assert forall|k: int| 0 <= k <= hh implies cmp_le(asc, #[trigger] s[k], s[0]) by {
                    lemma_heap_root(asc, s, hh + 1, k);
                }
            }
            swap_at(v, 0, hi);
            proof {
                let s2 = v@;
                assert forall|p: int, q: int| hh <= p <= q < n implies cmp_le(
                    asc,
                    s2[p],
                    s2[q],
                ) by {
                    if p == hh && q > hh {
                        assert(s2[p] == s[0] && s2[q] == s[q]);
                        assert(cmp_le(asc, s[0], s[q]));
                    }
                }
                assert forall|p: int, q: int| 0 <= p < hh && hh <= q < n implies cmp_le(
                    asc,
                    s2[p],
                    s2[q],
                ) by {
                    if q == hh {
                        assert(s2[q] == s[0]);
                        if p == 0 {
                            assert(s2[p] == s[hh] && cmp_le(asc, s[hh], s[0]));
                        } else {
                            assert(s2[p] == s[p] && cmp_le(asc, s[p], s[0]));
                        }
                    } else {
                        assert(s2[q] == s[q]);
                        if p == 0 {
                            assert(s2[p] == s[hh] && cmp_le(asc, s[hh], s[q]));
                        } else {
                            assert(s2[p] == s[p] && cmp_le(asc, s[p], s[q]));
                        }
                    }
                }
                assert forall|k: int|
                    1 <= k < hh && heap_parent(k) != 0 implies cmp_le(asc, s2[k], s2[heap_parent(
                    k,
                )]) by {
                    lemma_parent_bounds(k);
                    assert(s2[k] == s[k] && s2[heap_parent(k)] == s[heap_parent(k)]);
                }
                assert(heap_except_down(asc, s2, hh, 0));
            }
            let ghost pre = v@;
            sift_down(v, hi, asc);
            proof {
                broadcast use vstd::seq_lib::group_to_multiset_ensures;

                let s3 = v@;
                lemma_prefix_multiset(s3, pre, hh);
                assert forall|p: int, q: int| 0 <= p < hh && hh <= q < n implies cmp_le(
                    asc,
                    s3[p],
                    s3[q],
                ) by {
                    let x = s3[p];
                    assert(s3.subrange(0, hh)[p] == x);
                    assert(s3.subrange(0, hh).contains(x));
                    assert(pre.subrange(0, hh).to_multiset().count(x) > 0);
                    assert(pre.subrange(0, hh).contains(x));
                    let p2 = choose|p2: int| 0 <= p2 < hh && pre.subrange(0, hh)[p2] == x;
                    assert(pre[p2] == x);
                    assert(cmp_le(asc, pre[p2], pre[q]));
                    assert(s3[q] == pre[q]);
                }
            }
        }
        proof {
            let sf = v@;
            assert forall|p: int, q: int| 0 <= p <= q < sf.len() implies cmp_le(
                asc,
                sf[p],
                sf[q],
            ) by {
                if p == 0 && q >= 1 {
                    assert(cmp_le(asc, sf[p], sf[q]));
                }
            }
        }
    }
}

impl<const S: usize> StackVec<i64, S> {
    /// Sorts the logical contents ascending, in place, by max-heap sort.
    pub fn sort(&mut self)
        requires
            old(self).wf(),
        ensures
            final(self).wf(),
            final(self)@.len() == old(self)@.len(),
            final(self)@.to_multiset() == old(self)@.to_multiset(),
            sorted_asc(final(self)@),
    {
        heap_sort(&mut self.buffer, true)
    }

    /// Sorts the logical contents descending, in place, by min-heap sort.
    pub fn sort_rev(&mut self)
        requires
            old(self).wf(),
        ensures
            final(self).wf(),
            final(self)@.len() == old(self)@.len(),
            final(self)@.to_multiset() == old(self)@.to_multiset(),
            sorted_desc(final(self)@),
    {
        heap_sort(&mut self.buffer, false)
    }
}

} // verus!
