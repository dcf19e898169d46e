//! Laws that relate the container's operations to one another, stated over
//! the same sequence model that the operations' contracts use.

use vstd::prelude::*;

use crate::container::{join_spec, push_all_spec, push_spec};
use crate::order::{sorted_asc, sorted_desc};
use crate::search::{dedup_spec, lemma_dedup_contains};

verus! {

/// A series of pushes that fits within the remaining room appends exactly
/// the pushed values, so the length grows by the number of pushes and the
/// element at each fresh slot is the value pushed into it.
pub proof fn lemma_push_all_within_capacity<T>(s: Seq<T>, cap: int, vs: Seq<T>)
    requires
        s.len() + vs.len() <= cap,
    ensures
        push_all_spec(s, cap, vs) == s + vs,
    decreases vs.len(),
{
    if vs.len() == 0 {
        assert(s + vs =~= s);
    } else {
        let first = vs.first();
        assert(push_spec(s, cap, first) == s.push(first));
        lemma_push_all_within_capacity(s.push(first), cap, vs.drop_first());
        assert(s.push(first) + vs.drop_first() =~= s + vs);
    }
}

/// A series of pushes onto an empty container that does not exceed the
/// capacity records exactly the pushed values, in order.
pub proof fn lemma_pushes_record_values<T>(cap: int, vs: Seq<T>)
    requires
        vs.len() <= cap,
    ensures
        push_all_spec(Seq::<T>::empty(), cap, vs) == vs,
{
    lemma_push_all_within_capacity(Seq::<T>::empty(), cap, vs);
    assert(Seq::<T>::empty() + vs =~= vs);
}

/// A push onto a full container leaves the stored prefix unchanged.
pub proof fn lemma_push_full_unchanged<T>(s: Seq<T>, cap: int, v: T)
    requires
        s.len() == cap,
    ensures
        push_spec(s, cap, v) == s,
{
}

/// Popping right after a push that had room returns the pushed value and
/// restores the previous contents.
pub proof fn lemma_push_then_pop<T>(s: Seq<T>, cap: int, v: T)
    requires
        s.len() < cap,
    ensures
        push_spec(s, cap, v).last() == v,
        push_spec(s, cap, v).drop_last() == s,
{
    assert(push_spec(s, cap, v).drop_last() =~= s);
}

/// Reversing is an involution: reversing twice restores the original order.
pub proof fn lemma_rev_involution<T>(s: Seq<T>)
    ensures
        s.reverse().reverse() == s,
{
    assert(s.reverse().reverse() =~= s);
}

/// Splitting at an index inside the contents and joining the split-off part
/// back recombines to the original contents; no capacity overflow can occur
/// because the two parts never hold more than the capacity together.
pub proof fn lemma_split_then_join<T>(s: Seq<T>, cap: int, i: int)
    requires
        0 <= i < s.len() <= cap,
    ensures
        join_spec(s.subrange(0, i), cap, s.subrange(i, s.len() as int)) == s,
{
    assert(s.subrange(0, i) + s.subrange(i, s.len() as int) =~= s);
}

/// An ascending-sorted and a descending-sorted arrangement of the same
/// elements are exact reverses of each other.
pub proof fn lemma_sort_directions_reverse(a: Seq<i64>, b: Seq<i64>)
    requires
        sorted_asc(a),
        sorted_desc(b),
        a.to_multiset() == b.to_multiset(),
    ensures
        b == a.reverse(),
{
    let leq = |x: i64, y: i64| y <= x;
    assert(vstd::relations::total_ordering(leq)) by {
        assert forall|x: i64, y: i64| #[trigger] leq(x, y) || #[trigger] leq(y, x) by {
            if !(y <= x) {
                assert(x <= y);
            }
        }
    }
    let ar = a.reverse();
    assert(vstd::relations::sorted_by(ar, leq)) by {
        assert forall|i: int, j: int| 0 <= i < j < ar.len() implies #[trigger] leq(
            ar[i],
            ar[j],
        ) by {
            assert(ar[i] == a[a.len() - 1 - i] && ar[j] == a[a.len() - 1 - j]);
            assert(crate::order::cmp_le(true, a[a.len() - 1 - j], a[a.len() - 1 - i]));
        }
    }
    assert(vstd::relations::sorted_by(b, leq)) by {
        assert forall|i: int, j: int| 0 <= i < j < b.len() implies #[trigger] leq(b[i], b[j]) by {
            assert(crate::order::cmp_le(false, b[i], b[j]));
        }
    }
    a.lemma_reverse_to_multiset();
    vstd::seq_lib::lemma_sorted_unique(ar, b, leq);
    assert(b =~= ar);
}

/// First-occurrence deduplication leaves no duplicates and keeps exactly
/// the values of the original sequence.
pub proof fn lemma_dedup_removes_duplicates(s: Seq<i64>)
    ensures
        dedup_spec(s).no_duplicates(),
        forall|x: i64| #[trigger] dedup_spec(s).contains(x) <==> s.contains(x),
    decreases s.len(),
{
    assert forall|x: i64| #[trigger] dedup_spec(s).contains(x) <==> s.contains(x) by {
        lemma_dedup_contains(s, x);
    }
    if s.len() > 0 {
        let d = s.drop_last();
        let l = s.last();
        let rest = dedup_spec(d);
        lemma_dedup_removes_duplicates(d);
        if !d.contains(l) {
            lemma_dedup_contains(d, l);
            let r = rest.push(l);
            assert forall|i: int, j: int| 0 <= i < j < r.len() implies r[i] != r[j] by {
                if j < r.len() - 1 {
                    assert(r[i] == rest[i] && r[j] == rest[j]);
                } else {
                    assert(r[i] == rest[i] && r[j] == l);
                    if rest[i] == l {
                        assert(rest.contains(l));
                    }
                }
            }
        }
    }
}

/// Appending an element does not move the first occurrence of a value that
/// was already present.
proof fn lemma_first_index_push(d: Seq<i64>, l: i64, x: i64)
    requires
        d.contains(x),
    ensures
        d.push(l).index_of_first(x) == d.index_of_first(x),
{
    let s = d.push(l);
    d.index_of_first_ensures(x);
    let i2 = d.index_of_first(x).unwrap();
    assert(s[i2] == x);
    assert(s.contains(x));
    s.index_of_first_ensures(x);
    let i1 = s.index_of_first(x).unwrap();
    if i1 < i2 {
        assert(d[i1] == s[i1]);
    }
    if i2 < i1 {
        assert(s[i2] == x);
    }
}

/// Deduplication preserves first-occurrence order: of any two elements of
/// the deduplicated result, the earlier one first occurs earlier in the
/// source than the later one does.
pub proof fn lemma_dedup_keeps_first_occurrence_order(s: Seq<i64>, p: int, q: int)
    requires
        0 <= p < q < dedup_spec(s).len(),
    ensures
        s.index_of_first(dedup_spec(s)[p]) is Some,
        s.index_of_first(dedup_spec(s)[q]) is Some,
        s.index_of_first(dedup_spec(s)[p]).unwrap() < s.index_of_first(
            dedup_spec(s)[q],
        ).unwrap(),
    decreases s.len(),
{
    let d = s.drop_last();
    let l = s.last();
    let rest = dedup_spec(d);
    assert(s == d.push(l)) by {
        assert(s =~= d.push(l));
    }
    if d.contains(l) || q < rest.len() {
        // both elements already stand in the deduplication of the shorter
        // source, where the order holds by induction
        assert(dedup_spec(s)[p] == rest[p] && dedup_spec(s)[q] == rest[q]);
        lemma_dedup_keeps_first_occurrence_order(d, p, q);
        d.index_of_first_ensures(rest[p]);
        d.index_of_first_ensures(rest[q]);
        lemma_first_index_push(d, l, rest[p]);
        lemma_first_index_push(d, l, rest[q]);
    } else {
        // the later element is the source's last, newly kept; the earlier
        // one first occurs inside the shorter source
        assert(dedup_spec(s) == rest.push(l));
        assert(q == rest.len() && dedup_spec(s)[q] == l);
        let x = dedup_spec(s)[p];
        assert(x == rest[p]);
        assert(rest.contains(x));
        lemma_dedup_contains(d, x);
        d.index_of_first_ensures(x);
        lemma_first_index_push(d, l, x);
        assert(s.index_of_first(x).unwrap() < d.len());
        assert(s[d.len() as int] == l);
        assert(s.contains(l));
        s.index_of_first_ensures(l);
        let il = s.index_of_first(l).unwrap();
        if il < d.len() {
            assert(d[il] == s[il]);
            assert(d.contains(l));
        }
        assert(il == d.len());
    }
}

} // verus!
