use stackvec::StackVec;

#[test]
fn create_get() {
    let result = StackVec::<f32, 3>::new();
    assert_eq!(result.len(), 0);
    assert_eq!(result.capacity(), 3);
    assert_eq!(result.get(0), None);
}

#[test]
fn from_push_pop_clear() {
    let mut result = StackVec::<f32, 5>::from_array([1.0, 2.0, 3.0]);
    assert_eq!(result.len(), 3);
    assert_eq!(result.get(3), None);
    result.push(6.6);
    assert_eq!(result.get(3), Some(6.6));
    assert_eq!(result.len(), 4);
    let temp = result.pop();
    assert_eq!(temp, Some(6.6));
    assert_eq!(result.len(), 3);
    result.clear();
    assert_eq!(result.len(), 0);
}

#[test]
fn macro_iter_reverse_sort() {
    let mut result = StackVec::<i64, 10>::new();
    result.push(1);
    result.push(3);
    result.push(2);
    assert_eq!(result.len(), 3);
    assert_eq!(result.capacity(), 10);
    let mut iter = result.iter();
    assert_eq!(iter.next(), Some(1));
    assert_eq!(iter.next(), Some(3));
    assert_eq!(iter.next(), Some(2));
    assert_eq!(iter.next(), None);
    result.rev();
    let mut iter = result.iter();
    assert_eq!(iter.next(), Some(2));
    assert_eq!(iter.next(), Some(3));
    assert_eq!(iter.next(), Some(1));
    assert_eq!(iter.next(), None);
    result.sort();
    let mut iter = result.iter();
    assert_eq!(iter.next(), Some(1));
    assert_eq!(iter.next(), Some(2));
    assert_eq!(iter.next(), Some(3));
    assert_eq!(iter.next(), None);
    result.sort_rev();
    let mut iter = result.iter();
    assert_eq!(iter.next(), Some(3));
    assert_eq!(iter.next(), Some(2));
    assert_eq!(iter.next(), Some(1));
    assert_eq!(iter.next(), None);
}

#[test]
fn split_join() {
    let mut result = StackVec::<i64, 3>::from_array([6; 3]);
    let other = result.split(1);
    assert_eq!(result.capacity(), 3);
    assert_eq!(other.capacity(), 3);
    assert_eq!(result.len(), 1);
    assert_eq!(other.len(), 2);
    result.join(other);
    assert_eq!(result.len(), 3);
}

fn contents<const S: usize>(v: &StackVec<i64, S>) -> Vec<i64> {
    let mut out = Vec::new();
    let mut it = v.iter();
    while let Some(x) = it.next() {
        out.push(x);
    }
    out
}

#[test]
fn pushes_record_values_in_order() {
    let mut v = StackVec::<i64, 4>::new();
    v.push(10);
    v.push(-3);
    v.push(7);
    assert_eq!(v.len(), 3);
    assert_eq!(v.get(0), Some(10));
    assert_eq!(v.get(1), Some(-3));
    assert_eq!(v.get(2), Some(7));
}

#[test]
fn push_beyond_capacity_is_dropped() {
    let mut v = StackVec::<i64, 2>::new();
    v.push(1);
    v.push(2);
    v.push(3);
    assert_eq!(v.len(), 2);
    assert_eq!(v.capacity(), 2);
    assert_eq!(contents(&v), vec![1, 2]);
}

#[test]
fn pop_on_empty_is_absent() {
    let mut v = StackVec::<i64, 2>::new();
    assert_eq!(v.pop(), None);
    v.push(5);
    assert_eq!(v.pop(), Some(5));
    assert_eq!(v.pop(), None);
}

#[test]
fn rev_twice_restores_order() {
    let mut v = StackVec::<i64, 5>::from_array([4, 8, 15, 16]);
    v.rev();
    v.rev();
    assert_eq!(contents(&v), vec![4, 8, 15, 16]);
}

#[test]
fn split_past_end_leaves_source_unchanged() {
    let mut v = StackVec::<i64, 4>::from_array([1, 2]);
    let other = v.split(2);
    assert_eq!(other.len(), 0);
    assert_eq!(contents(&v), vec![1, 2]);
}

#[test]
fn join_drops_overflow() {
    let mut v = StackVec::<i64, 3>::from_array([1, 2]);
    let w = StackVec::<i64, 3>::from_array([4, 5, 6]);
    v.join(w);
    assert_eq!(contents(&v), vec![1, 2, 4]);
}

#[test]
fn sort_and_sort_rev_are_reversed_orders() {
    let mut a = StackVec::<i64, 8>::from_array([5, -1, 3, 3, 0, 9]);
    let mut b = StackVec::<i64, 8>::from_array([5, -1, 3, 3, 0, 9]);
    a.sort();
    b.sort_rev();
    assert_eq!(contents(&a), vec![-1, 0, 3, 3, 5, 9]);
    let mut rev_b = contents(&b);
    rev_b.reverse();
    assert_eq!(contents(&a), rev_b);
}

#[test]
fn have_finds_only_stored_values() {
    let v = StackVec::<i64, 4>::from_array([2, 4, 6]);
    assert!(v.have(2));
    assert!(v.have(6));
    assert!(!v.have(3));
    let empty = StackVec::<i64, 4>::new();
    assert!(!empty.have(2));
}

#[test]
fn distinct_keeps_first_occurrences() {
    let mut v = StackVec::<i64, 6>::from_array([1, 2, 1, 3, 2]);
    v.distinct();
    assert_eq!(contents(&v), vec![1, 2, 3]);
}

#[test]
fn distinct_on_full_container_is_a_no_op() {
    let mut v = StackVec::<i64, 3>::from_array([7, 7, 7]);
    v.distinct();
    assert_eq!(contents(&v), vec![7, 7, 7]);
}

#[test]
fn from_array_truncates_to_capacity() {
    let v = StackVec::<i64, 2>::from_array([1, 2, 3, 4]);
    assert_eq!(v.len(), 2);
    assert_eq!(contents(&v), vec![1, 2]);
}

#[test]
fn from_vec_truncates_to_capacity() {
    let v = StackVec::<i64, 3>::from_vec(vec![9, 8, 7, 6]);
    assert_eq!(contents(&v), vec![9, 8, 7]);
    let w = StackVec::<i64, 3>::from_vec(vec![9, 8]);
    assert_eq!(contents(&w), vec![9, 8]);
}

#[test]
fn cursor_stays_exhausted() {
    let v = StackVec::<i64, 3>::from_array([1]);
    let mut it = v.iter();
    assert_eq!(it.next(), Some(1));
    assert_eq!(it.next(), None);
    assert_eq!(it.next(), None);
}
