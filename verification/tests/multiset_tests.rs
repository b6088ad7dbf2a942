use std::cmp::Ordering;
use utote::multiset::{Bag, MSu16, MSu32, MSu64, MSu8};

#[test]
fn empty_is_all_zero() {
    let m = MSu8::<4>::empty();
    assert!(m.is_empty());
    assert_eq!(m.total(), 0);
    assert_eq!(m.count_non_zero(), 0);
    assert_eq!(m.count_zero(), 4);
    let big = Bag::<u64, 7>::empty();
    assert!(big.is_empty());
    assert_eq!(big.total(), 0);
    assert_eq!(big.count_non_zero(), 0);
}

#[test]
fn repeat_fills_every_count() {
    let m = MSu8::<4>::repeat(5);
    assert_eq!(m.get(0), Some(5));
    assert_eq!(m.get(3), Some(5));
    assert_eq!(m.total(), 20);
    assert!(!m.is_empty());
}

#[test]
fn from_slice_round_trip() {
    let s: [u8; 4] = [5, 6, 7, 8];
    let m = MSu8::<4>::from_slice(&s);
    for i in 0..4 {
        assert_eq!(m.get(i), Some(s[i]));
    }
    assert_eq!(m.get(4), None);
}

#[test]
fn from_iter_pads_and_truncates() {
    let m = MSu8::<4>::from_iter(vec![9, 8]);
    assert_eq!(m.get(0), Some(9));
    assert_eq!(m.get(1), Some(8));
    assert_eq!(m.get(2), Some(0));
    assert_eq!(m.get(3), Some(0));
    let n = MSu8::<2>::from_iter(vec![1, 2, 3, 4]);
    assert_eq!(n.get(0), Some(1));
    assert_eq!(n.get(1), Some(2));
    assert_eq!(n.total(), 3);
}

#[test]
fn len_is_the_domain_size() {
    assert_eq!(MSu8::<4>::len(), 4);
    assert_eq!(MSu16::<9>::len(), 9);
    assert_eq!(Bag::<u32, 0>::len(), 0);
}

#[test]
fn get_and_insert_checked_and_unchecked() {
    let mut m = MSu8::<4>::from_slice(&[1, 2, 0, 0]);
    assert_eq!(m.get(1), Some(2));
    assert_eq!(m.get(3), Some(0));
    assert_eq!(m.get(5), None);
    assert_eq!(m.get_unchecked(1), 2);
    m.insert(2, 5);
    assert_eq!(m.get(2), Some(5));
    m.insert(9, 5);
    assert_eq!(m, MSu8::<4>::from_slice(&[1, 2, 5, 0]));
    m.insert_unchecked(3, 7);
    assert_eq!(m.get(3), Some(7));
}

#[test]
fn remove_and_clear() {
    let mut m = MSu8::<4>::from_slice(&[1, 2, 0, 0]);
    m.remove(1);
    assert_eq!(m.get(1), Some(0));
    m.remove(9);
    assert_eq!(m, MSu8::<4>::from_slice(&[1, 0, 0, 0]));
    m.remove_unchecked(0);
    assert!(m.is_empty());
    let mut n = MSu8::<4>::from_slice(&[1, 2, 3, 4]);
    n.clear();
    assert!(n.is_empty());
}

#[test]
fn contains_checked_and_unchecked() {
    let m = MSu8::<4>::from_slice(&[1, 2, 0, 0]);
    assert!(m.contains(1));
    assert!(!m.contains(3));
    assert!(!m.contains(5));
    assert!(m.contains_unchecked(1));
    assert!(!m.contains_unchecked(3));
}

#[test]
fn intersection_union_scenario() {
    let a = MSu8::<4>::from_slice(&[1, 2, 0, 0]);
    let b = MSu8::<4>::from_slice(&[0, 2, 3, 0]);
    assert_eq!(a.intersection(&b), MSu8::<4>::from_slice(&[0, 2, 0, 0]));
    assert_eq!(a.union(&b), MSu8::<4>::from_slice(&[1, 2, 3, 0]));
    assert!(!a.is_disjoint(&b));
    assert_eq!(a.total(), 3);
    assert_eq!(a.argmax(), (1, 2));
}

#[test]
fn set_op_commutativity_and_idempotence() {
    let a = MSu8::<4>::from_slice(&[1, 2, 0, 9]);
    let b = MSu8::<4>::from_slice(&[0, 2, 3, 4]);
    assert_eq!(a.intersection(&b), b.intersection(&a));
    assert_eq!(a.union(&b), b.union(&a));
    assert_eq!(a.intersection(&a), a);
    assert_eq!(a.union(&a), a);
}

#[test]
fn subset_relations() {
    let a = MSu8::<4>::from_slice(&[1, 2, 0, 0]);
    let b = MSu8::<4>::from_slice(&[1, 3, 0, 0]);
    assert!(a.is_subset(&a));
    assert!(a.is_superset(&a));
    assert!(!a.is_proper_subset(&a));
    assert!(!a.is_proper_superset(&a));
    assert!(a.is_subset(&b));
    assert!(b.is_superset(&a));
    assert!(a.is_proper_subset(&b));
    assert!(b.is_proper_superset(&a));
    assert!(a.is_any_lesser(&b));
    assert!(!a.is_any_greater(&b));
    assert!(b.is_any_greater(&a));
}

#[test]
fn mutual_subsets_are_equal() {
    let a = MSu8::<4>::from_slice(&[1, 2, 0, 0]);
    let b = MSu8::<4>::from_slice(&[1, 2, 0, 0]);
    assert!(a.is_subset(&b) && b.is_subset(&a));
    assert_eq!(a, b);
}

#[test]
fn partial_order_is_pointwise() {
    let a = MSu8::<4>::from_slice(&[1, 2, 0, 0]);
    let b = MSu8::<4>::from_slice(&[1, 3, 0, 0]);
    let c = MSu8::<4>::from_slice(&[0, 9, 0, 0]);
    assert_eq!(a.partial_cmp(&a), Some(Ordering::Equal));
    assert_eq!(a.partial_cmp(&b), Some(Ordering::Less));
    assert_eq!(b.partial_cmp(&a), Some(Ordering::Greater));
    // incomparable multisets are neither less nor greater
    assert_eq!(a.partial_cmp(&c), None);
    assert!(a < b);
    assert!(!(a < c) && !(c < a) && a != c);
}

#[test]
fn disjointness() {
    let a = MSu8::<4>::from_slice(&[1, 2, 0, 0]);
    let b = MSu8::<4>::from_slice(&[0, 0, 3, 4]);
    assert!(!a.is_disjoint(&a));
    assert!(a.is_disjoint(&b));
    let e = MSu8::<4>::empty();
    assert!(e.is_disjoint(&e));
}

#[test]
fn totals() {
    let m = MSu8::<4>::from_slice(&[1, 2, 3, 4]);
    assert_eq!(m.total(), 10);
    // summing past the width wraps
    let w = MSu8::<4>::from_slice(&[200, 100, 0, 0]);
    assert_eq!(w.total(), 44);
}

#[test]
fn zero_count_complement() {
    for counts in [[1u8, 0, 0, 0], [0, 0, 0, 0], [9, 9, 9, 9], [0, 3, 0, 7]] {
        let m = MSu8::<4>::from_slice(&counts);
        assert_eq!(m.count_zero() + m.count_non_zero(), 4);
    }
    let m = MSu8::<4>::from_slice(&[1, 0, 0, 0]);
    assert_eq!(m.count_zero(), 3);
    assert_eq!(m.count_non_zero(), 1);
    assert!(m.is_singleton());
    assert!(!MSu8::<4>::empty().is_singleton());
    assert!(!MSu8::<4>::from_slice(&[1, 1, 0, 0]).is_singleton());
}

#[test]
fn extremes_keep_earliest_index() {
    let m = MSu8::<4>::from_slice(&[2, 0, 5, 3]);
    assert_eq!(m.argmax(), (2, 5));
    assert_eq!(m.imax(), 2);
    assert_eq!(m.max(), 5);
    assert_eq!(m.argmin(), (1, 0));
    assert_eq!(m.imin(), 1);
    assert_eq!(m.min(), 0);
    // ties keep the earliest index
    let t = MSu8::<4>::from_slice(&[4, 4, 1, 1]);
    assert_eq!(t.argmax(), (0, 4));
    assert_eq!(t.argmin(), (2, 1));
}

#[test]
fn arithmetic_assign_elementwise() {
    let mut a = MSu8::<4>::from_slice(&[1, 2, 3, 4]);
    a.add_assign(MSu8::<4>::from_slice(&[10, 20, 30, 40]));
    assert_eq!(a, MSu8::<4>::from_slice(&[11, 22, 33, 44]));
    a.sub_assign(MSu8::<4>::from_slice(&[1, 2, 3, 4]));
    assert_eq!(a, MSu8::<4>::from_slice(&[10, 20, 30, 40]));
    a.mul_assign(MSu8::<4>::from_slice(&[2, 2, 2, 2]));
    assert_eq!(a, MSu8::<4>::from_slice(&[20, 40, 60, 80]));
    a.div_assign(MSu8::<4>::from_slice(&[2, 4, 3, 1]));
    assert_eq!(a, MSu8::<4>::from_slice(&[10, 10, 20, 80]));
}

#[test]
fn arithmetic_assign_wraps_at_width() {
    let mut a = MSu8::<2>::from_slice(&[200, 1]);
    a.add_assign(MSu8::<2>::from_slice(&[100, 1]));
    assert_eq!(a, MSu8::<2>::from_slice(&[44, 2]));
    let mut b = MSu8::<2>::from_slice(&[1, 0]);
    b.sub_assign(MSu8::<2>::from_slice(&[2, 0]));
    assert_eq!(b, MSu8::<2>::from_slice(&[255, 0]));
    let mut c = MSu8::<2>::from_slice(&[16, 3]);
    c.mul_assign(MSu8::<2>::from_slice(&[16, 3]));
    assert_eq!(c, MSu8::<2>::from_slice(&[0, 9]));
}

#[test]
fn choose_elem_keeps_only_that_count() {
    let mut m = MSu8::<4>::from_slice(&[2, 0, 5, 3]);
    m.choose_elem(3);
    assert_eq!(m, MSu8::<4>::from_slice(&[0, 0, 0, 3]));
    let mut n = MSu8::<4>::from_slice(&[2, 0, 5, 3]);
    n.choose_elem(9);
    assert!(n.is_empty());
}

#[test]
fn choose_with_threshold_scans_running_sums() {
    // counts [2, 0, 5, 3]: inclusive running sums are 2, 2, 7, 10
    let mut m = MSu8::<4>::from_slice(&[2, 0, 5, 3]);
    m.choose_with_threshold(2);
    assert_eq!(m, MSu8::<4>::from_slice(&[2, 0, 0, 0]));
    let mut m = MSu8::<4>::from_slice(&[2, 0, 5, 3]);
    m.choose_with_threshold(3);
    assert_eq!(m, MSu8::<4>::from_slice(&[0, 0, 5, 0]));
    let mut m = MSu8::<4>::from_slice(&[2, 0, 5, 3]);
    m.choose_with_threshold(8);
    assert_eq!(m, MSu8::<4>::from_slice(&[0, 0, 0, 3]));
    // a zero threshold picks the first element, whatever its count
    let mut m = MSu8::<4>::from_slice(&[0, 5, 0, 0]);
    m.choose_with_threshold(0);
    assert!(m.is_empty());
}

#[test]
fn choose_random_is_weighted_and_collapses() {
    let mut rng = <rand::rngs::StdRng as rand::SeedableRng>::seed_from_u64(7);
    for seed_round in 0..200u32 {
        let _ = seed_round;
        let mut m = MSu8::<4>::from_slice(&[2, 1, 5, 3]);
        m.choose_random(&mut rng);
        assert!(m.is_singleton());
        assert!(m.is_subset(&MSu8::<4>::from_slice(&[2, 1, 5, 3])));
    }
    // elements with a zero count are never chosen
    for _ in 0..100u32 {
        let mut m = MSu8::<4>::from_slice(&[4, 0, 4, 0]);
        m.choose_random(&mut rng);
        assert_eq!(m.get(1), Some(0));
        assert_eq!(m.get(3), Some(0));
    }
    // both elements of an even split get chosen across draws, so the
    // threshold really comes from the generator
    let mut saw_first = false;
    let mut saw_second = false;
    for _ in 0..200u32 {
        let mut m = MSu8::<2>::from_slice(&[5, 5]);
        m.choose_random(&mut rng);
        if m.get(0) == Some(5) {
            saw_first = true;
        }
        if m.get(1) == Some(5) {
            saw_second = true;
        }
    }
    assert!(saw_first && saw_second);
}

#[test]
fn choose_random_on_all_zero_stays_all_zero() {
    let mut rng = <rand::rngs::StdRng as rand::SeedableRng>::seed_from_u64(11);
    let mut m = MSu8::<4>::empty();
    m.choose_random(&mut rng);
    assert!(m.is_empty());
}

#[test]
fn iterator_yields_each_count_in_order() {
    let m = MSu8::<4>::from_slice(&[2, 0, 5, 3]);
    let mut it = m.into_iter();
    assert_eq!(it.len(), 4);
    assert_eq!(it.next(), Some(2));
    assert_eq!(it.next(), Some(0));
    assert_eq!(it.next(), Some(5));
    assert_eq!(it.next(), Some(3));
    assert_eq!(it.next(), None);
    assert_eq!(it.next(), None);
    assert_eq!(it.len(), 4);
}

#[test]
fn degenerate_domain_of_size_zero() {
    let mut m = Bag::<u16, 0>::empty();
    assert!(m.is_empty());
    assert_eq!(m.total(), 0);
    assert_eq!(m.get(0), None);
    m.add_assign(Bag::<u16, 0>::empty());
    assert!(m.is_empty());
    let mut it = m.into_iter();
    assert_eq!(it.next(), None);
}

#[test]
fn wider_counters_hold_larger_counts() {
    let m = MSu32::<3>::from_slice(&[70_000, 1, 0]);
    assert_eq!(m.total(), 70_001);
    assert_eq!(m.max(), 70_000);
    let w = MSu64::<2>::from_slice(&[u64::MAX, 1]);
    assert_eq!(w.total(), 0);
}
