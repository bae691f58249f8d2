use bevy_xpbd::pairs::CollisionPairs;
use std::cell::RefCell;

#[test]
fn pairs_start_empty() {
    let p = CollisionPairs::new();
    assert_eq!(p.len(), 0);
    let d = CollisionPairs::default();
    assert!(d.as_slice().is_empty());
}

#[test]
fn all_near_keeps_every_pair_larger_id_first() {
    let ids: Vec<u64> = vec![3, 1, 2];
    let mut p = CollisionPairs::new();
    p.collect(&ids, |_i: usize, _j: usize| true);
    assert_eq!(p.as_slice(), &[(3, 1), (3, 2), (2, 1)]);
    assert_eq!(p.len(), 3);
}

#[test]
fn callback_asked_only_for_larger_first_in_scan_order() {
    let ids: Vec<u64> = vec![3, 1, 2];
    let asked: RefCell<Vec<(usize, usize)>> = RefCell::new(Vec::new());
    let mut p = CollisionPairs::new();
    p.collect(&ids, |i: usize, j: usize| {
        asked.borrow_mut().push((i, j));
        false
    });
    assert_eq!(asked.into_inner(), vec![(0, 1), (0, 2), (2, 1)]);
    assert_eq!(p.len(), 0);
}

#[test]
fn only_accepted_pairs_are_kept() {
    let ids: Vec<u64> = vec![10, 40, 20, 30];
    let mut p = CollisionPairs::new();
    // accept the pairs that involve position 2 (id 20)
    p.collect(&ids, |i: usize, j: usize| i == 2 || j == 2);
    assert_eq!(p.as_slice(), &[(40, 20), (20, 10), (30, 20)]);
}

#[test]
fn collect_replaces_earlier_pairs() {
    let mut p = CollisionPairs::new();
    p.collect(&vec![2, 1], |_i: usize, _j: usize| true);
    assert_eq!(p.as_slice(), &[(2, 1)]);
    p.collect(&vec![7, 9], |_i: usize, _j: usize| true);
    assert_eq!(p.as_slice(), &[(9, 7)]);
    p.clear();
    assert_eq!(p.len(), 0);
}

#[test]
fn no_bodies_no_pairs() {
    let mut p = CollisionPairs::new();
    let asked: RefCell<usize> = RefCell::new(0);
    p.collect(&Vec::new(), |_i: usize, _j: usize| {
        *asked.borrow_mut() += 1;
        true
    });
    assert_eq!(p.len(), 0);
    assert_eq!(asked.into_inner(), 0);
}

#[test]
fn equal_ids_are_never_paired() {
    let ids: Vec<u64> = vec![4, 4, 4];
    let mut p = CollisionPairs::new();
    p.collect(&ids, |_i: usize, _j: usize| true);
    assert_eq!(p.len(), 0);
}

#[test]
fn collected_pairs_never_join_a_body_with_itself() {
    let ids: Vec<u64> = vec![8, 3, 8, 5, 1];
    let mut p = CollisionPairs::new();
    p.collect(&ids, |_i: usize, _j: usize| true);
    assert!(p.len() > 0);
    for &(a, b) in p.as_slice() {
        assert!(a != b);
        assert!(a > b);
    }
}

#[test]
fn each_two_bodies_examined_exactly_once() {
    let ids: Vec<u64> = vec![5, 9, 1, 7];
    let asked: RefCell<Vec<(usize, usize)>> = RefCell::new(Vec::new());
    let mut p = CollisionPairs::new();
    p.collect(&ids, |i: usize, j: usize| {
        asked.borrow_mut().push((i, j));
        true
    });
    let asked = asked.into_inner();
    assert_eq!(asked.len(), 6);
    for x in 0..ids.len() {
        for y in 0..ids.len() {
            if x < y {
                let n = asked
                    .iter()
                    .filter(|&&(i, j)| (i == x && j == y) || (i == y && j == x))
                    .count();
                assert_eq!(n, 1);
            }
        }
    }
    // the scan order is by first position, then second
    let mut sorted = asked.clone();
    sorted.sort();
    assert_eq!(sorted, asked);
}
