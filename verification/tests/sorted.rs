use wallet_core::sorted::{find_rank, holds, insert_sorted};

#[test]
fn insert_sorted_keeps_the_order_and_adds_once() {
    let mut v = vec![];
    assert!(insert_sorted(&mut v, 5));
    assert!(insert_sorted(&mut v, 1));
    assert!(insert_sorted(&mut v, u64::MAX));
    assert!(!insert_sorted(&mut v, 5));
    assert!(insert_sorted(&mut v, 3));
    assert!(insert_sorted(&mut v, 0));
    assert!(!insert_sorted(&mut v, u64::MAX));
    assert_eq!(v, vec![0, 1, 3, 5, u64::MAX]);
}

#[test]
fn find_rank_counts_what_is_below() {
    let v = vec![2, 4, 6];
    assert_eq!(find_rank(&v, 0), 0);
    assert_eq!(find_rank(&v, 2), 0);
    assert_eq!(find_rank(&v, 3), 1);
    assert_eq!(find_rank(&v, 6), 2);
    assert_eq!(find_rank(&v, 7), 3);
    assert_eq!(find_rank(&vec![], 7), 0);
    assert!(holds(&v, 4));
    assert!(!holds(&v, 5));
    assert!(!holds(&vec![], 0));
}
