use crawler_2ch::diff::{first_index, sort_ids, vecdiff};

#[test]
fn diff_of_overlapping_listings() {
    let (deleted, added) = vecdiff(vec![1, 2, 3], vec![2, 3, 4]);
    assert_eq!(deleted, vec![1]);
    assert_eq!(added, vec![4]);
}

#[test]
fn diff_of_equal_listings_is_empty() {
    let (deleted, added) = vecdiff(vec![5, 6, 7], vec![5, 6, 7]);
    assert!(deleted.is_empty());
    assert!(added.is_empty());
}

#[test]
fn diff_of_empty_listings_is_empty() {
    let (deleted, added) = vecdiff(vec![], vec![]);
    assert!(deleted.is_empty());
    assert!(added.is_empty());
}

#[test]
fn diff_against_nothing_is_everything() {
    let (deleted, added) = vecdiff(vec![], vec![10, 11]);
    assert!(deleted.is_empty());
    assert_eq!(added, vec![10, 11]);
    let (deleted, added) = vecdiff(vec![10, 11], vec![]);
    assert_eq!(deleted, vec![10, 11]);
    assert!(added.is_empty());
}

#[test]
fn diff_keeps_the_order_of_first_occurrence() {
    let (deleted, added) = vecdiff(vec![9, 1, 9, 4, 1], vec![4, 8, 2, 8]);
    assert_eq!(deleted, vec![9, 1]);
    assert_eq!(added, vec![8, 2]);
}

#[test]
fn diff_of_disjoint_listings() {
    let (deleted, added) = vecdiff(vec![1, 2], vec![3, 4]);
    assert_eq!(deleted, vec![1, 2]);
    assert_eq!(added, vec![3, 4]);
}

#[test]
fn diff_holds_the_largest_id() {
    let (deleted, added) = vecdiff(vec![u64::MAX, 0], vec![0]);
    assert_eq!(deleted, vec![u64::MAX]);
    assert!(added.is_empty());
}

#[test]
fn sort_puts_ids_in_rising_order() {
    assert_eq!(sort_ids(&vec![5, 4]), vec![4, 5]);
    assert_eq!(sort_ids(&vec![3, 1, 2]), vec![1, 2, 3]);
    assert_eq!(sort_ids(&vec![1, 2, 3]), vec![1, 2, 3]);
    assert_eq!(sort_ids(&vec![u64::MAX, 0, 7]), vec![0, 7, u64::MAX]);
    assert_eq!(sort_ids(&vec![9]), vec![9]);
    assert!(sort_ids(&vec![]).is_empty());
}

#[test]
fn sort_keeps_each_id_once() {
    assert_eq!(sort_ids(&vec![2, 2, 2]), vec![2]);
    assert_eq!(sort_ids(&vec![4, 1, 4, 3, 1]), vec![1, 3, 4]);
}

#[test]
fn first_index_finds_the_first_place() {
    assert_eq!(first_index(&vec![7, 8, 7, 9], 7), Some(0));
    assert_eq!(first_index(&vec![7, 8, 7, 9], 9), Some(3));
    assert_eq!(first_index(&vec![7, 8, 8], 8), Some(1));
    assert_eq!(first_index(&vec![7, 8, 7, 9], 1), None);
    assert_eq!(first_index(&vec![], 1), None);
}
