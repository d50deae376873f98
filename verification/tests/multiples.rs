use ownership::driver::Phase;
use ownership::multiples::{rewrite_label, MultipleInfo};
use std::collections::{BTreeSet, HashMap, HashSet};

fn set(ls: &[u64]) -> HashSet<u64> {
    ls.iter().copied().collect()
}

fn entries(ls: &[u64]) -> BTreeSet<u64> {
    ls.iter().copied().collect()
}

fn rewrites(pairs: &[(u64, u64)]) -> HashMap<u64, u64> {
    pairs.iter().copied().collect()
}

#[test]
fn an_empty_record_holds_nothing() {
    let info = MultipleInfo::new();
    assert!(info.get_multiple(&entries(&[])).is_none());
    assert!(info.get_multiple(&entries(&[1, 2])).is_none());
}

#[test]
fn a_branch_point_is_found_under_its_entry_labels() {
    let mut info = MultipleInfo::new();
    info.add_multiple(9, vec![(1, set(&[1, 3])), (2, set(&[2]))]);
    let (join, arms) = info.get_multiple(&entries(&[2, 1])).unwrap();
    assert_eq!(*join, 9);
    assert_eq!(arms.len(), 2);
    assert_eq!(arms[&1], set(&[1, 3]));
    assert_eq!(arms[&2], set(&[2]));
    assert!(info.get_multiple(&entries(&[1])).is_none());
    assert!(info.get_multiple(&entries(&[1, 2, 3])).is_none());
    assert!(info.get_multiple(&entries(&[1, 3])).is_none());
}

#[test]
fn fewer_than_two_arms_are_not_recorded() {
    let mut info = MultipleInfo::new();
    info.add_multiple(9, vec![(1, set(&[1]))]);
    info.add_multiple(9, vec![]);
    info.add_multiple(9, vec![(4, set(&[1])), (4, set(&[2]))]);
    assert!(info.get_multiple(&entries(&[1])).is_none());
    assert!(info.get_multiple(&entries(&[])).is_none());
    assert!(info.get_multiple(&entries(&[4])).is_none());
}

#[test]
fn the_last_arm_of_a_label_counts() {
    let mut info = MultipleInfo::new();
    info.add_multiple(9, vec![(1, set(&[10])), (2, set(&[20])), (1, set(&[11]))]);
    let (_, arms) = info.get_multiple(&entries(&[1, 2])).unwrap();
    assert_eq!(arms.len(), 2);
    assert_eq!(arms[&1], set(&[11]));
    assert_eq!(arms[&2], set(&[20]));
}

#[test]
fn a_later_record_takes_the_place_of_an_earlier_one() {
    let mut info = MultipleInfo::new();
    info.add_multiple(9, vec![(1, set(&[1])), (2, set(&[2]))]);
    info.add_multiple(5, vec![(3, set(&[3])), (4, set(&[4]))]);
    info.add_multiple(8, vec![(2, set(&[7])), (1, set(&[6]))]);
    let (join, arms) = info.get_multiple(&entries(&[1, 2])).unwrap();
    assert_eq!(*join, 8);
    assert_eq!(arms[&1], set(&[6]));
    assert_eq!(arms[&2], set(&[7]));
    assert_eq!(info.get_multiple(&entries(&[3, 4])).unwrap().0, 5);
}

#[test]
fn labels_are_rewritten() {
    assert_eq!(rewrite_label(&rewrites(&[(1, 5)]), 1), 5);
    assert_eq!(rewrite_label(&rewrites(&[(1, 5)]), 5), 5);
    assert_eq!(rewrite_label(&rewrites(&[(1, 5)]), 2), 2);
}

#[test]
fn rewriting_renames_every_label() {
    let mut info = MultipleInfo::new();
    info.add_multiple(9, vec![(1, set(&[1, 3])), (2, set(&[2, 4]))]);
    info.rewrite_blocks(&rewrites(&[(1, 10), (3, 4), (9, 90), (7, 70)]));
    assert!(info.get_multiple(&entries(&[1, 2])).is_none());
    let (join, arms) = info.get_multiple(&entries(&[2, 10])).unwrap();
    assert_eq!(*join, 90);
    assert_eq!(arms.len(), 2);
    assert_eq!(arms[&10], set(&[10, 4]));
    assert_eq!(arms[&2], set(&[2, 4]));
}

#[test]
fn rewriting_with_nothing_changes_nothing() {
    let mut info = MultipleInfo::new();
    info.add_multiple(9, vec![(1, set(&[1, 3])), (2, set(&[2]))]);
    info.add_multiple(7, vec![(4, set(&[])), (5, set(&[5])), (6, set(&[6]))]);
    info.rewrite_blocks(&rewrites(&[]));
    let (join, arms) = info.get_multiple(&entries(&[1, 2])).unwrap();
    assert_eq!((*join, arms.len()), (9, 2));
    assert_eq!(arms[&1], set(&[1, 3]));
    let (join, arms) = info.get_multiple(&entries(&[4, 5, 6])).unwrap();
    assert_eq!((*join, arms.len()), (7, 3));
    assert_eq!(arms[&4], set(&[]));
}

#[test]
fn merged_arms_drop_the_branch_point() {
    let mut info = MultipleInfo::new();
    info.add_multiple(9, vec![(1, set(&[1])), (2, set(&[2]))]);
    info.add_multiple(8, vec![(3, set(&[3])), (4, set(&[4])), (5, set(&[5]))]);
    info.rewrite_blocks(&rewrites(&[(2, 1), (4, 3)]));
    assert!(info.get_multiple(&entries(&[1])).is_none());
    assert!(info.get_multiple(&entries(&[1, 2])).is_none());
    let (join, arms) = info.get_multiple(&entries(&[3, 5])).unwrap();
    assert_eq!(*join, 8);
    assert_eq!(arms.len(), 2);
    assert_eq!(arms[&5], set(&[5]));
    assert_eq!(arms[&3], set(&[3]));
}

#[test]
fn merged_entry_sets_keep_one_record() {
    let mut info = MultipleInfo::new();
    info.add_multiple(9, vec![(1, set(&[1])), (2, set(&[2]))]);
    info.add_multiple(8, vec![(1, set(&[1])), (3, set(&[3]))]);
    info.rewrite_blocks(&rewrites(&[(3, 2), (8, 9)]));
    let (join, arms) = info.get_multiple(&entries(&[1, 2])).unwrap();
    assert_eq!(*join, 9);
    assert_eq!(arms.len(), 2);
    assert_eq!(arms[&1], set(&[1]));
    assert_eq!(arms[&2], set(&[2]));
    assert!(info.get_multiple(&entries(&[1, 3])).is_none());
}

#[test]
fn phases_are_told_apart() {
    assert_eq!(Phase::Phase1, Phase::Phase1);
    assert_ne!(Phase::Phase1, Phase::Phase2);
    assert_ne!(Phase::Phase2, Phase::Phase3);
    let p = Phase::Phase3;
    let q = p;
    assert_eq!(p, q);
}
