use macro_keypad::detect::{diff, Transitions};
use macro_keypad::keyset::KeySet;
use macro_keypad::layout::{key_index, COLUMN_COUNT, KEY_COUNT, ROW_COUNT};

fn keys(members: &[u8]) -> KeySet {
    let mut set = KeySet::new();
    for &key in members {
        set.insert(key);
    }
    set
}

#[test]
fn the_matrix_has_fifty_keys() {
    assert_eq!(ROW_COUNT, 10);
    assert_eq!(COLUMN_COUNT, 5);
    assert_eq!(KEY_COUNT, 50);
    assert_eq!(ROW_COUNT * COLUMN_COUNT, KEY_COUNT as usize);
}

#[test]
fn keys_are_numbered_left_to_right_then_top_to_bottom() {
    assert_eq!(key_index(0, 0), 0);
    assert_eq!(key_index(1, 0), 1);
    assert_eq!(key_index(4, 0), 4);
    assert_eq!(key_index(0, 1), 5);
    assert_eq!(key_index(1, 8), 41);
    assert_eq!(key_index(4, 4), 24);
    assert_eq!(key_index(4, 8), 44);
    assert_eq!(key_index(4, 9), 49);
}

#[test]
fn every_crossing_has_a_key_index_of_its_own_below_fifty() {
    let mut seen = [false; 50];
    for column in 0..COLUMN_COUNT {
        for row in 0..ROW_COUNT {
            let key = key_index(column, row);
            assert!(key < 50);
            assert!(!seen[key as usize]);
            seen[key as usize] = true;
        }
    }
    assert!(seen.iter().all(|&found| found));
}

#[test]
fn a_new_set_has_no_member() {
    let set = KeySet::new();
    for key in 0..=255u8 {
        assert!(!set.contains(key));
    }
    assert_eq!(set.keys(), Vec::<u8>::new());
}

#[test]
fn an_inserted_key_is_a_member_and_no_other_key_is() {
    for key in 0..50u8 {
        let mut set = KeySet::new();
        set.insert(key);
        for other in 0..=255u8 {
            assert_eq!(set.contains(other), other == key);
        }
        assert_eq!(set.keys(), vec![key]);
    }
}

#[test]
fn inserting_a_member_again_changes_nothing() {
    let mut set = keys(&[3, 49]);
    set.insert(3);
    assert_eq!(set, keys(&[3, 49]));
    assert_eq!(set.keys(), vec![3, 49]);
}

#[test]
fn members_are_listed_in_ascending_order() {
    assert_eq!(keys(&[44, 0, 24, 49, 7]).keys(), vec![0, 7, 24, 44, 49]);
    let all: Vec<u8> = (0..50).collect();
    assert_eq!(keys(&all).keys(), all);
}

#[test]
fn clearing_removes_every_member() {
    let mut set = keys(&[0, 17, 49]);
    set.clear();
    assert_eq!(set, KeySet::new());
    assert_eq!(set.keys(), Vec::<u8>::new());
}

#[test]
fn difference_keeps_the_members_that_the_other_set_lacks() {
    let left = keys(&[1, 2, 3, 40]);
    let right = keys(&[2, 40, 41]);
    assert_eq!(left.difference(&right).keys(), vec![1, 3]);
    assert_eq!(right.difference(&left).keys(), vec![41]);
    assert_eq!(left.difference(&left).keys(), Vec::<u8>::new());
    assert_eq!(left.difference(&KeySet::new()), left);
}

#[test]
fn diff_finds_what_went_down_and_what_went_up() {
    let changes = diff(&keys(&[1, 2, 3]), &keys(&[2, 3, 4, 49]));
    assert_eq!(changes, Transitions { went_down: vec![4, 49], went_up: vec![1] });
}

#[test]
fn diff_of_a_set_with_itself_is_empty() {
    for members in [vec![], vec![0], vec![24, 44], (0..50).collect::<Vec<u8>>()] {
        let set = keys(&members);
        let changes = diff(&set, &set);
        assert_eq!(changes, Transitions { went_down: vec![], went_up: vec![] });
    }
}

#[test]
fn no_key_goes_down_and_up_at_once() {
    let scans = [keys(&[]), keys(&[0, 5, 21]), keys(&[5, 21, 30]), keys(&[49]), keys(&[0, 49])];
    for previous in scans {
        for current in scans {
            let changes = diff(&previous, &current);
            for key in 0..50u8 {
                let down = changes.went_down.contains(&key);
                let up = changes.went_up.contains(&key);
                assert_eq!(down, current.contains(key) && !previous.contains(key));
                assert_eq!(up, previous.contains(key) && !current.contains(key));
                assert!(!(down && up));
            }
        }
    }
}

#[test]
fn two_keys_closed_in_one_scan_both_go_down() {
    let changes = diff(&keys(&[7]), &keys(&[24, 44]));
    assert_eq!(changes.went_down, vec![24, 44]);
    assert_eq!(changes.went_up, vec![7]);
}
