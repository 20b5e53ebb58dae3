use shogi_mate_solver::tt::{DfPnTable, Tt};

#[test]
fn new_table_is_empty() {
    let table: Tt<u32> = Tt::new(8);
    assert_eq!(table.len(), 8);
    for key in 0..64u64 {
        assert_eq!(table.fetch(key), None);
    }
}

#[test]
fn fetch_returns_the_last_value_written() {
    let mut table = DfPnTable::new(1 << 4);
    table.insert(5, (1, 2));
    assert_eq!(table.fetch(5), Some((1, 2)));
    table.insert(5, (3, 4));
    assert_eq!(table.fetch(5), Some((3, 4)));
    assert_eq!(table.fetch(21), None);
    table.insert(6, (7, 8));
    assert_eq!(table.fetch(5), Some((3, 4)));
    assert_eq!(table.fetch(6), Some((7, 8)));
}

#[test]
fn a_bucket_holds_four_keys_and_the_fourth_leaves() {
    let mut table: Tt<u64> = Tt::new(2);
    for i in 0..4u64 {
        table.insert(2 * i, i);
    }
    for i in 0..4u64 {
        assert_eq!(table.fetch(2 * i), Some(i));
    }
    table.insert(8, 40);
    assert_eq!(table.fetch(8), Some(40));
    assert_eq!(table.fetch(0), Some(0));
    assert_eq!(table.fetch(2), Some(1));
    assert_eq!(table.fetch(4), Some(2));
    assert_eq!(table.fetch(6), None);
    table.insert(2, 11);
    assert_eq!(table.fetch(2), Some(11));
    assert_eq!(table.fetch(8), Some(40));
    table.insert(1, 99);
    assert_eq!(table.fetch(1), Some(99));
    assert_eq!(table.fetch(8), Some(40));
}

#[test]
fn clear_forgets_every_key() {
    let mut table: Tt<u8> = Tt::new(4);
    for key in 0..16u64 {
        table.insert(key, key as u8);
    }
    table.clear();
    assert_eq!(table.len(), 4);
    for key in 0..16u64 {
        assert_eq!(table.fetch(key), None);
    }
    table.insert(3, 7);
    assert_eq!(table.fetch(3), Some(7));
    assert_eq!(table.fetch(7), None);
}

#[test]
fn large_keys_find_their_bucket() {
    let mut table: Tt<u32> = Tt::new(1 << 10);
    table.insert(u64::MAX, 1);
    table.insert(u64::MAX - 1024, 2);
    assert_eq!(table.fetch(u64::MAX), Some(1));
    assert_eq!(table.fetch(u64::MAX - 1024), Some(2));
    assert_eq!(table.fetch(1023), None);
}
