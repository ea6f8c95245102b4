//! Tests for the reference-table semantics backing the synthesized functions.

use externref::table::{HostRef, RefTable, NULL_INDEX};

#[test]
fn insert_null_leaves_table_unchanged() {
    let mut table = RefTable::new();
    table.insert(HostRef::Ref(7));
    let index = table.insert(HostRef::Null);
    assert_eq!(index, NULL_INDEX);
    assert_eq!(table.size(), 1);
    assert_eq!(table.slots, vec![HostRef::Ref(7)]);
}

#[test]
fn insert_into_empty_table_grows_it() {
    let mut table = RefTable::new();
    let index = table.insert(HostRef::Ref(1));
    assert_eq!(index, 0);
    assert_eq!(table.size(), 1);
    assert_eq!(table.get(0), HostRef::Ref(1));
}

#[test]
fn insert_reuses_dropped_slot() {
    let mut table = RefTable::new();
    let i = table.insert(HostRef::Ref(1));
    table.insert(HostRef::Ref(2));
    table.drop(i);
    let j = table.insert(HostRef::Ref(3));
    assert_eq!(j, i);
    assert_eq!(table.size(), 2);
}

#[test]
fn insert_grows_when_full() {
    let mut table = RefTable::new();
    table.insert(HostRef::Ref(1));
    table.insert(HostRef::Ref(2));
    let index = table.insert(HostRef::Ref(3));
    assert_eq!(index, 2);
    assert_eq!(table.size(), 3);
}

#[test]
fn insert_prefers_highest_free_slot() {
    let mut table = RefTable::new();
    for id in 1..=4 {
        table.insert(HostRef::Ref(id));
    }
    table.drop(1);
    table.drop(3);
    let index = table.insert(HostRef::Ref(9));
    assert_eq!(index, 3);
    assert_eq!(table.size(), 4);
}

#[test]
fn get_null_sentinel() {
    let mut table = RefTable::new();
    table.insert(HostRef::Ref(1));
    assert_eq!(table.get(NULL_INDEX), HostRef::Null);
}

#[test]
fn drop_notifies_then_clears() {
    let mut table = RefTable::new();
    let i = table.insert(HostRef::Ref(41));
    // The returned value is what a configured drop notification is invoked
    // with, exactly once, before the slot is cleared.
    let notified = table.drop(i);
    assert_eq!(notified, HostRef::Ref(41));
    assert_eq!(table.get(i), HostRef::Null);
}

#[test]
fn reuse_over_grow_driver() {
    let mut table = RefTable::new();
    let a = table.insert(HostRef::Ref(1));
    assert_eq!(table.slots, vec![HostRef::Ref(1)]);
    table.insert(HostRef::Ref(2));
    assert_eq!(table.slots, vec![HostRef::Ref(1), HostRef::Ref(2)]);
    table.drop(a);
    assert_eq!(table.slots, vec![HostRef::Null, HostRef::Ref(2)]);
    let c = table.insert(HostRef::Ref(3));
    assert_eq!(table.slots, vec![HostRef::Ref(3), HostRef::Ref(2)]);
    assert_eq!(c, a);
    assert_eq!(table.size(), 2); // no growth occurred at the last insertion
}
