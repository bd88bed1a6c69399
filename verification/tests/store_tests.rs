use std::rc::Rc;
use valley::record::Record;
use valley::store::RecordStore;

fn rec(a: u8, b: u16, c: &str) -> Record {
    Record { a, b, c: String::from(c) }
}

#[test]
fn empty_store_every_lookup_is_empty() {
    let store = RecordStore::new();
    assert!(store.lookup_a(&0).is_empty());
    assert!(store.lookup_a(&255).is_empty());
    assert!(store.lookup_b(&0).is_empty());
    assert!(store.lookup_b(&65535).is_empty());
    assert!(store.lookup_c(&String::from("anything")).is_empty());
    assert!(store.lookup_c(&String::from("")).is_empty());
}

#[test]
fn indexed_lookups_return_matches_in_insertion_order() {
    let mut store = RecordStore::new();
    store.insert(rec(5, 10, "test"));
    store.insert(rec(5, 11, "test"));

    let by_a = store.lookup_a(&5);
    assert_eq!(by_a.len(), 2);
    assert_eq!((by_a[0].a, by_a[0].b, by_a[0].c.as_str()), (5, 10, "test"));
    assert_eq!((by_a[1].a, by_a[1].b, by_a[1].c.as_str()), (5, 11, "test"));

    let by_b = store.lookup_b(&11);
    assert_eq!(by_b.len(), 1);
    assert_eq!((by_b[0].a, by_b[0].b, by_b[0].c.as_str()), (5, 11, "test"));

    assert!(store.lookup_a(&99).is_empty());
}

#[test]
fn second_index_keeps_insertion_order_too() {
    let mut store = RecordStore::new();
    store.insert(rec(5, 10, "x"));
    store.insert(rec(7, 10, "y"));

    let by_b = store.lookup_b(&10);
    assert_eq!(by_b.len(), 2);
    assert_eq!((by_b[0].a, by_b[0].c.as_str()), (5, "x"));
    assert_eq!((by_b[1].a, by_b[1].c.as_str()), (7, "y"));
}

#[test]
fn non_indexed_lookup_returns_exactly_the_matches() {
    let mut store = RecordStore::new();
    store.insert(rec(5, 10, "x"));
    store.insert(rec(7, 10, "y"));

    let by_c = store.lookup_c(&String::from("x"));
    assert_eq!(by_c.len(), 1);
    assert_eq!((by_c[0].a, by_c[0].b, by_c[0].c.as_str()), (5, 10, "x"));

    assert!(store.lookup_c(&String::from("z")).is_empty());
}

#[test]
fn non_indexed_lookup_collects_across_buckets() {
    let mut store = RecordStore::new();
    store.insert(rec(9, 1, "shared"));
    store.insert(rec(3, 2, "shared"));
    store.insert(rec(3, 3, "other"));
    store.insert(rec(200, 4, "shared"));

    // The scan walks the index on `a` in ascending key order and keeps
    // insertion order within one bucket.
    let by_c = store.lookup_c(&String::from("shared"));
    assert_eq!(by_c.len(), 3);
    assert_eq!((by_c[0].a, by_c[0].b), (3, 2));
    assert_eq!((by_c[1].a, by_c[1].b), (9, 1));
    assert_eq!((by_c[2].a, by_c[2].b), (200, 4));
}

#[test]
fn non_indexed_lookup_reaches_boundary_keys() {
    let mut store = RecordStore::new();
    store.insert(rec(0, 1, "lo"));
    store.insert(rec(255, 2, "hi"));

    let lo = store.lookup_c(&String::from("lo"));
    assert_eq!(lo.len(), 1);
    assert_eq!(lo[0].a, 0);

    let hi = store.lookup_c(&String::from("hi"));
    assert_eq!(hi.len(), 1);
    assert_eq!(hi[0].a, 255);
}

#[test]
fn repeated_inserts_are_not_deduplicated() {
    let mut store = RecordStore::new();
    store.insert(rec(5, 10, "dup"));
    store.insert(rec(5, 11, "dup"));

    let by_a = store.lookup_a(&5);
    assert_eq!(by_a.len(), 2);
    assert_eq!(by_a[0].b, 10);
    assert_eq!(by_a[1].b, 11);

    // The same full record value inserted again appears once more.
    let mut store = RecordStore::new();
    store.insert(rec(5, 10, "dup"));
    store.insert(rec(5, 10, "dup"));
    assert_eq!(store.lookup_a(&5).len(), 2);
    assert_eq!(store.lookup_b(&10).len(), 2);
    assert_eq!(store.lookup_c(&String::from("dup")).len(), 2);
}

#[test]
fn insert_is_observable_through_every_index_at_once() {
    let mut store = RecordStore::new();
    store.insert(rec(1, 2, "first"));
    store.insert(rec(42, 314, "answer"));

    let by_a = store.lookup_a(&42);
    let by_b = store.lookup_b(&314);
    let by_c = store.lookup_c(&String::from("answer"));
    assert_eq!(by_a.len(), 1);
    assert_eq!(by_b.len(), 1);
    assert_eq!(by_c.len(), 1);

    // One insert produced one shared record: every index hands out a
    // handle to the same allocation, no copy of the record was made.
    assert!(Rc::ptr_eq(&by_a[0], &by_b[0]));
    assert!(Rc::ptr_eq(&by_a[0], &by_c[0]));
}

#[test]
fn lookups_do_not_disturb_the_store() {
    let mut store = RecordStore::new();
    store.insert(rec(8, 80, "v"));
    let first = store.lookup_a(&8);
    assert_eq!(first.len(), 1);
    // Repeated lookups, hits and misses alike, answer the same.
    assert_eq!(store.lookup_a(&8).len(), 1);
    assert!(store.lookup_a(&9).is_empty());
    assert_eq!(store.lookup_b(&80).len(), 1);
    assert_eq!(store.lookup_c(&String::from("v")).len(), 1);
    assert_eq!(store.lookup_a(&8).len(), 1);
}
