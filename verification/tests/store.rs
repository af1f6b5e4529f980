use dew::{Error, Store, Timestamp, Todo, TodoStatus};

fn todo(id: u128, title: &str, status: TodoStatus, secs: i64, nanos: u32) -> Todo {
    Todo { id, title: title.to_string(), status, created: Timestamp { secs, nanos } }
}

fn ids(listing: &[Todo]) -> Vec<u128> {
    listing.iter().map(|t| t.id).collect()
}

#[test]
fn new_store_is_empty() {
    let store = Store::new();
    assert_eq!(store.len(), 0);
    assert!(store.list().is_empty());
    assert!(!store.contains(1));
    assert!(store.get(1).is_none());
}

#[test]
fn upsert_inserts_and_returns_the_record() {
    let mut store = Store::new();
    let stored = store.upsert(todo(7, "buy milk", TodoStatus::Active, 100, 0));
    assert_eq!(stored.id, 7);
    assert_eq!(stored.title, "buy milk");
    assert_eq!(stored.status, TodoStatus::Active);
    assert_eq!(stored.created, Timestamp { secs: 100, nanos: 0 });
    assert_eq!(store.len(), 1);
    assert!(store.contains(7));
    let found = store.get(7).unwrap();
    assert_eq!(found.title, "buy milk");
}

#[test]
fn upsert_replaces_the_record_with_the_same_id() {
    let mut store = Store::new();
    store.upsert(todo(7, "buy milk", TodoStatus::Active, 100, 0));
    store.upsert(todo(8, "walk dog", TodoStatus::Active, 200, 0));
    store.upsert(todo(7, "buy oat milk", TodoStatus::Completed, 300, 5));
    assert_eq!(store.len(), 2);
    let found = store.get(7).unwrap();
    assert_eq!(found.title, "buy oat milk");
    assert_eq!(found.status, TodoStatus::Completed);
    assert_eq!(found.created, Timestamp { secs: 300, nanos: 5 });
    let other = store.get(8).unwrap();
    assert_eq!(other.title, "walk dog");
    assert_eq!(ids(&store.list()), vec![7, 8]);
}

#[test]
fn upserts_to_different_ids_do_not_depend_on_their_order() {
    let mut first = Store::new();
    first.upsert(todo(1, "a", TodoStatus::Active, 10, 0));
    first.upsert(todo(2, "b", TodoStatus::Completed, 20, 0));
    let mut second = Store::new();
    second.upsert(todo(2, "b", TodoStatus::Completed, 20, 0));
    second.upsert(todo(1, "a", TodoStatus::Active, 10, 0));
    let a = first.list();
    let b = second.list();
    assert_eq!(ids(&a), vec![2, 1]);
    assert_eq!(ids(&a), ids(&b));
    assert_eq!(a[0].title, b[0].title);
    assert_eq!(a[1].title, b[1].title);
}

#[test]
fn update_status_changes_only_the_status() {
    let mut store = Store::new();
    store.upsert(todo(1, "a", TodoStatus::Active, 10, 3));
    store.upsert(todo(2, "b", TodoStatus::Active, 20, 0));
    let updated = store.update_status(1, TodoStatus::Completed).unwrap();
    assert_eq!(updated.id, 1);
    assert_eq!(updated.title, "a");
    assert_eq!(updated.status, TodoStatus::Completed);
    assert_eq!(updated.created, Timestamp { secs: 10, nanos: 3 });
    assert_eq!(store.get(1).unwrap().status, TodoStatus::Completed);
    assert_eq!(store.get(2).unwrap().status, TodoStatus::Active);
    assert_eq!(store.len(), 2);
}

#[test]
fn update_status_of_a_missing_id_is_not_found() {
    let mut store = Store::new();
    store.upsert(todo(1, "a", TodoStatus::Active, 10, 0));
    let result = store.update_status(2, TodoStatus::Completed);
    assert_eq!(result.err(), Some(Error::NotFound));
    assert_eq!(store.len(), 1);
    assert_eq!(store.get(1).unwrap().status, TodoStatus::Active);
}

#[test]
fn update_title_changes_only_the_title() {
    let mut store = Store::new();
    store.upsert(todo(1, "a", TodoStatus::Completed, 10, 3));
    let updated = store.update_title(1, "z".to_string()).unwrap();
    assert_eq!(updated.id, 1);
    assert_eq!(updated.title, "z");
    assert_eq!(updated.status, TodoStatus::Completed);
    assert_eq!(updated.created, Timestamp { secs: 10, nanos: 3 });
    assert_eq!(store.get(1).unwrap().title, "z");
}

#[test]
fn update_title_of_a_missing_id_is_not_found() {
    let mut store = Store::new();
    let result = store.update_title(2, "z".to_string());
    assert_eq!(result.err(), Some(Error::NotFound));
    assert_eq!(store.len(), 0);
}

#[test]
fn delete_where_removes_every_match_and_counts_them() {
    let mut store = Store::new();
    store.upsert(todo(1, "a", TodoStatus::Completed, 10, 0));
    store.upsert(todo(2, "b", TodoStatus::Active, 20, 0));
    store.upsert(todo(3, "c", TodoStatus::Completed, 30, 0));
    store.upsert(todo(4, "d", TodoStatus::Completed, 40, 0));
    store.upsert(todo(5, "e", TodoStatus::Active, 50, 0));
    let removed = store.delete_where(TodoStatus::Completed);
    assert_eq!(removed, 3);
    assert_eq!(ids(&store.list()), vec![5, 2]);
    assert_eq!(store.get(2).unwrap().title, "b");
    assert_eq!(store.delete_where(TodoStatus::Completed), 0);
    assert_eq!(store.delete_where(TodoStatus::Active), 2);
    assert_eq!(store.len(), 0);
}

#[test]
fn delete_where_on_an_empty_store_removes_nothing() {
    let mut store = Store::new();
    assert_eq!(store.delete_where(TodoStatus::Completed), 0);
    assert_eq!(store.len(), 0);
}

#[test]
fn list_puts_the_newest_first() {
    let mut store = Store::new();
    store.upsert(todo(1, "old", TodoStatus::Active, 10, 0));
    store.upsert(todo(2, "new", TodoStatus::Active, 30, 0));
    store.upsert(todo(3, "mid", TodoStatus::Active, 20, 0));
    store.upsert(todo(4, "before the epoch", TodoStatus::Active, -5, 0));
    assert_eq!(ids(&store.list()), vec![2, 3, 1, 4]);
}

#[test]
fn list_orders_by_nanoseconds_within_a_second() {
    let mut store = Store::new();
    store.upsert(todo(1, "a", TodoStatus::Active, 10, 1));
    store.upsert(todo(2, "b", TodoStatus::Active, 10, 999_999_999));
    store.upsert(todo(3, "c", TodoStatus::Active, 10, 0));
    assert_eq!(ids(&store.list()), vec![2, 1, 3]);
}

#[test]
fn list_breaks_ties_by_the_smaller_id() {
    let mut store = Store::new();
    store.upsert(todo(9, "a", TodoStatus::Active, 10, 0));
    store.upsert(todo(3, "b", TodoStatus::Active, 10, 0));
    store.upsert(todo(5, "c", TodoStatus::Active, 10, 0));
    assert_eq!(ids(&store.list()), vec![3, 5, 9]);
    assert_eq!(ids(&store.list()), vec![3, 5, 9]);
}

#[test]
fn list_changes_nothing() {
    let mut store = Store::new();
    store.upsert(todo(1, "a", TodoStatus::Active, 10, 0));
    let listing = store.list();
    assert_eq!(listing.len(), 1);
    assert_eq!(store.len(), 1);
    assert_eq!(store.get(1).unwrap().title, "a");
}

#[test]
fn listed_before_compares_creation_then_id() {
    let a = todo(1, "a", TodoStatus::Active, 10, 0);
    let b = todo(2, "b", TodoStatus::Active, 20, 0);
    let c = todo(3, "c", TodoStatus::Active, 10, 0);
    assert!(b.listed_before(&a));
    assert!(!a.listed_before(&b));
    assert!(a.listed_before(&c));
    assert!(!c.listed_before(&a));
    assert!(!a.listed_before(&a));
}

#[test]
fn timestamps_are_ordered_by_seconds_first() {
    let early = Timestamp { secs: 1, nanos: 999 };
    let late = Timestamp { secs: 2, nanos: 0 };
    assert!(late.is_later_than(&early));
    assert!(!early.is_later_than(&late));
    assert!(!early.is_later_than(&early));
    assert!(Timestamp { secs: 1, nanos: 1000 }.is_later_than(&early));
}

#[test]
fn new_todo_is_active_and_untitled() {
    let t = Todo::new(42, Timestamp { secs: 5, nanos: 6 });
    assert_eq!(t.id, 42);
    assert_eq!(t.title, "");
    assert_eq!(t.status, TodoStatus::Active);
    assert_eq!(t.created, Timestamp { secs: 5, nanos: 6 });
}

#[test]
fn default_todo_has_a_random_id_and_is_created_now() {
    let a = Todo::default();
    let b = Todo::default();
    assert_eq!(a.title, "");
    assert_eq!(a.status, TodoStatus::Active);
    let mask: u128 = 0x0000_0000_0000_F000_C000_0000_0000_0000;
    let random: u128 = 0x0000_0000_0000_4000_8000_0000_0000_0000;
    assert_eq!(a.id & mask, random);
    assert_eq!(b.id & mask, random);
    assert_ne!(a.id, b.id);
    assert_eq!(uuid::Uuid::from_u128(a.id).get_version_num(), 4);
    // Later than the first of January 2020.
    assert!(a.created.secs > 1_577_836_800);
    assert!(a.created.nanos < 1_000_000_000);
    assert!(!a.created.is_later_than(&b.created));
}

#[test]
fn clone_copies_every_field() {
    let a = todo(1, "a", TodoStatus::Completed, 10, 7);
    let b = a.clone();
    assert_eq!(b.id, 1);
    assert_eq!(b.title, "a");
    assert_eq!(b.status, TodoStatus::Completed);
    assert_eq!(b.created, Timestamp { secs: 10, nanos: 7 });
}

#[test]
fn error_messages() {
    assert_eq!(Error::NotFound.message(), "todo not found");
    assert_eq!(Error::CorruptSnapshot.message(), "corrupt snapshot");
    assert_eq!(Error::PersistenceFailure.message(), "snapshot not written");
}

#[test]
fn only_a_corrupt_snapshot_is_fatal() {
    assert!(!Error::NotFound.is_fatal());
    assert!(Error::CorruptSnapshot.is_fatal());
    assert!(!Error::PersistenceFailure.is_fatal());
}

#[test]
fn changes_to_different_todos_may_change_places() {
    let mut first = Store::new();
    first.upsert(todo(1, "a", TodoStatus::Active, 10, 0));
    first.upsert(todo(2, "b", TodoStatus::Active, 20, 0));
    let mut second = Store::new();
    second.upsert(todo(1, "a", TodoStatus::Active, 10, 0));
    second.upsert(todo(2, "b", TodoStatus::Active, 20, 0));

    first.update_status(1, TodoStatus::Completed).unwrap();
    first.update_title(2, "bb".to_string()).unwrap();
    second.update_title(2, "bb".to_string()).unwrap();
    second.update_status(1, TodoStatus::Completed).unwrap();

    let a = first.list();
    let b = second.list();
    assert_eq!(a.len(), 2);
    assert_eq!(b.len(), 2);
    for (x, y) in a.iter().zip(b.iter()) {
        assert_eq!(x.id, y.id);
        assert_eq!(x.title, y.title);
        assert_eq!(x.status, y.status);
        assert_eq!(x.created, y.created);
    }
    assert_eq!(a[0].title, "bb");
    assert_eq!(a[1].status, TodoStatus::Completed);
}

#[test]
fn many_records_are_listed_once_each_in_order() {
    let mut store = Store::new();
    for k in 0..200u128 {
        let secs = ((k * 37) % 101) as i64;
        store.upsert(todo(k, "t", TodoStatus::Active, secs, 0));
    }
    let listing = store.list();
    assert_eq!(listing.len(), 200);
    for pair in listing.windows(2) {
        assert!(pair[0].listed_before(&pair[1]));
    }
    let mut seen = ids(&listing);
    seen.sort();
    seen.dedup();
    assert_eq!(seen.len(), 200);
}
