use dew::{AppState, DataV1, Error, Source, Timestamp, Todo, TodoStatus};

fn todo(id: u128, title: &str, status: TodoStatus, secs: i64) -> Todo {
    Todo { id, title: title.to_string(), status, created: Timestamp { secs, nanos: 0 } }
}

const A: u128 = 0xa;

#[test]
fn fresh_state_is_empty_at_generation_zero() {
    let state = AppState::new();
    assert_eq!(state.get_generation(), 0);
    assert!(state.get_todos().is_empty());
    let state = AppState::default();
    assert_eq!(state.get_generation(), 0);
    assert!(state.get_todos().is_empty());
}

#[test]
fn creating_a_todo_lists_it_and_bumps_the_generation() {
    let mut state = AppState::new();
    let stored = state.add_todo(todo(A, "buy milk", TodoStatus::Active, 100));
    assert_eq!(stored.id, A);
    assert_eq!(stored.title, "buy milk");
    let listing = state.get_todos();
    assert_eq!(listing.len(), 1);
    assert_eq!(listing[0].id, A);
    assert_eq!(listing[0].title, "buy milk");
    assert_eq!(listing[0].status, TodoStatus::Active);
    assert_eq!(state.get_generation(), 1);
}

#[test]
fn completing_then_deleting_completed_empties_the_list() {
    let mut state = AppState::new();
    state.add_todo(todo(A, "buy milk", TodoStatus::Active, 100));
    let before = state.get_generation();
    let updated = state.set_todo_status(A, TodoStatus::Completed).unwrap();
    assert_eq!(updated.status, TodoStatus::Completed);
    assert_eq!(updated.title, "buy milk");
    state.delete_completed_todos();
    assert!(state.get_todos().is_empty());
    assert_eq!(state.get_generation(), before + 2);
}

#[test]
fn setting_the_status_of_a_missing_todo_fails_and_keeps_the_generation() {
    let mut state = AppState::new();
    state.add_todo(todo(A, "buy milk", TodoStatus::Active, 100));
    let before = state.get_generation();
    let result = state.set_todo_status(0xbad, TodoStatus::Completed);
    assert_eq!(result.err(), Some(Error::NotFound));
    assert_eq!(state.get_generation(), before);
    let listing = state.get_todos();
    assert_eq!(listing.len(), 1);
    assert_eq!(listing[0].status, TodoStatus::Active);
}

#[test]
fn setting_the_title_of_a_missing_todo_fails_and_keeps_the_generation() {
    let mut state = AppState::new();
    let result = state.set_todo_title(0xbad, "x".to_string());
    assert_eq!(result.err(), Some(Error::NotFound));
    assert_eq!(state.get_generation(), 0);
    assert!(state.get_todos().is_empty());
}

#[test]
fn setting_the_title_bumps_the_generation_once() {
    let mut state = AppState::new();
    state.add_todo(todo(A, "buy milk", TodoStatus::Active, 100));
    let updated = state.set_todo_title(A, "buy oat milk".to_string()).unwrap();
    assert_eq!(updated.title, "buy oat milk");
    assert_eq!(updated.status, TodoStatus::Active);
    assert_eq!(state.get_generation(), 2);
    assert_eq!(state.get_todos()[0].title, "buy oat milk");
}

#[test]
fn the_later_todo_is_listed_first() {
    let mut state = AppState::new();
    state.add_todo(todo(1, "first", TodoStatus::Active, 1_000));
    state.add_todo(todo(2, "second", TodoStatus::Active, 2_000));
    let listing = state.get_todos();
    assert_eq!(listing.len(), 2);
    assert_eq!(listing[0].id, 2);
    assert_eq!(listing[1].id, 1);
}

#[test]
fn deleting_completed_bumps_once_however_many_are_removed() {
    let mut state = AppState::new();
    state.add_todo(todo(1, "a", TodoStatus::Completed, 1));
    state.add_todo(todo(2, "b", TodoStatus::Completed, 2));
    state.add_todo(todo(3, "c", TodoStatus::Active, 3));
    assert_eq!(state.get_generation(), 3);
    state.delete_completed_todos();
    assert_eq!(state.get_generation(), 4);
    let listing = state.get_todos();
    assert_eq!(listing.len(), 1);
    assert_eq!(listing[0].id, 3);
    state.delete_completed_todos();
    assert_eq!(state.get_generation(), 5);
    assert_eq!(state.get_todos().len(), 1);
}

#[test]
fn increment_generation_returns_the_previous_value() {
    let mut state = AppState::new();
    assert_eq!(state.increment_generation(), 0);
    assert_eq!(state.increment_generation(), 1);
    assert_eq!(state.increment_generation(), 2);
    assert_eq!(state.get_generation(), 3);
}

#[test]
fn generations_seen_after_each_change_rise_by_one() {
    let mut state = AppState::new();
    let mut seen = Vec::new();
    for _ in 0..100 {
        state.increment_generation();
        seen.push(state.get_generation());
    }
    for (k, g) in seen.iter().enumerate() {
        assert_eq!(*g, k as u64 + 1);
    }
}

#[test]
fn the_generation_wraps_after_the_largest_value() {
    let mut state = AppState::new();
    state.generation = u64::MAX - 1;
    assert_eq!(state.increment_generation(), u64::MAX - 1);
    assert_eq!(state.get_generation(), u64::MAX);
    assert_eq!(state.increment_generation(), u64::MAX);
    assert_eq!(state.get_generation(), 0);
}

#[test]
fn reading_changes_nothing() {
    let mut state = AppState::new();
    state.add_todo(todo(1, "a", TodoStatus::Active, 1));
    let _ = state.get_todos();
    let _ = state.get_generation();
    let _ = state.store();
    assert_eq!(state.get_generation(), 1);
    assert_eq!(state.get_todos().len(), 1);
}

#[test]
fn load_without_a_snapshot_starts_empty() {
    let state = AppState::load(Source::Missing).unwrap();
    assert_eq!(state.get_generation(), 0);
    assert!(state.get_todos().is_empty());
}

#[test]
fn load_of_an_unreadable_snapshot_is_corrupt() {
    let result = AppState::load(Source::Unreadable);
    assert_eq!(result.err(), Some(Error::CorruptSnapshot));
}

#[test]
fn load_of_a_payload_with_a_wrong_key_is_corrupt() {
    let data = DataV1 {
        todos: vec![
            (1, todo(1, "a", TodoStatus::Active, 1)),
            (3, todo(2, "b", TodoStatus::Active, 2)),
        ],
    };
    let result = AppState::load(Source::V1(data));
    assert_eq!(result.err(), Some(Error::CorruptSnapshot));
}

#[test]
fn load_of_a_payload_restores_its_records() {
    let data = DataV1 {
        todos: vec![
            (1, todo(1, "a", TodoStatus::Active, 1)),
            (2, todo(2, "b", TodoStatus::Completed, 2)),
        ],
    };
    let state = AppState::load(Source::V1(data)).unwrap();
    assert_eq!(state.get_generation(), 0);
    let listing = state.get_todos();
    assert_eq!(listing.len(), 2);
    assert_eq!(listing[0].id, 2);
    assert_eq!(listing[0].title, "b");
    assert_eq!(listing[0].status, TodoStatus::Completed);
    assert_eq!(listing[1].id, 1);
}

#[test]
fn from_v1_lets_a_later_entry_replace_an_earlier_one() {
    let data = DataV1 {
        todos: vec![
            (1, todo(1, "a", TodoStatus::Active, 1)),
            (1, todo(1, "again", TodoStatus::Completed, 5)),
        ],
    };
    let state = AppState::from_v1(data).unwrap();
    let listing = state.get_todos();
    assert_eq!(listing.len(), 1);
    assert_eq!(listing[0].title, "again");
}

#[test]
fn from_v1_of_an_empty_payload_is_the_empty_state() {
    let state = AppState::from_v1(DataV1 { todos: Vec::new() }).unwrap();
    assert_eq!(state.get_generation(), 0);
    assert!(state.get_todos().is_empty());
}

#[test]
fn store_files_every_record_under_its_id_in_listing_order() {
    let mut state = AppState::new();
    state.add_todo(todo(1, "a", TodoStatus::Active, 10));
    state.add_todo(todo(2, "b", TodoStatus::Completed, 30));
    state.add_todo(todo(3, "c", TodoStatus::Active, 20));
    let data = state.store();
    let keys: Vec<u128> = data.todos.iter().map(|e| e.0).collect();
    assert_eq!(keys, vec![2, 3, 1]);
    for (key, record) in data.todos.iter() {
        assert_eq!(*key, record.id);
    }
    assert_eq!(data.todos[0].1.title, "b");
    assert_eq!(data.todos[0].1.status, TodoStatus::Completed);
}

#[test]
fn store_then_load_gives_the_same_records_at_generation_zero() {
    let mut state = AppState::new();
    state.add_todo(todo(1, "a", TodoStatus::Active, 10));
    state.add_todo(todo(2, "b", TodoStatus::Completed, 30));
    state.set_todo_title(1, "a!".to_string()).unwrap();
    let before = state.get_todos();
    let restored = AppState::load(Source::V1(state.store())).unwrap();
    assert_eq!(restored.get_generation(), 0);
    let after = restored.get_todos();
    assert_eq!(after.len(), before.len());
    for (x, y) in before.iter().zip(after.iter()) {
        assert_eq!(x.id, y.id);
        assert_eq!(x.title, y.title);
        assert_eq!(x.status, y.status);
        assert_eq!(x.created, y.created);
    }
}

#[test]
fn store_then_load_of_the_empty_state_is_empty() {
    let state = AppState::new();
    let data = state.store();
    assert!(data.todos.is_empty());
    let restored = AppState::load(Source::V1(data)).unwrap();
    assert!(restored.get_todos().is_empty());
}
