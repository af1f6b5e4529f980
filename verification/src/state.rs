//! The state of the service: the record store and the generation counter
//! that is bumped once for every change.

use vstd::prelude::*;
use crate::error::Error;
use crate::snapshot::{is_snapshot_of, keyed_by_id, records, restored, DataV1, Source};
use crate::store::{
    distinct_ids, in_listing_order, index, lemma_index_push, views, without_status, Store,
};
use crate::todo::{Todo, TodoStatus, TodoView};

verus! {

/// The generation that follows `g`: one more, and 0 after the largest value.
pub open spec fn next_generation(g: u64) -> u64 {
    if g == u64::MAX {
        0
    } else {
        (g + 1) as u64
    }
}

/// The generation after `n` changes that began at `g`.
pub open spec fn generation_after(g: u64, n: nat) -> u64
    decreases n,
{
    if n == 0 {
        g
    } else {
        next_generation(generation_after(g, (n - 1) as nat))
    }
}

/// As long as the counter does not pass its largest value, `n` changes raise
/// it by exactly `n`: the values seen after each change are distinct and
/// strictly increasing, one apart.
pub proof fn lemma_generation_counts_changes(g: u64, n: nat)
    requires
        g + n <= u64::MAX,
    ensures
        generation_after(g, n) == g + n,
        forall|k: nat| k < n ==> generation_after(g, k) < generation_after(g, n),
    decreases n,
{
    if n > 0 {
        lemma_generation_counts_changes(g, (n - 1) as nat);
        assert forall|k: nat| k < n implies generation_after(g, k) < generation_after(g, n) by {
            if k < n - 1 {
                assert(generation_after(g, k) < generation_after(g, (n - 1) as nat));
            }
        }
    }
}

/// The todo records and the generation counter.
#[derive(Debug)]
pub struct AppState {
    pub generation: u64,
    pub todos: Store,
}

impl AppState {
    /// The state's invariant: that of its store.
    pub open spec fn wf(&self) -> bool {
        self.todos.wf()
    }

    /// The state of a fresh service: no records, generation 0.
    pub fn new() -> (state: AppState)
        ensures
            state.wf(),
            state.generation == 0,
            state.todos@ == Map::<u128, TodoView>::empty(),
    {
        AppState { generation: 0, todos: Store::new() }
    }

    /// The state that a service starts with, given what was found where its
    /// snapshot is kept. No snapshot is no error: the service starts empty. An
    /// unreadable snapshot, or a payload with an entry under a wrong key, is
    /// refused as corrupt. The generation starts at 0 in every case.
    pub fn load(source: Source) -> (result: Result<AppState, Error>)
        ensures
            match result {
                Ok(state) => state.wf() && state.generation == 0 && restored(source) == Ok::<
                    Map<u128, TodoView>,
                    Error,
                >(state.todos@),
                Err(e) => restored(source) == Err::<Map<u128, TodoView>, Error>(e),
            },
    {
        match source {
            Source::Missing => Ok(AppState::new()),
            Source::Unreadable => Err(Error::CorruptSnapshot),
            Source::V1(data) => AppState::from_v1(data),
        }
    }

    /// The state that a version-1 payload stands for: its records, each under
    /// its id, a later entry replacing an earlier one of the same id. A payload
    /// with an entry whose key is not its record's id is refused as corrupt.
    pub fn from_v1(data: DataV1) -> (result: Result<AppState, Error>)
        ensures
            match result {
                Ok(state) => keyed_by_id(data.entries()) && state.wf() && state.generation == 0
                    && state.todos@ == index(records(data.entries())),
                Err(e) => e == Error::CorruptSnapshot && !keyed_by_id(data.entries()),
            },
    {
        let ghost entries = data.entries();
        let mut todos = Store::new();
        let mut i: usize = 0;
        while i < data.todos.len()
            invariant
                i <= data.todos@.len(),
                entries == data.entries(),
                todos.wf(),
                todos@ == index(records(entries).take(i as int)),
                forall|j: int| 0 <= j < i ==> (#[trigger] entries[j]).0 == entries[j].1.id,
            decreases data.todos@.len() - i,
        {
            let key = data.todos[i].0;
            let todo = data.todos[i].1.clone();
            proof {
                assert(entries[i as int] == (key, todo@));
            }
            if key != todo.id {
                return Err(Error::CorruptSnapshot);
            }
            proof {
                lemma_index_push(records(entries).take(i as int), todo@);
                assert(records(entries).take(i as int + 1) =~= records(entries).take(i as int).push(
                    todo@,
                ));
            }
            todos.upsert(todo);
            i += 1;
        }
        proof {
            assert(records(entries).take(i as int) =~= records(entries));
        }
        Ok(AppState { generation: 0, todos })
    }

    /// Counts one change: raises the generation by one, wrapping to 0 after the
    /// largest value, and returns the value it had before.
    pub fn increment_generation(&mut self) -> (previous: u64)
        ensures
            previous == old(self).generation,
            final(self).generation == next_generation(old(self).generation),
            final(self).todos == old(self).todos,
    {
        let previous = self.generation;
        self.generation = previous.wrapping_add(1);
        previous
    }

    /// The payload of the state's snapshot: every record once, under its id,
    /// in listing order. The generation is not part of it.
    pub fn store(&self) -> (data: DataV1)
        requires
            self.wf(),
        ensures
            is_snapshot_of(data, self.todos@),
            data.todos@.len() == self.todos@.len(),
    {
        let listing = self.todos.list();
        let mut entries: Vec<(u128, Todo)> = Vec::new();
        let mut i: usize = 0;
        while i < listing.len()
            invariant
                i <= listing@.len(),
                entries@.len() == i,
                forall|j: int|
                    0 <= j < i ==> (#[trigger] entries@[j]).0 == listing@[j].id && entries@[j].1@
                        == listing@[j]@,
            decreases listing@.len() - i,
        {
            let todo = listing[i].clone();
            entries.push((todo.id, todo));
            i += 1;
        }
        let data = DataV1 { todos: entries };
        proof {
            assert(records(data.entries()) =~= views(listing@));
        }
        data
    }

    /// The present generation.
    pub fn get_generation(&self) -> (g: u64)
        ensures
            g == self.generation,
    {
        self.generation
    }

    /// All records, newest first. Changes nothing.
    pub fn get_todos(&self) -> (listing: Vec<Todo>)
        requires
            self.wf(),
        ensures
            in_listing_order(views(listing@)),
            distinct_ids(views(listing@)),
            index(views(listing@)) == self.todos@,
            listing@.len() == self.todos@.len(),
    {
        self.todos.list()
    }

    /// Creates the todo, or replaces the one that has its id, and counts one
    /// change.
    pub fn add_todo(&mut self, todo: Todo) -> (stored: Todo)
        requires
            old(self).wf(),
        ensures
            final(self).wf(),
            final(self).todos@ == old(self).todos@.insert(todo@.id, todo@),
            final(self).generation == next_generation(old(self).generation),
            stored@ == todo@,
    {
        let stored = self.todos.upsert(todo);
        self.increment_generation();
        stored
    }

    /// Sets the status of the todo with this id and counts one change. When no
    /// todo has this id, fails with `NotFound` and changes nothing, the
    /// generation included.
    pub fn set_todo_status(&mut self, id: u128, status: TodoStatus) -> (result: Result<
        Todo,
        Error,
    >)
        requires
            old(self).wf(),
        ensures
            final(self).wf(),
            match result {
                Ok(todo) => old(self).todos@.contains_key(id) && todo@ == (TodoView {
                    status,
                    ..old(self).todos@[id]
                }) && final(self).todos@ == old(self).todos@.insert(id, todo@)
                    && final(self).generation == next_generation(old(self).generation),
                Err(e) => e == Error::NotFound && !old(self).todos@.contains_key(id)
                    && final(self).todos@ == old(self).todos@ && final(self).generation == old(
                    self,
                ).generation,
            },
    {
        match self.todos.update_status(id, status) {
            Ok(todo) => {
                self.increment_generation();
                Ok(todo)
            },
            Err(e) => Err(e),
        }
    }

    /// Sets the title of the todo with this id and counts one change. When no
    /// todo has this id, fails with `NotFound` and changes nothing, the
    /// generation included.
    pub fn set_todo_title(&mut self, id: u128, title: String) -> (result: Result<Todo, Error>)
        requires
            old(self).wf(),
        ensures
            final(self).wf(),
            match result {
                Ok(todo) => old(self).todos@.contains_key(id) && todo@ == (TodoView {
                    title: title@,
                    ..old(self).todos@[id]
                }) && final(self).todos@ == old(self).todos@.insert(id, todo@)
                    && final(self).generation == next_generation(old(self).generation),
                Err(e) => e == Error::NotFound && !old(self).todos@.contains_key(id)
                    && final(self).todos@ == old(self).todos@ && final(self).generation == old(
                    self,
                ).generation,
            },
    {
        match self.todos.update_title(id, title) {
            Ok(todo) => {
                self.increment_generation();
                Ok(todo)
            },
            Err(e) => Err(e),
        }
    }

    /// Removes every completed todo and counts one change, however many were
    /// removed.
    pub fn delete_completed_todos(&mut self)
        requires
            old(self).wf(),
        ensures
            final(self).wf(),
            final(self).todos@ == without_status(old(self).todos@, TodoStatus::Completed),
            final(self).generation == next_generation(old(self).generation),
    {
        self.todos.delete_where(TodoStatus::Completed);
        self.increment_generation();
    }
}

impl Default for AppState {
    fn default() -> (state: AppState)
        ensures
            state.wf(),
            state.generation == 0,
            state.todos@ == Map::<u128, TodoView>::empty(),
    {
        AppState::new()
    }
}

} // verus!
