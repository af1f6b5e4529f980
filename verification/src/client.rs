//! The client's side: how a client notices that the list has changed, and the
//! copy of the list that it keeps and edits between two fetches.

use vstd::prelude::*;
use crate::store::views;
use crate::todo::{random_version_and_variant, version_and_variant, Todo, TodoStatus, TodoView};

verus! {

/// The generation that a client saw last, if it has seen one.
#[derive(Clone, Copy, Debug, PartialEq, Eq, Structural)]
pub struct Watch {
    pub seen: Option<u64>,
}

impl Watch {
    /// A client that has seen no generation yet.
    pub fn new() -> (watch: Watch)
        ensures
            watch.seen == None::<u64>,
    {
        Watch { seen: None }
    }

    /// Whether a client that saw `self.seen` last has to fetch the list again
    /// when it observes `generation`: always, unless it is the one seen last.
    pub open spec fn stale(self, generation: u64) -> bool {
        self.seen != Some(generation)
    }

    /// Takes note of an observed generation and says whether the list has to
    /// be fetched again. A generation that was already seen changes nothing.
    pub fn observe(&mut self, generation: u64) -> (refetch: bool)
        ensures
            refetch == old(self).stale(generation),
            final(self).seen == Some(generation),
    {
        let refetch = match self.seen {
            Some(seen) => seen != generation,
            None => true,
        };
        self.seen = Some(generation);
        refetch
    }
}

impl TodoStatus {
    /// The other status.
    pub open spec fn flipped(self) -> TodoStatus {
        match self {
            TodoStatus::Active => TodoStatus::Completed,
            TodoStatus::Completed => TodoStatus::Active,
        }
    }

    /// The status after a click on the todo's checkbox: the other one.
    pub fn toggled(self) -> (status: TodoStatus)
        ensures
            status == self.flipped(),
    {
        match self {
            TodoStatus::Active => TodoStatus::Completed,
            TodoStatus::Completed => TodoStatus::Active,
        }
    }
}

/// What the row of one todo remembers between two events.
#[derive(Clone, Copy, Debug, PartialEq, Eq, Structural)]
pub struct TodoState {
    /// The title was edited and the edit has not been sent yet.
    pub title_modified: bool,
}

impl TodoState {
    /// The state of a row that nobody has touched.
    pub fn new() -> (state: TodoState)
        ensures
            !state.title_modified,
    {
        TodoState { title_modified: false }
    }

    /// The user typed: the todo takes the new title, which is not sent yet.
    pub fn on_title_input(&mut self, todo: &mut Todo, title: String)
        ensures
            final(todo)@ == (TodoView { title: title@, ..old(todo)@ }),
            final(self).title_modified,
    {
        todo.title = title;
        self.title_modified = true;
    }

    /// The user submitted: the todo takes the new title, and the caller sends
    /// it to the service.
    pub fn on_title_submit(&mut self, todo: &mut Todo, title: String)
        ensures
            final(todo)@ == (TodoView { title: title@, ..old(todo)@ }),
            !final(self).title_modified,
    {
        todo.title = title;
        self.title_modified = false;
    }
}

/// The user clicked the checkbox of the todo: its status becomes the other
/// one, and the caller sends the new status to the service.
pub fn on_completed_clicked(todo: &mut Todo)
    ensures
        final(todo)@ == (TodoView { status: old(todo)@.status.flipped(), ..old(todo)@ }),
{
    todo.status = todo.status.toggled();
}

/// The user sent the todo that was being written: it is handed out, to be
/// shown at once and to be sent to the service, and a new empty one takes its
/// place.
pub fn on_todo_input_clicked(todo: &mut Todo) -> (pushed: PushTodo)
    ensures
        pushed.0@ == old(todo)@,
        final(todo)@.title == Seq::<char>::empty(),
        final(todo)@.status == TodoStatus::Active,
        version_and_variant(final(todo)@.id) == random_version_and_variant(),
{
    let pushed = PushTodo(todo.clone());
    *todo = Todo::default();
    pushed
}

/// A todo that the client has just created and shows before the service has
/// answered.
#[derive(Debug)]
pub struct PushTodo(pub Todo);

/// The list as the service sent it.
#[derive(Debug)]
pub struct UpdateTodos(pub Vec<Todo>);

/// The list as the client shows it.
#[derive(Debug)]
pub struct Data {
    pub todos: Vec<Todo>,
}

/// The records of the sequence that are active, in their order.
pub open spec fn active_only(records: Seq<TodoView>) -> Seq<TodoView>
    decreases records.len(),
{
    if records.len() == 0 {
        records
    } else if records.last().status == TodoStatus::Active {
        active_only(records.drop_last()).push(records.last())
    } else {
        active_only(records.drop_last())
    }
}

/// Some record of the sequence is completed.
pub open spec fn some_completed(records: Seq<TodoView>) -> bool {
    exists|i: int| 0 <= i < records.len() && (#[trigger] records[i]).status == TodoStatus::Completed
}

/// Where no record is completed, every record is active and stays.
pub proof fn lemma_active_only_keeps_all(records: Seq<TodoView>)
    requires
        !some_completed(records),
    ensures
        active_only(records) == records,
    decreases records.len(),
{
    if records.len() > 0 {
        let dl = records.drop_last();
        assert(records[records.len() - 1].status != TodoStatus::Completed);
        assert forall|i: int| 0 <= i < dl.len() implies (#[trigger] dl[i]).status
            != TodoStatus::Completed by {
            assert(records[i].status != TodoStatus::Completed);
        }
        lemma_active_only_keeps_all(dl);
        assert(dl.push(records.last()) =~= records);
    }
}

/// What is left holds no completed record.
pub proof fn lemma_active_only_has_none_completed(records: Seq<TodoView>)
    ensures
        !some_completed(active_only(records)),
    decreases records.len(),
{
    if records.len() > 0 {
        let dl = records.drop_last();
        lemma_active_only_has_none_completed(dl);
        let kept = active_only(records);
        if some_completed(kept) {
            let i = choose|i: int|
                0 <= i < kept.len() && (#[trigger] kept[i]).status == TodoStatus::Completed;
            if i < active_only(dl).len() {
                assert(active_only(dl)[i].status == TodoStatus::Completed);
            }
        }
    }
}

impl Data {
    /// An empty list.
    pub fn new() -> (data: Data)
        ensures
            data.todos@.len() == 0,
    {
        Data { todos: Vec::new() }
    }

    /// Whether any todo of the list is completed.
    pub fn any_completed(&self) -> (r: bool)
        ensures
            r == some_completed(views(self.todos@)),
    {
        let ghost records = views(self.todos@);
        let mut i: usize = 0;
        while i < self.todos.len()
            invariant
                i <= self.todos@.len(),
                records == views(self.todos@),
                forall|j: int| 0 <= j < i ==> (#[trigger] records[j]).status != TodoStatus::Completed,
            decreases self.todos@.len() - i,
        {
            if self.todos[i].status == TodoStatus::Completed {
                proof {
                    assert(records[i as int].status == TodoStatus::Completed);
                }
                return true;
            }
            i += 1;
        }
        false
    }

    /// Puts a todo that was just created at the head of the list.
    pub fn push_todo(&mut self, pushed: PushTodo)
        ensures
            final(self).todos@ == old(self).todos@.insert(0, pushed.0),
    {
        self.todos.insert(0, pushed.0);
    }

    /// Replaces the list by the one that the service sent.
    pub fn update_todos(&mut self, update: UpdateTodos)
        ensures
            final(self).todos@ == update.0@,
    {
        self.todos = update.0;
    }

    /// Takes the completed todos off the list; the active ones stay in their
    /// order.
    pub fn delete_completed(&mut self)
        ensures
            views(final(self).todos@) == active_only(views(old(self).todos@)),
    {
        let ghost records = views(self.todos@);
        let mut kept: Vec<Todo> = Vec::new();
        let mut i: usize = 0;
        while i < self.todos.len()
            invariant
                i <= self.todos@.len(),
                records == views(self.todos@),
                views(kept@) == active_only(records.take(i as int)),
            decreases self.todos@.len() - i,
        {
            proof {
                assert(records.take(i as int + 1).drop_last() =~= records.take(i as int));
                assert(records.take(i as int + 1).last() == self.todos@[i as int]@);
            }
            if self.todos[i].status == TodoStatus::Active {
                let ghost before = views(kept@);
                let todo = self.todos[i].clone();
                kept.push(todo);
                proof {
                    assert(views(kept@) =~= before.push(todo@));
                }
            }
            i += 1;
        }
        proof {
            assert(records.take(i as int) =~= records);
        }
        self.todos = kept;
    }
}

} // verus!
