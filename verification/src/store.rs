//! The record store: a mapping from identifier to todo record.

use std::collections::HashMap;
use vstd::prelude::*;
use vstd::std_specs::iter::IteratorSpec;
use crate::todo::{Todo, TodoStatus, TodoView};
use crate::error::Error;

verus! {

broadcast use vstd::std_specs::hash::group_hash_axioms;

/// The values of a sequence of todos.
pub open spec fn views(todos: Seq<Todo>) -> Seq<TodoView> {
    todos.map_values(|t: Todo| t@)
}

/// The mapping that a sequence of records stands for: each record under its
/// own id, a later record replacing an earlier one with the same id.
pub open spec fn index(records: Seq<TodoView>) -> Map<u128, TodoView>
    decreases records.len(),
{
    if records.len() == 0 {
        Map::empty()
    } else {
        index(records.drop_last()).insert(records.last().id, records.last())
    }
}

/// No two records of the sequence share an id.
pub open spec fn distinct_ids(records: Seq<TodoView>) -> bool {
    forall|i: int, j: int| 0 <= i < j < records.len() ==> records[i].id != records[j].id
}

/// Some record of the sequence has this id.
pub open spec fn has_id(records: Seq<TodoView>, id: u128) -> bool {
    exists|i: int| 0 <= i < records.len() && (#[trigger] records[i]).id == id
}

/// The sequence is in listing order, strictly: each record comes before all
/// that follow it.
pub open spec fn in_listing_order(records: Seq<TodoView>) -> bool {
    forall|i: int, j: int|
        0 <= i < j < records.len() ==> (#[trigger] records[i]).listed_before(#[trigger] records[j])
}

/// The mapping without the records of the given status.
pub open spec fn without_status(m: Map<u128, TodoView>, status: TodoStatus) -> Map<
    u128,
    TodoView,
> {
    Map::new(|id: u128| m.contains_key(id) && m[id].status != status, |id: u128| m[id])
}

/// The keys of `index(records)` are the ids that occur in `records`.
pub proof fn lemma_index_dom(records: Seq<TodoView>, id: u128)
    ensures
        index(records).contains_key(id) <==> has_id(records, id),
    decreases records.len(),
{
    if records.len() > 0 {
        let dl = records.drop_last();
        let last = records.last();
        lemma_index_dom(dl, id);
        if has_id(records, id) {
            let i = choose|i: int| 0 <= i < records.len() && (#[trigger] records[i]).id == id;
            if i < records.len() - 1 {
                assert(dl[i].id == id);
            }
        }
        if index(records).contains_key(id) {
            if id == last.id {
                assert(records[records.len() - 1].id == id);
            } else {
                assert(has_id(dl, id));
                let i = choose|i: int| 0 <= i < dl.len() && (#[trigger] dl[i]).id == id;
                assert(records[i].id == id);
            }
        }
    }
}

/// Where ids are distinct, `index(records)` holds each record under its id.
pub proof fn lemma_index_value(records: Seq<TodoView>, i: int)
    requires
        distinct_ids(records),
        0 <= i < records.len(),
    ensures
        index(records).contains_key(records[i].id),
        index(records)[records[i].id] == records[i],
    decreases records.len(),
{
    if i < records.len() - 1 {
        let dl = records.drop_last();
        assert(dl[i] == records[i]);
        lemma_index_value(dl, i);
    }
}

/// Every value of `index(records)` is one of the records.
pub proof fn lemma_index_witness(records: Seq<TodoView>, id: u128) -> (i: int)
    requires
        index(records).contains_key(id),
    ensures
        0 <= i < records.len(),
        records[i].id == id,
        index(records)[id] == records[i],
    decreases records.len(),
{
    let dl = records.drop_last();
    if id == records.last().id {
        records.len() - 1
    } else {
        let i = lemma_index_witness(dl, id);
        assert(dl[i] == records[i]);
        i
    }
}

/// Where ids are distinct, `index(records)` has one key for each record.
pub proof fn lemma_index_len(records: Seq<TodoView>)
    requires
        distinct_ids(records),
    ensures
        index(records).dom().finite(),
        index(records).len() == records.len(),
    decreases records.len(),
{
    if records.len() > 0 {
        let dl = records.drop_last();
        let last = records.last();
        assert forall|i: int, j: int| 0 <= i < j < dl.len() implies dl[i].id != dl[j].id by {
            assert(dl[i] == records[i] && dl[j] == records[j]);
        }
        lemma_index_len(dl);
        lemma_index_dom(dl, last.id);
        if has_id(dl, last.id) {
            let i = choose|i: int| 0 <= i < dl.len() && (#[trigger] dl[i]).id == last.id;
            assert(records[i].id == records[records.len() - 1].id);
        }
        assert(index(records).dom() == index(dl).dom().insert(last.id));
    }
}

/// Appending a record stores it under its id.
pub proof fn lemma_index_push(records: Seq<TodoView>, r: TodoView)
    ensures
        index(records.push(r)) == index(records).insert(r.id, r),
{
    assert(records.push(r).drop_last() =~= records);
}

/// Taking a record out of a sequence with distinct ids removes its id.
pub proof fn lemma_index_remove(records: Seq<TodoView>, i: int)
    requires
        distinct_ids(records),
        0 <= i < records.len(),
    ensures
        distinct_ids(records.remove(i)),
        index(records.remove(i)) == index(records).remove(records[i].id),
    decreases records.len(),
{
    let removed = records.remove(i);
    let dl = records.drop_last();
    let last = records.last();
    assert forall|a: int, b: int| 0 <= a < b < removed.len() implies removed[a].id
        != removed[b].id by {
        let a0 = if a < i { a } else { a + 1 };
        let b0 = if b < i { b } else { b + 1 };
        assert(removed[a] == records[a0] && removed[b] == records[b0]);
    }
    assert forall|a: int, b: int| 0 <= a < b < dl.len() implies dl[a].id != dl[b].id by {
        assert(dl[a] == records[a] && dl[b] == records[b]);
    }
    if i == records.len() - 1 {
        assert(removed =~= dl);
        lemma_index_dom(dl, last.id);
        if has_id(dl, last.id) {
            let k = choose|k: int| 0 <= k < dl.len() && (#[trigger] dl[k]).id == last.id;
            assert(records[k].id == records[records.len() - 1].id);
        }
        assert(index(removed) =~= index(records).remove(last.id));
    } else {
        assert(removed.drop_last() =~= dl.remove(i));
        assert(removed.last() == last);
        assert(dl[i] == records[i]);
        lemma_index_remove(dl, i);
        assert(records[i].id != records[records.len() - 1].id);
        assert(index(removed) =~= index(records).remove(records[i].id));
    }
}

/// Putting a record with a new id anywhere into a sequence with distinct ids
/// stores it under its id.
pub proof fn lemma_index_insert(records: Seq<TodoView>, p: int, r: TodoView)
    requires
        distinct_ids(records),
        0 <= p <= records.len(),
        !has_id(records, r.id),
    ensures
        distinct_ids(records.insert(p, r)),
        index(records.insert(p, r)) == index(records).insert(r.id, r),
{
    let grown = records.insert(p, r);
    assert forall|a: int, b: int| 0 <= a < b < grown.len() implies grown[a].id
        != grown[b].id by {
        if a != p && b != p {
            let a0 = if a < p { a } else { a - 1 };
            let b0 = if b < p { b } else { b - 1 };
            assert(grown[a] == records[a0] && grown[b] == records[b0]);
        } else if a == p {
            assert(grown[b] == records[b - 1]);
        } else {
            assert(grown[a] == records[a]);
        }
    }
    assert(grown[p] == r);
    lemma_index_remove(grown, p);
    assert(grown.remove(p) =~= records);
    lemma_index_value(grown, p);
    lemma_index_dom(records, r.id);
    assert(index(grown) =~= index(records).insert(r.id, r));
}

/// A mapping has only one listing: two sequences in listing order that hold
/// the same records, each once, are the same sequence.
pub proof fn lemma_listing_is_unique(a: Seq<TodoView>, b: Seq<TodoView>)
    requires
        in_listing_order(a),
        in_listing_order(b),
        distinct_ids(a),
        distinct_ids(b),
        index(a) == index(b),
    ensures
        a == b,
    decreases a.len(),
{
    lemma_index_len(a);
    lemma_index_len(b);
    if a.len() == 0 {
        assert(a =~= b);
    } else {
        lemma_index_value(a, 0);
        lemma_index_value(b, 0);
        let k = lemma_index_witness(b, a[0].id);
        let j = lemma_index_witness(a, b[0].id);
        lemma_index_value(b, k);
        lemma_index_value(a, j);
        assert(b[k] == a[0]);
        assert(a[j] == b[0]);
        if k > 0 {
            assert(b[0].listed_before(b[k]));
            if j > 0 {
                assert(a[0].listed_before(a[j]));
            }
        }
        assert(a[0] == b[0]);
        let rest_a = a.remove(0);
        let rest_b = b.remove(0);
        lemma_index_remove(a, 0);
        lemma_index_remove(b, 0);
        assert forall|x: int, y: int| 0 <= x < y < rest_a.len() implies (
        #[trigger] rest_a[x]).listed_before(#[trigger] rest_a[y]) by {
            assert(rest_a[x] == a[x + 1] && rest_a[y] == a[y + 1]);
        }
        assert forall|x: int, y: int| 0 <= x < y < rest_b.len() implies (
        #[trigger] rest_b[x]).listed_before(#[trigger] rest_b[y]) by {
            assert(rest_b[x] == b[x + 1] && rest_b[y] == b[y + 1]);
        }
        lemma_listing_is_unique(rest_a, rest_b);
        assert forall|i: int| 0 <= i < a.len() implies a[i] == b[i] by {
            if i > 0 {
                assert(a[i] == rest_a[i - 1] && b[i] == rest_b[i - 1]);
            }
        }
        assert(a =~= b);
    }
}

/// A change to the store, as a value.
pub ghost enum Change {
    /// Store this record under its id.
    Upsert(TodoView),
    /// Set the status of the record with this id.
    SetStatus(u128, TodoStatus),
    /// Set the title of the record with this id.
    SetTitle(u128, Seq<char>),
    /// Remove the records of this status.
    DeleteWhere(TodoStatus),
}

impl Change {
    /// The mapping after the change. A change of status or title that is aimed
    /// at an id which the mapping does not hold leaves it as it is.
    pub open spec fn apply(self, m: Map<u128, TodoView>) -> Map<u128, TodoView> {
        match self {
            Change::Upsert(r) => m.insert(r.id, r),
            Change::SetStatus(id, status) => if m.contains_key(id) {
                m.insert(id, TodoView { status, ..m[id] })
            } else {
                m
            },
            Change::SetTitle(id, title) => if m.contains_key(id) {
                m.insert(id, TodoView { title, ..m[id] })
            } else {
                m
            },
            Change::DeleteWhere(status) => without_status(m, status),
        }
    }

    /// The change is aimed at the one record with this id.
    pub open spec fn aims_at(self, id: u128) -> bool {
        match self {
            Change::Upsert(r) => r.id == id,
            Change::SetStatus(i, _) => i == id,
            Change::SetTitle(i, _) => i == id,
            Change::DeleteWhere(_) => false,
        }
    }
}

/// The mapping after a sequence of changes, applied one after the other.
pub open spec fn apply_all(changes: Seq<Change>, m: Map<u128, TodoView>) -> Map<u128, TodoView>
    decreases changes.len(),
{
    if changes.len() == 0 {
        m
    } else {
        changes.last().apply(apply_all(changes.drop_last(), m))
    }
}

/// Two changes that are aimed at different records give the same mapping in
/// either order: however two callers take their turns, neither change is lost.
pub proof fn lemma_changes_to_different_ids_commute(
    m: Map<u128, TodoView>,
    a: Change,
    b: Change,
    x: u128,
    y: u128,
)
    requires
        a.aims_at(x),
        b.aims_at(y),
        x != y,
    ensures
        b.apply(a.apply(m)) == a.apply(b.apply(m)),
{
    assert(b.apply(a.apply(m)) =~= a.apply(b.apply(m)));
}

/// In a sequence of changes, two neighbours that are aimed at different records
/// may change places: the mapping after the whole sequence is the same.
pub proof fn lemma_neighbours_may_change_places(
    changes: Seq<Change>,
    k: int,
    m: Map<u128, TodoView>,
    x: u128,
    y: u128,
)
    requires
        0 <= k < changes.len() - 1,
        changes[k].aims_at(x),
        changes[k + 1].aims_at(y),
        x != y,
    ensures
        apply_all(changes.update(k, changes[k + 1]).update(k + 1, changes[k]), m) == apply_all(
            changes,
            m,
        ),
    decreases changes.len(),
{
    let swapped = changes.update(k, changes[k + 1]).update(k + 1, changes[k]);
    let n = changes.len();
    if k + 1 == n - 1 {
        let rest = changes.drop_last().drop_last();
        assert(swapped.drop_last().drop_last() =~= rest);
        assert(swapped.drop_last().last() == changes[k + 1]);
        assert(changes.drop_last().last() == changes[k]);
        assert(swapped.last() == changes[k]);
        assert(changes.last() == changes[k + 1]);
        assert(apply_all(changes.drop_last(), m) == changes[k].apply(apply_all(rest, m)));
        assert(apply_all(swapped.drop_last(), m) == changes[k + 1].apply(apply_all(rest, m)));
        lemma_changes_to_different_ids_commute(apply_all(rest, m), changes[k], changes[k + 1], x, y);
    } else {
        let front = changes.drop_last();
        assert(swapped.drop_last() =~= front.update(k, front[k + 1]).update(k + 1, front[k]));
        assert(swapped.last() == changes.last());
        lemma_neighbours_may_change_places(front, k, m, x, y);
    }
}

/// A change keeps every record filed under its own id: no change makes two
/// records of one.
pub proof fn lemma_change_keeps_records_under_their_ids(m: Map<u128, TodoView>, c: Change)
    requires
        forall|id: u128| m.contains_key(id) ==> (#[trigger] m[id]).id == id,
    ensures
        forall|id: u128| c.apply(m).contains_key(id) ==> (#[trigger] c.apply(m)[id]).id == id,
{
}

/// A change that is aimed at one record leaves every other record as it was.
pub proof fn lemma_change_keeps_others(m: Map<u128, TodoView>, c: Change, x: u128, id: u128)
    requires
        c.aims_at(x),
        id != x,
    ensures
        c.apply(m).contains_key(id) == m.contains_key(id),
        m.contains_key(id) ==> c.apply(m)[id] == m[id],
{
}

/// Removing the records of a status leaves none of that status, keeps every
/// other record as it was, and removes nothing when done again.
pub proof fn lemma_without_status(m: Map<u128, TodoView>, status: TodoStatus)
    ensures
        forall|id: u128| #[trigger]
            without_status(m, status).contains_key(id) ==> without_status(m, status)[id].status
                != status,
        forall|id: u128|
            m.contains_key(id) && m[id].status != status ==> #[trigger] without_status(
                m,
                status,
            ).contains_key(id) && without_status(m, status)[id] == m[id],
        without_status(without_status(m, status), status) == without_status(m, status),
{
    assert(without_status(without_status(m, status), status) =~= without_status(m, status));
}

/// The todo records of the service, each under its id.
#[derive(Debug)]
pub struct Store {
    todos: HashMap<u128, Todo>,
}

impl View for Store {
    type V = Map<u128, TodoView>;

    /// The mapping from id to record.
    closed spec fn view(&self) -> Map<u128, TodoView> {
        self.todos@.map_values(|t: Todo| t@)
    }
}

/// The keys of the map, each once, in the order in which the map hands them
/// out.
fn key_list(m: &HashMap<u128, Todo>) -> (keys: Vec<u128>)
    ensures
        keys@.no_duplicates(),
        keys@.to_set() == m@.dom(),
{
    let mut keys: Vec<u128> = Vec::new();
    for k in it: m.keys()
        invariant
            keys@.len() == it.index(),
            forall|j: int| 0 <= j < keys@.len() ==> keys@[j] == *it.seq()[j],
    {
        keys.push(*k);
    }
    proof {
        assert(keys@ =~= m.keys().remaining().unref());
    }
    keys
}

impl Store {
    /// The store's invariant: every record is filed under its own id.
    pub closed spec fn wf(&self) -> bool {
        forall|id: u128| self.todos@.contains_key(id) ==> (#[trigger] self.todos@[id]).id == id
    }

    /// A store that holds nothing.
    pub fn new() -> (store: Store)
        ensures
            store.wf(),
            store@ == Map::<u128, TodoView>::empty(),
    {
        let store = Store { todos: HashMap::new() };
        proof {
            assert(store@ =~= Map::<u128, TodoView>::empty());
        }
        store
    }

    /// A well-formed store holds finitely many records, each under its own id.
    pub proof fn lemma_keyed_by_id(&self)
        requires
            self.wf(),
        ensures
            self@.dom().finite(),
            forall|id: u128| self@.contains_key(id) ==> (#[trigger] self@[id]).id == id,
    {
        assert(self@.dom() =~= self.todos@.dom());
        assert forall|id: u128| self@.contains_key(id) implies (#[trigger] self@[id]).id == id by {
            assert(self.todos@[id].id == id);
        }
    }

    /// How many records the store holds.
    pub fn len(&self) -> (n: usize)
        requires
            self.wf(),
        ensures
            n == self@.len(),
            self@.dom().finite(),
    {
        proof {
            assert(self@.dom() =~= self.todos@.dom());
        }
        self.todos.len()
    }

    /// Whether a record has this id.
    pub fn contains(&self, id: u128) -> (r: bool)
        requires
            self.wf(),
        ensures
            r == self@.contains_key(id),
    {
        self.todos.contains_key(&id)
    }

    /// A copy of the record with this id, if there is one.
    pub fn get(&self, id: u128) -> (found: Option<Todo>)
        requires
            self.wf(),
        ensures
            match found {
                Some(todo) => self@.contains_key(id) && todo@ == self@[id],
                None => !self@.contains_key(id),
            },
    {
        match self.todos.get(&id) {
            Some(todo) => Some(todo.clone()),
            None => None,
        }
    }

    /// Inserts the record, or replaces the one that has its id, and returns a
    /// copy of it. All other records stay as they are.
    pub fn upsert(&mut self, record: Todo) -> (stored: Todo)
        requires
            old(self).wf(),
        ensures
            final(self).wf(),
            final(self)@ == old(self)@.insert(record@.id, record@),
            final(self)@ == Change::Upsert(record@).apply(old(self)@),
            stored@ == record@,
    {
        let stored = record.clone();
        self.todos.insert(record.id, record);
        proof {
            assert(self@ =~= old(self)@.insert(record@.id, record@));
        }
        stored
    }

    /// Sets the status of the record with this id and returns a copy of the
    /// record as it then is. Fails with `NotFound`, and changes nothing, when no
    /// record has this id.
    pub fn update_status(&mut self, id: u128, status: TodoStatus) -> (result: Result<Todo, Error>)
        requires
            old(self).wf(),
        ensures
            final(self).wf(),
            final(self)@ == Change::SetStatus(id, status).apply(old(self)@),
            match result {
                Ok(todo) => old(self)@.contains_key(id) && todo@ == (TodoView {
                    status,
                    ..old(self)@[id]
                }) && final(self)@ == old(self)@.insert(id, todo@),
                Err(e) => e == Error::NotFound && !old(self)@.contains_key(id) && final(self)@
                    == old(self)@,
            },
    {
        let mut todo = match self.todos.get(&id) {
            Some(found) => found.clone(),
            None => {
                return Err(Error::NotFound);
            },
        };
        todo.status = status;
        let updated = todo.clone();
        self.todos.insert(id, todo);
        proof {
            assert(self@ =~= old(self)@.insert(id, updated@));
        }
        Ok(updated)
    }

    /// Sets the title of the record with this id and returns a copy of the
    /// record as it then is. Fails with `NotFound`, and changes nothing, when no
    /// record has this id.
    pub fn update_title(&mut self, id: u128, title: String) -> (result: Result<Todo, Error>)
        requires
            old(self).wf(),
        ensures
            final(self).wf(),
            final(self)@ == Change::SetTitle(id, title@).apply(old(self)@),
            match result {
                Ok(todo) => old(self)@.contains_key(id) && todo@ == (TodoView {
                    title: title@,
                    ..old(self)@[id]
                }) && final(self)@ == old(self)@.insert(id, todo@),
                Err(e) => e == Error::NotFound && !old(self)@.contains_key(id) && final(self)@
                    == old(self)@,
            },
    {
        let mut todo = match self.todos.get(&id) {
            Some(found) => found.clone(),
            None => {
                return Err(Error::NotFound);
            },
        };
        todo.title = title;
        let updated = todo.clone();
        self.todos.insert(id, todo);
        proof {
            assert(self@ =~= old(self)@.insert(id, updated@));
        }
        Ok(updated)
    }

    /// Removes every record that has the given status and returns how many
    /// were removed. The other records stay as they are.
    pub fn delete_where(&mut self, status: TodoStatus) -> (removed: usize)
        requires
            old(self).wf(),
        ensures
            final(self).wf(),
            final(self)@ == without_status(old(self)@, status),
            final(self)@ == Change::DeleteWhere(status).apply(old(self)@),
            old(self)@.dom().finite(),
            final(self)@.dom().finite(),
            removed == old(self)@.len() - final(self)@.len(),
    {
        let keys = key_list(&self.todos);
        let ghost before = self.todos@;
        let mut removed: usize = 0;
        let mut i: usize = 0;
        while i < keys.len()
            invariant
                i <= keys@.len(),
                keys@.no_duplicates(),
                keys@.to_set() == before.dom(),
                before.dom().finite(),
                forall|id: u128| #[trigger]
                    self.todos@.contains_key(id) <==> before.contains_key(id) && !(keys@.take(
                        i as int,
                    ).contains(id) && before[id].status == status),
                forall|id: u128|
                    self.todos@.contains_key(id) ==> #[trigger] self.todos@[id] == before[id],
                removed + self.todos@.len() == before.len(),
                removed <= i,
            decreases keys@.len() - i,
        {
            let key = keys[i];
            let ghost cur = self.todos@;
            proof {
                assert(keys@.take(i as int + 1) =~= keys@.take(i as int).push(key));
                assert(keys@.to_set().contains(key));
                let seen = keys@.take(i as int);
                if seen.contains(key) {
                    let j = choose|j: int| 0 <= j < seen.len() && seen[j] == key;
                    assert(keys@[j] == keys@[i as int]);
                }
                assert(cur.contains_key(key));
            }
            let doomed = match self.todos.get(&key) {
                Some(todo) => todo.status == status,
                None => false,
            };
            if doomed {
                self.todos.remove(&key);
                removed += 1;
            }
            proof {
                let seen = keys@.take(i as int);
                let next = keys@.take(i as int + 1);
                assert(cur[key] == before[key]);
                assert(next[i as int] == key);
                assert forall|id: u128| #[trigger]
                    self.todos@.contains_key(id) <==> before.contains_key(id) && !(next.contains(id)
                        && before[id].status == status) by {
                    assert(cur.contains_key(id) <==> before.contains_key(id) && !(seen.contains(id)
                        && before[id].status == status));
                    if next.contains(id) && id != key {
                        let j = choose|j: int| 0 <= j < next.len() && next[j] == id;
                        assert(seen[j] == id);
                    }
                    if seen.contains(id) {
                        let j = choose|j: int| 0 <= j < seen.len() && seen[j] == id;
                        assert(next[j] == id);
                    }
                    assert(next.contains(id) <==> seen.contains(id) || id == key);
                }
            }
            i += 1;
        }
        proof {
            assert(keys@.take(i as int) =~= keys@);
            assert(old(self)@.dom() =~= before.dom());
            assert(self@.dom() =~= self.todos@.dom());
            assert forall|id: u128| before.contains_key(id) implies keys@.contains(id) by {
                assert(keys@.to_set().contains(id));
            }
            assert(self@ =~= without_status(old(self)@, status));
        }
        removed
    }

    /// All records in listing order: newest first, and of two records created
    /// at the same instant the one with the smaller id first.
    pub fn list(&self) -> (listing: Vec<Todo>)
        requires
            self.wf(),
        ensures
            in_listing_order(views(listing@)),
            distinct_ids(views(listing@)),
            index(views(listing@)) == self@,
            listing@.len() == self@.len(),
    {
        let keys = key_list(&self.todos);
        let mut listing: Vec<Todo> = Vec::new();
        let mut i: usize = 0;
        while i < keys.len()
            invariant
                self.wf(),
                i <= keys@.len(),
                keys@.no_duplicates(),
                keys@.to_set() == self.todos@.dom(),
                listing@.len() == i,
                in_listing_order(views(listing@)),
                distinct_ids(views(listing@)),
                forall|id: u128|
                    index(views(listing@)).contains_key(id) <==> keys@.take(i as int).contains(id),
                forall|id: u128|
                    index(views(listing@)).contains_key(id) ==> self@.contains_key(id) && index(
                        views(listing@),
                    )[id] == self@[id],
            decreases keys@.len() - i,
        {
            let key = keys[i];
            let ghost sorted = views(listing@);
            proof {
                assert(keys@.to_set().contains(key));
                let seen = keys@.take(i as int);
                if seen.contains(key) {
                    let j = choose|j: int| 0 <= j < seen.len() && seen[j] == key;
                    assert(keys@[j] == keys@[i as int]);
                }
                lemma_index_dom(sorted, key);
            }
            let found = self.todos.get(&key);
            let todo = found.unwrap().clone();
            proof {
                assert(todo@ == self@[key]);
                assert(todo@.id == key);
            }
            let mut p: usize = 0;
            while p < listing.len() && listing[p].listed_before(&todo)
                invariant
                    p <= listing@.len(),
                    sorted == views(listing@),
                    forall|j: int| 0 <= j < p ==> (#[trigger] sorted[j]).listed_before(todo@),
                decreases listing@.len() - p,
            {
                proof {
                    assert(sorted[p as int] == listing@[p as int]@);
                }
                p += 1;
            }
            proof {
                let grown = sorted.insert(p as int, todo@);
                lemma_index_insert(sorted, p as int, todo@);
                assert forall|a: int, b: int| 0 <= a < b < grown.len() implies (
                #[trigger] grown[a]).listed_before(#[trigger] grown[b]) by {
                    if b == p {
                        assert(grown[a] == sorted[a]);
                    } else if a == p {
                        let first = sorted[p as int];
                        assert(first == listing@[p as int]@);
                        assert(!first.listed_before(todo@));
                        assert(first.id != todo@.id);
                        assert(todo@.listed_before(first));
                        assert(grown[b] == sorted[b - 1]);
                        if b - 1 > p {
                            assert(first.listed_before(sorted[b - 1]));
                        }
                    } else {
                        let a0 = if a < p { a } else { a - 1 };
                        let b0 = if b < p { b } else { b - 1 };
                        assert(grown[a] == sorted[a0] && grown[b] == sorted[b0]);
                    }
                }
                assert(keys@.take(i as int + 1) =~= keys@.take(i as int).push(key));
                assert forall|id: u128|
                    index(grown).contains_key(id) <==> keys@.take(i as int + 1).contains(id) by {
                    let seen = keys@.take(i as int);
                    let next = keys@.take(i as int + 1);
                    if next.contains(id) && id != key {
                        let j = choose|j: int| 0 <= j < next.len() && next[j] == id;
                        assert(seen[j] == id);
                    }
                    if id == key {
                        assert(next[i as int] == key);
                    }
                    if seen.contains(id) {
                        let j = choose|j: int| 0 <= j < seen.len() && seen[j] == id;
                        assert(next[j] == id);
                    }
                }
            }
            listing.insert(p, todo);
            proof {
                assert(views(listing@) =~= sorted.insert(p as int, todo@));
            }
            i += 1;
        }
        proof {
            assert(keys@.take(i as int) =~= keys@);
            assert(self@.dom() =~= self.todos@.dom());
            assert forall|id: u128| self@.contains_key(id) implies keys@.contains(id) by {
                assert(keys@.to_set().contains(id));
            }
            assert(index(views(listing@)) =~= self@);
            lemma_index_len(views(listing@));
        }
        listing
    }
}

} // verus!
