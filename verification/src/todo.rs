//! Todo records and the order in which they are listed.

use vstd::prelude::*;

verus! {

/// Whether a todo is still open.
#[derive(Clone, Copy, Debug, PartialEq, Eq, Hash, Structural)]
pub enum TodoStatus {
    Active,
    Completed,
}

/// A point in time: whole seconds since the Unix epoch and the nanoseconds
/// into that second. Two timestamps are ordered by seconds first.
#[derive(Clone, Copy, Debug, PartialEq, Eq, Hash, Structural)]
pub struct Timestamp {
    pub secs: i64,
    pub nanos: u32,
}

impl Timestamp {
    /// `self` is strictly later than `other`.
    pub open spec fn later_than(self, other: Timestamp) -> bool {
        self.secs > other.secs || (self.secs == other.secs && self.nanos > other.nanos)
    }

    /// Decides `later_than`.
    pub fn is_later_than(&self, other: &Timestamp) -> (r: bool)
        ensures
            r == self.later_than(*other),
    {
        self.secs > other.secs || (self.secs == other.secs && self.nanos > other.nanos)
    }
}

/// One todo item.
#[derive(Debug)]
pub struct Todo {
    /// The record's identifier, the 128 bits of a UUID.
    pub id: u128,
    pub title: String,
    pub status: TodoStatus,
    /// When the record was created; only used to order the listing.
    pub created: Timestamp,
}

/// The mathematical value of a `Todo`.
pub ghost struct TodoView {
    pub id: u128,
    pub title: Seq<char>,
    pub status: TodoStatus,
    pub created: Timestamp,
}

impl View for Todo {
    type V = TodoView;

    open spec fn view(&self) -> TodoView {
        TodoView { id: self.id, title: self.title@, status: self.status, created: self.created }
    }
}

impl TodoView {
    /// The listing order: newer records come first, and of two records created
    /// at the same instant the one with the smaller id comes first.
    pub open spec fn listed_before(self, other: TodoView) -> bool {
        self.created.later_than(other.created) || (self.created == other.created && self.id
            < other.id)
    }
}

/// The bits of a UUID that hold its version and its variant.
pub open spec fn version_and_variant(id: u128) -> u128 {
    id & 0x0000_0000_0000_F000_C000_0000_0000_0000u128
}

/// What `version_and_variant` gives for a random (version 4) UUID.
pub open spec fn random_version_and_variant() -> u128 {
    0x0000_0000_0000_4000_8000_0000_0000_0000u128
}

/// Calls `uuid::Uuid::new_v4` and hands back the UUID as its 128 bits
/// (`Uuid::as_u128`). Trusted: the identifier is random; all that is claimed
/// is that its version bits say 4 and its variant bits say RFC 4122, which is
/// how `new_v4` masks what the random source gave. The call panics if the
/// operating system cannot supply random bytes.
#[verifier::external_body]
fn random_id() -> (id: u128)
    ensures
        version_and_variant(id) == random_version_and_variant(),
{
    uuid::Uuid::new_v4().as_u128()
}

/// Calls `chrono::Utc::now` and hands back the instant as seconds
/// (`DateTime::timestamp`) and nanoseconds (`DateTime::timestamp_subsec_nanos`).
/// Trusted: the instant depends on the clock; all that is claimed is that it
/// is not before the epoch and that the nanoseconds are below one second,
/// which is how `now` builds it from the time elapsed since the epoch. The call
/// panics on a machine whose clock stands before 1970.
#[verifier::external_body]
fn current_time() -> (now: Timestamp)
    ensures
        now.secs >= 0,
        now.nanos < 1_000_000_000,
{
    let now = chrono::Utc::now();
    Timestamp { secs: now.timestamp(), nanos: now.timestamp_subsec_nanos() }
}

impl Todo {
    /// A new, active todo without a title.
    pub fn new(id: u128, created: Timestamp) -> (todo: Todo)
        ensures
            todo@ == (TodoView { id, title: Seq::empty(), status: TodoStatus::Active, created }),
    {
        Todo { id, title: String::new(), status: TodoStatus::Active, created }
    }

    /// Decides the listing order.
    pub fn listed_before(&self, other: &Todo) -> (r: bool)
        ensures
            r == self@.listed_before(other@),
    {
        self.created.is_later_than(&other.created) || (self.created.secs == other.created.secs
            && self.created.nanos == other.created.nanos && self.id < other.id)
    }
}

impl Clone for Todo {
    fn clone(&self) -> (copy: Todo)
        ensures
            copy@ == self@,
    {
        Todo {
            id: self.id,
            title: self.title.clone(),
            status: self.status,
            created: self.created,
        }
    }
}

impl Default for Todo {
    /// A new, active todo without a title, with a fresh random id, created now.
    fn default() -> (todo: Todo)
        ensures
            todo@.title == Seq::<char>::empty(),
            todo@.status == TodoStatus::Active,
            version_and_variant(todo@.id) == random_version_and_variant(),
            todo@.created.secs >= 0,
            todo@.created.nanos < 1_000_000_000,
    {
        Todo::new(random_id(), current_time())
    }
}

/// The listing order never puts two records before each other, and no record
/// before itself.
pub proof fn lemma_listed_before_asymmetric(a: TodoView, b: TodoView)
    ensures
        !(a.listed_before(b) && b.listed_before(a)),
        !a.listed_before(a),
{
}

/// The listing order is transitive.
pub proof fn lemma_listed_before_transitive(a: TodoView, b: TodoView, c: TodoView)
    requires
        a.listed_before(b),
        b.listed_before(c),
    ensures
        a.listed_before(c),
{
}

/// Two records that neither come before the other were created at the same
/// instant under the same id.
pub proof fn lemma_listed_before_total(a: TodoView, b: TodoView)
    requires
        !a.listed_before(b),
        !b.listed_before(a),
    ensures
        a.created == b.created,
        a.id == b.id,
{
}

} // verus!
