//! The snapshot of the store: its version-1 payload and the envelope of
//! bytes, tagged with the format version, that the payload is saved under.
//!
//! On disk a snapshot is the version marker followed by the payload in round
//! brackets, `V1(...)`. The bytes of the payload are written and read by the
//! caller; this module frames them, checks the marker, and says which store a
//! payload stands for.

use vstd::prelude::*;
use crate::error::Error;
use crate::todo::{Todo, TodoView};
use crate::store::{distinct_ids, in_listing_order, index, lemma_listing_is_unique};

verus! {

/// The payload of a version-1 snapshot: the records, each under the key that
/// the snapshot files it under.
#[derive(Debug)]
pub struct DataV1 {
    pub todos: Vec<(u128, Todo)>,
}

/// What was found where the snapshot is kept.
#[derive(Debug)]
pub enum Source {
    /// There is no snapshot: the service starts for the first time.
    Missing,
    /// There is one, but it could not be read as an envelope of a known
    /// version with a payload of that version.
    Unreadable,
    /// A version-1 snapshot with this payload.
    V1(DataV1),
}

impl DataV1 {
    /// The entries of the payload as values: key and record.
    pub open spec fn entries(&self) -> Seq<(u128, TodoView)> {
        self.todos@.map_values(|e: (u128, Todo)| (e.0, e.1@))
    }
}

/// Every entry is filed under the id of its record.
pub open spec fn keyed_by_id(entries: Seq<(u128, TodoView)>) -> bool {
    forall|i: int| 0 <= i < entries.len() ==> (#[trigger] entries[i]).0 == entries[i].1.id
}

/// The records of the entries, in their order.
pub open spec fn records(entries: Seq<(u128, TodoView)>) -> Seq<TodoView> {
    entries.map_values(|e: (u128, TodoView)| e.1)
}

/// The payload is the snapshot of the mapping `m`: it holds the records of
/// `m` and no others, each once and under its id, in listing order.
pub open spec fn is_snapshot_of(data: DataV1, m: Map<u128, TodoView>) -> bool {
    &&& keyed_by_id(data.entries())
    &&& in_listing_order(records(data.entries()))
    &&& distinct_ids(records(data.entries()))
    &&& index(records(data.entries())) == m
}

/// The store that a source restores to, or the error that it is refused with.
/// No snapshot gives the empty store. A payload is refused when an entry is
/// filed under another key than its record's id.
pub open spec fn restored(source: Source) -> Result<Map<u128, TodoView>, Error> {
    match source {
        Source::Missing => Ok(Map::empty()),
        Source::Unreadable => Err(Error::CorruptSnapshot),
        Source::V1(data) => if keyed_by_id(data.entries()) {
            Ok(index(records(data.entries())))
        } else {
            Err(Error::CorruptSnapshot)
        },
    }
}

/// Restoring the snapshot of a mapping gives that mapping back.
pub proof fn lemma_snapshot_restores(data: DataV1, m: Map<u128, TodoView>)
    requires
        is_snapshot_of(data, m),
    ensures
        restored(Source::V1(data)) == Ok::<Map<u128, TodoView>, Error>(m),
{
}

/// A mapping has only one snapshot: two payloads that are snapshots of the same
/// mapping hold the same entries in the same order.
pub proof fn lemma_snapshot_is_unique(a: DataV1, b: DataV1, m: Map<u128, TodoView>)
    requires
        is_snapshot_of(a, m),
        is_snapshot_of(b, m),
    ensures
        a.entries() == b.entries(),
{
    lemma_listing_is_unique(records(a.entries()), records(b.entries()));
    assert forall|i: int| 0 <= i < a.entries().len() implies a.entries()[i] == b.entries()[i] by {
        assert(records(a.entries())[i] == records(b.entries())[i]);
    }
    assert(records(a.entries()).len() == records(b.entries()).len());
    assert(a.entries() =~= b.entries());
}

/// Space, tab, line feed and carriage return.
pub open spec fn is_space(b: u8) -> bool {
    b == 0x20 || b == 0x09 || b == 0x0a || b == 0x0d
}

/// The bytes that a version marker is made of: ASCII letters, digits and `_`.
pub open spec fn is_name_byte(b: u8) -> bool {
    (0x61 <= b <= 0x7a) || (0x41 <= b <= 0x5a) || (0x30 <= b <= 0x39) || b == 0x5f
}

/// The first position at or after `from` that holds no space.
pub open spec fn skip_spaces(s: Seq<u8>, from: int) -> int
    decreases s.len() - from,
{
    if 0 <= from < s.len() && is_space(s[from]) {
        skip_spaces(s, from + 1)
    } else {
        from
    }
}

/// The first position at or after `from` that holds no name byte.
pub open spec fn name_end(s: Seq<u8>, from: int) -> int
    decreases s.len() - from,
{
    if 0 <= from < s.len() && is_name_byte(s[from]) {
        name_end(s, from + 1)
    } else {
        from
    }
}

/// The end of `s` up to `to` once the spaces before `to` are taken off.
pub open spec fn trim_end(s: Seq<u8>, to: int) -> int
    decreases to,
{
    if 0 < to <= s.len() && is_space(s[to - 1]) {
        trim_end(s, to - 1)
    } else {
        to
    }
}

/// The marker of format version 1: `V1`.
pub open spec fn version_marker() -> Seq<u8> {
    seq![0x56u8, 0x31u8]
}

/// The envelope of a payload: `V1(`, the payload, `)`.
pub open spec fn enveloped(payload: Seq<u8>) -> Seq<u8> {
    version_marker() + seq![0x28u8] + payload + seq![0x29u8]
}

/// The version marker that the bytes declare: the name they begin with,
/// after any spaces.
pub open spec fn declared_version(s: Seq<u8>) -> Seq<u8> {
    let a = skip_spaces(s, 0);
    s.subrange(a, name_end(s, a))
}

/// The payload of the envelope that the bytes hold, if they are one of
/// version 1: spaces, the marker `V1`, spaces, `(`, the payload, `)`, spaces.
pub open spec fn payload_of(s: Seq<u8>) -> Option<Seq<u8>> {
    let b = name_end(s, skip_spaces(s, 0));
    let c = skip_spaces(s, b);
    let e = trim_end(s, s.len() as int);
    if declared_version(s) == version_marker() && c + 2 <= e && s[c] == 0x28 && s[e - 1]
        == 0x29 {
        Some(s.subrange(c + 1, e - 1))
    } else {
        None
    }
}

fn space(b: u8) -> (r: bool)
    ensures
        r == is_space(b),
{
    b == 0x20 || b == 0x09 || b == 0x0a || b == 0x0d
}

fn name_byte(b: u8) -> (r: bool)
    ensures
        r == is_name_byte(b),
{
    (0x61 <= b && b <= 0x7a) || (0x41 <= b && b <= 0x5a) || (0x30 <= b && b <= 0x39) || b == 0x5f
}

/// Puts the payload into a version-1 envelope.
pub fn frame(payload: &Vec<u8>) -> (bytes: Vec<u8>)
    ensures
        bytes@ == enveloped(payload@),
{
    let mut bytes: Vec<u8> = Vec::new();
    bytes.push(0x56u8);
    bytes.push(0x31u8);
    bytes.push(0x28u8);
    let mut i: usize = 0;
    while i < payload.len()
        invariant
            i <= payload@.len(),
            bytes@ == version_marker() + seq![0x28u8] + payload@.take(i as int),
        decreases payload@.len() - i,
    {
        bytes.push(payload[i]);
        proof {
            assert(payload@.take(i as int + 1) =~= payload@.take(i as int).push(payload@[i as int]));
            assert(bytes@ =~= version_marker() + seq![0x28u8] + payload@.take(i as int + 1));
        }
        i += 1;
    }
    bytes.push(0x29u8);
    proof {
        assert(payload@.take(i as int) =~= payload@);
    }
    bytes
}

/// Takes the payload out of a version-1 envelope. Bytes that are no envelope,
/// or that declare another version, are refused as a corrupt snapshot.
pub fn unframe(bytes: &Vec<u8>) -> (result: Result<Vec<u8>, Error>)
    ensures
        match result {
            Ok(payload) => payload_of(bytes@) == Some(payload@),
            Err(e) => e == Error::CorruptSnapshot && payload_of(bytes@).is_none(),
        },
{
    let ghost s = bytes@;
    let n = bytes.len();
    let mut a: usize = 0;
    while a < n && space(bytes[a])
        invariant
            a <= n == s.len(),
            s == bytes@,
            skip_spaces(s, 0) == skip_spaces(s, a as int),
        decreases n - a,
    {
        a += 1;
    }
    let mut b: usize = a;
    while b < n && name_byte(bytes[b])
        invariant
            a <= b <= n == s.len(),
            s == bytes@,
            name_end(s, a as int) == name_end(s, b as int),
        decreases n - b,
    {
        b += 1;
    }
    let mut c: usize = b;
    while c < n && space(bytes[c])
        invariant
            b <= c <= n == s.len(),
            s == bytes@,
            skip_spaces(s, b as int) == skip_spaces(s, c as int),
        decreases n - c,
    {
        c += 1;
    }
    let mut e: usize = n;
    while e > 0 && space(bytes[e - 1])
        invariant
            e <= n == s.len(),
            s == bytes@,
            trim_end(s, n as int) == trim_end(s, e as int),
        decreases e,
    {
        e -= 1;
    }
    proof {
        let name = s.subrange(a as int, b as int);
        assert(declared_version(s) == name);
        if name == version_marker() {
            assert(name.len() == 2);
            assert(name[0] == s[a as int] && name[1] == s[a as int + 1]);
        }
        if b - a == 2 && s[a as int] == 0x56 && s[a as int + 1] == 0x31 {
            assert(name =~= version_marker());
        }
    }
    if !(b - a == 2 && bytes[a] == 0x56 && bytes[a + 1] == 0x31) {
        return Err(Error::CorruptSnapshot);
    }
    if !(e >= 2 && c <= e - 2 && bytes[c] == 0x28 && bytes[e - 1] == 0x29) {
        return Err(Error::CorruptSnapshot);
    }
    let mut payload: Vec<u8> = Vec::new();
    let mut i: usize = c + 1;
    while i < e - 1
        invariant
            c + 1 <= i <= e - 1,
            e <= n == s.len(),
            s == bytes@,
            payload@ == s.subrange(c as int + 1, i as int),
        decreases e - i,
    {
        payload.push(bytes[i]);
        proof {
            assert(s.subrange(c as int + 1, i as int + 1) =~= s.subrange(c as int + 1, i as int).push(
                s[i as int],
            ));
        }
        i += 1;
    }
    Ok(payload)
}

/// Taking the payload out of its envelope gives it back.
pub proof fn lemma_unframe_frame(payload: Seq<u8>)
    ensures
        payload_of(enveloped(payload)) == Some(payload),
{
    let s = enveloped(payload);
    assert(s[0] == 0x56 && s[1] == 0x31 && s[2] == 0x28);
    assert(s[s.len() - 1] == 0x29);
    assert(skip_spaces(s, 0) == 0);
    reveal_with_fuel(name_end, 3);
    assert(name_end(s, 0) == 2);
    assert(skip_spaces(s, 2) == 2);
    assert(trim_end(s, s.len() as int) == s.len());
    assert(s.subrange(0, 2) =~= version_marker());
    assert(s.subrange(3, s.len() - 1) =~= payload);
}

/// Bytes that declare another version than 1 hold no payload.
pub proof fn lemma_unknown_version_refused(s: Seq<u8>)
    requires
        declared_version(s) != version_marker(),
    ensures
        payload_of(s).is_none(),
{
}

} // verus!
