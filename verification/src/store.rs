//! The record store: one file per name, created once and never changed.
//!
//! The files themselves are out of this crate's reach. What is here is what
//! the store decides: where a name's record lies, what is written when a
//! name is registered, and what an answer of the medium means. The program
//! around the crate reads and creates the files; [`Directory`] states what
//! is expected of it, and the laws at the end are proved over that model.
//!
//! A name is used as it is given. A name that holds a path separator lies
//! outside the flat directory; this crate does not refuse it.

use vstd::prelude::*;
use vstd::string::*;
use crate::wire::{
    decode_host_record, decoded_host_record, encode_host_record, host_record_wire,
    lemma_host_record_round_trip, not_found, HostRecord, HostRecordView,
};

verus! {

/// Why a registration did not happen.
#[derive(Clone, Debug, PartialEq, Eq)]
pub enum StoreError {
    /// There is a record for the name already.
    AlreadyExists,
    /// The medium failed; `reason` is its own account of it.
    Io { reason: String },
}

/// What the medium reports of an attempt to create a file.
#[derive(Clone, Debug, PartialEq, Eq)]
pub enum Created {
    /// The file was not there and now holds the contents given.
    Done,
    /// A file was there; it was left as it was.
    Exists,
    /// The medium failed; `reason` is its own account of it.
    Failed { reason: String },
}

/// The mathematical value of a [`Created`].
pub enum CreatedView {
    Done,
    Exists,
    Failed { reason: Seq<char> },
}

impl View for Created {
    type V = CreatedView;

    open spec fn view(&self) -> CreatedView {
        match self {
            Created::Done => CreatedView::Done,
            Created::Exists => CreatedView::Exists,
            Created::Failed { reason } => CreatedView::Failed { reason: reason@ },
        }
    }
}

/// A file to create, unless one is there already.
#[derive(Clone, Debug, PartialEq, Eq)]
pub struct Creation {
    pub path: String,
    pub contents: Vec<u8>,
}

/// The directory that holds the records.
pub open spec fn directory_path() -> Seq<char> {
    "./domains"@
}

/// The file that holds the record of `name`.
pub open spec fn record_path(name: Seq<char>) -> Seq<char> {
    "./domains/"@ + name + ".sdm"@
}

/// The record that the contents of a file stand for: what they decode to,
/// and "no such record" where there is no file or it does not decode.
pub open spec fn resolved_record(contents: Option<Seq<u8>>) -> HostRecordView {
    match contents {
        Some(bytes) => match decoded_host_record(bytes) {
            Ok(record) => record,
            Err(_) => not_found(),
        },
        None => not_found(),
    }
}

/// What the medium's report means for the one who registers.
pub open spec fn registered(created: Created) -> Result<(), StoreError> {
    match created {
        Created::Done => Ok(()),
        Created::Exists => Err(StoreError::AlreadyExists),
        Created::Failed { reason } => Err(StoreError::Io { reason }),
    }
}

/// The directory that holds the records, for the one who has to make it.
pub fn directory() -> (path: String)
    ensures
        path@ == directory_path(),
{
    String::from_str("./domains")
}

/// The file that holds the record of `name`.
pub fn record_file(name: &str) -> (path: String)
    ensures
        path@ == record_path(name@),
{
    let mut path = String::from_str("./domains/");
    path.append(name);
    path.append(".sdm");
    path
}

/// First half of a registration: the file that is to be created for
/// `record`. Whether the name is taken is for the medium to find out, in
/// one step with the creation.
pub fn plan_register(record: &HostRecord) -> (creation: Creation)
    requires
        host_record_wire(record@).len() <= usize::MAX,
    ensures
        creation.path@ == record_path(record@.name),
        creation.contents@ == host_record_wire(record@),
{
    Creation { path: record_file(record.name.as_str()), contents: encode_host_record(record) }
}

/// Second half of a registration: what the medium's report means.
pub fn finish_register(created: Created) -> (r: Result<(), StoreError>)
    ensures
        r == registered(created),
{
    match created {
        Created::Done => Ok(()),
        Created::Exists => Err(StoreError::AlreadyExists),
        Created::Failed { reason } => Err(StoreError::Io { reason }),
    }
}

/// Second half of a lookup, the first being to read the file at
/// [`record_file`]: the record that the file's contents stand for. `None`
/// is for a file that is not there or cannot be read.
pub fn finish_resolve(contents: Option<&[u8]>) -> (record: HostRecord)
    ensures
        record@ == resolved_record(
            match contents {
                Some(bytes) => Some(bytes@),
                None => None,
            },
        ),
{
    match contents {
        Some(bytes) => match decode_host_record(bytes) {
            Ok(record) => record,
            Err(_) => HostRecord::not_found(),
        },
        None => HostRecord::not_found(),
    }
}

// ---------------------------------------------------------------------------
// The medium, as the store expects it
// ---------------------------------------------------------------------------

/// The files of the directory: what each path holds.
pub type Directory = Map<Seq<char>, Seq<u8>>;

/// What reading the file at `path` gives.
pub open spec fn load_in(dir: Directory, path: Seq<char>) -> Option<Seq<u8>> {
    if dir.contains_key(path) {
        Some(dir[path])
    } else {
        None
    }
}

/// What creating the file at `path` does on a medium that does not fail:
/// nothing where a file is there, else the file holds `contents`.
pub open spec fn create_in(dir: Directory, path: Seq<char>, contents: Seq<u8>) -> (
    Directory,
    Created,
) {
    if dir.contains_key(path) {
        (dir, Created::Exists)
    } else {
        (dir.insert(path, contents), Created::Done)
    }
}

/// Whether `name` has a record.
pub open spec fn exists_in(dir: Directory, name: Seq<char>) -> bool {
    dir.contains_key(record_path(name))
}

/// What a lookup of `name` answers.
pub open spec fn resolve_in(dir: Directory, name: Seq<char>) -> HostRecordView {
    resolved_record(load_in(dir, record_path(name)))
}

/// What a registration of `record` leaves and answers.
pub open spec fn register_in(dir: Directory, record: HostRecordView) -> (
    Directory,
    Result<(), StoreError>,
) {
    let (after, created) = create_in(dir, record_path(record.name), host_record_wire(record));
    (after, registered(created))
}

/// What registering, one after the other, each of `addresses` under the one
/// `name` leaves, and what each of the registrations answers.
pub open spec fn register_each(dir: Directory, name: Seq<char>, addresses: Seq<Seq<u8>>) -> (
    Directory,
    Seq<Result<(), StoreError>>,
)
    decreases addresses.len(),
{
    if addresses.len() == 0 {
        (dir, Seq::empty())
    } else {
        let (before, answers) = register_each(dir, name, addresses.drop_last());
        let (after, answer) = register_in(
            before,
            HostRecordView { address: addresses.last(), name },
        );
        (after, answers.push(answer))
    }
}

/// Whether a record is one that the store keeps: an address of four octets
/// under a name, of a size that fits in memory.
pub open spec fn storable(record: HostRecordView) -> bool {
    record.address.len() == 4 && host_record_wire(record).len() <= usize::MAX
}

/// Whether every file of the directory is the record of a name, lies where
/// that name's record belongs, and holds the bytes of the record and nothing
/// else.
pub open spec fn orderly(dir: Directory) -> bool {
    forall|path: Seq<char>| #[trigger]
        dir.contains_key(path) ==> exists|record: HostRecordView|
            storable(record) && path == record_path(record.name) && dir[path]
                == #[trigger] host_record_wire(record)
}

// ---------------------------------------------------------------------------
// Laws
// ---------------------------------------------------------------------------

/// Two names never share a file.
pub proof fn lemma_record_path_injective(a: Seq<char>, b: Seq<char>)
    requires
        record_path(a) == record_path(b),
    ensures
        a == b,
{
    let head = "./domains/"@;
    let tail = ".sdm"@;
    assert(record_path(a).len() == head.len() + a.len() + tail.len());
    assert(record_path(b).len() == head.len() + b.len() + tail.len());
    assert forall|i: int| 0 <= i < a.len() implies a[i] == b[i] by {
        assert(record_path(a)[head.len() + i] == a[i]);
        assert(record_path(b)[head.len() + i] == b[i]);
    }
    assert(a =~= b);
}

/// A lookup of a name that has no record answers "no such record".
pub proof fn lemma_resolve_unregistered(dir: Directory, name: Seq<char>)
    requires
        !exists_in(dir, name),
    ensures
        resolve_in(dir, name) == not_found(),
{
}

/// After a name was registered, a lookup of it answers the record that was
/// registered.
pub proof fn lemma_resolve_after_register(dir: Directory, record: HostRecordView)
    requires
        !exists_in(dir, record.name),
        host_record_wire(record).len() <= usize::MAX,
    ensures
        register_in(dir, record).1 == Ok::<(), StoreError>(()),
        resolve_in(register_in(dir, record).0, record.name) == record,
{
    lemma_host_record_round_trip(record, Seq::empty());
    assert(host_record_wire(record) + Seq::<u8>::empty() =~= host_record_wire(record));
}

/// A name is registered once: the first registration succeeds, a second one
/// under the same name is refused as `AlreadyExists` and changes nothing, and
/// a lookup still answers the first address.
pub proof fn lemma_create_once(
    dir: Directory,
    name: Seq<char>,
    first: Seq<u8>,
    second: Seq<u8>,
)
    requires
        !exists_in(dir, name),
        host_record_wire(HostRecordView { address: first, name }).len() <= usize::MAX,
    ensures
        ({
            let (once, a) = register_in(dir, HostRecordView { address: first, name });
            let (twice, b) = register_in(once, HostRecordView { address: second, name });
            &&& a == Ok::<(), StoreError>(())
            &&& b == Err::<(), StoreError>(StoreError::AlreadyExists)
            &&& twice == once
            &&& resolve_in(twice, name) == HostRecordView { address: first, name }
        }),
{
    lemma_resolve_after_register(dir, HostRecordView { address: first, name });
}

/// Registering a name leaves the answer for every other name as it was.
pub proof fn lemma_register_keeps_others(dir: Directory, record: HostRecordView, other: Seq<char>)
    requires
        other != record.name,
    ensures
        resolve_in(register_in(dir, record).0, other) == resolve_in(dir, other),
        exists_in(register_in(dir, record).0, other) == exists_in(dir, other),
{
    if record_path(other) == record_path(record.name) {
        lemma_record_path_injective(other, record.name);
    }
}

/// Of any number of registrations under one name that was free, whatever
/// their addresses, the first succeeds and every later one is refused as
/// `AlreadyExists`; the record that stays is the first one's.
pub proof fn lemma_one_winner(dir: Directory, name: Seq<char>, addresses: Seq<Seq<u8>>)
    requires
        !exists_in(dir, name),
        addresses.len() > 0,
        host_record_wire(HostRecordView { address: addresses[0], name }).len() <= usize::MAX,
    ensures
        ({
            let (after, answers) = register_each(dir, name, addresses);
            &&& answers.len() == addresses.len()
            &&& answers[0] == Ok::<(), StoreError>(())
            &&& forall|i: int|
                1 <= i < answers.len() ==> #[trigger] answers[i] == Err::<(), StoreError>(
                    StoreError::AlreadyExists,
                )
            &&& after == register_in(dir, HostRecordView { address: addresses[0], name }).0
            &&& resolve_in(after, name) == HostRecordView { address: addresses[0], name }
        }),
    decreases addresses.len(),
{
    let winner = HostRecordView { address: addresses[0], name };
    lemma_resolve_after_register(dir, winner);
    if addresses.len() == 1 {
        assert(addresses.drop_last().len() == 0);
        assert(register_each(dir, name, addresses.drop_last()).0 == dir);
    } else {
        let earlier = addresses.drop_last();
        assert(earlier[0] == addresses[0]);
        lemma_one_winner(dir, name, earlier);
    }
}

/// A directory without files is orderly.
pub proof fn lemma_empty_is_orderly()
    ensures
        orderly(Map::empty()),
{
}

/// Registering a record that the store keeps leaves an orderly directory
/// orderly.
pub proof fn lemma_register_keeps_order(dir: Directory, record: HostRecordView)
    requires
        orderly(dir),
        storable(record),
    ensures
        orderly(register_in(dir, record).0),
{
    let after = register_in(dir, record).0;
    assert forall|path: Seq<char>| #[trigger] after.contains_key(path) implies exists|
        held: HostRecordView,
    |
        storable(held) && path == record_path(held.name) && after[path]
            == #[trigger] host_record_wire(held) by {
        if dir.contains_key(path) {
            let held = choose|held: HostRecordView|
                storable(held) && path == record_path(held.name) && dir[path]
                    == #[trigger] host_record_wire(held);
            assert(after[path] == host_record_wire(held));
        } else {
            assert(after[path] == host_record_wire(record));
        }
    }
}

/// In an orderly directory a name that has a record resolves to a record of
/// that very name with four octets, and the record's bytes are the file's.
pub proof fn lemma_resolve_in_order(dir: Directory, name: Seq<char>)
    requires
        orderly(dir),
        exists_in(dir, name),
    ensures
        resolve_in(dir, name).name == name,
        resolve_in(dir, name).address.len() == 4,
        host_record_wire(resolve_in(dir, name)) == dir[record_path(name)],
{
    let path = record_path(name);
    let held = choose|held: HostRecordView|
        storable(held) && path == record_path(held.name) && dir[path]
            == #[trigger] host_record_wire(held);
    lemma_record_path_injective(name, held.name);
    lemma_host_record_round_trip(held, Seq::empty());
    assert(host_record_wire(held) + Seq::<u8>::empty() =~= host_record_wire(held));
}

} // verus!
