//! The connection handler: what to do with the bytes of one read, and what
//! to answer once the medium has done its part.
//!
//! The handler owns no socket and no file. It is a function from what it
//! waits for and what has happened to what it waits for next and what is to
//! be done now. The program around it performs the action and comes back
//! with the event. No state outlives a request but the name that a
//! registration's answer mentions.
//!
//! A lookup is answered with the bytes of a host record, also where there is
//! none; a registration is answered with plain text.

use vstd::prelude::*;
use vstd::string::*;
use vstd::utf8::*;
use crate::registration::{
    lemma_registration_len, parse_registration, registration, ValidationError,
};
use crate::store::{
    create_in, exists_in, finish_register, finish_resolve, lemma_register_keeps_order,
    lemma_resolve_after_register, lemma_resolve_unregistered, load_in, orderly, plan_register,
    record_file, record_path, register_in, resolve_in, resolved_record, Created, CreatedView,
    Directory, StoreError,
};
use crate::text::{trim, trimmed};
use crate::wire::{
    decode_request, decoded_host_record, decoded_request, encode_host_record, host_record_wire,
    lemma_decoded_host_record_fits, lemma_decoded_request_fits, lemma_varint_grows,
    lemma_varint_len, not_found, request_wire, HostRecordView, RequestKind, RequestView,
};

verus! {

/// What a handler waits for.
#[derive(Clone, Debug, PartialEq, Eq)]
pub enum Phase {
    /// The next bytes from the peer.
    Waiting,
    /// The contents of the file it asked to load.
    Resolving,
    /// The report on the file it asked to create for `name`.
    Registering { name: String },
    /// Nothing: the connection is over.
    Closed,
}

/// What has happened.
#[derive(Clone, Debug, PartialEq, Eq)]
pub enum Event {
    /// One read from the peer gave `data`; no bytes mean that the peer has
    /// closed the connection.
    Received { data: Vec<u8> },
    /// The file holds `contents`; `None` where it is not there or cannot be
    /// read.
    Loaded { contents: Option<Vec<u8>> },
    /// The attempt to create the file ended as `created`.
    Created { created: Created },
}

/// What is to be done now.
#[derive(Clone, Debug, PartialEq, Eq)]
pub enum Action {
    /// Send `bytes` to the peer, then read from it again.
    Send { bytes: Vec<u8> },
    /// Read the file at `path`.
    Load { path: String },
    /// Create the file at `path` with `contents`, unless a file is there.
    Create { path: String, contents: Vec<u8> },
    /// Release the connection.
    Close,
}

/// The mathematical value of a [`Phase`].
pub enum PhaseView {
    Waiting,
    Resolving,
    Registering { name: Seq<char> },
    Closed,
}

/// The mathematical value of an [`Event`].
pub enum EventView {
    Received { data: Seq<u8> },
    Loaded { contents: Option<Seq<u8>> },
    Created { created: CreatedView },
}

/// The mathematical value of an [`Action`].
pub enum ActionView {
    Send { bytes: Seq<u8> },
    Load { path: Seq<char> },
    Create { path: Seq<char>, contents: Seq<u8> },
    Close,
}

impl View for Phase {
    type V = PhaseView;

    open spec fn view(&self) -> PhaseView {
        match self {
            Phase::Waiting => PhaseView::Waiting,
            Phase::Resolving => PhaseView::Resolving,
            Phase::Registering { name } => PhaseView::Registering { name: name@ },
            Phase::Closed => PhaseView::Closed,
        }
    }
}

impl View for Event {
    type V = EventView;

    open spec fn view(&self) -> EventView {
        match self {
            Event::Received { data } => EventView::Received { data: data@ },
            Event::Loaded { contents } => EventView::Loaded {
                contents: match contents {
                    Some(bytes) => Some(bytes@),
                    None => None,
                },
            },
            Event::Created { created } => EventView::Created { created: created@ },
        }
    }
}

impl View for Action {
    type V = ActionView;

    open spec fn view(&self) -> ActionView {
        match self {
            Action::Send { bytes } => ActionView::Send { bytes: bytes@ },
            Action::Load { path } => ActionView::Load { path: path@ },
            Action::Create { path, contents } => ActionView::Create {
                path: path@,
                contents: contents@,
            },
            Action::Close => ActionView::Close,
        }
    }
}

// ---------------------------------------------------------------------------
// The answers in plain text
// ---------------------------------------------------------------------------

/// The answer to bytes that are no request.
pub open spec fn unreadable_text() -> Seq<char> {
    "Error al procesar la solicitud"@
}

/// The answer to a payload that is no registration.
pub open spec fn validation_text(error: ValidationError) -> Seq<char> {
    match error {
        ValidationError::Shape => "Formato inválido para registro. Debe ser 'dominio|ip'"@,
        ValidationError::Address => "Dirección IP inválida. Debe ser IPv4 (ejemplo: 192.168.1.1)"@,
    }
}

/// The answer to a registration of `name` that ended as `created`.
pub open spec fn registration_text(name: Seq<char>, created: CreatedView) -> Seq<char> {
    match created {
        CreatedView::Done => "Dominio registrado con éxito"@,
        CreatedView::Exists => "Error al registrar dominio: El dominio "@ + name + " ya existe"@,
        CreatedView::Failed { reason } =>
            "Error al registrar dominio: Error al escribir archivo de dominio: "@ + reason,
    }
}

// ---------------------------------------------------------------------------
// The decisions
// ---------------------------------------------------------------------------

/// What the bytes of one read ask for.
pub open spec fn request_turn(data: Seq<u8>) -> (PhaseView, ActionView) {
    match decoded_request(data) {
        Err(_) => (PhaseView::Waiting, ActionView::Send { bytes: encode_utf8(unreadable_text()) }),
        Ok(request) => match request.kind {
            RequestKind::Resolve => (
                PhaseView::Resolving,
                ActionView::Load { path: record_path(trimmed(request.payload)) },
            ),
            RequestKind::Register => match registration(request.payload) {
                Err(error) => (
                    PhaseView::Waiting,
                    ActionView::Send { bytes: encode_utf8(validation_text(error)) },
                ),
                Ok(record) => (
                    PhaseView::Registering { name: record.name },
                    ActionView::Create {
                        path: record_path(record.name),
                        contents: host_record_wire(record),
                    },
                ),
            },
        },
    }
}

/// The handler's one rule. An event that is not the one waited for ends the
/// connection.
pub open spec fn transition(phase: PhaseView, event: EventView) -> (PhaseView, ActionView) {
    match (phase, event) {
        (PhaseView::Waiting, EventView::Received { data }) => if data.len() == 0 {
            (PhaseView::Closed, ActionView::Close)
        } else {
            request_turn(data)
        },
        (PhaseView::Resolving, EventView::Loaded { contents }) => (
            PhaseView::Waiting,
            ActionView::Send { bytes: host_record_wire(resolved_record(contents)) },
        ),
        (PhaseView::Registering { name }, EventView::Created { created }) => (
            PhaseView::Waiting,
            ActionView::Send { bytes: encode_utf8(registration_text(name, created)) },
        ),
        _ => (PhaseView::Closed, ActionView::Close),
    }
}

/// The UTF-8 bytes of a text.
fn text_bytes(text: &str) -> (bytes: Vec<u8>)
    ensures
        bytes@ == encode_utf8(text@),
{
    text.as_bytes_vec()
}

/// The answer, as bytes, to bytes that are no request.
pub fn unreadable_reply() -> (bytes: Vec<u8>)
    ensures
        bytes@ == encode_utf8(unreadable_text()),
{
    text_bytes("Error al procesar la solicitud")
}

/// The answer, as bytes, to a payload that is no registration.
pub fn validation_reply(error: ValidationError) -> (bytes: Vec<u8>)
    ensures
        bytes@ == encode_utf8(validation_text(error)),
{
    match error {
        ValidationError::Shape => text_bytes(
            "Formato inválido para registro. Debe ser 'dominio|ip'",
        ),
        ValidationError::Address => text_bytes(
            "Dirección IP inválida. Debe ser IPv4 (ejemplo: 192.168.1.1)",
        ),
    }
}

/// The answer, as bytes, to a registration of `name` that ended as
/// `created`: the word of success, that the name is taken, or the medium's
/// account of its failure.
pub fn registration_reply(name: &str, created: Created) -> (bytes: Vec<u8>)
    ensures
        bytes@ == encode_utf8(registration_text(name@, created@)),
{
    match finish_register(created) {
        Ok(()) => text_bytes("Dominio registrado con éxito"),
        Err(StoreError::AlreadyExists) => {
            let mut text = String::from_str("Error al registrar dominio: El dominio ");
            text.append(name);
            text.append(" ya existe");
            text_bytes(text.as_str())
        },
        Err(StoreError::Io { reason }) => {
            let mut text = String::from_str(
                "Error al registrar dominio: Error al escribir archivo de dominio: ",
            );
            text.append(reason.as_str());
            text_bytes(text.as_str())
        },
    }
}

/// The answer, as bytes, to a lookup whose file holds `contents`: the record
/// that they decode to, and the record that stands for "no such record"
/// where there is no file or it does not decode.
pub fn resolve_reply(contents: Option<&[u8]>) -> (bytes: Vec<u8>)
    ensures
        bytes@ == host_record_wire(
            resolved_record(
                match contents {
                    Some(held) => Some(held@),
                    None => None,
                },
            ),
        ),
{
    let record = finish_resolve(contents);
    proof {
        lemma_varint_len(0);
        assert(encode_utf8(Seq::<char>::empty()) =~= Seq::<u8>::empty());
        assert(host_record_wire(not_found()).len() == 2);
        match contents {
            Some(held) => {
                assert(held@.len() == held.len());
                if decoded_host_record(held@) is Ok {
                    lemma_decoded_host_record_fits(held@);
                }
            },
            None => {},
        }
    }
    encode_host_record(&record)
}

/// What the bytes of one read ask for: a lookup asks to load the file of the
/// trimmed payload; a registration asks to create the file of its record, or
/// is answered at once where its payload is not valid; bytes that are no
/// request are answered at once.
pub fn begin(data: &[u8]) -> (turn: (Phase, Action))
    ensures
        (turn.0@, turn.1@) == request_turn(data@),
{
    match decode_request(data) {
        Err(_) => (Phase::Waiting, Action::Send { bytes: unreadable_reply() }),
        Ok(request) => match request.kind {
            RequestKind::Resolve => {
                let name = trim(request.payload.as_str());
                (Phase::Resolving, Action::Load { path: record_file(name) })
            },
            RequestKind::Register => match parse_registration(request.payload.as_str()) {
                Err(error) => (Phase::Waiting, Action::Send { bytes: validation_reply(error) }),
                Ok(record) => {
                    proof {
                        assert(data@.len() == data.len());
                        lemma_decoded_request_fits(data@);
                        lemma_registration_fits(request@);
                    }
                    let creation = plan_register(&record);
                    (
                        Phase::Registering { name: record.name },
                        Action::Create { path: creation.path, contents: creation.contents },
                    )
                },
            },
        },
    }
}

/// One step of a handler: from what it waits for and what has happened to
/// what it waits for next and what is to be done now.
pub fn step(phase: Phase, event: Event) -> (turn: (Phase, Action))
    ensures
        (turn.0@, turn.1@) == transition(phase@, event@),
{
    match (phase, event) {
        (Phase::Waiting, Event::Received { data }) => {
            if data.len() == 0 {
                (Phase::Closed, Action::Close)
            } else {
                begin(data.as_slice())
            }
        },
        (Phase::Resolving, Event::Loaded { contents }) => {
            let bytes = match &contents {
                Some(held) => resolve_reply(Some(held.as_slice())),
                None => resolve_reply(None),
            };
            (Phase::Waiting, Action::Send { bytes })
        },
        (Phase::Registering { name }, Event::Created { created }) => {
            (Phase::Waiting, Action::Send { bytes: registration_reply(name.as_str(), created) })
        },
        _ => (Phase::Closed, Action::Close),
    }
}

// ---------------------------------------------------------------------------
// A handler and its medium together
// ---------------------------------------------------------------------------

/// What the medium does with an action: what the directory holds afterwards,
/// and the event it comes back with, if the action calls for one.
pub open spec fn performed(dir: Directory, action: ActionView) -> (Directory, Option<EventView>) {
    match action {
        ActionView::Load { path } => (
            dir,
            Some(EventView::Loaded { contents: load_in(dir, path) }),
        ),
        ActionView::Create { path, contents } => (
            create_in(dir, path, contents).0,
            Some(EventView::Created { created: create_in(dir, path, contents).1@ }),
        ),
        _ => (dir, None),
    }
}

/// What serving the bytes of one read comes to: what the directory holds
/// afterwards, and the handler's last action, which sends the answer or
/// closes.
pub open spec fn served(dir: Directory, data: Seq<u8>) -> (Directory, ActionView) {
    let (phase, action) = transition(PhaseView::Waiting, EventView::Received { data });
    match performed(dir, action).1 {
        Some(event) => (performed(dir, action).0, transition(phase, event).1),
        None => (dir, action),
    }
}

/// The action that sends a text as its UTF-8 bytes.
pub open spec fn sends_text(text: Seq<char>) -> ActionView {
    ActionView::Send { bytes: encode_utf8(text) }
}

/// The action that sends a host record.
pub open spec fn sends_record(record: HostRecordView) -> ActionView {
    ActionView::Send { bytes: host_record_wire(record) }
}

/// What a handler waits for after an action: the next bytes after it has
/// sent, the file's contents after it has asked to load, the report after it
/// has asked to create, and nothing after it has closed.
pub open spec fn awaits(phase: PhaseView, action: ActionView) -> bool {
    match action {
        ActionView::Send { .. } => phase is Waiting,
        ActionView::Load { .. } => phase is Resolving,
        ActionView::Create { path, .. } => phase matches PhaseView::Registering { name }
            && path == record_path(name),
        ActionView::Close => phase is Closed,
    }
}

// ---------------------------------------------------------------------------
// Laws
// ---------------------------------------------------------------------------

/// In every turn the handler waits for what its action calls for, and the
/// file it asks to create is the one of the name it will answer about.
pub proof fn lemma_turn_awaits(phase: PhaseView, event: EventView)
    ensures
        awaits(transition(phase, event).0, transition(phase, event).1),
{
}

/// Every read that brought bytes is answered, and with one answer: the bytes
/// are served by sending, never by closing.
pub proof fn lemma_served_answers(dir: Directory, data: Seq<u8>)
    ensures
        data.len() > 0 ==> served(dir, data).1 is Send,
        data.len() == 0 ==> served(dir, data) == (dir, ActionView::Close),
{
}

/// A lookup is answered with the record of the trimmed name, or with the
/// record that stands for "no such record", and leaves every file as it was.
pub proof fn lemma_served_resolve(dir: Directory, data: Seq<u8>)
    requires
        decoded_request(data) is Ok,
        decoded_request(data)->Ok_0.kind == RequestKind::Resolve,
    ensures
        served(dir, data).0 == dir,
        served(dir, data).1 == sends_record(
            resolve_in(dir, trimmed(decoded_request(data)->Ok_0.payload)),
        ),
{
}

/// A lookup of a name that has no record is answered with the record that
/// stands for "no such record" and changes nothing, so that the same lookup
/// made again is answered in the same way.
pub proof fn lemma_served_lookup_twice(dir: Directory, data: Seq<u8>)
    requires
        decoded_request(data) is Ok,
        decoded_request(data)->Ok_0.kind == RequestKind::Resolve,
        !exists_in(dir, trimmed(decoded_request(data)->Ok_0.payload)),
    ensures
        served(dir, data).0 == dir,
        served(dir, data).1 == sends_record(not_found()),
        served(served(dir, data).0, data) == served(dir, data),
{
    lemma_served_resolve(dir, data);
    lemma_resolve_unregistered(dir, trimmed(decoded_request(data)->Ok_0.payload));
}

/// A valid registration of a name that has no record creates the record and
/// is answered with the word of success; one of a name that has a record
/// changes nothing and is answered with the notice that the name is taken.
pub proof fn lemma_served_register(dir: Directory, data: Seq<u8>, record: HostRecordView)
    requires
        decoded_request(data) is Ok,
        decoded_request(data)->Ok_0.kind == RequestKind::Register,
        registration(decoded_request(data)->Ok_0.payload) == Ok::<
            HostRecordView,
            ValidationError,
        >(record),
    ensures
        served(dir, data).0 == register_in(dir, record).0,
        !exists_in(dir, record.name) ==> served(dir, data).1 == sends_text(
            registration_text(record.name, CreatedView::Done),
        ),
        exists_in(dir, record.name) ==> served(dir, data).0 == dir,
        exists_in(dir, record.name) ==> served(dir, data).1 == sends_text(
            registration_text(record.name, CreatedView::Exists),
        ),
{
}

/// Bytes that are no request are answered with the text that says so and
/// touch no file.
pub proof fn lemma_served_unreadable(dir: Directory, data: Seq<u8>)
    requires
        data.len() > 0,
        decoded_request(data) is Err,
    ensures
        served(dir, data).0 == dir,
        served(dir, data).1 == sends_text(unreadable_text()),
{
}

/// A registration whose payload is not valid is answered with the text that
/// says why and touches no file.
pub proof fn lemma_served_refusal(dir: Directory, data: Seq<u8>, error: ValidationError)
    requires
        decoded_request(data) is Ok,
        decoded_request(data)->Ok_0.kind == RequestKind::Register,
        registration(decoded_request(data)->Ok_0.payload) == Err::<
            HostRecordView,
            ValidationError,
        >(error),
    ensures
        served(dir, data).0 == dir,
        served(dir, data).1 == sends_text(validation_text(error)),
{
}

/// Whatever is served, a file that is there stays, with what it holds.
pub proof fn lemma_served_keeps_files(dir: Directory, data: Seq<u8>, path: Seq<char>)
    requires
        dir.contains_key(path),
    ensures
        served(dir, data).0.contains_key(path),
        served(dir, data).0[path] == dir[path],
{
}

/// Once a registration was served for a name that had no record, a lookup of
/// that name is answered with the record that was registered.
pub proof fn lemma_served_resolve_after_register(
    dir: Directory,
    first: Seq<u8>,
    second: Seq<u8>,
    record: HostRecordView,
)
    requires
        first.len() <= usize::MAX,
        decoded_request(first) is Ok,
        decoded_request(first)->Ok_0.kind == RequestKind::Register,
        registration(decoded_request(first)->Ok_0.payload) == Ok::<
            HostRecordView,
            ValidationError,
        >(record),
        !exists_in(dir, record.name),
        decoded_request(second) is Ok,
        decoded_request(second)->Ok_0.kind == RequestKind::Resolve,
        trimmed(decoded_request(second)->Ok_0.payload) == record.name,
    ensures
        served(served(dir, first).0, second).1 == sends_record(record),
{
    lemma_decoded_request_fits(first);
    lemma_registration_fits(decoded_request(first)->Ok_0);
    lemma_served_register(dir, first, record);
    lemma_resolve_after_register(dir, record);
    lemma_served_resolve(served(dir, first).0, second);
}

/// Serving keeps an orderly directory orderly: whatever bytes arrive, every
/// file stays the record of the name it lies under.
pub proof fn lemma_served_keeps_order(dir: Directory, data: Seq<u8>)
    requires
        orderly(dir),
        data.len() <= usize::MAX,
    ensures
        orderly(served(dir, data).0),
{
    if decoded_request(data) is Ok && decoded_request(data)->Ok_0.kind == RequestKind::Register
        && registration(decoded_request(data)->Ok_0.payload) is Ok {
        let record = registration(decoded_request(data)->Ok_0.payload)->Ok_0;
        lemma_served_register(dir, data, record);
        lemma_decoded_request_fits(data);
        lemma_registration_fits(decoded_request(data)->Ok_0);
        lemma_registration_len(decoded_request(data)->Ok_0.payload);
        lemma_register_keeps_order(dir, record);
    }
}

/// The record of a registration takes no more bytes than the request that
/// asked for it.
pub proof fn lemma_registration_fits(request: RequestView)
    requires
        registration(request.payload) is Ok,
        request_wire(request).len() <= usize::MAX,
    ensures
        host_record_wire(registration(request.payload)->Ok_0).len() <= request_wire(request).len(),
{
    let record = registration(request.payload)->Ok_0;
    lemma_registration_len(request.payload);
    let n = encode_utf8(record.name).len();
    let p = encode_utf8(request.payload).len();
    lemma_varint_grows(n, p);
    lemma_varint_len(4);
    lemma_varint_len(n);
    lemma_varint_len(p);
}

} // verus!
