//! The wire codec: the two message shapes and their byte encoding.
//!
//! A request is a kind (one variable-length integer) followed by its payload
//! text; a host record is its address octets followed by its name. Octets and
//! text are each preceded by their length in bytes, text is UTF-8. The bytes
//! are produced and read by `bincode` in its standard configuration. The
//! format is stated here, in [`request_wire`], [`host_record_wire`],
//! [`decoded_request`] and [`decoded_host_record`]; that `bincode` keeps to
//! it is trusted, and the round trip is proved from the statement.

use vstd::prelude::*;
use vstd::bytes::*;
use vstd::utf8::*;

verus! {

/// What a request asks for.
#[derive(Clone, Copy, Debug, PartialEq, Eq, Structural)]
pub enum RequestKind {
    /// Look a name up.
    Resolve,
    /// Bind a name to an address.
    Register,
}

/// One request as it travels from a client to the server.
#[derive(Clone, Debug, PartialEq, Eq)]
pub struct Request {
    pub kind: RequestKind,
    /// For `Resolve` the bare name, for `Register` the name, a `|` and the
    /// dotted address. The codec carries it as it is.
    pub payload: String,
}

/// A name with its address. The record with no octets and an empty name
/// stands for "no such record".
#[derive(Clone, Debug, PartialEq, Eq)]
pub struct HostRecord {
    pub address: Vec<u8>,
    pub name: String,
}

/// Why bytes were not accepted as a message.
#[derive(Clone, Copy, Debug, PartialEq, Eq, Structural)]
pub enum WireError {
    /// The bytes end too early, hold an integer in a form that is not
    /// admitted at its place, or hold text that is not UTF-8.
    Malformed,
    /// The bytes are well formed but the kind is neither of the two known.
    UnknownKind { tag: u32 },
}

/// The mathematical value of a [`Request`].
pub struct RequestView {
    pub kind: RequestKind,
    pub payload: Seq<char>,
}

/// The mathematical value of a [`HostRecord`].
pub struct HostRecordView {
    pub address: Seq<u8>,
    pub name: Seq<char>,
}

impl View for Request {
    type V = RequestView;

    open spec fn view(&self) -> RequestView {
        RequestView { kind: self.kind, payload: self.payload@ }
    }
}

impl View for HostRecord {
    type V = HostRecordView;

    open spec fn view(&self) -> HostRecordView {
        HostRecordView { address: self.address@, name: self.name@ }
    }
}

// ---------------------------------------------------------------------------
// The format
// ---------------------------------------------------------------------------

/// The bytes of an unsigned integer below 2^64: itself where it is at most
/// 250, else a marker (251, 252, 253) and the value in 2, 4 or 8 bytes,
/// lowest byte first, in the shortest of these that holds it.
pub open spec fn varint(v: nat) -> Seq<u8>
    recommends
        v <= u64::MAX,
{
    if v <= 250 {
        seq![v as u8]
    } else if v <= 0xffff {
        seq![251u8] + spec_u16_to_le_bytes(v as u16)
    } else if v <= 0xffff_ffff {
        seq![252u8] + spec_u32_to_le_bytes(v as u32)
    } else {
        seq![253u8] + spec_u64_to_le_bytes(v as u64)
    }
}

/// A run of bytes behind its length.
pub open spec fn blob(raw: Seq<u8>) -> Seq<u8> {
    varint(raw.len()) + raw
}

/// The bytes of a kind and a text.
pub open spec fn tagged_text_wire(tag: u32, text: Seq<char>) -> Seq<u8> {
    varint(tag as nat) + blob(encode_utf8(text))
}

/// The bytes of a run of octets and a text.
pub open spec fn octets_text_wire(octets: Seq<u8>, text: Seq<char>) -> Seq<u8> {
    blob(octets) + blob(encode_utf8(text))
}

/// The unsigned integer at the front of `bytes` and the number of bytes it
/// takes, where a value of up to `widest` bytes is admitted (4 for a kind,
/// 8 for a length). A value need not be in its shortest form.
pub open spec fn varint_at(bytes: Seq<u8>, widest: nat) -> Option<(nat, nat)> {
    if bytes.len() == 0 {
        None
    } else if bytes[0] <= 250 {
        Some((bytes[0] as nat, 1))
    } else if bytes[0] == 251 && bytes.len() >= 3 {
        Some((spec_u16_from_le_bytes(bytes.subrange(1, 3)) as nat, 3))
    } else if bytes[0] == 252 && bytes.len() >= 5 {
        Some((spec_u32_from_le_bytes(bytes.subrange(1, 5)) as nat, 5))
    } else if bytes[0] == 253 && widest >= 8 && bytes.len() >= 9 {
        Some((spec_u64_from_le_bytes(bytes.subrange(1, 9)) as nat, 9))
    } else {
        None
    }
}

/// The run of bytes at the front of `bytes` with the number of bytes that
/// length and run take together.
pub open spec fn blob_at(bytes: Seq<u8>) -> Option<(Seq<u8>, nat)> {
    match varint_at(bytes, 8) {
        Some((len, width)) => if width + len <= bytes.len() {
            Some((bytes.subrange(width as int, (width + len) as int), width + len))
        } else {
            None
        },
        None => None,
    }
}

/// The text at the front of `bytes`.
pub open spec fn text_at(bytes: Seq<u8>) -> Option<Seq<char>> {
    match blob_at(bytes) {
        Some((raw, _)) => if valid_utf8(raw) {
            Some(decode_utf8(raw))
        } else {
            None
        },
        None => None,
    }
}

/// The kind and the text that `bytes` start with. Bytes behind them are
/// not looked at.
pub open spec fn tagged_text_at(bytes: Seq<u8>) -> Option<(u32, Seq<char>)> {
    match varint_at(bytes, 4) {
        Some((tag, width)) => match text_at(bytes.skip(width as int)) {
            Some(text) => Some((tag as u32, text)),
            None => None,
        },
        None => None,
    }
}

/// The octets and the text that `bytes` start with. Bytes behind them are
/// not looked at.
pub open spec fn octets_text_at(bytes: Seq<u8>) -> Option<(Seq<u8>, Seq<char>)> {
    match blob_at(bytes) {
        Some((octets, used)) => match text_at(bytes.skip(used as int)) {
            Some(text) => Some((octets, text)),
            None => None,
        },
        None => None,
    }
}

/// The number that stands for a kind on the wire.
pub open spec fn kind_tag(kind: RequestKind) -> u32 {
    match kind {
        RequestKind::Resolve => 0,
        RequestKind::Register => 1,
    }
}

/// The kind that a number stands for, if any.
pub open spec fn tag_kind(tag: u32) -> Option<RequestKind> {
    if tag == 0 {
        Some(RequestKind::Resolve)
    } else if tag == 1 {
        Some(RequestKind::Register)
    } else {
        None
    }
}

/// The bytes of a request.
pub open spec fn request_wire(request: RequestView) -> Seq<u8> {
    tagged_text_wire(kind_tag(request.kind), request.payload)
}

/// The bytes of a host record.
pub open spec fn host_record_wire(record: HostRecordView) -> Seq<u8> {
    octets_text_wire(record.address, record.name)
}

/// The request made of a kind's number and a payload.
pub open spec fn request_of(tag: u32, payload: Seq<char>) -> Result<RequestView, WireError> {
    match tag_kind(tag) {
        Some(kind) => Ok(RequestView { kind, payload }),
        None => Err(WireError::UnknownKind { tag }),
    }
}

/// What a run of bytes means as a request.
pub open spec fn decoded_request(bytes: Seq<u8>) -> Result<RequestView, WireError> {
    match tagged_text_at(bytes) {
        Some((tag, payload)) => request_of(tag, payload),
        None => Err(WireError::Malformed),
    }
}

/// What a run of bytes means as a host record.
pub open spec fn decoded_host_record(bytes: Seq<u8>) -> Result<HostRecordView, WireError> {
    match octets_text_at(bytes) {
        Some((address, name)) => Ok(HostRecordView { address, name }),
        None => Err(WireError::Malformed),
    }
}

/// The record that stands for "no such record".
pub open spec fn not_found() -> HostRecordView {
    HostRecordView { address: Seq::empty(), name: Seq::empty() }
}

// ---------------------------------------------------------------------------
// The calls into bincode
// ---------------------------------------------------------------------------

/// `bincode`'s error in encoding. Nothing is known of its contents.
#[verifier::external_type_specification]
#[verifier::external_body]
pub struct ExEncodeError(bincode::error::EncodeError);

/// `bincode`'s error in decoding. Nothing is known of its contents.
#[verifier::external_type_specification]
#[verifier::external_body]
pub struct ExDecodeError(bincode::error::DecodeError);

/// `bincode::encode_to_vec` on a pair of a `u32` and a string slice, in the
/// standard configuration. Trusted: it writes the two parts one after the
/// other with nothing between them, the integer in variable-length form, the
/// text as its length in bytes in the same form and then its UTF-8 bytes;
/// and it does not fail when it writes to memory.
#[verifier::external_body]
fn encode_tagged_text(tag: u32, text: &str) -> (r: Result<Vec<u8>, bincode::error::EncodeError>)
    requires
        tagged_text_wire(tag, text@).len() <= usize::MAX,
    ensures
        r is Ok,
        r->Ok_0@ == tagged_text_wire(tag, text@),
{
    bincode::encode_to_vec((tag, text), bincode::config::standard())
}

/// `bincode::encode_to_vec` on a pair of a byte slice and a string slice, in
/// the standard configuration. Trusted: it writes the two parts one after
/// the other with nothing between them, the slice as its length in
/// variable-length form and then its bytes, the text in the same way by its
/// UTF-8 bytes; and it does not fail when it writes to memory.
#[verifier::external_body]
fn encode_octets_text(octets: &[u8], text: &str) -> (r: Result<
    Vec<u8>,
    bincode::error::EncodeError,
>)
    requires
        octets_text_wire(octets@, text@).len() <= usize::MAX,
    ensures
        r is Ok,
        r->Ok_0@ == octets_text_wire(octets@, text@),
{
    bincode::encode_to_vec((octets, text), bincode::config::standard())
}

/// `bincode::borrow_decode_from_slice` for a pair of a `u32` and a string
/// slice, in the standard configuration. Trusted: it reads a variable-length
/// integer of at most four bytes, whether or not in its shortest form, then
/// a length of at most eight bytes and that many bytes, which must be UTF-8;
/// it ignores what follows and fails on anything else. It reads in place:
/// a length that the input cannot back is refused before anything is
/// allocated, so no input makes it panic.
#[verifier::external_body]
fn decode_tagged_text(bytes: &[u8]) -> (r: Result<(u32, String), bincode::error::DecodeError>)
    ensures
        match tagged_text_at(bytes@) {
            Some((tag, text)) => r matches Ok(pair) && pair.0 == tag && pair.1@ == text,
            None => r is Err,
        },
{
    match bincode::borrow_decode_from_slice::<(u32, &str), _>(bytes, bincode::config::standard()) {
        Ok(((tag, text), _)) => Ok((tag, text.to_owned())),
        Err(e) => Err(e),
    }
}

/// `bincode::borrow_decode_from_slice` for a pair of a byte slice and a
/// string slice, in the standard configuration. Trusted: it reads a length
/// of at most eight bytes and that many bytes, then a second length and that
/// many bytes, which must be UTF-8; it ignores what follows and fails on
/// anything else. It reads in place, as above.
#[verifier::external_body]
fn decode_octets_text(bytes: &[u8]) -> (r: Result<(Vec<u8>, String), bincode::error::DecodeError>)
    ensures
        match octets_text_at(bytes@) {
            Some((octets, text)) => r matches Ok(pair) && pair.0@ == octets && pair.1@ == text,
            None => r is Err,
        },
{
    match bincode::borrow_decode_from_slice::<(&[u8], &str), _>(
        bytes,
        bincode::config::standard(),
    ) {
        Ok(((octets, text), _)) => Ok((octets.to_vec(), text.to_owned())),
        Err(e) => Err(e),
    }
}

// ---------------------------------------------------------------------------
// The codec
// ---------------------------------------------------------------------------

impl RequestKind {
    /// The number that stands for this kind on the wire.
    pub fn tag(self) -> (tag: u32)
        ensures
            tag == kind_tag(self),
            tag_kind(tag) == Some(self),
    {
        match self {
            RequestKind::Resolve => 0,
            RequestKind::Register => 1,
        }
    }

    /// The kind that `tag` stands for.
    pub fn from_tag(tag: u32) -> (kind: Option<RequestKind>)
        ensures
            kind == tag_kind(tag),
    {
        if tag == 0 {
            Some(RequestKind::Resolve)
        } else if tag == 1 {
            Some(RequestKind::Register)
        } else {
            None
        }
    }
}

impl HostRecord {
    /// The record that stands for "no such record".
    pub fn not_found() -> (record: HostRecord)
        ensures
            record@ == not_found(),
    {
        HostRecord { address: Vec::new(), name: String::new() }
    }

    /// Whether this is the record that stands for "no such record".
    pub fn is_not_found(&self) -> (b: bool)
        ensures
            b == (self@ == not_found()),
    {
        let b = self.address.len() == 0 && self.name.as_str().is_empty();
        proof {
            if b {
                assert(self@.address =~= not_found().address);
                assert(self@.name =~= not_found().name);
            }
        }
        b
    }
}

/// The bytes of `request`. Decoding them gives `request` back.
pub fn encode_request(request: &Request) -> (bytes: Vec<u8>)
    requires
        request_wire(request@).len() <= usize::MAX,
    ensures
        bytes@ == request_wire(request@),
        decoded_request(bytes@) == Ok::<RequestView, WireError>(request@),
{
    proof {
        lemma_request_round_trip(request@, Seq::empty());
        assert(request_wire(request@) + Seq::<u8>::empty() =~= request_wire(request@));
    }
    encode_tagged_text(request.kind.tag(), request.payload.as_str()).unwrap()
}

/// The request that a kind's number and a payload make: `UnknownKind` where
/// the number is neither 0 nor 1.
pub fn request_from_parts(tag: u32, payload: String) -> (r: Result<Request, WireError>)
    ensures
        match request_of(tag, payload@) {
            Ok(v) => r matches Ok(request) && request@ == v,
            Err(e) => r == Err::<Request, WireError>(e),
        },
{
    match RequestKind::from_tag(tag) {
        Some(kind) => Ok(Request { kind, payload }),
        None => Err(WireError::UnknownKind { tag }),
    }
}

/// The request that `bytes` start with. `Malformed` where they do not start
/// with a kind and a text, `UnknownKind` where they do and the kind is
/// neither of the two known.
pub fn decode_request(bytes: &[u8]) -> (r: Result<Request, WireError>)
    ensures
        match decoded_request(bytes@) {
            Ok(v) => r matches Ok(request) && request@ == v,
            Err(e) => r == Err::<Request, WireError>(e),
        },
{
    match decode_tagged_text(bytes) {
        Ok((tag, payload)) => request_from_parts(tag, payload),
        Err(_) => Err(WireError::Malformed),
    }
}

/// The bytes of `record`. Decoding them gives `record` back.
pub fn encode_host_record(record: &HostRecord) -> (bytes: Vec<u8>)
    requires
        host_record_wire(record@).len() <= usize::MAX,
    ensures
        bytes@ == host_record_wire(record@),
        decoded_host_record(bytes@) == Ok::<HostRecordView, WireError>(record@),
{
    proof {
        lemma_host_record_round_trip(record@, Seq::empty());
        assert(host_record_wire(record@) + Seq::<u8>::empty() =~= host_record_wire(record@));
    }
    encode_octets_text(record.address.as_slice(), record.name.as_str()).unwrap()
}

/// The host record that `bytes` start with, `Malformed` where they do not
/// start with one.
pub fn decode_host_record(bytes: &[u8]) -> (r: Result<HostRecord, WireError>)
    ensures
        match decoded_host_record(bytes@) {
            Ok(v) => r matches Ok(record) && record@ == v,
            Err(e) => r == Err::<HostRecord, WireError>(e),
        },
{
    match decode_octets_text(bytes) {
        Ok((address, name)) => Ok(HostRecord { address, name }),
        Err(_) => Err(WireError::Malformed),
    }
}

// ---------------------------------------------------------------------------
// Laws
// ---------------------------------------------------------------------------

/// An integer's bytes are one, three, five or nine.
pub proof fn lemma_varint_len(v: nat)
    requires
        v <= u64::MAX,
    ensures
        varint(v).len() == if v <= 250 {
            1nat
        } else if v <= 0xffff {
            3nat
        } else if v <= 0xffff_ffff {
            5nat
        } else {
            9nat
        },
{
    lemma_auto_spec_u16_to_from_le_bytes();
    lemma_auto_spec_u32_to_from_le_bytes();
    lemma_auto_spec_u64_to_from_le_bytes();
}

/// Reading an integer's bytes gives the integer back, whatever follows them.
pub proof fn lemma_varint_round_trip(v: nat, widest: nat, rest: Seq<u8>)
    requires
        v <= u64::MAX,
        widest >= 8 || v <= u32::MAX,
    ensures
        varint_at(varint(v) + rest, widest) == Some((v, varint(v).len())),
{
    lemma_auto_spec_u16_to_from_le_bytes();
    lemma_auto_spec_u32_to_from_le_bytes();
    lemma_auto_spec_u64_to_from_le_bytes();
    let bytes = varint(v) + rest;
    if v <= 250 {
    } else if v <= 0xffff {
        assert(bytes.subrange(1, 3) =~= spec_u16_to_le_bytes(v as u16));
    } else if v <= 0xffff_ffff {
        assert(bytes.subrange(1, 5) =~= spec_u32_to_le_bytes(v as u32));
    } else {
        assert(bytes.subrange(1, 9) =~= spec_u64_to_le_bytes(v as u64));
    }
}

/// Reading a run behind its length gives the run back, whatever follows.
pub proof fn lemma_blob_round_trip(raw: Seq<u8>, rest: Seq<u8>)
    requires
        raw.len() <= u64::MAX,
    ensures
        blob_at(blob(raw) + rest) == Some((raw, blob(raw).len())),
{
    let head = varint(raw.len());
    lemma_varint_len(raw.len());
    assert(blob(raw) + rest =~= head + (raw + rest));
    lemma_varint_round_trip(raw.len(), 8, raw + rest);
    let bytes = blob(raw) + rest;
    assert(bytes.subrange(head.len() as int, (head.len() + raw.len()) as int) =~= raw);
}

/// Reading a text's bytes gives the text back, whatever follows.
pub proof fn lemma_text_round_trip(text: Seq<char>, rest: Seq<u8>)
    requires
        encode_utf8(text).len() <= u64::MAX,
    ensures
        text_at(blob(encode_utf8(text)) + rest) == Some(text),
{
    lemma_blob_round_trip(encode_utf8(text), rest);
    encode_utf8_valid_utf8(text);
    encode_utf8_decode_utf8(text);
}

/// Round trip of requests: decoding the bytes of a request gives that
/// request, also where other bytes follow them.
pub proof fn lemma_request_round_trip(request: RequestView, rest: Seq<u8>)
    requires
        request_wire(request).len() <= usize::MAX,
    ensures
        decoded_request(request_wire(request) + rest) == Ok::<RequestView, WireError>(request),
{
    let tag = kind_tag(request.kind);
    let head = varint(tag as nat);
    let body = blob(encode_utf8(request.payload));
    assert(encode_utf8(request.payload).len() <= body.len());
    assert(request_wire(request) + rest =~= head + (body + rest));
    lemma_varint_round_trip(tag as nat, 4, body + rest);
    assert((head + (body + rest)).skip(head.len() as int) =~= body + rest);
    lemma_text_round_trip(request.payload, rest);
}

/// Round trip of host records: decoding the bytes of a record gives that
/// record, also where other bytes follow them.
pub proof fn lemma_host_record_round_trip(record: HostRecordView, rest: Seq<u8>)
    requires
        host_record_wire(record).len() <= usize::MAX,
    ensures
        decoded_host_record(host_record_wire(record) + rest) == Ok::<HostRecordView, WireError>(
            record,
        ),
{
    let head = blob(record.address);
    let body = blob(encode_utf8(record.name));
    assert(record.address.len() <= head.len());
    assert(encode_utf8(record.name).len() <= body.len());
    assert(host_record_wire(record) + rest =~= head + (body + rest));
    lemma_blob_round_trip(record.address, body + rest);
    assert((head + (body + rest)).skip(head.len() as int) =~= body + rest);
    lemma_text_round_trip(record.name, rest);
}

/// The shortest form of an integer is never longer than a form it was read
/// from.
pub proof fn lemma_varint_shortest(bytes: Seq<u8>, widest: nat)
    requires
        varint_at(bytes, widest) is Some,
    ensures
        varint_at(bytes, widest)->Some_0.0 <= u64::MAX,
        varint(varint_at(bytes, widest)->Some_0.0).len() <= varint_at(bytes, widest)->Some_0.1,
        varint_at(bytes, widest)->Some_0.1 <= bytes.len(),
{
    lemma_varint_len(varint_at(bytes, widest)->Some_0.0);
}

/// A smaller integer never takes more bytes.
pub proof fn lemma_varint_grows(small: nat, large: nat)
    requires
        small <= large <= u64::MAX,
    ensures
        varint(small).len() <= varint(large).len(),
{
    lemma_varint_len(small);
    lemma_varint_len(large);
}

/// Encoding a decoded request never takes more bytes than it was decoded
/// from.
pub proof fn lemma_decoded_request_fits(bytes: Seq<u8>)
    requires
        decoded_request(bytes) is Ok,
    ensures
        request_wire(decoded_request(bytes)->Ok_0).len() <= bytes.len(),
{
    let (tag, width) = varint_at(bytes, 4)->Some_0;
    lemma_varint_shortest(bytes, 4);
    let rest = bytes.skip(width as int);
    let (raw, used) = blob_at(rest)->Some_0;
    lemma_varint_shortest(rest, 8);
    decode_utf8_encode_utf8(raw);
    lemma_varint_len(kind_tag(decoded_request(bytes)->Ok_0.kind) as nat);
}

/// Encoding a decoded record never takes more bytes than it was decoded
/// from.
pub proof fn lemma_decoded_host_record_fits(bytes: Seq<u8>)
    requires
        decoded_host_record(bytes) is Ok,
    ensures
        host_record_wire(decoded_host_record(bytes)->Ok_0).len() <= bytes.len(),
{
    let (octets, used) = blob_at(bytes)->Some_0;
    lemma_varint_shortest(bytes, 8);
    let rest = bytes.skip(used as int);
    let (raw, used2) = blob_at(rest)->Some_0;
    lemma_varint_shortest(rest, 8);
    decode_utf8_encode_utf8(raw);
}

} // verus!
