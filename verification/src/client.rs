//! What a client needs besides the codec: the two requests it can make, and
//! how it tells whether a registration was accepted.

use vstd::prelude::*;
use vstd::string::*;
use crate::address::{
    address, is_address_char, lemma_address_chars, lemma_address_trimmed, parse_address,
};
use crate::registration::{registration, ValidationError};
use crate::text::{chars_of, lemma_fields_after, lemma_fields_single, trimmed};
use crate::wire::{HostRecordView, Request, RequestKind, RequestView};

verus! {

/// The payload that asks to register `name` at the address that `dotted`
/// writes.
pub open spec fn registration_payload(name: Seq<char>, dotted: Seq<char>) -> Seq<char> {
    name + "|"@ + dotted
}

/// Whether `needle` stands somewhere in `text`.
pub open spec fn holds(text: Seq<char>, needle: Seq<char>) -> bool {
    exists|at: int|
        0 <= at && at + needle.len() <= text.len() && #[trigger] text.subrange(
            at,
            at + needle.len(),
        ) == needle
}

/// Whether an answer to a registration tells of success: it holds one of
/// the words by which the server says so.
pub open spec fn tells_success(answer: Seq<char>) -> bool {
    holds(answer, "éxito"@) || holds(answer, "exitosamente"@) || holds(answer, "correctamente"@)
}

/// The request that looks `name` up.
pub fn resolve_request(name: &str) -> (request: Request)
    ensures
        request@ == (RequestView { kind: RequestKind::Resolve, payload: name@ }),
{
    Request { kind: RequestKind::Resolve, payload: String::from_str(name) }
}

/// The request that registers `name` at the address that `dotted` writes,
/// `None` where it writes none.
pub fn register_request(name: &str, dotted: &str) -> (r: Option<Request>)
    ensures
        address(dotted@) is Some ==> r is Some && r->Some_0@ == (RequestView {
            kind: RequestKind::Register,
            payload: registration_payload(name@, dotted@),
        }),
        address(dotted@) is None ==> r is None,
{
    match parse_address(dotted) {
        Some(_) => {
            let mut payload = String::from_str(name);
            payload.append("|");
            payload.append(dotted);
            Some(Request { kind: RequestKind::Register, payload })
        },
        None => None,
    }
}

/// Whether `needle` stands in `text` at `at`.
fn stands_at(text: &[char], needle: &[char], at: usize) -> (b: bool)
    requires
        at + needle@.len() <= text@.len(),
    ensures
        b == (text@.subrange(at as int, at + needle@.len()) == needle@),
{
    let size: usize = text.len();
    let mut i: usize = 0;
    while i < needle.len()
        invariant
            i <= needle@.len(),
            at + needle@.len() <= text@.len() == size,
            forall|j: int| 0 <= j < i ==> text@[at + j] == needle@[j],
        decreases needle@.len() - i,
    {
        if text[at + i] != needle[i] {
            proof {
                assert(text@.subrange(at as int, at + needle@.len())[i as int] == text@[at + i]);
            }
            return false;
        }
        i += 1;
    }
    proof {
        assert(text@.subrange(at as int, at + needle@.len()) =~= needle@);
    }
    true
}

/// Whether `needle` stands somewhere in `text`.
pub fn contains(text: &str, needle: &str) -> (b: bool)
    ensures
        b == holds(text@, needle@),
{
    let hay = chars_of(text);
    let pin = chars_of(needle);
    if pin.len() > hay.len() {
        return false;
    }
    let last: usize = hay.len() - pin.len();
    let mut at: usize = 0;
    loop
        invariant
            hay@ == text@,
            pin@ == needle@,
            last == hay@.len() - pin@.len(),
            at <= last,
            forall|k: int| 0 <= k < at ==> #[trigger] hay@.subrange(k, k + pin@.len()) != pin@,
        decreases last - at,
    {
        if stands_at(hay.as_slice(), pin.as_slice(), at) {
            proof {
                let k = at as int;
                assert(0 <= k && k + needle@.len() <= text@.len() && text@.subrange(
                    k,
                    k + needle@.len(),
                ) == needle@);
            }
            return true;
        }
        if at == last {
            return false;
        }
        at += 1;
    }
}

/// Whether an answer to a registration tells of success.
pub fn reports_success(answer: &str) -> (b: bool)
    ensures
        b == tells_success(answer@),
{
    contains(answer, "éxito") || contains(answer, "exitosamente") || contains(
        answer,
        "correctamente",
    )
}

/// A request to register that this module builds is accepted by the server,
/// which takes the trimmed name and the address as the client wrote it,
/// provided that the name holds no `|`.
pub proof fn lemma_registration_of_payload(name: Seq<char>, dotted: Seq<char>)
    requires
        !name.contains('|'),
        address(dotted) is Some,
    ensures
        registration(registration_payload(name, dotted)) == Ok::<HostRecordView, ValidationError>(
            HostRecordView { address: address(dotted)->Some_0, name: trimmed(name) },
        ),
{
    reveal_strlit("|");
    assert("|"@ =~= seq!['|']);
    lemma_address_chars(dotted);
    assert(!dotted.contains('|')) by {
        if dotted.contains('|') {
            let i = choose|i: int| 0 <= i < dotted.len() && dotted[i] == '|';
            assert(is_address_char(dotted[i]));
        }
    }
    lemma_fields_after(name, dotted, '|');
    lemma_fields_single(dotted, '|');
    lemma_address_trimmed(dotted);
}

} // verus!
