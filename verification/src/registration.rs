//! The payload of a registration: a name, a `|` and a dotted address.

use vstd::prelude::*;
use vstd::string::*;
use vstd::utf8::*;
use crate::address::{address, parse_address};
use crate::text::{
    chars_of, field_bounds, fields, lemma_fields_len, lemma_trimmed_is_part, lemma_two_fields,
    lemma_utf8_concat, lemma_utf8_len_min, lemma_utf8_len_part, trim_bounds, trimmed,
};
use crate::wire::{HostRecord, HostRecordView};

verus! {

/// Why a payload is not a registration.
#[derive(Clone, Copy, Debug, PartialEq, Eq, Structural)]
pub enum ValidationError {
    /// The payload is not two fields with one `|` between them.
    Shape,
    /// The second field is not four octets with dots between them.
    Address,
}

/// The record that a payload asks to register: the payload has exactly two
/// fields around a `|`; the first, trimmed, is the name, and the second,
/// trimmed, writes the address.
pub open spec fn registration(payload: Seq<char>) -> Result<HostRecordView, ValidationError> {
    let parts = fields(payload, '|');
    if parts.len() != 2 {
        Err(ValidationError::Shape)
    } else {
        match address(trimmed(parts[1])) {
            Some(octets) => Ok(HostRecordView { address: octets, name: trimmed(parts[0]) }),
            None => Err(ValidationError::Address),
        }
    }
}

/// The record that `payload` asks to register, or why it asks for none.
pub fn parse_registration(payload: &str) -> (r: Result<HostRecord, ValidationError>)
    ensures
        match registration(payload@) {
            Ok(v) => r matches Ok(record) && record@ == v,
            Err(e) => r == Err::<HostRecord, ValidationError>(e),
        },
{
    let chars = chars_of(payload);
    let bounds = field_bounds(chars.as_slice(), '|');
    if bounds.len() != 2 {
        return Err(ValidationError::Shape);
    }
    let name_at = trim_bounds(chars.as_slice(), bounds[0].0, bounds[0].1);
    let address_at = trim_bounds(chars.as_slice(), bounds[1].0, bounds[1].1);
    let name = payload.substring_char(name_at.0, name_at.1);
    let dotted = payload.substring_char(address_at.0, address_at.1);
    match parse_address(dotted) {
        Some(octets) => Ok(HostRecord { address: octets, name: String::from_str(name) }),
        None => Err(ValidationError::Address),
    }
}

/// The record of a registration has four octets, and its name takes at
/// least four bytes less than the payload that asked for it: the bar and
/// the three dots are not part of it.
pub proof fn lemma_registration_len(payload: Seq<char>)
    requires
        registration(payload) is Ok,
    ensures
        registration(payload)->Ok_0.address.len() == 4,
        encode_utf8(registration(payload)->Ok_0.name).len() + 4 <= encode_utf8(payload).len(),
{
    let parts = fields(payload, '|');
    lemma_two_fields(payload, '|');
    lemma_utf8_concat(parts[0] + seq!['|'], parts[1]);
    lemma_utf8_concat(parts[0], seq!['|']);
    lemma_utf8_len_min(seq!['|']);
    // the name is a stretch of the first field
    lemma_trimmed_is_part(parts[0]);
    let (from, to) = choose|from: int, to: int|
        0 <= from <= to <= parts[0].len() && trimmed(parts[0]) == #[trigger] parts[0].subrange(
            from,
            to,
        );
    lemma_utf8_len_part(parts[0], from, to);
    // the address holds three dots, and they are in the second field
    lemma_trimmed_is_part(parts[1]);
    lemma_fields_len(trimmed(parts[1]), '.');
    lemma_utf8_len_min(parts[1]);
}

} // verus!
