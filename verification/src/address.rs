//! IPv4 addresses in dotted form: four fields between dots, each a number
//! from 0 to 255 in decimal digits.

use vstd::prelude::*;
use crate::text::{
    chars_of, field_bounds, fields, lemma_fields_cover, lemma_fields_len, lemma_trimmed_same,
    trimmed,
};

verus! {

/// Whether `c` is one of the ten decimal digits.
pub open spec fn is_digit(c: char) -> bool {
    0x30 <= c as u32 <= 0x39
}

/// Whether `s` holds decimal digits only.
pub open spec fn all_digits(s: Seq<char>) -> bool {
    forall|i: int| 0 <= i < s.len() ==> is_digit(#[trigger] s[i])
}

/// The number that a run of decimal digits writes.
pub open spec fn decimal(s: Seq<char>) -> nat
    decreases s.len(),
{
    if s.len() == 0 {
        0
    } else {
        decimal(s.drop_last()) * 10 + (s.last() as u32 - 0x30) as nat
    }
}

/// The octet that a run of digits writes: one or more decimal digits, with
/// or without zeros in front, whose number is at most 255.
pub open spec fn small_number(digits: Seq<char>) -> Option<u8> {
    if digits.len() > 0 && all_digits(digits) && decimal(digits) <= 255 {
        Some(decimal(digits) as u8)
    } else {
        None
    }
}

/// The octet that `s` writes: a run of digits as in [`small_number`], with
/// or without a `+` before it.
pub open spec fn octet(s: Seq<char>) -> Option<u8> {
    if s.len() > 0 && s[0] == '+' {
        small_number(s.drop_first())
    } else {
        small_number(s)
    }
}

/// The address that `text` writes: exactly four fields between dots, each
/// of them an octet.
pub open spec fn address(text: Seq<char>) -> Option<Seq<u8>> {
    let parts = fields(text, '.');
    if parts.len() == 4 && octet(parts[0]) is Some && octet(parts[1]) is Some && octet(
        parts[2],
    ) is Some && octet(parts[3]) is Some {
        Some(
            seq![
                octet(parts[0])->Some_0,
                octet(parts[1])->Some_0,
                octet(parts[2])->Some_0,
                octet(parts[3])->Some_0,
            ],
        )
    } else {
        None
    }
}

/// The characters that an address is written with.
pub open spec fn is_address_char(c: char) -> bool {
    is_digit(c) || c == '+' || c == '.'
}

/// The octet written between `from` and `to` in `s`, if it is one.
pub fn parse_octet(s: &[char], from: usize, to: usize) -> (r: Option<u8>)
    requires
        from <= to <= s@.len(),
    ensures
        r == octet(s@.subrange(from as int, to as int)),
{
    let ghost whole = s@.subrange(from as int, to as int);
    let mut i: usize = from;
    if i < to && s[i] == '+' {
        i += 1;
    }
    let start: usize = i;
    let ghost digits = s@.subrange(start as int, to as int);
    proof {
        if start > from {
            assert(whole.drop_first() =~= digits);
        } else {
            assert(whole =~= digits);
        }
    }
    if start == to {
        return None;
    }
    let mut value: u32 = 0;
    while i < to
        invariant
            start <= i <= to <= s@.len(),
            digits == s@.subrange(start as int, to as int),
            octet(s@.subrange(from as int, to as int)) == small_number(digits),
            all_digits(digits.take(i - start)),
            value == decimal(digits.take(i - start)),
            value <= 255,
        decreases to - i,
    {
        let n: u32 = s[i] as u32;
        let ghost seen = digits.take(i - start);
        let ghost more = digits.take(i - start + 1);
        proof {
            assert(more.drop_last() =~= seen);
            assert(more.last() == s@[i as int]);
            assert(digits[i - start] == s@[i as int]);
        }
        if n < 0x30 || n > 0x39 {
            return None;
        }
        let next: u32 = value * 10 + (n - 0x30);
        proof {
            assert forall|j: int| 0 <= j < more.len() implies is_digit(#[trigger] more[j]) by {
                if j < seen.len() {
                    assert(more[j] == seen[j]);
                }
            }
        }
        if next > 255 {
            proof {
                if all_digits(digits) {
                    lemma_decimal_grows(digits, i - start + 1);
                }
            }
            return None;
        }
        value = next;
        i += 1;
    }
    proof {
        assert(digits.take(to - start) =~= digits);
    }
    Some(value as u8)
}

/// The address that `text` writes, `None` where it does not write one.
pub fn parse_address(text: &str) -> (r: Option<Vec<u8>>)
    ensures
        match address(text@) {
            Some(octets) => r matches Some(v) && v@ == octets,
            None => r is None,
        },
{
    let chars = chars_of(text);
    let bounds = field_bounds(chars.as_slice(), '.');
    if bounds.len() != 4 {
        return None;
    }
    let a = parse_octet(chars.as_slice(), bounds[0].0, bounds[0].1);
    let b = parse_octet(chars.as_slice(), bounds[1].0, bounds[1].1);
    let c = parse_octet(chars.as_slice(), bounds[2].0, bounds[2].1);
    let d = parse_octet(chars.as_slice(), bounds[3].0, bounds[3].1);
    match (a, b, c, d) {
        (Some(a), Some(b), Some(c), Some(d)) => {
            let mut octets: Vec<u8> = Vec::new();
            octets.push(a);
            octets.push(b);
            octets.push(c);
            octets.push(d);
            proof {
                assert(octets@ =~= address(text@)->Some_0);
            }
            Some(octets)
        },
        _ => None,
    }
}

// ---------------------------------------------------------------------------
// Lemmas
// ---------------------------------------------------------------------------

/// More digits never write a smaller number.
pub proof fn lemma_decimal_grows(s: Seq<char>, k: int)
    requires
        0 <= k <= s.len(),
        all_digits(s),
    ensures
        decimal(s.take(k)) <= decimal(s),
    decreases s.len() - k,
{
    if k == s.len() {
        assert(s.take(k) =~= s);
    } else {
        let front = s.drop_last();
        assert(front.take(k) =~= s.take(k));
        assert forall|i: int| 0 <= i < front.len() implies is_digit(#[trigger] front[i]) by {
            assert(front[i] == s[i]);
        }
        lemma_decimal_grows(front, k);
        assert(is_digit(s[s.len() - 1]));
    }
}

/// An address is written with digits, dots and plus signs only, and is not
/// empty.
pub proof fn lemma_address_chars(text: Seq<char>)
    requires
        address(text) is Some,
    ensures
        text.len() > 0,
        forall|i: int| 0 <= i < text.len() ==> is_address_char(#[trigger] text[i]),
{
    let parts = fields(text, '.');
    assert forall|k: int, j: int| 0 <= k < parts.len() && 0 <= j < parts[k].len() implies
        is_address_char(#[trigger] parts[k][j]) by {
        let part = parts[k];
        assert(octet(part) is Some);
        if part[0] == '+' {
            if j > 0 {
                assert(part.drop_first()[j - 1] == part[j]);
            }
        }
    }
    lemma_fields_cover(text, '.', |c: char| is_address_char(c));
    assert(octet(parts[0]) is Some);
    lemma_fields_len(text, '.');
}

/// Trimming leaves an address as it is.
pub proof fn lemma_address_trimmed(text: Seq<char>)
    requires
        address(text) is Some,
    ensures
        trimmed(text) == text,
{
    lemma_address_chars(text);
    assert(is_address_char(text[0]));
    assert(is_address_char(text.last()));
    lemma_trimmed_same(text);
}

} // verus!
