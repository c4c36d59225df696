//! Text as a sequence of characters: finding a separator, cutting into
//! fields, trimming blanks.

use vstd::prelude::*;
use vstd::utf8::*;

verus! {

/// The characters that count as blank: those with the Unicode property
/// `White_Space`.
pub open spec fn is_blank(c: char) -> bool {
    let n = c as u32;
    ||| 0x09 <= n <= 0x0d
    ||| n == 0x20
    ||| n == 0x85
    ||| n == 0xa0
    ||| n == 0x1680
    ||| 0x2000 <= n <= 0x200a
    ||| n == 0x2028
    ||| n == 0x2029
    ||| n == 0x202f
    ||| n == 0x205f
    ||| n == 0x3000
}

/// The index of the first `c` in `s`, or the length of `s` where it holds
/// none.
pub open spec fn position(s: Seq<char>, c: char) -> nat
    decreases s.len(),
{
    if s.len() == 0 || s[0] == c {
        0
    } else {
        1 + position(s.drop_first(), c)
    }
}

/// The pieces of `s` between separators, in order. A text without a
/// separator is one field; two separators side by side hold an empty field.
pub open spec fn fields(s: Seq<char>, sep: char) -> Seq<Seq<char>>
    decreases s.len(),
{
    let at = position(s, sep) as int;
    if at >= s.len() {
        seq![s]
    } else {
        seq![s.take(at)] + fields(s.skip(at + 1), sep)
    }
}

/// `s` without the blanks at its start.
pub open spec fn trim_start(s: Seq<char>) -> Seq<char>
    decreases s.len(),
{
    if s.len() > 0 && is_blank(s[0]) {
        trim_start(s.drop_first())
    } else {
        s
    }
}

/// `s` without the blanks at its end.
pub open spec fn trim_end(s: Seq<char>) -> Seq<char>
    decreases s.len(),
{
    if s.len() > 0 && is_blank(s.last()) {
        trim_end(s.drop_last())
    } else {
        s
    }
}

/// `s` without the blanks at its start and at its end.
pub open spec fn trimmed(s: Seq<char>) -> Seq<char> {
    trim_end(trim_start(s))
}

/// Whether `c` is blank.
pub fn blank(c: char) -> (b: bool)
    ensures
        b == is_blank(c),
{
    let n: u32 = c as u32;
    (0x09 <= n && n <= 0x0d) || n == 0x20 || n == 0x85 || n == 0xa0 || n == 0x1680 || (0x2000 <= n
        && n <= 0x200a) || n == 0x2028 || n == 0x2029 || n == 0x202f || n == 0x205f || n == 0x3000
}

/// The characters of `s`, one by one.
pub fn chars_of(s: &str) -> (chars: Vec<char>)
    ensures
        chars@ == s@,
{
    broadcast use vstd::string::group_string_axioms;

    let mut chars: Vec<char> = Vec::new();
    for c in it: s.chars()
        invariant
            it.seq() == s@,
            chars@ == it.seq().take(it.index()),
    {
        chars.push(c);
    }
    assert(chars@ == s@.take(s@.len() as int));
    chars
}

/// The first place at or behind `from` that holds `c`, or the end.
pub fn find(s: &[char], from: usize, c: char) -> (at: usize)
    requires
        from <= s@.len(),
    ensures
        from <= at <= s@.len(),
        at - from == position(s@.skip(from as int), c),
{
    let mut at: usize = from;
    while at < s.len() && s[at] != c
        invariant
            from <= at <= s@.len(),
            forall|i: int| from <= i < at ==> s@[i] != c,
        decreases s@.len() - at,
    {
        at += 1;
    }
    proof {
        lemma_position_is(s@.skip(from as int), c, at - from);
    }
    at
}

/// The bounds of the fields of `s`, each as the index of its first
/// character and the index behind its last.
pub fn field_bounds(s: &[char], sep: char) -> (bounds: Vec<(usize, usize)>)
    ensures
        bounds@.len() == fields(s@, sep).len(),
        forall|i: int|
            0 <= i < bounds@.len() ==> {
                &&& (#[trigger] bounds@[i]).0 <= bounds@[i].1 <= s@.len()
                &&& s@.subrange(bounds@[i].0 as int, bounds@[i].1 as int) == fields(s@, sep)[i]
            },
{
    let mut bounds: Vec<(usize, usize)> = Vec::new();
    let mut start: usize = 0;
    let ghost mut done: Seq<Seq<char>> = Seq::empty();
    proof {
        assert(s@.skip(0) =~= s@);
        assert(done + fields(s@, sep) =~= fields(s@, sep));
    }
    loop
        invariant_except_break
            start <= s@.len(),
            done.len() == bounds@.len(),
            forall|i: int|
                0 <= i < bounds@.len() ==> {
                    &&& (#[trigger] bounds@[i]).0 <= bounds@[i].1 <= s@.len()
                    &&& s@.subrange(bounds@[i].0 as int, bounds@[i].1 as int) == done[i]
                },
            fields(s@, sep) == done + fields(s@.skip(start as int), sep),
        ensures
            bounds@.len() == fields(s@, sep).len(),
            forall|i: int|
                0 <= i < bounds@.len() ==> {
                    &&& (#[trigger] bounds@[i]).0 <= bounds@[i].1 <= s@.len()
                    &&& s@.subrange(bounds@[i].0 as int, bounds@[i].1 as int) == fields(
                        s@,
                        sep,
                    )[i]
                },
        decreases s@.len() - start,
    {
        let at = find(s, start, sep);
        let ghost rest = s@.skip(start as int);
        let ghost piece = s@.subrange(start as int, at as int);
        proof {
            assert(rest.take(at - start) =~= piece);
        }
        bounds.push((start, at));
        if at == s.len() {
            proof {
                assert(piece =~= rest);
                assert(fields(s@, sep) =~= done.push(piece));
            }
            break ;
        }
        proof {
            assert(rest.skip(at - start + 1) =~= s@.skip(at + 1));
            assert(done + (seq![piece] + fields(s@.skip(at + 1), sep)) =~= done.push(piece)
                + fields(s@.skip(at + 1), sep));
            done = done.push(piece);
        }
        start = at + 1;
    }
    bounds
}

/// The bounds of what trimming leaves of the stretch of `s` from `from` up
/// to `to`.
pub fn trim_bounds(s: &[char], from: usize, to: usize) -> (kept: (usize, usize))
    requires
        from <= to <= s@.len(),
    ensures
        from <= kept.0 <= kept.1 <= to,
        s@.subrange(kept.0 as int, kept.1 as int) == trimmed(s@.subrange(from as int, to as int)),
{
    let mut a: usize = from;
    while a < to && blank(s[a])
        invariant
            from <= a <= to <= s@.len(),
            trim_start(s@.subrange(from as int, to as int)) == trim_start(
                s@.subrange(a as int, to as int),
            ),
        decreases to - a,
    {
        proof {
            assert(s@.subrange(a as int, to as int).drop_first() =~= s@.subrange(
                a + 1,
                to as int,
            ));
        }
        a += 1;
    }
    let mut b: usize = to;
    while b > a && blank(s[b - 1])
        invariant
            a <= b <= to <= s@.len(),
            trim_end(s@.subrange(a as int, to as int)) == trim_end(s@.subrange(a as int, b as int)),
        decreases b - a,
    {
        proof {
            assert(s@.subrange(a as int, b as int).drop_last() =~= s@.subrange(a as int, b - 1));
        }
        b -= 1;
    }
    (a, b)
}

/// `s` without the blanks at its start and at its end.
pub fn trim(s: &str) -> (kept: &str)
    ensures
        kept@ == trimmed(s@),
{
    let chars = chars_of(s);
    let (a, b) = trim_bounds(chars.as_slice(), 0, chars.len());
    proof {
        assert(chars@.subrange(0, chars@.len() as int) =~= chars@);
    }
    s.substring_char(a, b)
}

// ---------------------------------------------------------------------------
// Lemmas
// ---------------------------------------------------------------------------

/// What `position` finds: nothing before it is `c`, and it is `c` unless it
/// is the end.
pub proof fn lemma_position(s: Seq<char>, c: char)
    ensures
        position(s, c) <= s.len(),
        forall|i: int| 0 <= i < position(s, c) ==> s[i] != c,
        position(s, c) < s.len() ==> s[position(s, c) as int] == c,
    decreases s.len(),
{
    if s.len() == 0 || s[0] == c {
    } else {
        let rest = s.drop_first();
        lemma_position(rest, c);
        assert forall|i: int| 0 <= i < position(s, c) implies s[i] != c by {
            if i > 0 {
                assert(s[i] == rest[i - 1]);
            }
        }
        if position(s, c) < s.len() {
            assert(s[position(s, c) as int] == rest[position(rest, c) as int]);
        }
    }
}

/// The first place that is `c`, or the end where there is none, is what
/// `position` finds.
pub proof fn lemma_position_is(s: Seq<char>, c: char, at: int)
    requires
        0 <= at <= s.len(),
        forall|i: int| 0 <= i < at ==> s[i] != c,
        at < s.len() ==> s[at] == c,
    ensures
        position(s, c) == at,
    decreases s.len(),
{
    if s.len() == 0 || s[0] == c {
    } else {
        let rest = s.drop_first();
        assert forall|i: int| 0 <= i < at - 1 implies rest[i] != c by {
            assert(rest[i] == s[i + 1]);
        }
        lemma_position_is(rest, c, at - 1);
    }
}

/// Every field is made of characters of the text, and the separators lie
/// between them: the fields and the separators together are as long as the
/// text.
pub proof fn lemma_fields_len(s: Seq<char>, sep: char)
    ensures
        fields(s, sep).len() >= 1,
        fields(s, sep).len() <= s.len() + 1,
        forall|i: int| 0 <= i < fields(s, sep).len() ==> (#[trigger] fields(s, sep)[i]).len()
            + fields(s, sep).len() <= s.len() + 1,
    decreases s.len(),
{
    lemma_position(s, sep);
    let at = position(s, sep) as int;
    if at >= s.len() {
    } else {
        let rest = s.skip(at + 1);
        lemma_fields_len(rest, sep);
        assert forall|i: int| 0 <= i < fields(s, sep).len() implies (#[trigger] fields(
            s,
            sep,
        )[i]).len() + fields(s, sep).len() <= s.len() + 1 by {
            if i > 0 {
                assert(fields(s, sep)[i] == fields(rest, sep)[i - 1]);
            }
        }
    }
}

/// Trimming keeps a stretch of the text.
pub proof fn lemma_trimmed_is_part(s: Seq<char>)
    ensures
        exists|from: int, to: int|
            0 <= from <= to <= s.len() && trimmed(s) == #[trigger] s.subrange(from, to),
{
    lemma_trim_start_is_part(s);
    let from = choose|from: int| 0 <= from <= s.len() && trim_start(s) == s.skip(from);
    let mid = s.skip(from);
    lemma_trim_end_is_part(mid);
    let keep = choose|keep: int| 0 <= keep <= mid.len() && trim_end(mid) == mid.take(keep);
    assert(mid.take(keep) =~= s.subrange(from, from + keep));
}

proof fn lemma_trim_start_is_part(s: Seq<char>)
    ensures
        exists|from: int| 0 <= from <= s.len() && trim_start(s) == #[trigger] s.skip(from),
    decreases s.len(),
{
    if s.len() > 0 && is_blank(s[0]) {
        let rest = s.drop_first();
        lemma_trim_start_is_part(rest);
        let from = choose|from: int| 0 <= from <= rest.len() && trim_start(rest) == rest.skip(from);
        assert(rest.skip(from) =~= s.skip(from + 1));
    } else {
        assert(s =~= s.skip(0));
    }
}

proof fn lemma_trim_end_is_part(s: Seq<char>)
    ensures
        exists|keep: int| 0 <= keep <= s.len() && trim_end(s) == #[trigger] s.take(keep),
    decreases s.len(),
{
    if s.len() > 0 && is_blank(s.last()) {
        let rest = s.drop_last();
        lemma_trim_end_is_part(rest);
        let keep = choose|keep: int| 0 <= keep <= rest.len() && trim_end(rest) == rest.take(keep);
        assert(rest.take(keep) =~= s.take(keep));
    } else {
        assert(s =~= s.take(s.len() as int));
    }
}

/// A text with exactly two fields is the first, the separator, the second.
pub proof fn lemma_two_fields(s: Seq<char>, sep: char)
    requires
        fields(s, sep).len() == 2,
    ensures
        s == fields(s, sep)[0] + seq![sep] + fields(s, sep)[1],
{
    lemma_position(s, sep);
    let at = position(s, sep) as int;
    let rest = s.skip(at + 1);
    lemma_position(rest, sep);
    let next = position(rest, sep) as int;
    if next < rest.len() {
        lemma_fields_len(rest.skip(next + 1), sep);
    }
    assert(fields(rest, sep) == seq![rest]);
    assert(fields(s, sep)[1] == fields(rest, sep)[0]);
    assert(s =~= s.take(at) + seq![sep] + rest);
}

/// A text before a separator is the first field of the whole, and the
/// fields of what follows the separator are the others.
pub proof fn lemma_fields_after(head: Seq<char>, tail: Seq<char>, sep: char)
    requires
        !head.contains(sep),
    ensures
        fields(head + seq![sep] + tail, sep) == seq![head] + fields(tail, sep),
{
    let whole = head + seq![sep] + tail;
    assert forall|i: int| 0 <= i < head.len() implies whole[i] != sep by {
        assert(whole[i] == head[i]);
        assert(head.contains(head[i]));
    }
    lemma_position_is(whole, sep, head.len() as int);
    assert(whole.take(head.len() as int) =~= head);
    assert(whole.skip(head.len() as int + 1) =~= tail);
}

/// A text that holds no separator is its own single field.
pub proof fn lemma_fields_single(s: Seq<char>, sep: char)
    requires
        !s.contains(sep),
    ensures
        fields(s, sep) == seq![s],
{
    assert forall|i: int| 0 <= i < s.len() implies s[i] != sep by {
        assert(s.contains(s[i]));
    }
    lemma_position_is(s, sep, s.len() as int);
}

/// What holds of the separator and of every character of every field holds
/// of every character of the text.
pub proof fn lemma_fields_cover(s: Seq<char>, sep: char, ok: spec_fn(char) -> bool)
    requires
        ok(sep),
        forall|k: int, j: int|
            0 <= k < fields(s, sep).len() && 0 <= j < fields(s, sep)[k].len() ==> ok(
                #[trigger] fields(s, sep)[k][j],
            ),
    ensures
        forall|i: int| 0 <= i < s.len() ==> ok(#[trigger] s[i]),
    decreases s.len(),
{
    lemma_position(s, sep);
    let at = position(s, sep) as int;
    if at >= s.len() {
        assert forall|i: int| 0 <= i < s.len() implies ok(#[trigger] s[i]) by {
            assert(fields(s, sep)[0][i] == s[i]);
        }
    } else {
        let rest = s.skip(at + 1);
        assert forall|k: int, j: int|
            0 <= k < fields(rest, sep).len() && 0 <= j < fields(rest, sep)[k].len() implies ok(
            #[trigger] fields(rest, sep)[k][j],
        ) by {
            assert(fields(s, sep)[k + 1] == fields(rest, sep)[k]);
            assert(ok(fields(s, sep)[k + 1][j]));
        }
        lemma_fields_cover(rest, sep, ok);
        assert forall|i: int| 0 <= i < s.len() implies ok(#[trigger] s[i]) by {
            if i < at {
                assert(fields(s, sep)[0][i] == s[i]);
            } else if i > at {
                assert(rest[i - at - 1] == s[i]);
            }
        }
    }
}

/// A text that neither starts nor ends with a blank is left as it is by
/// trimming.
pub proof fn lemma_trimmed_same(s: Seq<char>)
    requires
        s.len() > 0 ==> !is_blank(s[0]) && !is_blank(s.last()),
    ensures
        trimmed(s) == s,
{
}

/// The UTF-8 bytes of two texts one after the other are the bytes of the
/// first and then those of the second.
pub proof fn lemma_utf8_concat(a: Seq<char>, b: Seq<char>)
    ensures
        encode_utf8(a + b) == encode_utf8(a) + encode_utf8(b),
    decreases a.len(),
{
    if a.len() == 0 {
        assert(a + b =~= b);
        assert(encode_utf8(a) + encode_utf8(b) =~= encode_utf8(b));
    } else {
        assert((a + b).drop_first() =~= a.drop_first() + b);
        lemma_utf8_concat(a.drop_first(), b);
        assert(encode_scalar(a[0] as u32) + (encode_utf8(a.drop_first()) + encode_utf8(b))
            =~= encode_utf8(a) + encode_utf8(b));
    }
}

/// A text takes at least one byte for each of its characters.
pub proof fn lemma_utf8_len_min(s: Seq<char>)
    ensures
        s.len() <= encode_utf8(s).len(),
    decreases s.len(),
{
    if s.len() > 0 {
        lemma_utf8_len_min(s.drop_first());
    }
}

/// A stretch of a text takes no more bytes than the text.
pub proof fn lemma_utf8_len_part(s: Seq<char>, from: int, to: int)
    requires
        0 <= from <= to <= s.len(),
    ensures
        encode_utf8(s.subrange(from, to)).len() <= encode_utf8(s).len(),
{
    assert(s =~= s.take(from) + s.subrange(from, to) + s.skip(to));
    lemma_utf8_concat(s.take(from) + s.subrange(from, to), s.skip(to));
    lemma_utf8_concat(s.take(from), s.subrange(from, to));
}

} // verus!
