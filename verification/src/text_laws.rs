//! What holds of texts: how they are joined, compared, searched and written as
//! numerals.

use vstd::prelude::*;
use vstd::utf8::*;

use crate::backend::wire::{backend_message, BackendErrorView};
use crate::error::{message_text, ErrorView};
use crate::text::{
    all_digits, all_hex, bytes_lt, contains_text, decimal, decimal_int, decimal_value, digit_value,
    hex_value, is_at, joined, lemma_decimal_round_trip, parse_decimal, parse_hex, text_lt,
    unhex_bytes,
};

verus! {

/// Texts are joined with the separator between each two, and nowhere else.
pub proof fn law_joining(parts: Seq<Seq<char>>, more: Seq<char>, sep: Seq<char>)
    ensures
        joined(Seq::empty(), sep) == Seq::<char>::empty(),
        joined(seq![more], sep) == more,
        parts.len() > 0 ==> joined(parts.push(more), sep) == joined(parts, sep) + sep + more,
{
    assert(parts.push(more).drop_last() =~= parts);
}

/// Texts are ordered as their bytes are: by the first in which they differ, or
/// where one goes on after the other has ended.
pub proof fn law_texts_are_ordered_by_their_bytes(a: Seq<char>, b: Seq<char>, k: int)
    requires
        0 <= k <= encode_utf8(a).len(),
        k <= encode_utf8(b).len(),
        encode_utf8(a).take(k) == encode_utf8(b).take(k),
    ensures
        k < encode_utf8(a).len() && k < encode_utf8(b).len() && encode_utf8(a)[k] != encode_utf8(
            b,
        )[k] ==> (text_lt(a, b) <==> encode_utf8(a)[k] < encode_utf8(b)[k]),
        k == encode_utf8(a).len() ==> (text_lt(a, b) <==> encode_utf8(b).len() > k),
{
    lemma_bytes(encode_utf8(a), encode_utf8(b), k);
}

proof fn lemma_bytes(a: Seq<u8>, b: Seq<u8>, k: int)
    requires
        0 <= k <= a.len(),
        k <= b.len(),
        a.take(k) == b.take(k),
    ensures
        k < a.len() && k < b.len() && a[k] != b[k] ==> (bytes_lt(a, b) <==> a[k] < b[k]),
        k == a.len() ==> (bytes_lt(a, b) <==> b.len() > k),
    decreases k,
{
    if k > 0 {
        assert(a[0] == a.take(k)[0] && b[0] == b.take(k)[0]);
        let (x, y) = (a.drop_first(), b.drop_first());
        assert(x.take(k - 1) =~= a.take(k).drop_first());
        assert(y.take(k - 1) =~= b.take(k).drop_first());
        lemma_bytes(x, y, k - 1);
    }
}

/// A text holds another exactly if it is that one with something before it and
/// something after it, or with nothing.
pub proof fn law_holding(a: Seq<char>, part: Seq<char>, b: Seq<char>, s: Seq<char>)
    ensures
        contains_text(a + part + b, part),
        contains_text(s, part) ==> exists|x: Seq<char>, y: Seq<char>| s == #[trigger] (x + part + y),
{
    let whole = a + part + b;
    assert(whole.subrange(a.len() as int, (a.len() + part.len()) as int) =~= part);
    assert(is_at(whole, part, a.len() as int));
    if contains_text(s, part) {
        let i = choose|i: int| is_at(s, part, i);
        let (x, y) = (s.take(i), s.skip(i + part.len()));
        assert(s =~= x + part + y) by {
            assert(s.subrange(i, i + part.len()) == part);
            assert forall|k: int| 0 <= k < s.len() implies s[k] == (x + part + y)[k] by {
                if i <= k < i + part.len() {
                    assert(s.subrange(i, i + part.len())[k - i] == part[k - i]);
                }
            }
        }
    }
}

/// Different numbers have different numerals, and one with a sign is the one
/// without it and the sign.
pub proof fn law_numerals_differ(a: nat, b: nat)
    ensures
        decimal(a) == decimal(b) ==> a == b,
        decimal_int(a as int) == decimal(a),
        a > 0 ==> decimal_int(-(a as int)) == seq!['-'] + decimal(a),
{
    let max = if a > b {
        a
    } else {
        b
    };
    lemma_decimal_round_trip(a, max);
    lemma_decimal_round_trip(b, max);
}

/// A message tells the whole text of its error.
pub proof fn law_message_tells_the_error(text: Seq<char>)
    ensures
        message_text(ErrorView::Db(text)) == "database error: "@ + text,
        message_text(ErrorView::InvalidHlc(text)) == "invalid HLC string: "@ + text,
        message_text(ErrorView::Io(text)) == "I/O error: "@ + text,
        message_text(ErrorView::Other(text)) == text,
        backend_message(BackendErrorView::Transient(text)) == "transient: "@ + text,
        backend_message(BackendErrorView::Config(text)) == "configuration error: "@ + text,
{
}

/// A hexadecimal number is read digit by digit, of either case: one digit more
/// makes it sixteen times as large and adds the digit. What is too large, or has
/// any other character, is no number. A plus sign may stand in front.
pub proof fn law_hex_is_read_by_digits(s: Seq<char>, c: char, max: nat)
    ensures
        parse_hex(Seq::empty(), max) is None,
        parse_hex(seq!['+'], max) is None,
        s.len() == 0 || s == seq!['+'] ==> parse_hex(s.push(c), max) == read_digit(
            0,
            c,
            16,
            max,
        ),
        s.len() > 0 && s != seq!['+'] ==> parse_hex(s.push(c), max) == (match parse_hex(s, max) {
            Some(v) => read_digit(v, c, 16, max),
            None => None,
        }),
{
    let t = s.push(c);
    if s.len() > 0 && s[0] == '+' {
        assert(t.drop_first() =~= s.drop_first().push(c));
        if s.len() == 1 {
            assert(s =~= seq!['+']);
        }
        lemma_hex_push(s.drop_first(), c);
    } else {
        lemma_hex_push(s, c);
        if s.len() == 0 && c == '+' {
            assert(t.drop_first() =~= Seq::<char>::empty());
        }
    }
    assert(seq!['+'].drop_first() =~= Seq::<char>::empty());
}

/// The number that a digit makes of the one before it, in a base of sixteen or
/// of ten, if it is a digit and the number is not too large.
pub open spec fn read_digit(before: nat, c: char, base: nat, max: nat) -> Option<nat> {
    let digit = if '0' <= c <= '9' {
        c as int - '0' as int
    } else if base == 16 && 'a' <= c <= 'f' {
        c as int - 'a' as int + 10
    } else if base == 16 && 'A' <= c <= 'F' {
        c as int - 'A' as int + 10
    } else {
        -1
    };
    if digit >= 0 && base * before + digit <= max {
        Some((base * before + digit) as nat)
    } else {
        None
    }
}

proof fn lemma_hex_push(s: Seq<char>, c: char)
    ensures
        all_hex(s.push(c)) <==> all_hex(s) && digit_value(c) is Some,
        digit_value(c) is Some ==> hex_value(s.push(c)) == hex_value(s) * 16 + digit_value(c)->0,
        hex_value(s) <= hex_value(s.push(c)),
{
    assert(s.push(c).drop_last() =~= s);
    if all_hex(s.push(c)) {
        assert(digit_value(s.push(c)[s.len() as int]) is Some);
        assert forall|i: int| 0 <= i < s.len() implies (#[trigger] digit_value(s[i])) is Some by {
            assert(digit_value(s.push(c)[i]) is Some);
        }
    }
}

/// A decimal number is read digit by digit: one digit more makes it ten times as
/// large and adds the digit. What is too large, or has any other character, is
/// no number. A plus sign may stand in front.
pub proof fn law_decimal_is_read_by_digits(s: Seq<char>, c: char, max: nat)
    ensures
        parse_decimal(Seq::empty(), max) is None,
        parse_decimal(seq!['+'], max) is None,
        s.len() == 0 || s == seq!['+'] ==> parse_decimal(s.push(c), max) == read_digit(
            0,
            c,
            10,
            max,
        ),
        s.len() > 0 && s != seq!['+'] ==> parse_decimal(s.push(c), max) == (match parse_decimal(
            s,
            max,
        ) {
            Some(v) => read_digit(v, c, 10, max),
            None => None,
        }),
{
    let t = s.push(c);
    if s.len() > 0 && s[0] == '+' {
        assert(t.drop_first() =~= s.drop_first().push(c));
        if s.len() == 1 {
            assert(s =~= seq!['+']);
        }
        lemma_decimal_push(s.drop_first(), c);
    } else {
        lemma_decimal_push(s, c);
        if s.len() == 0 && c == '+' {
            assert(t.drop_first() =~= Seq::<char>::empty());
        }
    }
    assert(seq!['+'].drop_first() =~= Seq::<char>::empty());
}

proof fn lemma_decimal_push(s: Seq<char>, c: char)
    ensures
        all_digits(s.push(c)) <==> all_digits(s) && '0' <= c <= '9',
        '0' <= c <= '9' ==> decimal_value(s.push(c)) == decimal_value(s) * 10 + (c as int - 48),
{
    assert(s.push(c).drop_last() =~= s);
    if all_digits(s.push(c)) {
        assert(s.push(c)[s.len() as int] == c);
        assert forall|i: int| 0 <= i < s.len() implies '0' <= (#[trigger] s[i]) <= '9' by {
            assert(s.push(c)[i] == s[i]);
        }
    }
}

/// Bytes are read two digits at a time: one pair more adds the byte that it
/// stands for, and a digit without a partner is no byte.
pub proof fn law_bytes_are_read_in_pairs(s: Seq<char>, a: char, b: char)
    ensures
        unhex_bytes(Seq::empty()) == Some(Seq::<u8>::empty()),
        s.len() % 2 == 1 ==> unhex_bytes(s) is None,
        unhex_bytes(s.push(a).push(b)) is Some <==> unhex_bytes(s) is Some && parse_hex(
            seq![a, b],
            255,
        ) is Some,
        unhex_bytes(s.push(a).push(b)) is Some ==> unhex_bytes(s.push(a).push(b))->0
            == unhex_bytes(s)->0.push(parse_hex(seq![a, b], 255)->0 as u8),
    decreases s.len(),
{
    let t = s.push(a).push(b);
    assert(t.take(t.len() - 2) =~= s);
    assert(t.skip(t.len() - 2) =~= seq![a, b]);
    if s.len() >= 2 {
        law_bytes_are_read_in_pairs(s.take(s.len() - 2), a, b);
    }
}

} // verus!
