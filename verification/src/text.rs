//! Octet strings as they come in header fields: lists, padding and decimal numbers.

use vstd::prelude::*;
use vstd::slice::slice_subrange;
use vstd::string::*;
use vstd::utf8::*;

verus! {

/// The white space characters of ASCII.
pub open spec fn is_space(octet: u8) -> bool {
    9 <= octet <= 13 || octet == 32
}

/// `s` without the white space at its two ends.
pub open spec fn trimmed(s: Seq<u8>) -> Seq<u8>
    decreases s.len(),
{
    if s.len() == 0 {
        s
    } else if is_space(s.first()) {
        trimmed(s.drop_first())
    } else if is_space(s.last()) {
        trimmed(s.drop_last())
    } else {
        s
    }
}

/// The pieces of `s` between the occurrences of `separator`: one more piece than
/// there are occurrences.
pub open spec fn split_on(s: Seq<u8>, separator: u8) -> Seq<Seq<u8>>
    decreases s.len(),
{
    if s.contains(separator) {
        let end = s.index_of_first(separator)->0;
        if 0 <= end < s.len() {
            seq![s.take(end)] + split_on(s.skip(end + 1), separator)
        } else {
            seq![s]
        }
    } else {
        seq![s]
    }
}

/// The pieces with `separator` between each two of them.
pub open spec fn joined(pieces: Seq<Seq<u8>>, separator: u8) -> Seq<u8>
    decreases pieces.len(),
{
    if pieces.len() == 0 {
        Seq::empty()
    } else if pieces.len() == 1 {
        pieces[0]
    } else {
        pieces[0] + seq![separator] + joined(pieces.drop_first(), separator)
    }
}

/// A string whose first separator stands at `end` splits into what stands before
/// it and the pieces of what stands behind it.
pub proof fn lemma_split_at(s: Seq<u8>, separator: u8, end: int)
    requires
        0 <= end < s.len(),
        s[end] == separator,
        forall|i: int| 0 <= i < end ==> s[i] != separator,
    ensures
        split_on(s, separator) == seq![s.take(end)] + split_on(s.skip(end + 1), separator),
{
    s.index_of_first_ensures(separator);
}

/// Splitting at the separator undoes joining with it, when there is a piece and
/// no piece holds the separator.
pub proof fn lemma_split_joined(pieces: Seq<Seq<u8>>, separator: u8)
    requires
        pieces.len() > 0,
        forall|i: int| 0 <= i < pieces.len() ==> !(#[trigger] pieces[i]).contains(separator),
    ensures
        split_on(joined(pieces, separator), separator) == pieces,
    decreases pieces.len(),
{
    let s = joined(pieces, separator);
    let head = pieces[0];
    assert(!head.contains(separator));
    if pieces.len() == 1 {
        assert(split_on(s, separator) =~= pieces);
    } else {
        let rest = joined(pieces.drop_first(), separator);
        assert forall|i: int| 0 <= i < head.len() implies s[i] != separator by {
            assert(s[i] == head[i]);
            assert(head.contains(head[i]));
        }
        lemma_split_at(s, separator, head.len() as int);
        assert(s.take(head.len() as int) =~= head);
        assert(s.skip(head.len() as int + 1) =~= rest);
        lemma_split_joined(pieces.drop_first(), separator);
        assert(split_on(s, separator) =~= pieces);
    }
}

/// Joining one more piece adds the separator and the piece at the end.
pub proof fn lemma_joined_push(pieces: Seq<Seq<u8>>, last: Seq<u8>, separator: u8)
    requires
        pieces.len() > 0,
    ensures
        joined(pieces.push(last), separator) == joined(pieces, separator) + seq![separator] + last,
    decreases pieces.len(),
{
    let more = pieces.push(last);
    if pieces.len() == 1 {
        assert(more.drop_first() =~= seq![last]);
        assert(joined(seq![last], separator) == last);
    } else {
        lemma_joined_push(pieces.drop_first(), last, separator);
        assert(more.drop_first() =~= pieces.drop_first().push(last));
        assert(joined(more, separator) =~= joined(pieces, separator) + seq![separator] + last);
    }
}

/// The encoding of a concatenation is the concatenation of the encodings.
pub proof fn lemma_encode_concat(left: Seq<char>, right: Seq<char>)
    ensures
        encode_utf8(left + right) == encode_utf8(left) + encode_utf8(right),
    decreases left.len(),
{
    if left.len() == 0 {
        assert(left + right =~= right);
        assert(encode_utf8(left) + encode_utf8(right) =~= encode_utf8(right));
    } else {
        lemma_encode_concat(left.drop_first(), right);
        assert((left + right).drop_first() =~= left.drop_first() + right);
        assert(encode_utf8(left + right) =~= encode_utf8(left) + encode_utf8(right));
    }
}

/// Cuts the white space off both ends.
pub fn trim(s: &[u8]) -> (core: &[u8])
    ensures
        core@ == trimmed(s@),
{
    let mut from: usize = 0;
    let mut to: usize = s.len();
    assert(s@.subrange(0, s@.len() as int) =~= s@);
    while from < to && (s[from] == 32 || (9 <= s[from] && s[from] <= 13))
        invariant
            from <= to <= s@.len(),
            trimmed(s@) == trimmed(s@.subrange(from as int, to as int)),
        decreases to - from,
    {
        assert(s@.subrange(from as int, to as int).drop_first() =~= s@.subrange(
            from + 1,
            to as int,
        ));
        from = from + 1;
    }
    while from < to && (s[to - 1] == 32 || (9 <= s[to - 1] && s[to - 1] <= 13))
        invariant
            from <= to <= s@.len(),
            from < to ==> !is_space(s@[from as int]),
            trimmed(s@) == trimmed(s@.subrange(from as int, to as int)),
        decreases to - from,
    {
        assert(s@.subrange(from as int, to as int).drop_last() =~= s@.subrange(
            from as int,
            to - 1,
        ));
        to = to - 1;
    }
    slice_subrange(s, from, to)
}

/// Whether two octet strings are the same.
pub fn same(left: &[u8], right: &[u8]) -> (r: bool)
    ensures
        r <==> left@ == right@,
{
    if left.len() != right.len() {
        return false;
    }
    let mut i: usize = 0;
    while i < left.len()
        invariant
            i <= left@.len(),
            left@.len() == right@.len(),
            forall|j: int| 0 <= j < i ==> left@[j] == right@[j],
        decreases left@.len() - i,
    {
        if left[i] != right[i] {
            return false;
        }
        i = i + 1;
    }
    assert(left@ =~= right@);
    true
}

pub open spec fn is_digit(octet: u8) -> bool {
    48 <= octet <= 57
}

/// The number that a run of decimal digits writes.
pub open spec fn decimal_value(digits: Seq<u8>) -> nat
    decreases digits.len(),
{
    if digits.len() == 0 {
        0
    } else {
        decimal_value(digits.drop_last()) * 10 + (digits.last() - 48) as nat
    }
}

/// `s` without the plus sign that may stand in front.
pub open spec fn without_plus(s: Seq<u8>) -> Seq<u8> {
    if s.len() > 0 && s[0] == 43 {
        s.drop_first()
    } else {
        s
    }
}

/// The number that `s` writes: an optional plus sign, then one digit or more, and
/// nothing else; `None` where `s` has another form or the number does not fit.
pub open spec fn parsed_usize(s: Seq<u8>) -> Option<usize> {
    let digits = without_plus(s);
    if digits.len() > 0 && (forall|i: int| 0 <= i < digits.len() ==> is_digit(#[trigger] digits[i]))
        && decimal_value(digits) <= usize::MAX {
        Some(decimal_value(digits) as usize)
    } else {
        None
    }
}

/// More digits never write a smaller number.
proof fn lemma_decimal_grows(digits: Seq<u8>, n: int)
    requires
        0 <= n <= digits.len(),
    ensures
        decimal_value(digits.take(n)) <= decimal_value(digits),
    decreases digits.len(),
{
    if n == digits.len() {
        assert(digits.take(n) =~= digits);
    } else {
        lemma_decimal_grows(digits.drop_last(), n);
        assert(digits.drop_last().take(n) =~= digits.take(n));
    }
}

/// Reads a decimal number.
pub fn parse_usize(s: &[u8]) -> (r: Option<usize>)
    ensures
        r == parsed_usize(s@),
{
    let start: usize = if s.len() > 0 && s[0] == 43 {
        1
    } else {
        0
    };
    let ghost digits = without_plus(s@);
    assert(digits =~= s@.skip(start as int));
    if start == s.len() {
        return None;
    }
    let mut value: usize = 0;
    let mut i: usize = start;
    while i < s.len()
        invariant
            start <= i <= s@.len(),
            start < s@.len(),
            digits == s@.skip(start as int),
            digits == without_plus(s@),
            forall|j: int| 0 <= j < i - start ==> is_digit(#[trigger] digits[j]),
            value == decimal_value(digits.take(i - start)),
        decreases s@.len() - i,
    {
        let octet: u8 = s[i];
        assert(digits[i - start] == octet);
        if octet < 48 || 57 < octet {
            assert(!is_digit(digits[i - start]));
            return None;
        }
        proof {
            assert(digits.take(i - start + 1).drop_last() =~= digits.take(i - start));
            lemma_decimal_grows(digits, i - start + 1);
        }
        let next: Option<usize> = match value.checked_mul(10) {
            Some(shifted) => shifted.checked_add((octet - 48) as usize),
            None => None,
        };
        match next {
            Some(n) => {
                value = n;
            },
            None => {
                return None;
            },
        }
        i = i + 1;
    }
    assert(digits.take(digits.len() as int) =~= digits);
    Some(value)
}

/// The character of a decimal digit.
pub open spec fn digit_char(d: nat) -> char {
    (48 + d) as char
}

/// A number in decimal, without leading zeros.
pub open spec fn decimal_text(n: nat) -> Seq<char>
    decreases n,
{
    if n < 10 {
        seq![digit_char(n)]
    } else {
        decimal_text(n / 10).push(digit_char(n % 10))
    }
}

/// One decimal digit as text.
fn digit_text(d: u8) -> (text: &'static str)
    requires
        d < 10,
    ensures
        text@ == seq![digit_char(d as nat)],
{
    proof {
        reveal_strlit("0");
        reveal_strlit("1");
        reveal_strlit("2");
        reveal_strlit("3");
        reveal_strlit("4");
        reveal_strlit("5");
        reveal_strlit("6");
        reveal_strlit("7");
        reveal_strlit("8");
        reveal_strlit("9");
    }
    let text = match d {
        0 => "0",
        1 => "1",
        2 => "2",
        3 => "3",
        4 => "4",
        5 => "5",
        6 => "6",
        7 => "7",
        8 => "8",
        _ => "9",
    };
    assert(text@ =~= seq![digit_char(d as nat)]);
    text
}

/// Appends an octet in decimal.
pub fn append_decimal(text: &mut String, n: u8)
    ensures
        final(text)@ == old(text)@ + decimal_text(n as nat),
{
    let ghost before = text@;
    if n >= 100 {
        text.append(digit_text(n / 100));
    }
    if n >= 10 {
        text.append(digit_text(n / 10 % 10));
    }
    text.append(digit_text(n % 10));
    proof {
        reveal_with_fuel(decimal_text, 3);
        assert(text@ =~= before + decimal_text(n as nat));
    }
}

} // verus!
