//! Text as the rest of the crate sees it: sequences of characters, their UTF-8 and UTF-16
//! lengths, their lines, and the decimal notation of numbers.

use vstd::prelude::*;
use vstd::utf8::{
    decode_utf8, encode_scalar, encode_utf8, encode_utf8_decode_utf8, encode_utf8_first_scalar,
    encode_utf8_valid_utf8, is_ascii_chars, is_ascii_chars_encode_utf8, is_char_boundary,
    length_of_first_scalar, pop_first_scalar, valid_utf8,
};

verus! {

/// The number of bytes that `text` takes in UTF-8.
pub open spec fn utf8_len(text: Seq<char>) -> nat {
    encode_utf8(text).len()
}

/// The number of UTF-16 code units of one character: characters outside the basic multilingual
/// plane take a surrogate pair.
pub open spec fn utf16_width(c: char) -> nat {
    if c as u32 >= 0x10000 {
        2
    } else {
        1
    }
}

/// The number of UTF-16 code units of `text`.
pub open spec fn utf16_len(text: Seq<char>) -> nat
    decreases text.len(),
{
    if text.len() == 0 {
        0
    } else {
        utf16_len(text.drop_last()) + utf16_width(text.last())
    }
}

/// The number of line feeds in `text`.
pub open spec fn newline_count(text: Seq<char>) -> nat
    decreases text.len(),
{
    if text.len() == 0 {
        0
    } else {
        newline_count(text.drop_last()) + if text.last() == '\n' {
            1nat
        } else {
            0nat
        }
    }
}

/// The number of lines of `text`: one more than its line feeds, as the text after the last line
/// feed is a line too, though it may be empty.
pub open spec fn line_count(text: Seq<char>) -> nat {
    newline_count(text) + 1
}

/// The index of the first character of line `line`, counted from zero.
pub open spec fn line_begin(text: Seq<char>, line: nat) -> int
    recommends
        line < line_count(text),
    decreases text.len(),
{
    if line == 0 || text.len() == 0 {
        0
    } else if text.last() == '\n' && newline_count(text) == line {
        text.len() as int
    } else {
        line_begin(text.drop_last(), line)
    }
}

/// The index just behind line `line`, behind its line feed where it has one.
pub open spec fn line_close(text: Seq<char>, line: nat) -> int
    recommends
        line < line_count(text),
{
    if line < newline_count(text) {
        line_begin(text, line + 1)
    } else {
        text.len() as int
    }
}

/// The characters of line `line`, its line feed included.
pub open spec fn line_text(text: Seq<char>, line: nat) -> Seq<char>
    recommends
        line < line_count(text),
{
    text.subrange(line_begin(text, line), line_close(text, line))
}

pub proof fn lemma_encode_utf8_concat(a: Seq<char>, b: Seq<char>)
    ensures
        encode_utf8(a + b) == encode_utf8(a) + encode_utf8(b),
    decreases a.len(),
{
    if a.len() == 0 {
        assert(a + b =~= b);
        assert(encode_utf8(a) + encode_utf8(b) =~= encode_utf8(b));
    } else {
        assert((a + b).drop_first() =~= a.drop_first() + b);
        lemma_encode_utf8_concat(a.drop_first(), b);
        assert(encode_utf8(a + b) =~= encode_utf8(a) + encode_utf8(b));
    }
}

pub proof fn lemma_encode_utf8_push(a: Seq<char>, c: char)
    ensures
        encode_utf8(a.push(c)) == encode_utf8(a) + encode_scalar(c as u32),
        1 <= encode_scalar(c as u32).len() <= 4,
{
    assert(a.push(c) =~= a + seq![c]);
    lemma_encode_utf8_concat(a, seq![c]);
    assert(seq![c].drop_first() =~= Seq::<char>::empty());
    reveal_with_fuel(encode_utf8, 2);
    assert(encode_utf8(seq![c]) =~= encode_scalar(c as u32));
}

/// Texts with the same encoding are the same text.
pub proof fn lemma_encode_utf8_injective(a: Seq<char>, b: Seq<char>)
    requires
        encode_utf8(a) == encode_utf8(b),
    ensures
        a == b,
{
    encode_utf8_decode_utf8(a);
    encode_utf8_decode_utf8(b);
}

/// A longer prefix takes more bytes.
pub proof fn lemma_utf8_len_take_monotonic(text: Seq<char>, i: int, j: int)
    requires
        0 <= i < j <= text.len(),
    ensures
        utf8_len(text.take(i)) < utf8_len(text.take(j)),
        utf8_len(text.take(j)) - utf8_len(text.take(i)) >= j - i,
    decreases j - i,
{
    assert(text.take(j) =~= text.take(j - 1).push(text[j - 1]));
    lemma_encode_utf8_push(text.take(j - 1), text[j - 1]);
    if i < j - 1 {
        lemma_utf8_len_take_monotonic(text, i, j - 1);
    }
}

/// A text has at least as many bytes as characters.
pub proof fn lemma_utf8_len_lower(text: Seq<char>)
    ensures
        utf8_len(text) >= text.len(),
        text.len() == 0 ==> utf8_len(text) == 0,
{
    if text.len() > 0 {
        lemma_utf8_len_take_monotonic(text, 0, text.len() as int);
        assert(text.take(text.len() as int) =~= text);
        assert(text.take(0) =~= Seq::<char>::empty());
    }
}

pub proof fn lemma_utf16_len_push(text: Seq<char>, c: char)
    ensures
        utf16_len(text.push(c)) == utf16_len(text) + utf16_width(c),
{
    assert(text.push(c).drop_last() =~= text);
}

/// A longer prefix has more UTF-16 code units.
pub proof fn lemma_utf16_len_take_monotonic(text: Seq<char>, i: int, j: int)
    requires
        0 <= i < j <= text.len(),
    ensures
        utf16_len(text.take(i)) < utf16_len(text.take(j)),
    decreases j - i,
{
    assert(text.take(j) =~= text.take(j - 1).push(text[j - 1]));
    lemma_utf16_len_push(text.take(j - 1), text[j - 1]);
    if i < j - 1 {
        lemma_utf16_len_take_monotonic(text, i, j - 1);
    }
}

/// A text has no more UTF-16 code units than bytes.
pub proof fn lemma_utf16_len_upper(text: Seq<char>)
    ensures
        utf16_len(text) <= utf8_len(text),
    decreases text.len(),
{
    if text.len() > 0 {
        lemma_utf16_len_upper(text.drop_last());
        assert(text =~= text.drop_last().push(text.last()));
        lemma_encode_utf8_push(text.drop_last(), text.last());
    }
}

pub proof fn lemma_newline_count_push(text: Seq<char>, c: char)
    ensures
        newline_count(text.push(c)) == newline_count(text) + if c == '\n' {
            1nat
        } else {
            0nat
        },
{
    assert(text.push(c).drop_last() =~= text);
}

/// Where a line begins: its first character stands behind as many line feeds as its number says,
/// and directly behind the last of them.
pub proof fn lemma_line_begin(text: Seq<char>, line: nat)
    requires
        line < line_count(text),
    ensures
        0 <= line_begin(text, line) <= text.len(),
        newline_count(text.take(line_begin(text, line))) == line,
        line > 0 ==> line_begin(text, line) > 0 && text[line_begin(text, line) - 1] == '\n',
    decreases text.len(),
{
    if line == 0 {
        assert(text.take(0) =~= Seq::<char>::empty());
    } else if text.len() == 0 {
    } else if text.last() == '\n' && newline_count(text) == line {
        assert(text.take(text.len() as int) =~= text);
    } else {
        lemma_line_begin(text.drop_last(), line);
        let b = line_begin(text, line);
        assert(text.take(b) =~= text.drop_last().take(b));
        assert(text.drop_last()[b - 1] == text[b - 1]);
    }
}

/// Behind more characters there are at least as many line feeds.
pub proof fn lemma_newline_count_take_monotonic(text: Seq<char>, i: int, j: int)
    requires
        0 <= i <= j <= text.len(),
    ensures
        newline_count(text.take(i)) <= newline_count(text.take(j)),
    decreases j - i,
{
    if i < j {
        assert(text.take(j).drop_last() =~= text.take(j - 1));
        lemma_newline_count_take_monotonic(text, i, j - 1);
    }
}

/// Every index stands in the line that as many line feeds precede, between the line's begin and
/// its end.
pub proof fn lemma_index_in_line(text: Seq<char>, i: int)
    requires
        0 <= i <= text.len(),
    ensures
        newline_count(text.take(i)) < line_count(text),
        line_begin(text, newline_count(text.take(i))) <= i <= line_close(
            text,
            newline_count(text.take(i)),
        ),
        0 <= line_begin(text, newline_count(text.take(i))),
        line_close(text, newline_count(text.take(i))) <= text.len(),
{
    let line = newline_count(text.take(i));
    assert(text.take(text.len() as int) =~= text);
    lemma_newline_count_take_monotonic(text, i, text.len() as int);
    lemma_line_begin(text, line);
    let b = line_begin(text, line);
    if b > i {
        // The begin of a line other than the first stands directly behind a line feed.
        if line > 0 {
            assert(text.take(b).drop_last() =~= text.take(b - 1));
            assert(text.take(b).last() == text[b - 1]);
            lemma_newline_count_take_monotonic(text, i, b - 1);
        }
    }
    if line < newline_count(text) {
        lemma_line_begin(text, line + 1);
        let e = line_begin(text, line + 1);
        if e < i {
            lemma_newline_count_take_monotonic(text, e, i);
        }
    }
}

/// A line does not begin behind its end, and no line feed but its last character stands in it.
pub proof fn lemma_line_bounds(text: Seq<char>, line: nat)
    requires
        line < line_count(text),
    ensures
        0 <= line_begin(text, line) <= line_close(text, line) <= text.len(),
        forall|i: int|
            line_begin(text, line) <= i < line_close(text, line) ==> newline_count(
                #[trigger] text.take(i),
            ) == line,
{
    lemma_line_begin(text, line);
    let b = line_begin(text, line);
    lemma_index_in_line(text, b);
    let e = line_close(text, line);
    assert forall|i: int| b <= i < e implies newline_count(#[trigger] text.take(i)) == line by {
        lemma_newline_count_take_monotonic(text, b, i);
        assert(text.take(text.len() as int) =~= text);
        lemma_newline_count_take_monotonic(text, i, text.len() as int);
        if line < newline_count(text) {
            lemma_line_begin(text, line + 1);
            assert(text.take(e).drop_last() =~= text.take(e - 1));
            assert(text.take(e).last() == text[e - 1]);
            lemma_newline_count_take_monotonic(text, i, e - 1);
        }
    }
}

/// The bytes of a text are those of its characters before `i` and those of the others.
pub proof fn lemma_encode_utf8_split(text: Seq<char>, i: int)
    requires
        0 <= i <= text.len(),
    ensures
        encode_utf8(text) == encode_utf8(text.take(i)) + encode_utf8(text.skip(i)),
{
    assert(text =~= text.take(i) + text.skip(i));
    lemma_encode_utf8_concat(text.take(i), text.skip(i));
}

/// The gaps between characters are the character boundaries of the encoding.
pub proof fn lemma_index_is_boundary(text: Seq<char>, k: int)
    requires
        0 <= k <= text.len(),
    ensures
        is_char_boundary(encode_utf8(text), utf8_len(text.take(k)) as int),
        encode_utf8(text.take(k)) == encode_utf8(text).take(utf8_len(text.take(k)) as int),
        utf8_len(text.take(k)) <= utf8_len(text),
    decreases text.len(),
{
    let bytes = encode_utf8(text);
    encode_utf8_valid_utf8(text);
    lemma_encode_utf8_split(text, k);
    assert(encode_utf8(text.take(k)) =~= bytes.take(utf8_len(text.take(k)) as int));
    if k > 0 {
        encode_utf8_first_scalar(text);
        let rest = text.drop_first();
        assert(pop_first_scalar(bytes) =~= encode_utf8(rest));
        lemma_index_is_boundary(rest, k - 1);
        assert(text.take(k).drop_first() =~= rest.take(k - 1));
        assert(text.take(k)[0] == text[0]);
    } else {
        assert(text.take(0) =~= Seq::<char>::empty());
    }
}

/// Every character boundary of the encoding is a gap between characters.
pub proof fn lemma_boundary_is_index(text: Seq<char>, offset: int) -> (k: int)
    requires
        is_char_boundary(encode_utf8(text), offset),
    ensures
        0 <= k <= text.len(),
        utf8_len(text.take(k)) == offset,
        offset <= utf8_len(text),
    decreases text.len(),
{
    let bytes = encode_utf8(text);
    encode_utf8_valid_utf8(text);
    if offset == 0 {
        assert(text.take(0) =~= Seq::<char>::empty());
        0
    } else {
        assert(text.len() > 0);
        encode_utf8_first_scalar(text);
        let rest = text.drop_first();
        assert(pop_first_scalar(bytes) =~= encode_utf8(rest));
        let k = lemma_boundary_is_index(rest, offset - length_of_first_scalar(bytes));
        assert(text.take(k + 1).drop_first() =~= rest.take(k));
        assert(text.take(k + 1)[0] == text[0]);
        k + 1
    }
}

/// The notation of `n` in base ten, without leading zeros.
pub open spec fn decimal(n: nat) -> Seq<char>
    decreases n,
{
    if n < 10 {
        seq![decimal_digit(n)]
    } else {
        decimal(n / 10).push(decimal_digit(n % 10))
    }
}

/// The digit for a number below ten.
pub open spec fn decimal_digit(n: nat) -> char {
    (48 + n) as char
}

/// The value of a sequence of ASCII digits read in base ten.
pub open spec fn digits_value(digits: Seq<u8>) -> nat
    decreases digits.len(),
{
    if digits.len() == 0 {
        0
    } else {
        digits_value(digits.drop_last()) * 10 + (digits.last() - 48) as nat
    }
}

pub open spec fn is_digit(byte: u8) -> bool {
    48 <= byte <= 57
}

pub open spec fn all_digits(bytes: Seq<u8>) -> bool {
    forall|i: int| 0 <= i < bytes.len() ==> is_digit(#[trigger] bytes[i])
}

/// Decimal notation is ASCII, consists of digits, and reads back as the number it was made of.
pub proof fn lemma_decimal(n: nat)
    ensures
        decimal(n).len() >= 1,
        is_ascii_chars(decimal(n)),
        encode_utf8(decimal(n)).len() == decimal(n).len(),
        all_digits(encode_utf8(decimal(n))),
        digits_value(encode_utf8(decimal(n))) == n,
    decreases n,
{
    if n < 10 {
        is_ascii_chars_encode_utf8(decimal(n));
        let bytes = encode_utf8(decimal(n));
        assert(bytes.len() == 1);
        assert(decimal(n)[0] == decimal_digit(n));
        assert(bytes[0] == (48 + n) as u8);
        assert(bytes.drop_last() =~= Seq::<u8>::empty());
        reveal_with_fuel(digits_value, 2);
    } else {
        lemma_decimal(n / 10);
        let front = decimal(n / 10);
        let last = decimal_digit(n % 10);
        assert(is_ascii_chars(decimal(n)));
        is_ascii_chars_encode_utf8(front);
        is_ascii_chars_encode_utf8(decimal(n));
        let bytes = encode_utf8(decimal(n));
        assert(bytes.drop_last() =~= encode_utf8(front)) by {
            assert forall|i: int| 0 <= i < front.len() implies bytes[i] == encode_utf8(front)[i] by {
                assert(decimal(n)[i] == front[i]);
            }
        }
        assert(decimal(n)[decimal(n).len() - 1] == last);
        assert(bytes.last() == (48 + n % 10) as u8);
        assert forall|i: int| 0 <= i < bytes.len() implies is_digit(#[trigger] bytes[i]) by {
            if i < bytes.len() - 1 {
                assert(bytes[i] == bytes.drop_last()[i]);
            }
        }
    }
}

/// A prefix of digits has no larger value.
pub proof fn lemma_digits_value_prefix(digits: Seq<u8>, n: int)
    requires
        0 <= n <= digits.len(),
        all_digits(digits),
    ensures
        digits_value(digits.take(n)) <= digits_value(digits),
    decreases digits.len() - n,
{
    if n == digits.len() {
        assert(digits.take(n) =~= digits);
    } else {
        lemma_digits_value_prefix(digits, n + 1);
        assert(digits.take(n + 1).drop_last() =~= digits.take(n));
    }
}

/// Appends one character with `String::push`.
#[verifier::external_body]
pub(crate) fn push_char(text: &mut String, c: char)
    ensures
        final(text)@ == old(text)@.push(c),
{
    text.push(c)
}

/// Checks with `String::from_utf8` that bytes are UTF-8: `Some` exactly when they are, with the
/// text that they encode.
#[verifier::external_body]
pub(crate) fn string_from_utf8(bytes: Vec<u8>) -> (text: Option<String>)
    ensures
        text is Some <==> valid_utf8(bytes@),
        text matches Some(s) ==> s@ == decode_utf8(bytes@),
{
    String::from_utf8(bytes).ok()
}

/// The decimal notation of `n`.
pub fn decimal_string(n: u64) -> (text: String)
    ensures
        text@ == decimal(n as nat),
    decreases n,
{
    let digit: char = (48 + (n % 10) as u8) as char;
    if n < 10 {
        let mut text = String::new();
        push_char(&mut text, digit);
        assert(text@ =~= decimal(n as nat));
        text
    } else {
        let mut text = decimal_string(n / 10);
        push_char(&mut text, digit);
        text
    }
}

/// The characters of a text, one by one.
pub fn to_chars(text: &str) -> (chars: Vec<char>)
    ensures
        chars@ == text@,
{
    let mut chars: Vec<char> = Vec::new();
    for c in iter: text.chars()
        invariant
            iter.seq() == text@,
            chars@ =~= text@.take(iter.index()),
    {
        chars.push(c);
    }
    assert(text@.take(text@.len() as int) =~= text@);
    chars
}

/// The part of a text from byte `from` to byte `to`.
pub(crate) fn substring<'a>(text: &'a str, from: usize, to: usize) -> (part: &'a str)
    requires
        from <= to,
        is_char_boundary(encode_utf8(text@), from as int),
        is_char_boundary(encode_utf8(text@), to as int),
    ensures
        encode_utf8(part@) == encode_utf8(text@).subrange(from as int, to as int),
        forall|i: int, j: int|
            0 <= i <= j <= text@.len() && #[trigger] utf8_len(text@.take(i)) == from
                && #[trigger] utf8_len(text@.take(j)) == to ==> part@ == text@.subrange(i, j),
{
    let ghost bytes = encode_utf8(text@);
    let ghost i = lemma_boundary_is_index(text@, from as int);
    let ghost j = lemma_boundary_is_index(text@, to as int);
    let (front, _) = text.split_at(to);
    proof {
        if j < i {
            lemma_utf8_len_take_monotonic(text@, j, i);
        }
        lemma_index_is_boundary(text@, j);
        assert(encode_utf8(front@) =~= bytes.take(to as int));
        lemma_encode_utf8_injective(front@, text@.take(j));
        assert(front@.take(i) =~= text@.take(i));
        lemma_index_is_boundary(front@, i);
    }
    let (_, part) = front.split_at(from);
    proof {
        lemma_encode_utf8_split(front@, i);
        assert(front@.skip(i) =~= text@.subrange(i, j));
        assert(encode_utf8(part@) =~= bytes.subrange(from as int, to as int));
        assert(encode_utf8(part@) =~= encode_utf8(front@.skip(i)));
        lemma_encode_utf8_injective(part@, text@.subrange(i, j));
        assert forall|a: int, b: int|
            0 <= a <= b <= text@.len() && #[trigger] utf8_len(text@.take(a)) == from
                && #[trigger] utf8_len(text@.take(b)) == to implies part@ == text@.subrange(a, b) by {
            lemma_same_offset(text@, a, i);
            lemma_same_offset(text@, b, j);
        }
    }
    part
}

/// Prefixes with as many bytes are the same prefix.
pub proof fn lemma_same_offset(text: Seq<char>, i: int, j: int)
    requires
        0 <= i <= text.len(),
        0 <= j <= text.len(),
        utf8_len(text.take(i)) == utf8_len(text.take(j)),
    ensures
        i == j,
{
    if i < j {
        lemma_utf8_len_take_monotonic(text, i, j);
    } else if j < i {
        lemma_utf8_len_take_monotonic(text, j, i);
    }
}

/// The number of UTF-16 code units of a text, as far as it fits 64 bits.
pub fn utf16_count(text: &str) -> (count: u64)
    requires
        utf8_len(text@) <= u64::MAX,
    ensures
        count == utf16_len(text@),
{
    let chars = to_chars(text);
    let mut count: u64 = 0;
    let mut i: usize = 0;
    proof {
        lemma_utf16_len_upper(text@);
        assert(text@.take(0) =~= Seq::<char>::empty());
    }
    while i < chars.len()
        invariant
            chars@ == text@,
            i <= chars@.len(),
            count == utf16_len(text@.take(i as int)),
            utf16_len(text@) <= u64::MAX,
        decreases chars@.len() - i,
    {
        let c: char = chars[i];
        proof {
            assert(text@.take(i + 1) =~= text@.take(i as int).push(c));
            lemma_utf16_len_push(text@.take(i as int), c);
            assert(text@.take(text@.len() as int) =~= text@);
            if i + 1 < text@.len() {
                lemma_utf16_len_take_monotonic(text@, i + 1, text@.len() as int);
            }
        }
        count += if c as u32 >= 0x10000 {
            2
        } else {
            1
        };
        i += 1;
    }
    assert(text@.take(text@.len() as int) =~= text@);
    count
}

/// Whether two texts are the same.
pub fn same_text(a: &str, b: &str) -> (same: bool)
    ensures
        same == (a@ == b@),
{
    let left = a.as_bytes();
    let right = b.as_bytes();
    if left.len() != right.len() {
        return false;
    }
    let mut i: usize = 0;
    while i < left.len()
        invariant
            left@ == encode_utf8(a@),
            right@ == encode_utf8(b@),
            left@.len() == right@.len(),
            i <= left@.len(),
            left@.take(i as int) =~= right@.take(i as int),
        decreases left@.len() - i,
    {
        if left[i] != right[i] {
            return false;
        }
        assert(left@.take(i + 1) =~= left@.take(i as int).push(left@[i as int]));
        assert(right@.take(i + 1) =~= right@.take(i as int).push(right@[i as int]));
        i += 1;
    }
    proof {
        assert(left@.take(left@.len() as int) =~= left@);
        assert(right@.take(right@.len() as int) =~= right@);
        lemma_encode_utf8_injective(a@, b@);
    }
    true
}

} // verus!
