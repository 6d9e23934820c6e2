//! What holds of lengths, lines and numbers, whatever the text.

use vstd::prelude::*;

use crate::text::{
    decimal, decimal_string, line_count, newline_count, same_text, to_chars, utf16_count, utf16_len,
};

verus! {

/// Law: two texts are the same exactly if they have the same characters at the same places.
pub proof fn law_same_text_has_the_same_characters(a: &str, b: &str, same: bool)
    requires
        call_ensures(same_text, (a, b), same),
    ensures
        same <==> a@.len() == b@.len() && forall|i: int|
            0 <= i < a@.len() ==> #[trigger] a@[i] == b@[i],
{
    if a@.len() == b@.len() && forall|i: int| 0 <= i < a@.len() ==> #[trigger] a@[i] == b@[i] {
        assert(a@ =~= b@);
    }
}

/// Law: the characters of a text, joined again, are that text.
pub proof fn law_characters_make_up_the_text(text: &str, chars: Vec<char>)
    requires
        call_ensures(to_chars, (text,), chars),
    ensures
        chars@.len() == text@.len(),
        forall|i: int| 0 <= i < chars@.len() ==> #[trigger] chars@[i] == text@[i],
{
}

/// Law: a text is as long in UTF-16 as its parts are together, and a character takes two code units
/// exactly if it stands outside the basic multilingual plane.
pub proof fn law_utf16_length_adds_up(a: Seq<char>, b: Seq<char>, c: char)
    ensures
        utf16_len(Seq::empty()) == 0,
        utf16_len(seq![c]) == (if c as u32 <= 0xffff {
            1nat
        } else {
            2nat
        }),
        utf16_len(a + b) == utf16_len(a) + utf16_len(b),
    decreases b.len(),
{
    reveal_with_fuel(utf16_len, 2);
    assert(seq![c].drop_last() =~= Seq::<char>::empty());
    if b.len() == 0 {
        assert(a + b =~= a);
    } else {
        assert((a + b).drop_last() =~= a + b.drop_last());
        law_utf16_length_adds_up(a, b.drop_last(), c);
    }
}

/// Law: the code units of a text are counted.
pub proof fn law_code_units_are_counted(text: &str, count: u64, a: Seq<char>, c: char, b: Seq<char>)
    requires
        call_ensures(utf16_count, (text,), count),
        text@ == a + seq![c] + b,
    ensures
        count == utf16_len(a) + (if c as u32 <= 0xffff {
            1int
        } else {
            2int
        }) + utf16_len(b),
{
    law_utf16_length_adds_up(a, seq![c], c);
    law_utf16_length_adds_up(a + seq![c], b, c);
}

/// Law: a text has as many line feeds as its parts have together.
pub proof fn law_line_feeds_add_up(a: Seq<char>, b: Seq<char>, c: char)
    ensures
        newline_count(Seq::empty()) == 0,
        newline_count(seq![c]) == (if c == '\n' {
            1nat
        } else {
            0nat
        }),
        newline_count(a + b) == newline_count(a) + newline_count(b),
    decreases b.len(),
{
    reveal_with_fuel(newline_count, 2);
    assert(seq![c].drop_last() =~= Seq::<char>::empty());
    if b.len() == 0 {
        assert(a + b =~= a);
    } else {
        assert((a + b).drop_last() =~= a + b.drop_last());
        law_line_feeds_add_up(a, b.drop_last(), c);
    }
}

/// Law: a line feed parts a text into the lines in front of it and those behind it. A text without
/// one is a single line.
pub proof fn law_line_feeds_part_lines(a: Seq<char>, b: Seq<char>)
    ensures
        line_count(a + seq!['\n'] + b) == line_count(a) + line_count(b),
        (forall|i: int| 0 <= i < a.len() ==> #[trigger] a[i] != '\n') ==> line_count(a) == 1,
{
    law_line_feeds_add_up(a, seq!['\n'], '\n');
    law_line_feeds_add_up(a + seq!['\n'], b, '\n');
    if forall|i: int| 0 <= i < a.len() ==> #[trigger] a[i] != '\n' {
        lemma_no_line_feeds(a);
    }
}

pub proof fn lemma_no_line_feeds(text: Seq<char>)
    requires
        forall|i: int| 0 <= i < text.len() ==> #[trigger] text[i] != '\n',
    ensures
        newline_count(text) == 0,
    decreases text.len(),
{
    if text.len() > 0 {
        assert(text.last() == text[text.len() - 1]);
        assert forall|i: int| 0 <= i < text.drop_last().len() implies
            #[trigger] text.drop_last()[i] != '\n' by {
            assert(text.drop_last()[i] == text[i]);
        }
        lemma_no_line_feeds(text.drop_last());
    }
}

/// Law: numbers are written in base ten: those below ten by a digit, and any other as what is in
/// front of its last digit, and that digit. There are no leading zeros.
pub proof fn law_numbers_are_decimal(n: nat, digit: nat)
    requires
        digit < 10,
    ensures
        decimal(digit) == seq!["0123456789"@[digit as int]],
        n > 0 ==> decimal(10 * n + digit) == decimal(n) + decimal(digit),
        n > 0 ==> decimal(n)[0] != '0',
    decreases n,
{
    reveal_strlit("0123456789");
    assert(decimal(digit) =~= seq!["0123456789"@[digit as int]]);
    if n > 0 {
        assert((10 * n + digit) / 10 == n && (10 * n + digit) % 10 == digit);
        assert(decimal(10 * n + digit) =~= decimal(n) + decimal(digit));
        if n >= 10 {
            law_numbers_are_decimal(n / 10, 0);
            crate::text::lemma_decimal(n / 10);
        }
    }
}

/// Law: the notation of a number reads as that number.
pub proof fn law_written_numbers_grow_by_digits(n: u64, front: String, all: String)
    requires
        n >= 10,
        call_ensures(decimal_string, ((n / 10) as u64,), front),
        call_ensures(decimal_string, (n,), all),
    ensures
        all@ == front@ + seq!["0123456789"@[(n % 10) as int]],
{
    law_numbers_are_decimal((n / 10) as nat, (n % 10) as nat);
}

} // verus!
