//! Length-prefixed message blocks.
//!
//! ```text
//! Content-Length: 18
//!
//! { "some": "data" }
//! ```
//!
//! [`write_message_str`] appends one block to a buffer; [`LanguageServerDecoder`] takes blocks
//! apart again, however the bytes are cut into pieces on their way.

use vstd::prelude::*;
use vstd::utf8::{decode_utf8, encode_utf8, is_ascii_chars_encode_utf8, valid_utf8};

use crate::text::{
    all_digits, decimal, decimal_string, digits_value, is_digit, lemma_digits_value_prefix,
    string_from_utf8, utf8_len,
};

verus! {

/// The header name that opens a block.
pub open spec fn length_header() -> Seq<u8> {
    encode_utf8("Content-Length: "@)
}

/// What parts the header from the body.
pub open spec fn separator() -> Seq<u8> {
    encode_utf8("\r\n\r\n"@)
}

pub open spec fn is_line_end(input: Seq<u8>) -> bool {
    input.len() >= 2 && input[0] == 13 && input[1] == 10
}

/// The bytes of one message on the wire.
pub open spec fn frame(message: Seq<char>) -> Seq<u8> {
    length_header() + encode_utf8(decimal(utf8_len(message))) + separator() + encode_utf8(message)
}

/// The messages of a stream, framed one behind the other.
pub open spec fn frames(messages: Seq<Seq<char>>) -> Seq<u8>
    decreases messages.len(),
{
    if messages.len() == 0 {
        Seq::empty()
    } else {
        frame(messages[0]) + frames(messages.drop_first())
    }
}

/// How far a decoder has come in the current block.
#[derive(Clone, Copy, Debug, PartialEq, Eq, Structural)]
pub enum DecoderState {
    /// Before the header, where empty lines are skipped.
    LineEnds,
    /// At the header name.
    Header,
    /// At the digits of the length.
    Length,
    /// Behind the digits, with the length that they gave.
    Separator(usize),
    /// At the body, whose length is known.
    Body(usize),
}

/// What the bytes at hand amount to.
pub enum Progress {
    /// A whole block: its body, and how many bytes it took.
    Message { body: Seq<u8>, removed: nat },
    /// The block goes on beyond the bytes at hand; `removed` of them are done with.
    Partial { state: DecoderState, removed: nat },
    /// No block reads like this.
    Malformed,
}

/// The same progress, made behind `count` bytes more.
pub open spec fn behind(progress: Progress, count: nat) -> Progress {
    match progress {
        Progress::Message { body, removed } => Progress::Message { body, removed: removed + count },
        Progress::Partial { state, removed } => Progress::Partial {
            state,
            removed: removed + count,
        },
        Progress::Malformed => Progress::Malformed,
    }
}

/// The number of digits that `input` starts with.
pub open spec fn digit_run(input: Seq<u8>) -> nat
    decreases input.len(),
{
    if input.len() == 0 || !is_digit(input[0]) {
        0
    } else {
        1 + digit_run(input.drop_first())
    }
}

/// What a decoder in state `state` makes of `input`: first any number of empty lines, then the
/// header name, the digits of the length, the separator and as many bytes as the length says.
/// A part is taken only once all of it is there.
pub open spec fn progress(state: DecoderState, input: Seq<u8>) -> Progress
    decreases state_rank(state), input.len(),
{
    match state {
        DecoderState::LineEnds => if is_line_end(input) {
            behind(progress(DecoderState::LineEnds, input.skip(2)), 2)
        } else if input.len() < 2 {
            Progress::Partial { state, removed: 0 }
        } else {
            progress(DecoderState::Header, input)
        },
        DecoderState::Header => if input.len() < length_header().len() {
            Progress::Partial { state, removed: 0 }
        } else if input.take(length_header().len() as int) == length_header() {
            behind(
                progress(DecoderState::Length, input.skip(length_header().len() as int)),
                length_header().len(),
            )
        } else {
            Progress::Malformed
        },
        DecoderState::Length => {
            let count = digit_run(input);
            let length = digits_value(input.take(count as int));
            if count == input.len() {
                Progress::Partial { state, removed: 0 }
            } else if count == 0 || length > usize::MAX {
                Progress::Malformed
            } else {
                behind(
                    progress(DecoderState::Separator(length as usize), input.skip(count as int)),
                    count,
                )
            }
        },
        DecoderState::Separator(length) => if input.len() < separator().len() {
            Progress::Partial { state, removed: 0 }
        } else if input.take(separator().len() as int) == separator() {
            behind(
                progress(DecoderState::Body(length), input.skip(separator().len() as int)),
                separator().len(),
            )
        } else {
            Progress::Malformed
        },
        DecoderState::Body(length) => if input.len() < length {
            Progress::Partial { state, removed: 0 }
        } else {
            Progress::Message { body: input.take(length as int), removed: length as nat }
        },
    }
}

pub open spec fn state_rank(state: DecoderState) -> nat {
    match state {
        DecoderState::LineEnds => 4,
        DecoderState::Header => 3,
        DecoderState::Length => 2,
        DecoderState::Separator(_) => 1,
        DecoderState::Body(_) => 0,
    }
}

/// Why a stream cannot be decoded further.
#[derive(Debug)]
pub enum DecodeError {
    /// The bytes are no block.
    Malformed,
    /// A block of `removed` bytes is there, but its body is not UTF-8.
    InvalidUtf8 { removed: usize },
}

/// Takes a stream of blocks apart.
pub struct LanguageServerDecoder {
    state: DecoderState,
}

impl View for LanguageServerDecoder {
    type V = DecoderState;

    closed spec fn view(&self) -> DecoderState {
        self.state
    }
}

pub(crate) proof fn lemma_literals()
    ensures
        length_header().len() == 16,
        separator().len() == 4,
        length_header()[0] == 67,
{
    reveal_strlit("Content-Length: ");
    reveal_strlit("\r\n\r\n");
    is_ascii_chars_encode_utf8("Content-Length: "@);
    is_ascii_chars_encode_utf8("\r\n\r\n"@);
    assert("Content-Length: "@[0] == 'C');
}

pub(crate) proof fn lemma_digit_run(input: Seq<u8>)
    ensures
        digit_run(input) <= input.len(),
        all_digits(input.take(digit_run(input) as int)),
        digit_run(input) < input.len() ==> !is_digit(input[digit_run(input) as int]),
    decreases input.len(),
{
    if input.len() == 0 || !is_digit(input[0]) {
    } else {
        let rest = input.drop_first();
        lemma_digit_run(rest);
        let digits = input.take(digit_run(input) as int);
        assert forall|i: int| 0 <= i < digits.len() implies is_digit(#[trigger] digits[i]) by {
            if i > 0 {
                assert(digits[i] == rest.take(digit_run(rest) as int)[i - 1]);
            }
        }
    }
}

/// The digits end where the first other byte stands.
pub(crate) proof fn lemma_digit_run_is(input: Seq<u8>, count: int)
    requires
        0 <= count <= input.len(),
        all_digits(input.take(count)),
        count < input.len() ==> !is_digit(input[count]),
    ensures
        digit_run(input) == count,
{
    lemma_digit_run(input);
    let run = digit_run(input) as int;
    if run < count {
        assert(is_digit(input.take(count)[run]));
    } else if count < run {
        assert(is_digit(input.take(run)[count]));
    }
}

/// Whether `expected` stands in `src` at `from`.
fn stands_at(src: &[u8], from: usize, expected: &[u8]) -> (found: bool)
    requires
        from + expected@.len() <= src@.len(),
    ensures
        found == (src@.subrange(from as int, from + expected@.len()) == expected@),
{
    let end: usize = src.len();
    let mut i: usize = 0;
    while i < expected.len()
        invariant
            end == src@.len(),
            from + expected@.len() <= end,
            i <= expected@.len(),
            forall|j: int| 0 <= j < i ==> src@[from + j] == expected@[j],
        decreases expected@.len() - i,
    {
        if src[from + i] != expected[i] {
            assert(src@.subrange(from as int, from + expected@.len())[i as int] != expected@[i as int]);
            return false;
        }
        i += 1;
    }
    assert(src@.subrange(from as int, from + expected@.len()) =~= expected@);
    true
}

/// The number of digits in `src` from `from` on.
fn count_digits(src: &[u8], from: usize) -> (count: usize)
    requires
        from <= src@.len(),
    ensures
        count == digit_run(src@.skip(from as int)),
{
    let mut count: usize = 0;
    let ghost input = src@.skip(from as int);
    let end: usize = src.len();
    while from + count < end && 48 <= src[from + count] && src[from + count] <= 57
        invariant
            end == src@.len(),
            from + count <= end,
            input == src@.skip(from as int),
            all_digits(input.take(count as int)),
        decreases src@.len() - from - count,
    {
        proof {
            let digits = input.take(count + 1);
            assert forall|i: int| 0 <= i < digits.len() implies is_digit(#[trigger] digits[i]) by {
                if i < count {
                    assert(digits[i] == input.take(count as int)[i]);
                } else {
                    assert(digits[i] == src@[from + count]);
                }
            }
        }
        count += 1;
    }
    proof {
        lemma_digit_run_is(input, count as int);
    }
    count
}

/// Reads a number that `count` digits give, or `None` where it does not fit.
fn read_digits(src: &[u8], from: usize, count: usize) -> (value: Option<usize>)
    requires
        from + count <= src@.len(),
        all_digits(src@.subrange(from as int, from + count)),
    ensures
        match value {
            Some(n) => n == digits_value(src@.subrange(from as int, from + count)),
            None => digits_value(src@.subrange(from as int, from + count)) > usize::MAX,
        },
{
    let ghost digits = src@.subrange(from as int, from + count);
    let mut value: usize = 0;
    let mut i: usize = 0;
    let end: usize = src.len();
    assert(digits.take(0) =~= Seq::<u8>::empty());
    while i < count
        invariant
            i <= count,
            end == src@.len(),
            from + count <= end,
            digits == src@.subrange(from as int, from + count),
            all_digits(digits),
            value == digits_value(digits.take(i as int)),
        decreases count - i,
    {
        let byte: u8 = src[from + i];
        assert(digits[i as int] == byte);
        let digit: usize = (byte - 48) as usize;
        proof {
            assert(digits.take(i + 1).drop_last() =~= digits.take(i as int));
            assert(digits.take(i + 1).last() == byte);
            assert(digits_value(digits.take(i + 1)) == value * 10 + digit);
            lemma_digits_value_prefix(digits, i + 1);
        }
        if value > (usize::MAX - digit) / 10 {
            return None;
        }
        value = value * 10 + digit;
        i += 1;
    }
    assert(digits.take(count as int) =~= digits);
    Some(value)
}

/// Copies `count` bytes of `src` from `from` on.
fn copy_bytes(src: &[u8], from: usize, count: usize) -> (bytes: Vec<u8>)
    requires
        from + count <= src@.len(),
    ensures
        bytes@ == src@.subrange(from as int, from + count),
{
    let mut bytes: Vec<u8> = Vec::with_capacity(count);
    let mut i: usize = 0;
    let end: usize = src.len();
    while i < count
        invariant
            i <= count,
            end == src@.len(),
            from + count <= end,
            bytes@ =~= src@.subrange(from as int, from + i),
        decreases count - i,
    {
        bytes.push(src[from + i]);
        i += 1;
    }
    bytes
}

impl LanguageServerDecoder {
    pub fn new() -> (decoder: LanguageServerDecoder)
        ensures
            decoder@ == DecoderState::LineEnds,
    {
        LanguageServerDecoder { state: DecoderState::LineEnds }
    }

    /// Goes on decoding with the bytes of `src`, those that earlier calls did not remove and
    /// whatever has arrived since.
    ///
    /// `Ok` says which message is complete, if one is, and how many bytes of `src` are done with
    /// and have to be removed before the next call.
    pub fn decode(&mut self, src: &[u8]) -> (decoded: Result<(Option<String>, usize), DecodeError>)
        ensures
            match progress(old(self)@, src@) {
                Progress::Message { body, removed } => {
                    &&& final(self)@ == DecoderState::LineEnds
                    &&& valid_utf8(body) ==> (decoded matches Ok((Some(message), n)) && n == removed
                        && message@ == decode_utf8(body))
                    &&& !valid_utf8(body) ==> (decoded matches Err(
                        DecodeError::InvalidUtf8 { removed: n },
                    ) && n == removed)
                },
                Progress::Partial { state, removed } => {
                    &&& final(self)@ == state
                    &&& decoded matches Ok((None, n))
                    &&& n == removed
                },
                Progress::Malformed => {
                    &&& final(self)@ == old(self)@
                    &&& decoded matches Err(DecodeError::Malformed)
                },
            },
    {
        let ghost start = self.state;
        let mut state = self.state;
        let mut removed: usize = 0;
        assert(src@.skip(0) =~= src@);
        loop
            invariant
                self.state == start,
                start == old(self)@,
                removed <= src@.len(),
                progress(start, src@) == behind(
                    progress(state, src@.skip(removed as int)),
                    removed as nat,
                ),
            decreases state_rank(state), src@.len() - removed,
        {
            let ghost input = src@.skip(removed as int);
            let at_hand: usize = src.len() - removed;
            proof {
                lemma_literals();
                lemma_digit_run(input);
            }
            match state {
                DecoderState::LineEnds => {
                    if at_hand >= 2 && src[removed] == 13 && src[removed + 1] == 10 {
                        assert(input[0] == src@[removed as int]);
                        assert(input[1] == src@[removed + 1]);
                        assert(input.skip(2) =~= src@.skip(removed + 2));
                        removed += 2;
                    } else if at_hand < 2 {
                        self.state = state;
                        return Ok((None, removed));
                    } else {
                        state = DecoderState::Header;
                    }
                },
                DecoderState::Header => {
                    let expected = "Content-Length: ".as_bytes();
                    if at_hand < expected.len() {
                        self.state = state;
                        return Ok((None, removed));
                    }
                    assert(input.take(expected@.len() as int) =~= src@.subrange(
                        removed as int,
                        removed + expected@.len(),
                    ));
                    if !stands_at(src, removed, expected) {
                        return Err(DecodeError::Malformed);
                    }
                    assert(input.skip(expected@.len() as int) =~= src@.skip(
                        removed + expected@.len(),
                    ));
                    removed += expected.len();
                    state = DecoderState::Length;
                },
                DecoderState::Length => {
                    let count = count_digits(src, removed);
                    if count == at_hand {
                        self.state = state;
                        return Ok((None, removed));
                    }
                    if count == 0 {
                        return Err(DecodeError::Malformed);
                    }
                    assert(input.take(count as int) =~= src@.subrange(
                        removed as int,
                        removed + count,
                    ));
                    match read_digits(src, removed, count) {
                        None => {
                            return Err(DecodeError::Malformed);
                        },
                        Some(length) => {
                            assert(input.skip(count as int) =~= src@.skip(removed + count));
                            removed += count;
                            state = DecoderState::Separator(length);
                        },
                    }
                },
                DecoderState::Separator(length) => {
                    let expected = "\r\n\r\n".as_bytes();
                    if at_hand < expected.len() {
                        self.state = state;
                        return Ok((None, removed));
                    }
                    assert(input.take(expected@.len() as int) =~= src@.subrange(
                        removed as int,
                        removed + expected@.len(),
                    ));
                    if !stands_at(src, removed, expected) {
                        return Err(DecodeError::Malformed);
                    }
                    assert(input.skip(expected@.len() as int) =~= src@.skip(
                        removed + expected@.len(),
                    ));
                    removed += expected.len();
                    state = DecoderState::Body(length);
                },
                DecoderState::Body(length) => {
                    if at_hand < length {
                        self.state = state;
                        return Ok((None, removed));
                    }
                    let body = copy_bytes(src, removed, length);
                    assert(body@ =~= input.take(length as int));
                    removed += length;
                    self.state = DecoderState::LineEnds;
                    return match string_from_utf8(body) {
                        Some(message) => Ok((Some(message), removed)),
                        None => Err(DecodeError::InvalidUtf8 { removed }),
                    };
                },
            }
        }
    }
}

/// Appends the block of `response` to `output`.
pub fn write_message_str(output: &mut Vec<u8>, response: &str)
    ensures
        final(output)@ == old(output)@ + frame(response@),
{
    let body = response.as_bytes();
    let length = decimal_string(body.len() as u64);
    output.extend_from_slice("Content-Length: ".as_bytes());
    output.extend_from_slice(length.as_str().as_bytes());
    output.extend_from_slice("\r\n\r\n".as_bytes());
    output.extend_from_slice(body);
    assert(output@ =~= old(output)@ + frame(response@));
}

/// Frames the messages that a server sends.
#[derive(Debug)]
pub struct LanguageServerEncoder;

impl LanguageServerEncoder {
    /// Appends the block of `item` to `dst`.
    pub fn encode(&mut self, item: String, dst: &mut Vec<u8>)
        ensures
            final(dst)@ == old(dst)@ + frame(item@),
    {
        write_message_str(dst, item.as_str());
    }
}

} // verus!
