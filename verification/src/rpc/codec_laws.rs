//! What the codec promises of whole streams.

use vstd::prelude::*;
use vstd::utf8::{
    decode_utf8, encode_utf8, encode_utf8_decode_utf8, encode_utf8_valid_utf8, valid_utf8,
};

use crate::rpc::codec::{
    behind, digit_run, frame, frames, is_line_end, lemma_digit_run, lemma_digit_run_is,
    lemma_literals, length_header, progress, separator, state_rank, DecoderState, Progress,
};
use crate::text::{all_digits, decimal, digits_value, is_digit, lemma_decimal, utf8_len};

verus! {

/// What a whole stream amounts to.
pub struct DecodedStream {
    /// The bodies of its complete blocks, in order.
    pub bodies: Seq<Seq<u8>>,
    /// How far the decoder has come in the block behind them.
    pub state: DecoderState,
    /// The bytes of that block which the decoder has not removed.
    pub rest: Seq<u8>,
    /// Whether what follows the complete blocks is no block; then there is nothing to go on with.
    pub malformed: bool,
}

/// What a decoder in state `state` makes of `input` when it is called until no further message is
/// complete.
pub open spec fn decode_stream(state: DecoderState, input: Seq<u8>) -> DecodedStream
    decreases
            input.len(),
            if state == DecoderState::LineEnds {
                0nat
            } else {
                1nat
            },
{
    match progress(state, input) {
        Progress::Message { body, removed } => {
            proof {
                lemma_removed(state, input);
            }
            let rest = decode_stream(DecoderState::LineEnds, input.skip(removed as int));
            DecodedStream { bodies: seq![body] + rest.bodies, ..rest }
        },
        Progress::Partial { state: reached, removed } => DecodedStream {
            bodies: Seq::empty(),
            state: reached,
            rest: input.skip(removed as int),
            malformed: false,
        },
        Progress::Malformed => DecodedStream {
            bodies: Seq::empty(),
            state: DecoderState::LineEnds,
            rest: Seq::empty(),
            malformed: true,
        },
    }
}

/// No more bytes are removed than there are, and a block that is read from its start takes some.
pub proof fn lemma_removed(state: DecoderState, input: Seq<u8>)
    ensures
        progress(state, input) matches Progress::Message { body, removed } ==> {
            &&& removed <= input.len()
            &&& state == DecoderState::LineEnds ==> removed > 0
        },
        progress(state, input) matches Progress::Partial { state: reached, removed } ==> removed
            <= input.len(),
    decreases state_rank(state), input.len(),
{
    lemma_literals();
    match state {
        DecoderState::LineEnds => if is_line_end(input) {
            lemma_removed(state, input.skip(2));
        } else if input.len() >= 2 {
            lemma_removed(DecoderState::Header, input);
        },
        DecoderState::Header => if input.len() >= length_header().len() {
            lemma_removed(DecoderState::Length, input.skip(length_header().len() as int));
        },
        DecoderState::Length => {
            lemma_digit_run(input);
            let count = digit_run(input);
            let length = digits_value(input.take(count as int));
            if count < input.len() && count > 0 && length <= usize::MAX {
                lemma_removed(
                    DecoderState::Separator(length as usize),
                    input.skip(count as int),
                );
            }
        },
        DecoderState::Separator(length) => if input.len() >= separator().len() {
            lemma_removed(DecoderState::Body(length), input.skip(separator().len() as int));
        },
        DecoderState::Body(length) => {},
    }
}

/// What a decoder makes of `a` agrees with what it makes of `a` and `b` together: a message that is
/// complete in `a` is found whatever follows it, bytes that are no block stay so, and a decoder
/// that wants more than `a` goes on with `b` as if it had seen both together.
pub open spec fn resumes(state: DecoderState, a: Seq<u8>, b: Seq<u8>) -> bool {
    match progress(state, a) {
        Progress::Message { body, removed } => progress(state, a + b) == (Progress::Message {
            body,
            removed,
        }),
        Progress::Partial { state: reached, removed } => {
            &&& removed <= a.len()
            &&& progress(state, a + b) == behind(
                progress(reached, a.skip(removed as int) + b),
                removed,
            )
        },
        Progress::Malformed => progress(state, a + b) is Malformed,
    }
}

/// Law: it does not matter whether bytes arrive at once or one part after the other.
pub proof fn law_decoding_resumes(state: DecoderState, a: Seq<u8>, b: Seq<u8>)
    ensures
        resumes(state, a, b),
    decreases state_rank(state), a.len(),
{
    lemma_literals();
    let input = a + b;
    match state {
        DecoderState::LineEnds => if is_line_end(a) {
            assert(is_line_end(input));
            law_decoding_resumes(state, a.skip(2), b);
            lemma_part_resumes(state, state, a, b, 2);
        } else if a.len() >= 2 {
            assert(!is_line_end(input));
            law_decoding_resumes(DecoderState::Header, a, b);
        } else {
            lemma_waits(state, a, b);
        },
        DecoderState::Header => {
            let n = length_header().len() as int;
            if a.len() >= n {
                assert(input.take(n) =~= a.take(n));
                if a.take(n) == length_header() {
                    law_decoding_resumes(DecoderState::Length, a.skip(n), b);
                    lemma_part_resumes(state, DecoderState::Length, a, b, n);
                }
            } else {
                lemma_waits(state, a, b);
            }
        },
        DecoderState::Length => {
            lemma_digit_run(a);
            let count = digit_run(a) as int;
            let length = digits_value(a.take(count));
            if count < a.len() {
                assert(input.take(count) =~= a.take(count));
                lemma_digit_run_is(input, count);
                if count > 0 && length <= usize::MAX {
                    let next = DecoderState::Separator(length as usize);
                    law_decoding_resumes(next, a.skip(count), b);
                    lemma_part_resumes(state, next, a, b, count);
                }
            } else {
                lemma_waits(state, a, b);
            }
        },
        DecoderState::Separator(length) => {
            let n = separator().len() as int;
            if a.len() >= n {
                assert(input.take(n) =~= a.take(n));
                if a.take(n) == separator() {
                    law_decoding_resumes(DecoderState::Body(length), a.skip(n), b);
                    lemma_part_resumes(state, DecoderState::Body(length), a, b, n);
                }
            } else {
                lemma_waits(state, a, b);
            }
        },
        DecoderState::Body(length) => if a.len() >= length {
            assert(input.take(length as int) =~= a.take(length as int));
        } else {
            lemma_waits(state, a, b);
        },
    }
}

/// A decoder that took one part of `n` bytes resumes if it does so behind that part.
proof fn lemma_part_resumes(
    state: DecoderState,
    next: DecoderState,
    a: Seq<u8>,
    b: Seq<u8>,
    n: int,
)
    requires
        0 <= n <= a.len(),
        progress(state, a) == behind(progress(next, a.skip(n)), n as nat),
        progress(state, a + b) == behind(progress(next, (a + b).skip(n)), n as nat),
        resumes(next, a.skip(n), b),
    ensures
        resumes(state, a, b),
{
    assert((a + b).skip(n) =~= a.skip(n) + b);
    if let Progress::Partial { state: reached, removed } = progress(next, a.skip(n)) {
        assert(a.skip(n).skip(removed as int) =~= a.skip(removed + n));
    }
}

/// A decoder that took nothing resumes.
proof fn lemma_waits(state: DecoderState, a: Seq<u8>, b: Seq<u8>)
    requires
        progress(state, a) == (Progress::Partial { state, removed: 0 }),
    ensures
        resumes(state, a, b),
{
    assert(a.skip(0) + b =~= a + b);
}

/// Law: a stream that arrives in two parts gives the messages of the first part and then those
/// that the second part completes, the same as if it had arrived in one piece. Applied again and
/// again this covers any number of parts, wherever they are cut.
pub proof fn law_stream_in_parts(state: DecoderState, a: Seq<u8>, b: Seq<u8>)
    requires
        !decode_stream(state, a).malformed,
    ensures
        ({
            let first = decode_stream(state, a);
            let second = decode_stream(first.state, first.rest + b);
            decode_stream(state, a + b) == (DecodedStream {
                bodies: first.bodies + second.bodies,
                ..second
            })
        }),
    decreases
            a.len(),
            if state == DecoderState::LineEnds {
                0nat
            } else {
                1nat
            },
{
    law_decoding_resumes(state, a, b);
    lemma_removed(state, a);
    let first = decode_stream(state, a);
    let second = decode_stream(first.state, first.rest + b);
    match progress(state, a) {
        Progress::Message { body, removed } => {
            let n = removed as int;
            law_stream_in_parts(DecoderState::LineEnds, a.skip(n), b);
            assert((a + b).skip(n) =~= a.skip(n) + b);
            let inner = decode_stream(DecoderState::LineEnds, a.skip(n));
            assert((seq![body] + inner.bodies) + second.bodies =~= seq![body] + (inner.bodies
                + second.bodies));
        },
        Progress::Partial { state: reached, removed } => {
            let n = removed as int;
            let rest = a.skip(n) + b;
            assert(Seq::<Seq<u8>>::empty() + second.bodies =~= second.bodies);
            lemma_removed(reached, rest);
            match progress(reached, rest) {
                Progress::Message { body, removed: m } => {
                    assert((a + b).skip(m + n) =~= rest.skip(m as int));
                },
                Progress::Partial { state: last, removed: m } => {
                    assert((a + b).skip(m + n) =~= rest.skip(m as int));
                },
                Progress::Malformed => {},
            }
        },
        Progress::Malformed => {},
    }
}

/// Law: what was framed is decoded: the block of a message, whatever follows it, gives the
/// message back and takes exactly the bytes of the block.
pub proof fn law_frame_decodes(message: Seq<char>, rest: Seq<u8>)
    requires
        utf8_len(message) <= usize::MAX,
    ensures
        progress(DecoderState::LineEnds, frame(message) + rest) == (Progress::Message {
            body: encode_utf8(message),
            removed: frame(message).len(),
        }),
        valid_utf8(encode_utf8(message)),
        decode_utf8(encode_utf8(message)) == message,
{
    lemma_literals();
    encode_utf8_valid_utf8(message);
    encode_utf8_decode_utf8(message);
    let body = encode_utf8(message);
    let digits = encode_utf8(decimal(body.len()));
    lemma_decimal(body.len());
    lemma_block_decodes(Seq::empty(), digits, body, rest);
    assert(frame(message) =~= block(Seq::empty(), digits, body));
}

/// Law: a stream of framed messages decodes to exactly these messages, in order, with nothing left
/// over.
pub proof fn law_frames_decode(messages: Seq<Seq<char>>)
    requires
        forall|i: int| 0 <= i < messages.len() ==> utf8_len(#[trigger] messages[i]) <= usize::MAX,
    ensures
        decode_stream(DecoderState::LineEnds, frames(messages)) == (DecodedStream {
            bodies: messages.map_values(|message: Seq<char>| encode_utf8(message)),
            state: DecoderState::LineEnds,
            rest: Seq::empty(),
            malformed: false,
        }),
    decreases messages.len(),
{
    let bodies = messages.map_values(|message: Seq<char>| encode_utf8(message));
    let input = frames(messages);
    if messages.len() == 0 {
        assert(bodies =~= Seq::empty());
        assert(input.skip(0) =~= input);
    } else {
        let first = messages[0];
        let others = messages.drop_first();
        law_frame_decodes(first, frames(others));
        lemma_removed(DecoderState::LineEnds, input);
        assert(input.skip(frame(first).len() as int) =~= frames(others));
        assert forall|i: int| 0 <= i < others.len() implies utf8_len(#[trigger] others[i])
            <= usize::MAX by {
            assert(others[i] == messages[i + 1]);
        }
        law_frames_decode(others);
        assert(bodies =~= seq![encode_utf8(first)] + others.map_values(
            |message: Seq<char>| encode_utf8(message),
        ));
    }
}

/// `count` empty lines.
pub open spec fn line_ends(count: nat) -> Seq<u8>
    decreases count,
{
    if count == 0 {
        Seq::empty()
    } else {
        seq![13u8, 10u8] + line_ends((count - 1) as nat)
    }
}

/// The parts of a block, put together.
pub open spec fn block(lead: Seq<u8>, digits: Seq<u8>, body: Seq<u8>) -> Seq<u8> {
    lead + length_header() + digits + separator() + body
}

/// Whether `bytes` are a block with the body `body`: empty lines, the header name, digits that say
/// how long the body is, the separator, the body.
pub open spec fn is_block(bytes: Seq<u8>, body: Seq<u8>) -> bool {
    exists|lines: nat, digits: Seq<u8>| #[trigger]
        block(line_ends(lines), digits, body) == bytes && is_length(digits, body.len())
}

pub open spec fn is_length(digits: Seq<u8>, length: nat) -> bool {
    digits.len() > 0 && all_digits(digits) && digits_value(digits) == length && length
        <= usize::MAX
}

/// A block without empty lines in front decodes to its body.
proof fn lemma_block_decodes(lead: Seq<u8>, digits: Seq<u8>, body: Seq<u8>, rest: Seq<u8>)
    requires
        lead.len() == 0,
        is_length(digits, body.len()),
    ensures
        progress(DecoderState::LineEnds, block(lead, digits, body) + rest) == (Progress::Message {
            body,
            removed: block(lead, digits, body).len(),
        }),
{
    lemma_literals();
    let input = block(lead, digits, body) + rest;
    let h = length_header().len() as int;
    let d = digits.len() as int;
    let p = separator().len() as int;
    let length = body.len() as usize;
    assert(input[0] == length_header()[0]);
    assert(!is_line_end(input));
    assert(input.take(h) =~= length_header());
    let at_digits = input.skip(h);
    assert(at_digits =~= digits + separator() + body + rest);
    assert(at_digits.take(d) =~= digits);
    assert(at_digits[d] == separator()[0]);
    assert(!is_digit(separator()[0])) by {
        lemma_separator_head();
    }
    lemma_digit_run_is(at_digits, d);
    let at_separator = at_digits.skip(d);
    assert(at_separator =~= separator() + body + rest);
    assert(at_separator.take(p) =~= separator());
    let at_body = at_separator.skip(p);
    assert(at_body =~= body + rest);
    assert(at_body.take(length as int) =~= body);
    assert(progress(DecoderState::Body(length), at_body) == (Progress::Message {
        body,
        removed: length as nat,
    }));
    assert(progress(DecoderState::Separator(length), at_separator) == (Progress::Message {
        body,
        removed: (length + p) as nat,
    }));
    assert(progress(DecoderState::Length, at_digits) == (Progress::Message {
        body,
        removed: (length + p + d) as nat,
    }));
    assert(progress(DecoderState::Header, input) == (Progress::Message {
        body,
        removed: (length + p + d + h) as nat,
    }));
}

proof fn lemma_separator_head()
    ensures
        separator()[0] == 13,
{
    reveal_strlit("\r\n\r\n");
    vstd::utf8::is_ascii_chars_encode_utf8("\r\n\r\n"@);
    assert("\r\n\r\n"@[0] == '\r');
}

/// Law: exactly the blocks are decoded. A decoder at the start of a block finds a message with
/// the body `body` in `removed` bytes if and only if these bytes are a block with that body.
pub proof fn law_exactly_blocks_decode(input: Seq<u8>, body: Seq<u8>, removed: nat)
    requires
        removed <= input.len(),
    ensures
        progress(DecoderState::LineEnds, input) == (Progress::Message { body, removed })
            <==> is_block(input.take(removed as int), body),
{
    let bytes = input.take(removed as int);
    let rest = input.skip(removed as int);
    assert(input =~= bytes + rest);
    if is_block(bytes, body) {
        let (lines, digits) = choose|lines: nat, digits: Seq<u8>| #[trigger]
            block(line_ends(lines), digits, body) == bytes && is_length(digits, body.len());
        lemma_lines_and_block_decode(lines, digits, body, rest);
    }
    if progress(DecoderState::LineEnds, input) == (Progress::Message { body, removed }) {
        lemma_decoded_is_block(input);
    }
}

proof fn lemma_lines_and_block_decode(lines: nat, digits: Seq<u8>, body: Seq<u8>, rest: Seq<u8>)
    requires
        is_length(digits, body.len()),
    ensures
        progress(DecoderState::LineEnds, block(line_ends(lines), digits, body) + rest) == (
        Progress::Message { body, removed: block(line_ends(lines), digits, body).len() }),
    decreases lines,
{
    if lines == 0 {
        lemma_block_decodes(line_ends(0), digits, body, rest);
    } else {
        let fewer = (lines - 1) as nat;
        lemma_lines_and_block_decode(fewer, digits, body, rest);
        let input = block(line_ends(lines), digits, body) + rest;
        assert(input[0] == 13 && input[1] == 10) by {
            assert(line_ends(lines)[0] == 13 && line_ends(lines)[1] == 10);
        }
        assert(input.skip(2) =~= block(line_ends(fewer), digits, body) + rest);
    }
}

proof fn lemma_decoded_is_block(input: Seq<u8>)
    ensures
        progress(DecoderState::LineEnds, input) matches Progress::Message { body, removed }
            ==> removed <= input.len() && is_block(input.take(removed as int), body),
    decreases input.len(),
{
    lemma_literals();
    lemma_removed(DecoderState::LineEnds, input);
    if let Progress::Message { body, removed } = progress(DecoderState::LineEnds, input) {
        if is_line_end(input) {
            let rest = input.skip(2);
            lemma_decoded_is_block(rest);
            let bytes = rest.take(removed - 2);
            let (lines, digits) = choose|lines: nat, digits: Seq<u8>| #[trigger]
                block(line_ends(lines), digits, body) == bytes && is_length(digits, body.len());
            assert(seq![13u8, 10u8] + line_ends(lines) == line_ends(lines + 1));
            assert(block(line_ends(lines + 1), digits, body) =~= seq![13u8, 10u8] + bytes);
            assert(input.take(removed as int) =~= seq![13u8, 10u8] + bytes);
        } else {
            let h = length_header().len() as int;
            let at_digits = input.skip(h);
            lemma_digit_run(at_digits);
            let d = digit_run(at_digits) as int;
            let digits = at_digits.take(d);
            let at_separator = at_digits.skip(d);
            let p = separator().len() as int;
            let at_body = at_separator.skip(p);
            let length = digits_value(digits) as usize;
            assert(progress(DecoderState::Header, input) is Message);
            assert(progress(DecoderState::Length, at_digits) is Message);
            assert(progress(DecoderState::Separator(length), at_separator) is Message);
            assert(progress(DecoderState::Body(length), at_body) is Message);
            assert(body =~= at_body.take(body.len() as int));
            assert(block(line_ends(0), digits, body) =~= input.take(removed as int)) by {
                assert(input.take(h) == length_header());
                assert(at_separator.take(p) == separator());
                let all = block(line_ends(0), digits, body);
                assert(all.len() == removed);
                assert forall|i: int| 0 <= i < removed implies all[i] == input[i] by {
                    if i < h {
                        assert(input.take(h)[i] == input[i]);
                    } else if i < h + d {
                        assert(digits[i - h] == input[i]);
                    } else if i < h + d + p {
                        assert(at_separator.take(p)[i - h - d] == input[i]);
                    } else {
                        assert(at_body[i - h - d - p] == input[i]);
                    }
                }
            }
        }
    }
}

} // verus!
