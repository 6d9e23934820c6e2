//! What the two ends of a connection can rely on.

use vstd::prelude::*;
use vstd::std_specs::cmp::PartialEqSpec;
use vstd::utf8::{encode_utf8, valid_utf8};

use crate::rpc::codec::{
    frame, lemma_digit_run_is, lemma_literals, length_header, progress, write_message_str,
    DecodeError, DecoderState, LanguageServerDecoder, LanguageServerEncoder, Progress,
};
use crate::rpc::codec_laws::{
    is_block, law_decoding_resumes, law_exactly_blocks_decode, law_frame_decodes, lemma_removed,
};
use crate::rpc::queue::{
    comparable, has_key, is_older, lemma_key_index, one_per_key, unique_queue, with_items, Entry,
    Polled, Received, UniqueStream,
};
use crate::rpc::queue_laws::{holds_newest, law_queue_holds_the_newest_items, well_ordered};
use crate::rpc::request::{
    answer, invalid_params, notification_message, notification_params, params_value, ErrorCode,
    Params, ParamsValue, RpcError,
};
use crate::rpc::ServerError;
use crate::server::{response, ExitSignal};
use crate::text::{decimal_string, digits_value};

verus! {

/// Law: a message is written as a header that says how many bytes it has, an empty line, and its
/// bytes, behind what was written before.
pub proof fn law_messages_are_framed(
    output: &mut Vec<u8>,
    message: &str,
    count: u64,
    length: String,
    encoder: &mut LanguageServerEncoder,
    item: String,
    dst: &mut Vec<u8>,
)
    requires
        call_ensures(write_message_str, (output, message), ()),
        count == encode_utf8(message@).len(),
        call_ensures(decimal_string, (count,), length),
        call_ensures(LanguageServerEncoder::encode, (encoder, item, dst), ()),
        item@ == message@,
    ensures
        final(output)@ == old(output)@ + encode_utf8("Content-Length: "@) + encode_utf8(length@)
            + encode_utf8("\r\n\r\n"@) + encode_utf8(message@),
        final(dst)@ == old(dst)@ + encode_utf8("Content-Length: "@) + encode_utf8(length@)
            + encode_utf8("\r\n\r\n"@) + encode_utf8(message@),
{
    assert(final(output)@ =~= old(output)@ + encode_utf8("Content-Length: "@) + encode_utf8(
        length@,
    ) + encode_utf8("\r\n\r\n"@) + encode_utf8(message@));
    assert(final(dst)@ =~= old(dst)@ + encode_utf8("Content-Length: "@) + encode_utf8(length@)
        + encode_utf8("\r\n\r\n"@) + encode_utf8(message@));
}

/// Law: what was written is read: a decoder at the start of a message that was written gives it
/// back, whatever follows it, and is done with exactly its bytes.
pub proof fn law_messages_come_back(
    output: &mut Vec<u8>,
    message: &str,
    rest: Seq<u8>,
    fresh: LanguageServerDecoder,
    decoder: &mut LanguageServerDecoder,
    src: &[u8],
    decoded: Result<(Option<String>, usize), DecodeError>,
)
    requires
        encode_utf8(message@).len() <= usize::MAX,
        call_ensures(write_message_str, (output, message), ()),
        old(output)@.len() == 0,
        call_ensures(LanguageServerDecoder::new, (), fresh),
        old(decoder)@ == fresh@,
        src@ == final(output)@ + rest,
        call_ensures(LanguageServerDecoder::decode, (decoder, src), decoded),
    ensures
        decoded is Ok,
        decoded->Ok_0.0 is Some,
        decoded->Ok_0.0.unwrap()@ == message@,
        decoded->Ok_0.1 == final(output)@.len(),
        final(decoder)@ == fresh@,
{
    assert(final(output)@ =~= frame(message@));
    law_frame_decodes(message@, rest);
}

/// Law: it does not matter how a stream is cut into pieces. A decoder that finds no message in the
/// first piece finds in what is left of it and the second piece what it finds in both at once.
pub proof fn law_pieces_do_not_matter(
    at_once: &mut LanguageServerDecoder,
    both: &[u8],
    whole: Result<(Option<String>, usize), DecodeError>,
    first: &mut LanguageServerDecoder,
    front: &[u8],
    removed: usize,
    second: &mut LanguageServerDecoder,
    left: &[u8],
    end: Result<(Option<String>, usize), DecodeError>,
    back: Seq<u8>,
)
    requires
        call_ensures(LanguageServerDecoder::decode, (at_once, both), whole),
        old(first)@ == old(at_once)@,
        call_ensures(
            LanguageServerDecoder::decode,
            (first, front),
            Ok::<(Option<String>, usize), DecodeError>((None::<String>, removed)),
        ),
        both@ == front@ + back,
        old(second)@ == final(first)@,
        left@ == front@.skip(removed as int) + back,
        call_ensures(LanguageServerDecoder::decode, (second, left), end),
    ensures
        whole is Ok <==> end is Ok,
        whole matches Ok((message, n)) ==> {
            &&& n == end->Ok_0.1 + removed
            &&& message is Some <==> end->Ok_0.0 is Some
            &&& message matches Some(text) ==> text@ == end->Ok_0.0.unwrap()@
            &&& final(at_once)@ == final(second)@
        },
{
    law_decoding_resumes(old(at_once)@, front@, back);
}

/// Law: a message that is complete is found whatever follows it.
pub proof fn law_complete_messages_are_found(
    alone: &mut LanguageServerDecoder,
    front: &[u8],
    message: String,
    removed: usize,
    decoder: &mut LanguageServerDecoder,
    both: &[u8],
    back: Seq<u8>,
    decoded: Result<(Option<String>, usize), DecodeError>,
)
    requires
        call_ensures(
            LanguageServerDecoder::decode,
            (alone, front),
            Ok::<(Option<String>, usize), DecodeError>((Some(message), removed)),
        ),
        old(decoder)@ == old(alone)@,
        both@ == front@ + back,
        call_ensures(LanguageServerDecoder::decode, (decoder, both), decoded),
    ensures
        decoded is Ok,
        decoded->Ok_0.0 is Some,
        decoded->Ok_0.0.unwrap()@ == message@,
        decoded->Ok_0.1 == removed,
{
    law_decoding_resumes(old(alone)@, front@, back);
}

/// Law: exactly the blocks with a body in UTF-8 are messages, and the body is the message. A block
/// with any other body is refused, and so is nothing that could still become a block.
pub proof fn law_exactly_blocks_are_messages(
    fresh: LanguageServerDecoder,
    decoder: &mut LanguageServerDecoder,
    src: &[u8],
    decoded: Result<(Option<String>, usize), DecodeError>,
    body: Seq<u8>,
    more: Seq<u8>,
    removed: usize,
)
    requires
        call_ensures(LanguageServerDecoder::new, (), fresh),
        old(decoder)@ == fresh@,
        call_ensures(LanguageServerDecoder::decode, (decoder, src), decoded),
    ensures
        decoded matches Ok((Some(message), n)) ==> n <= src@.len() && is_block(
            src@.take(n as int),
            encode_utf8(message@),
        ),
        removed <= src@.len() && is_block(src@.take(removed as int), body) && valid_utf8(body) ==> {
            &&& decoded is Ok
            &&& decoded->Ok_0.0 is Some
            &&& encode_utf8(decoded->Ok_0.0.unwrap()@) == body
            &&& decoded->Ok_0.1 == removed
        },
        removed <= src@.len() && is_block(src@.take(removed as int), body) && !valid_utf8(body)
            ==> decoded is Err && decoded->Err_0 is InvalidUtf8 && decoded->Err_0->removed
            == removed,
        is_block(src@ + more, body) ==> !(decoded matches Err(DecodeError::Malformed)),
{
    let state = DecoderState::LineEnds;
    lemma_removed(state, src@);
    if let Progress::Message { body: found, removed: n } = progress(state, src@) {
        law_exactly_blocks_decode(src@, found, n);
        if valid_utf8(found) {
            vstd::utf8::decode_utf8_encode_utf8(found);
        }
    }
    if removed <= src@.len() && is_block(src@.take(removed as int), body) {
        law_exactly_blocks_decode(src@, body, removed as nat);
        if valid_utf8(body) {
            vstd::utf8::decode_utf8_encode_utf8(body);
        }
    }
    if is_block(src@ + more, body) {
        let all = src@ + more;
        assert(all.take(all.len() as int) =~= all);
        law_exactly_blocks_decode(all, body, all.len());
        law_decoding_resumes(state, src@, more);
    }
}

/// Law: what is no block is refused as soon as that can be seen: where there is no header, no number
/// in it, or no empty line behind it.
pub proof fn law_what_is_no_block_is_refused(
    fresh: LanguageServerDecoder,
    decoder: &mut LanguageServerDecoder,
    src: &[u8],
    decoded: Result<(Option<String>, usize), DecodeError>,
    digits: Seq<u8>,
    rest: Seq<u8>,
)
    requires
        call_ensures(LanguageServerDecoder::new, (), fresh),
        old(decoder)@ == fresh@,
        call_ensures(LanguageServerDecoder::decode, (decoder, src), decoded),
        ({
            let header = encode_utf8("Content-Length: "@);
            ||| {
                &&& src@.len() >= header.len()
                &&& !(src@[0] == 13 && src@[1] == 10)
                &&& !header.is_prefix_of(src@)
            }
            ||| {
                &&& src@ == header + rest
                &&& rest.len() > 0
                &&& !(48 <= rest[0] <= 57)
            }
            ||| {
                &&& src@ == header + digits + rest
                &&& digits.len() > 0
                &&& forall|i: int| 0 <= i < digits.len() ==> 48 <= #[trigger] digits[i] <= 57
                &&& rest.len() >= 4
                &&& !(48 <= rest[0] <= 57)
                &&& !encode_utf8("\r\n\r\n"@).is_prefix_of(rest)
            }
        }),
    ensures
        decoded matches Err(DecodeError::Malformed),
        final(decoder)@ == fresh@,
{
    lemma_literals();
    let header = length_header();
    let h = header.len() as int;
    let input = src@;
    if input.len() >= h && !(input[0] == 13 && input[1] == 10) && !header.is_prefix_of(input) {
        assert(input.take(h) =~= input.subrange(0, h));
    } else if input == header + rest && rest.len() > 0 && !(48 <= rest[0] <= 57) {
        assert(input[0] == header[0]);
        assert(input.take(h) =~= header);
        assert(input.skip(h) =~= rest);
        assert(rest.take(0) =~= Seq::<u8>::empty());
        lemma_digit_run_is(rest, 0);
        assert(progress(DecoderState::Length, rest) is Malformed);
        assert(progress(DecoderState::Header, input) is Malformed);
    } else {
        assert(input[0] == header[0]);
        assert(input.take(h) =~= header);
        let at_digits = input.skip(h);
        assert(at_digits =~= digits + rest);
        let d = digits.len() as int;
        assert(at_digits.take(d) =~= digits);
        lemma_digit_run_is(at_digits, d);
        let at_rest = at_digits.skip(d);
        assert(at_rest =~= rest);
        assert(rest.take(4) =~= rest.subrange(0, 4));
        let length = digits_value(digits);
        if length <= usize::MAX {
            assert(progress(DecoderState::Separator(length as usize), rest) is Malformed);
        }
        assert(progress(DecoderState::Length, at_digits) is Malformed);
        assert(progress(DecoderState::Header, input) is Malformed);
    }
}

/// Law: parameters are taken as they are, and a notification is carried out only with named ones.
pub proof fn law_parameters_are_passed_on<M, A>(
    params: Params<M, A>,
    value: ParamsValue<M, A>,
    map: Option<M>,
    m: M,
    a: A,
)
    requires
        call_ensures(params_value::<M, A>, (params,), value),
        call_ensures(notification_params::<M, A>, (params,), map),
    ensures
        params == Params::<M, A>::Named(m) ==> value == ParamsValue::<M, A>::Object(m) && map
            == Some(m),
        params == Params::<M, A>::Listed(a) ==> value == ParamsValue::<M, A>::Array(a)
            && map is None,
        params is Missing ==> value is Null && map is None,
{
}

/// Law: a request that was carried out is answered with its result, and one that failed with what
/// is to be said of it, as an internal error. One whose parameters cannot be read is told why.
pub proof fn law_requests_are_answered<T, D>(
    executed: Result<T, ServerError<D>>,
    answered: Result<T, RpcError<D>>,
    reason: &str,
    data: Option<D>,
    refused: RpcError<D>,
)
    requires
        call_ensures(answer::<T, D>, (executed,), answered),
        call_ensures(invalid_params::<D>, (reason, data), refused),
    ensures
        executed is Ok <==> answered is Ok,
        executed matches Ok(value) ==> answered->Ok_0 == value,
        executed matches Err(error) ==> {
            &&& answered->Err_0.code == ErrorCode::InternalError
            &&& answered->Err_0.message == error.message
            &&& answered->Err_0.data == error.data
        },
        refused.code == ErrorCode::InvalidParams,
        refused.message@ == "Invalid params: "@ + reason@,
        refused.data == data,
{
}

/// Law: a notification names its method and carries its parameters.
pub proof fn law_notifications(method: &str, params: &str, message: String)
    requires
        call_ensures(notification_message, (method, params), message),
    ensures
        message@ == "{\"jsonrpc\": \"2.0\", \"method\": \""@ + method@ + "\", \"params\": "@
            + params@ + " }"@,
{
}

/// Law: what was handled is responded to with its response, if it has one. The server can be ended
/// once.
pub proof fn law_server<S>(
    text: String,
    responded: Option<String>,
    none: Option<String>,
    failed: Option<String>,
    sender: S,
    fresh: ExitSignal<S>,
    signal: &mut ExitSignal<S>,
    fired: Option<S>,
    again: &mut ExitSignal<S>,
    fired_again: Option<S>,
)
    requires
        call_ensures(response, (Ok::<Option<String>, ()>(Some(text)),), responded),
        call_ensures(response, (Ok::<Option<String>, ()>(None::<String>),), none),
        call_ensures(response, (Err::<Option<String>, ()>(()),), failed),
        call_ensures(ExitSignal::<S>::new, (sender,), fresh),
        old(signal)@ == fresh@,
        call_ensures(ExitSignal::<S>::fire, (signal,), fired),
        old(again)@ == final(signal)@,
        call_ensures(ExitSignal::<S>::fire, (again,), fired_again),
    ensures
        responded == Some(text),
        none is None,
        failed is None,
        fired == Some(sender),
        fired_again is None,
{
}

/// Law: an item whose key is new waits behind all others. One whose key is there already takes the
/// place of the one that has it if that is older, and is dropped otherwise. All others stay where
/// they are.
pub proof fn law_items_wait_in_their_place<K: PartialEq, V, W: PartialOrd>(
    stream: &mut UniqueStream<K, V, W>,
    item: Entry<K, V, W>,
    again: bool,
)
    requires
        comparable::<K, W>(),
        one_per_key(old(stream)@),
        call_ensures(
            UniqueStream::<K, V, W>::receive,
            (stream, Received::Item(item)),
            again,
        ),
    ensures
        again,
        (forall|i: int|
            0 <= i < old(stream)@.len() ==> !(#[trigger] old(stream)@[i]).key.eq_spec(&item.key))
            ==> final(stream)@ == old(stream)@.push(item),
        (exists|i: int|
            0 <= i < old(stream)@.len() && (#[trigger] old(stream)@[i]).key.eq_spec(&item.key))
            ==> final(stream)@.len() == old(stream)@.len(),
        forall|i: int|
            0 <= i < old(stream)@.len() ==> {
                let replaced = (#[trigger] old(stream)@[i]).key.eq_spec(&item.key) && is_older(
                    old(stream)@[i].version,
                    item.version,
                ) && forall|j: int|
                    0 <= j < i ==> !(#[trigger] old(stream)@[j]).key.eq_spec(&item.key);
                final(stream)@[i] == (if replaced {
                    item
                } else {
                    old(stream)@[i]
                })
            },
{
    lemma_key_index(old(stream)@, item.key);
    let queue = old(stream)@;
    let found = crate::rpc::queue::key_index(queue, item.key);
    assert forall|i: int| 0 <= i < queue.len() implies {
        let replaced = (#[trigger] queue[i]).key.eq_spec(&item.key) && is_older(
            queue[i].version,
            item.version,
        ) && forall|j: int| 0 <= j < i ==> !(#[trigger] queue[j]).key.eq_spec(&item.key);
        final(stream)@[i] == (if replaced {
            item
        } else {
            queue[i]
        })
    } by {
        if i < found {
            assert(!has_key(queue[i], item.key));
        } else if i > found {
            assert(has_key(queue[found], item.key));
        } else {
            assert forall|j: int| 0 <= j < i implies !(#[trigger] queue[j]).key.eq_spec(
                &item.key,
            ) by {
                assert(!has_key(queue[j], item.key));
            }
        }
    }
    if found < queue.len() {
        assert(queue[found].key.eq_spec(&item.key));
    }
    if exists|i: int| 0 <= i < queue.len() && (#[trigger] queue[i]).key.eq_spec(&item.key) {
        let i = choose|i: int| 0 <= i < queue.len() && (#[trigger] queue[i]).key.eq_spec(&item.key);
        assert(has_key(queue[i], item.key));
    }
}

/// Law: items are handed out one at a time, the one that has been waiting for longest first. There
/// is no more to come once the channel is closed and all have been handed out, and not before.
pub proof fn law_items_are_handed_out_in_order<K: PartialEq, V, W: PartialOrd>(
    fresh: UniqueStream<K, V, W>,
    at_first: bool,
    stream: &mut UniqueStream<K, V, W>,
    polled: Polled<Entry<K, V, W>>,
    closing: &mut UniqueStream<K, V, W>,
    again: bool,
    idle: &mut UniqueStream<K, V, W>,
    idle_again: bool,
)
    requires
        call_ensures(unique_queue::<K, V, W>, (), fresh),
        call_ensures(UniqueStream::<K, V, W>::is_exhausted, (&fresh,), at_first),
        call_ensures(UniqueStream::<K, V, W>::pop, (stream,), polled),
        call_ensures(
            UniqueStream::<K, V, W>::receive,
            (closing, Received::<Entry<K, V, W>>::Closed),
            again,
        ),
        call_ensures(
            UniqueStream::<K, V, W>::receive,
            (idle, Received::<Entry<K, V, W>>::Nothing),
            idle_again,
        ),
    ensures
        fresh@.len() == 0,
        !at_first,
        old(stream)@.len() > 0 ==> {
            &&& polled == Polled::Item(old(stream)@[0])
            &&& final(stream)@ == old(stream)@.skip(1)
        },
        old(stream)@.len() == 0 ==> {
            &&& polled is Finished <==> old(stream).exhausted()
            &&& polled is Pending <==> !old(stream).exhausted()
            &&& final(stream)@.len() == 0
        },
        final(stream).exhausted() == old(stream).exhausted(),
        !again && final(closing)@ == old(closing)@ && final(closing).exhausted(),
        !idle_again && final(idle)@ == old(idle)@,
        final(idle).exhausted() == old(idle).exhausted(),
{
    if old(stream)@.len() > 0 {
        assert(old(stream)@.skip(1) =~= old(stream)@.drop_first());
    } else {
        assert(final(stream)@ =~= old(stream)@);
    }
}

/// Law: what is handed out next, after items have arrived, is the first of the newest items for
/// each key, of those that were waiting and those that have arrived; all others go on waiting.
pub proof fn law_newest_items_are_handed_out<K: PartialEq, V, W: PartialOrd>(
    stream: &mut UniqueStream<K, V, W>,
    arrived: Vec<Entry<K, V, W>>,
    closed: bool,
    polled: Polled<Entry<K, V, W>>,
)
    requires
        comparable::<K, W>(),
        well_ordered::<K, W>(),
        one_per_key(old(stream)@),
        call_ensures(
            UniqueStream::<K, V, W>::poll_next,
            (stream, arrived, closed),
            polled,
        ),
    ensures
        ({
            let waiting = match polled {
                Polled::Item(item) => seq![item] + final(stream)@,
                _ => final(stream)@,
            };
            holds_newest(waiting, old(stream)@ + arrived@)
        }),
        polled is Item <==> old(stream)@.len() + arrived@.len() > 0,
        polled is Finished ==> old(stream).exhausted() || closed,
        polled is Pending ==> !old(stream).exhausted() && !closed,
        final(stream).exhausted() == (old(stream).exhausted() || closed),
{
    law_queue_holds_the_newest_items(old(stream)@, arrived@);
    let queue = with_items(old(stream)@, arrived@);
    if let Polled::Item(item) = polled {
        assert(seq![item] + final(stream)@ =~= queue);
    }
    let all = old(stream)@ + arrived@;
    lemma_something_is_first(all);
}

proof fn lemma_something_is_first<K: PartialEq, V, W: PartialOrd>(items: Seq<Entry<K, V, W>>)
    ensures
        crate::rpc::queue_laws::first_occurrences(items).len() == 0 <==> items.len() == 0,
    decreases items.len(),
{
    if items.len() > 0 {
        lemma_something_is_first(items.drop_last());
    }
}

/// Law: once a channel is closed, that is known.
pub proof fn law_closed_channels_are_known<K: PartialEq, V, W: PartialOrd>(
    closing: &mut UniqueStream<K, V, W>,
    again: bool,
    closed: &UniqueStream<K, V, W>,
    known: bool,
)
    requires
        call_ensures(
            UniqueStream::<K, V, W>::receive,
            (closing, Received::<Entry<K, V, W>>::Closed),
            again,
        ),
        closed.exhausted() == final(closing).exhausted(),
        call_ensures(UniqueStream::<K, V, W>::is_exhausted, (closed,), known),
    ensures
        known,
{
}

} // verus!
