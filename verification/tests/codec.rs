use bytes::{Buf, BytesMut};
use combine::parser::combinator::{any_send_partial_state, AnySendPartialState};
use combine::parser::range::{range, take, take_while1};
use combine::stream::{easy, PartialStream};
use combine::{from_str, skip_many, Parser, RangeStream};

use gluon_language_server::rpc::codec::{
    write_message_str, DecodeError, LanguageServerDecoder, LanguageServerEncoder,
};

fn framed(message: &str) -> Vec<u8> {
    let mut output = Vec::new();
    write_message_str(&mut output, message);
    output
}

/// Feeds `chunks` to a decoder one by one and collects the messages.
fn decode_all(chunks: &[&[u8]]) -> Result<Vec<String>, DecodeError> {
    let mut decoder = LanguageServerDecoder::new();
    let mut buffer: Vec<u8> = Vec::new();
    let mut messages = Vec::new();
    for chunk in chunks {
        buffer.extend_from_slice(chunk);
        loop {
            let (message, removed) = decoder.decode(&buffer)?;
            buffer.drain(..removed);
            match message {
                Some(message) => messages.push(message),
                None => break,
            }
        }
    }
    Ok(messages)
}

#[test]
fn message_is_framed_with_its_length_in_bytes() {
    assert_eq!(
        framed("{ \"some\": \"data\" }"),
        b"Content-Length: 18\r\n\r\n{ \"some\": \"data\" }".to_vec()
    );
    assert_eq!(framed("\u{e5}"), "Content-Length: 2\r\n\r\n\u{e5}".as_bytes().to_vec());
    assert_eq!(framed(""), b"Content-Length: 0\r\n\r\n".to_vec());
}

#[test]
fn encoder_appends_a_block() {
    let mut dst = b"before".to_vec();
    LanguageServerEncoder.encode("abc".to_string(), &mut dst);
    assert_eq!(dst, b"beforeContent-Length: 3\r\n\r\nabc".to_vec());
}

#[test]
fn frames_decode_to_their_messages() {
    let mut stream = framed("first");
    stream.extend(framed(""));
    stream.extend(framed("\u{e5}\u{10400}"));
    assert_eq!(
        decode_all(&[&stream]).unwrap(),
        vec!["first".to_string(), "".to_string(), "\u{e5}\u{10400}".to_string()]
    );
}

#[test]
fn bytes_may_arrive_in_any_parts() {
    let mut stream = b"\r\n\r\n".to_vec();
    stream.extend(framed("first message"));
    stream.extend(framed("second"));
    let whole = decode_all(&[&stream]).unwrap();
    assert_eq!(whole, vec!["first message".to_string(), "second".to_string()]);
    let bytes: Vec<&[u8]> = stream.chunks(1).collect();
    assert_eq!(decode_all(&bytes).unwrap(), whole);
    for cut in 0..stream.len() {
        assert_eq!(decode_all(&[&stream[..cut], &stream[cut..]]).unwrap(), whole);
    }
}

#[test]
fn empty_lines_in_front_of_a_block_are_skipped() {
    assert_eq!(
        decode_all(&[b"\r\n\r\n\r\nContent-Length: 2\r\n\r\nok"]).unwrap(),
        vec!["ok".to_string()]
    );
}

#[test]
fn incomplete_blocks_wait() {
    let mut decoder = LanguageServerDecoder::new();
    assert_eq!(decoder.decode(b"Content-Length: 5\r\n\r\nab").unwrap(), (None, 21));
    assert_eq!(decoder.decode(b"abcd").unwrap(), (None, 0));
    assert_eq!(
        decoder.decode(b"abcdeC").unwrap(),
        (Some("abcde".to_string()), 5)
    );
    assert_eq!(decoder.decode(b"C").unwrap(), (None, 0));
    // Digits may go on, so they are not taken yet.
    assert_eq!(decoder.decode(b"Content-Length: 1").unwrap(), (None, 16));
    assert_eq!(decoder.decode(b"12").unwrap(), (None, 0));
}

#[test]
fn what_is_no_block_is_malformed() {
    for input in [
        &b"Content-Type: abc"[..],
        &b"Content-Length: x"[..],
        &b"Content-Length: 12\r\nabcd"[..],
        &b"Content-Length: 99999999999999999999999\r\n\r\n"[..],
        &b"abcdefghijklmnopqr"[..],
    ] {
        assert!(matches!(decode_all(&[input]), Err(DecodeError::Malformed)));
    }
}

#[test]
fn body_has_to_be_utf8() {
    let mut decoder = LanguageServerDecoder::new();
    let result = decoder.decode(b"Content-Length: 2\r\n\r\n\xff\xff");
    assert!(matches!(result, Err(DecodeError::InvalidUtf8 { removed: 23 })));
    // The decoder goes on with the next block.
    assert_eq!(
        decoder.decode(b"Content-Length: 1\r\n\r\na").unwrap(),
        (Some("a".to_string()), 22)
    );
}

/// The same grammar, written with parser combinators.
fn decode_parser<'a, I>(
) -> impl Parser<I, Output = Vec<u8>, PartialState = AnySendPartialState> + 'a
where
    I: RangeStream<Token = u8, Range = &'a [u8]> + 'a,
    I::Error: combine::ParseError<I::Token, I::Range, I::Position>,
{
    let content_length =
        range(&b"Content-Length: "[..]).with(from_str(take_while1(|b: u8| b.is_ascii_digit())));

    any_send_partial_state(
        (
            skip_many(range(&b"\r\n"[..])),
            content_length,
            range(&b"\r\n\r\n"[..]).map(|_| ()),
        )
            .then_partial(|&mut (_, message_length, _)| {
                take(message_length).map(|bytes: &[u8]| bytes.to_owned())
            }),
    )
}

/// What a decoder made of combinators says to the chunks: the messages, or that it failed.
fn combinators(chunks: &[&[u8]]) -> Result<Vec<Vec<u8>>, ()> {
    let mut state: AnySendPartialState = Default::default();
    let mut src = BytesMut::new();
    let mut messages = Vec::new();
    for chunk in chunks {
        src.extend_from_slice(chunk);
        loop {
            let (opt, removed) = combine::stream::decode(
                decode_parser(),
                &mut easy::Stream(PartialStream(&src[..])),
                &mut state,
            )
            .map_err(|_| ())?;
            src.advance(removed);
            match opt {
                Some(message) => messages.push(message),
                None => break,
            }
        }
    }
    Ok(messages)
}

#[test]
fn decoder_agrees_with_combinators() {
    let pieces: Vec<&[u8]> = vec![
        b"\r\n",
        b"\r",
        b"\n",
        b"Content-Length: ",
        b"Content-",
        b"Length: ",
        b"0",
        b"3",
        b"12",
        b"\r\n\r\n",
        b"abc",
        b"abcdefghijkl",
        b"Content-Length: 3\r\n\r\nabc",
        b"Content-Length: 0\r\n\r\n",
        b"x",
    ];
    // A simple generator gives many streams that are nearly blocks.
    let mut seed: u32 = 12345;
    let mut next = |limit: usize| {
        seed = seed.wrapping_mul(1664525).wrapping_add(1013904223);
        (seed >> 16) as usize % limit
    };
    let mut agreed = 0;
    for _ in 0..3000 {
        let mut stream: Vec<u8> = Vec::new();
        for _ in 0..next(8) {
            stream.extend_from_slice(pieces[next(pieces.len())]);
        }
        let cut = next(stream.len() + 1);
        let chunks = [&stream[..cut], &stream[cut..]];
        let expected = combinators(&chunks);
        match decode_all(&chunks) {
            Ok(messages) => {
                let bytes: Vec<Vec<u8>> = messages.into_iter().map(String::into_bytes).collect();
                assert_eq!(Ok(bytes), expected, "{:?}", chunks);
            }
            Err(_) => assert_eq!(Err(()), expected, "{:?}", chunks),
        }
        agreed += 1;
    }
    assert_eq!(agreed, 3000);
}
