use gluon_language_server::async_io::{AsyncRead, Poll, ReadError, Sent, Step};
use gluon_language_server::rpc::queue::{unique_queue, Entry, Polled, Received, UniqueStream};
use gluon_language_server::rpc::request::{
    answer, invalid_params, notification_message, notification_params, params_value, ErrorCode,
    Params, ParamsValue, RpcError,
};
use gluon_language_server::rpc::ServerError;
use gluon_language_server::server::{response, ExitSignal};

fn entry(key: u32, value: &'static str, version: i64) -> Entry<u32, &'static str, i64> {
    Entry {
        key,
        value,
        version,
    }
}

fn drain(queue: &mut UniqueStream<u32, &'static str, i64>) -> Vec<&'static str> {
    let mut values = Vec::new();
    while let Polled::Item(item) = queue.pop() {
        values.push(item.value);
    }
    values
}

#[test]
fn queue_keeps_the_latest_item_for_each_key() {
    let mut queue = unique_queue();
    for item in [
        entry(1, "one, first", 1),
        entry(2, "two", 1),
        entry(1, "one, third", 3),
        entry(1, "one, second", 2),
        entry(3, "three", 0),
    ] {
        assert!(queue.receive(Received::Item(item)));
    }
    assert_eq!(drain(&mut queue), vec!["one, third", "two", "three"]);
}

#[test]
fn queue_holds_the_newest_items() {
    let mut queue = unique_queue();
    queue.receive(Received::Item(entry(2, "two, 5", 5)));
    queue.receive(Received::Item(entry(1, "one, 1", 1)));
    for item in [
        entry(3, "three, 2", 2),
        entry(2, "two, 4", 4),
        entry(1, "one, 7", 7),
        entry(3, "three, 2 again", 2),
        entry(1, "one, 6", 6),
        entry(2, "two, 8", 8),
    ] {
        queue.receive(Received::Item(item));
    }
    assert_eq!(drain(&mut queue), vec!["two, 8", "one, 7", "three, 2"]);
}

#[test]
fn queue_drops_what_is_as_old() {
    let mut queue = unique_queue();
    queue.receive(Received::Item(entry(1, "first", 1)));
    queue.receive(Received::Item(entry(1, "again", 1)));
    assert_eq!(drain(&mut queue), vec!["first"]);
    // What has been handed out does not matter any more.
    queue.receive(Received::Item(entry(1, "old", 0)));
    assert_eq!(drain(&mut queue), vec!["old"]);
}

#[test]
fn queue_ends_with_its_channel() {
    let mut queue = unique_queue();
    assert!(matches!(queue.pop(), Polled::Pending));
    assert!(!queue.receive(Received::Nothing));
    assert!(matches!(
        queue.poll_next(vec![entry(1, "a", 1), entry(2, "b", 1)], false),
        Polled::Item(Entry { value: "a", .. })
    ));
    assert!(!queue.is_exhausted());
    assert!(matches!(
        queue.poll_next(vec![entry(2, "c", 2)], true),
        Polled::Item(Entry { value: "c", .. })
    ));
    assert!(queue.is_exhausted());
    assert!(matches!(queue.poll_next(vec![], false), Polled::Finished));
    let mut queue: UniqueStream<u32, &'static str, i64> = unique_queue();
    assert!(!queue.receive(Received::Closed));
    assert!(matches!(queue.pop(), Polled::Finished));
}

/// A thread that reads, as it looks from outside: it answers each request for bytes at once.
struct Reader {
    input: Vec<u8>,
    results: Vec<Result<Vec<u8>, &'static str>>,
    reader: AsyncRead,
}

impl Reader {
    fn new(input: Vec<u8>) -> Reader {
        Reader {
            input,
            results: Vec::new(),
            reader: AsyncRead::new(),
        }
    }

    fn poll(&mut self) -> Poll<&'static str> {
        if self.results.is_empty() {
            Poll::NotReady
        } else {
            Poll::Ready(self.results.remove(0))
        }
    }

    fn request(&mut self, size: usize) {
        let len = size.min(self.input.len());
        let bytes = self.input.drain(..len).collect();
        self.results.push(Ok(bytes));
    }

    fn read(&mut self, size: usize) -> Result<Vec<u8>, ReadError<&'static str>> {
        let mut step = self.reader.read(size);
        loop {
            step = match step {
                Step::Done(result) => return result,
                Step::Poll => {
                    let poll = self.poll();
                    self.reader.polled(size, poll)
                }
                Step::Send(size) => {
                    self.request(size);
                    AsyncRead::sent(Sent::Ready)
                }
                Step::PollAgain { requested } => {
                    let poll = self.poll();
                    return self.reader.polled_again(size, requested, poll);
                }
            };
        }
    }

    fn read_to_end(&mut self, sizes: &[usize]) -> Vec<u8> {
        let mut bytes = Vec::new();
        for i in 0.. {
            let part = self.read(*sizes.get(i).unwrap_or(&32)).unwrap();
            if part.is_empty() {
                return bytes;
            }
            bytes.extend(part);
        }
        unreachable!()
    }
}

#[test]
fn partial_2_1() {
    let input = vec![0, 0];
    let mut reader = Reader::new(input.clone());
    assert_eq!(reader.read_to_end(&[2, 1]), input);
}

#[test]
fn bytes_are_read_in_order() {
    let input: Vec<u8> = (0..100).collect();
    for sizes in [&[1, 2, 3][..], &[50, 1, 7], &[100], &[99, 1], &[]] {
        let mut reader = Reader::new(input.clone());
        assert_eq!(reader.read_to_end(sizes), input);
    }
}

#[test]
fn what_is_too_much_is_kept() {
    let mut reader = AsyncRead::new();
    let result: Result<Vec<u8>, ()> = Ok(vec![1, 2, 3, 4, 5]);
    assert_eq!(reader.handle_input(2, result), Ok(vec![1, 2]));
    assert_eq!(reader.read::<()>(2), Step::Done(Ok(vec![3, 4])));
    assert_eq!(reader.read::<()>(2), Step::Done(Ok(vec![5])));
    assert_eq!(reader.read::<()>(2), Step::Poll);
}

#[test]
fn reading_can_fail() {
    let mut reader = AsyncRead::new();
    let failed = |error| Step::Done(Err(error));
    assert_eq!(
        reader.polled(4, Poll::Ready(Err("broken"))),
        failed(ReadError::Failed("broken"))
    );
    assert_eq!(
        reader.polled::<&str>(4, Poll::Failed),
        failed(ReadError::BrokenPipe)
    );
    assert_eq!(reader.polled::<&str>(4, Poll::Ended), Step::Done(Ok(vec![])));
    assert_eq!(reader.polled::<&str>(4, Poll::NotReady), Step::Send(4));
    assert_eq!(
        AsyncRead::sent::<&str>(Sent::NotReady),
        failed(ReadError::WouldBlock)
    );
    assert_eq!(
        AsyncRead::sent::<&str>(Sent::Failed),
        Step::PollAgain { requested: false }
    );
    let mut again = |requested, poll| reader.polled_again::<&str>(4, requested, poll);
    assert_eq!(again(true, Poll::NotReady), Err(ReadError::WouldBlock));
    assert_eq!(again(false, Poll::NotReady), Err(ReadError::WouldBlock));
    assert_eq!(again(true, Poll::Failed), Err(ReadError::BrokenPipe));
    assert_eq!(again(false, Poll::Failed), Err(ReadError::Stopped));
    assert_eq!(again(false, Poll::Ended), Ok(vec![]));
    assert_eq!(
        again(false, Poll::Ready(Err("broken"))),
        Err(ReadError::Failed("broken"))
    );
}

#[test]
fn parameters_amount_to_one_value() {
    assert_eq!(
        params_value(Params::<_, ()>::Named("map")),
        ParamsValue::Object("map")
    );
    assert_eq!(
        params_value(Params::<(), _>::Listed("array")),
        ParamsValue::Array("array")
    );
    assert_eq!(params_value(Params::<(), ()>::Missing), ParamsValue::Null);
}

#[test]
fn notifications_have_named_parameters() {
    assert_eq!(
        notification_params(Params::<_, ()>::Named("map")),
        Some("map")
    );
    assert_eq!(notification_params(Params::<(), _>::Listed("array")), None);
    assert_eq!(notification_params(Params::<(), ()>::Missing), None);
}

#[test]
fn requests_are_answered() {
    assert_eq!(answer(Ok::<u32, ServerError<()>>(7)), Ok(7));
    let error = ServerError {
        message: "no".to_string(),
        data: Some(3),
    };
    assert_eq!(
        answer(Err::<u32, ServerError<u32>>(error)),
        Err(RpcError {
            code: ErrorCode::InternalError,
            message: "no".to_string(),
            data: Some(3),
        })
    );
    assert_eq!(
        invalid_params("missing field", Some(1)),
        RpcError {
            code: ErrorCode::InvalidParams,
            message: "Invalid params: missing field".to_string(),
            data: Some(1),
        }
    );
}

#[test]
fn notification_is_one_json_object() {
    let message = notification_message("window/logMessage", "{\"type\":4}");
    assert_eq!(
        message,
        r#"{"jsonrpc": "2.0", "method": "window/logMessage", "params": {"type":4} }"#
    );
    let value: serde_json::Value = serde_json::from_str(&message).unwrap();
    assert_eq!(value["params"]["type"], 4);
}

#[test]
fn message_makes_an_error() {
    let error: ServerError<u32> = ServerError::from("message".to_string());
    assert_eq!(error.message, "message");
    assert_eq!(error.data, None);
}

#[test]
fn server_ends_once() {
    let mut signal = ExitSignal::new("sender");
    assert_eq!(signal.fire(), Some("sender"));
    assert_eq!(signal.fire(), None);
}

#[test]
fn responses_are_sent_where_there_are_any() {
    assert_eq!(response(Ok(Some("text".to_string()))), Some("text".to_string()));
    assert_eq!(response(Ok(None)), None);
    assert_eq!(response(Err(())), None);
}
