//! Reading without blocking: a thread of its own does the reading, and what it has read beyond
//! what was asked for is kept for the next time.

use vstd::prelude::*;

verus! {

/// Why nothing was read.
#[derive(Debug, PartialEq)]
pub enum ReadError<E> {
    /// There is nothing to read yet.
    WouldBlock,
    /// The thread that reads is gone.
    BrokenPipe,
    /// The thread that reads has stopped.
    Stopped,
    /// Reading failed.
    Failed(E),
}

/// What a channel answers when it is asked for the next result of the thread that reads.
#[derive(Debug)]
pub enum Poll<E> {
    /// A result: the bytes that were read, or why none were.
    Ready(Result<Vec<u8>, E>),
    /// There will not be another result.
    Ended,
    NotReady,
    Failed,
}

/// What a channel answers when it is given the number of bytes to read next.
#[derive(Clone, Copy, Debug, PartialEq, Eq, Structural)]
pub enum Sent {
    Ready,
    NotReady,
    Failed,
}

/// What is to be done next in order to read.
#[derive(Debug, PartialEq)]
pub enum Step<E> {
    /// Nothing: this is what was read.
    Done(Result<Vec<u8>, ReadError<E>>),
    /// The next result is to be asked for.
    Poll,
    /// This number of bytes is to be requested.
    Send(usize),
    /// The next result is to be asked for again, after a request that was or was not taken.
    PollAgain { requested: bool },
}

/// A reader that never blocks.
pub struct AsyncRead {
    debt: Vec<u8>,
}

impl View for AsyncRead {
    type V = Seq<u8>;

    closed spec fn view(&self) -> Seq<u8> {
        self.debt@
    }
}

/// What is read of several bytes by someone who asks for `size` of them.
pub open spec fn head(bytes: Seq<u8>, size: nat) -> Seq<u8> {
    if bytes.len() <= size {
        bytes
    } else {
        bytes.take(size as int)
    }
}

/// What is left of several bytes for the next time.
pub open spec fn tail(bytes: Seq<u8>, size: nat) -> Seq<u8> {
    if bytes.len() <= size {
        Seq::empty()
    } else {
        bytes.skip(size as int)
    }
}

fn copy(bytes: &Vec<u8>, from: usize, to: usize) -> (part: Vec<u8>)
    requires
        from <= to <= bytes@.len(),
    ensures
        part@ == bytes@.subrange(from as int, to as int),
{
    let mut part: Vec<u8> = Vec::new();
    let mut i: usize = from;
    while i < to
        invariant
            from <= i <= to <= bytes@.len(),
            part@ =~= bytes@.subrange(from as int, i as int),
        decreases to - i,
    {
        part.push(bytes[i]);
        i += 1;
    }
    part
}

impl AsyncRead {
    /// A reader that nothing has been read for yet.
    pub fn new() -> (reader: AsyncRead)
        ensures
            reader@ == Seq::<u8>::empty(),
    {
        AsyncRead { debt: Vec::new() }
    }

    /// Takes a result of the thread that reads, for someone who asked for `size` bytes. What is
    /// too much for them is kept.
    pub fn handle_input<E>(&mut self, size: usize, result: Result<Vec<u8>, E>) -> (read: Result<
        Vec<u8>,
        ReadError<E>,
    >)
        ensures
            match result {
                Ok(bytes) => {
                    &&& read matches Ok(part) && part@ == head(bytes@, size as nat)
                    &&& final(self)@ == old(self)@ + tail(bytes@, size as nat)
                },
                Err(error) => {
                    &&& read == Err::<Vec<u8>, ReadError<E>>(ReadError::Failed(error))
                    &&& final(self)@ == old(self)@
                },
            },
    {
        match result {
            Ok(bytes) => {
                let len: usize = bytes.len();
                let copied: usize = if len <= size {
                    len
                } else {
                    size
                };
                let part = copy(&bytes, 0, copied);
                let mut rest = copy(&bytes, copied, len);
                assert(part@ =~= head(bytes@, size as nat));
                assert(rest@ =~= tail(bytes@, size as nat));
                self.debt.append(&mut rest);
                Ok(part)
            },
            Err(error) => Err(ReadError::Failed(error)),
        }
    }

    /// Starts to read up to `size` bytes. What was kept comes first.
    pub fn read<E>(&mut self, size: usize) -> (step: Step<E>)
        ensures
            if old(self)@.len() > 0 {
                &&& step matches Step::Done(Ok(part)) && part@ == head(old(self)@, size as nat)
                &&& final(self)@ == tail(old(self)@, size as nat)
            } else {
                step == Step::<E>::Poll && final(self)@ == old(self)@
            },
    {
        let len: usize = self.debt.len();
        if len > 0 {
            let copied: usize = if len <= size {
                len
            } else {
                size
            };
            let part = copy(&self.debt, 0, copied);
            assert(part@ =~= head(self@, size as nat));
            let rest = copy(&self.debt, copied, len);
            assert(rest@ =~= tail(self@, size as nat));
            self.debt = rest;
            return Step::Done(Ok(part));
        }
        Step::Poll
    }

    /// Goes on once the next result has been asked for.
    pub fn polled<E>(&mut self, size: usize, poll: Poll<E>) -> (step: Step<E>)
        ensures
            match poll {
                Poll::Ready(Ok(bytes)) => {
                    &&& step matches Step::Done(Ok(part)) && part@ == head(bytes@, size as nat)
                    &&& final(self)@ == old(self)@ + tail(bytes@, size as nat)
                },
                Poll::Ready(Err(error)) => {
                    &&& step == Step::Done(Err::<Vec<u8>, ReadError<E>>(ReadError::Failed(error)))
                    &&& final(self)@ == old(self)@
                },
                Poll::Ended => {
                    &&& step matches Step::Done(Ok(part)) && part@.len() == 0
                    &&& final(self)@ == old(self)@
                },
                Poll::NotReady => step == Step::<E>::Send(size) && final(self)@ == old(self)@,
                Poll::Failed => {
                    &&& step == Step::Done(Err::<Vec<u8>, ReadError<E>>(ReadError::BrokenPipe))
                    &&& final(self)@ == old(self)@
                },
            },
    {
        match poll {
            Poll::Ready(result) => Step::Done(self.handle_input(size, result)),
            Poll::Ended => Step::Done(Ok(Vec::new())),
            Poll::NotReady => Step::Send(size),
            Poll::Failed => Step::Done(Err(ReadError::BrokenPipe)),
        }
    }

    /// Goes on once bytes have been requested.
    pub fn sent<E>(sent: Sent) -> (step: Step<E>)
        ensures
            match sent {
                Sent::Ready => step == (Step::<E>::PollAgain { requested: true }),
                Sent::NotReady => step == Step::Done(
                    Err::<Vec<u8>, ReadError<E>>(ReadError::WouldBlock),
                ),
                Sent::Failed => step == (Step::<E>::PollAgain { requested: false }),
            },
    {
        match sent {
            Sent::Ready => Step::PollAgain { requested: true },
            Sent::NotReady => Step::Done(Err(ReadError::WouldBlock)),
            Sent::Failed => Step::PollAgain { requested: false },
        }
    }

    /// Goes on once the next result has been asked for again. `requested` says whether the request
    /// for bytes was taken.
    pub fn polled_again<E>(&mut self, size: usize, requested: bool, poll: Poll<E>) -> (read: Result<
        Vec<u8>,
        ReadError<E>,
    >)
        ensures
            match poll {
                Poll::Ready(Ok(bytes)) => {
                    &&& read matches Ok(part) && part@ == head(bytes@, size as nat)
                    &&& final(self)@ == old(self)@ + tail(bytes@, size as nat)
                },
                Poll::Ready(Err(error)) => {
                    &&& read == Err::<Vec<u8>, ReadError<E>>(ReadError::Failed(error))
                    &&& final(self)@ == old(self)@
                },
                Poll::Ended => {
                    &&& read matches Ok(part) && part@.len() == 0
                    &&& final(self)@ == old(self)@
                },
                Poll::NotReady => {
                    &&& read == Err::<Vec<u8>, ReadError<E>>(ReadError::WouldBlock)
                    &&& final(self)@ == old(self)@
                },
                Poll::Failed => {
                    &&& read == Err::<Vec<u8>, ReadError<E>>(
                        if requested {
                            ReadError::BrokenPipe
                        } else {
                            ReadError::Stopped
                        },
                    )
                    &&& final(self)@ == old(self)@
                },
            },
    {
        match poll {
            Poll::Ready(result) => self.handle_input(size, result),
            Poll::Ended => Ok(Vec::new()),
            Poll::NotReady => Err(ReadError::WouldBlock),
            Poll::Failed => if requested {
                Err(ReadError::BrokenPipe)
            } else {
                Err(ReadError::Stopped)
            },
        }
    }
}

/// What happens to a reader.
pub enum ReadEvent {
    /// Bytes of what was kept are read, up to a number.
    Kept(nat),
    /// Bytes arrive for someone who asked for a number of them. This happens only where nothing
    /// was kept.
    Arrived(Seq<u8>, nat),
}

/// Whether events can follow each other, from a reader that keeps `kept`.
pub open spec fn can_happen(kept: Seq<u8>, events: Seq<ReadEvent>) -> bool
    decreases events.len(),
{
    events.len() == 0 || match events[0] {
        ReadEvent::Kept(size) => kept.len() > 0 && can_happen(
            tail(kept, size),
            events.drop_first(),
        ),
        ReadEvent::Arrived(bytes, size) => kept.len() == 0 && can_happen(
            kept + tail(bytes, size),
            events.drop_first(),
        ),
    }
}

/// All bytes that arrive.
pub open spec fn arrived(events: Seq<ReadEvent>) -> Seq<u8>
    decreases events.len(),
{
    if events.len() == 0 {
        Seq::empty()
    } else {
        match events[0] {
            ReadEvent::Kept(_) => arrived(events.drop_first()),
            ReadEvent::Arrived(bytes, _) => bytes + arrived(events.drop_first()),
        }
    }
}

/// All bytes that are read, and those that are kept in the end.
pub open spec fn read_and_kept(kept: Seq<u8>, events: Seq<ReadEvent>) -> (Seq<u8>, Seq<u8>)
    decreases events.len(),
{
    if events.len() == 0 {
        (Seq::empty(), kept)
    } else {
        match events[0] {
            ReadEvent::Kept(size) => {
                let (read, left) = read_and_kept(tail(kept, size), events.drop_first());
                (head(kept, size) + read, left)
            },
            ReadEvent::Arrived(bytes, size) => {
                let (read, left) = read_and_kept(kept + tail(bytes, size), events.drop_first());
                (head(bytes, size) + read, left)
            },
        }
    }
}

/// Law: no byte is lost, added or moved, however much is asked for at a time. What was read and
/// what is kept are together what was kept before and what arrived.
pub proof fn law_bytes_are_read_in_order(kept: Seq<u8>, events: Seq<ReadEvent>)
    requires
        can_happen(kept, events),
    ensures
        ({
            let (read, left) = read_and_kept(kept, events);
            read + left == kept + arrived(events)
        }),
    decreases events.len(),
{
    let (read, left) = read_and_kept(kept, events);
    if events.len() == 0 {
        assert(read + left =~= kept + arrived(events));
    } else {
        let rest = events.drop_first();
        match events[0] {
            ReadEvent::Kept(size) => {
                law_bytes_are_read_in_order(tail(kept, size), rest);
                let (read_later, left_later) = read_and_kept(tail(kept, size), rest);
                assert(head(kept, size) + tail(kept, size) =~= kept);
                assert(read + left =~= head(kept, size) + (read_later + left_later));
                assert(head(kept, size) + (tail(kept, size) + arrived(rest)) =~= kept + arrived(
                    events,
                ));
            },
            ReadEvent::Arrived(bytes, size) => {
                let kept_then = kept + tail(bytes, size);
                law_bytes_are_read_in_order(kept_then, rest);
                let (read_later, left_later) = read_and_kept(kept_then, rest);
                assert(head(bytes, size) + tail(bytes, size) =~= bytes);
                assert(read + left =~= head(bytes, size) + (read_later + left_later));
                assert(head(bytes, size) + (kept_then + arrived(rest)) =~= kept + arrived(events));
            },
        }
    }
}

} // verus!
