//! What a reader gives of what has arrived, and what a map gives of what it was told.

use vstd::prelude::*;

use crate::async_io::{AsyncRead, Poll, ReadError, Sent, Step};
use crate::order::text_before;
use crate::text_map::{is_at, lemma_one_place, TextMap};

verus! {

/// Whether someone who asks for `size` bytes gets as many as there are, and no more than that.
pub open spec fn is_share(size: usize, bytes: Seq<u8>, part: Seq<u8>) -> bool {
    &&& part.is_prefix_of(bytes)
    &&& part.len() <= size
    &&& part.len() == bytes.len() || part.len() == size
}

/// Law: what was kept is read first, from its begin, and the rest of it is kept on. The next result
/// is asked for only where nothing was kept, as at first.
pub proof fn law_kept_bytes_are_read_first<E>(
    fresh: AsyncRead,
    reader: &mut AsyncRead,
    size: usize,
    step: Step<E>,
)
    requires
        call_ensures(AsyncRead::new, (), fresh),
        call_ensures(AsyncRead::read::<E>, (reader, size), step),
    ensures
        fresh@.len() == 0,
        old(reader)@.len() == 0 ==> step is Poll && final(reader)@.len() == 0,
        old(reader)@.len() > 0 ==> {
            &&& step is Done
            &&& step->Done_0 is Ok
            &&& is_share(size, old(reader)@, step->Done_0->Ok_0@)
            &&& step->Done_0->Ok_0@ + final(reader)@ == old(reader)@
        },
{
    if old(reader)@.len() > 0 {
        let part = step->Done_0->Ok_0@;
        assert(part + final(reader)@ =~= old(reader)@);
        assert(part =~= old(reader)@.subrange(0, part.len() as int));
    }
}

/// Law: of the bytes that arrive for someone who has asked for them, they get as many as they have
/// asked for, from the begin, and the rest is kept; an error is passed on.
pub proof fn law_arriving_bytes_are_shared<E>(
    reader: &mut AsyncRead,
    size: usize,
    result: Result<Vec<u8>, E>,
    read: Result<Vec<u8>, ReadError<E>>,
    polling: &mut AsyncRead,
    step: Step<E>,
    again: &mut AsyncRead,
    requested: bool,
    read_again: Result<Vec<u8>, ReadError<E>>,
)
    requires
        call_ensures(AsyncRead::handle_input::<E>, (reader, size, result), read),
        old(polling)@ == old(reader)@,
        call_ensures(AsyncRead::polled::<E>, (polling, size, Poll::Ready(result)), step),
        old(again)@ == old(reader)@,
        call_ensures(
            AsyncRead::polled_again::<E>,
            (again, size, requested, Poll::Ready(result)),
            read_again,
        ),
        old(reader)@.len() == 0,
    ensures
        read is Ok <==> result is Ok,
        result matches Ok(bytes) ==> {
            &&& is_share(size, bytes@, read->Ok_0@)
            &&& read->Ok_0@ + final(reader)@ == bytes@
        },
        result matches Err(error) ==> read == Err::<Vec<u8>, ReadError<E>>(ReadError::Failed(error))
            && final(reader)@.len() == 0,
        step is Done,
        step->Done_0 is Ok <==> read is Ok,
        read_again is Ok <==> read is Ok,
        read matches Ok(part) ==> step->Done_0->Ok_0@ == part@ && read_again->Ok_0@ == part@,
        read matches Err(error) ==> step->Done_0->Err_0 == error && read_again->Err_0 == error,
        final(polling)@ == final(reader)@,
        final(again)@ == final(reader)@,
{
    if let Ok(bytes) = result {
        let part = read->Ok_0@;
        assert(part + final(reader)@ =~= bytes@);
        assert(part =~= bytes@.subrange(0, part.len() as int));
    }
}

/// Law: where nothing has arrived, as many bytes are requested as were asked for, and the next
/// result is asked for again. Where there is still none, there is nothing to read yet. The end of
/// what there is to read is told by reading nothing, and a failure by an error.
pub proof fn law_nothing_to_read<E>(
    reader: &mut AsyncRead,
    size: usize,
    poll: Poll<E>,
    step: Step<E>,
    again: &mut AsyncRead,
    requested: bool,
    read: Result<Vec<u8>, ReadError<E>>,
    sent: Sent,
    after: Step<E>,
)
    requires
        call_ensures(AsyncRead::polled::<E>, (reader, size, poll), step),
        call_ensures(AsyncRead::polled_again::<E>, (again, size, requested, poll), read),
        call_ensures(AsyncRead::sent::<E>, (sent,), after),
        !(poll is Ready),
    ensures
        final(reader)@ == old(reader)@,
        final(again)@ == old(again)@,
        poll is NotReady ==> step == Step::<E>::Send(size) && read == Err::<Vec<u8>, ReadError<E>>(
            ReadError::WouldBlock,
        ),
        poll is Ended ==> {
            &&& step is Done && step->Done_0 is Ok && step->Done_0->Ok_0@.len() == 0
            &&& read is Ok && read->Ok_0@.len() == 0
        },
        poll is Failed ==> {
            &&& step == Step::Done(Err::<Vec<u8>, ReadError<E>>(ReadError::BrokenPipe))
            &&& requested ==> read == Err::<Vec<u8>, ReadError<E>>(ReadError::BrokenPipe)
            &&& !requested ==> read == Err::<Vec<u8>, ReadError<E>>(ReadError::Stopped)
        },
        sent is Ready ==> after == (Step::<E>::PollAgain { requested: true }),
        sent is Failed ==> after == (Step::<E>::PollAgain { requested: false }),
        sent is NotReady ==> after == Step::Done(
            Err::<Vec<u8>, ReadError<E>>(ReadError::WouldBlock),
        ),
{
}

/// Law: a map gives for each key what it was told last, and nothing where it was told nothing.
pub proof fn law_maps_remember<T>(
    fresh: TextMap<T>,
    any: &str,
    nothing: Option<&T>,
    map: &mut TextMap<T>,
    key: String,
    value: T,
    before: &TextMap<T>,
    after: &TextMap<T>,
    asked: &str,
    was: Option<&T>,
    is: Option<&T>,
)
    requires
        call_ensures(TextMap::<T>::new, (), fresh),
        call_ensures(TextMap::<T>::get, (&fresh, any), nothing),
        call_ensures(TextMap::<T>::insert, (map, key, value), ()),
        before@ == old(map)@,
        after@ == final(map)@,
        call_ensures(TextMap::<T>::get, (before, asked), was),
        call_ensures(TextMap::<T>::get, (after, asked), is),
    ensures
        nothing is None,
        asked@ == key@ ==> is is Some && *is.unwrap() == value,
        asked@ != key@ ==> (is is Some <==> was is Some),
        asked@ != key@ && is is Some ==> *is.unwrap() == *was.unwrap(),
{
}

/// Law: what a map holds is listed in the order of the keys, each of them once.
pub proof fn law_maps_are_listed_in_order<T>(
    map: TextMap<T>,
    items: Vec<(String, T)>,
    asked: &str,
    found: Option<&T>,
)
    requires
        call_ensures(TextMap::<T>::into_items, (map,), items),
        call_ensures(TextMap::<T>::get, (&map, asked), found),
    ensures
        forall|i: int, j: int|
            0 <= i < j < items@.len() ==> text_before(
                (#[trigger] items@[i]).0@,
                (#[trigger] items@[j]).0@,
            ),
        found is Some <==> exists|i: int|
            0 <= i < items@.len() && (#[trigger] items@[i]).0@ == asked@,
        forall|i: int|
            0 <= i < items@.len() && (#[trigger] items@[i]).0@ == asked@ ==> *found.unwrap()
                == items@[i].1,
{
    if found is Some {
        let i = choose|i: int| is_at(items@, asked@, i);
        assert(items@[i].0@ == asked@);
    }
    assert forall|i: int| 0 <= i < items@.len() && (#[trigger] items@[i]).0@ == asked@ implies
        found is Some && *found.unwrap() == items@[i].1 by {
        assert(is_at(items@, asked@, i));
        lemma_one_place(items@, asked@, i);
    }
}

} // verus!
