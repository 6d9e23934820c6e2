//! What holds of the values of a program, of messages about it, and of the course of a session.

use vstd::prelude::*;

use crate::debugger::messages::{
    translate_request, translate_response, Answer, Call, Request, Response,
};
use crate::debugger::session::{next_action, SessionAction, SessionEvent};
use crate::debugger::variables::{
    indexed_variables, named_parts, named_variables, parts, Field, Part, Structure, ValueKind,
    Variables,
};
use crate::debugger::{Debugger, DisconnectHandler};
use crate::text::decimal_string;

verus! {

/// Law: names with types and values are put together in their order, until either run out.
pub proof fn law_names_and_values_go_together<T, X>(
    infos: &Vec<Field<T>>,
    values: &Vec<X>,
    result: Vec<Part<T, X>>,
)
    requires
        call_ensures(named_parts::<T, X>, (infos, values), result),
    ensures
        result@.len() <= infos@.len() && result@.len() <= values@.len(),
        result@.len() == infos@.len() || result@.len() == values@.len(),
        forall|i: int|
            0 <= i < result@.len() ==> {
                &&& (#[trigger] result@[i]).name@ == infos@[i].name@
                &&& *result@[i].typ == infos@[i].typ
                &&& *result@[i].value == values@[i]
            },
{
}

/// Law: the parts of a record are its fields, and those of a function its upvars, with the names and
/// types that are known for them.
pub proof fn law_parts_of_records_and_functions<T, X>(
    infos: Vec<Field<T>>,
    values: Vec<X>,
    structure: &Structure<T, X>,
    result: Vec<Part<T, X>>,
    together: Vec<Part<T, X>>,
)
    requires
        *structure == (Structure::Record { row: infos, fields: values }) || *structure == (
        Structure::Closure { infos, upvars: values }),
        call_ensures(parts::<T, X>, (structure,), result),
        call_ensures(named_parts::<T, X>, (&infos, &values), together),
    ensures
        result@.len() == together@.len(),
        forall|i: int|
            0 <= i < result@.len() ==> {
                &&& (#[trigger] result@[i]).name@ == together@[i].name@
                &&& *result@[i].typ == *together@[i].typ
                &&& *result@[i].value == *together@[i].value
            },
{
}

/// Law: the parts of a variant have no names, and the types that the type has for this variant.
pub proof fn law_parts_of_variants<T, X>(
    rows: Vec<Vec<T>>,
    tag: usize,
    fields: Vec<X>,
    structure: &Structure<T, X>,
    result: Vec<Part<T, X>>,
)
    requires
        tag < rows@.len(),
        *structure == (Structure::Variant { rows, tag, fields }),
        call_ensures(parts::<T, X>, (structure,), result),
    ensures
        result@.len() <= rows@[tag as int]@.len() && result@.len() <= fields@.len(),
        result@.len() == rows@[tag as int]@.len() || result@.len() == fields@.len(),
        forall|i: int|
            0 <= i < result@.len() ==> {
                &&& (#[trigger] result@[i]).name@.len() == 0
                &&& *result@[i].typ == rows@[tag as int]@[i]
                &&& *result@[i].value == fields@[i]
            },
{
}

/// Law: the parts of an array are all its elements, named by their places.
pub proof fn law_parts_of_arrays<T, X>(
    element: T,
    elements: Vec<X>,
    structure: &Structure<T, X>,
    result: Vec<Part<T, X>>,
    i: u64,
    number: String,
)
    requires
        *structure == (Structure::Array { element, elements }),
        call_ensures(parts::<T, X>, (structure,), result),
        i < elements@.len(),
        call_ensures(decimal_string, (i,), number),
    ensures
        result@.len() == elements@.len(),
        result@[i as int].name@ == seq!['['] + number@ + seq![']'],
        *result@[i as int].typ == element,
        *result@[i as int].value == elements@[i as int],
{
    reveal_strlit("[");
    reveal_strlit("]");
    assert("["@ =~= seq!['[']);
    assert("]"@ =~= seq![']']);
}

/// Law: a value that cannot be looked into has no parts.
pub proof fn law_opaque_values_have_no_parts<T, X>(result: Vec<Part<T, X>>)
    requires
        call_ensures(parts::<T, X>, (&Structure::Opaque,), result),
    ensures
        result@.len() == 0,
{
}

/// Law: the parts of a value are counted as those of an array, known by their places, or as those of
/// any other value, known by name.
pub proof fn law_parts_are_counted(
    kind: ValueKind,
    indexed: Option<i64>,
    named: Option<i64>,
    n: usize,
)
    requires
        call_ensures(indexed_variables, (kind,), indexed),
        call_ensures(named_variables, (kind,), named),
        n <= i64::MAX,
    ensures
        kind == ValueKind::Array(n) ==> indexed == Some(n as i64) && named is None,
        kind == ValueKind::Data(n) ==> named == Some(n as i64) && indexed is None,
        kind == ValueKind::Closure(n) ==> named == Some(n as i64) && indexed is None,
        kind is Plain ==> named is None && indexed is None,
{
}

/// Law: a value that is kept is found by the reference that was given out for it, and values that
/// were kept before are still found by theirs. Nothing is found once all values are forgotten.
pub proof fn law_kept_values_are_found<V>(
    variables: &mut Variables<V>,
    kind: ValueKind,
    value: V,
    reference: i64,
    other: i64,
    before: &Variables<V>,
    was_found: Option<&V>,
    after: &Variables<V>,
    found: Option<&V>,
    other_found: Option<&V>,
    cleared: &mut Variables<V>,
    empty: &Variables<V>,
    nothing: Option<&V>,
)
    requires
        call_ensures(Variables::<V>::insert, (variables, kind, value), reference),
        before@ == old(variables)@,
        after@ == final(variables)@,
        call_ensures(Variables::<V>::get, (before, other), was_found),
        call_ensures(Variables::<V>::get, (after, reference), found),
        call_ensures(Variables::<V>::get, (after, other), other_found),
        call_ensures(Variables::<V>::clear, (cleared,), ()),
        empty@ == final(cleared)@,
        call_ensures(Variables::<V>::get, (empty, other), nothing),
    ensures
        kind is Plain ==> reference == 0 && final(variables)@ == old(variables)@,
        !(kind is Plain) ==> found is Some && *found.unwrap() == value,
        was_found matches Some(v) ==> other_found is Some && *other_found.unwrap() == *v,
        !(kind is Plain) && was_found is Some ==> other != reference,
        nothing is None,
{
}

/// Law: a request becomes a call of the method that it names, under its number and with its
/// arguments, and the response says what came of it under the same number, for the same command. It
/// is a success exactly if there is a result.
pub proof fn law_requests_are_responded_to<V, N, J>(
    request: Request<N, J>,
    command: &mut String,
    call: Option<Call<N, J>>,
    debugger: &mut Debugger<V>,
    answer: Answer<N, J>,
    current_command: &str,
    response: Option<Response<N, J>>,
    numbered: &mut Debugger<V>,
    seq: i64,
)
    requires
        call_ensures(translate_request::<N, J>, (Some(request), command), call),
        current_command@ == final(command)@,
        call_ensures(
            translate_response::<V, N, J>,
            (debugger, Some(answer), current_command),
            response,
        ),
        old(numbered)@ == old(debugger)@,
        call_ensures(Debugger::<V>::seq, (numbered,), seq),
    ensures
        call is Some,
        call.unwrap().method == request.command,
        call.unwrap().id == request.seq,
        call.unwrap().params == request.arguments,
        call.unwrap().jsonrpc@ == "2.0"@,
        response is Some,
        response.unwrap().command@ == request.command@,
        response.unwrap().request_seq == answer.id,
        response.unwrap().success == answer.result is Some,
        response.unwrap().body == answer.result,
        response.unwrap().message == answer.error,
        response.unwrap().typ@ == "response"@,
        response.unwrap().seq == seq,
        final(debugger)@ == final(numbered)@,
{
}

/// Law: what is no request is passed on, and so is what is no answer; neither takes a number.
pub proof fn law_other_messages_are_passed_on<V, N, J>(
    command: &mut String,
    call: Option<Call<N, J>>,
    debugger: &mut Debugger<V>,
    current_command: &str,
    response: Option<Response<N, J>>,
)
    requires
        call_ensures(translate_request::<N, J>, (None::<Request<N, J>>, command), call),
        call_ensures(
            translate_response::<V, N, J>,
            (debugger, None::<Answer<N, J>>, current_command),
            response,
        ),
    ensures
        call is None,
        final(command)@ == old(command)@,
        response is None,
        final(debugger)@ == old(debugger)@,
{
}

/// Law: a request that was read is handled; its response is written as it is; then, or at once if
/// there is no response, the program goes on if that is asked for, which is then not asked for any
/// more; and only then another request is read, unless the client is done.
pub proof fn law_course_of_a_session<V>(
    event: SessionEvent,
    debugger: &mut Debugger<V>,
    disconnect: &DisconnectHandler,
    done: bool,
    action: SessionAction,
)
    requires
        call_ensures(next_action::<V>, (event, debugger, disconnect), action),
        call_ensures(DisconnectHandler::is_disconnected, (disconnect,), done),
    ensures
        event is Read <==> action is Handle,
        event matches SessionEvent::Handled(Some(response)) ==> action == SessionAction::Write(
            response,
        ),
        action is Write ==> event is Handled,
        action is Resume <==> old(debugger)@.do_continue && (event is Written || event
            == SessionEvent::Handled(None)),
        final(debugger)@.do_continue <==> old(debugger)@.do_continue && !(action is Resume),
        action is Read ==> !done,
        action is Stop <==> event is Ended || done && (event is Started || event is Resumed || ((
        event is Written || event == SessionEvent::Handled(None)) && !(action is Resume))),
{
}

} // verus!
