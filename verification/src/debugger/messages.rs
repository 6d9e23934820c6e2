//! Translation between the messages of the debug protocol and the calls that serve them.
//!
//! `N` are the numbers or names of messages, and `J` are values in JSON.

use vstd::prelude::*;

use crate::debugger::{next_seq, Debugger, DebuggerView};

verus! {

/// A request of the debug protocol.
#[derive(Debug)]
pub struct Request<N, J> {
    pub command: String,
    pub seq: N,
    pub arguments: J,
}

/// The call that serves a request.
#[derive(Debug, PartialEq)]
pub struct Call<N, J> {
    pub method: String,
    pub id: N,
    pub params: J,
    pub jsonrpc: String,
}

/// What a call was answered with: a result, which may be null, or an error.
#[derive(Debug)]
pub struct Answer<N, J> {
    pub id: N,
    pub result: Option<J>,
    pub error: Option<J>,
}

/// A response of the debug protocol.
#[derive(Debug, PartialEq)]
pub struct Response<N, J> {
    pub command: String,
    pub success: bool,
    pub request_seq: N,
    pub seq: i64,
    pub typ: String,
    pub body: Option<J>,
    pub message: Option<J>,
}

/// Whether `call` serves `request`.
pub open spec fn serves<N, J>(request: Request<N, J>, call: Call<N, J>) -> bool {
    &&& call.method == request.command
    &&& call.id == request.seq
    &&& call.params == request.arguments
    &&& call.jsonrpc@ == "2.0"@
}

/// Whether `response` tells the client what a call for the command `command` was answered with.
pub open spec fn tells<N, J>(
    command: Seq<char>,
    answer: Answer<N, J>,
    seq: i64,
    response: Response<N, J>,
) -> bool {
    &&& response.command@ == command
    &&& response.success == (answer.result is Some)
    &&& response.request_seq == answer.id
    &&& response.seq == seq
    &&& response.typ@ == "response"@
    &&& response.body == answer.result
    &&& response.message == answer.error
}

/// The call that serves a request. The response will need the command, so it is kept. A message
/// without a request is passed on as it is.
pub fn translate_request<N, J>(data: Option<Request<N, J>>, current_command: &mut String) -> (call:
    Option<Call<N, J>>)
    ensures
        match data {
            Some(request) => {
                &&& call matches Some(call) && serves(request, call)
                &&& *final(current_command) == request.command
            },
            None => call is None && *final(current_command) == *old(current_command),
        },
{
    match data {
        Some(data) => {
            *current_command = data.command.clone();
            Some(
                Call {
                    method: data.command,
                    id: data.seq,
                    params: data.arguments,
                    jsonrpc: "2.0".to_owned(),
                },
            )
        },
        None => None,
    }
}

/// The response to the request that was made last. A message without an answer is passed on as it
/// is.
pub fn translate_response<V, N, J>(
    debugger: &mut Debugger<V>,
    data: Option<Answer<N, J>>,
    current_command: &str,
) -> (response: Option<Response<N, J>>)
    requires
        old(debugger).well_formed(),
    ensures
        final(debugger).well_formed(),
        match data {
            Some(answer) => {
                &&& response matches Some(response) && tells(
                    current_command@,
                    answer,
                    old(debugger)@.seq as i64,
                    response,
                )
                &&& final(debugger)@ == (DebuggerView {
                    seq: next_seq(old(debugger)@.seq),
                    ..old(debugger)@
                })
            },
            None => response is None && final(debugger)@ == old(debugger)@,
        },
{
    match data {
        Some(data) => {
            let seq = debugger.seq();
            Some(
                Response {
                    command: current_command.to_owned(),
                    success: data.result.is_some(),
                    request_seq: data.id,
                    seq,
                    typ: "response".to_owned(),
                    body: data.result,
                    message: data.error,
                },
            )
        },
        None => None,
    }
}

/// Law: a response names the command and the number of the request that it answers, as the call in
/// between keeps the number.
pub proof fn law_responses_name_their_requests<N, J>(
    request: Request<N, J>,
    call: Call<N, J>,
    answer: Answer<N, J>,
    seq: i64,
    response: Response<N, J>,
)
    requires
        serves(request, call),
        answer.id == call.id,
        tells(request.command@, answer, seq, response),
    ensures
        response.command@ == request.command@,
        response.request_seq == request.seq,
        response.success <==> response.body is Some,
{
}

} // verus!
