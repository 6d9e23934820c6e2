//! How requests and notifications are answered.

use vstd::prelude::*;

use crate::rpc::ServerError;

verus! {

/// The parameters of a call: named, in a row, or none.
#[derive(Debug, PartialEq)]
pub enum Params<M, A> {
    Named(M),
    Listed(A),
    Missing,
}

/// The one value that parameters amount to.
#[derive(Debug, PartialEq)]
pub enum ParamsValue<M, A> {
    Object(M),
    Array(A),
    Null,
}

/// The kinds of errors that a call may be answered with.
#[derive(Clone, Copy, Debug, PartialEq, Eq, Structural)]
pub enum ErrorCode {
    InvalidParams,
    InternalError,
}

/// An error that a call is answered with.
#[derive(Debug, PartialEq)]
pub struct RpcError<D> {
    pub code: ErrorCode,
    pub message: String,
    pub data: Option<D>,
}

/// The value that the parameters of a request amount to.
pub fn params_value<M, A>(params: Params<M, A>) -> (value: ParamsValue<M, A>)
    ensures
        match params {
            Params::Named(map) => value == ParamsValue::<M, A>::Object(map),
            Params::Listed(array) => value == ParamsValue::<M, A>::Array(array),
            Params::Missing => value == ParamsValue::<M, A>::Null,
        },
{
    match params {
        Params::Named(map) => ParamsValue::Object(map),
        Params::Listed(array) => ParamsValue::Array(array),
        Params::Missing => ParamsValue::Null,
    }
}

/// The parameters that a notification is carried out with. It has to have named ones, else it is
/// ignored.
pub fn notification_params<M, A>(params: Params<M, A>) -> (map: Option<M>)
    ensures
        match params {
            Params::Named(named) => map == Some(named),
            _ => map is None,
        },
{
    match params {
        Params::Named(map) => Some(map),
        _ => None,
    }
}

/// The answer to a request whose parameters could not be read, for the given reason. The command
/// may have data to add.
pub fn invalid_params<D>(reason: &str, data: Option<D>) -> (error: RpcError<D>)
    ensures
        error.code == ErrorCode::InvalidParams,
        error.message@ == "Invalid params: "@ + reason@,
        error.data == data,
{
    let mut message = "Invalid params: ".to_owned();
    message.append(reason);
    RpcError { code: ErrorCode::InvalidParams, message, data }
}

/// The answer to a request that was carried out.
pub fn answer<T, D>(executed: Result<T, ServerError<D>>) -> (answer: Result<T, RpcError<D>>)
    ensures
        match executed {
            Ok(value) => answer == Ok::<T, RpcError<D>>(value),
            Err(error) => answer == Err::<T, RpcError<D>>(
                (RpcError {
                    code: ErrorCode::InternalError,
                    message: error.message,
                    data: error.data,
                }),
            ),
        },
{
    match executed {
        Ok(value) => Ok(value),
        Err(error) => Err(
            RpcError {
                code: ErrorCode::InternalError,
                message: error.message,
                data: error.data,
            },
        ),
    }
}

/// The text of a notification to the client.
pub open spec fn notification_text(method: Seq<char>, params: Seq<char>) -> Seq<char> {
    "{\"jsonrpc\": \"2.0\", \"method\": \""@ + method + "\", \"params\": "@ + params + " }"@
}

/// The text of a notification to the client, whose parameters are given as JSON.
pub fn notification_message(method: &str, params: &str) -> (message: String)
    ensures
        message@ == notification_text(method@, params@),
{
    let mut message = "{\"jsonrpc\": \"2.0\", \"method\": \"".to_owned();
    message.append(method);
    message.append("\", \"params\": ");
    message.append(params);
    message.append(" }");
    message
}

} // verus!
