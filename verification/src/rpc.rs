//! Remote procedure calls: how messages are framed, queued and answered.

use vstd::prelude::*;
use vstd::std_specs::convert::FromSpecImpl;

pub mod codec;
pub mod codec_laws;
pub mod laws;
pub mod queue;
pub mod queue_laws;
pub mod request;

verus! {

/// What a client is told when a request could not be served.
#[derive(Debug, PartialEq)]
pub struct ServerError<E> {
    pub message: String,
    pub data: Option<E>,
}

/// A message alone makes an error without data.
impl<E> From<String> for ServerError<E> {
    fn from(message: String) -> (error: ServerError<E>) {
        ServerError { message, data: None }
    }
}

impl<E> FromSpecImpl<String> for ServerError<E> {
    open spec fn obeys_from_spec() -> bool {
        true
    }

    open spec fn from_spec(message: String) -> ServerError<E> {
        ServerError { message, data: None }
    }
}

} // verus!
