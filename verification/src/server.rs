//! The course of a server's life.

use vstd::prelude::*;

verus! {

/// The means to end the server, which can be used once.
pub struct ExitSignal<S> {
    sender: Option<S>,
}

impl<S> View for ExitSignal<S> {
    type V = Option<S>;

    closed spec fn view(&self) -> Option<S> {
        self.sender
    }
}

impl<S> ExitSignal<S> {
    pub fn new(sender: S) -> (signal: ExitSignal<S>)
        ensures
            signal@ == Some(sender),
    {
        ExitSignal { sender: Some(sender) }
    }

    /// Hands out the means to end the server; from the second time on there is none left.
    pub fn fire(&mut self) -> (sender: Option<S>)
        ensures
            sender == old(self)@,
            final(self)@ is None,
    {
        self.sender.take()
    }
}

/// What is sent back once a message has been handled: the response, where there is one.
pub fn response(handled: Result<Option<String>, ()>) -> (response: Option<String>)
    ensures
        match handled {
            Ok(Some(text)) => response == Some(text),
            _ => response is None,
        },
{
    match handled {
        Ok(Some(text)) => Some(text),
        Ok(None) => None,
        Err(_) => None,
    }
}

} // verus!
