//! The verified core of a language server and a debugger for gluon.
//!
//! Everything that can be decided without the compiler, the file system or the network is decided
//! here, on plain values: how messages are framed and queued, how edits are put in order and
//! applied, how places in documents are translated, and what requests are answered with. The
//! program around it carries out what is decided.

use vstd::prelude::*;

pub mod async_io;
pub mod check_importer;
pub mod command;
pub mod debugger;
pub mod diagnostics;
pub mod edit_laws;
pub mod location_laws;
pub mod location_translation;
pub mod module_laws;
pub mod name;
pub mod name_laws;
pub mod order;
pub mod path;
pub mod position;
pub mod position_laws;
pub mod protocol;
pub mod reading_laws;
pub mod rpc;
pub mod server;
pub mod source;
pub mod source_laws;
pub mod text;
pub mod text_edit;
pub mod text_edit_laws;
pub mod text_laws;
pub mod text_map;

pub use crate::command::completion::CompletionData;
pub use crate::source::{byte_span_to_range, position_to_byte_index};

verus! {

} // verus!
