//! What the server tells an editor of itself.

use std::path::PathBuf;

use vstd::prelude::*;

use crate::path::{path_bytes, path_of_url, to_file_path};
use crate::rpc::ServerError;

verus! {

/// How the server wants to be told of edits.
#[derive(Clone, Copy, Debug, PartialEq, Eq, Structural)]
pub enum TextDocumentSyncKind {
    Incremental,
}

/// What the server can do.
#[derive(Debug, PartialEq, Eq)]
pub struct ServerCapabilities {
    pub text_document_sync: TextDocumentSyncKind,
    /// Completions can be resolved.
    pub completion_resolve: bool,
    /// The characters that completions are asked for after.
    pub completion_triggers: Vec<String>,
    pub signature_help: bool,
    pub hover: bool,
    pub document_formatting: bool,
    pub document_highlight: bool,
    pub document_symbol: bool,
    pub workspace_symbol: bool,
    pub definition: bool,
}

/// What the server tells of itself.
#[derive(Debug, PartialEq, Eq)]
pub struct InitializeResult {
    pub name: String,
    pub version: String,
    pub capabilities: ServerCapabilities,
}

/// What an editor is told when it could not be understood.
#[derive(Clone, Copy, Debug, PartialEq, Eq, Structural)]
pub struct InitializeError {
    /// Whether it may try again.
    pub retry: bool,
}

/// The version of the server: that of its package, and the commit that it was built from.
pub open spec fn server_version(package: Seq<char>, commit: Option<Seq<char>>) -> Seq<char> {
    match commit {
        Some(commit) => package + "-"@ + commit,
        None => package,
    }
}

/// Whether the server claims to do everything that it can do.
pub open spec fn is_able(capabilities: ServerCapabilities) -> bool {
    &&& capabilities.text_document_sync == TextDocumentSyncKind::Incremental
    &&& capabilities.completion_resolve
    &&& capabilities.completion_triggers@.len() == 1
    &&& capabilities.completion_triggers@[0]@ == "."@
    &&& capabilities.signature_help
    &&& capabilities.hover
    &&& capabilities.document_formatting
    &&& capabilities.document_highlight
    &&& capabilities.document_symbol
    &&& capabilities.workspace_symbol
    &&& capabilities.definition
}

/// The directory that sources are to be looked up in from now on, where the editor has a root.
pub fn root_path(root_uri: Option<&str>) -> (path: Result<
    Option<PathBuf>,
    ServerError<InitializeError>,
>)
    ensures
        match root_uri {
            None => path matches Ok(None),
            Some(uri) => match path_of_url(uri@) {
                Some(found) => path matches Ok(Some(path)) && path_bytes(path) == found,
                None => path matches Err(error) && error.message@
                    == "Unable to convert root_uri to file path"@ && error.data is None,
            },
        },
{
    match root_uri {
        None => Ok(None),
        Some(uri) => match to_file_path(uri) {
            Some(path) => Ok(Some(path)),
            None => Err(ServerError::from("Unable to convert root_uri to file path".to_owned())),
        },
    }
}

/// What the server tells of itself, given the version of its package and the commit that it was
/// built from.
pub fn initialize(package_version: &str, git_commit: Option<&str>) -> (result: InitializeResult)
    ensures
        result.name@ == "Gluon language server"@,
        result.version@ == server_version(
            package_version@,
            match git_commit {
                Some(commit) => Some(commit@),
                None => None,
            },
        ),
        is_able(result.capabilities),
{
    let mut version = package_version.to_owned();
    if let Some(commit) = git_commit {
        version.append("-");
        version.append(commit);
    }
    let mut completion_triggers: Vec<String> = Vec::new();
    completion_triggers.push(".".to_owned());
    InitializeResult {
        name: "Gluon language server".to_owned(),
        version,
        capabilities: ServerCapabilities {
            text_document_sync: TextDocumentSyncKind::Incremental,
            completion_resolve: true,
            completion_triggers,
            signature_help: true,
            hover: true,
            document_formatting: true,
            document_highlight: true,
            document_symbol: true,
            workspace_symbol: true,
            definition: true,
        },
    }
}

/// What an editor is told when its first request could not be understood.
pub fn invalid_params() -> (error: Option<InitializeError>)
    ensures
        error == Some(InitializeError { retry: false }),
{
    Some(InitializeError { retry: false })
}

} // verus!
