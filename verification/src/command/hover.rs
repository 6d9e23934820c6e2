//! What is shown for the place that an editor points at.

use vstd::prelude::*;

use crate::command::document_symbols::{span_in_file, span_range};
use crate::protocol::Range;
use crate::source::{byte_span_to_range, FileMap, Span};

verus! {

/// What is shown: a plain text, or one in markdown.
#[derive(Debug, PartialEq, Eq)]
pub enum HoverContents {
    Text(String),
    Markdown(String),
}

/// What is shown for a part of a document.
#[derive(Debug, PartialEq, Eq)]
pub struct Hover {
    pub contents: HoverContents,
    pub range: Option<Range>,
}

/// What was found at a place: its type, its name if it has one, and its span.
pub struct Found {
    pub typ: String,
    pub ident: Option<String>,
    pub span: Span,
}

/// What is shown for something that a comment was written for.
pub open spec fn commented(ident: Option<String>, typ: Seq<char>, comment: Seq<char>) -> Seq<char> {
    "```gluon\n"@ + (match ident {
        Some(ident) => ident@ + ": "@,
        None => Seq::empty(),
    }) + typ + "\n```\n"@ + comment
}

/// Whether `hover` is what is shown for what was found at a place, and for the comment that was
/// written for it. Without a comment the type alone is shown.
pub open spec fn is_hover(
    source: FileMap,
    found: Found,
    comment: Option<String>,
    hover: Hover,
) -> bool {
    &&& match comment {
        Some(comment) => hover.contents matches HoverContents::Markdown(text) && text@ == commented(
            found.ident,
            found.typ@,
            comment@,
        ),
        None => hover.contents == HoverContents::Text(found.typ),
    }
    &&& match span_range(source, found.span) {
        Ok(range) => hover.range == Some(range),
        Err(_) => hover.range is None,
    }
}

/// What is shown for the place that an editor points at: for what was found there, if anything was,
/// and for the comment that was written for it.
pub fn hover(source: &FileMap, found: Option<Found>, comment: Option<String>) -> (hover: Option<
    Hover,
>)
    requires
        source.well_formed(),
        found matches Some(found) ==> span_in_file(*source, found.span),
    ensures
        match found {
            Some(found) => hover matches Some(hover) && is_hover(*source, found, comment, hover),
            None => hover is None,
        },
{
    let found = match found {
        Some(found) => found,
        None => {
            return None;
        },
    };
    let contents = match comment {
        Some(comment) => {
            let mut text = "```gluon\n".to_owned();
            if let Some(ident) = &found.ident {
                text.append(ident.as_str());
                text.append(": ");
            }
            text.append(found.typ.as_str());
            text.append("\n```\n");
            text.append(comment.as_str());
            assert(text@ =~= commented(found.ident, found.typ@, comment@));
            HoverContents::Markdown(text)
        },
        None => HoverContents::Text(found.typ),
    };
    let range = match byte_span_to_range(source, found.span) {
        Ok(range) => Some(range),
        Err(_) => None,
    };
    Some(Hover { contents, range })
}

} // verus!
