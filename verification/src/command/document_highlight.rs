//! The places where a symbol occurs in a document.

use vstd::prelude::*;

use crate::command::document_symbols::{span_in_file, span_range};
use crate::protocol::Range;
use crate::rpc::ServerError;
use crate::source::{byte_span_to_range, FileMap, Span};

verus! {

/// The first reason why there are no ranges for several spans.
pub open spec fn first_failure(file: FileMap, spans: Seq<Span>) -> Option<Seq<char>>
    decreases spans.len(),
{
    if spans.len() == 0 {
        None
    } else {
        match span_range(file, spans[0]) {
            Err(reason) => Some(reason),
            Ok(_) => first_failure(file, spans.drop_first()),
        }
    }
}

/// The ranges to highlight for the spans at which a symbol occurs, in their order.
pub fn highlights(source: &FileMap, spans: &Vec<Span>) -> (ranges: Result<
    Vec<Range>,
    ServerError<()>,
>)
    requires
        source.well_formed(),
        forall|i: int| 0 <= i < spans@.len() ==> span_in_file(*source, #[trigger] spans@[i]),
    ensures
        match ranges {
            Ok(ranges) => {
                &&& first_failure(*source, spans@) is None
                &&& ranges@.len() == spans@.len()
                &&& forall|i: int|
                    0 <= i < ranges@.len() ==> span_range(*source, spans@[i]) == Ok::<
                        Range,
                        Seq<char>,
                    >(#[trigger] ranges@[i])
            },
            Err(error) => {
                &&& first_failure(*source, spans@) == Some(error.message@)
                &&& error.data is None
            },
        },
{
    let mut ranges: Vec<Range> = Vec::new();
    let mut i: usize = 0;
    assert(spans@.skip(0) =~= spans@);
    while i < spans.len()
        invariant
            source.well_formed(),
            forall|j: int| 0 <= j < spans@.len() ==> span_in_file(*source, #[trigger] spans@[j]),
            i <= spans@.len(),
            first_failure(*source, spans@) == first_failure(*source, spans@.skip(i as int)),
            ranges@.len() == i,
            forall|j: int|
                0 <= j < ranges@.len() ==> span_range(*source, spans@[j]) == Ok::<Range, Seq<char>>(
                    #[trigger] ranges@[j],
                ),
        decreases spans@.len() - i,
    {
        let ghost rest = spans@.skip(i as int);
        assert(rest[0] == spans@[i as int]);
        assert(rest.drop_first() =~= spans@.skip(i + 1));
        match byte_span_to_range(source, spans[i]) {
            Ok(range) => {
                ranges.push(range);
            },
            Err(error) => {
                return Err(error);
            },
        }
        i += 1;
    }
    Ok(ranges)
}

} // verus!
