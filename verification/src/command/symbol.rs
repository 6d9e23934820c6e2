//! The symbols of all documents.

use vstd::prelude::*;

use crate::command::document_symbols::{span_in_file, span_range, Symbol};
use crate::command::{completion_symbol_kind, symbol_kind, SymbolKind};
use crate::protocol::{Location, Range};
use crate::rpc::ServerError;
use crate::source::{byte_span_to_range, FileMap};
use crate::text::to_chars;

verus! {

/// A symbol and where it was declared.
#[derive(Debug, PartialEq, Eq)]
pub struct SymbolInformation {
    pub name: String,
    pub kind: SymbolKind,
    pub location: Location,
}

/// Whether `part` occurs in `text` from character `i` on.
pub open spec fn occurs_at(text: Seq<char>, part: Seq<char>, i: int) -> bool {
    0 <= i <= text.len() - part.len() && text.subrange(i, i + part.len()) == part
}

/// Whether `part` occurs in `text`.
pub open spec fn occurs_in(text: Seq<char>, part: Seq<char>) -> bool {
    exists|i: int| occurs_at(text, part, i)
}

/// Whether `part` occurs in `text`.
pub fn contains_text(text: &str, part: &str) -> (found: bool)
    ensures
        found == occurs_in(text@, part@),
{
    let chars = to_chars(text);
    let wanted = to_chars(part);
    if wanted.len() > chars.len() {
        return false;
    }
    let total: usize = chars.len();
    let last: usize = total - wanted.len();
    let mut i: usize = 0;
    loop
        invariant
            chars@ == text@,
            wanted@ == part@,
            total == chars@.len(),
            last == chars@.len() - wanted@.len(),
            i <= last,
            forall|j: int| 0 <= j < i ==> !occurs_at(text@, part@, j),
        decreases last - i,
    {
        let mut k: usize = 0;
        while k < wanted.len() && chars[i + k] == wanted[k]
            invariant
                chars@ == text@,
                wanted@ == part@,
                total == chars@.len(),
                i + wanted@.len() <= total,
                k <= wanted@.len(),
                forall|j: int| 0 <= j < k ==> text@[i + j] == part@[j],
            decreases wanted@.len() - k,
        {
            k += 1;
        }
        if k == wanted.len() {
            assert(text@.subrange(i as int, i + part@.len()) =~= part@);
            assert(occurs_at(text@, part@, i as int));
            return true;
        }
        assert(!occurs_at(text@, part@, i as int)) by {
            assert(text@.subrange(i as int, i + part@.len())[k as int] == text@[i + k]);
        }
        if i == last {
            return false;
        }
        i += 1;
    }
}

/// Whether `information` tells where a symbol of the document at `uri` was declared.
pub open spec fn is_information(
    file: FileMap,
    symbol: Symbol,
    uri: String,
    information: SymbolInformation,
) -> bool {
    &&& information.name == symbol.name
    &&& information.kind == symbol_kind(symbol.content)
    &&& information.location.uri == uri
    &&& span_range(file, symbol.span) == Ok::<Range, Seq<char>>(information.location.range)
}

/// Where a symbol of the document at `uri` was declared.
pub fn completion_symbol_to_symbol_information(
    source: &FileMap,
    symbol: &Symbol,
    uri: String,
) -> (information: Result<SymbolInformation, ServerError<()>>)
    requires
        source.well_formed(),
        span_in_file(*source, symbol.span),
    ensures
        match information {
            Ok(information) => is_information(*source, *symbol, uri, information),
            Err(error) => {
                &&& span_range(*source, symbol.span) == Err::<Range, Seq<char>>(error.message@)
                &&& error.data is None
            },
        },
{
    match byte_span_to_range(source, symbol.span) {
        Ok(range) => Ok(
            SymbolInformation {
                name: symbol.name.clone(),
                kind: completion_symbol_kind(&symbol.content),
                location: Location { uri, range },
            },
        ),
        Err(error) => Err(error),
    }
}

/// The symbols whose names hold `query`.
pub open spec fn matching(symbols: Seq<Symbol>, query: Seq<char>) -> Seq<Symbol>
    decreases symbols.len(),
{
    if symbols.len() == 0 {
        Seq::empty()
    } else {
        let front = matching(symbols.drop_last(), query);
        if occurs_in(symbols.last().name@, query) {
            front.push(symbols.last())
        } else {
            front
        }
    }
}

/// Whether `found` tells where several symbols were declared.
pub open spec fn are_information(
    file: FileMap,
    symbols: Seq<Symbol>,
    uri: String,
    found: Seq<SymbolInformation>,
) -> bool {
    &&& found.len() == symbols.len()
    &&& forall|i: int|
        0 <= i < found.len() ==> is_information(file, symbols[i], uri, #[trigger] found[i])
}

/// The first reason why it cannot be told where several symbols were declared.
pub open spec fn first_failure(file: FileMap, symbols: Seq<Symbol>) -> Option<Seq<char>>
    decreases symbols.len(),
{
    if symbols.len() == 0 {
        None
    } else {
        match first_failure(file, symbols.drop_last()) {
            Some(reason) => Some(reason),
            None => match span_range(file, symbols.last().span) {
                Ok(_) => None,
                Err(reason) => Some(reason),
            },
        }
    }
}

/// The symbols of the document at `uri` whose names hold `query`.
pub fn matching_symbols(
    source: &FileMap,
    symbols: &Vec<Symbol>,
    uri: &String,
    query: &str,
) -> (found: Result<Vec<SymbolInformation>, ServerError<()>>)
    requires
        source.well_formed(),
        forall|i: int|
            0 <= i < symbols@.len() ==> span_in_file(*source, (#[trigger] symbols@[i]).span),
    ensures
        match found {
            Ok(found) => {
                &&& first_failure(*source, matching(symbols@, query@)) is None
                &&& are_information(*source, matching(symbols@, query@), *uri, found@)
            },
            Err(error) => {
                &&& first_failure(*source, matching(symbols@, query@)) == Some(error.message@)
                &&& error.data is None
            },
        },
{
    let mut found: Vec<SymbolInformation> = Vec::new();
    let mut i: usize = 0;
    assert(symbols@.take(0) =~= Seq::<Symbol>::empty());
    while i < symbols.len()
        invariant
            source.well_formed(),
            forall|j: int|
                0 <= j < symbols@.len() ==> span_in_file(*source, (#[trigger] symbols@[j]).span),
            i <= symbols@.len(),
            first_failure(*source, matching(symbols@.take(i as int), query@)) is None,
            are_information(*source, matching(symbols@.take(i as int), query@), *uri, found@),
        decreases symbols@.len() - i,
    {
        let ghost next = symbols@.take(i + 1);
        assert(next.drop_last() =~= symbols@.take(i as int));
        assert(next.last() == symbols@[i as int]);
        let ghost so_far = matching(symbols@.take(i as int), query@);
        if contains_text(symbols[i].name.as_str(), query) {
            assert(matching(next, query@).drop_last() =~= so_far);
            match completion_symbol_to_symbol_information(source, &symbols[i], uri.clone()) {
                Ok(information) => {
                    let ghost listed = found@;
                    found.push(information);
                    assert forall|j: int| 0 <= j < found@.len() implies is_information(
                        *source,
                        so_far.push(symbols@[i as int])[j],
                        *uri,
                        #[trigger] found@[j],
                    ) by {
                        if j < so_far.len() {
                            assert(is_information(*source, so_far[j], *uri, listed[j]));
                        }
                    }
                },
                Err(error) => {
                    proof {
                        lemma_matching_prefix(symbols@, query@, i + 1);
                        lemma_failure_stays(
                            *source,
                            matching(symbols@, query@),
                            matching(next, query@),
                        );
                    }
                    return Err(error);
                },
            }
        }
        i += 1;
    }
    assert(symbols@.take(symbols@.len() as int) =~= symbols@);
    Ok(found)
}

/// What fails for the first of several symbols fails for all of them.
proof fn lemma_failure_stays(file: FileMap, symbols: Seq<Symbol>, first: Seq<Symbol>)
    requires
        first.is_prefix_of(symbols),
        first_failure(file, first) is Some,
    ensures
        first_failure(file, symbols) == first_failure(file, first),
    decreases symbols.len(),
{
    if first.len() == symbols.len() {
        assert(first =~= symbols);
    } else {
        assert(first.is_prefix_of(symbols.drop_last())) by {
            assert(first =~= symbols.drop_last().subrange(0, first.len() as int));
        }
        lemma_failure_stays(file, symbols.drop_last(), first);
    }
}

/// Adds the symbols of the document at `uri` whose names hold `query` to those that were found in
/// other documents.
pub fn workspace_symbols(
    found: &mut Vec<SymbolInformation>,
    source: &FileMap,
    symbols: &Vec<Symbol>,
    uri: &String,
    query: &str,
) -> (result: Result<(), ServerError<()>>)
    requires
        source.well_formed(),
        forall|i: int|
            0 <= i < symbols@.len() ==> span_in_file(*source, (#[trigger] symbols@[i]).span),
    ensures
        match result {
            Ok(()) => {
                &&& first_failure(*source, matching(symbols@, query@)) is None
                &&& final(found)@.len() >= old(found)@.len()
                &&& final(found)@.take(old(found)@.len() as int) == old(found)@
                &&& are_information(
                    *source,
                    matching(symbols@, query@),
                    *uri,
                    final(found)@.skip(old(found)@.len() as int),
                )
            },
            Err(error) => {
                &&& first_failure(*source, matching(symbols@, query@)) == Some(error.message@)
                &&& error.data is None
                &&& final(found)@ == old(found)@
            },
        },
{
    match matching_symbols(source, symbols, uri, query) {
        Ok(added) => {
            let mut added: Vec<SymbolInformation> = added;
            let ghost new = added@;
            found.append(&mut added);
            assert(found@.take(old(found)@.len() as int) =~= old(found)@);
            assert(found@.skip(old(found)@.len() as int) =~= new);
            Ok(())
        },
        Err(error) => Err(error),
    }
}

/// What matches among the first symbols comes first among what matches.
proof fn lemma_matching_prefix(symbols: Seq<Symbol>, query: Seq<char>, n: int)
    requires
        0 <= n <= symbols.len(),
    ensures
        matching(symbols.take(n), query).is_prefix_of(matching(symbols, query)),
    decreases symbols.len() - n,
{
    if n == symbols.len() {
        assert(symbols.take(n) =~= symbols);
    } else {
        lemma_matching_prefix(symbols, query, n + 1);
        assert(symbols.take(n + 1).drop_last() =~= symbols.take(n));
        let less = matching(symbols.take(n), query);
        let more = matching(symbols.take(n + 1), query);
        let all = matching(symbols, query);
        assert(less =~= more.subrange(0, less.len() as int));
        assert(less =~= all.subrange(0, less.len() as int));
    }
}

/// Law: exactly the symbols whose names hold the query are found.
pub proof fn law_matching_symbols(symbols: Seq<Symbol>, query: Seq<char>, symbol: Symbol)
    ensures
        matching(symbols, query).contains(symbol) <==> symbols.contains(symbol) && occurs_in(
            symbol.name@,
            query,
        ),
    decreases symbols.len(),
{
    if symbols.len() > 0 {
        let front = symbols.drop_last();
        let last = symbols.last();
        law_matching_symbols(front, query, symbol);
        let found = matching(symbols, query);
        let found_in_front = matching(front, query);
        if found_in_front.contains(symbol) {
            let i = choose|i: int| 0 <= i < found_in_front.len() && found_in_front[i] == symbol;
            assert(found[i] == symbol);
        }
        if front.contains(symbol) {
            let i = choose|i: int| 0 <= i < front.len() && front[i] == symbol;
            assert(symbols[i] == symbol);
        }
        if symbols.contains(symbol) && !front.contains(symbol) {
            let i = choose|i: int| 0 <= i < symbols.len() && symbols[i] == symbol;
            if i < front.len() {
                assert(front[i] == symbol);
            }
            assert(symbol == last);
            if occurs_in(symbol.name@, query) {
                assert(found[found.len() - 1] == symbol);
            }
        }
        if found.contains(symbol) && !found_in_front.contains(symbol) {
            let i = choose|i: int| 0 <= i < found.len() && found[i] == symbol;
            if i < found_in_front.len() {
                assert(found_in_front[i] == symbol);
            }
            assert(symbol == last);
            assert(symbols[symbols.len() - 1] == symbol);
        }
    }
}

} // verus!
