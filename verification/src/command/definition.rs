//! Where a symbol was defined.

use vstd::prelude::*;

use crate::command::document_symbols::{
    span_in_file, span_range, symbol_in_file, symbols_in_file, Symbol,
};
use crate::protocol::{no_range, zero_range, Location};
use crate::rpc::ServerError;
use crate::source::{byte_span_to_range, FileMap, Span};
use crate::text::same_text;

verus! {

/// Where the first symbol with the given id was declared, each symbol coming before those inside of
/// it.
pub open spec fn declaration(symbols: Seq<Symbol>, id: Seq<char>) -> Option<Span>
    decreases symbols,
{
    if symbols.len() == 0 {
        None
    } else if symbols[0].id@ == id {
        Some(symbols[0].span)
    } else {
        match declaration(symbols[0].children@, id) {
            Some(span) => Some(span),
            None => declaration(symbols.drop_first(), id),
        }
    }
}

/// Where the first symbol with the given id was declared.
pub fn find_symbol(all_symbols: &Vec<Symbol>, search_symbol: &str) -> (span: Option<Span>)
    ensures
        span == declaration(all_symbols@, search_symbol@),
    decreases all_symbols@,
{
    let mut i: usize = 0;
    assert(all_symbols@.skip(0) =~= all_symbols@);
    while i < all_symbols.len()
        invariant
            i <= all_symbols@.len(),
            declaration(all_symbols@, search_symbol@) == declaration(
                all_symbols@.skip(i as int),
                search_symbol@,
            ),
        decreases all_symbols@.len() - i,
    {
        let ghost rest = all_symbols@.skip(i as int);
        assert(rest[0] == all_symbols@[i as int]);
        assert(rest.drop_first() =~= all_symbols@.skip(i + 1));
        let symbol: &Symbol = &all_symbols[i];
        if same_text(symbol.id.as_str(), search_symbol) {
            return Some(symbol.span);
        }
        if let Some(span) = find_symbol(&symbol.children, search_symbol) {
            return Some(span);
        }
        i += 1;
    }
    None
}

/// A declaration that is found in a file stands in it.
proof fn lemma_declaration_in_file(file: FileMap, symbols: Seq<Symbol>, id: Seq<char>)
    requires
        symbols_in_file(file, symbols),
    ensures
        declaration(symbols, id) matches Some(span) ==> span_in_file(file, span),
    decreases symbols,
{
    if symbols.len() > 0 {
        assert(symbol_in_file(file, symbols[0]));
        lemma_declaration_in_file(file, symbols[0].children@, id);
        lemma_declaration_in_file(file, symbols.drop_first(), id);
    }
}

/// Whether a symbol with the given id was declared at `span`, among several symbols or inside of
/// them.
pub open spec fn is_declared(symbols: Seq<Symbol>, id: Seq<char>, span: Span) -> bool
    decreases symbols,
{
    symbols.len() > 0 && {
        ||| symbols[0].id@ == id && symbols[0].span == span
        ||| is_declared(symbols[0].children@, id, span)
        ||| is_declared(symbols.drop_first(), id, span)
    }
}

/// Law: a symbol is found if it was declared, however deep, and it is found where it was declared.
pub proof fn law_declared_symbols_are_found(symbols: Seq<Symbol>, id: Seq<char>, span: Span)
    ensures
        declaration(symbols, id) == Some(span) ==> is_declared(symbols, id, span),
        is_declared(symbols, id, span) ==> declaration(symbols, id) is Some,
    decreases symbols,
{
    if symbols.len() > 0 {
        law_declared_symbols_are_found(symbols[0].children@, id, span);
        law_declared_symbols_are_found(symbols.drop_first(), id, span);
    }
}

/// What an editor points at.
pub enum Target {
    /// Nothing that has a name.
    Nothing,
    /// Another module, whose document is at the given uri.
    Module { uri: String },
    /// A symbol of the document itself, by its id.
    Local { id: String },
}

/// Where the target that an editor points at was defined: a module at the begin of its document,
/// a symbol where it was declared in the document at `uri`.
pub fn definition(
    target: Target,
    source: &FileMap,
    symbols: &Vec<Symbol>,
    uri: String,
) -> (location: Result<Option<Location>, ServerError<()>>)
    requires
        source.well_formed(),
        symbols_in_file(*source, symbols@),
    ensures
        match target {
            Target::Nothing => location matches Ok(None),
            Target::Module { uri: module } => location == Ok::<Option<Location>, ServerError<()>>(
                Some(Location { uri: module, range: zero_range() }),
            ),
            Target::Local { id } => match declaration(symbols@, id@) {
                None => location matches Ok(None),
                Some(span) => match span_range(*source, span) {
                    Ok(range) => location == Ok::<Option<Location>, ServerError<()>>(
                        Some(Location { uri, range }),
                    ),
                    Err(reason) => location matches Err(error) && error.message@ == reason
                        && error.data is None,
                },
            },
        },
{
    match target {
        Target::Nothing => Ok(None),
        Target::Module { uri } => Ok(Some(Location { uri, range: no_range() })),
        Target::Local { id } => match find_symbol(symbols, id.as_str()) {
            None => Ok(None),
            Some(span) => {
                proof {
                    lemma_declaration_in_file(*source, symbols@, id@);
                }
                match byte_span_to_range(source, span) {
                    Ok(range) => Ok(Some(Location { uri, range })),
                    Err(error) => Err(error),
                }
            },
        },
    }
}

} // verus!
