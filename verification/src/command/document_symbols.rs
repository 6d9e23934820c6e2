//! The symbols of a document, as an outline of it.

use vstd::prelude::*;

use crate::command::{completion_symbol_kind, contains_char, symbol_kind, SymbolContent, SymbolKind};
use crate::position::{offset_message, offset_position};
use crate::protocol::Range;
use crate::rpc::ServerError;
use crate::source::{byte_span_to_range, FileMap, Span};

verus! {

/// A symbol of a program, with the symbols inside of it.
#[derive(Debug, PartialEq, Eq)]
pub struct Symbol {
    /// What tells the symbol from all others.
    pub id: String,
    /// The name that it was declared with.
    pub name: String,
    /// Where it was declared.
    pub span: Span,
    pub content: SymbolContent,
    /// Its type, in one line if that is possible.
    pub detail: String,
    pub children: Vec<Symbol>,
}

/// An entry of an outline.
#[derive(Debug, PartialEq, Eq)]
pub struct DocumentSymbol {
    pub name: String,
    pub detail: Option<String>,
    pub kind: SymbolKind,
    pub range: Range,
    pub selection_range: Range,
    pub children: Option<Vec<DocumentSymbol>>,
}

/// The range of a span in a file, or what is said where there is none.
pub open spec fn span_range(file: FileMap, span: Span) -> Result<Range, Seq<char>> {
    let start = (span.start - file.start) as nat;
    let end = (span.end - file.start) as nat;
    match (offset_position(file.source@, start), offset_position(file.source@, end)) {
        (Some(first), Some(last)) => Ok(Range { start: first, end: last }),
        (None, _) => Err(offset_message(file.source@, start)),
        (Some(_), None) => Err(offset_message(file.source@, end)),
    }
}

/// Whether a span does not begin in front of its file.
pub open spec fn span_in_file(file: FileMap, span: Span) -> bool {
    file.start <= span.start && file.start <= span.end
}

/// Whether no symbol begins in front of its file.
pub open spec fn symbol_in_file(file: FileMap, symbol: Symbol) -> bool
    decreases symbol,
{
    &&& span_in_file(file, symbol.span)
    &&& symbols_in_file(file, symbol.children@)
}

pub open spec fn symbols_in_file(file: FileMap, symbols: Seq<Symbol>) -> bool
    decreases symbols,
{
    symbols.len() == 0 || {
        &&& symbol_in_file(file, symbols[0])
        &&& symbols_in_file(file, symbols.drop_first())
    }
}

/// Whether a symbol belongs into an outline. The parameters of functions do not.
pub open spec fn is_listed(symbol: Symbol) -> bool {
    match symbol.content {
        SymbolContent::Value { is_parameter, .. } => !is_parameter,
        SymbolContent::Type(_) => true,
    }
}

/// What a symbol is shown as inside of another: inside of an enumeration, as one of its members.
pub open spec fn kind_inside(symbol: Symbol, parent: Option<SymbolKind>) -> SymbolKind {
    if parent == Some(SymbolKind::Enum) {
        SymbolKind::EnumMember
    } else {
        symbol_kind(symbol.content)
    }
}

/// Whether `entry` shows `symbol`, and the symbols inside of it, in an outline.
pub open spec fn shows(
    file: FileMap,
    symbol: Symbol,
    parent: Option<SymbolKind>,
    entry: DocumentSymbol,
) -> bool
    decreases symbol,
{
    let kind = kind_inside(symbol, parent);
    &&& entry.name@ == symbol.name@
    &&& entry.kind == kind
    &&& span_range(file, symbol.span) == Ok::<Range, Seq<char>>(entry.range)
    &&& entry.selection_range == entry.range
    &&& match entry.detail {
        None => symbol.detail@.contains('\n'),
        Some(detail) => !symbol.detail@.contains('\n') && detail@ == symbol.detail@,
    }
    &&& match entry.children {
        None => show(file, symbol.children@, Some(kind), Seq::empty()),
        Some(children) => children@.len() > 0 && show(
            file,
            symbol.children@,
            Some(kind),
            children@,
        ),
    }
}

/// Whether `entries` show those of several symbols that belong into an outline, in their order.
pub open spec fn show(
    file: FileMap,
    symbols: Seq<Symbol>,
    parent: Option<SymbolKind>,
    entries: Seq<DocumentSymbol>,
) -> bool
    decreases symbols,
{
    if symbols.len() == 0 {
        entries.len() == 0
    } else if is_listed(symbols[0]) {
        &&& entries.len() > 0
        &&& shows(file, symbols[0], parent, entries[0])
        &&& show(file, symbols.drop_first(), parent, entries.drop_first())
    } else {
        show(file, symbols.drop_first(), parent, entries)
    }
}

/// Why there is no entry for a symbol: the first reason that there is in it or inside of it.
pub open spec fn obstacle(file: FileMap, symbol: Symbol) -> Option<Seq<char>>
    decreases symbol,
{
    match span_range(file, symbol.span) {
        Err(reason) => Some(reason),
        Ok(_) => first_obstacle(file, symbol.children@),
    }
}

/// The first reason why there are no entries for several symbols.
pub open spec fn first_obstacle(file: FileMap, symbols: Seq<Symbol>) -> Option<Seq<char>>
    decreases symbols,
{
    if symbols.len() == 0 {
        None
    } else if is_listed(symbols[0]) && obstacle(file, symbols[0]) is Some {
        obstacle(file, symbols[0])
    } else {
        first_obstacle(file, symbols.drop_first())
    }
}

/// An outline of a document.
pub fn completion_symbols_to_document_symbols(source: &FileMap, symbols: &Vec<Symbol>) -> (entries:
    Result<Vec<DocumentSymbol>, ServerError<()>>)
    requires
        source.well_formed(),
        symbols_in_file(*source, symbols@),
    ensures
        match entries {
            Ok(entries) => {
                &&& first_obstacle(*source, symbols@) is None
                &&& show(*source, symbols@, None, entries@)
            },
            Err(error) => {
                &&& first_obstacle(*source, symbols@) == Some(error.message@)
                &&& error.data is None
            },
        },
{
    completion_symbols_to_document_symbols_inner(source, symbols, None)
}

/// The entries for symbols inside of one that is shown as `parent_kind`.
pub fn completion_symbols_to_document_symbols_inner(
    source: &FileMap,
    symbols: &Vec<Symbol>,
    parent_kind: Option<SymbolKind>,
) -> (entries: Result<Vec<DocumentSymbol>, ServerError<()>>)
    requires
        source.well_formed(),
        symbols_in_file(*source, symbols@),
    ensures
        match entries {
            Ok(entries) => {
                &&& first_obstacle(*source, symbols@) is None
                &&& show(*source, symbols@, parent_kind, entries@)
            },
            Err(error) => {
                &&& first_obstacle(*source, symbols@) == Some(error.message@)
                &&& error.data is None
            },
        },
    decreases symbols@,
{
    let mut entries: Vec<DocumentSymbol> = Vec::new();
    let mut i: usize = 0;
    assert(symbols@.skip(0) =~= symbols@);
    assert(symbols@.take(0) =~= Seq::<Symbol>::empty());
    while i < symbols.len()
        invariant
            source.well_formed(),
            i <= symbols@.len(),
            symbols_in_file(*source, symbols@.skip(i as int)),
            first_obstacle(*source, symbols@) == first_obstacle(*source, symbols@.skip(i as int)),
            show(*source, symbols@.take(i as int), parent_kind, entries@),
        decreases symbols@.len() - i,
    {
        let ghost rest = symbols@.skip(i as int);
        assert(rest[0] == symbols@[i as int]);
        assert(rest.drop_first() =~= symbols@.skip(i + 1));
        assert(symbols@.take(i as int).push(symbols@[i as int]) =~= symbols@.take(i + 1));
        let symbol: &Symbol = &symbols[i];
        let listed = match &symbol.content {
            SymbolContent::Value { typ: _, is_parameter, expr: _ } => !*is_parameter,
            SymbolContent::Type(_) => true,
        };
        if listed {
            match completion_symbol_to_document_symbol(source, symbol, parent_kind) {
                Ok(entry) => {
                    proof {
                        lemma_show_push(
                            *source,
                            symbols@.take(i as int),
                            parent_kind,
                            entries@,
                            *symbol,
                            Some(entry),
                        );
                    }
                    entries.push(entry);
                },
                Err(error) => {
                    return Err(error);
                },
            }
        } else {
            proof {
                lemma_show_push(
                    *source,
                    symbols@.take(i as int),
                    parent_kind,
                    entries@,
                    *symbol,
                    None,
                );
            }
        }
        i += 1;
    }
    assert(symbols@.take(symbols@.len() as int) =~= symbols@);
    Ok(entries)
}

/// One more symbol, and the entry for it where it belongs into an outline.
proof fn lemma_show_push(
    file: FileMap,
    symbols: Seq<Symbol>,
    parent: Option<SymbolKind>,
    entries: Seq<DocumentSymbol>,
    symbol: Symbol,
    entry: Option<DocumentSymbol>,
)
    requires
        show(file, symbols, parent, entries),
        entry is Some == is_listed(symbol),
        entry is Some ==> shows(file, symbol, parent, entry.unwrap()),
    ensures
        show(
            file,
            symbols.push(symbol),
            parent,
            match entry {
                Some(entry) => entries.push(entry),
                None => entries,
            },
        ),
    decreases symbols.len(),
{
    let more = symbols.push(symbol);
    let all = match entry {
        Some(entry) => entries.push(entry),
        None => entries,
    };
    if symbols.len() == 0 {
        assert(more[0] == symbol);
        assert(more.drop_first() =~= symbols);
        if entry is Some {
            assert(all[0] == entry.unwrap());
            assert(all.drop_first() =~= entries);
        }
    } else {
        assert(more[0] == symbols[0]);
        assert(more.drop_first() =~= symbols.drop_first().push(symbol));
        if is_listed(symbols[0]) {
            assert(all[0] == entries[0]);
            lemma_show_push(
                file,
                symbols.drop_first(),
                parent,
                entries.drop_first(),
                symbol,
                entry,
            );
            if entry is Some {
                assert(all.drop_first() =~= entries.drop_first().push(entry.unwrap()));
            }
        } else {
            lemma_show_push(file, symbols.drop_first(), parent, entries, symbol, entry);
        }
    }
}

/// The entry for a symbol inside of one that is shown as `parent_kind`.
pub fn completion_symbol_to_document_symbol(
    source: &FileMap,
    symbol: &Symbol,
    parent_kind: Option<SymbolKind>,
) -> (entry: Result<DocumentSymbol, ServerError<()>>)
    requires
        source.well_formed(),
        symbol_in_file(*source, *symbol),
    ensures
        match entry {
            Ok(entry) => {
                &&& obstacle(*source, *symbol) is None
                &&& shows(*source, *symbol, parent_kind, entry)
            },
            Err(error) => {
                &&& obstacle(*source, *symbol) == Some(error.message@)
                &&& error.data is None
            },
        },
    decreases *symbol,
{
    let kind = match parent_kind {
        Some(SymbolKind::Enum) => SymbolKind::EnumMember,
        _ => completion_symbol_kind(&symbol.content),
    };
    let range = match byte_span_to_range(source, symbol.span) {
        Ok(range) => range,
        Err(error) => {
            return Err(error);
        },
    };
    // Details of several lines render badly, so they are left out, as those of variants are.
    let detail = if contains_char(symbol.detail.as_str(), '\n') {
        None
    } else {
        Some(symbol.detail.clone())
    };
    let children = match completion_symbols_to_document_symbols_inner(
        source,
        &symbol.children,
        Some(kind),
    ) {
        Ok(children) => children,
        Err(error) => {
            return Err(error);
        },
    };
    assert(children@.len() == 0 ==> children@ =~= Seq::<DocumentSymbol>::empty());
    Ok(
        DocumentSymbol {
            name: symbol.name.clone(),
            detail,
            kind,
            range,
            selection_range: range,
            children: if children.len() == 0 {
                None
            } else {
                Some(children)
            },
        },
    )
}

/// Whether the outline of a document can be made: no symbol begins in front of the file.
pub fn are_symbols_in_file(source: &FileMap, symbols: &Vec<Symbol>) -> (valid: bool)
    ensures
        valid == symbols_in_file(*source, symbols@),
    decreases symbols@,
{
    let mut i: usize = 0;
    assert(symbols@.skip(0) =~= symbols@);
    while i < symbols.len()
        invariant
            i <= symbols@.len(),
            symbols_in_file(*source, symbols@) == symbols_in_file(
                *source,
                symbols@.skip(i as int),
            ),
        decreases symbols@.len() - i,
    {
        let ghost rest = symbols@.skip(i as int);
        assert(rest[0] == symbols@[i as int]);
        assert(rest.drop_first() =~= symbols@.skip(i + 1));
        if !is_symbol_in_file(source, &symbols[i]) {
            return false;
        }
        i += 1;
    }
    true
}

fn is_symbol_in_file(source: &FileMap, symbol: &Symbol) -> (valid: bool)
    ensures
        valid == symbol_in_file(*source, *symbol),
    decreases *symbol,
{
    source.start <= symbol.span.start && source.start <= symbol.span.end && are_symbols_in_file(
        source,
        &symbol.children,
    )
}

} // verus!
