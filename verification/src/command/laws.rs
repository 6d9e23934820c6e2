//! What the requests of an editor are answered with.

use vstd::prelude::*;

use crate::command::definition::{definition, find_symbol, Target};
use crate::command::document_highlight::{first_failure as first_without_range, highlights};
use crate::command::document_symbols::{
    are_symbols_in_file, completion_symbol_to_document_symbol,
    completion_symbols_to_document_symbols, completion_symbols_to_document_symbols_inner,
    first_obstacle, is_listed, obstacle, show, shows, span_range, symbol_in_file, symbols_in_file,
    DocumentSymbol, Symbol,
};
use crate::command::formatting::{format_edits, TextEdit};
use crate::command::hover::{hover, Found, Hover, HoverContents};
use crate::command::signature_help::{has_comment, signature_help, CalledFunction, SignatureHelp};
use crate::command::symbol::{
    completion_symbol_to_symbol_information, contains_text, first_failure, is_information, matching,
    occurs_at, occurs_in, workspace_symbols, SymbolInformation,
};
use crate::command::{
    completion_symbol_kind, expr_to_kind, ident_to_completion_item_kind, make_documentation,
    symbol_kind, type_to_completion_item_kind, type_to_kind, BuiltinType, CompletionItemKind, Expr,
    Meaning, ProgramType, SymbolContent, SymbolKind, TypeShape,
};
use crate::position::offset_position;
use crate::protocol::{Location, Position, Range, TextDocumentContentChangeEvent};
use crate::rpc::ServerError;
use crate::source::{byte_span_to_range, FileMap, Span};
use crate::text::newline_count;
use crate::text_edit::apply_change;

verus! {

/// Whether a text holds another: it can be taken apart into something, the other, and something.
pub open spec fn holds(text: Seq<char>, part: Seq<char>) -> bool {
    exists|a: Seq<char>, b: Seq<char>| text == #[trigger] (a + part + b)
}

proof fn lemma_holds(text: Seq<char>, part: Seq<char>)
    ensures
        occurs_in(text, part) <==> holds(text, part),
{
    if occurs_in(text, part) {
        let i = choose|i: int| occurs_at(text, part, i);
        let a = text.take(i);
        let b = text.skip(i + part.len());
        assert(text =~= a + part + b);
    }
    if holds(text, part) {
        let (a, b) = choose|a: Seq<char>, b: Seq<char>| text == #[trigger] (a + part + b);
        let i = a.len() as int;
        assert(text.subrange(i, i + part.len()) =~= part);
        assert(occurs_at(text, part, i));
    }
}

/// Law: a text is found in whatever it is put into, and only in what it can be put into.
pub proof fn law_texts_are_found_in_others(text: &str, part: &str, found: bool)
    requires
        call_ensures(contains_text, (text, part), found),
    ensures
        found <==> exists|a: Seq<char>, b: Seq<char>| text@ == #[trigger] (a + part@ + b),
{
    lemma_holds(text@, part@);
}

/// Whether `range` is what a span covers in a file.
pub open spec fn covers(file: FileMap, span: Span, range: Range) -> bool {
    &&& offset_position(file.source@, (span.start - file.start) as nat) == Some(range.start)
    &&& offset_position(file.source@, (span.end - file.start) as nat) == Some(range.end)
}

/// Whether a span covers anything in a file.
pub open spec fn covers_something(file: FileMap, span: Span) -> bool {
    &&& offset_position(file.source@, (span.start - file.start) as nat) is Some
    &&& offset_position(file.source@, (span.end - file.start) as nat) is Some
}

/// The symbols whose names hold a text.
pub open spec fn with_text(symbols: Seq<Symbol>, query: Seq<char>) -> Seq<Symbol> {
    symbols.filter(|symbol: Symbol| holds(symbol.name@, query))
}

proof fn lemma_matching(symbols: Seq<Symbol>, query: Seq<char>)
    ensures
        matching(symbols, query) == with_text(symbols, query),
    decreases symbols.len(),
{
    reveal(Seq::filter);
    if symbols.len() > 0 {
        lemma_matching(symbols.drop_last(), query);
        lemma_holds(symbols.last().name@, query);
    }
    assert(matching(symbols, query) =~= with_text(symbols, query));
}

proof fn lemma_first_failure(file: FileMap, symbols: Seq<Symbol>)
    ensures
        first_failure(file, symbols) is None <==> forall|i: int|
            0 <= i < symbols.len() ==> covers_something(file, (#[trigger] symbols[i]).span),
    decreases symbols.len(),
{
    if symbols.len() > 0 {
        let front = symbols.drop_last();
        lemma_first_failure(file, front);
        let last = symbols.len() - 1;
        if first_failure(file, symbols) is None {
            assert forall|i: int| 0 <= i < symbols.len() implies covers_something(
                file,
                (#[trigger] symbols[i]).span,
            ) by {
                if i < last {
                    assert(front[i] == symbols[i]);
                }
            }
        }
        if forall|i: int|
            0 <= i < symbols.len() ==> covers_something(file, (#[trigger] symbols[i]).span) {
            assert forall|i: int| 0 <= i < front.len() implies covers_something(
                file,
                (#[trigger] front[i]).span,
            ) by {
                assert(front[i] == symbols[i]);
            }
            assert(covers_something(file, symbols[last].span));
        }
    }
}

/// Law: to those symbols that were found in other documents all symbols of a document are added
/// whose names hold the query, and no others, in their order: each with its name, and where it was
/// declared. This fails, and adds nothing, only where a symbol to be added stands nowhere.
pub proof fn law_symbols_are_found_by_their_names(
    found: &mut Vec<SymbolInformation>,
    file: &FileMap,
    symbols: &Vec<Symbol>,
    uri: &String,
    query: &str,
    result: Result<(), ServerError<()>>,
)
    requires
        call_ensures(workspace_symbols, (found, file, symbols, uri, query), result),
    ensures
        ({
            let added = with_text(symbols@, query@);
            let n = old(found)@.len();
            &&& result is Ok <==> forall|i: int|
                0 <= i < added.len() ==> covers_something(*file, (#[trigger] added[i]).span)
            &&& result is Err ==> final(found)@ == old(found)@
            &&& result is Ok ==> {
                &&& final(found)@.len() == n + added.len()
                &&& forall|i: int| 0 <= i < n ==> #[trigger] final(found)@[i] == old(found)@[i]
                &&& forall|i: int|
                    0 <= i < added.len() ==> {
                        let information = final(found)@[n + i];
                        &&& information.name == (#[trigger] added[i]).name
                        &&& information.kind == symbol_kind(added[i].content)
                        &&& information.location.uri == *uri
                        &&& covers(*file, added[i].span, information.location.range)
                    }
            }
        }),
{
    lemma_matching(symbols@, query@);
    let added = with_text(symbols@, query@);
    lemma_first_failure(*file, added);
    if result is Ok {
        let n = old(found)@.len() as int;
        let new = final(found)@.skip(n);
        assert forall|i: int| 0 <= i < n implies #[trigger] final(found)@[i] == old(found)@[i] by {
            assert(final(found)@.take(n)[i] == final(found)@[i]);
        }
        assert forall|i: int| 0 <= i < added.len() implies {
            let information = final(found)@[n + i];
            &&& information.name == (#[trigger] added[i]).name
            &&& information.kind == symbol_kind(added[i].content)
            &&& information.location.uri == *uri
            &&& covers(*file, added[i].span, information.location.range)
        } by {
            assert(new[i] == final(found)@[n + i]);
            assert(is_information(*file, added[i], *uri, new[i]));
        }
    }
}

/// Law: a name `a` + query + `b` is found for all texts `a` and `b`, wherever its symbol stands among
/// others, and a name that cannot be taken apart so is not.
pub proof fn law_every_symbol_with_the_query_is_found(
    symbols: Seq<Symbol>,
    query: Seq<char>,
    symbol: Symbol,
)
    ensures
        with_text(symbols, query).contains(symbol) <==> symbols.contains(symbol) && exists|
            a: Seq<char>,
            b: Seq<char>,
        |
            symbol.name@ == #[trigger] (a + query + b),
{
    lemma_matching(symbols, query);
    crate::command::symbol::law_matching_symbols(symbols, query, symbol);
    lemma_holds(symbol.name@, query);
}

/// Law: a symbol is told with its name and kind, and where it was declared in its document.
pub proof fn law_symbols_are_told_where_they_stand(
    file: &FileMap,
    symbol: &Symbol,
    uri: String,
    information: Result<SymbolInformation, ServerError<()>>,
    kind: SymbolKind,
)
    requires
        call_ensures(
            completion_symbol_to_symbol_information,
            (file, symbol, uri),
            information,
        ),
        call_ensures(completion_symbol_kind, (&symbol.content,), kind),
    ensures
        information is Ok <==> covers_something(*file, symbol.span),
        information matches Ok(information) ==> {
            &&& information.name == symbol.name
            &&& information.kind == kind
            &&& information.location.uri == uri
            &&& covers(*file, symbol.span, information.location.range)
        },
{
}

/// Law: a value is completed as a function if its type is one; else as what its type is, behind all
/// aliases and arguments: a variant as an enumeration, a record as a module, and anything else as a
/// variable.
pub proof fn law_completion_kinds(
    typ: ProgramType,
    kind: CompletionItemKind,
    inner: ProgramType,
    inner_kind: CompletionItemKind,
)
    requires
        call_ensures(type_to_completion_item_kind, (&typ,), kind),
        call_ensures(type_to_completion_item_kind, (&inner,), inner_kind),
    ensures
        typ.is_function ==> kind == CompletionItemKind::Function,
        !typ.is_function ==> match typ.shape {
            TypeShape::Variant => kind == CompletionItemKind::Enum,
            TypeShape::Record => kind == CompletionItemKind::Module,
            TypeShape::Alias { target, .. } => *target == inner ==> kind == inner_kind,
            TypeShape::App(function) => *function == inner ==> kind == inner_kind,
            TypeShape::Ident(_) | TypeShape::Builtin(_) | TypeShape::Hole | TypeShape::Other => kind
                == CompletionItemKind::Variable,
        },
{
}

/// Law: the name of a type is completed as a class, that of a value as a constructor if it starts
/// with an uppercase letter, and else by its type.
pub proof fn law_completion_kinds_of_names(
    id: &str,
    meaning: Meaning,
    kind: CompletionItemKind,
    typ: ProgramType,
    typ_kind: CompletionItemKind,
)
    requires
        call_ensures(ident_to_completion_item_kind, (id, &meaning), kind),
        call_ensures(type_to_completion_item_kind, (&typ,), typ_kind),
    ensures
        meaning is Type ==> kind == CompletionItemKind::Class,
        meaning == Meaning::Value(typ) ==> {
            &&& id@.len() == 0 ==> kind == typ_kind
            &&& id@.len() > 0 && 'A' <= id@[0] <= 'Z' ==> kind == CompletionItemKind::Constructor
            &&& id@.len() > 0 && (id@[0] as u32) < 128 && !('A' <= id@[0] <= 'Z') ==> kind
                == typ_kind
        },
{
}

/// Law: a value is shown as what its type is.
pub proof fn law_kinds_of_types(typ: ProgramType, kind: SymbolKind)
    requires
        call_ensures(type_to_kind, (&typ,), kind),
    ensures
        typ.is_function ==> kind == SymbolKind::Function,
        !typ.is_function ==> match typ.shape {
            TypeShape::Ident(name) => (kind == SymbolKind::Boolean <==> name@ == "Bool"@) && (name@
                != "Bool"@ ==> kind == SymbolKind::Variable),
            TypeShape::Alias { name, .. } => (kind == SymbolKind::Boolean <==> name@ == "Bool"@)
                && (name@ != "Bool"@ ==> kind == SymbolKind::Variable),
            TypeShape::Builtin(BuiltinType::Char) => kind == SymbolKind::Text,
            TypeShape::Builtin(BuiltinType::Text) => kind == SymbolKind::Text,
            TypeShape::Builtin(BuiltinType::Byte) => kind == SymbolKind::Number,
            TypeShape::Builtin(BuiltinType::Int) => kind == SymbolKind::Number,
            TypeShape::Builtin(BuiltinType::Float) => kind == SymbolKind::Number,
            TypeShape::Builtin(BuiltinType::Array) => kind == SymbolKind::Array,
            TypeShape::Builtin(BuiltinType::Function) => kind == SymbolKind::Function,
            TypeShape::App(_)
            | TypeShape::Variant
            | TypeShape::Record
            | TypeShape::Hole
            | TypeShape::Other => kind == SymbolKind::Variable,
        },
{
}

/// Law: a variant type is shown as an enumeration and any other as a class. A value is shown as a
/// module if it is bound to a name with a dot in it, as a variable if it is bound to nothing, and
/// else by its type.
pub proof fn law_kinds_of_symbols(
    content: SymbolContent,
    kind: SymbolKind,
    typ: ProgramType,
    typ_kind: SymbolKind,
)
    requires
        call_ensures(completion_symbol_kind, (&content,), kind),
        call_ensures(type_to_kind, (&typ,), typ_kind),
    ensures
        match content {
            SymbolContent::Type(declared) => {
                &&& declared.shape is Variant ==> kind == SymbolKind::Enum
                &&& !(declared.shape is Variant) ==> kind == SymbolKind::Class
            },
            SymbolContent::Value { typ: declared, expr, .. } => declared == typ ==> match expr {
                None => kind == SymbolKind::Variable,
                Some(Expr::Other) => kind == typ_kind,
                Some(Expr::Ident(name)) => if exists|i: int|
                    0 <= i < name@.len() && #[trigger] name@[i] == '.' {
                    kind == SymbolKind::Module
                } else {
                    kind == typ_kind
                },
            },
        },
{
}

/// Law: what a value is bound to decides what it is shown as in the same way.
pub proof fn law_kinds_of_expressions(
    expr: Expr,
    typ: ProgramType,
    kind: SymbolKind,
    content: SymbolContent,
    same: SymbolKind,
    is_parameter: bool,
)
    requires
        call_ensures(expr_to_kind, (&expr, &typ), kind),
        content == (SymbolContent::Value { typ, is_parameter, expr: Some(expr) }),
        call_ensures(completion_symbol_kind, (&content,), same),
    ensures
        kind == same,
{
}

/// Law: documentation is the comment, behind the type in a block of code where there is one.
pub proof fn law_documentation(
    typ: &str,
    comment: &str,
    with_type: String,
    without: String,
)
    requires
        call_ensures(make_documentation, (Some(typ), comment), with_type),
        call_ensures(make_documentation, (None::<&str>, comment), without),
    ensures
        without@ == comment@,
        with_type@ == "```gluon\n"@ + typ@ + "\n```\n"@ + comment@,
{
}

/// The symbols that belong into an outline: all but the parameters of functions.
pub open spec fn listed(symbols: Seq<Symbol>) -> Seq<Symbol> {
    symbols.filter(
        |symbol: Symbol|
            !(symbol.content matches SymbolContent::Value { is_parameter, .. } && is_parameter),
    )
}

proof fn lemma_listed_first(symbols: Seq<Symbol>)
    requires
        symbols.len() > 0,
    ensures
        listed(symbols) == (if is_listed(symbols[0]) {
            seq![symbols[0]]
        } else {
            Seq::empty()
        }) + listed(symbols.drop_first()),
    decreases symbols.len(),
{
    reveal(Seq::filter);
    let rest = symbols.drop_first();
    if symbols.len() == 1 {
        assert(rest =~= Seq::<Symbol>::empty());
        assert(symbols.drop_last() =~= Seq::<Symbol>::empty());
        assert(listed(symbols.drop_last()) =~= Seq::<Symbol>::empty());
        assert(listed(rest) =~= Seq::<Symbol>::empty());
    } else {
        lemma_listed_first(symbols.drop_last());
        assert(symbols.drop_last().drop_first() =~= rest.drop_last());
        assert(rest.last() == symbols.last());
    }
    assert(listed(symbols) =~= (if is_listed(symbols[0]) {
        seq![symbols[0]]
    } else {
        Seq::empty()
    }) + listed(rest));
}

/// Whether `entry` shows a symbol inside of one that is shown as `parent`, but for what is inside of
/// it: its name, what it is, where it stands, and its type where that takes one line.
pub open spec fn is_entry(
    file: FileMap,
    symbol: Symbol,
    parent: Option<SymbolKind>,
    entry: DocumentSymbol,
) -> bool {
    &&& entry.name@ == symbol.name@
    &&& covers(file, symbol.span, entry.range)
    &&& entry.selection_range == entry.range
    &&& entry.detail is None <==> exists|i: int|
        0 <= i < symbol.detail@.len() && #[trigger] symbol.detail@[i] == '\n'
    &&& entry.detail matches Some(detail) ==> detail@ == symbol.detail@
    &&& parent == Some(SymbolKind::Enum) ==> entry.kind == SymbolKind::EnumMember
    &&& parent != Some(SymbolKind::Enum) ==> entry.kind == symbol_kind(symbol.content)
}

proof fn lemma_entries(
    file: FileMap,
    symbols: Seq<Symbol>,
    parent: Option<SymbolKind>,
    entries: Seq<DocumentSymbol>,
)
    requires
        show(file, symbols, parent, entries),
    ensures
        entries.len() == listed(symbols).len(),
        forall|i: int|
            0 <= i < entries.len() ==> shows(file, listed(symbols)[i], parent, #[trigger] entries[i]),
    decreases symbols.len(),
{
    if symbols.len() == 0 {
        reveal(Seq::filter);
    } else {
        lemma_listed_first(symbols);
        let all = listed(symbols);
        let rest = listed(symbols.drop_first());
        if is_listed(symbols[0]) {
            lemma_entries(file, symbols.drop_first(), parent, entries.drop_first());
            assert forall|i: int| 0 <= i < entries.len() implies shows(
                file,
                all[i],
                parent,
                #[trigger] entries[i],
            ) by {
                if i > 0 {
                    assert(entries.drop_first()[i - 1] == entries[i]);
                    assert(all[i] == rest[i - 1]);
                }
            }
        } else {
            lemma_entries(file, symbols.drop_first(), parent, entries);
            assert(all =~= rest);
        }
    }
}

/// Law: an outline has one entry for each symbol that is not a parameter, in their order. The
/// entries inside of an entry are the outline of what is inside of its symbol.
pub proof fn law_outline_shows_all_symbols(
    file: &FileMap,
    symbols: &Vec<Symbol>,
    parent: Option<SymbolKind>,
    entries: Vec<DocumentSymbol>,
    i: int,
    children: Vec<DocumentSymbol>,
)
    requires
        call_ensures(
            completion_symbols_to_document_symbols_inner,
            (file, symbols, parent),
            Ok::<Vec<DocumentSymbol>, ServerError<()>>(entries),
        ),
        0 <= i < entries@.len(),
        call_ensures(
            completion_symbols_to_document_symbols_inner,
            (file, &listed(symbols@)[i].children, Some(entries@[i].kind)),
            Ok::<Vec<DocumentSymbol>, ServerError<()>>(children),
        ),
    ensures
        entries@.len() == listed(symbols@).len(),
        is_entry(*file, listed(symbols@)[i], parent, entries@[i]),
        match entries@[i].children {
            None => children@.len() == 0,
            Some(shown) => {
                &&& shown@.len() > 0
                &&& shown@.len() == children@.len()
                &&& forall|k: int|
                    0 <= k < children@.len() ==> {
                        &&& (#[trigger] children@[k]).name@ == shown@[k].name@
                        &&& children@[k].kind == shown@[k].kind
                        &&& children@[k].range == shown@[k].range
                    }
            },
        },
{
    lemma_entries(*file, symbols@, parent, entries@);
    let symbol = listed(symbols@)[i];
    assert(shows(*file, symbol, parent, entries@[i]));
    let kind = Some(entries@[i].kind);
    let shown = match entries@[i].children {
        None => Seq::empty(),
        Some(shown) => shown@,
    };
    lemma_entries(*file, symbol.children@, kind, children@);
    lemma_entries(*file, symbol.children@, kind, shown);
    assert forall|k: int| 0 <= k < children@.len() implies {
        &&& (#[trigger] children@[k]).name@ == shown[k].name@
        &&& children@[k].kind == shown[k].kind
        &&& children@[k].range == shown[k].range
    } by {
        assert(shows(*file, listed(symbol.children@)[k], kind, children@[k]));
        assert(shows(*file, listed(symbol.children@)[k], kind, shown[k]));
    }
}

/// Law: the outline of a document is that of symbols which are not inside of any other, and the
/// entry of a single symbol is the one that an outline has for it.
pub proof fn law_outline_of_a_document(
    file: &FileMap,
    symbols: &Vec<Symbol>,
    entries: Vec<DocumentSymbol>,
    symbol: &Symbol,
    parent: Option<SymbolKind>,
    entry: DocumentSymbol,
)
    requires
        call_ensures(
            completion_symbols_to_document_symbols,
            (file, symbols),
            Ok::<Vec<DocumentSymbol>, ServerError<()>>(entries),
        ),
        call_ensures(
            completion_symbol_to_document_symbol,
            (file, symbol, parent),
            Ok::<DocumentSymbol, ServerError<()>>(entry),
        ),
    ensures
        entries@.len() == listed(symbols@).len(),
        forall|i: int|
            0 <= i < entries@.len() ==> is_entry(
                *file,
                listed(symbols@)[i],
                None,
                #[trigger] entries@[i],
            ),
        is_entry(*file, *symbol, parent, entry),
{
    lemma_entries(*file, symbols@, None, entries@);
    assert forall|i: int| 0 <= i < entries@.len() implies is_entry(
        *file,
        listed(symbols@)[i],
        None,
        #[trigger] entries@[i],
    ) by {
        assert(shows(*file, listed(symbols@)[i], None, entries@[i]));
    }
}

/// Whether all symbols that belong into an outline stand somewhere, and so do those inside of them.
pub open spec fn stand_somewhere(file: FileMap, symbols: Seq<Symbol>) -> bool
    decreases symbols,
{
    symbols.len() > 0 ==> {
        &&& is_listed(symbols[0]) ==> covers_something(file, symbols[0].span) && stand_somewhere(
            file,
            symbols[0].children@,
        )
        &&& stand_somewhere(file, symbols.drop_first())
    }
}

proof fn lemma_no_obstacle(file: FileMap, symbols: Seq<Symbol>)
    ensures
        first_obstacle(file, symbols) is None <==> stand_somewhere(file, symbols),
    decreases symbols,
{
    if symbols.len() > 0 {
        lemma_no_obstacle(file, symbols[0].children@);
        lemma_no_obstacle(file, symbols.drop_first());
        reveal_with_fuel(obstacle, 2);
        assert(obstacle(file, symbols[0]) is None <==> covers_something(file, symbols[0].span)
            && first_obstacle(file, symbols[0].children@) is None);
    }
}

/// Law: there is an outline exactly if all symbols in it stand somewhere.
pub proof fn law_outline_exists(
    file: &FileMap,
    symbols: &Vec<Symbol>,
    entries: Result<Vec<DocumentSymbol>, ServerError<()>>,
)
    requires
        call_ensures(completion_symbols_to_document_symbols, (file, symbols), entries),
    ensures
        entries is Ok <==> stand_somewhere(*file, symbols@),
{
    lemma_no_obstacle(*file, symbols@);
}

/// Law: a symbol is found by its id: the first of several if it has it, or else one inside of the
/// first, or else one among the others.
pub proof fn law_symbols_are_found_by_their_ids(
    symbols: &Vec<Symbol>,
    id: &str,
    found: Option<Span>,
    children: Option<Span>,
    others: &Vec<Symbol>,
    elsewhere: Option<Span>,
)
    requires
        call_ensures(find_symbol, (symbols, id), found),
        symbols@.len() > 0,
        call_ensures(find_symbol, (&symbols@[0].children, id), children),
        others@ == symbols@.skip(1),
        call_ensures(find_symbol, (others, id), elsewhere),
    ensures
        found == (if symbols@[0].id@ == id@ {
            Some(symbols@[0].span)
        } else if children is Some {
            children
        } else {
            elsewhere
        }),
{
    assert(symbols@.skip(1) =~= symbols@.drop_first());
}

/// Law: among no symbols none is found.
pub proof fn law_nothing_is_found_among_no_symbols(
    symbols: &Vec<Symbol>,
    id: &str,
    found: Option<Span>,
)
    requires
        call_ensures(find_symbol, (symbols, id), found),
        symbols@.len() == 0,
    ensures
        found is None,
{
}

/// Law: a module is defined at the begin of its document. A symbol of a document is defined where it
/// was declared in it; there is no definition exactly if it was not declared.
pub proof fn law_definitions(
    target: Target,
    file: &FileMap,
    symbols: &Vec<Symbol>,
    uri: String,
    location: Result<Option<Location>, ServerError<()>>,
    id: &str,
    found: Option<Span>,
)
    requires
        call_ensures(definition, (target, file, symbols, uri), location),
        call_ensures(find_symbol, (symbols, id), found),
        target matches Target::Local { id: local } ==> local@ == id@,
    ensures
        match target {
            Target::Nothing => location matches Ok(None),
            Target::Module { uri: module } => {
                &&& location matches Ok(Some(place))
                &&& place.uri == module
                &&& place.range.start == (Position { line: 0, character: 0 })
                &&& place.range.end == (Position { line: 0, character: 0 })
            },
            Target::Local { .. } => match found {
                None => location matches Ok(None),
                Some(span) => {
                    &&& location is Ok <==> covers_something(*file, span)
                    &&& location matches Ok(place) ==> {
                        &&& place is Some
                        &&& place.unwrap().uri == uri
                        &&& covers(*file, span, place.unwrap().range)
                    }
                },
            },
        },
{
}

/// Law: each place where a symbol occurs is highlighted, in their order, and no other.
pub proof fn law_all_occurrences_are_highlighted(
    file: &FileMap,
    spans: &Vec<Span>,
    ranges: Result<Vec<Range>, ServerError<()>>,
)
    requires
        call_ensures(highlights, (file, spans), ranges),
    ensures
        ranges is Ok <==> forall|i: int|
            0 <= i < spans@.len() ==> covers_something(*file, #[trigger] spans@[i]),
        ranges matches Ok(ranges) ==> {
            &&& ranges@.len() == spans@.len()
            &&& forall|i: int|
                0 <= i < spans@.len() ==> covers(*file, #[trigger] spans@[i], ranges@[i])
        },
{
    lemma_all_have_ranges(*file, spans@);
    if let Ok(found) = ranges {
        assert forall|i: int| 0 <= i < spans@.len() implies covers(
            *file,
            #[trigger] spans@[i],
            found@[i],
        ) by {
            assert(span_range(*file, spans@[i]) == Ok::<Range, Seq<char>>(found@[i]));
        }
    }
}

proof fn lemma_all_have_ranges(file: FileMap, spans: Seq<Span>)
    ensures
        first_without_range(file, spans) is None <==> forall|i: int|
            0 <= i < spans.len() ==> covers_something(file, #[trigger] spans[i]),
    decreases spans.len(),
{
    if spans.len() > 0 {
        let rest = spans.drop_first();
        lemma_all_have_ranges(file, rest);
        if first_without_range(file, spans) is None {
            assert forall|i: int| 0 <= i < spans.len() implies covers_something(
                file,
                #[trigger] spans[i],
            ) by {
                if i > 0 {
                    assert(rest[i - 1] == spans[i]);
                }
            }
        }
        if forall|i: int| 0 <= i < spans.len() ==> covers_something(file, #[trigger] spans[i]) {
            assert forall|i: int| 0 <= i < rest.len() implies covers_something(
                file,
                #[trigger] rest[i],
            ) by {
                assert(rest[i] == spans[i + 1]);
            }
            assert(covers_something(file, spans[0]));
        }
    }
}

/// Law: to format a document is one edit that, made to the document, leaves the formatted text.
pub proof fn law_formatting_replaces_the_document(
    file: &FileMap,
    formatted: String,
    edits: Vec<TextEdit>,
    document: &mut String,
    change: &TextDocumentContentChangeEvent,
    result: Result<(), ServerError<()>>,
)
    requires
        file.well_formed(),
        call_ensures(format_edits, (file, formatted), edits),
        old(document)@ == file.source@,
        edits@.len() > 0,
        change.range == Some(edits@[0].range),
        change.text == edits@[0].new_text,
        call_ensures(apply_change, (document, change), result),
    ensures
        edits@.len() == 1,
        result is Ok,
        final(document)@ == formatted@,
{
    crate::command::formatting::law_formatting_leaves_the_formatted_text(
        file.source@,
        edits@[0],
        *change,
    );
}

/// Law: formatting always gives an edit.
pub proof fn law_formatting_gives_an_edit(file: &FileMap, formatted: String, edits: Vec<TextEdit>)
    requires
        call_ensures(format_edits, (file, formatted), edits),
    ensures
        edits@.len() == 1,
        edits@[0].new_text == formatted,
        edits@[0].range.start == (Position { line: 0, character: 0 }),
        edits@[0].range.end.line == newline_count(file.source@) as u32,
{
    assert(file.source@.take(file.source@.len() as int) =~= file.source@);
}

/// Law: for what stands at a place its type is shown, alone if nothing was written about it, and else
/// in a block of code, behind its name if it has one and in front of the comment. The part of the
/// document that it is about is shown where there is one. Where nothing stands nothing is shown.
pub proof fn law_hover(
    file: &FileMap,
    found: Option<Found>,
    comment: Option<String>,
    shown: Option<Hover>,
)
    requires
        call_ensures(hover, (file, found, comment), shown),
    ensures
        shown is Some <==> found is Some,
        found matches Some(found) ==> {
            &&& comment is None ==> shown.unwrap().contents == HoverContents::Text(found.typ)
            &&& comment matches Some(comment) ==> {
                &&& shown.unwrap().contents is Markdown
                &&& found.ident is None ==> shown.unwrap().contents->Markdown_0@
                    == "```gluon\n"@ + found.typ@ + "\n```\n"@ + comment@
                &&& found.ident matches Some(ident) ==> shown.unwrap().contents->Markdown_0@
                    == "```gluon\n"@ + ident@ + ": "@ + found.typ@ + "\n```\n"@ + comment@
            }
            &&& shown.unwrap().range is Some <==> covers_something(*file, found.span)
            &&& shown.unwrap().range matches Some(range) ==> covers(*file, found.span, range)
        },
{
    if let Some(found) = found {
        if let Some(comment) = comment {
            let text = shown.unwrap().contents->Markdown_0@;
            if let Some(ident) = found.ident {
                assert(text =~= "```gluon\n"@ + ident@ + ": "@ + found.typ@ + "\n```\n"@
                    + comment@);
            } else {
                assert(text =~= "```gluon\n"@ + found.typ@ + "\n```\n"@ + comment@);
            }
        }
    }
}

/// Law: of the function that is being called its name, its type and its comment are shown, the type
/// of each of its arguments in their order, and which of them is being written.
pub proof fn law_signature_help(
    function: CalledFunction,
    comment: Option<String>,
    help: Option<SignatureHelp>,
    nothing: Option<SignatureHelp>,
    named: bool,
)
    requires
        call_ensures(signature_help, (Some(function), comment), help),
        call_ensures(signature_help, (None::<CalledFunction>, comment), nothing),
        call_ensures(has_comment, (&function,), named),
    ensures
        nothing is None,
        help is Some,
        named <==> function.name@ != Seq::<char>::empty(),
        ({
            let help = help.unwrap();
            let signature = help.signatures@[0];
            &&& help.signatures@.len() == 1
            &&& help.active_signature is None
            &&& help.active_parameter == function.index
            &&& signature.label == function.name
            &&& signature.documentation@ == "```gluon\n"@ + function.typ@ + "\n```\n"@ + (
            if named && comment is Some {
                comment.unwrap()@
            } else {
                Seq::empty()
            })
            &&& signature.parameters@.len() == function.arguments@.len()
            &&& forall|i: int|
                0 <= i < function.arguments@.len() ==> {
                    &&& (#[trigger] signature.parameters@[i]).label@.len() == 0
                    &&& signature.parameters@[i].documentation@ == "```gluon\n"@
                        + function.arguments@[i]@ + "\n```\n"@
                }
        }),
{
    let signature = help.unwrap().signatures@[0];
    assert(function.name@.len() == 0 ==> function.name@ =~= Seq::<char>::empty());
    assert forall|i: int| 0 <= i < function.arguments@.len() implies {
        &&& (#[trigger] signature.parameters@[i]).label@.len() == 0
        &&& signature.parameters@[i].documentation@ == "```gluon\n"@ + function.arguments@[i]@
            + "\n```\n"@
    } by {
        assert(signature.parameters@[i].documentation@ =~= "```gluon\n"@ + function.arguments@[i]@
            + "\n```\n"@);
    }
}

/// Law: symbols are in a file if each of them begins and ends behind the file's first position, and
/// so do those inside of it.
pub proof fn law_symbols_in_a_file(
    file: &FileMap,
    symbols: &Vec<Symbol>,
    valid: bool,
    inside: bool,
    others: &Vec<Symbol>,
    rest: bool,
)
    requires
        call_ensures(are_symbols_in_file, (file, symbols), valid),
        symbols@.len() > 0 ==> {
            &&& call_ensures(are_symbols_in_file, (file, &symbols@[0].children), inside)
            &&& others@ == symbols@.skip(1)
            &&& call_ensures(are_symbols_in_file, (file, others), rest)
        },
    ensures
        symbols@.len() == 0 ==> valid,
        symbols@.len() > 0 ==> valid == (file.start <= symbols@[0].span.start && file.start
            <= symbols@[0].span.end && inside && rest),
{
    if symbols@.len() > 0 {
        assert(symbols@.skip(1) =~= symbols@.drop_first());
    }
    reveal_with_fuel(symbols_in_file, 2);
    reveal_with_fuel(symbol_in_file, 2);
}


/// Law: where a symbol stands nowhere, its definition, and what is told of it, fail as its span does.
pub proof fn law_symbols_without_place_are_told(
    file: &FileMap,
    symbols: &Vec<Symbol>,
    uri: String,
    local: String,
    id: &str,
    span: Span,
    location: Result<Option<Location>, ServerError<()>>,
    failure: ServerError<()>,
    symbol: &Symbol,
    information: Result<SymbolInformation, ServerError<()>>,
)
    requires
        call_ensures(definition, (Target::Local { id: local }, file, symbols, uri), location),
        local@ == id@,
        call_ensures(find_symbol, (symbols, id), Some(span)),
        symbol.span == span,
        call_ensures(completion_symbol_to_symbol_information, (file, symbol, uri), information),
        call_ensures(byte_span_to_range, (file, span), Err::<Range, ServerError<()>>(failure)),
    ensures
        location is Err,
        location->Err_0.message@ == failure.message@,
        information is Err,
        information->Err_0.message@ == failure.message@,
{
}

/// Law: where one of several occurrences stands nowhere, the first that does is the reason why
/// nothing is highlighted.
pub proof fn law_first_occurrence_without_place_is_told(
    file: &FileMap,
    spans: &Vec<Span>,
    ranges: Result<Vec<Range>, ServerError<()>>,
    i: int,
    failure: ServerError<()>,
)
    requires
        call_ensures(highlights, (file, spans), ranges),
        0 <= i < spans@.len(),
        forall|j: int| 0 <= j < i ==> covers_something(*file, #[trigger] spans@[j]),
        call_ensures(byte_span_to_range, (file, spans@[i]), Err::<Range, ServerError<()>>(failure)),
    ensures
        ranges is Err,
        ranges->Err_0.message@ == failure.message@,
{
    lemma_first_without_range(*file, spans@, i);
}

proof fn lemma_first_without_range(file: FileMap, spans: Seq<Span>, i: int)
    requires
        0 <= i < spans.len(),
        forall|j: int| 0 <= j < i ==> covers_something(file, #[trigger] spans[j]),
        span_range(file, spans[i]) is Err,
    ensures
        first_without_range(file, spans) == Some(span_range(file, spans[i])->Err_0),
    decreases spans.len(),
{
    if i > 0 {
        let rest = spans.drop_first();
        assert(covers_something(file, spans[0]));
        assert forall|j: int| 0 <= j < i - 1 implies covers_something(file, #[trigger] rest[j]) by {
            assert(rest[j] == spans[j + 1]);
        }
        assert(rest[i - 1] == spans[i]);
        lemma_first_without_range(file, rest, i - 1);
    }
}

/// Law: where one of the symbols that hold a query stands nowhere, the first that does is the reason
/// why none is found.
pub proof fn law_first_symbol_without_place_is_told(
    found: &mut Vec<SymbolInformation>,
    file: &FileMap,
    symbols: &Vec<Symbol>,
    uri: &String,
    query: &str,
    result: Result<(), ServerError<()>>,
    i: int,
    failure: ServerError<()>,
)
    requires
        call_ensures(workspace_symbols, (found, file, symbols, uri, query), result),
        0 <= i < with_text(symbols@, query@).len(),
        forall|j: int|
            0 <= j < i ==> covers_something(*file, (#[trigger] with_text(symbols@, query@)[j]).span),
        call_ensures(
            byte_span_to_range,
            (file, with_text(symbols@, query@)[i].span),
            Err::<Range, ServerError<()>>(failure),
        ),
    ensures
        result is Err,
        result->Err_0.message@ == failure.message@,
{
    lemma_matching(symbols@, query@);
    lemma_first_symbol_without_range(*file, with_text(symbols@, query@), i);
}

proof fn lemma_first_symbol_without_range(file: FileMap, symbols: Seq<Symbol>, i: int)
    requires
        0 <= i < symbols.len(),
        forall|j: int| 0 <= j < i ==> covers_something(file, (#[trigger] symbols[j]).span),
        span_range(file, symbols[i].span) is Err,
    ensures
        first_failure(file, symbols) == Some(span_range(file, symbols[i].span)->Err_0),
    decreases symbols.len(),
{
    let front = symbols.drop_last();
    if i < symbols.len() - 1 {
        assert forall|j: int| 0 <= j < i implies covers_something(
            file,
            (#[trigger] front[j]).span,
        ) by {
            assert(front[j] == symbols[j]);
        }
        assert(front[i] == symbols[i]);
        lemma_first_symbol_without_range(file, front, i);
    } else {
        lemma_first_failure(file, front);
        assert forall|j: int| 0 <= j < front.len() implies covers_something(
            file,
            (#[trigger] front[j]).span,
        ) by {
            assert(front[j] == symbols[j]);
        }
    }
}

/// Law: an outline fails for the first reason that there is: the first symbol stands nowhere, or one
/// inside of it does, or one of the others.
pub proof fn law_first_reason_against_an_outline_is_told(
    file: &FileMap,
    symbols: &Vec<Symbol>,
    parent: Option<SymbolKind>,
    entries: Result<Vec<DocumentSymbol>, ServerError<()>>,
    own: Result<Range, ServerError<()>>,
    kind: Option<SymbolKind>,
    inside: Result<Vec<DocumentSymbol>, ServerError<()>>,
    others: &Vec<Symbol>,
    rest: Result<Vec<DocumentSymbol>, ServerError<()>>,
)
    requires
        call_ensures(
            completion_symbols_to_document_symbols_inner,
            (file, symbols, parent),
            entries,
        ),
        symbols@.len() > 0,
        call_ensures(byte_span_to_range, (file, symbols@[0].span), own),
        call_ensures(
            completion_symbols_to_document_symbols_inner,
            (file, &symbols@[0].children, kind),
            inside,
        ),
        others@ == symbols@.skip(1),
        call_ensures(
            completion_symbols_to_document_symbols_inner,
            (file, others, parent),
            rest,
        ),
    ensures
        ({
            let shown = !(symbols@[0].content matches SymbolContent::Value { is_parameter, .. }
                && is_parameter);
            &&& entries is Err <==> shown && (own is Err || inside is Err) || rest is Err
            &&& entries matches Err(error) ==> error.message@ == (if shown && own is Err {
                own->Err_0.message@
            } else if shown && inside is Err {
                inside->Err_0.message@
            } else {
                rest->Err_0.message@
            })
        }),
{
    assert(symbols@.skip(1) =~= symbols@.drop_first());
    reveal_with_fuel(obstacle, 2);
    reveal_with_fuel(first_obstacle, 2);
}

} // verus!
