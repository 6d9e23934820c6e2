use gluon_language_server::command::completion::{completions, Suggestion};
use gluon_language_server::command::definition::{definition, find_symbol, Target};
use gluon_language_server::command::document_highlight::highlights;
use gluon_language_server::command::document_symbols::{
    are_symbols_in_file, completion_symbol_to_document_symbol,
    completion_symbols_to_document_symbols, completion_symbols_to_document_symbols_inner, Symbol,
};
use gluon_language_server::command::formatting::format_edits;
use gluon_language_server::command::hover::{hover, Found, HoverContents};
use gluon_language_server::command::signature_help::{
    has_comment, signature_help, CalledFunction,
};
use gluon_language_server::command::symbol::{
    completion_symbol_to_symbol_information, contains_text, matching_symbols, workspace_symbols,
};
use gluon_language_server::command::{
    completion_symbol_kind, expr_to_kind, ident_to_completion_item_kind, make_documentation,
    type_to_completion_item_kind, type_to_kind, BuiltinType, CompletionItemKind, Expr, Meaning,
    ProgramType, SymbolContent, SymbolKind, TypeShape,
};
use gluon_language_server::order::is_before;
use gluon_language_server::protocol::{Location, Position, Range, TextDocumentContentChangeEvent};
use gluon_language_server::source::{FileMap, Span};
use gluon_language_server::text::{decimal_string, same_text, to_chars, utf16_count};
use gluon_language_server::text_edit::{apply_change, is_valid_change};
use gluon_language_server::text_map::TextMap;

fn typ(shape: TypeShape) -> ProgramType {
    ProgramType {
        is_function: false,
        shape,
    }
}

fn function() -> ProgramType {
    ProgramType {
        is_function: true,
        shape: TypeShape::Other,
    }
}

fn alias(name: &str, target: ProgramType) -> ProgramType {
    typ(TypeShape::Alias {
        name: name.to_string(),
        target: Box::new(target),
    })
}

fn range(start: (u32, u32), end: (u32, u32)) -> Range {
    Range {
        start: Position {
            line: start.0,
            character: start.1,
        },
        end: Position {
            line: end.0,
            character: end.1,
        },
    }
}

#[test]
fn completions_of_types() {
    let kind = |typ: ProgramType| type_to_completion_item_kind(&typ);
    assert_eq!(kind(function()), CompletionItemKind::Function);
    assert_eq!(kind(alias("F", function())), CompletionItemKind::Function);
    assert_eq!(
        kind(typ(TypeShape::App(Box::new(alias("R", typ(TypeShape::Record)))))),
        CompletionItemKind::Module
    );
    assert_eq!(kind(typ(TypeShape::Variant)), CompletionItemKind::Enum);
    assert_eq!(kind(typ(TypeShape::Hole)), CompletionItemKind::Variable);
    assert_eq!(
        kind(typ(TypeShape::Builtin(BuiltinType::Function))),
        CompletionItemKind::Variable
    );
}

#[test]
fn completions_of_names() {
    let value = |typ| Meaning::Value(typ);
    let kind = |id: &str, meaning: Meaning| ident_to_completion_item_kind(id, &meaning);
    assert_eq!(kind("Test", Meaning::Type), CompletionItemKind::Class);
    assert_eq!(kind("test", Meaning::Type), CompletionItemKind::Class);
    assert_eq!(
        kind("Some", value(function())),
        CompletionItemKind::Constructor
    );
    assert_eq!(
        kind("Ärta", value(function())),
        CompletionItemKind::Constructor
    );
    assert_eq!(kind("map", value(function())), CompletionItemKind::Function);
    assert_eq!(kind("", value(function())), CompletionItemKind::Function);
    assert_eq!(kind("+", value(function())), CompletionItemKind::Function);
}

#[test]
fn symbols_of_types() {
    let kind = |typ: ProgramType| type_to_kind(&typ);
    let builtin = |builtin| kind(typ(TypeShape::Builtin(builtin)));
    assert_eq!(kind(function()), SymbolKind::Function);
    assert_eq!(
        kind(typ(TypeShape::Ident("Bool".to_string()))),
        SymbolKind::Boolean
    );
    assert_eq!(
        kind(typ(TypeShape::Ident("Boole".to_string()))),
        SymbolKind::Variable
    );
    assert_eq!(
        kind(alias("Bool", typ(TypeShape::Variant))),
        SymbolKind::Boolean
    );
    assert_eq!(kind(alias("F", function())), SymbolKind::Variable);
    assert_eq!(builtin(BuiltinType::Char), SymbolKind::Text);
    assert_eq!(builtin(BuiltinType::Text), SymbolKind::Text);
    assert_eq!(builtin(BuiltinType::Byte), SymbolKind::Number);
    assert_eq!(builtin(BuiltinType::Int), SymbolKind::Number);
    assert_eq!(builtin(BuiltinType::Float), SymbolKind::Number);
    assert_eq!(builtin(BuiltinType::Array), SymbolKind::Array);
    assert_eq!(builtin(BuiltinType::Function), SymbolKind::Function);
    assert_eq!(kind(typ(TypeShape::Record)), SymbolKind::Variable);
}

#[test]
fn symbols_of_expressions() {
    let ident = |name: &str| Expr::Ident(name.to_string());
    assert_eq!(
        expr_to_kind(&ident("std.prelude"), &function()),
        SymbolKind::Module
    );
    assert_eq!(expr_to_kind(&ident("map"), &function()), SymbolKind::Function);
    assert_eq!(expr_to_kind(&Expr::Other, &function()), SymbolKind::Function);
    let value = |expr| SymbolContent::Value {
        typ: function(),
        is_parameter: false,
        expr,
    };
    assert_eq!(completion_symbol_kind(&value(None)), SymbolKind::Variable);
    assert_eq!(
        completion_symbol_kind(&value(Some(Expr::Other))),
        SymbolKind::Function
    );
    assert_eq!(
        completion_symbol_kind(&SymbolContent::Type(typ(TypeShape::Variant))),
        SymbolKind::Enum
    );
    assert_eq!(
        completion_symbol_kind(&SymbolContent::Type(typ(TypeShape::Record))),
        SymbolKind::Class
    );
}

#[test]
fn documentation_is_markdown() {
    assert_eq!(make_documentation(None, "comment"), "comment");
    assert_eq!(
        make_documentation(Some("Int"), "comment"),
        "```gluon\nInt\n```\ncomment"
    );
}

fn suggestion(name: &str, meaning: Meaning) -> Suggestion {
    Suggestion {
        name: name.to_string(),
        meaning,
        printed: format!("type of {}", name),
    }
}

#[test]
fn completions_are_sorted_by_label() {
    let value = || Meaning::Value(typ(TypeShape::Record));
    let suggestions = vec![
        suggestion("zip", value()),
        suggestion("b:Line 2, Row 3", value()),
        suggestion("__hidden", value()),
        suggestion("b", Meaning::Type),
        suggestion("_shown", Meaning::Value(typ(TypeShape::Hole))),
        suggestion("<>", value()),
        suggestion("B", value()),
        suggestion(":", value()),
    ];
    let at = Position {
        line: 1,
        character: 2,
    };
    let items = completions(&suggestions, &"file:///a".to_string(), at);
    let labels: Vec<&str> = items.iter().map(|item| item.label.as_str()).collect();
    assert_eq!(labels, vec!["", "<>", "B", "_shown", "b", "b", "zip"]);
    assert_eq!(items[0].insert_text, Some("()".to_string()));
    assert_eq!(items[1].insert_text, Some("(<>)".to_string()));
    assert_eq!(items[1].kind, Some(CompletionItemKind::Module));
    assert_eq!(items[2].kind, Some(CompletionItemKind::Constructor));
    assert_eq!(items[2].insert_text, None);
    assert_eq!(items[3].insert_text, Some("(_shown)".to_string()));
    assert_eq!(items[3].detail, None);
    // Names with the same label keep their order.
    assert_eq!(items[4].detail, Some("type of b:Line 2, Row 3".to_string()));
    assert_eq!(items[5].kind, Some(CompletionItemKind::Class));
    let data = items[6].data.as_ref().unwrap();
    assert_eq!(data.text_document_uri, "file:///a");
    assert_eq!(data.position, at);
    assert_eq!(items[6].documentation, None);
}

fn file() -> FileMap {
    FileMap {
        name: "a".to_string(),
        source: "let åb = 1\ntype T = | A | B\n".to_string(),
        start: 10,
    }
}

fn symbol(id: &str, start: u32, end: u32, content: SymbolContent, children: Vec<Symbol>) -> Symbol {
    Symbol {
        id: id.to_string(),
        name: format!("name of {}", id),
        span: Span { start, end },
        content,
        detail: format!("detail of {}", id),
        children,
    }
}

fn value(is_parameter: bool) -> SymbolContent {
    SymbolContent::Value {
        typ: function(),
        is_parameter,
        expr: Some(Expr::Other),
    }
}

fn variant() -> SymbolContent {
    SymbolContent::Type(typ(TypeShape::Variant))
}

fn symbols() -> Vec<Symbol> {
    vec![
        symbol(
            "b",
            14,
            17,
            value(false),
            vec![
                symbol("x", 14, 16, value(true), vec![]),
                symbol("y", 16, 17, value(false), vec![]),
            ],
        ),
        symbol(
            "T",
            27,
            28,
            variant(),
            vec![symbol("A", 33, 34, value(false), vec![])],
        ),
    ]
}

#[test]
fn outline() {
    assert!(are_symbols_in_file(&file(), &symbols()));
    let entries = completion_symbols_to_document_symbols(&file(), &symbols()).unwrap();
    assert_eq!(entries.len(), 2);
    assert_eq!(entries[0].name, "name of b");
    assert_eq!(entries[0].detail, Some("detail of b".to_string()));
    assert_eq!(entries[0].kind, SymbolKind::Function);
    assert_eq!(entries[0].range, range((0, 4), (0, 6)));
    assert_eq!(entries[0].selection_range, entries[0].range);
    // Parameters do not belong into an outline.
    let children = entries[0].children.as_ref().unwrap();
    assert_eq!(children.len(), 1);
    assert_eq!(children[0].name, "name of y");
    assert_eq!(children[0].children, None);
    assert_eq!(entries[1].kind, SymbolKind::Enum);
    let members = entries[1].children.as_ref().unwrap();
    assert_eq!(members[0].kind, SymbolKind::EnumMember);
    let inner =
        completion_symbols_to_document_symbols_inner(&file(), &symbols(), Some(SymbolKind::Enum));
    assert_eq!(inner.unwrap()[1].kind, SymbolKind::EnumMember);
}

#[test]
fn details_of_several_lines_are_left_out() {
    let mut symbol = symbols().remove(0);
    symbol.detail = "a\nb".to_string();
    let entry = completion_symbol_to_document_symbol(&file(), &symbol, None).unwrap();
    assert_eq!(entry.detail, None);
}

#[test]
fn outline_can_fail() {
    let mut wrong = symbols();
    wrong[1].children[0].span.end = 99;
    let error = completion_symbols_to_document_symbols(&file(), &wrong).unwrap_err();
    assert_eq!(error.message, "invalid column 60, maximum column 0");
    wrong[0].span.end = 15;
    let error = completion_symbols_to_document_symbols(&file(), &wrong).unwrap_err();
    assert_eq!(error.message, "index is not a code point boundary");
    wrong[0].children[1].span.start = 9;
    assert!(!are_symbols_in_file(&file(), &wrong));
    // What is not listed does not matter.
    let mut wrong = symbols();
    wrong[0].children[0].span.end = 15;
    assert!(completion_symbols_to_document_symbols(&file(), &wrong).is_ok());
}

#[test]
fn symbols_are_found_by_part_of_their_name() {
    let uri = "file:///a".to_string();
    let mut found = matching_symbols(&file(), &symbols(), &uri, "of T").unwrap();
    assert_eq!(found.len(), 1);
    assert_eq!(found[0].name, "name of T");
    assert_eq!(found[0].kind, SymbolKind::Enum);
    assert_eq!(
        found[0].location,
        Location {
            uri: uri.clone(),
            range: range((1, 5), (1, 6)),
        }
    );
    workspace_symbols(&mut found, &file(), &symbols(), &uri, "").unwrap();
    let names: Vec<&str> = found.iter().map(|s| s.name.as_str()).collect();
    assert_eq!(names, vec!["name of T", "name of b", "name of T"]);
    let mut wrong = symbols();
    wrong[1].span.end = 99;
    assert!(workspace_symbols(&mut found, &file(), &wrong, &uri, "of b").is_ok());
    assert_eq!(found.len(), 4);
    assert!(workspace_symbols(&mut found, &file(), &wrong, &uri, "").is_err());
    assert_eq!(found.len(), 4);
    let information =
        completion_symbol_to_symbol_information(&file(), &symbols()[0], uri.clone()).unwrap();
    assert_eq!(information.location.uri, uri);
    assert_eq!(information.kind, SymbolKind::Function);
}

#[test]
fn texts_contain_parts() {
    assert!(contains_text("myfunc", "func"));
    assert!(contains_text("myfunc", ""));
    assert!(contains_text("", ""));
    assert!(contains_text("aab", "ab"));
    assert!(contains_text("åäö", "äö"));
    assert!(!contains_text("myfunc", "funcs"));
    assert!(!contains_text("a", "ab"));
    assert!(!contains_text("myfunc", "Func"));
}

#[test]
fn definitions() {
    let uri = || "file:///a".to_string();
    let find = |target| definition(target, &file(), &symbols(), uri());
    let local = |id: &str| Target::Local { id: id.to_string() };
    assert_eq!(find(Target::Nothing), Ok(None));
    assert_eq!(
        find(Target::Module {
            uri: "file:///b".to_string()
        }),
        Ok(Some(Location {
            uri: "file:///b".to_string(),
            range: range((0, 0), (0, 0)),
        }))
    );
    assert_eq!(
        find(local("A")),
        Ok(Some(Location {
            uri: uri(),
            range: range((1, 11), (1, 12)),
        }))
    );
    assert_eq!(find(local("unknown")), Ok(None));
    let mut wrong = symbols();
    wrong[0].span.start = 15;
    let error = definition(local("b"), &file(), &wrong, uri()).unwrap_err();
    assert_eq!(error.message, "index is not a code point boundary");
}

#[test]
fn first_symbol_is_found() {
    assert_eq!(
        find_symbol(&symbols(), "y"),
        Some(Span { start: 16, end: 17 })
    );
    let mut twice = symbols();
    twice[1].id = "y".to_string();
    assert_eq!(find_symbol(&twice, "y"), Some(Span { start: 16, end: 17 }));
    assert_eq!(find_symbol(&symbols(), "z"), None);
}

#[test]
fn highlighted_ranges() {
    let span = |start, end| Span { start, end };
    assert_eq!(
        highlights(&file(), &vec![span(14, 17), span(10, 13)]),
        Ok(vec![range((0, 4), (0, 6)), range((0, 0), (0, 3))])
    );
    let error = highlights(&file(), &vec![span(10, 13), span(15, 17)]).unwrap_err();
    assert_eq!(error.message, "index is not a code point boundary");
    assert_eq!(highlights(&file(), &vec![]), Ok(vec![]));
}

#[test]
fn formatting_replaces_the_whole_document() {
    let edits = format_edits(&file(), "new".to_string());
    assert_eq!(edits.len(), 1);
    assert_eq!(edits[0].range, range((0, 0), (2, 0)));
    assert_eq!(edits[0].new_text, "new");
}

#[test]
fn formatting_leaves_the_formatted_text() {
    for text in ["", "let x = 1\nx", "åäö\n𝒳 1\n\n"] {
        let file = FileMap {
            name: "a".to_string(),
            source: text.to_string(),
            start: 1,
        };
        let edit = format_edits(&file, "formatted\n".to_string()).remove(0);
        let change = TextDocumentContentChangeEvent {
            range: Some(edit.range),
            range_length: None,
            text: edit.new_text,
        };
        let mut source = text.to_string();
        assert!(is_valid_change(&source, &change));
        assert_eq!(apply_change(&mut source, &change), Ok(()));
        assert_eq!(source, "formatted\n");
    }
}

#[test]
fn hovered_place() {
    let found = |ident: Option<&str>, start, end| Found {
        typ: "Int".to_string(),
        ident: ident.map(|ident| ident.to_string()),
        span: Span { start, end },
    };
    assert_eq!(hover(&file(), None, Some("doc".to_string())), None);
    let show = |found, comment| hover(&file(), Some(found), comment).unwrap();
    let plain = show(found(Some("åb"), 14, 17), None);
    assert_eq!(plain.contents, HoverContents::Text("Int".to_string()));
    assert_eq!(plain.range, Some(range((0, 4), (0, 6))));
    let commented = show(found(Some("åb"), 14, 99), Some("doc".to_string()));
    assert_eq!(
        commented.contents,
        HoverContents::Markdown("```gluon\nåb: Int\n```\ndoc".to_string())
    );
    assert_eq!(commented.range, None);
    let nameless = show(found(None, 14, 17), Some("doc".to_string()));
    assert_eq!(
        nameless.contents,
        HoverContents::Markdown("```gluon\nInt\n```\ndoc".to_string())
    );
}

#[test]
fn signatures() {
    let called = |name: &str| CalledFunction {
        name: name.to_string(),
        typ: "Int -> String".to_string(),
        arguments: vec!["Int".to_string()],
        index: Some(0),
    };
    assert!(has_comment(&called("show")));
    assert!(!has_comment(&called("")));
    assert_eq!(signature_help(None, Some("Shows.".to_string())), None);
    let show = |function, comment| signature_help(Some(function), comment).unwrap();
    let help = show(called("show"), Some("Shows.".to_string()));
    assert_eq!(help.active_parameter, Some(0));
    assert_eq!(help.active_signature, None);
    assert_eq!(help.signatures[0].label, "show");
    assert_eq!(
        help.signatures[0].documentation,
        "```gluon\nInt -> String\n```\nShows."
    );
    assert_eq!(
        help.signatures[0].parameters[0].documentation,
        "```gluon\nInt\n```\n"
    );
    let help = show(called(""), Some("Shows.".to_string()));
    assert_eq!(
        help.signatures[0].documentation,
        "```gluon\nInt -> String\n```\n"
    );
    let help = show(called("show"), None);
    assert_eq!(
        help.signatures[0].documentation,
        "```gluon\nInt -> String\n```\n"
    );
}

#[test]
fn texts_are_ordered_as_strings_are() {
    let texts = ["", "a", "aa", "b", "B", "ä", "z", "\u{10400}", "\u{ffff}", "1", "10", "9"];
    for a in texts {
        for b in texts {
            assert_eq!(is_before(a, b), a < b);
            assert_eq!(same_text(a, b), a == b);
        }
    }
}

#[test]
fn text_map_is_ordered() {
    let mut map = TextMap::new();
    *map.entry("b".to_string(), 0) += 1;
    *map.entry("a".to_string(), 5) += 1;
    *map.entry("b".to_string(), 0) += 1;
    map.insert("c".to_string(), 9);
    map.insert("a".to_string(), 7);
    assert_eq!(map.get("b"), Some(&2));
    assert_eq!(map.get("d"), None);
    assert_eq!(
        map.into_items(),
        vec![
            ("a".to_string(), 7),
            ("b".to_string(), 2),
            ("c".to_string(), 9),
        ]
    );
}

#[test]
fn texts_are_taken_apart() {
    assert_eq!(decimal_string(0), "0");
    assert_eq!(decimal_string(1203), "1203");
    assert_eq!(decimal_string(u64::MAX), u64::MAX.to_string());
    assert_eq!(to_chars("aå𐐀"), vec!['a', 'å', '𐐀']);
    assert_eq!(utf16_count("aå𐐀"), 4);
}
