//! Documents that are compiled by gluon, and what an editor is told of them.

use std::path::PathBuf;
use std::sync::Arc;

use codespan_reporting::diagnostic::{LabelStyle as GluonLabelStyle, Severity as GluonSeverity};
use gluon::base::ast::{Expr as GluonExpr, OwnedExpr};
use gluon::base::error::{AsDiagnostic, InFile};
use gluon::base::pos::{BytePos, Span as GluonSpan, Spanned};
use gluon::base::symbol::Symbol as GluonSymbol;
use gluon::base::types::{
    arg_iter, ArcType, BuiltinType as GluonBuiltin, Type, TypeExt, TypePtr,
};
use gluon::either::Either;
use gluon::query::{AsyncCompilation, CompilationBase};
use gluon::{RootedThread, ThreadExt};
use gluon_completion::{
    CompletionSymbol, CompletionSymbolContent, CompletionValueKind, Extract, IdentAt, SpanAt,
    SuggestionQuery, TypeAt,
};

use gluon_language_server::check_importer::CheckImporter;
use gluon_language_server::command::completion::{completions, resolve, CompletionItem, Suggestion};
use gluon_language_server::command::definition::{definition, Target};
use gluon_language_server::command::document_highlight::highlights;
use gluon_language_server::command::document_symbols::{
    are_symbols_in_file, completion_symbols_to_document_symbols, Symbol,
};
use gluon_language_server::command::formatting::{format_edits, TextEdit};
use gluon_language_server::command::hover::{hover, Found, Hover, HoverContents};
use gluon_language_server::command::signature_help::{
    has_comment, signature_help, CalledFunction, SignatureHelp,
};
use gluon_language_server::command::symbol::workspace_symbols;
use gluon_language_server::command::{
    BuiltinType, CompletionItemKind, Expr, Meaning, ProgramType, SymbolContent, SymbolKind,
    TypeShape,
};
use gluon_language_server::diagnostics::report::{is_fitting_error, CompileError};
use gluon_language_server::diagnostics::worker::{
    accepts_change, did_change, did_open, run_diagnostics, Changed, PublishDiagnosticsParams,
};
use gluon_language_server::diagnostics::{
    CodeDiagnostic, DiagnosticSeverity, Label, LabelStyle, Severity,
};
use gluon_language_server::name::{
    codespan_name_to_file, file_path, filename_to_module, module_name_to_file, strip_file_prefix,
};
use gluon_language_server::position_to_byte_index;
use gluon_language_server::protocol::{Location, Position, Range, TextDocumentContentChangeEvent, Uri};
use gluon_language_server::rpc::queue::{unique_queue, Entry, Polled, Received, UniqueStream};
use gluon_language_server::source::{CodeMap, FileMap, Span};
use gluon_language_server::text_edit::VersionedChange;
use gluon_language_server::CompletionData;

fn position(line: u32, character: u32) -> Position {
    Position { line, character }
}

fn range(start: (u32, u32), end: (u32, u32)) -> Range {
    Range {
        start: position(start.0, start.1),
        end: position(end.0, end.1),
    }
}

/// The url of a file in the directory that the tests pretend to run in.
fn test_url(path: &str) -> String {
    format!("file:///work/{}", path)
}

/// The name of the module that a document holds.
fn module_of(uri: &str) -> String {
    let path = file_path(uri).unwrap();
    let work = || PathBuf::from("/work");
    let filename = strip_file_prefix(&vec![Some(work())], None, Ok(path), Ok(work())).unwrap();
    filename_to_module(&filename)
}

fn span_of(span: GluonSpan<BytePos>) -> Span {
    Span {
        start: span.start().0,
        end: span.end().0,
    }
}

fn file_map(source: &gluon::base::source::FileMap) -> FileMap {
    FileMap {
        name: source.name().to_string(),
        source: source.source().to_string(),
        start: source.span().start().0,
    }
}

fn shape<T>(typ: &T, of: impl Fn(&T) -> ProgramType) -> TypeShape
where
    T: TypePtr<Id = GluonSymbol>,
{
    match &**typ {
        Type::Alias(alias) => TypeShape::Alias {
            name: alias.name.declared_name().to_string(),
            target: Box::new(of(alias.unresolved_type())),
        },
        Type::App(function, _) => TypeShape::App(Box::new(of(function))),
        Type::Variant(_) => TypeShape::Variant,
        Type::Record(_) => TypeShape::Record,
        Type::Ident(id) => TypeShape::Ident(id.name.declared_name().to_string()),
        Type::Builtin(builtin) => TypeShape::Builtin(match builtin {
            GluonBuiltin::String => BuiltinType::Text,
            GluonBuiltin::Byte => BuiltinType::Byte,
            GluonBuiltin::Char => BuiltinType::Char,
            GluonBuiltin::Int => BuiltinType::Int,
            GluonBuiltin::Float => BuiltinType::Float,
            GluonBuiltin::Array => BuiltinType::Array,
            GluonBuiltin::Function => BuiltinType::Function,
        }),
        Type::Hole => TypeShape::Hole,
        _ => TypeShape::Other,
    }
}

fn program_type(typ: &ArcType) -> ProgramType {
    ProgramType {
        is_function: typ.remove_forall().as_function().is_some(),
        shape: shape(typ, program_type),
    }
}

fn identity(name: &gluon::base::symbol::SymbolRef) -> String {
    format!("{:p}", name.as_str().as_ptr())
}

fn symbol(symbol: &Spanned<CompletionSymbol, BytePos>) -> Symbol {
    let (content, detail) = match &symbol.value.content {
        CompletionSymbolContent::Type { typ } => {
            let variant = matches!(&***typ, Type::Variant(_));
            let typ_ = ProgramType {
                is_function: false,
                shape: if variant { TypeShape::Variant } else { TypeShape::Other },
            };
            (SymbolContent::Type(typ_), typ.display::<()>(1000000).to_string())
        }
        CompletionSymbolContent::Value { typ, kind, expr } => (
            SymbolContent::Value {
                typ: program_type(typ),
                is_parameter: *kind == CompletionValueKind::Parameter,
                expr: expr.map(|expr| match &expr.value {
                    GluonExpr::Ident(id) => Expr::Ident(id.name.declared_name().to_string()),
                    _ => Expr::Other,
                }),
            },
            typ.display::<()>(1000000).to_string(),
        ),
    };
    Symbol {
        id: identity(symbol.value.name),
        name: symbol.value.name.declared_name().to_string(),
        span: span_of(symbol.span),
        content,
        detail,
        children: symbol.value.children.iter().map(self::symbol).collect(),
    }
}

/// A server, with gluon behind it.
struct Server {
    thread: RootedThread,
    modules: CheckImporter,
    queue: UniqueStream<Uri, String, i64>,
}

/// A document that was compiled.
struct Document {
    file: FileMap,
    span: GluonSpan<BytePos>,
    expr: Arc<OwnedExpr<GluonSymbol>>,
    uri: String,
}

impl Server {
    fn new() -> Server {
        Server {
            thread: gluon::new_vm(),
            modules: CheckImporter::new(),
            queue: unique_queue(),
        }
    }

    fn open(&mut self, uri: &str, text: &str) -> Vec<PublishDiagnosticsParams> {
        let module = module_of(uri);
        self.thread.get_database_mut().add_module(module, text);
        self.check(did_open(uri.to_string(), text.to_string(), 1))
    }

    fn change(
        &mut self,
        uri: &str,
        version: i64,
        content_changes: Vec<TextDocumentContentChangeEvent>,
    ) -> Vec<PublishDiagnosticsParams> {
        let name = module_of(uri);
        let source = self
            .thread
            .get_database()
            .get_filemap(&name)
            .map(|file| file.source().to_string())
            .unwrap_or_default();
        let change = VersionedChange {
            version,
            content_changes,
        };
        assert!(accepts_change(&self.modules, &name, &change, &source));
        match did_change(&mut self.modules, name.clone(), uri.to_string(), change, source) {
            Changed::Nothing => Vec::new(),
            Changed::Document { version, source } => {
                self.thread.get_database_mut().add_module(name, &source);
                self.check(did_open(uri.to_string(), source, version))
            }
            Changed::Failed(error) => panic!("{}", error.message),
        }
    }

    fn check(&mut self, entry: Entry<Uri, String, i64>) -> Vec<PublishDiagnosticsParams> {
        assert!(self.queue.receive(Received::Item(entry)));
        let entry = match self.queue.pop() {
            Polled::Item(entry) => entry,
            _ => panic!("nothing to check"),
        };
        let uri = entry.key.text;
        let name = module_of(&uri);
        let mut db = self.thread.get_database();
        db.update_filemap(&name, entry.value);
        let checked =
            futures::executor::block_on(db.typechecked_source_module(name.clone(), None));
        self.modules.checked(name, uri.clone(), Some(entry.version));
        let checked = match checked {
            Ok(_) => Ok(()),
            Err(salvaged) => Err(self.reason_of(&salvaged.error)),
        };
        if let Err(error) = &checked {
            assert!(is_fitting_error(error));
        }
        run_diagnostics(&uri, Some(entry.version), checked, &|name: &str| {
            let joined = PathBuf::from(format!("/work/{}.glu", name));
            codespan_name_to_file(name, Err("".to_string()), Some(joined)).map_err(|_| ())
        })
        .unwrap()
    }

    fn reason_of(&self, error: &gluon::Error) -> CompileError {
        match error {
            gluon::Error::Typecheck(error) => self.in_file(error),
            gluon::Error::Parse(error) => self.in_file(error),
            gluon::Error::Macro(error) => self.in_file(error),
            gluon::Error::Multiple(errors) => CompileError::Multiple(
                errors.iter().map(|error| self.reason_of(error)).collect(),
            ),
            error => CompileError::Other(error.to_string()),
        }
    }

    fn in_file<T>(&self, error: &InFile<T>) -> CompileError
    where
        T: std::fmt::Display + AsDiagnostic,
    {
        let name = error.source_name();
        let joined = Some(PathBuf::from(format!("/work/{}.glu", name)));
        let uri = module_name_to_file(&self.modules, name, Err("".to_string()), joined).unwrap();
        let mut files: Vec<FileMap> = Vec::new();
        let mut errors = Vec::new();
        for error_ in error.errors() {
            let diagnostic = error_.as_diagnostic(error.source());
            for label in &diagnostic.labels {
                if let Some(file) = error.source().get(label.file_id) {
                    let file = file_map(file);
                    if !files.contains(&file) {
                        files.push(file);
                    }
                }
            }
            errors.push(CodeDiagnostic {
                severity: match diagnostic.severity {
                    GluonSeverity::Bug => Severity::Bug,
                    GluonSeverity::Error => Severity::Error,
                    GluonSeverity::Warning => Severity::Warning,
                    GluonSeverity::Note => Severity::Note,
                    GluonSeverity::Help => Severity::Help,
                },
                message: diagnostic.message,
                labels: diagnostic
                    .labels
                    .into_iter()
                    .map(|label| Label {
                        style: match label.style {
                            GluonLabelStyle::Primary => LabelStyle::Primary,
                            GluonLabelStyle::Secondary => LabelStyle::Secondary,
                        },
                        file_id: label.file_id.0,
                        start: label.range.start,
                        end: label.range.end,
                        message: label.message,
                    })
                    .collect(),
            });
        }
        files.sort_by_key(|file| file.start);
        CompileError::InFile {
            uri,
            source: CodeMap { files },
            errors,
        }
    }

    fn document(&self, uri: &str) -> Document {
        let name = module_of(uri);
        self.module(&name)
    }

    fn module(&self, name: &str) -> Document {
        let mut db = self.thread.get_database();
        let checked =
            futures::executor::block_on(db.typechecked_source_module(name.to_string(), None));
        let loaded = match checked {
            Ok(value) => Some(value.expr),
            Err(salvaged) => salvaged.value.map(|value| value.expr),
        };
        let module = self.modules.module(name, loaded);
        let module = self.modules.require(name, module).unwrap();
        let source = db.get_filemap(name).expect("source");
        Document {
            file: file_map(&source),
            span: source.span(),
            expr: module.source,
            uri: module.uri,
        }
    }

    fn complete(&self, uri: &str, at: Position) -> Vec<CompletionItem> {
        let document = self.document(uri);
        let index = position_to_byte_index(&document.file, &at).unwrap();
        let db = self.thread.get_database();
        let suggestions = SuggestionQuery::default()
            .suggest(&db.as_env(), document.span, document.expr.expr(), index.into())
            .into_iter()
            .map(|suggestion| Suggestion {
                name: suggestion.name,
                printed: format!("{}", suggestion.typ),
                meaning: match &suggestion.typ {
                    Either::Left(_) => Meaning::Type,
                    Either::Right(typ) => Meaning::Value(program_type(typ)),
                },
            })
            .collect();
        let mut items = completions(&suggestions, &uri.to_string(), at);
        for item in &mut items {
            let data = item.data.take().unwrap();
            assert_eq!(data.text_document_uri, uri);
            assert_eq!(data.position, at);
        }
        items
    }

    fn comment(&self, uri: &str, at: Position, label: &str) -> Option<String> {
        let document = self.document(uri);
        let index = position_to_byte_index(&document.file, &at).unwrap();
        let db = self.thread.get_database();
        let env = db.as_env();
        let (_, metadata) = gluon::check::metadata::metadata(&env, document.expr.expr());
        gluon_completion::suggest_metadata(
            &metadata,
            &env,
            document.span,
            document.expr.expr(),
            index.into(),
            label,
        )
        .and_then(|metadata| metadata.comment.as_ref())
        .map(|comment| comment.content.clone())
    }

    fn symbols(&self, document: &Document) -> Vec<Symbol> {
        let symbols = gluon_completion::all_symbols(document.span, document.expr.expr());
        let symbols = symbols.iter().map(symbol).collect();
        assert!(are_symbols_in_file(&document.file, &symbols));
        symbols
    }

    fn hover(&self, uri: &str, at: Position) -> Option<Hover> {
        let document = self.document(uri);
        let index = position_to_byte_index(&document.file, &at).unwrap();
        let db = self.thread.get_database();
        let env = db.as_env();
        let expr = document.expr.expr();
        let (_, metadata) = gluon::check::metadata::metadata(&env, expr);
        let comment =
            gluon_completion::get_metadata(&metadata, document.span, expr, index.into())
                .and_then(|metadata| metadata.comment.as_ref())
                .map(|comment| comment.content.clone());
        let found = gluon_completion::complete(document.span, expr, index.into()).ok()?;
        let (typ, span) = (TypeAt { env: &env }, SpanAt).extract(&found).ok()?;
        let found = Found {
            typ: typ.to_string(),
            ident: IdentAt
                .extract(&found)
                .ok()
                .map(|ident| ident.declared_name().to_string()),
            span: span_of(span),
        };
        hover(&document.file, Some(found), comment)
    }

    fn definition(&self, uri: &str, at: Position) -> Option<Location> {
        let document = self.document(uri);
        let index = position_to_byte_index(&document.file, &at).unwrap();
        let expr = document.expr.expr();
        let target = match gluon_completion::symbol(document.span, expr, index.into()) {
            Err(()) => Target::Nothing,
            Ok(symbol) if symbol.is_global() => Target::Module {
                uri: self.module(symbol.as_pretty_str()).uri,
            },
            Ok(symbol) => Target::Local {
                id: identity(symbol),
            },
        };
        let symbols = self.symbols(&document);
        definition(target, &document.file, &symbols, document.uri.clone()).unwrap()
    }
}

fn completed(label: &str, kind: CompletionItemKind, detail: &str) -> CompletionItem {
    CompletionItem {
        label: label.to_string(),
        kind: Some(kind),
        detail: Some(detail.to_string()),
        insert_text: None,
        documentation: None,
        data: None,
    }
}

fn edit(at: Range, text: &str) -> Vec<TextDocumentContentChangeEvent> {
    vec![TextDocumentContentChangeEvent {
        range: Some(at),
        range_length: None,
        text: text.to_string(),
    }]
}

#[test]
fn local_completion_simple() {
    let text = r#"
let test = 2
let test1 = ""
te
"#;
    let mut server = Server::new();
    server.open(&test_url("test"), text);
    assert_eq!(
        server.complete(&test_url("test"), position(3, 2)),
        vec![
            completed("test", CompletionItemKind::Variable, "Int"),
            completed("test1", CompletionItemKind::Variable, "String"),
        ]
    );
}

#[test]
fn operator_completion_on_whitespace() {
    let text = r#"
let {  } = { (*>) = 1 }
()
"#;
    let mut server = Server::new();
    server.open(&test_url("test"), text);
    assert_eq!(
        server.complete(&test_url("test"), position(1, 7)),
        vec![CompletionItem {
            insert_text: Some("(*>)".to_string()),
            ..completed("*>", CompletionItemKind::Variable, "Int")
        }]
    );
}

#[test]
fn prelude_completion() {
    let mut server = Server::new();
    server.open(&test_url("test"), "no");
    assert_eq!(
        server.complete(&test_url("test"), position(0, 1)),
        vec![completed(
            "not",
            CompletionItemKind::Function,
            "std.types.Bool -> std.types.Bool"
        )]
    );
}

#[test]
fn resolve_completion() {
    let text = r#"
/// doc
let test = 2
let test1 = ""
te
"#;
    let mut server = Server::new();
    server.open(&test_url("test"), text);
    let completion = || CompletionItem {
        data: Some(CompletionData {
            text_document_uri: test_url("test"),
            position: position(4, 2),
        }),
        ..completed("test", CompletionItemKind::Variable, "Int")
    };
    let comment = server.comment(&test_url("test"), position(4, 2), "test");
    assert_eq!(
        resolve(completion(), comment.as_deref()),
        CompletionItem {
            documentation: Some("doc".to_string()),
            ..completion()
        }
    );
    assert_eq!(
        resolve(completion(), None).documentation,
        Some("".to_string())
    );
}

#[test]
fn url_encoded_path() {
    let text = r#"
let r = { abc = 1 }
r.
"#;
    let uri = "file:///C%3A/examples/test.glu";
    let mut server = Server::new();
    server.open(uri, text);
    assert_eq!(
        server.complete(uri, position(2, 2)),
        vec![completed("abc", CompletionItemKind::Variable, "Int")]
    );
}

#[test]
fn local_completion_with_update() {
    let text = r#"
let test = 2
let test1 = ""
test2
"#;
    let uri = test_url("test");
    let mut server = Server::new();
    server.open(&uri, text);
    let published = server.change(&uri, 2, edit(range((3, 2), (3, 5)), "st1"));
    assert_eq!(published.len(), 1);
    assert_eq!(published[0].version, Some(2));
    assert_eq!(
        server.complete(&uri, position(3, 2)),
        vec![completed("test1", CompletionItemKind::Variable, "String")]
    );
}

#[test]
fn local_completion_out_of_order_update() {
    let text = r#"
let test = 2
let test1 = ""
test2
"#;
    let uri = test_url("test");
    let mut server = Server::new();
    server.open(&uri, text);
    let published = server.change(&uri, 3, edit(range((3, 3), (3, 5)), "t1"));
    assert!(published.is_empty());
    let published = server.change(&uri, 2, edit(range((3, 2), (3, 3)), "s"));
    assert_eq!(published.len(), 1);
    assert_eq!(published[0].version, Some(3));
    assert_eq!(
        server.complete(&uri, position(3, 2)),
        vec![completed("test1", CompletionItemKind::Variable, "String")]
    );
}

#[test]
fn completion_unicode_characters() {
    let text = r#"
let test = 1
"åäö" t
"#;
    let mut server = Server::new();
    server.open(&test_url("test"), text);
    assert_eq!(
        server.complete(&test_url("test"), position(2, 7)),
        vec![completed("test", CompletionItemKind::Variable, "Int")]
    );
}

#[test]
fn workspace_symbol_test() {
    let text = r#"
let myfunc x = x
{ myfunc }
"#;
    let mut server = Server::new();
    server.open(&test_url("test"), text);
    let mut found = Vec::new();
    for (name, _) in server.modules.uris() {
        let document = server.module(&name);
        let symbols = server.symbols(&document);
        workspace_symbols(&mut found, &document.file, &symbols, &document.uri, "myfunc").unwrap();
    }
    assert_eq!(
        found.iter().map(|s| s.name.clone()).collect::<Vec<_>>(),
        vec!["myfunc".to_string()],
    );
    assert_eq!(found[0].kind, SymbolKind::Function);
    assert_eq!(
        found[0].location,
        Location {
            uri: test_url("test"),
            range: range((1, 4), (1, 10)),
        }
    );
}

#[test]
fn type_error() {
    let text = r#"
not ""
"#;
    let mut server = Server::new();
    let published = server.open(&test_url("test.glu"), text);
    assert_eq!(published.len(), 1);
    let diagnostic = &published[0];
    assert_eq!(diagnostic.uri, test_url("test.glu"));
    assert_eq!(
        diagnostic.diagnostics.len(),
        1,
        "{:?}",
        diagnostic.diagnostics
    );
    let error = &diagnostic.diagnostics[0];
    assert_eq!(error.severity, Some(DiagnosticSeverity::Error));
    assert_eq!(error.range, range((1, 4), (1, 6)));
    assert_eq!(error.source, Some("gluon".to_string()));
}

#[test]
fn mended_document_has_no_messages() {
    let uri = test_url("test.glu");
    let mut server = Server::new();
    assert_eq!(server.open(&uri, "not \"\"")[0].diagnostics.len(), 1);
    assert_eq!(
        server.change(&uri, 2, edit(range((0, 4), (0, 6)), "True")),
        vec![PublishDiagnosticsParams {
            uri,
            diagnostics: Vec::new(),
            version: Some(2),
        }]
    );
}

#[test]
fn simple() {
    let text = r#"
let x =           1
x   +
   2
"#;
    let expected = r#"
let x = 1
x + 2
"#;
    let mut server = Server::new();
    server.open(&test_url("test"), text);
    let document = server.document(&test_url("test"));
    let formatted = server
        .thread
        .format_expr(
            &mut gluon_format::Formatter::default(),
            &document.file.name,
            &document.file.source,
        )
        .unwrap();
    assert_eq!(
        format_edits(&document.file, formatted),
        vec![TextEdit {
            range: range((0, 0), (4, 0)),
            new_text: expected.to_string(),
        }]
    );
}

#[test]
fn empty_content_changes_do_not_lockup_server() {
    let text = r#"
let x = 1
x + "abc"
"#;
    let mut server = Server::new();
    // The document is not the first one.
    server.open(&test_url("dummy"), r#""aaaaaaaaaaaaaaaaaaaaaaaaaaaaaa""#);
    server.open(&test_url("test"), text);
    // Since nothing changed the version is the same.
    assert!(server.change(&test_url("test"), 1, vec![]).is_empty());
    assert_eq!(
        server.hover(&test_url("test"), position(2, 7)),
        Some(Hover {
            contents: HoverContents::Text("String".to_string()),
            range: Some(range((2, 4), (2, 9))),
        })
    );
}

fn test_goto_definition(text: &str, at: Position, expected: Location) {
    let mut server = Server::new();
    let joined = Some(PathBuf::from("/work/tests/main.glu"));
    let url = module_name_to_file(&server.modules, "tests.main", Err("".to_string()), joined);
    server.modules.import("tests.main".to_string(), url.unwrap());
    server
        .thread
        .get_database_mut()
        .add_module("tests.main".to_string(), "1");
    server.open(&test_url("test"), text);
    assert_eq!(server.definition(&test_url("test"), at), Some(expected));
}

#[test]
fn goto_definition() {
    let text = r#"
let test = 1
let test2 = 1
test
"#;
    test_goto_definition(
        text,
        position(3, 2),
        Location {
            uri: test_url("test"),
            range: range((1, 4), (1, 8)),
        },
    );
}

#[test]
fn goto_definition_of_type() {
    let text = r#"
type Test = Int
let test2 : Test = 1
test
"#;
    test_goto_definition(
        text,
        position(2, 14),
        Location {
            uri: test_url("test"),
            range: range((1, 5), (1, 9)),
        },
    );
}

#[test]
fn goto_definition_module() {
    let text = r#"
let test = import! tests.main
test
"#;
    test_goto_definition(
        text,
        position(1, 20),
        Location {
            uri: test_url("tests/main.glu"),
            range: range((0, 0), (0, 0)),
        },
    )
}

#[test]
fn goto_definition_argument() {
    let text = r#"
let test abc = abc
test
"#;
    test_goto_definition(
        text,
        position(1, 18),
        Location {
            uri: test_url("test"),
            range: range((1, 9), (1, 12)),
        },
    )
}

#[test]
fn simple_hover() {
    let mut server = Server::new();
    server.open(&test_url("test"), "123");
    assert_eq!(
        server.hover(&test_url("test"), position(0, 2)),
        Some(Hover {
            contents: HoverContents::Text("Int".to_string()),
            range: Some(range((0, 0), (0, 3))),
        })
    );
}

#[test]
fn identifier() {
    let src = r#"
let test = 1
test 
"#;
    let mut server = Server::new();
    server.open(&test_url("test"), src);
    assert_eq!(
        server.hover(&test_url("test"), position(2, 2)),
        Some(Hover {
            contents: HoverContents::Text("Int".to_string()),
            range: Some(range((2, 0), (2, 4))),
        })
    );
}

#[test]
fn hover_shows_comments() {
    let src = r#"
/// Counts.
let test = 1
test
"#;
    let mut server = Server::new();
    server.open(&test_url("test"), src);
    let hover = server.hover(&test_url("test"), position(3, 2)).unwrap();
    assert_eq!(
        hover.contents,
        HoverContents::Markdown("```gluon\ntest: Int\n```\nCounts.".to_string())
    );
}

#[test]
fn issue_40() {
    let text = r#"
type U = (Int, Int)

()
"#;
    let mut server = Server::new();
    let published = server.open(&test_url("test.glu"), text);
    assert_eq!(published[0].uri, test_url("test.glu"));
    let document = server.document(&test_url("test.glu"));
    let symbols = server.symbols(&document);
    let outline = completion_symbols_to_document_symbols(&document.file, &symbols).unwrap();
    assert_eq!(outline.len(), 1);
    assert_eq!(outline[0].name, "U");
}

#[test]
fn outline_of_a_document() {
    let text = r#"
type Colour = | Red | Green
let f x = x + 1
let t = "text"
f 1
"#;
    let mut server = Server::new();
    server.open(&test_url("test"), text);
    let document = server.document(&test_url("test"));
    let symbols = server.symbols(&document);
    let outline = completion_symbols_to_document_symbols(&document.file, &symbols).unwrap();
    let entries: Vec<(&str, SymbolKind)> = outline
        .iter()
        .map(|entry| (entry.name.as_str(), entry.kind))
        .collect();
    assert_eq!(
        entries,
        vec![
            ("Colour", SymbolKind::Enum),
            ("f", SymbolKind::Function),
            ("t", SymbolKind::Text),
        ]
    );
    // Parameters are left out.
    assert_eq!(outline[1].children, None);
    assert_eq!(outline[1].detail, Some("Int -> Int".to_string()));
    assert_eq!(outline[1].range, range((2, 4), (2, 5)));
}

#[test]
fn occurrences_are_highlighted() {
    let text = r#"
let test = 1
test + test
"#;
    let mut server = Server::new();
    server.open(&test_url("test"), text);
    let document = server.document(&test_url("test"));
    let index = position_to_byte_index(&document.file, &position(2, 1)).unwrap();
    let (_, spans) =
        gluon_completion::find_all_symbols(document.span, document.expr.expr(), index.into())
            .unwrap();
    let spans = spans.into_iter().map(span_of).collect();
    let mut ranges = highlights(&document.file, &spans).unwrap();
    ranges.sort_by_key(|range| (range.start.line, range.start.character));
    assert_eq!(
        ranges,
        vec![
            range((1, 4), (1, 8)),
            range((2, 0), (2, 4)),
            range((2, 7), (2, 11)),
        ]
    );
}

fn called(server: &Server, at: Position) -> SignatureHelp {
    let document = server.document(&test_url("test"));
    let index = position_to_byte_index(&document.file, &at).unwrap();
    let db = server.thread.get_database();
    let help = gluon_completion::signature_help(
        &db.as_env(),
        document.span,
        document.expr.expr(),
        index.into(),
    )
    .unwrap();
    let function = CalledFunction {
        name: help.name,
        typ: help.typ.to_string(),
        arguments: arg_iter(&help.typ).map(|typ| typ.to_string()).collect(),
        index: help.index,
    };
    let comment = if has_comment(&function) {
        server.comment(&test_url("test"), at, &function.name)
    } else {
        None
    };
    signature_help(Some(function), comment).unwrap()
}

#[test]
fn called_function_is_shown() {
    let text = r#"
let add x y : Int -> Int -> Int = x + y
add 1 2
"#;
    let mut server = Server::new();
    server.open(&test_url("test"), text);
    let help = called(&server, position(2, 6));
    assert_eq!(help.active_signature, None);
    assert_eq!(help.active_parameter, Some(1));
    assert_eq!(help.signatures.len(), 1);
    let signature = &help.signatures[0];
    assert_eq!(signature.label, "add");
    assert_eq!(
        signature.documentation,
        "```gluon\nInt -> Int -> Int\n```\n"
    );
    assert_eq!(signature.parameters.len(), 2);
    assert_eq!(signature.parameters[0].label, "");
    assert_eq!(signature.parameters[0].documentation, "```gluon\nInt\n```\n");
}
