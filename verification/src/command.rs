//! The requests of an editor, and what they are answered with.
//!
//! Types, symbols and expressions are the compiler's. Here they are reduced to what the answers
//! depend on.

use vstd::prelude::*;

use crate::text::{same_text, to_chars};

pub mod completion;
pub mod completion_laws;
pub mod definition;
pub mod document_highlight;
pub mod document_symbols;
pub mod formatting;
pub mod hover;
pub mod initialize;
pub mod laws;
pub mod signature_help;
pub mod symbol;

verus! {

/// The types that the language itself has.
#[derive(Clone, Copy, Debug, PartialEq, Eq, Structural)]
pub enum BuiltinType {
    Text,
    Byte,
    Char,
    Int,
    Float,
    Array,
    Function,
}

/// A type of a program.
#[derive(Debug, PartialEq, Eq)]
pub struct ProgramType {
    /// Whether it is the type of functions, once the variables that it is generic in are put aside.
    pub is_function: bool,
    pub shape: TypeShape,
}

#[derive(Debug, PartialEq, Eq)]
pub enum TypeShape {
    /// Another name for a type.
    Alias { name: String, target: Box<ProgramType> },
    /// A type that is applied to arguments.
    App(Box<ProgramType>),
    Variant,
    Record,
    Ident(String),
    Builtin(BuiltinType),
    /// A type that is not known yet.
    Hole,
    Other,
}

/// What an editor shows a completion as.
#[derive(Clone, Copy, Debug, PartialEq, Eq, Structural)]
pub enum CompletionItemKind {
    Function,
    Constructor,
    Variable,
    Class,
    Module,
    Enum,
}

/// What an editor shows a symbol as.
#[derive(Clone, Copy, Debug, PartialEq, Eq, Structural)]
pub enum SymbolKind {
    Module,
    Class,
    Enum,
    EnumMember,
    Function,
    Variable,
    Text,
    Number,
    Boolean,
    Array,
}

/// What a value of a type is shown as when it is completed.
pub open spec fn completion_kind(typ: ProgramType) -> CompletionItemKind
    decreases typ,
{
    if typ.is_function {
        CompletionItemKind::Function
    } else {
        match typ.shape {
            TypeShape::Alias { target, .. } => completion_kind(*target),
            TypeShape::App(function) => completion_kind(*function),
            TypeShape::Variant => CompletionItemKind::Enum,
            TypeShape::Record => CompletionItemKind::Module,
            _ => CompletionItemKind::Variable,
        }
    }
}

/// What a value of a type is shown as when it is completed.
pub fn type_to_completion_item_kind(typ: &ProgramType) -> (kind: CompletionItemKind)
    ensures
        kind == completion_kind(*typ),
    decreases *typ,
{
    if typ.is_function {
        return CompletionItemKind::Function;
    }
    match &typ.shape {
        TypeShape::Alias { name: _, target } => type_to_completion_item_kind(target),
        TypeShape::App(function) => type_to_completion_item_kind(function),
        TypeShape::Variant => CompletionItemKind::Enum,
        TypeShape::Record => CompletionItemKind::Module,
        _ => CompletionItemKind::Variable,
    }
}

/// Whether a character beyond ASCII is an uppercase letter: what `char::is_uppercase` says of it.
pub uninterp spec fn is_foreign_uppercase(c: char) -> bool;

/// Whether a character beyond ASCII is a letter: what `char::is_alphabetic` says of it.
pub uninterp spec fn is_foreign_alphabetic(c: char) -> bool;

/// Whether a character is an uppercase letter.
pub open spec fn is_uppercase(c: char) -> bool {
    if (c as u32) < 128 {
        'A' <= c <= 'Z'
    } else {
        is_foreign_uppercase(c)
    }
}

/// Whether a character is a letter.
pub open spec fn is_alphabetic(c: char) -> bool {
    if (c as u32) < 128 {
        'A' <= c <= 'Z' || 'a' <= c <= 'z'
    } else {
        is_foreign_alphabetic(c)
    }
}

/// Calls `char::is_uppercase`.
///
/// Of the ASCII characters it holds for the letters from `A` to `Z`. For any other character the
/// answer depends on the character alone.
#[verifier::external_body]
fn char_is_uppercase(c: char) -> (uppercase: bool)
    ensures
        uppercase == (if (c as u32) < 128 {
            'A' <= c <= 'Z'
        } else {
            is_foreign_uppercase(c)
        }),
{
    c.is_uppercase()
}

/// Calls `char::is_alphabetic`.
///
/// Of the ASCII characters it holds for the letters from `A` to `Z` and from `a` to `z`. For any
/// other character the answer depends on the character alone.
#[verifier::external_body]
fn char_is_alphabetic(c: char) -> (alphabetic: bool)
    ensures
        alphabetic == (if (c as u32) < 128 {
            'A' <= c <= 'Z' || 'a' <= c <= 'z'
        } else {
            is_foreign_alphabetic(c)
        }),
{
    c.is_alphabetic()
}

/// Whether a text starts with an uppercase letter.
pub open spec fn starts_uppercase(text: Seq<char>) -> bool {
    text.len() > 0 && is_uppercase(text[0])
}

/// Whether a text starts with a letter.
pub open spec fn starts_alphabetic(text: Seq<char>) -> bool {
    text.len() > 0 && is_alphabetic(text[0])
}

pub(crate) fn starts_with_uppercase(text: &str) -> (found: bool)
    ensures
        found == starts_uppercase(text@),
{
    let chars = to_chars(text);
    chars.len() > 0 && char_is_uppercase(chars[0])
}

pub(crate) fn starts_with_alphabetic(text: &str) -> (found: bool)
    ensures
        found == starts_alphabetic(text@),
{
    let chars = to_chars(text);
    chars.len() > 0 && char_is_alphabetic(chars[0])
}

/// What a name stands for: a type, which has a kind, or a value, which has a type.
#[derive(Debug, PartialEq, Eq)]
pub enum Meaning {
    Type,
    Value(ProgramType),
}

/// What a name is shown as when it is completed.
pub open spec fn ident_kind(id: Seq<char>, meaning: Meaning) -> CompletionItemKind {
    match meaning {
        Meaning::Type => CompletionItemKind::Class,
        Meaning::Value(typ) => if starts_uppercase(id) {
            CompletionItemKind::Constructor
        } else {
            completion_kind(typ)
        },
    }
}

/// What a name is shown as when it is completed.
pub fn ident_to_completion_item_kind(id: &str, meaning: &Meaning) -> (kind: CompletionItemKind)
    ensures
        kind == ident_kind(id@, *meaning),
{
    match meaning {
        Meaning::Type => CompletionItemKind::Class,
        Meaning::Value(typ) => if starts_with_uppercase(id) {
            CompletionItemKind::Constructor
        } else {
            type_to_completion_item_kind(typ)
        },
    }
}

/// Documentation for something, in markdown: its type, if there is one, and a comment.
pub open spec fn documentation(typ: Option<Seq<char>>, comment: Seq<char>) -> Seq<char> {
    match typ {
        Some(typ) => "```gluon\n"@ + typ + "\n```\n"@ + comment,
        None => comment,
    }
}

/// Documentation for something, in markdown: its type, if there is one, and a comment.
pub fn make_documentation(typ: Option<&str>, comment: &str) -> (markdown: String)
    ensures
        markdown@ == documentation(
            match typ {
                Some(typ) => Some(typ@),
                None => None,
            },
            comment@,
        ),
{
    let mut value = String::new();
    if let Some(typ) = typ {
        value.append("```gluon\n");
        value.append(typ);
        value.append("\n```\n");
    }
    value.append(comment);
    assert(typ is None ==> Seq::<char>::empty() + comment@ =~= comment@);
    assert(typ matches Some(typ) ==> Seq::<char>::empty() + "```gluon\n"@ =~= "```gluon\n"@);
    value
}

/// What a value is bound to, as far as it matters here.
#[derive(Debug, PartialEq, Eq)]
pub enum Expr {
    /// A name. The name of a module that was imported is that of the module, such as
    /// `std.prelude`.
    Ident(String),
    Other,
}

/// What a symbol stands for.
#[derive(Debug, PartialEq, Eq)]
pub enum SymbolContent {
    /// A type.
    Type(ProgramType),
    /// A value of a type, which may be the parameter of a function, and what it is bound to.
    Value { typ: ProgramType, is_parameter: bool, expr: Option<Expr> },
}

pub open spec fn type_kind(typ: ProgramType) -> SymbolKind {
    if typ.is_function {
        SymbolKind::Function
    } else {
        match typ.shape {
            TypeShape::Ident(name) => if name@ == "Bool"@ {
                SymbolKind::Boolean
            } else {
                SymbolKind::Variable
            },
            TypeShape::Alias { name, .. } => if name@ == "Bool"@ {
                SymbolKind::Boolean
            } else {
                SymbolKind::Variable
            },
            TypeShape::Builtin(builtin) => match builtin {
                BuiltinType::Char | BuiltinType::Text => SymbolKind::Text,
                BuiltinType::Byte | BuiltinType::Int | BuiltinType::Float => SymbolKind::Number,
                BuiltinType::Array => SymbolKind::Array,
                BuiltinType::Function => SymbolKind::Function,
            },
            _ => SymbolKind::Variable,
        }
    }
}

/// What a value of a type is shown as.
pub fn type_to_kind(typ: &ProgramType) -> (kind: SymbolKind)
    ensures
        kind == type_kind(*typ),
{
    if typ.is_function {
        return SymbolKind::Function;
    }
    match &typ.shape {
        TypeShape::Ident(name) => if same_text(name.as_str(), "Bool") {
            SymbolKind::Boolean
        } else {
            SymbolKind::Variable
        },
        TypeShape::Alias { name, target: _ } => if same_text(name.as_str(), "Bool") {
            SymbolKind::Boolean
        } else {
            SymbolKind::Variable
        },
        TypeShape::Builtin(builtin) => match builtin {
            BuiltinType::Char | BuiltinType::Text => SymbolKind::Text,
            BuiltinType::Byte | BuiltinType::Int | BuiltinType::Float => SymbolKind::Number,
            BuiltinType::Array => SymbolKind::Array,
            BuiltinType::Function => SymbolKind::Function,
        },
        _ => SymbolKind::Variable,
    }
}

pub open spec fn expr_kind(expr: Expr, typ: ProgramType) -> SymbolKind {
    match expr {
        Expr::Ident(name) => if name@.contains('.') {
            SymbolKind::Module
        } else {
            type_kind(typ)
        },
        Expr::Other => type_kind(typ),
    }
}

/// Whether a character occurs in a text.
pub(crate) fn contains_char(text: &str, c: char) -> (found: bool)
    ensures
        found == text@.contains(c),
{
    let chars = to_chars(text);
    let mut i: usize = 0;
    while i < chars.len()
        invariant
            chars@ == text@,
            i <= chars@.len(),
            forall|j: int| 0 <= j < i ==> text@[j] != c,
        decreases chars@.len() - i,
    {
        if chars[i] == c {
            assert(text@[i as int] == c);
            return true;
        }
        i += 1;
    }
    false
}

/// What a value that is bound to an expression is shown as: an imported module is replaced by a
/// name with dots in it.
pub fn expr_to_kind(expr: &Expr, typ: &ProgramType) -> (kind: SymbolKind)
    ensures
        kind == expr_kind(*expr, *typ),
{
    match expr {
        Expr::Ident(name) => if contains_char(name.as_str(), '.') {
            SymbolKind::Module
        } else {
            type_to_kind(typ)
        },
        Expr::Other => type_to_kind(typ),
    }
}

pub open spec fn symbol_kind(content: SymbolContent) -> SymbolKind {
    match content {
        SymbolContent::Type(typ) => if typ.shape is Variant {
            SymbolKind::Enum
        } else {
            SymbolKind::Class
        },
        SymbolContent::Value { typ, expr, .. } => match expr {
            Some(expr) => expr_kind(expr, typ),
            None => SymbolKind::Variable,
        },
    }
}

/// What a symbol is shown as.
pub fn completion_symbol_kind(content: &SymbolContent) -> (kind: SymbolKind)
    ensures
        kind == symbol_kind(*content),
{
    match content {
        SymbolContent::Type(typ) => match &typ.shape {
            TypeShape::Variant => SymbolKind::Enum,
            _ => SymbolKind::Class,
        },
        SymbolContent::Value { typ, is_parameter: _, expr } => match expr {
            Some(expr) => expr_to_kind(expr, typ),
            None => SymbolKind::Variable,
        },
    }
}

} // verus!
