//! The signature of the function that is being called.

use vstd::prelude::*;

use crate::command::{documentation, make_documentation};

verus! {

/// The function that is being called, as the compiler knows it.
pub struct CalledFunction {
    /// Its name, which is empty for a function without one.
    pub name: String,
    pub typ: String,
    /// The types of its arguments.
    pub arguments: Vec<String>,
    /// The argument that is being written.
    pub index: Option<u32>,
}

#[derive(Debug, PartialEq, Eq)]
pub struct ParameterInformation {
    pub label: String,
    pub documentation: String,
}

#[derive(Debug, PartialEq, Eq)]
pub struct SignatureInformation {
    pub label: String,
    pub documentation: String,
    pub parameters: Vec<ParameterInformation>,
}

#[derive(Debug, PartialEq, Eq)]
pub struct SignatureHelp {
    pub signatures: Vec<SignatureInformation>,
    pub active_signature: Option<u32>,
    pub active_parameter: Option<u32>,
}

/// Whether a comment is to be looked up for a function: one without a name has none.
pub fn has_comment(function: &CalledFunction) -> (named: bool)
    ensures
        named == (function.name@.len() > 0),
{
    !function.name.as_str().is_empty()
}

/// Whether `help` is what is shown of a function with the comment that was written for it: its
/// signature, and which argument is being written.
pub open spec fn is_help(
    function: CalledFunction,
    comment: Option<String>,
    help: SignatureHelp,
) -> bool {
    &&& help.active_signature is None
    &&& help.active_parameter == function.index
    &&& help.signatures@.len() == 1
    &&& help.signatures@[0].label == function.name
    &&& help.signatures@[0].documentation@ == documentation(
        Some(function.typ@),
        if function.name@.len() == 0 {
            Seq::empty()
        } else {
            match comment {
                Some(comment) => comment@,
                None => Seq::empty(),
            }
        },
    )
    &&& help.signatures@[0].parameters@.len() == function.arguments@.len()
    &&& forall|i: int|
        0 <= i < function.arguments@.len() ==> {
            let parameter = #[trigger] help.signatures@[0].parameters@[i];
            &&& parameter.label@.len() == 0
            &&& parameter.documentation@ == documentation(
                Some(function.arguments@[i]@),
                Seq::empty(),
            )
        }
}

/// What is shown of the function that is being called, if one is, with the comment that was written
/// for it.
pub fn signature_help(function: Option<CalledFunction>, comment: Option<String>) -> (help: Option<
    SignatureHelp,
>)
    ensures
        match function {
            Some(function) => help matches Some(help) && is_help(function, comment, help),
            None => help is None,
        },
{
    let function = match function {
        Some(function) => function,
        None => {
            return None;
        },
    };
    let comment: String = if has_comment(&function) {
        match comment {
            Some(comment) => comment,
            None => String::new(),
        }
    } else {
        String::new()
    };
    let text = make_documentation(Some(function.typ.as_str()), comment.as_str());
    let mut parameters: Vec<ParameterInformation> = Vec::new();
    let empty = String::new();
    let mut i: usize = 0;
    while i < function.arguments.len()
        invariant
            i <= function.arguments@.len(),
            empty@ == Seq::<char>::empty(),
            parameters@.len() == i,
            forall|j: int|
                0 <= j < i ==> {
                    let parameter = #[trigger] parameters@[j];
                    &&& parameter.label@.len() == 0
                    &&& parameter.documentation@ == documentation(
                        Some(function.arguments@[j]@),
                        Seq::empty(),
                    )
                },
        decreases function.arguments@.len() - i,
    {
        parameters.push(
            ParameterInformation {
                label: String::new(),
                documentation: make_documentation(
                    Some(function.arguments[i].as_str()),
                    empty.as_str(),
                ),
            },
        );
        i += 1;
    }
    assert(function.name@.len() == 0 ==> comment@ =~= Seq::<char>::empty());
    let mut signatures: Vec<SignatureInformation> = Vec::new();
    signatures.push(
        SignatureInformation { label: function.name, documentation: text, parameters },
    );
    Some(SignatureHelp { signatures, active_signature: None, active_parameter: function.index })
}

} // verus!
