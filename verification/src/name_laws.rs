//! What names of modules, files and documents have to do with each other.

use std::path::PathBuf;

use vstd::prelude::*;
use vstd::utf8::{encode_utf8, encode_utf8_decode_utf8};

use crate::check_importer::{CheckImporter, State};
use crate::debugger::program_module;
use crate::name::{
    behind_first, codespan_name_to_file, codspan_name_to_module, file_path, filename_to_module,
    filename_to_url, is_plain_filename, module_filename, module_name_to_file, module_name_to_file_,
    replaced, strip_file_prefix, text_behind,
};
use crate::path::{is_plain, is_plain_path, is_simple, lies_in, path_behind, path_bytes, path_text};
use crate::rpc::ServerError;

verus! {

/// Law: the file of a module has its name, with slashes in the place of dots, and the ending of
/// sources.
pub proof fn law_files_are_named_after_modules(name: &str, filename: String)
    requires
        call_ensures(module_filename, (name,), filename),
    ensures
        filename@.len() == name@.len() + 4,
        forall|i: int|
            0 <= i < name@.len() ==> #[trigger] filename@[i] == (if name@[i] == '.' {
                '/'
            } else {
                name@[i]
            }),
        filename@.skip(name@.len() as int) == seq!['.', 'g', 'l', 'u'],
{
    reveal_strlit(".glu");
    assert(filename@.skip(name@.len() as int) =~= seq!['.', 'g', 'l', 'u']);
}

/// Law: the module in a file of plain name has this name without the ending of sources, with dots in
/// the place of slashes. The compiler has a mark in front of it where it is a program.
pub proof fn law_modules_are_named_after_files(
    filename: &str,
    module: String,
    front: Seq<char>,
    program: String,
)
    requires
        call_ensures(filename_to_module, (filename,), module),
        is_plain_filename(filename@),
        filename@ == front + seq!['.', 'g', 'l', 'u'],
        call_ensures(program_module, (filename,), program),
    ensures
        module@.len() == front.len(),
        forall|i: int|
            0 <= i < front.len() ==> #[trigger] module@[i] == (if front[i] == '/' {
                '.'
            } else {
                front[i]
            }),
        program@ == seq!['@'] + module@,
{
    reveal_strlit(".glu");
    reveal_strlit("@");
    assert("@"@ =~= seq!['@']);
    assert(".glu"@ =~= filename@.subrange(filename@.len() - 4, filename@.len() as int));
    assert(filename@.take(filename@.len() - 4) =~= front);
}

/// Law: a module is named after the file that it is expected in: the way there and back leads to
/// the same name.
pub proof fn law_module_names_lead_back(name: &str, filename: String, file: &str, module: String)
    requires
        call_ensures(module_filename, (name,), filename),
        file@ == filename@,
        call_ensures(filename_to_module, (file,), module),
        is_plain_filename(file@),
        forall|i: int| 0 <= i < name@.len() ==> #[trigger] name@[i] != '/',
    ensures
        module@ == name@,
{
    reveal_strlit(".glu");
    let front = replaced(name@, '.', '/');
    assert(".glu"@ =~= file@.subrange(file@.len() - 4, file@.len() as int));
    assert(file@.take(file@.len() - 4) =~= front);
    assert(module@ =~= name@);
}

/// Law: the compiler has the name of its module for a source file.
pub proof fn law_source_names_are_module_names(name: &str, module: String)
    requires
        call_ensures(codspan_name_to_module, (name,), module),
    ensures
        module@ == name@,
{
}

/// Law: the url of a file stands for where the file lies: at its canonical path if it has one, or
/// else at its path from the current directory. The url of a simple path shows it.
pub proof fn law_urls_lead_to_their_files(
    filename: &str,
    canonical: Result<PathBuf, String>,
    joined: Option<PathBuf>,
    url: String,
    asked: &str,
    path: Result<PathBuf, ServerError<()>>,
    place: PathBuf,
)
    requires
        call_ensures(
            filename_to_url,
            (filename, canonical, joined),
            Ok::<String, ServerError<()>>(url),
        ),
        canonical == Ok::<PathBuf, String>(place) || canonical is Err && joined == Some(place),
        is_plain(path_bytes(place)),
        asked@ == url@,
        call_ensures(file_path, (asked,), path),
    ensures
        path is Ok,
        path_bytes(path->Ok_0) == path_bytes(place),
        is_simple(path_bytes(place)) ==> url@ == "file://"@ + path_text(path_bytes(place)).unwrap(),
{
}

/// Law: a file that has no canonical path and is not in the current directory has no url; what is
/// said of its canonical path is passed on. A url that stands for no file is told.
pub proof fn law_files_without_place_have_no_url(
    filename: &str,
    message: String,
    url: Result<String, ServerError<()>>,
    asked: &str,
    path: Result<PathBuf, ServerError<()>>,
)
    requires
        call_ensures(
            filename_to_url,
            (filename, Err::<PathBuf, String>(message), None::<PathBuf>),
            url,
        ),
        call_ensures(file_path, (asked,), path),
    ensures
        url is Err,
        url->Err_0.message == message,
        path matches Err(error) ==> error.message@ == "Expected a file uri"@,
{
}

/// Law: the url of a module is that of the file that it is expected in, wherever that has one; and
/// so is the url of a source file that the compiler names after its module.
pub proof fn law_modules_have_the_url_of_their_file(
    name: &str,
    canonical: Result<PathBuf, String>,
    joined: Option<PathBuf>,
    filename: &str,
    of_file: Result<String, ServerError<()>>,
    url: Result<String, ServerError<()>>,
    of_source: Result<String, ServerError<()>>,
)
    requires
        call_ensures(filename_to_url, (filename, canonical, joined), of_file),
        call_ensures(module_name_to_file_, (name, canonical, joined), url),
        call_ensures(codespan_name_to_file, (name, canonical, joined), of_source),
    ensures
        of_file matches Ok(expected) ==> {
            &&& url is Ok && url->Ok_0@ == expected@
            &&& of_source is Ok && of_source->Ok_0@ == expected@
        },
        url is Ok <==> of_source is Ok,
        url matches Ok(url) ==> of_source->Ok_0@ == url@,
        url matches Err(error) ==> error.message@ == "Unable to convert module name to a url: `"@
            + name@ + "`"@,
{
}

/// Law: a module that is known has the uri that is known of it, and any other that of the file that
/// it is expected in.
pub proof fn law_known_modules_keep_their_uri(
    importer: &CheckImporter,
    name: &str,
    canonical: Result<PathBuf, String>,
    joined: Option<PathBuf>,
    url: Result<String, ServerError<()>>,
    known: Option<&State>,
    expected: Result<String, ServerError<()>>,
)
    requires
        call_ensures(module_name_to_file, (importer, name, canonical, joined), url),
        call_ensures(CheckImporter::get, (importer, name), known),
        call_ensures(module_name_to_file_, (name, canonical, joined), expected),
    ensures
        known matches Some(state) ==> url is Ok && url->Ok_0@ == state.uri@,
        known is None ==> (url is Ok <==> expected is Ok),
        known is None && url is Ok ==> url->Ok_0@ == expected->Ok_0@,
{
}

/// Whether a directory does not hold a document, both of which are plain.
pub open spec fn is_elsewhere(directory: Option<PathBuf>, document: Seq<char>) -> bool {
    directory matches Some(directory) ==> {
        let base = path_text(path_bytes(directory));
        &&& base is Some
        &&& is_plain_path(base.unwrap())
        &&& document != base.unwrap()
        &&& forall|rest: Seq<char>| document != #[trigger] (base.unwrap() + seq!['/'] + rest)
    }
}

proof fn lemma_elsewhere(directory: Option<PathBuf>, path: Seq<u8>, document: Seq<char>)
    requires
        path_text(path) == Some(document),
        is_plain_path(document),
        is_elsewhere(directory, document),
    ensures
        text_behind(path, directory) is None,
        directory matches Some(directory) ==> path_behind(path, path_bytes(directory)) is None,
{
    if let Some(directory) = directory {
        let base = path_text(path_bytes(directory)).unwrap();
        if lies_in(document, base) {
            let rest = document.skip(base.len() as int + 1);
            assert(document =~= base + seq!['/'] + rest);
        }
    }
}

proof fn lemma_behind_first(
    path: Seq<u8>,
    directories: Seq<Option<PathBuf>>,
    document: Seq<char>,
    k: int,
)
    requires
        path_text(path) == Some(document),
        is_plain_path(document),
        0 <= k <= directories.len(),
        forall|j: int| 0 <= j < k ==> is_elsewhere(#[trigger] directories[j], document),
    ensures
        behind_first(path, directories) == behind_first(path, directories.skip(k)),
    decreases k,
{
    if k == 0 {
        assert(directories.skip(0) =~= directories);
    } else {
        lemma_elsewhere(directories[0], path, document);
        let rest = directories.drop_first();
        assert forall|j: int| 0 <= j < k - 1 implies is_elsewhere(#[trigger] rest[j], document) by {
            assert(rest[j] == directories[j + 1]);
        }
        lemma_behind_first(path, rest, document, k - 1);
        assert(rest.skip(k - 1) =~= directories.skip(k));
    }
}

proof fn lemma_inside(path: Seq<u8>, document: Seq<char>, base: Seq<u8>, rest: Seq<char>)
    requires
        path_text(path) == Some(document),
        is_plain_path(document),
        path_text(base) is Some,
        is_plain_path(path_text(base).unwrap()),
        document == path_text(base).unwrap() + seq!['/'] + rest,
    ensures
        path_behind(path, base) == Some(encode_utf8(rest)),
        path_text(encode_utf8(rest)) == Some(rest),
{
    let text = path_text(base).unwrap();
    assert(text =~= document.subrange(0, text.len() as int));
    assert(lies_in(document, text));
    assert(document.skip(text.len() as int + 1) =~= rest);
    vstd::utf8::encode_utf8_valid_utf8(rest);
    encode_utf8_decode_utf8(rest);
    if path == base {
        assert(document == text);
        assert(document.len() == text.len() + 1 + rest.len());
    }
}

/// Law: a document is known by the rest of its path behind the first of the directories to look in
/// that holds it; where none does, behind the current directory; and where that does not either, by
/// its whole path. The document lies at its canonical path, if it has one.
pub proof fn law_documents_are_known_behind_their_directory(
    paths: &Vec<Option<PathBuf>>,
    canonical: Option<PathBuf>,
    joined: Result<PathBuf, String>,
    directory: PathBuf,
    filename: Result<String, ServerError<()>>,
    name: PathBuf,
    document: Seq<char>,
    k: int,
    rest: Seq<char>,
)
    requires
        call_ensures(
            strip_file_prefix,
            (paths, canonical, joined, Ok::<PathBuf, String>(directory)),
            filename,
        ),
        canonical == Some(name) || canonical is None && joined == Ok::<PathBuf, String>(name),
        path_text(path_bytes(name)) == Some(document),
        is_plain_path(document),
        0 <= k <= paths@.len(),
        forall|j: int| 0 <= j < k ==> is_elsewhere(#[trigger] paths@[j], document),
    ensures
        filename is Ok,
        k < paths@.len() ==> (paths@[k] matches Some(place) ==> path_text(
            path_bytes(place),
        ) matches Some(base) ==> is_plain_path(base) && document == base + seq!['/'] + rest
            ==> filename->Ok_0@ == rest),
        k == paths@.len() ==> {
            &&& path_text(path_bytes(directory)) matches Some(base) ==> is_plain_path(base)
                && document == base + seq!['/'] + rest ==> filename->Ok_0@ == rest
            &&& is_elsewhere(Some(directory), document) ==> filename->Ok_0@ == document
        },
{
    let path = path_bytes(name);
    lemma_behind_first(path, paths@, document, k);
    if k < paths@.len() {
        assert(paths@.skip(k)[0] == paths@[k]);
        if let Some(place) = paths@[k] {
            if let Some(base) = path_text(path_bytes(place)) {
                if is_plain_path(base) && document == base + seq!['/'] + rest {
                    lemma_inside(path, document, path_bytes(place), rest);
                }
            }
        }
    } else {
        if let Some(base) = path_text(path_bytes(directory)) {
            if is_plain_path(base) && document == base + seq!['/'] + rest {
                lemma_inside(path, document, path_bytes(directory), rest);
            }
        }
        if is_elsewhere(Some(directory), document) {
            lemma_elsewhere(Some(directory), path, document);
        }
    }
}

/// Law: without a current directory a document that would need it cannot be known, and what is said
/// of that is passed on.
pub proof fn law_documents_need_a_directory(
    paths: &Vec<Option<PathBuf>>,
    message: String,
    current_dir: Result<PathBuf, String>,
    filename: Result<String, ServerError<()>>,
)
    requires
        call_ensures(
            strip_file_prefix,
            (paths, None::<PathBuf>, Err::<PathBuf, String>(message), current_dir),
            filename,
        ),
    ensures
        filename is Err,
        filename->Err_0.message == message,
{
}

} // verus!
