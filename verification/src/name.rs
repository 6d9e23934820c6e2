//! Name translation between editors, which know documents by their urls, and the compiler, which
//! knows modules by their names.
//!
//! What the file system has to say comes in as arguments: the canonical form of a path, where it
//! has one, and the current directory.

use std::path::PathBuf;

use vstd::prelude::*;
use vstd::utf8::{encode_utf8, encode_utf8_decode_utf8, encode_utf8_valid_utf8};

use crate::check_importer::CheckImporter;
use crate::path::{
    display, from_file_path, is_plain_path, is_url_of, path_behind, path_bytes, path_from,
    path_of_url, path_shown, path_text, strip_prefix, to_file_path, to_text, url_of_path,
};
use crate::rpc::ServerError;
use crate::text::{push_char, to_chars};

verus! {

/// Whether a file name is the rest of a plain path behind a directory.
pub open spec fn is_plain_filename(filename: Seq<char>) -> bool {
    is_plain_path("/"@ + filename)
}

/// The module that a file holds: what `gluon_base::filename_to_module` makes of a name that is not
/// plain.
pub uninterp spec fn module_of_odd_filename(filename: Seq<char>) -> Seq<char>;

/// A file name without the ending of sources.
pub open spec fn without_ending(filename: Seq<char>) -> Seq<char> {
    if ".glu"@.is_suffix_of(filename) {
        filename.take(filename.len() - ".glu"@.len())
    } else {
        filename
    }
}

/// The module that a file holds: its name without the ending of sources, and with dots between the
/// directories.
pub open spec fn module_of_filename(filename: Seq<char>) -> Seq<char> {
    if is_plain_filename(filename) {
        replaced(without_ending(filename), '/', '.')
    } else {
        module_of_odd_filename(filename)
    }
}

/// Calls `gluon_base::filename_to_module`.
///
/// A plain name loses the ending `.glu`, and its slashes become dots. For any other name the result
/// depends on the name alone.
#[verifier::external_body]
pub(crate) fn gluon_filename_to_module(filename: &str) -> (module: String)
    ensures
        module@ == (if is_plain_filename(filename@) {
            replaced(without_ending(filename@), '/', '.')
        } else {
            module_of_odd_filename(filename@)
        }),
{
    gluon_base::filename_to_module(filename)
}

/// A text with every occurrence of `from` replaced by `to`.
pub open spec fn replaced(text: Seq<char>, from: char, to: char) -> Seq<char> {
    text.map_values(
        |c: char|
            if c == from {
                to
            } else {
                c
            },
    )
}

pub(crate) fn replace_char(text: &str, from: char, to: char) -> (result: String)
    ensures
        result@ == replaced(text@, from, to),
{
    let chars = to_chars(text);
    let mut result = String::new();
    let mut i: usize = 0;
    while i < chars.len()
        invariant
            chars@ == text@,
            i <= chars@.len(),
            result@ =~= replaced(text@.take(i as int), from, to),
        decreases chars@.len() - i,
    {
        let c: char = chars[i];
        if c == from {
            push_char(&mut result, to);
        } else {
            push_char(&mut result, c);
        }
        i += 1;
    }
    assert(text@.take(text@.len() as int) =~= text@);
    result
}

/// The file that a module of this name is expected in.
pub open spec fn filename_of_module(name: Seq<char>) -> Seq<char> {
    replaced(name, '.', '/') + ".glu"@
}

/// The file that a module of this name is expected in.
pub fn module_filename(name: &str) -> (filename: String)
    ensures
        filename@ == filename_of_module(name@),
{
    let mut filename = replace_char(name, '.', '/');
    filename.append(".glu");
    filename
}

/// What is said of a name that no url can be made of.
pub open spec fn no_url_message(name: Seq<char>) -> Seq<char> {
    "Unable to convert module name to a url: `"@ + name + "`"@
}

fn no_url_error(name: &str) -> (error: ServerError<()>)
    ensures
        error.message@ == no_url_message(name@),
        error.data is None,
{
    let mut message = "Unable to convert module name to a url: `".to_owned();
    message.append(name);
    message.append("`");
    ServerError::from(message)
}

/// The name of the module that the compiler means by the name of a source file.
pub fn codspan_name_to_module(name: &str) -> (module: String)
    ensures
        module@ == name@,
{
    name.to_owned()
}

/// Where a file lies: at its canonical path or, where it has none, at its path from the current
/// directory.
pub open spec fn located(
    canonical: Result<PathBuf, String>,
    joined: Option<PathBuf>,
) -> Option<Seq<u8>> {
    match canonical {
        Ok(path) => Some(path_bytes(path)),
        Err(_) => match joined {
            Some(path) => Some(path_bytes(path)),
            None => None,
        },
    }
}

/// The url of a file. `canonical` is its canonical path or why there is none; `joined` is its path
/// from the current directory, where there is one. The url leads back to where the file lies.
pub fn filename_to_url(
    filename: &str,
    canonical: Result<PathBuf, String>,
    joined: Option<PathBuf>,
) -> (url: Result<String, ServerError<()>>)
    ensures
        match located(canonical, joined) {
            Some(path) => match url {
                Ok(url) => is_url_of(path, url@),
                Err(error) => {
                    &&& url_of_path(path) is None
                    &&& error.message@ == no_url_message(filename@)
                    &&& error.data is None
                },
            },
            None => url matches Err(error) && error.data is None && canonical == Err::<
                PathBuf,
                String,
            >(error.message),
        },
{
    let path: PathBuf = match canonical {
        Ok(path) => path,
        Err(message) => match joined {
            Some(path) => path,
            None => {
                return Err(ServerError::from(message));
            },
        },
    };
    match from_file_path(&path) {
        Some(url) => Ok(url),
        None => Err(no_url_error(filename)),
    }
}

/// The url that `filename_to_url` finds, where it finds one.
pub open spec fn resolved_url(
    canonical: Result<PathBuf, String>,
    joined: Option<PathBuf>,
) -> Option<Seq<char>> {
    match located(canonical, joined) {
        Some(path) => url_of_path(path),
        None => None,
    }
}

/// Whether `url` is the url of a module: of where its file lies, or else of its name taken as a path.
pub open spec fn is_module_url(
    name: Seq<char>,
    canonical: Result<PathBuf, String>,
    joined: Option<PathBuf>,
    url: Seq<char>,
) -> bool {
    match located(canonical, joined) {
        Some(path) if url_of_path(path) is Some => is_url_of(path, url),
        _ => is_url_of(encode_utf8(name), url),
    }
}

/// The url of a module: that of the file that it is expected in, else that of its name taken as a
/// path. `canonical` and `joined` are about `module_filename(name)`.
pub fn module_name_to_file_(
    name: &str,
    canonical: Result<PathBuf, String>,
    joined: Option<PathBuf>,
) -> (url: Result<String, ServerError<()>>)
    ensures
        match url {
            Ok(url) => is_module_url(name@, canonical, joined, url@),
            Err(error) => {
                &&& resolved_url(canonical, joined) is None
                &&& url_of_path(encode_utf8(name@)) is None
                &&& error.message@ == no_url_message(name@)
                &&& error.data is None
            },
        },
{
    let filename = module_filename(name);
    match filename_to_url(filename.as_str(), canonical, joined) {
        Ok(url) => Ok(url),
        Err(_) => match from_file_path(&path_from(name)) {
            Some(url) => Ok(url),
            None => Err(no_url_error(name)),
        },
    }
}

/// The url of a source file by the name that the compiler has for it, which is that of its module.
pub fn codespan_name_to_file(
    name: &str,
    canonical: Result<PathBuf, String>,
    joined: Option<PathBuf>,
) -> (url: Result<String, ServerError<()>>)
    ensures
        match url {
            Ok(url) => is_module_url(name@, canonical, joined, url@),
            Err(error) => {
                &&& resolved_url(canonical, joined) is None
                &&& url_of_path(encode_utf8(name@)) is None
                &&& error.message@ == no_url_message(name@)
                &&& error.data is None
            },
        },
{
    module_name_to_file_(name, canonical, joined)
}

/// The url of a module: the one that is known, else that of the file that it is expected in.
/// `canonical` and `joined` are about `module_filename(name)`.
pub fn module_name_to_file(
    importer: &CheckImporter,
    name: &str,
    canonical: Result<PathBuf, String>,
    joined: Option<PathBuf>,
) -> (url: Result<String, ServerError<()>>)
    ensures
        if importer@.dom().contains(name@) {
            url matches Ok(url) && url@ == importer@[name@].uri
        } else {
            match url {
                Ok(url) => is_module_url(name@, canonical, joined, url@),
                Err(error) => {
                    &&& resolved_url(canonical, joined) is None
                    &&& url_of_path(encode_utf8(name@)) is None
                    &&& error.message@ == no_url_message(name@)
                    &&& error.data is None
                },
            }
        },
{
    let module = codspan_name_to_module(name);
    match importer.get(module.as_str()) {
        Some(state) => Ok(state.uri.clone()),
        None => module_name_to_file_(module.as_str(), canonical, joined),
    }
}

/// The path of the file that a url stands for.
pub fn file_path(url: &str) -> (path: Result<PathBuf, ServerError<()>>)
    ensures
        match path {
            Ok(path) => path_of_url(url@) == Some(path_bytes(path)),
            Err(error) => {
                &&& path_of_url(url@) is None
                &&& error.message@ == "Expected a file uri"@
                &&& error.data is None
            },
        },
{
    match to_file_path(url) {
        Some(path) => Ok(path),
        None => Err(ServerError::from("Expected a file uri".to_owned())),
    }
}

/// The rest of `name` behind the first of several directories that it lies in. A directory that
/// does not exist has no canonical path and is passed over, as one is whose rest is not text.
pub open spec fn behind_first(name: Seq<u8>, directories: Seq<Option<PathBuf>>) -> Option<
    Seq<char>,
>
    decreases directories.len(),
{
    if directories.len() == 0 {
        None
    } else {
        match text_behind(name, directories[0]) {
            Some(text) => Some(text),
            None => behind_first(name, directories.drop_first()),
        }
    }
}

/// The rest of `name` behind a directory, if it lies there and the rest is text.
pub open spec fn text_behind(name: Seq<u8>, directory: Option<PathBuf>) -> Option<Seq<char>> {
    match directory {
        Some(directory) => match path_behind(name, path_bytes(directory)) {
            Some(rest) => path_text(rest),
            None => None,
        },
        None => None,
    }
}

fn strip_first_prefix(name: &PathBuf, paths: &Vec<Option<PathBuf>>) -> (found: Option<String>)
    ensures
        match found {
            Some(rest) => behind_first(path_bytes(*name), paths@) == Some(rest@),
            None => behind_first(path_bytes(*name), paths@) is None,
        },
{
    let ghost bytes = path_bytes(*name);
    let mut i: usize = 0;
    assert(paths@.skip(0) =~= paths@);
    while i < paths.len()
        invariant
            i <= paths@.len(),
            bytes == path_bytes(*name),
            behind_first(bytes, paths@) == behind_first(bytes, paths@.skip(i as int)),
        decreases paths@.len() - i,
    {
        let ghost rest = paths@.skip(i as int);
        assert(rest[0] == paths@[i as int]);
        assert(rest.drop_first() =~= paths@.skip(i + 1));
        if let Some(directory) = &paths[i] {
            if let Some(rest) = strip_prefix(name, directory) {
                if let Some(text) = to_text(&rest) {
                    return Some(text);
                }
            }
        }
        i += 1;
    }
    None
}

/// The file name of a document, without the directory that sources are looked up in.
///
/// The document lies at `canonical` or, where its path has no canonical form, at `joined`, which is
/// an error message where there is no current directory. `paths` are the canonical forms of the
/// directories to look in, in this order; the current directory comes last. A document in none of
/// them keeps its whole path. What is not text is shown as something close to it.
pub fn strip_file_prefix(
    paths: &Vec<Option<PathBuf>>,
    canonical: Option<PathBuf>,
    joined: Result<PathBuf, String>,
    current_dir: Result<PathBuf, String>,
) -> (filename: Result<String, ServerError<()>>)
    ensures
        ({
            let name = match canonical {
                Some(name) => Ok(name),
                None => joined,
            };
            match name {
                Err(message) => filename matches Err(error) && error.message == message
                    && error.data is None,
                Ok(name) => match behind_first(path_bytes(name), paths@) {
                    Some(rest) => filename matches Ok(filename) && filename@ == rest,
                    None => match current_dir {
                        Err(message) => filename matches Err(error) && error.message == message
                            && error.data is None,
                        Ok(directory) => filename matches Ok(filename) && filename@ == path_shown(
                            match path_behind(path_bytes(name), path_bytes(directory)) {
                                Some(rest) => rest,
                                None => path_bytes(name),
                            },
                        ),
                    },
                },
            }
        }),
{
    let name: PathBuf = match canonical {
        Some(name) => name,
        None => match joined {
            Ok(name) => name,
            Err(message) => {
                return Err(ServerError::from(message));
            },
        },
    };
    if let Some(rest) = strip_first_prefix(&name, paths) {
        return Ok(rest);
    }
    match current_dir {
        Err(message) => Err(ServerError::from(message)),
        Ok(directory) => match strip_prefix(&name, &directory) {
            Some(rest) => Ok(display(&rest)),
            None => Ok(display(&name)),
        },
    }
}

/// The name of the module that a file holds.
pub fn filename_to_module(filename: &str) -> (module: String)
    ensures
        module@ == module_of_filename(filename@),
{
    gluon_filename_to_module(filename)
}

/// Law: the file that a module is expected in, below one of the directories that sources are looked
/// up in, is known by the name of the module.
pub proof fn law_module_names_come_back(directory: PathBuf, base: Seq<char>, name: Seq<char>)
    requires
        path_text(path_bytes(directory)) == Some(base),
        is_plain_path(base),
        is_plain_filename(replaced(name, '.', '/')),
        !name.contains('/'),
    ensures
        ({
            let path = encode_utf8(base + "/"@ + filename_of_module(name));
            &&& is_plain_path(base + "/"@ + filename_of_module(name))
            &&& behind_first(path, seq![Some(directory)]) == Some(filename_of_module(name))
            &&& module_of_filename(filename_of_module(name)) == name
        }),
{
    reveal_strlit("/");
    reveal_strlit(".glu");
    let slashed = replaced(name, '.', '/');
    let filename = filename_of_module(name);
    let path = base + "/"@ + filename;
    let plain = "/"@ + slashed;
    let file = "/"@ + filename;
    assert(file =~= plain + ".glu"@);
    assert forall|i: int, j: int|
        0 <= i && j == i + 1 && j < file.len() && #[trigger] file[i] == '/' implies #[trigger] file[j]
        != '/' && file[j] != '.' by {
        if j < plain.len() {
            assert(plain[i] == '/' && plain[j] == file[j]);
        } else if i < plain.len() {
            assert(plain.last() == file[i]);
        }
    }
    assert forall|i: int| 0 <= i < file.len() implies #[trigger] file[i] != '\\' && file[i] != ':'
        && file[i] != '|' by {
        if i < plain.len() {
            assert(plain[i] == file[i]);
        }
    }
    assert(path =~= base + file);
    assert forall|i: int, j: int|
        0 <= i && j == i + 1 && j < path.len() && #[trigger] path[i] == '/' implies #[trigger] path[j]
        != '/' && path[j] != '.' by {
        let n = base.len();
        if j < n {
            assert(base[i] == '/' && base[j] == path[j]);
        } else if i < n {
            assert(base.last() == path[i]);
        } else {
            assert(file[i - n] == '/' && file[j - n] == path[j]);
        }
    }
    assert forall|i: int| 0 <= i < path.len() implies #[trigger] path[i] != '\\' && path[i] != ':'
        && path[i] != '|' by {
        let n = base.len();
        if i < n {
            assert(base[i] == path[i]);
        } else {
            assert(file[i - n] == path[i]);
        }
    }
    assert(base =~= path.subrange(0, base.len() as int));
    assert(path.skip(base.len() as int + 1) =~= filename);
    let bytes = encode_utf8(path);
    encode_utf8_valid_utf8(path);
    encode_utf8_decode_utf8(path);
    encode_utf8_valid_utf8(filename);
    encode_utf8_decode_utf8(filename);
    assert(bytes != path_bytes(directory));
    assert(path_behind(bytes, path_bytes(directory)) == Some(encode_utf8(filename)));
    let directories = seq![Some(directory)];
    assert(directories[0] == Some(directory));
    assert(".glu"@ =~= filename.subrange(filename.len() - 4, filename.len() as int));
    assert(without_ending(filename) =~= slashed);
    assert(replaced(slashed, '/', '.') =~= name) by {
        assert forall|i: int| 0 <= i < name.len() implies replaced(slashed, '/', '.')[i]
            == name[i] by {
            assert(slashed[i] == if name[i] == '.' { '/' } else { name[i] });
            assert(name[i] != '/');
        }
    }
}

} // verus!
