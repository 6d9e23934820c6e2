//! The paths of files, and the urls that stand for them.
//!
//! A path need not be text: it is known by its bytes, and most of them are UTF-8.

use std::path::PathBuf;

use vstd::prelude::*;
use vstd::utf8::{decode_utf8, encode_utf8, valid_utf8};

verus! {

/// The path of a file, which is `std::path::PathBuf`.
#[verifier::external_type_specification]
#[verifier::external_body]
pub struct ExPathBuf(PathBuf);

/// What a path holds: its bytes, which are UTF-8 where it is text.
pub uninterp spec fn path_bytes(path: PathBuf) -> Seq<u8>;

/// The text of a path, where it is text.
pub open spec fn path_text(path: Seq<u8>) -> Option<Seq<char>> {
    if valid_utf8(path) {
        Some(decode_utf8(path))
    } else {
        None
    }
}

/// How a path is shown that is not text: what `Path::display` makes of it.
pub uninterp spec fn odd_path_shown(path: Seq<u8>) -> Seq<char>;

/// How a path is shown: as the text that it is, or as something close to it.
pub open spec fn path_shown(path: Seq<u8>) -> Seq<char> {
    match path_text(path) {
        Some(text) => text,
        None => odd_path_shown(path),
    }
}

/// Whether a text names a file in the simplest way: from the root on, without empty names, without
/// names that start with a dot, and without the marks that mean something special on some platform.
pub open spec fn is_plain_path(path: Seq<char>) -> bool {
    &&& path.len() > 1
    &&& path[0] == '/'
    &&& path.last() != '/'
    &&& forall|i: int, j: int|
        0 <= i && j == i + 1 && j < path.len() && #[trigger] path[i] == '/' ==> #[trigger] path[j]
            != '/' && path[j] != '.'
    &&& forall|i: int|
        0 <= i < path.len() ==> #[trigger] path[i] != '\\' && path[i] != ':' && path[i] != '|'
}

/// Whether a path is text, and plain.
pub open spec fn is_plain(path: Seq<u8>) -> bool {
    path_text(path) matches Some(text) && is_plain_path(text)
}

/// Whether a path is plain, and made of ASCII letters and digits, dots, dashes and underscores
/// alone. Its url shows it as it is.
pub open spec fn is_simple(path: Seq<u8>) -> bool {
    &&& is_plain(path)
    &&& forall|i: int|
        0 <= i < decode_utf8(path).len() ==> is_simple_char(#[trigger] decode_utf8(path)[i])
}

pub open spec fn is_simple_char(c: char) -> bool {
    'a' <= c <= 'z' || 'A' <= c <= 'Z' || '0' <= c <= '9' || c == '/' || c == '.' || c == '-' || c
        == '_'
}

/// The url of a file: what `Url::from_file_path` makes of a path, by the rules of the platform that
/// the crate is built for.
pub uninterp spec fn url_of_path(path: Seq<u8>) -> Option<Seq<char>>;

/// The path that a url stands for: what `Url::to_file_path` makes of it, by the rules of the
/// platform that the crate is built for.
pub uninterp spec fn path_of_url(url: Seq<char>) -> Option<Seq<u8>>;

/// Whether `url` is the url of the file at `path`: it leads back to a plain path, and shows a simple
/// one as it is.
pub open spec fn is_url_of(path: Seq<u8>, url: Seq<char>) -> bool {
    &&& url_of_path(path) == Some(url)
    &&& is_plain(path) ==> path_of_url(url) == Some(path)
    &&& is_simple(path) ==> url == "file://"@ + decode_utf8(path)
}

/// The rest of `path` behind the directory `base`: what `Path::strip_prefix` makes of two paths
/// that are not both plain, by the rules of the platform that the crate is built for.
pub uninterp spec fn odd_path_behind(path: Seq<u8>, base: Seq<u8>) -> Option<Seq<u8>>;

/// Whether `path` lies in the directory `base`, where both are plain.
pub open spec fn lies_in(path: Seq<char>, base: Seq<char>) -> bool {
    base.len() < path.len() && base.is_prefix_of(path) && path[base.len() as int] == '/'
}

/// The rest of `path` behind the directory `base`, if it lies there.
pub open spec fn path_behind(path: Seq<u8>, base: Seq<u8>) -> Option<Seq<u8>> {
    if is_plain(path) && is_plain(base) {
        let text = decode_utf8(path);
        let directory = decode_utf8(base);
        if path == base {
            Some(Seq::empty())
        } else if lies_in(text, directory) {
            Some(encode_utf8(text.skip(directory.len() as int + 1)))
        } else {
            None
        }
    } else {
        odd_path_behind(path, base)
    }
}

/// Makes a path of a text with `PathBuf::from`. The path is that text.
#[verifier::external_body]
pub(crate) fn path_from(text: &str) -> (path: PathBuf)
    ensures
        path_bytes(path) == encode_utf8(text@),
{
    PathBuf::from(text)
}

/// Calls `Path::to_str`: the text of a path that is text, and nothing for any other.
#[verifier::external_body]
pub(crate) fn to_text(path: &PathBuf) -> (text: Option<String>)
    ensures
        match text {
            Some(text) => valid_utf8(path_bytes(*path)) && text@ == decode_utf8(path_bytes(*path)),
            None => !valid_utf8(path_bytes(*path)),
        },
{
    path.to_str().map(|text| text.to_owned())
}

/// Calls `Path::display`.
///
/// A path that is text is shown as that text. For any other path what is shown depends on its bytes
/// alone.
#[verifier::external_body]
pub(crate) fn display(path: &PathBuf) -> (text: String)
    ensures
        text@ == (if valid_utf8(path_bytes(*path)) {
            decode_utf8(path_bytes(*path))
        } else {
            odd_path_shown(path_bytes(*path))
        }),
{
    path.display().to_string()
}

/// Calls `url::Url::from_file_path`.
///
/// The url depends on the path alone. There is none for a path that is not absolute, and every url
/// there is has the scheme `file`. `to_file_path` leads from the url of a plain path back to it. The
/// url of a simple path is that path behind the scheme.
#[verifier::external_body]
pub(crate) fn from_file_path(path: &PathBuf) -> (url: Option<String>)
    ensures
        url is Some == url_of_path(path_bytes(*path)) is Some,
        url matches Some(url) ==> {
            &&& url_of_path(path_bytes(*path)) == Some(url@)
            &&& "file://"@.is_prefix_of(url@)
            &&& is_plain(path_bytes(*path)) ==> path_of_url(url@) == Some(path_bytes(*path))
            &&& is_simple(path_bytes(*path)) ==> url@ == "file://"@ + decode_utf8(path_bytes(*path))
        },
{
    url::Url::from_file_path(path).ok().map(|url| url.to_string())
}

/// Calls `url::Url::to_file_path` on the url with the given text.
///
/// The path depends on the url alone. There is none for a text that is no url.
#[verifier::external_body]
pub(crate) fn to_file_path(url: &str) -> (path: Option<PathBuf>)
    ensures
        match path {
            Some(path) => path_of_url(url@) == Some(path_bytes(path)),
            None => path_of_url(url@) is None,
        },
{
    url::Url::parse(url).ok()?.to_file_path().ok()
}

/// Calls `std::path::Path::strip_prefix`.
///
/// Of a plain path it gives the rest behind a plain directory that the path lies in, and an empty
/// path for the directory itself. There is no rest of a plain path behind any other plain directory.
/// For paths that are not both plain the result depends on both of them alone.
#[verifier::external_body]
pub(crate) fn strip_prefix(path: &PathBuf, base: &PathBuf) -> (rest: Option<PathBuf>)
    ensures
        is_plain(path_bytes(*path)) && is_plain(path_bytes(*base)) ==> match rest {
            Some(rest) => path_behind(path_bytes(*path), path_bytes(*base)) == Some(
                path_bytes(rest),
            ),
            None => path_behind(path_bytes(*path), path_bytes(*base)) is None,
        },
        !(is_plain(path_bytes(*path)) && is_plain(path_bytes(*base))) ==> match rest {
            Some(rest) => odd_path_behind(path_bytes(*path), path_bytes(*base)) == Some(
                path_bytes(rest),
            ),
            None => odd_path_behind(path_bytes(*path), path_bytes(*base)) is None,
        },
{
    path.strip_prefix(base).ok().map(|rest| rest.to_path_buf())
}

} // verus!
