use std::path::PathBuf;

use gluon_language_server::check_importer::{loaded_modules, CheckImporter, State};
use gluon_language_server::command::initialize::{
    initialize, invalid_params, root_path, InitializeError, TextDocumentSyncKind,
};
use gluon_language_server::name::{
    codespan_name_to_file, codspan_name_to_module, file_path, filename_to_module, filename_to_url,
    module_filename, module_name_to_file, module_name_to_file_, strip_file_prefix,
};
use url::Url;

fn missing() -> Result<PathBuf, String> {
    Err("No such file or directory".to_string())
}

fn path(path: &str) -> Option<PathBuf> {
    Some(PathBuf::from(path))
}

fn at(path: &str) -> Result<PathBuf, String> {
    Ok(PathBuf::from(path))
}

#[test]
fn test_strip_file_prefix() {
    // The directory that the program runs in.
    let current = "/home/user/project";
    let url = Url::from_file_path(format!("{}/test", current)).unwrap();
    let joined = file_path(url.as_str());
    assert_eq!(joined, Ok(PathBuf::from(format!("{}/test", current))));
    let renamed = strip_file_prefix(
        &vec![path(current)],
        None,
        Ok(joined.unwrap()),
        at(current),
    )
    .unwrap();
    assert_eq!(renamed, "test");
}

#[test]
fn first_directory_counts() {
    let strip = |paths: Vec<Option<PathBuf>>, name: &str| {
        strip_file_prefix(&paths, path(name), missing(), at("/work")).unwrap()
    };
    let paths = || vec![None, path("/a/b"), path("/a")];
    assert_eq!(strip(paths(), "/a/b/c.glu"), "c.glu");
    assert_eq!(strip(paths(), "/a/bc.glu"), "bc.glu");
    assert_eq!(strip(paths(), "/work/x/y.glu"), "x/y.glu");
    assert_eq!(strip(paths(), "/other/y.glu"), "/other/y.glu");
    assert_eq!(strip(vec![path("/a"), path("/a/b")], "/a/b/c.glu"), "b/c.glu");
}

#[test]
fn current_directory_may_be_missing() {
    let gone = || Err("gone".to_string());
    let error = strip_file_prefix(&vec![], None, gone(), at("/work")).unwrap_err();
    assert_eq!(error.message, "gone");
    let error = strip_file_prefix(&vec![], path("/a"), missing(), gone()).unwrap_err();
    assert_eq!(error.message, "gone");
    let found = strip_file_prefix(&vec![path("/a")], path("/a/b"), gone(), gone());
    assert_eq!(found, Ok("b".to_string()));
}

#[test]
fn urls_stand_for_files() {
    assert_eq!(
        file_path("file:///C%3A/examples/test.glu"),
        Ok(PathBuf::from("/C:/examples/test.glu"))
    );
    for url in ["http://example.com/a", "no url", "untitled:1"] {
        assert_eq!(file_path(url).unwrap_err().message, "Expected a file uri");
    }
}

#[test]
fn files_have_urls() {
    assert_eq!(
        filename_to_url("a b.glu", at("/work/a b.glu"), None),
        Ok("file:///work/a%20b.glu".to_string())
    );
    assert_eq!(
        filename_to_url("a.glu", missing(), path("/work/a.glu")),
        Ok("file:///work/a.glu".to_string())
    );
    assert_eq!(
        filename_to_url("a.glu", missing(), None).unwrap_err().message,
        "No such file or directory"
    );
    assert_eq!(
        filename_to_url("a.glu", missing(), path("a.glu"))
            .unwrap_err()
            .message,
        "Unable to convert module name to a url: `a.glu`"
    );
}

#[test]
fn modules_have_urls() {
    assert_eq!(
        module_name_to_file_("a.b", missing(), path("/work/a/b.glu")),
        Ok("file:///work/a/b.glu".to_string())
    );
    // A name that is a path can be used as such.
    assert_eq!(
        module_name_to_file_("/a/b", missing(), None),
        Ok("file:///a/b".to_string())
    );
    assert_eq!(
        module_name_to_file_("a.b", missing(), None)
            .unwrap_err()
            .message,
        "Unable to convert module name to a url: `a.b`"
    );
    assert_eq!(
        codespan_name_to_file("a", at("/x/a.glu"), None),
        Ok("file:///x/a.glu".to_string())
    );
}

#[test]
fn known_modules_have_the_urls_that_are_known() {
    let mut importer = CheckImporter::new();
    importer.import("a.b".to_string(), "file:///known".to_string());
    let joined = || path("/work/a/b.glu");
    assert_eq!(
        module_name_to_file(&importer, "a.b", missing(), joined()),
        Ok("file:///known".to_string())
    );
    assert_eq!(
        module_name_to_file(&importer, "a", missing(), joined()),
        Ok("file:///work/a/b.glu".to_string())
    );
}

#[test]
fn names_of_modules_and_files() {
    assert_eq!(module_filename("std.prelude"), "std/prelude.glu");
    assert_eq!(module_filename(""), ".glu");
    assert_eq!(codspan_name_to_module("a/b.c"), "a/b.c");
    assert_eq!(filename_to_module("std/prelude.glu"), "std.prelude");
    assert_eq!(filename_to_module("test"), "test");
}

#[test]
fn modules_are_known_by_name() {
    let mut importer = CheckImporter::new();
    assert!(importer.get("a").is_none());
    importer.checked("a".to_string(), "file:///a".to_string(), Some(3));
    assert_eq!(importer.get("a").unwrap().version, Some(3));
    importer.checked("a".to_string(), "file:///b".to_string(), None);
    assert_eq!(importer.get("a").unwrap().version, Some(3));
    assert_eq!(importer.get("a").unwrap().uri, "file:///b");
    importer.insert("b".to_string(), State::empty("file:///c".to_string()));
    importer.entry("c".to_string(), "file:///d".to_string()).version = Some(1);
    assert_eq!(
        importer.uris(),
        vec![
            ("a".to_string(), "file:///b".to_string()),
            ("b".to_string(), "file:///c".to_string()),
            ("c".to_string(), "file:///d".to_string()),
        ]
    );
    importer.import("a".to_string(), "file:///e".to_string());
    assert_eq!(importer.get("a").unwrap().version, None);
    assert_eq!(importer.uris().len(), 3);
}

#[test]
fn modules_have_to_be_known() {
    let mut importer = CheckImporter::new();
    importer.import("a\"b".to_string(), "file:///a".to_string());
    importer.import("c".to_string(), "file:///c".to_string());
    let module = importer.module("c", Some(1)).unwrap();
    assert_eq!((module.source, module.uri), (1, "file:///c".to_string()));
    assert!(importer.module::<u32>("c", None).is_none());
    assert!(importer.module("d", Some(1)).is_none());
    let missing = importer.module("d", Some(1));
    let error = importer.require("d", missing).err().unwrap();
    assert_eq!(
        error.message,
        "Module `d` is not defined\n[\"a\\\"b\", \"c\"]"
    );
    let found = importer.module("c", Some(1));
    assert_eq!(importer.require("c", found).unwrap().source, 1);
}

#[test]
fn loaded_modules_keep_their_order() {
    let candidates = vec![
        ("file:///a".to_string(), Some(1)),
        ("file:///b".to_string(), None),
        ("file:///c".to_string(), Some(3)),
    ];
    let modules = loaded_modules(candidates);
    let loaded: Vec<(String, u32)> = modules.into_iter().map(|m| (m.uri, m.source)).collect();
    assert_eq!(
        loaded,
        vec![("file:///a".to_string(), 1), ("file:///c".to_string(), 3)]
    );
}

#[test]
fn server_tells_of_itself() {
    let result = initialize("1.2.3", Some("abcdef"));
    assert_eq!(result.name, "Gluon language server");
    assert_eq!(result.version, "1.2.3-abcdef");
    let capabilities = result.capabilities;
    assert_eq!(
        capabilities.text_document_sync,
        TextDocumentSyncKind::Incremental
    );
    assert!(capabilities.completion_resolve);
    assert_eq!(capabilities.completion_triggers, vec![".".to_string()]);
    assert!(capabilities.signature_help);
    assert!(capabilities.hover);
    assert!(capabilities.document_formatting);
    assert!(capabilities.document_highlight);
    assert!(capabilities.document_symbol);
    assert!(capabilities.workspace_symbol);
    assert!(capabilities.definition);
    assert_eq!(initialize("1.2.3", None).version, "1.2.3");
    assert_eq!(invalid_params(), Some(InitializeError { retry: false }));
}

#[test]
fn root_has_to_be_a_directory() {
    assert_eq!(root_path(None), Ok(None));
    assert_eq!(root_path(Some("file:///a%20b")), Ok(path("/a b")));
    let error = root_path(Some("http://a/b")).unwrap_err();
    assert_eq!(error.message, "Unable to convert root_uri to file path");
    assert_eq!(error.data, None);
}

#[test]
fn module_names_come_back() {
    let directory = "/home/user/project";
    for name in ["main", "std.prelude", "a.b.c", "a b.c-d", "\u{e5}.\u{e4}"] {
        let joined = format!("{}/{}", directory, module_filename(name));
        let url = module_name_to_file_(name, missing(), path(&joined)).unwrap();
        assert_eq!(file_path(&url), Ok(PathBuf::from(&joined)));
        let filename = strip_file_prefix(
            &vec![path(directory)],
            path(&joined),
            missing(),
            at("/elsewhere"),
        )
        .unwrap();
        assert_eq!(filename, module_filename(name));
        assert_eq!(filename_to_module(&filename), name);
    }
}

#[test]
fn directories_are_stripped_by_whole_names() {
    let strip = |directory: &str, name: &str| {
        let paths = vec![path(directory)];
        strip_file_prefix(&paths, path(name), missing(), at("/other")).unwrap()
    };
    assert_eq!(strip("/a/b", "/a/b/c"), "c");
    assert_eq!(strip("/a/b", "/a/b"), "");
    assert_eq!(strip("/a/b", "/a/bc"), "/a/bc");
    assert_eq!(strip("/a/b/c", "/a/b"), "/a/b");
}

#[test]
fn paths_need_not_be_text() {
    let odd = || file_path("file:///work/a/%FF.glu").unwrap();
    assert_eq!(odd().to_str(), None);
    let strip = |paths: Vec<Option<PathBuf>>, directory: &str| {
        strip_file_prefix(&paths, None, Ok(odd()), at(directory)).unwrap()
    };
    // A directory is passed over where the rest is not text, unless it is the current one.
    assert_eq!(strip(vec![path("/work")], "/work/a"), "\u{fffd}.glu");
    assert_eq!(strip(vec![path("/work")], "/other"), "/work/a/\u{fffd}.glu");
    // The path of a directory need not be text either.
    let directory = file_path("file:///%FF").unwrap();
    let inside = file_path("file:///%FF/b.glu").unwrap();
    assert_eq!(
        strip_file_prefix(&vec![Some(directory.clone())], Some(inside), missing(), at("/work")),
        Ok("b.glu".to_string())
    );
    assert_eq!(root_path(Some("file:///%FF")), Ok(Some(directory.clone())));
    assert_eq!(
        filename_to_url("a.glu", Ok(directory.join("a.glu")), None),
        Ok("file:///%FF/a.glu".to_string())
    );
}
