use drawing_files::content_guard::{
    extension_of, file_stem, is_recognized_name, is_recognized_path, validate_content,
    validate_is_recognized,
};
use drawing_files::file_ops::{accept_read, check_target, check_write, DEFAULT_DOCUMENT};
use drawing_files::path_guard::{path_components, plain_name, safe_join, validate};
use drawing_files::FsError;

#[test]
fn validate_resolves_dots_and_repeated_separators() {
    assert_eq!(validate("/a/./b//c/../d", None), Ok("/a/b/d".to_string()));
    assert_eq!(validate("/..", None), Ok("/".to_string()));
    assert_eq!(validate("/", None), Ok("/".to_string()));
}

#[test]
fn validate_rejects_relative_and_empty_paths() {
    assert_eq!(validate("a/b", None), Err(FsError::InvalidPath));
    assert_eq!(validate("", None), Err(FsError::InvalidPath));
    assert_eq!(validate("/a", Some("rel")), Err(FsError::InvalidPath));
}

#[test]
fn validate_outside_root_is_an_escape() {
    assert_eq!(validate("/home/u/other/x.excalidraw", Some("/home/u/docs")), Err(FsError::PathEscape));
    assert_eq!(validate("/home/u/docs/../secret", Some("/home/u/docs")), Err(FsError::PathEscape));
    assert_eq!(validate("/home/u/docsx", Some("/home/u/docs")), Err(FsError::PathEscape));
}

#[test]
fn validate_beneath_root_succeeds_and_is_idempotent() {
    let root = Some("/home/u/docs");
    let first = validate("/home/u/docs/sub/../a.excalidraw", root).unwrap();
    assert_eq!(first, "/home/u/docs/a.excalidraw");
    assert_eq!(validate(&first, root), Ok(first.clone()));
    assert_eq!(validate("/home/u/docs", root), Ok("/home/u/docs".to_string()));
}

#[test]
fn path_components_split_and_resolve() {
    assert_eq!(path_components("/a//b/./c/.."), vec!["a".to_string(), "b".to_string()]);
}

#[test]
fn safe_join_refuses_escaping_names() {
    assert_eq!(safe_join("/d", "../x.excalidraw", None), Err(FsError::InvalidPath));
    assert_eq!(safe_join("/d", "..", None), Err(FsError::InvalidPath));
    assert_eq!(safe_join("/d", ".", None), Err(FsError::InvalidPath));
    assert_eq!(safe_join("/d", "", None), Err(FsError::InvalidPath));
    assert_eq!(safe_join("/d", "a/b", None), Err(FsError::InvalidPath));
    assert_eq!(safe_join("/d", "a\\b", None), Err(FsError::InvalidPath));
    assert_eq!(safe_join("/d", "n.excalidraw", None), Ok("/d/n.excalidraw".to_string()));
    assert!(plain_name("x.excalidraw"));
}

#[test]
fn extension_rules_follow_the_last_dot() {
    assert_eq!(extension_of("a.b.excalidraw"), Some("excalidraw".to_string()));
    assert_eq!(extension_of(".hidden"), None);
    assert_eq!(extension_of(".."), None);
    assert_eq!(extension_of("a."), Some("".to_string()));
    assert_eq!(file_stem("a.b.excalidraw"), "a.b");
    assert_eq!(file_stem(".hidden"), ".hidden");
    assert!(is_recognized_name("x.excalidraw"));
    assert!(!is_recognized_name("x.EXCALIDRAW"));
    assert!(!is_recognized_name(".excalidraw"));
    assert!(!is_recognized_name("x.txt"));
}

#[test]
fn recognized_paths_look_at_the_last_component() {
    assert!(is_recognized_path("/d/x.excalidraw"));
    assert!(!is_recognized_path("/d/x.excalidraw/.."));
    assert_eq!(validate_is_recognized("/d/x.txt"), Err(FsError::WrongExtension));
    assert_eq!(validate_is_recognized("/d/x.excalidraw"), Ok(()));
}

#[test]
fn content_needs_the_type_marker() {
    assert_eq!(validate_content("{\"type\":\"excalidraw\",\"elements\":[]}"), Ok(()));
    assert_eq!(validate_content("{\"type\":\"other\"}"), Err(FsError::InvalidContent));
    assert_eq!(validate_content("{\"elements\":[]}"), Err(FsError::InvalidContent));
    assert_eq!(validate_content("not json"), Err(FsError::InvalidContent));
    assert_eq!(validate_content("{\"type\":1}"), Err(FsError::InvalidContent));
}

#[test]
fn created_template_reads_back_unchanged() {
    let doc = DEFAULT_DOCUMENT.to_string();
    assert_eq!(accept_read(doc.clone()), Ok(doc));
}

#[test]
fn read_rejects_malformed_content() {
    assert_eq!(accept_read("{}".to_string()), Err(FsError::InvalidContent));
}

#[test]
fn targets_are_checked_before_disk_access() {
    assert_eq!(check_target("/d/a.excalidraw", Some("/d")), Ok("/d/a.excalidraw".to_string()));
    assert_eq!(check_target("/d/a.txt", Some("/d")), Err(FsError::WrongExtension));
    assert_eq!(check_target("/e/a.excalidraw", Some("/d")), Err(FsError::PathEscape));
    assert_eq!(check_write("/d/a.excalidraw", None, "{}"), Err(FsError::InvalidContent));
    assert_eq!(check_write("/d/a.excalidraw", None, "{\"type\":\"excalidraw\"}"), Ok("/d/a.excalidraw".to_string()));
    assert_eq!(check_write("/d/a.txt", None, "{}"), Err(FsError::WrongExtension));
}
