use drawing_files::naming::{decimal_string, unique_name};
use drawing_files::file_ops::{confirm_created, plan_create};
use drawing_files::tree::has_excalidraw_files;
use drawing_files::{get_file_tree, list_excalidraw_files, EntryKind, FileTreeNode, FsError, ScannedEntry};

fn file(dir: &str, name: &str) -> ScannedEntry {
    ScannedEntry { name: name.to_string(), path: format!("{}/{}", dir, name), kind: EntryKind::File }
}

fn dir(parent: &str, name: &str, children: Vec<ScannedEntry>) -> ScannedEntry {
    ScannedEntry {
        name: name.to_string(),
        path: format!("{}/{}", parent, name),
        kind: EntryKind::Directory(children),
    }
}

fn names(v: &[FileTreeNode]) -> Vec<String> {
    v.iter().map(|n| n.name.clone()).collect()
}

fn sample() -> Vec<ScannedEntry> {
    vec![
        file("/r", "z.excalidraw"),
        dir("/r", "empty", vec![file("/r/empty", "notes.txt")]),
        file("/r", "b.excalidraw"),
        dir("/r", "docs", vec![file("/r/docs", "y.excalidraw"), dir("/r/docs", "deep", vec![])]),
        file("/r", "readme.md"),
        dir("/r", "art", vec![dir("/r/art", "inner", vec![file("/r/art/inner", "a.excalidraw")])]),
    ]
}

#[test]
fn tree_drops_directories_without_drawings() {
    let t = get_file_tree(&sample());
    assert_eq!(names(&t), vec!["art", "docs", "b.excalidraw", "z.excalidraw"]);
    let docs = t[1].children.as_ref().unwrap();
    assert_eq!(names(docs), vec!["y.excalidraw"]);
    let art = t[0].children.as_ref().unwrap();
    assert_eq!(names(art), vec!["inner"]);
    assert_eq!(names(art[0].children.as_ref().unwrap()), vec!["a.excalidraw"]);
}

#[test]
fn tree_puts_directories_first_then_names() {
    let entries = vec![
        file("/r", "a.excalidraw"),
        dir("/r", "z", vec![file("/r/z", "q.excalidraw")]),
        dir("/r", "m", vec![file("/r/m", "q.excalidraw")]),
        file("/r", "B.excalidraw"),
    ];
    let t = get_file_tree(&entries);
    assert_eq!(names(&t), vec!["m", "z", "B.excalidraw", "a.excalidraw"]);
    assert!(t[0].is_directory && t[1].is_directory && !t[2].is_directory);
    assert!(t[2].children.is_none());
}

#[test]
fn tree_has_no_empty_directory_nodes() {
    fn check(nodes: &[FileTreeNode]) {
        for n in nodes {
            if n.is_directory {
                let c = n.children.as_ref().unwrap();
                assert!(!c.is_empty());
                check(c);
            }
        }
    }
    check(&get_file_tree(&sample()));
    assert!(get_file_tree(&vec![dir("/r", "e", vec![])]).is_empty());
}

#[test]
fn probe_finds_deep_drawings() {
    assert!(has_excalidraw_files(&sample()));
    assert!(!has_excalidraw_files(&vec![dir("/r", "e", vec![file("/r/e", "x.txt")])]));
}

#[test]
fn flat_listing_is_sorted_by_name() {
    let l = list_excalidraw_files(&sample());
    let n: Vec<&str> = l.iter().map(|f| f.name.as_str()).collect();
    assert_eq!(n, vec!["a.excalidraw", "b.excalidraw", "y.excalidraw", "z.excalidraw"]);
    assert_eq!(l[0].path, "/r/art/inner/a.excalidraw");
    assert!(l.iter().all(|f| !f.modified));
}

#[test]
fn flat_listing_keeps_order_of_equal_names() {
    let entries = vec![
        dir("/r", "one", vec![file("/r/one", "x.excalidraw")]),
        dir("/r", "two", vec![file("/r/two", "x.excalidraw")]),
    ];
    let l = list_excalidraw_files(&entries);
    assert_eq!(l[0].path, "/r/one/x.excalidraw");
    assert_eq!(l[1].path, "/r/two/x.excalidraw");
}

#[test]
fn unique_name_skips_taken_suffixes() {
    let taken = vec!["a.excalidraw".to_string(), "a-1.excalidraw".to_string()];
    assert_eq!(unique_name(&taken, "a.excalidraw"), Ok("a-2.excalidraw".to_string()));
}

#[test]
fn unique_name_keeps_a_free_name() {
    assert_eq!(unique_name(&vec![], "plan.excalidraw"), Ok("plan.excalidraw".to_string()));
    assert_eq!(unique_name(&vec!["b.excalidraw".to_string()], "plan"), Ok("plan".to_string()));
}

#[test]
fn unique_name_strips_doubled_extension() {
    let taken = vec!["a.excalidraw.excalidraw".to_string()];
    assert_eq!(unique_name(&taken, "a.excalidraw.excalidraw"), Ok("a-1.excalidraw".to_string()));
}

#[test]
fn unique_name_gives_up_after_the_ceiling() {
    let mut taken = vec!["a.excalidraw".to_string()];
    for k in 1..=100 {
        taken.push(format!("a-{}.excalidraw", k));
    }
    assert_eq!(unique_name(&taken, "a.excalidraw"), Err(FsError::NameExhausted));
    taken.pop();
    assert_eq!(unique_name(&taken, "a.excalidraw"), Ok("a-100.excalidraw".to_string()));
}

#[test]
fn decimal_digits() {
    assert_eq!(decimal_string(0), "0");
    assert_eq!(decimal_string(7), "7");
    assert_eq!(decimal_string(100), "100");
    assert_eq!(decimal_string(4096), "4096");
}

#[test]
fn plan_create_places_the_file_in_the_directory() {
    let taken = vec!["n.excalidraw".to_string()];
    assert_eq!(plan_create("/d/./x", "n.excalidraw", None, &taken), Ok("/d/x/n-1.excalidraw".to_string()));
    assert_eq!(plan_create("/d", "m.excalidraw", None, &taken), Ok("/d/m.excalidraw".to_string()));
    assert_eq!(plan_create("/d", "../m.excalidraw", None, &taken), Err(FsError::InvalidPath));
    assert_eq!(plan_create("/e", "m.excalidraw", Some("/d"), &taken), Err(FsError::PathEscape));
}

#[test]
fn creation_must_be_readable() {
    assert_eq!(confirm_created("/d/a.excalidraw".to_string(), true), Ok("/d/a.excalidraw".to_string()));
    assert_eq!(confirm_created("/d/a.excalidraw".to_string(), false), Err(FsError::CreationVerificationFailed));
}
