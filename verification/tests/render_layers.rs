//! Layer rendering: whiteouts, opaque resets, ordering and path safety.

use docker_registry::errors::Error;
use docker_registry::render::{unpack, EntryKind, Fs, Layer, LayerEntry, Node, RawPath};

fn raw(path: &str) -> RawPath {
    let absolute = path.starts_with('/');
    let components: Vec<Vec<u8>> = path
        .split('/')
        .filter(|c| !c.is_empty())
        .map(|c| c.as_bytes().to_vec())
        .collect();
    RawPath { absolute, components }
}

fn norm(path: &str) -> Vec<Vec<u8>> {
    raw(path).components
}

fn file(path: &str, data: &str) -> LayerEntry {
    LayerEntry { path: raw(path), kind: EntryKind::File { data: data.as_bytes().to_vec() } }
}

fn dir(path: &str) -> LayerEntry {
    LayerEntry { path: raw(path), kind: EntryKind::Dir }
}

fn marker(path: &str) -> LayerEntry {
    // Whiteout and opaque markers are recorded as empty files.
    file(path, "")
}

fn layer(entries: Vec<LayerEntry>) -> Layer {
    Layer { entries }
}

fn file_content(fs: &Fs, path: &str) -> Option<Vec<u8>> {
    match fs.lookup(&norm(path)) {
        Some(Node::File(d)) => Some(d.clone()),
        _ => None,
    }
}

#[test]
fn whiteout_deletes_earlier_layer_file() {
    // Layer A creates /f with content "1"; layer B contains .wh.f; after
    // unpacking [A, B], /f does not exist.
    let a = layer(vec![file("f", "1")]);
    let b = layer(vec![marker(".wh.f")]);
    let mut fs = Fs::new();
    unpack(&mut fs, &vec![a, b]).unwrap();
    assert!(fs.lookup(&norm("f")).is_none());
}

#[test]
fn whiteout_deletes_directories_recursively() {
    let a = layer(vec![dir("d"), file("d/x", "1"), file("d/y/z", "2")]);
    let b = layer(vec![marker(".wh.d")]);
    let mut fs = Fs::new();
    unpack(&mut fs, &vec![a, b]).unwrap();
    assert!(fs.lookup(&norm("d")).is_none());
    assert!(fs.lookup(&norm("d/x")).is_none());
    assert!(fs.lookup(&norm("d/y/z")).is_none());
}

#[test]
fn whiteout_of_missing_target_is_a_no_op() {
    let a = layer(vec![file("f", "1")]);
    let b = layer(vec![marker(".wh.ghost")]);
    let mut fs = Fs::new();
    unpack(&mut fs, &vec![a, b]).unwrap();
    assert_eq!(file_content(&fs, "f"), Some(b"1".to_vec()));
}

#[test]
fn opaque_resets_directory_but_keeps_it() {
    // Layer A creates /d/x; layer B contains /d/.wh..wh..opq and creates
    // /d/y; after unpacking [A, B], /d contains only y.
    let a = layer(vec![dir("d"), file("d/x", "1")]);
    let b = layer(vec![marker("d/.wh..wh..opq"), file("d/y", "2")]);
    let mut fs = Fs::new();
    unpack(&mut fs, &vec![a, b]).unwrap();
    assert!(fs.lookup(&norm("d/x")).is_none());
    assert_eq!(file_content(&fs, "d/y"), Some(b"2".to_vec()));
    assert!(matches!(fs.lookup(&norm("d")), Some(Node::Dir)));
}

#[test]
fn opaque_does_not_touch_siblings() {
    let a = layer(vec![file("d/x", "1"), file("e/x", "3")]);
    let b = layer(vec![marker("d/.wh..wh..opq")]);
    let mut fs = Fs::new();
    unpack(&mut fs, &vec![a, b]).unwrap();
    assert!(fs.lookup(&norm("d/x")).is_none());
    assert_eq!(file_content(&fs, "e/x"), Some(b"3".to_vec()));
}

#[test]
fn parent_traversal_aborts_with_path_traversal() {
    // No write happens for the layer: the offending entry is its first.
    let a = layer(vec![file("../escape", "x"), file("innocent", "y")]);
    let mut fs = Fs::new();
    let err = unpack(&mut fs, &vec![a]).unwrap_err();
    assert!(matches!(err, Error::PathTraversal(_)));
    assert!(fs.lookup(&norm("innocent")).is_none());
    assert!(fs.lookup(&norm("escape")).is_none());
}

#[test]
fn absolute_path_aborts_with_path_traversal() {
    let a = layer(vec![file("/etc/passwd", "x")]);
    let mut fs = Fs::new();
    let err = unpack(&mut fs, &vec![a]).unwrap_err();
    assert!(matches!(err, Error::PathTraversal(_)));
    assert!(fs.lookup(&norm("etc/passwd")).is_none());
}

#[test]
fn nested_traversal_aborts_even_inside_subdirectory() {
    let a = layer(vec![file("d/../../escape", "x")]);
    let mut fs = Fs::new();
    let err = unpack(&mut fs, &vec![a]).unwrap_err();
    assert!(matches!(err, Error::PathTraversal(_)));
}

#[test]
fn symlink_escaping_the_root_aborts() {
    let a = layer(vec![dir("d"), LayerEntry {
        path: raw("d/link"),
        kind: EntryKind::Symlink { target: raw("../../outside") },
    }]);
    let mut fs = Fs::new();
    let err = unpack(&mut fs, &vec![a]).unwrap_err();
    assert!(matches!(err, Error::PathTraversal(_)));
}

#[test]
fn symlink_inside_the_root_is_kept() {
    let a = layer(vec![dir("d"), file("d/target", "1"), LayerEntry {
        path: raw("d/link"),
        kind: EntryKind::Symlink { target: raw("../d/target") },
    }]);
    let mut fs = Fs::new();
    unpack(&mut fs, &vec![a]).unwrap();
    match fs.lookup(&norm("d/link")) {
        Some(Node::Symlink(t)) => assert_eq!(t.clone(), norm("d/target")),
        other => panic!("expected a symlink, got {other:?}"),
    }
}

#[test]
fn later_layer_supersedes_earlier_one() {
    let a = layer(vec![file("f", "old")]);
    let b = layer(vec![file("f", "new")]);
    let mut fs = Fs::new();
    unpack(&mut fs, &vec![a, b]).unwrap();
    assert_eq!(file_content(&fs, "f"), Some(b"new".to_vec()));
}

#[test]
fn missing_parent_directories_are_created() {
    let a = layer(vec![file("a/b/c", "1")]);
    let mut fs = Fs::new();
    unpack(&mut fs, &vec![a]).unwrap();
    assert!(matches!(fs.lookup(&norm("a")), Some(Node::Dir)));
    assert!(matches!(fs.lookup(&norm("a/b")), Some(Node::Dir)));
    assert_eq!(file_content(&fs, "a/b/c"), Some(b"1".to_vec()));
}

#[test]
fn hardlink_copies_a_present_file() {
    let a = layer(vec![file("orig", "data"), LayerEntry {
        path: raw("link"),
        kind: EntryKind::Hardlink { target: raw("orig") },
    }]);
    let mut fs = Fs::new();
    unpack(&mut fs, &vec![a]).unwrap();
    assert_eq!(file_content(&fs, "link"), Some(b"data".to_vec()));
}

#[test]
fn hardlink_to_missing_target_is_fatal() {
    let a = layer(vec![LayerEntry {
        path: raw("link"),
        kind: EntryKind::Hardlink { target: raw("ghost") },
    }]);
    let mut fs = Fs::new();
    let err = unpack(&mut fs, &vec![a]).unwrap_err();
    assert!(matches!(err, Error::FatalIo(_)));
}

#[test]
fn dot_segments_normalize_away() {
    let a = layer(vec![file("./d/./f", "1")]);
    let mut fs = Fs::new();
    unpack(&mut fs, &vec![a]).unwrap();
    assert_eq!(file_content(&fs, "d/f"), Some(b"1".to_vec()));
}
