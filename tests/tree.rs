use cargo_doc_upload::tree::{is_root_index, is_under, join, lookup, rebuild, same_tree, Entry};
use std::collections::BTreeMap;

fn path(p: &str) -> Vec<String> {
    p.split('/').map(|s| s.to_string()).collect()
}

fn entry(p: &str, c: &str) -> Entry {
    Entry { path: path(p), content: c.as_bytes().to_vec() }
}

fn files(t: &[Entry]) -> BTreeMap<String, String> {
    let mut m = BTreeMap::new();
    for e in t {
        m.insert(e.path.join("/"), String::from_utf8(e.content.clone()).unwrap());
    }
    m
}

fn expect(v: &[(&str, &str)]) -> BTreeMap<String, String> {
    v.iter().map(|(p, c)| (p.to_string(), c.to_string())).collect()
}

#[test]
fn new_branch_holds_exactly_the_docs() {
    let docs = vec![entry("index.html", "<h1>x</h1>")];
    let t = rebuild(&vec![], &path("master"), &docs, false);
    assert_eq!(files(&t), expect(&[("master/index.html", "<h1>x</h1>")]));
}

#[test]
fn clobber_removes_root_index_only() {
    let old = vec![
        entry("index.html", "landing"),
        entry("other/index.html", "other"),
        entry("master/old.html", "stale"),
    ];
    let docs = vec![entry("index.html", "new")];
    let t = rebuild(&old, &path("master"), &docs, true);
    assert_eq!(
        files(&t),
        expect(&[("other/index.html", "other"), ("master/index.html", "new")])
    );
}

#[test]
fn root_index_stays_without_clobber() {
    let old = vec![entry("index.html", "landing")];
    let docs = vec![entry("a.html", "a")];
    let t = rebuild(&old, &path("master"), &docs, false);
    assert_eq!(files(&t), expect(&[("index.html", "landing"), ("master/a.html", "a")]));
}

#[test]
fn stale_files_under_sub_path_are_removed() {
    let old = vec![
        entry("master/gone.html", "old"),
        entry("master/keep/deep.html", "old"),
        entry("master", "a file where the directory goes"),
    ];
    let docs = vec![entry("keep/deep.html", "new")];
    let t = rebuild(&old, &path("master"), &docs, false);
    assert_eq!(files(&t), expect(&[("master/keep/deep.html", "new")]));
}

#[test]
fn sibling_with_shared_prefix_is_kept() {
    let old = vec![entry("master2/x.html", "sibling"), entry("dev/y.html", "dev")];
    let docs = vec![entry("z.html", "z")];
    let t = rebuild(&old, &path("master"), &docs, true);
    assert_eq!(
        files(&t),
        expect(&[("master2/x.html", "sibling"), ("dev/y.html", "dev"), ("master/z.html", "z")])
    );
}

#[test]
fn empty_docs_clear_the_sub_path() {
    let old = vec![entry("master/a.html", "a"), entry("dev/b.html", "b")];
    let t = rebuild(&old, &path("master"), &vec![], false);
    assert_eq!(files(&t), expect(&[("dev/b.html", "b")]));
}

#[test]
fn publishing_twice_gives_the_same_tree() {
    let old = vec![entry("index.html", "landing"), entry("dev/b.html", "b"), entry("master/old.html", "o")];
    let docs = vec![entry("index.html", "i"), entry("sub/c.html", "c")];
    let once = rebuild(&old, &path("master"), &docs, true);
    let twice = rebuild(&once, &path("master"), &docs, true);
    assert_eq!(files(&once), files(&twice));
}

#[test]
fn nested_sub_path() {
    let old = vec![entry("docs/v1/a.html", "a"), entry("docs/v2/a.html", "old")];
    let docs = vec![entry("a.html", "new")];
    let t = rebuild(&old, &path("docs/v2"), &docs, false);
    assert_eq!(files(&t), expect(&[("docs/v1/a.html", "a"), ("docs/v2/a.html", "new")]));
}

#[test]
fn path_helpers() {
    assert!(is_under(&path("a/b/c"), &path("a/b")));
    assert!(is_under(&path("a/b"), &path("a/b")));
    assert!(!is_under(&path("a/bc"), &path("a/b")));
    assert!(!is_under(&path("a"), &path("a/b")));
    assert!(is_root_index(&path("index.html")));
    assert!(!is_root_index(&path("x/index.html")));
    assert_eq!(join(&path("a/b"), &path("c")), path("a/b/c"));
}

#[test]
fn tree_equality_ignores_order_and_shadowed_entries() {
    let a = vec![entry("x", "1"), entry("y", "2")];
    let b = vec![entry("y", "2"), entry("x", "0"), entry("x", "1")];
    assert!(same_tree(&a, &b));
    assert!(same_tree(&b, &a));
    assert!(!same_tree(&a, &vec![entry("x", "1")]));
    assert!(!same_tree(&a, &vec![entry("x", "1"), entry("y", "3")]));
    assert_eq!(lookup(&b, &path("x")), Some(2));
    assert_eq!(lookup(&b, &path("z")), None);
}
