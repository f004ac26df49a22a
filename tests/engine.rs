use cmp_tree::classify::{compare_files, needs_content_comparison, EntryKind, FileCmp};
use cmp_tree::compare::TreeComparison;
use cmp_tree::content::{compare_contents, compare_lengths, LockstepComparison, RegFileCmp, CHUNK_SIZE};
use cmp_tree::order::compare_bytes;
use cmp_tree::path::{compare_paths, RelativePath};
use cmp_tree::reconcile::reconcile;
use cmp_tree::totals::tally;
use cmp_tree::walk::{DirEntryInfo, TreeWalk};

fn rp(s: &str) -> RelativePath {
    if s.is_empty() {
        return RelativePath::root();
    }
    RelativePath::from_components(s.split('/').map(|c| c.as_bytes().to_vec()).collect())
}

fn text(p: &RelativePath) -> String {
    p.components
        .iter()
        .map(|c| String::from_utf8(c.clone()).unwrap())
        .collect::<Vec<_>>()
        .join("/")
}

fn entry(name: &str, kind: EntryKind) -> DirEntryInfo {
    DirEntryInfo { name: name.as_bytes().to_vec(), kind }
}

/// In-memory tree: (path, kind, contents).
type Tree = Vec<(&'static str, EntryKind, &'static str)>;

fn lookup<'a>(tree: &'a Tree, p: &str) -> Option<&'a (&'static str, EntryKind, &'static str)> {
    tree.iter().find(|e| e.0 == p)
}

fn walk(tree: &Tree) -> Vec<RelativePath> {
    let mut w = TreeWalk::new();
    while let Some(dir) = w.next_directory() {
        let d = text(&dir);
        let mut entries = Vec::new();
        for (p, k, _) in tree.iter() {
            let (parent, name) = match p.rfind('/') {
                Some(i) => (&p[..i], &p[i + 1..]),
                None => ("", *p),
            };
            if parent == d {
                entries.push(entry(name, *k));
            }
        }
        w.add_listing(&dir, &entries);
    }
    w.files_in_tree()
}

fn compare_trees(a: &Tree, b: &Tree) -> Vec<(String, FileCmp)> {
    let mut run = TreeComparison::new(walk(a), walk(b));
    while let Some(p) = run.next_path() {
        let key = text(&p);
        let ea = lookup(a, &key);
        let eb = lookup(b, &key);
        let ka = ea.map(|e| e.1);
        let kb = eb.map(|e| e.1);
        let contents = if needs_content_comparison(ka, kb) {
            Some(compare_contents(ea.unwrap().2.as_bytes(), eb.unwrap().2.as_bytes()))
        } else {
            None
        };
        run.record(ka, kb, contents);
    }
    run.into_records()
        .iter()
        .map(|r| (text(&r.relative), r.partial_cmp.file_cmp))
        .collect()
}

#[test]
fn identical_contents_are_identical() {
    let a = vec![7u8; 20000];
    let b = a.clone();
    assert_eq!(compare_contents(&a, &b), RegFileCmp::Identical);
    assert_eq!(compare_contents(b"", b""), RegFileCmp::Identical);
    assert_eq!(compare_contents(b"hi", b"hi"), RegFileCmp::Identical);
}

#[test]
fn different_sizes_differ_in_length() {
    assert_eq!(compare_contents(b"hi", b"hi!"), RegFileCmp::DiffLength);
    assert_eq!(compare_contents(b"", b"x"), RegFileCmp::DiffLength);
    assert_eq!(compare_lengths(3, 4), Some(RegFileCmp::DiffLength));
    assert_eq!(compare_lengths(4, 4), None);
}

#[test]
fn last_byte_difference_is_found() {
    let a = vec![1u8; CHUNK_SIZE * 2 + 1];
    let mut b = a.clone();
    *b.last_mut().unwrap() = 2;
    assert_eq!(compare_contents(&a, &b), RegFileCmp::DiffContents);
    assert_eq!(compare_contents(b"ab", b"ac"), RegFileCmp::DiffContents);
    let c = vec![1u8; CHUNK_SIZE];
    let mut d = c.clone();
    d[CHUNK_SIZE - 1] = 0;
    assert_eq!(compare_contents(&c, &d), RegFileCmp::DiffContents);
}

#[test]
fn lockstep_steps() {
    let mut s = LockstepComparison::new();
    assert_eq!(s.step(b"abc", b"abc"), None);
    assert_eq!(s.step(b"ab", b"abc"), Some(RegFileCmp::DiffLength));
    assert_eq!(s.step(b"abd", b"abc"), Some(RegFileCmp::DiffContents));
    assert_eq!(s.step(b"", b""), Some(RegFileCmp::Identical));
    assert_eq!(s.step(b"", b"x"), Some(RegFileCmp::DiffLength));
}

#[test]
fn decision_table() {
    let f = |a, b, c| compare_files(a, b, c).file_cmp;
    assert_eq!(f(None, None, None), FileCmp::NeitherFileExists);
    assert_eq!(f(Some(EntryKind::RegularFile), None, None), FileCmp::OnlyFirstFileExists);
    assert_eq!(f(None, Some(EntryKind::Directory), None), FileCmp::OnlySecondFileExists);
    assert_eq!(f(Some(EntryKind::Directory), Some(EntryKind::RegularFile), None), FileCmp::TypeMismatch);
    assert_eq!(f(Some(EntryKind::Other), Some(EntryKind::Directory), None), FileCmp::TypeMismatch);
    assert_eq!(f(Some(EntryKind::Directory), Some(EntryKind::Directory), None), FileCmp::Match);
    assert_eq!(f(Some(EntryKind::Other), Some(EntryKind::Other), None), FileCmp::Match);
    assert_eq!(f(Some(EntryKind::RegularFile), Some(EntryKind::RegularFile), Some(RegFileCmp::Identical)), FileCmp::Match);
    assert_eq!(f(Some(EntryKind::RegularFile), Some(EntryKind::RegularFile), Some(RegFileCmp::DiffLength)), FileCmp::ContentMismatch);
    assert_eq!(f(Some(EntryKind::RegularFile), Some(EntryKind::RegularFile), Some(RegFileCmp::DiffContents)), FileCmp::ContentMismatch);
    let r = compare_files(Some(EntryKind::Directory), None, None);
    assert_eq!(r.first_ft, Some(EntryKind::Directory));
    assert_eq!(r.second_ft, None);
    assert!(needs_content_comparison(Some(EntryKind::RegularFile), Some(EntryKind::RegularFile)));
    assert!(!needs_content_comparison(Some(EntryKind::RegularFile), Some(EntryKind::Other)));
    assert!(!needs_content_comparison(Some(EntryKind::RegularFile), None));
}

#[test]
fn byte_and_path_order() {
    assert!(compare_bytes(b"a", b"b") < 0);
    assert!(compare_bytes(b"ab", b"a") > 0);
    assert_eq!(compare_bytes(b"abc", b"abc"), 0);
    assert!(compare_bytes(b"", b"a") < 0);
    // Component-wise: "a/b" comes before "a-b" although '-' < '/'.
    assert!(compare_paths(&rp("a/b"), &rp("a-b")) < 0);
    assert!(compare_paths(&rp("a"), &rp("a/x")) < 0);
    assert_eq!(compare_paths(&rp("a/x"), &rp("a/x")), 0);
    assert!(compare_paths(&rp("b"), &rp("a/z")) > 0);
}

#[test]
fn reconcile_sorts_and_dedups() {
    let first = vec![rp("b"), rp("a/x.txt"), rp("a"), rp("a/y.txt")];
    let second = vec![rp("a/z.txt"), rp("a"), rp("a/x.txt"), rp("c")];
    let r: Vec<String> = reconcile(first, second).iter().map(text).collect();
    assert_eq!(r, vec!["a", "a/x.txt", "a/y.txt", "a/z.txt", "b", "c"]);
    assert!(reconcile(Vec::new(), Vec::new()).is_empty());
}

#[test]
fn reconcile_is_repeatable() {
    let r1: Vec<String> = reconcile(vec![rp("x"), rp("y")], vec![rp("z")]).iter().map(text).collect();
    let r2: Vec<String> = reconcile(vec![rp("y"), rp("x")], vec![rp("z"), rp("z")]).iter().map(text).collect();
    assert_eq!(r1, r2);
}

#[test]
fn walk_lists_every_entry() {
    let tree: Tree = vec![
        ("a", EntryKind::Directory, ""),
        ("a/x.txt", EntryKind::RegularFile, "hi"),
        ("a/.hidden", EntryKind::RegularFile, ""),
        ("a/sub", EntryKind::Directory, ""),
        ("a/sub/deep", EntryKind::Other, ""),
        ("link", EntryKind::Other, ""),
    ];
    let mut found: Vec<String> = walk(&tree).iter().map(text).collect();
    found.sort();
    assert_eq!(found, vec!["a", "a/.hidden", "a/sub", "a/sub/deep", "a/x.txt", "link"]);
}

#[test]
fn walk_does_not_descend_into_other_entries() {
    let mut w = TreeWalk::new();
    let root = w.next_directory().unwrap();
    assert!(root.components.is_empty());
    w.add_listing(&root, &vec![entry("l", EntryKind::Other), entry("d", EntryKind::Directory)]);
    let next = w.next_directory().unwrap();
    assert_eq!(text(&next), "d");
    assert!(w.is_done());
    assert!(w.next_directory().is_none());
    let found: Vec<String> = w.files_in_tree().iter().map(text).collect();
    assert_eq!(found, vec!["l", "d"]);
}

#[test]
fn scenario_one_sided_files() {
    let a: Tree = vec![
        ("a", EntryKind::Directory, ""),
        ("a/x.txt", EntryKind::RegularFile, "hi"),
        ("a/y.txt", EntryKind::RegularFile, "y"),
    ];
    let b: Tree = vec![
        ("a", EntryKind::Directory, ""),
        ("a/x.txt", EntryKind::RegularFile, "hi"),
        ("a/z.txt", EntryKind::RegularFile, "z"),
    ];
    assert_eq!(
        compare_trees(&a, &b),
        vec![
            ("a".to_string(), FileCmp::Match),
            ("a/x.txt".to_string(), FileCmp::Match),
            ("a/y.txt".to_string(), FileCmp::OnlyFirstFileExists),
            ("a/z.txt".to_string(), FileCmp::OnlySecondFileExists),
        ]
    );
}

#[test]
fn scenario_directory_against_file() {
    let a: Tree = vec![("b", EntryKind::Directory, "")];
    let b: Tree = vec![("b", EntryKind::RegularFile, "data")];
    assert_eq!(compare_trees(&a, &b), vec![("b".to_string(), FileCmp::TypeMismatch)]);
}

#[test]
fn scenario_disjoint_subtrees_never_neither() {
    let a: Tree = vec![("p", EntryKind::Directory, ""), ("p/q", EntryKind::RegularFile, "1")];
    let b: Tree = vec![("r", EntryKind::Directory, ""), ("r/s", EntryKind::Other, "")];
    let out = compare_trees(&a, &b);
    assert_eq!(out.len(), 4);
    assert!(out.iter().all(|(_, c)| *c != FileCmp::NeitherFileExists));
    assert_eq!(out[0], ("p".to_string(), FileCmp::OnlyFirstFileExists));
    assert_eq!(out[3], ("r/s".to_string(), FileCmp::OnlySecondFileExists));
}

#[test]
fn identical_trees_all_match() {
    let a: Tree = vec![
        ("d", EntryKind::Directory, ""),
        ("d/f", EntryKind::RegularFile, "same bytes"),
        ("d/l", EntryKind::Other, ""),
        ("g", EntryKind::RegularFile, ""),
    ];
    let out = compare_trees(&a, &a.clone());
    assert_eq!(out.len(), 4);
    assert!(out.iter().all(|(_, c)| *c == FileCmp::Match));
}

#[test]
fn content_mismatch_in_tree() {
    let a: Tree = vec![("f", EntryKind::RegularFile, "hi")];
    let b: Tree = vec![("f", EntryKind::RegularFile, "ho")];
    assert_eq!(compare_trees(&a, &b), vec![("f".to_string(), FileCmp::ContentMismatch)]);
}

#[test]
fn skipped_paths_leave_no_record() {
    let mut run = TreeComparison::new(vec![rp("a"), rp("b")], vec![]);
    run.skip();
    let p = run.next_path().unwrap();
    assert_eq!(text(&p), "b");
    run.record(Some(EntryKind::Other), None, None);
    assert!(run.next_path().is_none());
    let recs = run.into_records();
    assert_eq!(recs.len(), 1);
    assert_eq!(text(&recs[0].relative), "b");
    assert_eq!(recs[0].partial_cmp.file_cmp, FileCmp::OnlyFirstFileExists);
}

#[test]
fn totals_count_matches() {
    let mut run = TreeComparison::new(vec![rp("d"), rp("e"), rp("f"), rp("g")], vec![rp("d"), rp("e"), rp("f")]);
    run.record(Some(EntryKind::Directory), Some(EntryKind::Directory), None);
    run.record(Some(EntryKind::Directory), Some(EntryKind::RegularFile), None);
    run.record(Some(EntryKind::RegularFile), Some(EntryKind::RegularFile), Some(RegFileCmp::Identical));
    run.record(Some(EntryKind::RegularFile), None, None);
    let t = tally(&run.into_records());
    assert_eq!(t.dir_matches, 1);
    assert_eq!(t.dir_total, 2);
    assert_eq!(t.file_matches, 1);
    assert_eq!(t.file_total, 3);
}
