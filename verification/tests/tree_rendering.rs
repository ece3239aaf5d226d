use code_collector::collector::path_handler::generate_tree;
use code_collector::path::FsPath;
use code_collector::snapshot::{EntryKind, TreeNode};

fn p(s: &str) -> FsPath {
    FsPath::parse(s)
}

fn file(name: &str) -> TreeNode {
    TreeNode { name: name.to_string(), kind: EntryKind::File, ignore_file: None, children: vec![] }
}

fn dir(name: &str, children: Vec<TreeNode>) -> TreeNode {
    TreeNode { name: name.to_string(), kind: EntryKind::Directory, ignore_file: None, children }
}

fn other(name: &str) -> TreeNode {
    TreeNode { name: name.to_string(), kind: EntryKind::Other, ignore_file: None, children: vec![] }
}

fn formats(list: &[&str]) -> Vec<String> {
    list.iter().map(|s| s.to_string()).collect()
}

fn render(root: &str, entries: Vec<TreeNode>, rules: &[FsPath], filter: &[String]) -> String {
    let mut out = String::new();
    generate_tree(&p(root), &entries, "", rules, filter, &mut out);
    out
}

#[test]
fn hidden_entry_gives_no_line_and_last_visible_closes() {
    let entries = vec![file("a.txt"), dir("b", vec![]), file(".hidden"), file("c.rs")];
    let out = render("/proj", entries, &[], &[]);
    assert_eq!(out, "├── a.txt\n├── b/\n└── c.rs\n");
    assert_eq!(out.lines().count(), 3);
    assert!(!out.contains(".hidden"));
}

#[test]
fn trailing_ignored_entries_do_not_take_the_closing_mark() {
    let entries = vec![file("a.txt"), file("b.txt"), file(".env"), dir("target", vec![file("x")])];
    let out = render("/proj", entries, &[p("/proj/target")], &[]);
    assert_eq!(out, "├── a.txt\n└── b.txt\n");
}

#[test]
fn trailing_files_that_fail_the_filter_do_not_take_the_closing_mark() {
    let entries = vec![file("a.rs"), file("b.rs"), file("c.txt"), file("d.md")];
    let out = render("/proj", entries, &[], &formats(&["rs"]));
    assert_eq!(out, "├── a.rs\n└── b.rs\n");
}

#[test]
fn empty_directory_prints_its_own_line_only() {
    let out = render("/proj", vec![dir("empty", vec![])], &[], &[]);
    assert_eq!(out, "└── empty/\n");
}

#[test]
fn directory_without_matching_files_is_still_listed() {
    let entries = vec![dir("docs", vec![file("a.md")]), file("main.rs")];
    let out = render("/proj", entries, &[], &formats(&["rs"]));
    assert_eq!(out, "├── docs/\n└── main.rs\n");
}

#[test]
fn empty_listing_writes_nothing() {
    assert_eq!(render("/proj", vec![], &[], &[]), "");
    assert_eq!(render("/proj", vec![file(".a"), file(".b")], &[], &[]), "");
}

#[test]
fn prefix_grows_with_a_bar_under_inner_and_blanks_under_last() {
    let entries = vec![
        dir("src", vec![file("lib.rs"), dir("bin", vec![file("main.rs")])]),
        dir("tests", vec![file("t.rs")]),
    ];
    let out = render("/proj", entries, &[], &[]);
    let expected = "\
├── src/
│   ├── lib.rs
│   └── bin/
│       └── main.rs
└── tests/
    └── t.rs
";
    assert_eq!(out, expected);
}

#[test]
fn given_prefix_starts_every_line() {
    let mut out = String::from("head\n");
    let entries = vec![dir("d", vec![file("f")]), file("g")];
    generate_tree(&p("/proj"), &entries, "> ", &[], &[], &mut out);
    assert_eq!(out, "head\n> ├── d/\n> │   └── f\n> └── g\n");
}

#[test]
fn ignored_directory_hides_its_subtree() {
    let entries = vec![
        dir("keep", vec![file("a.rs")]),
        dir("skip", vec![file("b.rs"), dir("deep", vec![file("c.rs")])]),
    ];
    let out = render("/proj", entries, &[p("/proj/skip")], &[]);
    assert_eq!(out, "└── keep/\n    └── a.rs\n");
}

#[test]
fn rule_for_a_nested_file_hides_that_file_only() {
    let entries = vec![dir("src", vec![file("a.rs"), file("b.rs")])];
    let out = render("/proj", entries, &[p("/proj/src/b.rs")], &[]);
    assert_eq!(out, "└── src/\n    └── a.rs\n");
}

#[test]
fn what_lies_beneath_an_ignored_directory_changes_nothing() {
    let small = vec![file("a"), dir("skip", vec![]), dir(".git", vec![])];
    let large = vec![
        file("a"),
        dir("skip", vec![file("x"), dir("y", vec![file("z")])]),
        dir(".git", vec![file("HEAD")]),
    ];
    let rules = [p("/proj/skip")];
    assert_eq!(render("/proj", small, &rules, &[]), render("/proj", large, &rules, &[]));
}

#[test]
fn entry_that_is_neither_file_nor_directory_is_listed_like_a_file() {
    let entries = vec![other("sock"), other("link.rs")];
    assert_eq!(render("/proj", entries, &[], &[]), "├── sock\n└── link.rs\n");
    let entries = vec![other("sock"), other("link.rs")];
    assert_eq!(render("/proj", entries, &[], &formats(&["rs"])), "└── link.rs\n");
}

#[test]
fn rendering_twice_gives_the_same_text() {
    let build = || vec![dir("src", vec![file("lib.rs"), file(".x")]), file("README.md")];
    let first = render("/proj", build(), &[], &formats(&["rs", "md"]));
    let second = render("/proj", build(), &[], &formats(&["rs", "md"]));
    assert_eq!(first, second);
    assert_eq!(first, "├── src/\n│   └── lib.rs\n└── README.md\n");
}
