use code_collector::cli::Cli;
use code_collector::collector::directory_processor::{decide, process_directory, WalkDecision};
use code_collector::collector::file_processor::{process_file, settle, Step};
use code_collector::collector::Collector;
use code_collector::formats::handler::FormatError;
use code_collector::config::Config;
use code_collector::path::FsPath;
use code_collector::snapshot::{EntryKind, TreeNode};

fn p(s: &str) -> FsPath {
    FsPath::parse(s)
}

fn file(name: &str) -> TreeNode {
    TreeNode { name: name.to_string(), kind: EntryKind::File, ignore_file: None, children: vec![] }
}

fn other(name: &str) -> TreeNode {
    TreeNode { name: name.to_string(), kind: EntryKind::Other, ignore_file: None, children: vec![] }
}

fn dir(name: &str, marker: Option<&str>, children: Vec<TreeNode>) -> TreeNode {
    TreeNode {
        name: name.to_string(),
        kind: EntryKind::Directory,
        ignore_file: marker.map(|m| m.to_string()),
        children,
    }
}

fn strings(list: &[&str]) -> Vec<String> {
    list.iter().map(|s| s.to_string()).collect()
}

fn config(paths: &[&str], formats: &[&str], rules: &[&str]) -> Config {
    Config {
        paths: paths.iter().map(|s| p(s)).collect(),
        formats: strings(formats),
        ignore_paths: rules.iter().map(|s| p(s)).collect(),
        ignore_files: vec![],
        output_file: p("collected_code.txt"),
    }
}

fn listed(files: &[FsPath]) -> Vec<String> {
    files.iter().map(|f| f.to_string()).collect()
}

fn walked(files: &[FsPath]) -> Vec<String> {
    files.iter().map(|f| f.to_string()).collect()
}

#[test]
fn decision_for_each_kind_of_entry() {
    let rules = [p("/proj/gen")];
    let rs = strings(&["rs"]);
    assert_eq!(decide(&p("/proj/gen"), EntryKind::Directory, &rs, &rules), WalkDecision::Prune);
    assert_eq!(decide(&p("/proj/.git"), EntryKind::Directory, &rs, &rules), WalkDecision::Prune);
    assert_eq!(decide(&p("/proj/src"), EntryKind::Directory, &rs, &rules), WalkDecision::Skip);
    assert_eq!(decide(&p("/proj/a.rs"), EntryKind::File, &rs, &rules), WalkDecision::Visit);
    assert_eq!(decide(&p("/proj/a.txt"), EntryKind::File, &rs, &rules), WalkDecision::Skip);
    assert_eq!(decide(&p("/proj/gen/a.rs"), EntryKind::File, &rs, &rules), WalkDecision::Skip);
    assert_eq!(decide(&p("/proj/.a.rs"), EntryKind::File, &rs, &rules), WalkDecision::Skip);
    assert_eq!(decide(&p("/proj/a.rs"), EntryKind::Other, &rs, &rules), WalkDecision::Skip);
    assert_eq!(decide(&p("/proj/gen"), EntryKind::Other, &rs, &rules), WalkDecision::Skip);
}

#[test]
fn walk_hands_on_included_files_in_order() {
    let tree = dir(
        "proj",
        None,
        vec![
            file("b.rs"),
            dir("src", None, vec![file("lib.rs"), dir("bin", None, vec![file("main.rs")]), file("x.txt")]),
            file("a.rs"),
            other("sock.rs"),
            file(".hidden.rs"),
        ],
    );
    let c = config(&["/proj"], &["rs"], &[]);
    let files = process_directory(&p("/proj"), &tree, &c);
    assert_eq!(
        walked(&files),
        vec!["/proj/b.rs", "/proj/src/lib.rs", "/proj/src/bin/main.rs", "/proj/a.rs"]
    );
}

#[test]
fn walk_prunes_ignored_directories() {
    let tree = dir(
        "proj",
        None,
        vec![
            dir("gen", None, vec![file("g.rs"), dir("deep", None, vec![file("d.rs")])]),
            dir(".git", None, vec![file("config.rs")]),
            dir("src", None, vec![file("lib.rs"), file("skip.rs")]),
        ],
    );
    let c = config(&["/proj"], &[], &["/proj/gen", "/proj/src/skip.rs"]);
    assert_eq!(walked(&process_directory(&p("/proj"), &tree, &c)), vec!["/proj/src/lib.rs"]);
}

#[test]
fn walk_from_an_ignored_root_hands_on_nothing() {
    let tree = dir("proj", None, vec![file("a.rs")]);
    let c = config(&["/proj"], &[], &["/proj"]);
    assert!(process_directory(&p("/proj"), &tree, &c).is_empty());
    let c = config(&["/x/.proj"], &[], &[]);
    assert!(process_directory(&p("/x/.proj"), &tree, &c).is_empty());
}

#[test]
fn walk_from_a_file_hands_on_that_file() {
    let c = config(&["/proj/a.rs"], &["rs"], &[]);
    assert_eq!(walked(&process_directory(&p("/proj/a.rs"), &file("a.rs"), &c)), vec!["/proj/a.rs"]);
    assert!(process_directory(&p("/proj/a.txt"), &file("a.txt"), &c).is_empty());
    assert!(process_directory(&p("/proj/a.rs"), &other("a.rs"), &c).is_empty());
}

#[test]
fn walk_does_not_depend_on_what_lies_beneath_ignored_directories() {
    let full = dir(
        "proj",
        None,
        vec![dir("gen", None, vec![file("g.rs")]), file("a.rs"), dir(".x", None, vec![file("y.rs")])],
    );
    let bare = dir("proj", None, vec![dir("gen", None, vec![]), file("a.rs"), dir(".x", None, vec![])]);
    let c = config(&["/proj"], &[], &["/proj/gen"]);
    assert_eq!(
        walked(&process_directory(&p("/proj"), &full, &c)),
        walked(&process_directory(&p("/proj"), &bare, &c))
    );
}

#[test]
fn new_collector_holds_a_copy_of_the_settings() {
    let mut c = config(&["/proj", "rel/x"], &["rs", "md"], &["/proj/gen"]);
    c.ignore_files = vec![vec![p("/a"), p("/b")], vec![]];
    let collector = Collector::new(&c);
    assert_eq!(collector.config.paths, c.paths);
    assert_eq!(collector.config.formats, c.formats);
    assert_eq!(collector.config.ignore_paths, c.ignore_paths);
    assert_eq!(collector.config.ignore_files, c.ignore_files);
    assert_eq!(collector.config.output_file, c.output_file);
}

#[test]
fn structure_of_a_run_without_roots() {
    let collector = Collector::new(&config(&[], &[], &[]));
    let mut out = String::new();
    collector.write_project_structure(&vec![], &mut out);
    assert_eq!(out, "Project Structure:\n\nCode Files:\n");
}

#[test]
fn structure_lists_each_directory_root_under_its_name() {
    let roots = vec![
        dir("one", None, vec![file("a.rs"), dir("d", None, vec![])]),
        file("single.rs"),
        dir("two", None, vec![file("b.rs")]),
    ];
    let collector = Collector::new(&config(&["/w/one", "/w/single.rs", "/w/two"], &[], &[]));
    let mut out = String::new();
    collector.write_project_structure(&roots, &mut out);
    let expected = "\
Project Structure:
one/
├── a.rs
└── d/
two/
└── b.rs

Code Files:
";
    assert_eq!(out, expected);
}

#[test]
fn structure_skips_ignored_roots_and_roots_without_snapshot() {
    let roots = vec![dir("gen", None, vec![file("a.rs")]), dir(".cfg", None, vec![file("b")])];
    let collector =
        Collector::new(&config(&["/w/gen", "/w/.cfg", "/w/late"], &[], &["/w/gen"]));
    let mut out = String::new();
    collector.write_project_structure(&roots, &mut out);
    assert_eq!(out, "Project Structure:\n\nCode Files:\n");
}

#[test]
fn root_without_a_name_is_listed_as_a_slash() {
    let roots = vec![dir("", None, vec![file("a")])];
    let collector = Collector::new(&config(&["/"], &[], &[]));
    let mut out = String::new();
    collector.write_project_structure(&roots, &mut out);
    assert_eq!(out, "Project Structure:\n/\n└── a\n\nCode Files:\n");
}

#[test]
fn marker_hides_the_named_directory_from_tree_and_files() {
    let roots = vec![dir(
        "d",
        Some("sub"),
        vec![
            file("a.rs"),
            dir("sub", None, vec![file("b.rs"), dir("deep", None, vec![file("c.rs")])]),
            dir("other", None, vec![file("e.rs")]),
        ],
    )];
    let mut collector = Collector::new(&config(&["/w/d"], &[], &[]));
    let mut out = String::new();
    let files = collector.collect(&roots, &mut out);
    let expected = "\
Project Structure:
d/
├── a.rs
└── other/
    └── e.rs

Code Files:
";
    assert_eq!(out, expected);
    assert_eq!(listed(&files), vec!["/w/d/a.rs", "/w/d/other/e.rs"]);
    assert_eq!(collector.config.ignore_paths, vec![p("/w/d/sub")]);
    assert!(!out.contains("sub"));
    assert!(files.iter().all(|f| !f.starts_with(&p("/w/d/sub"))));
}

#[test]
fn rules_of_all_roots_are_read_before_anything_is_listed() {
    let roots = vec![
        dir("one", None, vec![file("a.rs"), file("b.rs")]),
        dir("two", Some("/w/one/a.rs"), vec![file("c.rs")]),
    ];
    let mut collector = Collector::new(&config(&["/w/one", "/w/two"], &[], &[]));
    let mut out = String::new();
    let files = collector.collect(&roots, &mut out);
    assert_eq!(out, "Project Structure:\none/\n└── b.rs\ntwo/\n└── c.rs\n\nCode Files:\n");
    assert_eq!(listed(&files), vec!["/w/one/b.rs", "/w/two/c.rs"]);
}

#[test]
fn file_roots_follow_the_filter_and_the_rules() {
    let roots = vec![file("a.rs"), file("b.txt"), file(".c.rs"), file("d.rs"), other("e.rs")];
    let mut collector = Collector::new(&config(
        &["/w/a.rs", "/w/b.txt", "/w/.c.rs", "/w/d.rs", "/w/e.rs"],
        &["rs"],
        &["/w/d.rs"],
    ));
    let mut out = String::new();
    let files = collector.collect(&roots, &mut out);
    assert_eq!(out, "Project Structure:\n\nCode Files:\n");
    assert_eq!(listed(&files), vec!["/w/a.rs"]);
}

#[test]
fn collect_appends_to_what_was_written() {
    let mut collector = Collector::new(&config(&[], &[], &[]));
    let mut out = String::from("# head\n");
    let files = collector.collect(&vec![], &mut out);
    assert_eq!(out, "# head\nProject Structure:\n\nCode Files:\n");
    assert!(files.is_empty());
}

#[test]
fn collecting_twice_from_the_same_settings_gives_the_same() {
    let build = || {
        vec![
            dir(
                "d",
                Some("# rules\nsub\n"),
                vec![file("a.rs"), dir("sub", None, vec![file("b.rs")]), file("c.bin")],
            ),
            file("top.rs"),
        ]
    };
    let settings = config(&["/w/d", "/w/top.rs"], &["rs", "bin"], &[]);
    let mut first = Collector::new(&settings);
    let mut second = Collector::new(&settings);
    let mut out1 = String::new();
    let mut out2 = String::new();
    let f1 = first.collect(&build(), &mut out1);
    let f2 = second.collect(&build(), &mut out2);
    assert_eq!(out1, out2);
    assert_eq!(listed(&f1), listed(&f2));
    assert_eq!(first.config.ignore_paths, second.config.ignore_paths);
    assert_eq!(listed(&f1), vec!["/w/d/a.rs", "/w/d/c.bin", "/w/top.rs"]);
}

#[test]
fn collect_does_not_depend_on_what_lies_beneath_ignored_directories() {
    let full = vec![dir(
        "d",
        None,
        vec![
            dir("gen", Some("x"), vec![file("g.rs"), dir("h", Some("y"), vec![])]),
            dir(".git", Some("z"), vec![file("HEAD")]),
            file("a.rs"),
        ],
    )];
    let bare = vec![dir(
        "d",
        None,
        vec![dir("gen", None, vec![]), dir(".git", None, vec![]), file("a.rs")],
    )];
    let settings = config(&["/w/d"], &[], &["/w/d/gen"]);
    let mut c1 = Collector::new(&settings);
    let mut c2 = Collector::new(&settings);
    let mut out1 = String::new();
    let mut out2 = String::new();
    let f1 = c1.collect(&full, &mut out1);
    let f2 = c2.collect(&bare, &mut out2);
    assert_eq!(out1, out2);
    assert_eq!(listed(&f1), listed(&f2));
    assert_eq!(c1.config.ignore_paths, c2.config.ignore_paths);
    assert_eq!(c1.config.ignore_paths, vec![p("/w/d/gen")]);
}

#[test]
fn settings_start_from_the_command_line() {
    let cli = Cli {
        paths: vec![p("src"), p("/abs")],
        formats: strings(&[".rs", "md"]),
        ignore_paths: vec![p("target")],
        output: p("out.txt"),
    };
    let c = Config::initialize(&cli, None, None);
    assert_eq!(c.paths, vec![p("src"), p("/abs")]);
    assert_eq!(c.formats, strings(&["rs", "md"]));
    assert_eq!(c.ignore_paths, vec![p("target")]);
    assert!(c.ignore_files.is_empty());
    assert_eq!(c.output_file, p("out.txt"));
}

#[test]
fn settings_files_follow_the_command_line_in_order() {
    let cli = Cli {
        paths: vec![p("a")],
        formats: strings(&["rs"]),
        ignore_paths: vec![p("ia")],
        output: p("out.txt"),
    };
    let mut system = config(&["b"], &[".txt"], &["ib"]);
    system.output_file = p("system.txt");
    system.ignore_files = vec![vec![p("x")]];
    let preset = config(&["c", "d"], &["..md"], &[]);
    let c = Config::initialize(&cli, Some(system), Some(preset));
    assert_eq!(c.paths, vec![p("a"), p("b"), p("c"), p("d")]);
    assert_eq!(c.formats, strings(&["rs", "txt", "md"]));
    assert_eq!(c.ignore_paths, vec![p("ia"), p("ib")]);
    assert!(c.ignore_files.is_empty());
    assert_eq!(c.output_file, p("out.txt"));
}

#[test]
fn merge_adds_lists_and_keeps_the_rest() {
    let mut base = config(&["a"], &["rs"], &["ia"]);
    base.ignore_files = vec![vec![p("k")]];
    let mut more = config(&["b"], &[".txt"], &["ib", "ic"]);
    more.output_file = p("elsewhere");
    more.ignore_files = vec![vec![p("z")]];
    base.merge(more);
    assert_eq!(base.paths, vec![p("a"), p("b")]);
    assert_eq!(base.formats, strings(&["rs", ".txt"]));
    assert_eq!(base.ignore_paths, vec![p("ia"), p("ib"), p("ic")]);
    assert_eq!(base.ignore_files, vec![vec![p("k")]]);
    assert_eq!(base.output_file, p("collected_code.txt"));
}

#[test]
fn clone_of_settings_is_equal() {
    let mut c = config(&["a", "/b"], &["rs"], &["/c"]);
    c.ignore_files = vec![vec![p("x"), p("y")]];
    let d = c.clone();
    assert_eq!(d.paths, c.paths);
    assert_eq!(d.formats, c.formats);
    assert_eq!(d.ignore_paths, c.ignore_paths);
    assert_eq!(d.ignore_files, c.ignore_files);
    assert_eq!(d.output_file, c.output_file);
}

#[test]
fn file_without_content_is_reported_and_never_stops_the_run() {
    assert_eq!(settle(Ok(())), Step::Proceed);
    for e in [FormatError::NoExtension, FormatError::Unreadable, FormatError::InvalidUtf8] {
        assert_eq!(settle(Err(e)), Step::Report(e));
    }
}

#[test]
fn root_file_that_fails_to_decode_does_not_keep_the_directory_after_it_out() {
    let roots = vec![file("f.txt"), dir("d", None, vec![file("a.rs"), file("b.rs")])];
    let mut collector = Collector::new(&config(&["/w/f.txt", "/w/d"], &[], &[]));
    let mut out = String::new();
    let files = collector.collect(&roots, &mut out);
    assert_eq!(listed(&files), vec!["/w/f.txt", "/w/d/a.rs", "/w/d/b.rs"]);

    let contents: Vec<Option<Vec<u8>>> =
        vec![Some(vec![0xff, 0xfe]), Some(b"fn a() {}".to_vec()), None];
    let mut reported = Vec::new();
    for (path, data) in files.iter().zip(contents) {
        match settle(process_file(path, data, &mut out)) {
            Step::Proceed => {}
            Step::Report(e) => reported.push((path.to_string(), e)),
        }
    }
    let expected = "\
Project Structure:
d/
├── a.rs
└── b.rs

Code Files:

================
Filepath: /w/f.txt
################

================
Filepath: /w/d/a.rs
################
fn a() {}

================
Filepath: /w/d/b.rs
################
";
    assert_eq!(out, expected);
    assert_eq!(
        reported,
        vec![
            ("/w/f.txt".to_string(), FormatError::InvalidUtf8),
            ("/w/d/b.rs".to_string(), FormatError::Unreadable)
        ]
    );
}
