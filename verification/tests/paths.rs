use code_collector::path::FsPath;

fn p(s: &str) -> FsPath {
    FsPath::parse(s)
}

#[test]
fn parse_drops_empty_and_dot_segments() {
    assert_eq!(p("/a//b/./c/"), p("/a/b/c"));
    assert_eq!(p("/a//b/./c/").to_string(), "/a/b/c");
    assert_eq!(p("./a"), p("a"));
    assert_eq!(p("a/./b").to_string(), "a/b");
}

#[test]
fn parse_keeps_parent_segments() {
    assert_eq!(p("/a/../b").to_string(), "/a/../b");
    assert_ne!(p("/a/../b"), p("/b"));
}

#[test]
fn absolute_and_relative_paths_differ() {
    assert_ne!(p("/a/b"), p("a/b"));
    assert!(p("/a/b").is_absolute());
    assert!(!p("a/b").is_absolute());
    assert!(!p("").is_absolute());
}

#[test]
fn text_of_paths_without_segments() {
    assert_eq!(p("/").to_string(), "/");
    assert_eq!(p("").to_string(), ".");
    assert_eq!(p(".").to_string(), ".");
    assert_eq!(p("///").to_string(), "/");
}

#[test]
fn text_round_trip() {
    for s in ["/", ".", "/a", "a", "/a/b/c.rs", "a/..", "/x y/é/z"] {
        assert_eq!(p(s).to_string(), s);
        assert_eq!(p(&p(s).to_string()), p(s));
    }
}

#[test]
fn join_appends_relative_text() {
    assert_eq!(p("/d").join("sub"), p("/d/sub"));
    assert_eq!(p("/d").join("sub/"), p("/d/sub"));
    assert_eq!(p("/d").join("./sub//x"), p("/d/sub/x"));
    assert_eq!(p("/d").join(""), p("/d"));
    assert_eq!(p("d").join("e"), p("d/e"));
    assert_eq!(p("/d").join("../e").to_string(), "/d/../e");
}

#[test]
fn join_with_absolute_text_replaces() {
    assert_eq!(p("/d/e").join("/x/y"), p("/x/y"));
    assert_eq!(p("d").join("/x"), p("/x"));
    assert!(p("d").join("/x").is_absolute());
}

#[test]
fn starts_with_goes_by_segments() {
    assert!(p("/a/b/c").starts_with(&p("/a/b")));
    assert!(p("/a/b").starts_with(&p("/a/b")));
    assert!(p("/a/b").starts_with(&p("/")));
    assert!(!p("/a/bc").starts_with(&p("/a/b")));
    assert!(!p("/a").starts_with(&p("/a/b")));
    assert!(!p("/a/b").starts_with(&p("a")));
    assert!(!p("a/b").starts_with(&p("/a")));
    assert!(p("a/b").starts_with(&p("a")));
    assert!(!p("/a/B").starts_with(&p("/a/b")));
}

#[test]
fn file_name_is_the_last_segment() {
    assert_eq!(p("/a/b.txt").file_name(), Some("b.txt"));
    assert_eq!(p("b").file_name(), Some("b"));
    assert_eq!(p("/a/b/").file_name(), Some("b"));
    assert_eq!(p("/").file_name(), None);
    assert_eq!(p("").file_name(), None);
    assert_eq!(p("/a/..").file_name(), None);
    assert_eq!(p("/a/...").file_name(), Some("..."));
}

#[test]
fn extension_follows_the_last_dot() {
    assert_eq!(p("/a/b.txt").extension(), Some("txt".to_string()));
    assert_eq!(p("/a/b.tar.gz").extension(), Some("gz".to_string()));
    assert_eq!(p("/a/b").extension(), None);
    assert_eq!(p("/a/.bashrc").extension(), None);
    assert_eq!(p("/a/.config.toml").extension(), Some("toml".to_string()));
    assert_eq!(p("/a/b.").extension(), Some(String::new()));
    assert_eq!(p("/a.d/b").extension(), None);
    assert_eq!(p("/a/..").extension(), None);
    assert_eq!(p("/").extension(), None);
    assert_eq!(p("/a/b.RS").extension(), Some("RS".to_string()));
}

#[test]
fn hidden_names_begin_with_a_dot() {
    assert!(p("/a/.git").is_hidden());
    assert!(p(".hidden").is_hidden());
    assert!(p("/a/...").is_hidden());
    assert!(!p("/a/b").is_hidden());
    assert!(!p("/.a/b").is_hidden());
    assert!(!p("/a/..").is_hidden());
    assert!(!p("/").is_hidden());
}

#[test]
fn clone_gives_the_same_path() {
    let a = p("/a/b/c.rs");
    assert_eq!(a.clone(), a);
    assert_eq!(p("x/y").clone().to_string(), "x/y");
}
