use code_collector::collector::file_processor::process_file;
use code_collector::formats::handler::{
    FormatError, FormatHandler, FormatHandlerTrait, FormatKind,
};
use code_collector::path::FsPath;
use code_collector::utils::canonicalize_formats;

fn p(s: &str) -> FsPath {
    FsPath::parse(s)
}

#[test]
fn handler_is_chosen_by_extension() {
    assert_eq!(FormatHandler::from_path(&p("/a/b.bin")), Ok(FormatHandler { kind: FormatKind::Binary }));
    assert_eq!(FormatHandler::from_path(&p("/a/b.rs")), Ok(FormatHandler { kind: FormatKind::Text }));
    assert_eq!(FormatHandler::from_path(&p("/a/b.BIN")), Ok(FormatHandler { kind: FormatKind::Text }));
    assert_eq!(FormatHandler::from_path(&p("/a/b.bin2")), Ok(FormatHandler { kind: FormatKind::Text }));
    assert_eq!(FormatHandler::from_path(&p("/a/b.")), Ok(FormatHandler { kind: FormatKind::Text }));
    assert_eq!(FormatHandler::from_path(&p("/a/x.tar.bin")), Ok(FormatHandler { kind: FormatKind::Binary }));
}

#[test]
fn path_without_extension_has_no_handler() {
    assert_eq!(FormatHandler::from_path(&p("/a/Makefile")), Err(FormatError::NoExtension));
    assert_eq!(FormatHandler::from_path(&p("/a/.bin")), Err(FormatError::NoExtension));
    assert_eq!(FormatHandler::from_path(&p("/")), Err(FormatError::NoExtension));
    assert_eq!(FormatHandler::from_path(&p("/a/..")), Err(FormatError::NoExtension));
}

#[test]
fn binary_content_is_lower_case_hex() {
    let h = FormatHandler { kind: FormatKind::Binary };
    assert_eq!(h.read_content(vec![1, 2, 3, 15, 16]), Ok("0102030f10".to_string()));
    assert_eq!(h.read_content(vec![0x00, 0xff, 0xa5, 0x5a]), Ok("00ffa55a".to_string()));
    assert_eq!(h.read_content(b"Hello world!".to_vec()), Ok("48656c6c6f20776f726c6421".to_string()));
    assert_eq!(h.read_content(vec![]), Ok(String::new()));
    assert_eq!(h.read_content(vec![0xff, 0xfe]), Ok("fffe".to_string()));
}

#[test]
fn text_content_is_taken_as_it_is() {
    let h = FormatHandler { kind: FormatKind::Text };
    assert_eq!(h.read_content(b"fn main() {}\n".to_vec()), Ok("fn main() {}\n".to_string()));
    assert_eq!(h.read_content("héllo ∀".as_bytes().to_vec()), Ok("héllo ∀".to_string()));
    assert_eq!(h.read_content(vec![]), Ok(String::new()));
}

#[test]
fn text_that_is_not_utf8_fails() {
    let h = FormatHandler { kind: FormatKind::Text };
    assert_eq!(h.read_content(vec![0xff, 0xfe]), Err(FormatError::InvalidUtf8));
    assert_eq!(h.read_content(vec![b'a', 0xc3]), Err(FormatError::InvalidUtf8));
    assert_eq!(h.read_content(vec![0xed, 0xa0, 0x80]), Err(FormatError::InvalidUtf8));
}

#[test]
fn section_of_a_text_file() {
    let mut out = String::from("before");
    let r = process_file(&p("/proj/src/a.rs"), Some(b"fn a() {}".to_vec()), &mut out);
    assert_eq!(r, Ok(()));
    assert_eq!(
        out,
        "before\n================\nFilepath: /proj/src/a.rs\n################\nfn a() {}\n"
    );
}

#[test]
fn section_of_a_binary_file() {
    let mut out = String::new();
    let r = process_file(&p("/proj/data.bin"), Some(vec![0xde, 0xad, 0xbe, 0xef]), &mut out);
    assert_eq!(r, Ok(()));
    assert_eq!(out, "\n================\nFilepath: /proj/data.bin\n################\ndeadbeef\n");
}

#[test]
fn section_of_a_file_without_extension_is_its_header() {
    let mut out = String::new();
    let r = process_file(&p("/proj/Makefile"), Some(b"all:".to_vec()), &mut out);
    assert_eq!(r, Err(FormatError::NoExtension));
    assert_eq!(out, "\n================\nFilepath: /proj/Makefile\n################\n");
}

#[test]
fn section_of_an_unreadable_file_is_its_header() {
    let mut out = String::new();
    let r = process_file(&p("/proj/a.rs"), None, &mut out);
    assert_eq!(r, Err(FormatError::Unreadable));
    assert_eq!(out, "\n================\nFilepath: /proj/a.rs\n################\n");
}

#[test]
fn missing_extension_is_reported_before_a_failed_read() {
    let mut out = String::new();
    assert_eq!(process_file(&p("/proj/LICENSE"), None, &mut out), Err(FormatError::NoExtension));
}

#[test]
fn section_of_a_text_file_that_is_not_utf8_is_its_header() {
    let mut out = String::new();
    let r = process_file(&p("/proj/a.txt"), Some(vec![0x80]), &mut out);
    assert_eq!(r, Err(FormatError::InvalidUtf8));
    assert_eq!(out, "\n================\nFilepath: /proj/a.txt\n################\n");
}

#[test]
fn same_file_gives_the_same_section() {
    let mut first = String::new();
    let mut second = String::new();
    let a = process_file(&p("/proj/a.rs"), Some(b"x".to_vec()), &mut first);
    let b = process_file(&p("/proj/a.rs"), Some(b"x".to_vec()), &mut second);
    assert_eq!(a, b);
    assert_eq!(first, second);
}

#[test]
fn formats_lose_their_leading_dots() {
    let given: Vec<String> = [".rs", "..txt", "md", "", ".", "a.b", ".tar.gz"]
        .iter()
        .map(|s| s.to_string())
        .collect();
    assert_eq!(canonicalize_formats(&given), vec!["rs", "txt", "md", "", "", "a.b", "tar.gz"]);
    assert!(canonicalize_formats(&[]).is_empty());
}
