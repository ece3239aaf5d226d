//! The two ways to read a file's content: as text, or as hexadecimal digits.
//!
//! The way is chosen by the file's extension alone: `bin` is binary,
//! every other extension is text, and a file without an extension has no
//! way.

use vstd::prelude::*;
use vstd::utf8::{decode_utf8, valid_utf8};
use crate::path::{FsPath, PathView};
use crate::text::chars_of;

verus! {

/// Why a file's content could not be had.
#[derive(Debug, Clone, Copy, PartialEq, Eq, Structural)]
pub enum FormatError {
    /// The file name has no extension, so no way to read it is known.
    NoExtension,
    /// The file could not be read.
    Unreadable,
    /// The file was to be read as text and is not UTF-8.
    InvalidUtf8,
}

/// A way to read content.
#[derive(Debug, Clone, Copy, PartialEq, Eq, Structural)]
pub enum FormatKind {
    /// The bytes are UTF-8 text and are taken as they are.
    Text,
    /// The bytes are written out as hexadecimal digits.
    Binary,
}

/// The digit for a value below sixteen, in lower case.
pub open spec fn hex_digit(n: int) -> char {
    seq!['0', '1', '2', '3', '4', '5', '6', '7', '8', '9', 'a', 'b', 'c', 'd', 'e', 'f'][n]
}

/// Two digits for each byte, the high half first.
pub open spec fn hex_text(bytes: Seq<u8>) -> Seq<char> {
    Seq::new(
        2 * bytes.len(),
        |i: int|
            if i % 2 == 0 {
                hex_digit(bytes[i / 2] as int / 16)
            } else {
                hex_digit(bytes[i / 2] as int % 16)
            },
    )
}

/// The extension that marks a binary file.
pub open spec fn binary_extension() -> Seq<char> {
    seq!['b', 'i', 'n']
}

/// The way to read a file with the extension `ext`.
pub open spec fn kind_of(ext: Seq<char>) -> FormatKind {
    if ext == binary_extension() {
        FormatKind::Binary
    } else {
        FormatKind::Text
    }
}

/// What reading `data` in the way `kind` gives. Text that is not UTF-8
/// gives nothing.
pub open spec fn content_of(kind: FormatKind, data: Seq<u8>) -> Option<Seq<char>> {
    match kind {
        FormatKind::Binary => Some(hex_text(data)),
        FormatKind::Text => if valid_utf8(data) {
            Some(decode_utf8(data))
        } else {
            None
        },
    }
}

/// `hex::encode`: each byte becomes two digits in lower case, the high half
/// first, and nothing else is written.
#[verifier::external_body]
fn hex_encode(data: &Vec<u8>) -> (s: String)
    ensures
        s@ == hex_text(data@),
{
    hex::encode(data)
}

/// `String::from_utf8`: the bytes become a string exactly when they are
/// UTF-8, and the string then holds the characters that they encode.
#[verifier::external_body]
fn string_from_utf8(data: Vec<u8>) -> (r: Option<String>)
    ensures
        r is Some <==> valid_utf8(data@),
        r is Some ==> r->0@ == decode_utf8(data@),
{
    String::from_utf8(data).ok()
}

/// Something that turns the bytes of a file into text.
pub trait FormatHandlerTrait {
    /// The way in which this handler reads.
    spec fn kind(&self) -> FormatKind;

    /// Turns the bytes of a file into text. Fails with `InvalidUtf8`, and
    /// only with it, where the bytes give nothing.
    fn read_content(&self, data: Vec<u8>) -> (r: Result<String, FormatError>)
        ensures
            match r {
                Ok(content) => content_of(self.kind(), data@) == Some(content@),
                Err(e) => content_of(self.kind(), data@) is None && e == FormatError::InvalidUtf8,
            },
    ;
}

/// The handler for one file.
#[derive(Debug, Clone, Copy, PartialEq, Eq, Structural)]
pub struct FormatHandler {
    /// The way in which it reads.
    pub kind: FormatKind,
}

impl FormatHandler {
    /// Chooses the handler for the file at `path` by its extension. Fails
    /// with `NoExtension` exactly when the path has none.
    pub fn from_path(path: &FsPath) -> (r: Result<FormatHandler, FormatError>)
        ensures
            r == handler_for(path@),
    {
        match path.extension() {
            Some(ext) => {
                let chars = chars_of(ext.as_str());
                let binary = chars.len() == 3 && chars[0] == 'b' && chars[1] == 'i' && chars[2]
                    == 'n';
                assert(binary <==> ext@ =~= binary_extension());
                if binary {
                    Ok(FormatHandler { kind: FormatKind::Binary })
                } else {
                    Ok(FormatHandler { kind: FormatKind::Text })
                }
            },
            None => Err(FormatError::NoExtension),
        }
    }
}

/// The handler for the file at `path`, or `NoExtension` where the path has
/// no extension.
pub open spec fn handler_for(path: PathView) -> Result<FormatHandler, FormatError> {
    match path.extension() {
        Some(ext) => Ok(FormatHandler { kind: kind_of(ext) }),
        None => Err(FormatError::NoExtension),
    }
}

impl FormatHandlerTrait for FormatHandler {
    open spec fn kind(&self) -> FormatKind {
        self.kind
    }

    fn read_content(&self, data: Vec<u8>) -> (r: Result<String, FormatError>) {
        match self.kind {
            FormatKind::Binary => Ok(hex_encode(&data)),
            FormatKind::Text => match string_from_utf8(data) {
                Some(content) => Ok(content),
                None => Err(FormatError::InvalidUtf8),
            },
        }
    }
}

} // verus!
