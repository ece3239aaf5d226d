//! Writes the section of one file: a header with its path, then its content.
//!
//! A file whose content cannot be had keeps its header. That is reported,
//! and the run goes on with the next file.

use vstd::prelude::*;
use crate::formats::handler::{
    content_of, handler_for, FormatError, FormatHandler, FormatHandlerTrait,
};
use crate::path::{FsPath, PathView};

verus! {

/// The lines that open the section of the file at `path`.
pub open spec fn file_header(path: PathView) -> Seq<char> {
    "\n================\nFilepath: "@ + path.text() + "\n################\n"@
}

/// The bytes that were read, if any were.
pub open spec fn bytes_of(data: Option<Vec<u8>>) -> Option<Seq<u8>> {
    match data {
        Some(bytes) => Some(bytes@),
        None => None,
    }
}

/// The content of the file at `path`, whose bytes are `data` where it could
/// be read. A path without an extension fails first, then a file that
/// could not be read, then text that is not UTF-8.
pub open spec fn file_content(path: PathView, data: Option<Seq<u8>>) -> Result<
    Seq<char>,
    FormatError,
> {
    match handler_for(path) {
        Err(e) => Err(e),
        Ok(handler) => match data {
            None => Err(FormatError::Unreadable),
            Some(bytes) => match content_of(handler.kind, bytes) {
                Some(content) => Ok(content),
                None => Err(FormatError::InvalidUtf8),
            },
        },
    }
}

/// The section of the file at `path`: the header, then the content and a
/// newline where there is content.
pub open spec fn file_section(path: PathView, data: Option<Seq<u8>>) -> Seq<char> {
    match file_content(path, data) {
        Ok(content) => file_header(path) + content + "\n"@,
        Err(_) => file_header(path),
    }
}

/// What became of the file: nothing to report, or why it has no content.
pub open spec fn file_outcome(path: PathView, data: Option<Seq<u8>>) -> Result<(), FormatError> {
    match file_content(path, data) {
        Ok(_) => Ok(()),
        Err(e) => Err(e),
    }
}

/// Writes the section of the file at `path` to `writer`. `data` holds the
/// file's bytes, or nothing where the file could not be read. The header
/// is written in any case; the result says why no content follows it.
pub fn process_file(path: &FsPath, data: Option<Vec<u8>>, writer: &mut String) -> (r: Result<
    (),
    FormatError,
>)
    ensures
        final(writer)@ == old(writer)@ + file_section(path@, bytes_of(data)),
        r == file_outcome(path@, bytes_of(data)),
{
    let ghost before = writer@;
    writer.append("\n================\nFilepath: ");
    let shown = path.to_string();
    writer.append(shown.as_str());
    writer.append("\n################\n");
    assert(writer@ =~= before + file_header(path@));
    let handler = match FormatHandler::from_path(path) {
        Ok(handler) => handler,
        Err(e) => {
            return Err(e);
        },
    };
    let bytes = match data {
        Some(bytes) => bytes,
        None => {
            return Err(FormatError::Unreadable);
        },
    };
    match handler.read_content(bytes) {
        Ok(content) => {
            writer.append(content.as_str());
            writer.append("\n");
            assert(writer@ =~= before + (file_header(path@) + content@ + "\n"@));
            Ok(())
        },
        Err(e) => Err(e),
    }
}

/// What the run does after the section of a file has been written.
#[derive(Debug, Clone, Copy, PartialEq, Eq, Structural)]
pub enum Step {
    /// The file has its content: go on with the next file.
    Proceed,
    /// The file has no content, for the reason given: say so, and go on
    /// with the next file.
    Report(FormatError),
}

/// A file without content is reported, whatever the reason and however the
/// file was found. No file stops the run.
pub open spec fn step_after(outcome: Result<(), FormatError>) -> Step {
    match outcome {
        Ok(_) => Step::Proceed,
        Err(e) => Step::Report(e),
    }
}

/// What the run does after the section of a file has been written with the
/// result `outcome`.
pub fn settle(outcome: Result<(), FormatError>) -> (step: Step)
    ensures
        step == step_after(outcome),
{
    match outcome {
        Ok(_) => Step::Proceed,
        Err(e) => Step::Report(e),
    }
}

} // verus!
