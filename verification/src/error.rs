//! The errors of the library.

use crate::text::{append_chars, chars_of, string_of};
use std::path::PathBuf;
use vstd::prelude::*;

verus! {

/// `std::path::PathBuf`, carried through as it was given.
#[verifier::external_type_specification]
#[verifier::external_body]
pub struct ExPathBuf(PathBuf);

/// `PathBuf::clone` returns a path equal to the one it was called on.
pub assume_specification[ <PathBuf as Clone>::clone ](path: &PathBuf) -> (r: PathBuf)
    ensures
        r == *path,
;

/// What can go wrong.
#[derive(Debug)]
pub enum Error {
    /// The bytes of a document could not be read as PDF, the file is
    /// encrypted, or a document does not hold what an operation needs; the
    /// text says which, and is that of the PDF reader where it failed.
    Pdf(String),
    /// Reading or writing a file failed.
    Io(String),
    /// A date expression has none of the accepted forms.
    InvalidDateExpression(String),
    /// An input file does not exist.
    FileNotFound(PathBuf),
    /// A file name pattern is not a valid pattern.
    InvalidGlob(String),
    /// A file name pattern matches no file.
    NoFilesMatched(String),
    /// A document has no pages.
    EmptyPdf(PathBuf),
    /// The font could not be used.
    Font(String),
    /// Any other failure, with its message.
    General(String),
}

/// The text of a path, as `Path::display` writes it.
#[verifier::external_body]
fn path_text(path: &PathBuf) -> (r: String) {
    path.display().to_string()
}

/// The words that stand in front of the detail of each kind of error.
pub open spec fn error_prefix(e: Error) -> Seq<char> {
    match e {
        Error::Pdf(_) => "PDF error: "@,
        Error::Io(_) => "IO error: "@,
        Error::InvalidDateExpression(_) => "Invalid date expression: "@,
        Error::FileNotFound(_) => "File not found: "@,
        Error::InvalidGlob(_) => "Invalid glob pattern: "@,
        Error::NoFilesMatched(_) => "No PDF files found matching pattern: "@,
        Error::EmptyPdf(_) => "PDF has no pages: "@,
        Error::Font(_) => "Font error: "@,
        Error::General(_) => ""@,
    }
}

impl Error {
    /// The message of this error for a human reader: the words of its kind,
    /// then its detail. For the two kinds that name a file the detail is the
    /// path as the platform displays it.
    pub fn message(&self) -> (r: String)
        ensures
            error_prefix(*self).is_prefix_of(r@),
            match *self {
                Error::Pdf(s)
                | Error::Io(s)
                | Error::InvalidDateExpression(s)
                | Error::InvalidGlob(s)
                | Error::NoFilesMatched(s)
                | Error::Font(s)
                | Error::General(s) => r@ == error_prefix(*self) + s@,
                Error::FileNotFound(_) | Error::EmptyPdf(_) => true,
            },
    {
        let (prefix, detail): (&str, String) = match self {
            Error::Pdf(s) => ("PDF error: ", s.clone()),
            Error::Io(s) => ("IO error: ", s.clone()),
            Error::InvalidDateExpression(s) => ("Invalid date expression: ", s.clone()),
            Error::FileNotFound(p) => ("File not found: ", path_text(p)),
            Error::InvalidGlob(s) => ("Invalid glob pattern: ", s.clone()),
            Error::NoFilesMatched(s) => ("No PDF files found matching pattern: ", s.clone()),
            Error::EmptyPdf(p) => ("PDF has no pages: ", path_text(p)),
            Error::Font(s) => ("Font error: ", s.clone()),
            Error::General(s) => ("", s.clone()),
        };
        let mut out = chars_of(prefix);
        append_chars(&mut out, &chars_of(detail.as_str()));
        string_of(&out)
    }
}

} // verus!
