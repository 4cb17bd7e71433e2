//! [`XlStreamError`]: the library-level error type.
use vstd::prelude::*;

use crate::text::{decimal, push_decimal, push_str};

verus! {

/// `std::path::PathBuf`, carried opaque.
#[verifier::external_type_specification]
#[verifier::external_body]
pub struct ExPathBuf(std::path::PathBuf);

/// `std::io::Error`, carried opaque.
#[verifier::external_type_specification]
#[verifier::external_body]
pub struct ExIoError(std::io::Error);

/// Library-level errors. Cell-level errors (`#DIV/0!`, ...) are
/// [`crate::cell_error::CellError`] values; this type is for failures that
/// stop evaluation.
#[derive(Debug)]
pub enum XlStreamError {
    /// Filesystem I/O failure.
    Io {
        /// The path that failed to open or read.
        path: std::path::PathBuf,
        /// The underlying I/O error.
        source: std::io::Error,
    },
    /// An xlsx read error (stringified where it is converted).
    Xlsx(String),
    /// An xlsx write error (stringified where it is converted).
    XlsxWrite(String),
    /// A formula that cannot be interpreted as a supported shape.
    Unsupported {
        /// The cell address that held the formula (e.g. `Sheet1!A1`).
        address: String,
        /// The formula text.
        formula: String,
        /// Why the formula cannot be streamed.
        reason: String,
        /// Documentation URL covering the refusal.
        doc_link: &'static str,
    },
    /// The formula parser rejected the input.
    FormulaParse {
        /// The cell address that held the formula.
        address: String,
        /// The formula text.
        formula: String,
        /// Parser diagnostic.
        message: String,
        /// Byte offset of the failure, when known.
        position: Option<usize>,
    },
    /// A formula could not be classified.
    Classification {
        /// The cell address that held the formula.
        address: String,
        /// Diagnostic.
        message: String,
    },
    /// A set of cells forms a dependency cycle.
    CircularReference {
        /// The cells involved in the cycle.
        cells: Vec<String>,
    },
    /// A violated internal invariant: always a bug.
    Internal(String),
}

/// The `Debug` rendering of a list of strings (`["A1", "B2"]`).
pub uninterp spec fn debug_list_text(cells: Seq<Seq<char>>) -> Seq<char>;

/// `format!("{:?}", cells)`: the `Debug` rendering of a list of strings.
/// Its text is named, not spelled out (it escapes quotes and control
/// characters).
#[verifier::external_body]
fn debug_list(cells: &Vec<String>) -> (r: String)
    ensures
        r@ == debug_list_text(cells.deep_view()),
{
    format!("{cells:?}")
}

/// `Path::display` of a path, rendered as text. Nothing is stated of the
/// text: a `PathBuf` is opaque here.
#[verifier::external_body]
fn path_display_text(p: &std::path::PathBuf) -> String {
    p.display().to_string()
}

/// The `Display` text of an I/O error. Nothing is stated of the text: the
/// error is opaque here.
#[verifier::external_body]
fn io_error_display_text(e: &std::io::Error) -> String {
    e.to_string()
}

/// The position suffix of a parse-error message.
pub open spec fn position_text(position: Option<usize>) -> Seq<char> {
    match position {
        Some(p) => " (position "@ + decimal(p as nat) + ")"@,
        None => Seq::empty(),
    }
}

/// The message of every error but `Io` (whose path and source are opaque).
pub open spec fn error_text(e: XlStreamError) -> Seq<char> {
    match e {
        XlStreamError::Io { .. } => "I/O error reading "@,
        XlStreamError::Xlsx(m) => "xlsx error: "@ + m@,
        XlStreamError::XlsxWrite(m) => "xlsx write error: "@ + m@,
        XlStreamError::Unsupported { address, formula, reason, doc_link } => "unsupported formula at "@
            + address@ + ": "@ + reason@ + "\n  formula: "@ + formula@ + "\n  see: "@ + doc_link@,
        XlStreamError::FormulaParse { address, formula, message, position } => "formula parse error at "@
            + address@ + position_text(position) + ": "@ + message@ + "\n  formula: "@ + formula@,
        XlStreamError::Classification { address, message } => "classification error at "@ + address@
            + ": "@ + message@,
        XlStreamError::CircularReference { cells } => "circular reference involving "@
            + debug_list_text(cells.deep_view()),
        XlStreamError::Internal(m) => "internal invariant violation: "@ + m@,
    }
}

impl XlStreamError {
    /// The human-readable message of the error.
    pub fn to_string(&self) -> (r: String)
        ensures
            !(self is Io) ==> r@ == error_text(*self),
            self is Io ==> exists|path_text: Seq<char>, source_text: Seq<char>|
                r@ == error_text(*self) + path_text + ": "@ + source_text,
    {
        let mut s = String::new();
        match self {
            XlStreamError::Io { path, source } => {
                push_str(&mut s, "I/O error reading ");
                let p = path_display_text(path);
                push_str(&mut s, p.as_str());
                push_str(&mut s, ": ");
                let e = io_error_display_text(source);
                push_str(&mut s, e.as_str());
                proof {
                    assert(s@ =~= error_text(*self) + p@ + ": "@ + e@);
                }
            },
            XlStreamError::Xlsx(m) => {
                push_str(&mut s, "xlsx error: ");
                push_str(&mut s, m.as_str());
            },
            XlStreamError::XlsxWrite(m) => {
                push_str(&mut s, "xlsx write error: ");
                push_str(&mut s, m.as_str());
            },
            XlStreamError::Unsupported { address, formula, reason, doc_link } => {
                push_str(&mut s, "unsupported formula at ");
                push_str(&mut s, address.as_str());
                push_str(&mut s, ": ");
                push_str(&mut s, reason.as_str());
                push_str(&mut s, "\n  formula: ");
                push_str(&mut s, formula.as_str());
                push_str(&mut s, "\n  see: ");
                push_str(&mut s, doc_link);
            },
            XlStreamError::FormulaParse { address, formula, message, position } => {
                push_str(&mut s, "formula parse error at ");
                push_str(&mut s, address.as_str());
                match position {
                    Some(p) => {
                        push_str(&mut s, " (position ");
                        push_decimal(&mut s, *p as u64);
                        push_str(&mut s, ")");
                    },
                    None => {},
                }
                push_str(&mut s, ": ");
                push_str(&mut s, message.as_str());
                push_str(&mut s, "\n  formula: ");
                push_str(&mut s, formula.as_str());
            },
            XlStreamError::Classification { address, message } => {
                push_str(&mut s, "classification error at ");
                push_str(&mut s, address.as_str());
                push_str(&mut s, ": ");
                push_str(&mut s, message.as_str());
            },
            XlStreamError::CircularReference { cells } => {
                push_str(&mut s, "circular reference involving ");
                let d = debug_list(cells);
                push_str(&mut s, d.as_str());
            },
            XlStreamError::Internal(m) => {
                push_str(&mut s, "internal invariant violation: ");
                push_str(&mut s, m.as_str());
            },
        }
        proof {
            assert(!(self is Io) ==> s@ =~= error_text(*self));
        }
        s
    }
}

} // verus!
