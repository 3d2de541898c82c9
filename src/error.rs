//! Errors of the library, and the closures through which it reads and writes
//! files.
use vstd::prelude::*;

verus! {

/// The kind of a failed file operation.
#[derive(Clone, Copy, Debug, PartialEq, Eq, Structural)]
pub enum IoErrorKind {
    NotFound,
    PermissionDenied,
    Other,
}

/// Everything that can go wrong while reading or writing a configuration.
#[derive(Clone, Debug, PartialEq, Eq)]
pub enum LibSDBootConfError {
    /// A loader settings line without a value.
    ConfigParseError,
    /// An entry line without a value.
    EntryParseError,
    /// An entry file whose name does not end in `.conf`.
    InvalidEntryFilename(String),
    /// A file operation failed, with its kind and a message.
    IOError(IoErrorKind, String),
    /// An entry line whose keyword is not known.
    InvalidToken(String),
}

/// The mathematical value of an error.
pub enum ErrorModel {
    ConfigParse,
    EntryParse,
    InvalidEntryFilename(Seq<char>),
    Io(IoErrorKind, Seq<char>),
    InvalidToken(Seq<char>),
}

impl View for LibSDBootConfError {
    type V = ErrorModel;

    open spec fn view(&self) -> ErrorModel {
        match self {
            LibSDBootConfError::ConfigParseError => ErrorModel::ConfigParse,
            LibSDBootConfError::EntryParseError => ErrorModel::EntryParse,
            LibSDBootConfError::InvalidEntryFilename(p) => ErrorModel::InvalidEntryFilename(p@),
            LibSDBootConfError::IOError(k, m) => ErrorModel::Io(*k, m@),
            LibSDBootConfError::InvalidToken(w) => ErrorModel::InvalidToken(w@),
        }
    }
}

/// The view of a result of this library.
pub open spec fn result_view<T: View>(r: Result<T, LibSDBootConfError>) -> Result<
    T::V,
    ErrorModel,
> {
    match r {
        Ok(v) => Ok(v@),
        Err(e) => Err(e@),
    }
}

/// `read`, called on a path with the characters `path`, returned `res`.
pub open spec fn read_gave<R: Fn(&str) -> Result<String, LibSDBootConfError>>(
    read: R,
    path: Seq<char>,
    res: Result<String, LibSDBootConfError>,
) -> bool {
    exists|p: &str| p@ == path && #[trigger] read.ensures((p,), res)
}

/// `write`, called on a path with the characters `path` and the contents
/// `text`, returned `res`.
pub open spec fn write_gave<W: Fn(&str, &str) -> Result<(), LibSDBootConfError>>(
    write: W,
    path: Seq<char>,
    text: Seq<char>,
    res: Result<(), LibSDBootConfError>,
) -> bool {
    exists|p: &str, t: &str| p@ == path && t@ == text && #[trigger] write.ensures((p, t), res)
}

} // verus!
