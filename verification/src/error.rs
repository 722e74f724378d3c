//! The one error type of the library.

use vstd::prelude::*;

verus! {

/// Which failure an error reports, without its message.
#[derive(Clone, Copy, Debug, PartialEq, Eq, Structural)]
pub enum ErrorKind {
    InvalidWorkspace,
    BoxNotFound,
    BeadNotFound,
    InvalidArchive,
    AlreadyExists,
    InvalidBeadName,
    InvalidInput,
    Io,
    Json,
    Zip,
}

/// A failure together with the text that explains it. The last three variants
/// carry the text of a failure that happened outside the library: while reading
/// or writing the disk, while decoding structured text, or inside a container.
#[derive(Debug)]
pub enum BeadError {
    InvalidWorkspace(String),
    BoxNotFound(String),
    BeadNotFound(String),
    InvalidArchive(String),
    AlreadyExists(String),
    InvalidBeadName(String),
    InvalidInput(String),
    IoError(String),
    JsonError(String),
    ZipError(String),
}

/// An error as a pair of plain values.
pub struct ErrorView {
    pub kind: ErrorKind,
    pub message: Seq<char>,
}

impl View for BeadError {
    type V = ErrorView;

    open spec fn view(&self) -> ErrorView {
        match self {
            BeadError::InvalidWorkspace(m) => ErrorView { kind: ErrorKind::InvalidWorkspace, message: m@ },
            BeadError::BoxNotFound(m) => ErrorView { kind: ErrorKind::BoxNotFound, message: m@ },
            BeadError::BeadNotFound(m) => ErrorView { kind: ErrorKind::BeadNotFound, message: m@ },
            BeadError::InvalidArchive(m) => ErrorView { kind: ErrorKind::InvalidArchive, message: m@ },
            BeadError::AlreadyExists(m) => ErrorView { kind: ErrorKind::AlreadyExists, message: m@ },
            BeadError::InvalidBeadName(m) => ErrorView { kind: ErrorKind::InvalidBeadName, message: m@ },
            BeadError::InvalidInput(m) => ErrorView { kind: ErrorKind::InvalidInput, message: m@ },
            BeadError::IoError(m) => ErrorView { kind: ErrorKind::Io, message: m@ },
            BeadError::JsonError(m) => ErrorView { kind: ErrorKind::Json, message: m@ },
            BeadError::ZipError(m) => ErrorView { kind: ErrorKind::Zip, message: m@ },
        }
    }
}

/// The words that stand before the message when an error of `kind` is shown.
pub open spec fn heading(kind: ErrorKind) -> Seq<char> {
    match kind {
        ErrorKind::InvalidWorkspace => "Invalid workspace: "@,
        ErrorKind::BoxNotFound => "Box not found: "@,
        ErrorKind::BeadNotFound => "Bead not found: "@,
        ErrorKind::InvalidArchive => "Invalid archive: "@,
        ErrorKind::AlreadyExists => "Already exists: "@,
        ErrorKind::InvalidBeadName => "Invalid bead name: "@,
        ErrorKind::InvalidInput => "Invalid input: "@,
        ErrorKind::Io => "IO error: "@,
        ErrorKind::Json => "JSON error: "@,
        ErrorKind::Zip => "ZIP error: "@,
    }
}

/// `outcome` is what `model` prescribes: the value whose view `model` gives, or
/// an error of the kind it gives.
pub open spec fn follows<T: View>(outcome: Result<T, BeadError>, model: Result<T::V, ErrorKind>) -> bool {
    match model {
        Ok(v) => outcome is Ok && outcome->Ok_0@ == v,
        Err(k) => outcome is Err && outcome->Err_0@.kind == k,
    }
}

impl BeadError {
    /// An error of the given kind with the given message.
    pub fn new(kind: ErrorKind, message: String) -> (e: BeadError)
        ensures
            e@ == (ErrorView { kind, message: message@ }),
    {
        match kind {
            ErrorKind::InvalidWorkspace => BeadError::InvalidWorkspace(message),
            ErrorKind::BoxNotFound => BeadError::BoxNotFound(message),
            ErrorKind::BeadNotFound => BeadError::BeadNotFound(message),
            ErrorKind::InvalidArchive => BeadError::InvalidArchive(message),
            ErrorKind::AlreadyExists => BeadError::AlreadyExists(message),
            ErrorKind::InvalidBeadName => BeadError::InvalidBeadName(message),
            ErrorKind::InvalidInput => BeadError::InvalidInput(message),
            ErrorKind::Io => BeadError::IoError(message),
            ErrorKind::Json => BeadError::JsonError(message),
            ErrorKind::Zip => BeadError::ZipError(message),
        }
    }

    /// Which failure this is.
    pub fn kind(&self) -> (k: ErrorKind)
        ensures
            k == self@.kind,
    {
        match self {
            BeadError::InvalidWorkspace(_) => ErrorKind::InvalidWorkspace,
            BeadError::BoxNotFound(_) => ErrorKind::BoxNotFound,
            BeadError::BeadNotFound(_) => ErrorKind::BeadNotFound,
            BeadError::InvalidArchive(_) => ErrorKind::InvalidArchive,
            BeadError::AlreadyExists(_) => ErrorKind::AlreadyExists,
            BeadError::InvalidBeadName(_) => ErrorKind::InvalidBeadName,
            BeadError::InvalidInput(_) => ErrorKind::InvalidInput,
            BeadError::IoError(_) => ErrorKind::Io,
            BeadError::JsonError(_) => ErrorKind::Json,
            BeadError::ZipError(_) => ErrorKind::Zip,
        }
    }

    /// The message, without the heading of its kind.
    pub fn message(&self) -> (m: &str)
        ensures
            m@ == self@.message,
    {
        match self {
            BeadError::InvalidWorkspace(m) => m.as_str(),
            BeadError::BoxNotFound(m) => m.as_str(),
            BeadError::BeadNotFound(m) => m.as_str(),
            BeadError::InvalidArchive(m) => m.as_str(),
            BeadError::AlreadyExists(m) => m.as_str(),
            BeadError::InvalidBeadName(m) => m.as_str(),
            BeadError::InvalidInput(m) => m.as_str(),
            BeadError::IoError(m) => m.as_str(),
            BeadError::JsonError(m) => m.as_str(),
            BeadError::ZipError(m) => m.as_str(),
        }
    }

    /// The error as one line of text: the heading of its kind, then the message.
    pub fn to_string(&self) -> (s: String)
        ensures
            s@ == heading(self@.kind) + self@.message,
    {
        let head: &str = match self.kind() {
            ErrorKind::InvalidWorkspace => "Invalid workspace: ",
            ErrorKind::BoxNotFound => "Box not found: ",
            ErrorKind::BeadNotFound => "Bead not found: ",
            ErrorKind::InvalidArchive => "Invalid archive: ",
            ErrorKind::AlreadyExists => "Already exists: ",
            ErrorKind::InvalidBeadName => "Invalid bead name: ",
            ErrorKind::InvalidInput => "Invalid input: ",
            ErrorKind::Io => "IO error: ",
            ErrorKind::Json => "JSON error: ",
            ErrorKind::Zip => "ZIP error: ",
        };
        let mut s = head.to_owned();
        s.append(self.message());
        s
    }
}

impl Clone for BeadError {
    fn clone(&self) -> (e: Self)
        ensures
            e == *self,
    {
        match self {
            BeadError::InvalidWorkspace(m) => BeadError::InvalidWorkspace(m.clone()),
            BeadError::BoxNotFound(m) => BeadError::BoxNotFound(m.clone()),
            BeadError::BeadNotFound(m) => BeadError::BeadNotFound(m.clone()),
            BeadError::InvalidArchive(m) => BeadError::InvalidArchive(m.clone()),
            BeadError::AlreadyExists(m) => BeadError::AlreadyExists(m.clone()),
            BeadError::InvalidBeadName(m) => BeadError::InvalidBeadName(m.clone()),
            BeadError::InvalidInput(m) => BeadError::InvalidInput(m.clone()),
            BeadError::IoError(m) => BeadError::IoError(m.clone()),
            BeadError::JsonError(m) => BeadError::JsonError(m.clone()),
            BeadError::ZipError(m) => BeadError::ZipError(m.clone()),
        }
    }
}

} // verus!
