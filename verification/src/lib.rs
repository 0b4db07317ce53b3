//! Helpers shared by the SSH download clients: file listings, error codes,
//! path encoding and the decisions taken while receiving files.

pub mod display;
pub mod listing;
pub mod paths;
pub mod scp;
pub mod text;
pub mod transfer;
pub mod utils;

pub use transfer::BUFFER_SIZE;

use std::borrow::Cow;
use vstd::prelude::*;

verus! {

/// The kind of a remote file system entry.
#[derive(Debug, Clone, Copy, PartialEq, Eq, Structural)]
pub enum FsEntryType {
    File,
    Directory,
}

/// A remote file system entry, as a listing reports it.
pub struct FsEntry {
    /// The entry's full remote path.
    pub path: String,
    pub file_type: FsEntryType,
    /// Whether the listing reported the entry as a symbolic link.
    pub is_link: bool,
}

/// The abstract value of an [`FsEntry`].
pub struct FsEntryView {
    pub path: Seq<char>,
    pub file_type: FsEntryType,
    pub is_link: bool,
}

impl View for FsEntry {
    type V = FsEntryView;

    open spec fn view(&self) -> FsEntryView {
        FsEntryView { path: self.path@, file_type: self.file_type, is_link: self.is_link }
    }
}

/// An error code originating from a particular source.
#[derive(Debug, Copy, Clone, PartialEq, Eq, Structural)]
pub enum ErrorCode {
    /// Codes for errors that originate in libssh2 (one of the `LIBSSH2_ERROR_*` constants).
    Session(i32),
    /// Codes for errors that originate in the SFTP subsystem (one of the `LIBSSH2_FX_*` constants).
    SFTP(i32),
}

/// Representation of an error that can occur within libssh2.
#[derive(Debug)]
pub struct Error {
    code: ErrorCode,
    msg: Cow<'static, str>,
}

impl Error {
    /// The code this error carries.
    pub closed spec fn error_code(&self) -> ErrorCode {
        self.code
    }

    /// The text this error carries.
    pub closed spec fn error_msg(&self) -> Seq<char> {
        self.msg@
    }

    /// Create a new error for the given code and message.
    pub fn new(code: ErrorCode, msg: &'static str) -> (e: Error)
        ensures
            e.error_code() == code,
            e.error_msg() == msg@,
    {
        Error { code, msg: Cow::Borrowed(msg) }
    }

    /// The code of this error.
    pub fn code(&self) -> (c: ErrorCode)
        ensures
            c == self.error_code(),
    {
        self.code
    }

    /// The message of this error.
    pub fn message(&self) -> (m: &str)
        ensures
            m@ == self.error_msg(),
    {
        match &self.msg {
            Cow::Borrowed(m) => m,
            Cow::Owned(m) => m.as_str(),
        }
    }
}

} // verus!
