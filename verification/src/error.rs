//! The error of a path operation: what the system said, what was being done, and on which path.
use vstd::prelude::*;
use crate::path::{render, PathBuf, SpecComponent};
use vstd::string::StringExecFns;
use vstd::utf8::{encode_utf8, valid_utf8};

verus! {

/// The category of an input/output error, as `std::io::ErrorKind` gives it.
#[derive(Clone, Copy, Debug, PartialEq, Eq, Structural)]
pub enum ErrorKind {
    NotFound,
    PermissionDenied,
    ConnectionRefused,
    ConnectionReset,
    HostUnreachable,
    NetworkUnreachable,
    ConnectionAborted,
    NotConnected,
    AddrInUse,
    AddrNotAvailable,
    NetworkDown,
    BrokenPipe,
    AlreadyExists,
    WouldBlock,
    NotADirectory,
    IsADirectory,
    DirectoryNotEmpty,
    ReadOnlyFilesystem,
    StaleNetworkFileHandle,
    InvalidInput,
    InvalidData,
    TimedOut,
    WriteZero,
    StorageFull,
    NotSeekable,
    FileTooLarge,
    ResourceBusy,
    ExecutableFileBusy,
    Deadlock,
    CrossesDevices,
    TooManyLinks,
    InvalidFilename,
    ArgumentListTooLong,
    Interrupted,
    Unsupported,
    UnexpectedEof,
    OutOfMemory,
    Other,
}

/// An input/output error: its category and its message.
#[derive(Debug)]
pub struct IoError {
    kind: ErrorKind,
    message: String,
}

/// The content of an `IoError`.
pub struct IoErrorView {
    pub kind: ErrorKind,
    pub message: Seq<char>,
}

impl View for IoError {
    type V = IoErrorView;

    closed spec fn view(&self) -> IoErrorView {
        IoErrorView { kind: self.kind, message: self.message@ }
    }
}

impl IoError {
    /// An error of the given category with the given message.
    pub fn new(kind: ErrorKind, message: &str) -> (e: IoError)
        ensures
            e@.kind == kind,
            e@.message == message@,
    {
        IoError { kind, message: message.to_owned() }
    }

    /// The category.
    pub fn kind(&self) -> (k: ErrorKind)
        ensures
            k == self@.kind,
    {
        self.kind
    }

    /// The message.
    pub fn message(&self) -> (m: &str)
        ensures
            m@ == self@.message,
    {
        self.message.as_str()
    }

    /// An equal error.
    pub fn duplicate(&self) -> (e: IoError)
        ensures
            e@ == self@,
    {
        IoError { kind: self.kind, message: self.message.clone() }
    }
}

/// The text that `String::from_utf8_lossy` makes of `bytes` (the way `Path::display` shows
/// a path on Unix).
pub uninterp spec fn utf8_lossy(bytes: Seq<u8>) -> Seq<char>;

/// Calls `String::from_utf8_lossy`. Claimed: the result is `utf8_lossy` of the bytes, and it
/// is the text the bytes spell when they are valid UTF-8 (as its documentation says). What it
/// puts in place of invalid sequences is not stated.
#[verifier::external_body]
fn lossy_text(b: &[u8]) -> (s: String)
    ensures
        s@ == utf8_lossy(b@),
        valid_utf8(b@) ==> encode_utf8(s@) == b@,
{
    String::from_utf8_lossy(b).into_owned()
}

/// The message of an error: "<input/output message> when <action> <path>".
pub open spec fn error_text(e: ErrorView) -> Seq<char> {
    e.message + " when "@ + e.action + " "@ + utf8_lossy(render(e.path))
}

/// An error produced by an operation on a path: the input/output error,
/// the action being performed when it occurred, and the path concerned.
#[derive(Debug)]
pub struct Error {
    io_err: IoError,
    action: String,
    path: PathBuf,
}

/// The content of an `Error`.
pub struct ErrorView {
    pub kind: ErrorKind,
    pub message: Seq<char>,
    pub action: Seq<char>,
    pub path: Seq<SpecComponent>,
}

impl View for Error {
    type V = ErrorView;

    closed spec fn view(&self) -> ErrorView {
        ErrorView {
            kind: self.io_err@.kind,
            message: self.io_err@.message,
            action: self.action@,
            path: self.path@,
        }
    }
}

impl Error {
    /// A new error when the path and action are known.
    pub fn new(io_err: IoError, action: &str, path: PathBuf) -> (e: Error)
        ensures
            e@.kind == io_err@.kind,
            e@.message == io_err@.message,
            e@.action == action@,
            e@.path == path@,
    {
        Error { io_err, action: action.to_owned(), path }
    }

    /// The path associated with this error.
    pub fn path(&self) -> (p: &PathBuf)
        ensures
            p@ == self@.path,
    {
        &self.path
    }

    /// The input/output error associated with this error.
    pub fn io_error(&self) -> (e: &IoError)
        ensures
            e@.kind == self@.kind,
            e@.message == self@.message,
    {
        &self.io_err
    }

    /// The action being performed when this error occurred.
    pub fn action(&self) -> (a: &str)
        ensures
            a@ == self@.action,
    {
        self.action.as_str()
    }

    /// The message of the error: the input/output message, the action and the path, as
    /// "<message> when <action> <path>".
    pub fn text(&self) -> (s: String)
        ensures
            s@ == error_text(self@),
    {
        let mut s = self.io_err.message.clone();
        s.append(" when ");
        s.append(self.action.as_str());
        s.append(" ");
        let bytes = self.path.to_bytes();
        let p = lossy_text(bytes.as_slice());
        s.append(p.as_str());
        s
    }

    /// An equal error.
    pub fn duplicate(&self) -> (e: Error)
        ensures
            e@ == self@,
    {
        Error { io_err: self.io_err.duplicate(), action: self.action.clone(), path: self.path.duplicate() }
    }
}

} // verus!
