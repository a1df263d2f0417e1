//! What can go wrong while a file is fetched, and what is final.

use std::ops::Range;

use vstd::prelude::*;
use vstd::string::StringExecFns;
use crate::download::items::{DownloadId, FileId};
#[allow(unused_imports)]
use crate::utils::numbers::decimal;
use crate::utils::numbers::push_decimal;

verus! {

/// The kinds of errors that an operating system reports.
#[derive(Debug, Clone, Copy, PartialEq, Eq, Structural)]
pub enum IoErrorKind {
    NotFound,
    PermissionDenied,
    NotADirectory,
    IsADirectory,
    InvalidInput,
    AddrInUse,
    AddrNotAvailable,
    AlreadyExists,
    DirectoryNotEmpty,
    ReadOnlyFilesystem,
    StaleNetworkFileHandle,
    InvalidData,
    NotSeekable,
    CrossesDevices,
    TooManyLinks,
    InvalidFilename,
    ArgumentListTooLong,
    Unsupported,
    WriteZero,
    StorageFull,
    QuotaExceeded,
    FileTooLarge,
    OutOfMemory,
    NetworkUnreachable,
    WouldBlock,
    ConnectionReset,
    ConnectionAborted,
    NotConnected,
    NetworkDown,
    BrokenPipe,
    HostUnreachable,
    TimedOut,
    ResourceBusy,
    ExecutableFileBusy,
    Deadlock,
    Interrupted,
    UnexpectedEof,
    Other,
}

impl IoErrorKind {
    /// Whether trying again may help: the connection or the machine was busy or
    /// interrupted, or nothing is known of the error.
    pub open spec fn spec_is_temporary(self) -> bool {
        ||| self is NetworkUnreachable
        ||| self is WouldBlock
        ||| self is ConnectionReset
        ||| self is ConnectionAborted
        ||| self is NotConnected
        ||| self is NetworkDown
        ||| self is BrokenPipe
        ||| self is HostUnreachable
        ||| self is TimedOut
        ||| self is ResourceBusy
        ||| self is ExecutableFileBusy
        ||| self is Deadlock
        ||| self is Interrupted
        ||| self is UnexpectedEof
        ||| self is Other
    }

    /// Whether trying again may help.
    pub fn is_temporary(&self) -> (r: bool)
        ensures
            r == self.spec_is_temporary(),
    {
        match self {
            IoErrorKind::NetworkUnreachable
            | IoErrorKind::WouldBlock
            | IoErrorKind::ConnectionReset
            | IoErrorKind::ConnectionAborted
            | IoErrorKind::NotConnected
            | IoErrorKind::NetworkDown
            | IoErrorKind::BrokenPipe
            | IoErrorKind::HostUnreachable
            | IoErrorKind::TimedOut
            | IoErrorKind::ResourceBusy
            | IoErrorKind::ExecutableFileBusy
            | IoErrorKind::Deadlock
            | IoErrorKind::Interrupted
            | IoErrorKind::UnexpectedEof
            | IoErrorKind::Other => true,
            _ => false,
        }
    }
}

/// Whether a status blames the client.
pub open spec fn spec_is_client_error(status: u16) -> bool {
    400 <= status < 500
}

/// Whether a status blames the server.
pub open spec fn spec_is_server_error(status: u16) -> bool {
    500 <= status < 600
}

/// Whether a status says that all is well.
pub open spec fn spec_is_success(status: u16) -> bool {
    200 <= status < 300
}

/// Whether a status blames the client.
pub fn is_client_error(status: u16) -> (r: bool)
    ensures
        r == spec_is_client_error(status),
{
    400 <= status && status < 500
}

/// Whether a status blames the server.
pub fn is_server_error(status: u16) -> (r: bool)
    ensures
        r == spec_is_server_error(status),
{
    500 <= status && status < 600
}

/// Whether a status says that all is well.
pub fn is_success(status: u16) -> (r: bool)
    ensures
        r == spec_is_success(status),
{
    200 <= status && status < 300
}

/// Why nothing could be learned of a file.
#[derive(Debug, Clone, Copy, PartialEq, Eq, Structural)]
pub enum MetadataError {
    HttpStatus(u16),
    Network,
}

/// Why a file could not be fetched.
#[derive(Debug, Clone, Copy, PartialEq, Eq, Structural)]
pub enum DownloadError {
    Io(IoErrorKind),
    Network,
    /// The server wants a pause, of so many seconds if it says how long.
    RateLimited(Option<u64>),
    ServerError(u16),
    ClientError(u16),
}

/// Why a range of a file could not be fetched.
#[derive(Debug, Clone, Copy, PartialEq, Eq, Structural)]
pub enum RangeDownloadError {
    Download(DownloadError),
    UnexpectedStatus(u16),
    /// So many bytes came, and so many were due.
    UnexpectedLength(u64, u64),
    RangeNotSupported,
    DiskWriteError(IoErrorKind),
    DiskPoolDropped,
}

/// What was being tried.
#[allow(inconsistent_fields)]
#[derive(Debug)]
pub enum DownloadOperation {
    FetchingMetadata { download_id: DownloadId, file_id: FileId },
    DownloadingStream { download_id: DownloadId, file_id: FileId },
    DownloadingRange { download_id: DownloadId, file_id: FileId, range: Range<usize> },
}

/// What a server answered that is final.
#[allow(inconsistent_fields)]
#[derive(Debug, Clone, Copy, PartialEq, Eq, Structural)]
pub enum HttpFailureKind {
    FileNotFound,
    MetadataError { status: u16 },
    UnexpectedStatus { status: u16 },
}

/// Why something is given up.
#[derive(Debug, Clone, Copy, PartialEq, Eq, Structural)]
pub enum PermanentFailureKind {
    Disk(IoErrorKind),
    Http(HttpFailureKind),
    TooManyRetries { attempts: usize },
}

/// Something that is given up, and will not be tried again.
#[derive(Debug)]
pub struct PermanentFailure {
    pub operation: DownloadOperation,
    pub kind: PermanentFailureKind,
}

impl DownloadOperation {
    /// The file that was worked on.
    pub open spec fn spec_file_id(self) -> FileId {
        match self {
            DownloadOperation::FetchingMetadata { file_id, .. } => file_id,
            DownloadOperation::DownloadingStream { file_id, .. } => file_id,
            DownloadOperation::DownloadingRange { file_id, .. } => file_id,
        }
    }

    /// What a reader is told.
    pub open spec fn spec_describe(self) -> Seq<char> {
        match self {
            DownloadOperation::FetchingMetadata { download_id, file_id } =>
                "Failed to fetch metadata for file "@ + decimal(file_id.0 as nat)
                    + " of download "@ + decimal(download_id.0 as nat),
            DownloadOperation::DownloadingStream { download_id, file_id } =>
                "Failed to download file "@ + decimal(file_id.0 as nat) + " of download "@
                    + decimal(download_id.0 as nat),
            DownloadOperation::DownloadingRange { download_id, file_id, range } =>
                "Failed to download range "@ + decimal(range.start as nat) + "-"@ + decimal(
                    range.end as nat,
                ) + " for file "@ + decimal(file_id.0 as nat) + " of download "@ + decimal(
                    download_id.0 as nat,
                ),
        }
    }

    /// The file that was worked on.
    pub fn file_id(&self) -> (r: FileId)
        ensures
            r == self.spec_file_id(),
    {
        match self {
            DownloadOperation::FetchingMetadata { file_id, .. } => *file_id,
            DownloadOperation::DownloadingStream { file_id, .. } => *file_id,
            DownloadOperation::DownloadingRange { file_id, .. } => *file_id,
        }
    }

    /// What a reader is told.
    pub fn describe(&self) -> (r: String)
        ensures
            r@ == self.spec_describe(),
    {
        match self {
            DownloadOperation::FetchingMetadata { download_id, file_id } => {
                let mut s = "Failed to fetch metadata for file ".to_owned();
                push_decimal(&mut s, file_id.0 as u64);
                s.append(" of download ");
                push_decimal(&mut s, download_id.0 as u64);
                s
            },
            DownloadOperation::DownloadingStream { download_id, file_id } => {
                let mut s = "Failed to download file ".to_owned();
                push_decimal(&mut s, file_id.0 as u64);
                s.append(" of download ");
                push_decimal(&mut s, download_id.0 as u64);
                s
            },
            DownloadOperation::DownloadingRange { download_id, file_id, range } => {
                let mut s = "Failed to download range ".to_owned();
                push_decimal(&mut s, range.start as u64);
                s.append("-");
                push_decimal(&mut s, range.end as u64);
                s.append(" for file ");
                push_decimal(&mut s, file_id.0 as u64);
                s.append(" of download ");
                push_decimal(&mut s, download_id.0 as u64);
                s
            },
        }
    }
}

impl HttpFailureKind {
    /// What a reader is told.
    pub open spec fn spec_describe(self) -> Seq<char> {
        match self {
            HttpFailureKind::FileNotFound => "File not found (404)"@,
            HttpFailureKind::MetadataError { status } => "Metadata fetch failed with status "@
                + decimal(status as nat),
            HttpFailureKind::UnexpectedStatus { status } => "Unexpected HTTP status "@ + decimal(
                status as nat,
            ) + " during download"@,
        }
    }

    /// What a reader is told.
    pub fn describe(&self) -> (r: String)
        ensures
            r@ == self.spec_describe(),
    {
        match self {
            HttpFailureKind::FileNotFound => "File not found (404)".to_owned(),
            HttpFailureKind::MetadataError { status } => {
                let mut s = "Metadata fetch failed with status ".to_owned();
                push_decimal(&mut s, *status as u64);
                s
            },
            HttpFailureKind::UnexpectedStatus { status } => {
                let mut s = "Unexpected HTTP status ".to_owned();
                push_decimal(&mut s, *status as u64);
                s.append(" during download");
                s
            },
        }
    }
}

impl PermanentFailureKind {
    /// What a reader is told.
    pub open spec fn spec_describe(self) -> Seq<char> {
        match self {
            PermanentFailureKind::Disk(_) => "Disk error"@,
            PermanentFailureKind::Http(kind) => kind.spec_describe(),
            PermanentFailureKind::TooManyRetries { attempts } => "Failed after "@ + decimal(
                attempts as nat,
            ) + " retries"@,
        }
    }

    /// What a reader is told.
    pub fn describe(&self) -> (r: String)
        ensures
            r@ == self.spec_describe(),
    {
        match self {
            PermanentFailureKind::Disk(_) => "Disk error".to_owned(),
            PermanentFailureKind::Http(kind) => kind.describe(),
            PermanentFailureKind::TooManyRetries { attempts } => {
                let mut s = "Failed after ".to_owned();
                push_decimal(&mut s, *attempts as u64);
                s.append(" retries");
                s
            },
        }
    }
}

impl PermanentFailure {
    /// What a reader is told: what was being tried, and why it was given up.
    pub fn describe(&self) -> (r: String)
        ensures
            r@ == self.operation.spec_describe() + ": "@ + self.kind.spec_describe(),
    {
        let mut s = self.operation.describe();
        s.append(": ");
        let kind = self.kind.describe();
        s.append(kind.as_str());
        s
    }
}

} // verus!
