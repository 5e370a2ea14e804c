//! The errors of the file system.

use vstd::prelude::*;

verus! {

/// Why a file system operation failed.
#[derive(Debug, Clone, Copy, Eq, PartialEq, Hash, Structural)]
pub enum Error {
    NotFound,
    PermissionDenied,
    ConnectionRefused,
    ConnectionReset,
    ConnectionAborted,
    NotConnected,
    AddrInUse,
    AddrNotAvailable,
    BrokenPipe,
    AlreadyExists,
    WouldBlock,
    InvalidInput,
    InvalidData,
    TimedOut,
    WriteZero,
    Interrupted,
    Other,
    UnexpectedEof,
    Uncategorized,
    MountFailed,
    UnexpectedFileType,
    InvalidPathTraversal,
}

impl Error {
    /// The name of the error.
    pub open spec fn variant_name(self) -> Seq<char> {
        match self {
            Error::NotFound => "NotFound"@,
            Error::PermissionDenied => "PermissionDenied"@,
            Error::ConnectionRefused => "ConnectionRefused"@,
            Error::ConnectionReset => "ConnectionReset"@,
            Error::ConnectionAborted => "ConnectionAborted"@,
            Error::NotConnected => "NotConnected"@,
            Error::AddrInUse => "AddrInUse"@,
            Error::AddrNotAvailable => "AddrNotAvailable"@,
            Error::BrokenPipe => "BrokenPipe"@,
            Error::AlreadyExists => "AlreadyExists"@,
            Error::WouldBlock => "WouldBlock"@,
            Error::InvalidInput => "InvalidInput"@,
            Error::InvalidData => "InvalidData"@,
            Error::TimedOut => "TimedOut"@,
            Error::WriteZero => "WriteZero"@,
            Error::Interrupted => "Interrupted"@,
            Error::Other => "Other"@,
            Error::UnexpectedEof => "UnexpectedEof"@,
            Error::Uncategorized => "Uncategorized"@,
            Error::MountFailed => "MountFailed"@,
            Error::UnexpectedFileType => "UnexpectedFileType"@,
            Error::InvalidPathTraversal => "InvalidPathTraversal"@,
        }
    }

    /// The name of the error.
    pub fn name(&self) -> (text: &'static str)
        ensures
            text@ == self.variant_name(),
    {
        match self {
            Error::NotFound => "NotFound",
            Error::PermissionDenied => "PermissionDenied",
            Error::ConnectionRefused => "ConnectionRefused",
            Error::ConnectionReset => "ConnectionReset",
            Error::ConnectionAborted => "ConnectionAborted",
            Error::NotConnected => "NotConnected",
            Error::AddrInUse => "AddrInUse",
            Error::AddrNotAvailable => "AddrNotAvailable",
            Error::BrokenPipe => "BrokenPipe",
            Error::AlreadyExists => "AlreadyExists",
            Error::WouldBlock => "WouldBlock",
            Error::InvalidInput => "InvalidInput",
            Error::InvalidData => "InvalidData",
            Error::TimedOut => "TimedOut",
            Error::WriteZero => "WriteZero",
            Error::Interrupted => "Interrupted",
            Error::Other => "Other",
            Error::UnexpectedEof => "UnexpectedEof",
            Error::Uncategorized => "Uncategorized",
            Error::MountFailed => "MountFailed",
            Error::UnexpectedFileType => "UnexpectedFileType",
            Error::InvalidPathTraversal => "InvalidPathTraversal",
        }
    }

    /// The message that goes with the error.
    pub open spec fn message(self) -> Seq<char> {
        match self {
            Error::NotFound => "entity not found"@,
            Error::PermissionDenied => "permission denied"@,
            Error::ConnectionRefused => "connection refused"@,
            Error::ConnectionReset => "connection reset"@,
            Error::ConnectionAborted => "connection aborted"@,
            Error::NotConnected => "not connected"@,
            Error::AddrInUse => "address in use"@,
            Error::AddrNotAvailable => "address not available"@,
            Error::BrokenPipe => "broken pipe"@,
            Error::AlreadyExists => "entity already exists"@,
            Error::WouldBlock => "operation would block"@,
            Error::InvalidInput => "invalid input parameter"@,
            Error::InvalidData => "invalid data"@,
            Error::TimedOut => "timed out"@,
            Error::WriteZero => "write zero"@,
            Error::Interrupted => "operation interrupted"@,
            Error::Other => "other os error"@,
            Error::UnexpectedEof => "unexpected end of file"@,
            Error::Uncategorized => "uncategorized"@,
            Error::MountFailed => "filesystem mount failed"@,
            Error::UnexpectedFileType => "unexpected filesystem entry type"@,
            Error::InvalidPathTraversal => "path leads out of the filesystem"@,
        }
    }

    /// The message that goes with the error.
    pub fn as_str(&self) -> (text: &'static str)
        ensures
            text@ == self.message(),
    {
        match self {
            Error::NotFound => "entity not found",
            Error::PermissionDenied => "permission denied",
            Error::ConnectionRefused => "connection refused",
            Error::ConnectionReset => "connection reset",
            Error::ConnectionAborted => "connection aborted",
            Error::NotConnected => "not connected",
            Error::AddrInUse => "address in use",
            Error::AddrNotAvailable => "address not available",
            Error::BrokenPipe => "broken pipe",
            Error::AlreadyExists => "entity already exists",
            Error::WouldBlock => "operation would block",
            Error::InvalidInput => "invalid input parameter",
            Error::InvalidData => "invalid data",
            Error::TimedOut => "timed out",
            Error::WriteZero => "write zero",
            Error::Interrupted => "operation interrupted",
            Error::Other => "other os error",
            Error::UnexpectedEof => "unexpected end of file",
            Error::Uncategorized => "uncategorized",
            Error::MountFailed => "filesystem mount failed",
            Error::UnexpectedFileType => "unexpected filesystem entry type",
            Error::InvalidPathTraversal => "path leads out of the filesystem",
        }
    }
}

} // verus!
