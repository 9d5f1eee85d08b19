//! What can stop a run.

use vstd::prelude::*;

verus! {

/// The code that the transport reports for a failed remote operation.
#[derive(Debug, Clone, Copy, PartialEq, Eq, Structural)]
pub enum RemoteCode {
    /// A failure of the session itself.
    Session(i32),
    /// A failure reported by the remote file service.
    Sftp(i32),
}

/// Why a run stopped, or why a request was refused.
#[derive(Debug, Clone, Copy, PartialEq, Eq, Structural)]
pub enum SyncError {
    /// The session could not be established or authenticated.
    Connection,
    /// A local file or directory could not be read, written or examined.
    LocalIo,
    /// The manifest file is malformed.
    ManifestParse,
    /// The transport reported a failure that is not suppressed.
    RemoteOperation(RemoteCode),
    /// A table other than `folders` and `files` was named.
    InvalidNamespace,
    /// The path to synchronise names nothing that lies in a directory.
    InvalidSource,
    /// An outcome was reported that does not answer the action last asked for.
    UnexpectedEvent,
}

} // verus!
