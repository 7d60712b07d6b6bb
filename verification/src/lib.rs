//! A content-addressed snapshot engine for workspace directories.
//!
//! Every distinct file and directory of a workspace is stored once under its
//! 256-bit fingerprint. Snapshots can be listed and restored, and two stores
//! can be reconciled over a framed, message-oriented channel. The library
//! works on in-memory images of the repository and of the workspace; reading
//! and writing the disk and the network is left to the caller.
//!
//! - [`model`], [`hex`], [`digest`], [`json`]: the stored objects, their
//!   fingerprints and their canonical form.
//! - [`codec`]: the compressed form of file content.
//! - [`fs`]: the repository, its lock, its store, commit and checkout.
//! - [`packet`]: packets and files on the channel.
//! - [`sync`], [`exchange`], [`cli::transport`], [`server`]: the two sides
//!   of a synchronization; [`convergence`]: what a synchronization achieves.
//! - [`cli`]: what the commands of the front end decide.

use vstd::prelude::*;

pub mod bytes;
pub mod cli;
pub mod codec;
pub mod convergence;
pub mod digest;
pub mod exchange;
pub mod fs;
pub mod hex;
pub mod json;
pub mod lookup;
pub mod model;
pub mod packet;
pub mod server;
pub mod sync;
pub mod text;

verus! {

/// Errors of the engine and of its front end.
#[derive(Debug)]
pub enum WsvcError {
    /// The repository or its store failed.
    FsError(fs::WsvcFsError),
    /// A configuration file could not be read as such.
    ConfigDeserializeFailed(String),
    /// A configuration could not be written out.
    ConfigSerializeFailed(String),
    /// The caller asked for something that makes no sense.
    BadUsage(String),
    /// The repository is not in a state for the operation.
    RepoError(String),
    /// A configuration entry is missing: the key, then a hint.
    LackOfConfig(String, String),
    /// The operation needs a setting that the user has not made yet.
    NeedConfiguring(String),
    /// A message of the peer could not be read or written as JSON.
    SerializationError(String),
    /// The channel failed.
    NetworkError(String),
    /// A frame of the peer breaks the protocol.
    DataError(String),
    /// Text that is no valid UTF-8.
    CodecError(String),
    /// A received object does not have the fingerprint it came under.
    ChecksumMismatch(String),
    /// There is no snapshot where one is needed.
    EmptyRepoError,
}

/// What a [`WsvcError`] holds, with texts as character sequences.
pub enum WsvcErrorView {
    FsError(fs::WsvcFsErrorView),
    ConfigDeserializeFailed(Seq<char>),
    ConfigSerializeFailed(Seq<char>),
    BadUsage(Seq<char>),
    RepoError(Seq<char>),
    LackOfConfig(Seq<char>, Seq<char>),
    NeedConfiguring(Seq<char>),
    SerializationError(Seq<char>),
    NetworkError(Seq<char>),
    DataError(Seq<char>),
    CodecError(Seq<char>),
    ChecksumMismatch(Seq<char>),
    EmptyRepoError,
}

impl View for WsvcError {
    type V = WsvcErrorView;

    open spec fn view(&self) -> WsvcErrorView {
        match self {
            WsvcError::FsError(e) => WsvcErrorView::FsError(e@),
            WsvcError::ConfigDeserializeFailed(m) => WsvcErrorView::ConfigDeserializeFailed(m@),
            WsvcError::ConfigSerializeFailed(m) => WsvcErrorView::ConfigSerializeFailed(m@),
            WsvcError::BadUsage(m) => WsvcErrorView::BadUsage(m@),
            WsvcError::RepoError(m) => WsvcErrorView::RepoError(m@),
            WsvcError::LackOfConfig(k, h) => WsvcErrorView::LackOfConfig(k@, h@),
            WsvcError::NeedConfiguring(m) => WsvcErrorView::NeedConfiguring(m@),
            WsvcError::SerializationError(m) => WsvcErrorView::SerializationError(m@),
            WsvcError::NetworkError(m) => WsvcErrorView::NetworkError(m@),
            WsvcError::DataError(m) => WsvcErrorView::DataError(m@),
            WsvcError::CodecError(m) => WsvcErrorView::CodecError(m@),
            WsvcError::ChecksumMismatch(m) => WsvcErrorView::ChecksumMismatch(m@),
            WsvcError::EmptyRepoError => WsvcErrorView::EmptyRepoError,
        }
    }
}

/// The ten kinds of failure that the engine knows.
#[derive(Clone, Copy, Debug, PartialEq, Eq, Structural)]
pub enum ErrorKind {
    /// The file system or the channel failed.
    Io,
    /// An object named by its fingerprint is not in the store.
    NotFound,
    /// An object is not what its fingerprint says, or cannot be decoded.
    Corrupt,
    /// The caller asked for something that makes no sense.
    BadUsage,
    /// A commit of a workspace that has not changed.
    NoChange,
    /// Another session holds the repository.
    Locked,
    /// A repository is there already.
    Exists,
    /// A frame or a message breaks the protocol.
    Protocol,
    /// A received object does not have the fingerprint it came under.
    ChecksumMismatch,
    /// There is no snapshot where one is needed.
    EmptyRepo,
}

/// The kind of an error of the repository.
pub open spec fn fs_error_kind(e: fs::WsvcFsErrorView) -> ErrorKind {
    match e {
        fs::WsvcFsErrorView::Os(_) => ErrorKind::Io,
        fs::WsvcFsErrorView::DecompressFailed(fault) => if fault
            == codec::ChunkFault::ChunkTooLarge {
            ErrorKind::Io
        } else {
            ErrorKind::Corrupt
        },
        fs::WsvcFsErrorView::UnknownPath(_) => ErrorKind::BadUsage,
        fs::WsvcFsErrorView::InvalidHexString(_) => ErrorKind::Corrupt,
        fs::WsvcFsErrorView::SerializationFailed(_) => ErrorKind::Corrupt,
        fs::WsvcFsErrorView::InvalidFilename(_) => ErrorKind::Io,
        fs::WsvcFsErrorView::InvalidOsString(_) => ErrorKind::Io,
        fs::WsvcFsErrorView::DirAlreadyExists(_) => ErrorKind::Exists,
        fs::WsvcFsErrorView::NoChanges(_) => ErrorKind::NoChange,
        fs::WsvcFsErrorView::WorkspaceLocked => ErrorKind::Locked,
        fs::WsvcFsErrorView::NotFound(_) => ErrorKind::NotFound,
        fs::WsvcFsErrorView::Corrupt(_) => ErrorKind::Corrupt,
    }
}

/// The kind of an error of the engine.
pub open spec fn error_kind(e: WsvcErrorView) -> ErrorKind {
    match e {
        WsvcErrorView::FsError(inner) => fs_error_kind(inner),
        WsvcErrorView::ConfigDeserializeFailed(_) => ErrorKind::BadUsage,
        WsvcErrorView::ConfigSerializeFailed(_) => ErrorKind::BadUsage,
        WsvcErrorView::BadUsage(_) => ErrorKind::BadUsage,
        WsvcErrorView::RepoError(_) => ErrorKind::BadUsage,
        WsvcErrorView::LackOfConfig(_, _) => ErrorKind::BadUsage,
        WsvcErrorView::NeedConfiguring(_) => ErrorKind::BadUsage,
        WsvcErrorView::SerializationError(_) => ErrorKind::Protocol,
        WsvcErrorView::NetworkError(_) => ErrorKind::Io,
        WsvcErrorView::DataError(_) => ErrorKind::Protocol,
        WsvcErrorView::CodecError(_) => ErrorKind::Protocol,
        WsvcErrorView::ChecksumMismatch(_) => ErrorKind::ChecksumMismatch,
        WsvcErrorView::EmptyRepoError => ErrorKind::EmptyRepo,
    }
}

impl fs::WsvcFsError {
    /// The kind of the error.
    pub fn kind(&self) -> (kind: ErrorKind)
        ensures
            kind == fs_error_kind(self@),
    {
        match self {
            fs::WsvcFsError::Os(_) => ErrorKind::Io,
            fs::WsvcFsError::DecompressFailed(fault) => match fault {
                codec::ChunkFault::ChunkTooLarge => ErrorKind::Io,
                _ => ErrorKind::Corrupt,
            },
            fs::WsvcFsError::UnknownPath(_) => ErrorKind::BadUsage,
            fs::WsvcFsError::InvalidHexString(_) => ErrorKind::Corrupt,
            fs::WsvcFsError::SerializationFailed(_) => ErrorKind::Corrupt,
            fs::WsvcFsError::InvalidFilename(_) => ErrorKind::Io,
            fs::WsvcFsError::InvalidOsString(_) => ErrorKind::Io,
            fs::WsvcFsError::DirAlreadyExists(_) => ErrorKind::Exists,
            fs::WsvcFsError::NoChanges(_) => ErrorKind::NoChange,
            fs::WsvcFsError::WorkspaceLocked => ErrorKind::Locked,
            fs::WsvcFsError::NotFound(_) => ErrorKind::NotFound,
            fs::WsvcFsError::Corrupt(_) => ErrorKind::Corrupt,
        }
    }
}

impl WsvcError {
    /// The kind of the error.
    pub fn kind(&self) -> (kind: ErrorKind)
        ensures
            kind == error_kind(self@),
    {
        match self {
            WsvcError::FsError(inner) => inner.kind(),
            WsvcError::ConfigDeserializeFailed(_) => ErrorKind::BadUsage,
            WsvcError::ConfigSerializeFailed(_) => ErrorKind::BadUsage,
            WsvcError::BadUsage(_) => ErrorKind::BadUsage,
            WsvcError::RepoError(_) => ErrorKind::BadUsage,
            WsvcError::LackOfConfig(_, _) => ErrorKind::BadUsage,
            WsvcError::NeedConfiguring(_) => ErrorKind::BadUsage,
            WsvcError::SerializationError(_) => ErrorKind::Protocol,
            WsvcError::NetworkError(_) => ErrorKind::Io,
            WsvcError::DataError(_) => ErrorKind::Protocol,
            WsvcError::CodecError(_) => ErrorKind::Protocol,
            WsvcError::ChecksumMismatch(_) => ErrorKind::ChecksumMismatch,
            WsvcError::EmptyRepoError => ErrorKind::EmptyRepo,
        }
    }
}

impl server::WsvcServerError {
    /// The kind of the error.
    pub fn kind(&self) -> (kind: ErrorKind)
        ensures
            kind == match self@ {
                server::WsvcServerErrorView::WsvcError(inner) => error_kind(inner),
                server::WsvcServerErrorView::SerializationError(_) => ErrorKind::Protocol,
                server::WsvcServerErrorView::NetworkError(_) => ErrorKind::Io,
                server::WsvcServerErrorView::DataError(_) => ErrorKind::Protocol,
            },
    {
        match self {
            server::WsvcServerError::WsvcError(inner) => inner.kind(),
            server::WsvcServerError::SerializationError(_) => ErrorKind::Protocol,
            server::WsvcServerError::NetworkError(_) => ErrorKind::Io,
            server::WsvcServerError::DataError(_) => ErrorKind::Protocol,
        }
    }
}

} // verus!
