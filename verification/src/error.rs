//! Errors surfaced while resolving the peer roster.

use std::path::PathBuf;

use vstd::prelude::*;

verus! {

#[verifier::external_type_specification]
#[verifier::external_body]
pub struct ExPathBuf(PathBuf);

#[verifier::external_type_specification]
#[verifier::external_body]
pub struct ExIoError(std::io::Error);

#[verifier::external_type_specification]
#[verifier::external_body]
pub struct ExJsonError(serde_json::Error);

#[verifier::external_type_specification]
#[verifier::external_body]
#[verifier::reject_recursive_types(Kind)]
pub struct ExNatsError<Kind>(async_nats::error::Error<Kind>) where
    Kind: Clone + core::fmt::Debug + core::fmt::Display + PartialEq;

#[verifier::external_type_specification]
#[verifier::external_body]
pub struct ExCreateKeyValueErrorKind(async_nats::jetstream::context::CreateKeyValueErrorKind);

#[verifier::external_type_specification]
#[verifier::external_body]
pub struct ExWatchErrorKind(async_nats::jetstream::kv::WatchErrorKind);

#[verifier::external_type_specification]
#[verifier::external_body]
pub struct ExWatcherErrorKind(async_nats::jetstream::kv::WatcherErrorKind);

#[verifier::external_type_specification]
#[verifier::external_body]
pub struct ExEntryErrorKind(async_nats::jetstream::kv::EntryErrorKind);

#[verifier::external_type_specification]
#[verifier::external_body]
pub struct ExPutErrorKind(async_nats::jetstream::kv::PutErrorKind);

/// Errors surfaced while resolving the peer roster.
///
/// Each variant keeps the underlying error as its `source`, so the caller,
/// not the library, decides what is fatal.
#[derive(Debug)]
#[allow(inconsistent_fields)]
pub enum PeerError {
    /// The text is not a valid peer id (expected `<index>-<uuid>`).
    InvalidPeerId(String),
    /// The key-value bucket could not be opened.
    OpenBucket {
        bucket: String,
        source: async_nats::jetstream::context::CreateKeyValueError,
    },
    /// The keys of the bucket could not be listed.
    ListKeys { bucket: String, source: async_nats::jetstream::kv::HistoryError },
    /// Streaming the keys of the bucket failed part way.
    StreamKeys { bucket: String, source: async_nats::jetstream::kv::WatcherError },
    /// One key could not be read.
    ReadKey { key: String, source: async_nats::jetstream::kv::EntryError },
    /// One key could not be written.
    WriteKey { key: String, source: async_nats::jetstream::kv::PutError },
    /// The roster file could not be read.
    ReadFile { path: PathBuf, source: std::io::Error },
    /// The roster file could not be written.
    WriteFile { path: PathBuf, source: std::io::Error },
    /// The roster file does not hold a peer list.
    ParseFile { path: PathBuf, source: serde_json::Error },
    /// The peer list could not be serialized.
    Serialize(serde_json::Error),
}

} // verus!
