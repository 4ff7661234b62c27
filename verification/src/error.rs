//! Errors of the directory, naming and configuration logic.
use vstd::prelude::*;

use crate::directory::entry::ExchangeKind;
use crate::text::{decimal, duration_text, duration_to_text, u64_to_decimal};

verus! {

/// Result type for `agentio` operations.
pub type Result<T> = core::result::Result<T, Error>;

/// Errors encountered within `agentio`.
#[derive(Debug, Clone, PartialEq, Eq)]
pub enum Error {
    /// Underlying peerbus failure, by its message.
    Peerbus(String),
    /// Identity loading or persistence failure.
    Identity(String),
    /// Invalid builder configuration.
    Configuration(String),
    /// DID conversion or validation failure.
    DidKey(String),
    /// Topic resolution failure.
    ResolutionFailed(String),
    /// Directory control-plane failure.
    ControlPlane(String),
    /// Invalid owner signature.
    InvalidSignature { topic: String },
    /// Record lease has expired.
    ExpiredRecord { topic: String },
    /// Different live owners claimed the same topic and exchange.
    OwnershipConflict { topic: String },
    /// Unsupported directory wire version.
    UnsupportedProtocol(u16),
    /// Signed record uses the wrong directory operation domain.
    InvalidDirectoryOperation { topic: String },
    /// Resolved record uses a different exchange family.
    ExchangeMismatch { topic: String, expected: ExchangeKind, actual: ExchangeKind },
    /// Resolved record uses different wire types.
    TypeMismatch { topic: String },
    /// Directory batch or message exceeds its configured boundary.
    BatchTooLarge { actual: usize, maximum: usize },
    /// Record or withdrawal revision is older than current state.
    StaleRevision { topic: String },
    /// Distinct signed records use the same owner revision.
    RevisionConflict { topic: String },
    /// Directory changed while a stable page sequence was in progress.
    SnapshotChanged { expected: u64, actual: u64 },
    /// Caller-visible control operation exceeded its deadline, in milliseconds.
    ControlTimeout { millis: u64 },
    /// Topic path is not valid or normalized.
    InvalidTopic { topic: String, reason: String },
    /// Filesystem or operating-system I/O failure, by its message.
    Io(String),
    /// Postcard wire encoding or decoding failure, by its message.
    Postcard(String),
    /// Text formatting failure.
    Format(String),
}

/// The mathematical content of an [`Error`]: every text field by its characters.
pub enum ErrorView {
    Peerbus(Seq<char>),
    Identity(Seq<char>),
    Configuration(Seq<char>),
    DidKey(Seq<char>),
    ResolutionFailed(Seq<char>),
    ControlPlane(Seq<char>),
    InvalidSignature { topic: Seq<char> },
    ExpiredRecord { topic: Seq<char> },
    OwnershipConflict { topic: Seq<char> },
    UnsupportedProtocol(u16),
    InvalidDirectoryOperation { topic: Seq<char> },
    ExchangeMismatch { topic: Seq<char>, expected: ExchangeKind, actual: ExchangeKind },
    TypeMismatch { topic: Seq<char> },
    BatchTooLarge { actual: usize, maximum: usize },
    StaleRevision { topic: Seq<char> },
    RevisionConflict { topic: Seq<char> },
    SnapshotChanged { expected: u64, actual: u64 },
    ControlTimeout { millis: u64 },
    InvalidTopic { topic: Seq<char>, reason: Seq<char> },
    Io(Seq<char>),
    Postcard(Seq<char>),
    Format(Seq<char>),
}

impl View for Error {
    type V = ErrorView;

    open spec fn view(&self) -> ErrorView {
        match self {
            Error::Peerbus(s) => ErrorView::Peerbus(s@),
            Error::Identity(s) => ErrorView::Identity(s@),
            Error::Configuration(s) => ErrorView::Configuration(s@),
            Error::DidKey(s) => ErrorView::DidKey(s@),
            Error::ResolutionFailed(s) => ErrorView::ResolutionFailed(s@),
            Error::ControlPlane(s) => ErrorView::ControlPlane(s@),
            Error::InvalidSignature { topic } => ErrorView::InvalidSignature { topic: topic@ },
            Error::ExpiredRecord { topic } => ErrorView::ExpiredRecord { topic: topic@ },
            Error::OwnershipConflict { topic } => ErrorView::OwnershipConflict { topic: topic@ },
            Error::UnsupportedProtocol(v) => ErrorView::UnsupportedProtocol(*v),
            Error::InvalidDirectoryOperation { topic } => ErrorView::InvalidDirectoryOperation {
                topic: topic@,
            },
            Error::ExchangeMismatch { topic, expected, actual } => ErrorView::ExchangeMismatch {
                topic: topic@,
                expected: *expected,
                actual: *actual,
            },
            Error::TypeMismatch { topic } => ErrorView::TypeMismatch { topic: topic@ },
            Error::BatchTooLarge { actual, maximum } => ErrorView::BatchTooLarge {
                actual: *actual,
                maximum: *maximum,
            },
            Error::StaleRevision { topic } => ErrorView::StaleRevision { topic: topic@ },
            Error::RevisionConflict { topic } => ErrorView::RevisionConflict { topic: topic@ },
            Error::SnapshotChanged { expected, actual } => ErrorView::SnapshotChanged {
                expected: *expected,
                actual: *actual,
            },
            Error::ControlTimeout { millis } => ErrorView::ControlTimeout { millis: *millis },
            Error::InvalidTopic { topic, reason } => ErrorView::InvalidTopic {
                topic: topic@,
                reason: reason@,
            },
            Error::Io(s) => ErrorView::Io(s@),
            Error::Postcard(s) => ErrorView::Postcard(s@),
            Error::Format(s) => ErrorView::Format(s@),
        }
    }
}

/// The name std's `Debug` gives an exchange family.
pub open spec fn exchange_name(e: ExchangeKind) -> Seq<char> {
    match e {
        ExchangeKind::PubSub => "PubSub"@,
        ExchangeKind::ReqRes => "ReqRes"@,
        ExchangeKind::QueAns => "QueAns"@,
        ExchangeKind::PutAck => "PutAck"@,
        ExchangeKind::Pip => "Pip"@,
    }
}

/// The exchange family name as a `String`.
pub fn exchange_name_string(e: ExchangeKind) -> (s: String)
    ensures
        s@ == exchange_name(e),
{
    match e {
        ExchangeKind::PubSub => String::from_str("PubSub"),
        ExchangeKind::ReqRes => String::from_str("ReqRes"),
        ExchangeKind::QueAns => String::from_str("QueAns"),
        ExchangeKind::PutAck => String::from_str("PutAck"),
        ExchangeKind::Pip => String::from_str("Pip"),
    }
}

/// The human-readable text of an error.
pub open spec fn error_message(e: ErrorView) -> Seq<char> {
    match e {
        ErrorView::Peerbus(s) => "peerbus error: "@ + s,
        ErrorView::Identity(s) => "identity error: "@ + s,
        ErrorView::Configuration(s) => "configuration error: "@ + s,
        ErrorView::DidKey(s) => "did:key error: "@ + s,
        ErrorView::ResolutionFailed(s) => "resolution failed: "@ + s,
        ErrorView::ControlPlane(s) => "control-plane error: "@ + s,
        ErrorView::InvalidSignature { topic } => "invalid signature for directory record '"@
            + topic + "'"@,
        ErrorView::ExpiredRecord { topic } => "directory record '"@ + topic + "' has expired"@,
        ErrorView::OwnershipConflict { topic } => "live ownership conflict for topic '"@ + topic
            + "'"@,
        ErrorView::UnsupportedProtocol(v) => "unsupported directory protocol version "@ + decimal(
            v as nat,
        ),
        ErrorView::InvalidDirectoryOperation { topic } => "invalid directory operation for topic '"@
            + topic + "'"@,
        ErrorView::ExchangeMismatch { topic, expected, actual } => "exchange mismatch for '"@
            + topic + "': expected "@ + exchange_name(expected) + ", got "@ + exchange_name(
            actual,
        ),
        ErrorView::TypeMismatch { topic } => "wire type mismatch for directory record '"@ + topic
            + "'"@,
        ErrorView::BatchTooLarge { actual, maximum } => "directory batch contains "@ + decimal(
            actual as nat,
        ) + " entries; maximum is "@ + decimal(maximum as nat),
        ErrorView::StaleRevision { topic } => "stale directory revision for topic '"@ + topic
            + "'"@,
        ErrorView::RevisionConflict { topic } =>
            "conflicting directory records use the same revision for topic '"@ + topic + "'"@,
        ErrorView::SnapshotChanged { expected, actual } =>
            "directory snapshot changed from generation "@ + decimal(expected as nat) + " to "@
                + decimal(actual as nat),
        ErrorView::ControlTimeout { millis } => "control-plane operation timed out after "@
            + duration_text(millis as nat),
        ErrorView::InvalidTopic { topic, reason } => "invalid topic path '"@ + topic + "': "@
            + reason,
        ErrorView::Io(s) => "I/O error: "@ + s,
        ErrorView::Postcard(s) => "postcard serialization error: "@ + s,
        ErrorView::Format(s) => "formatting error: "@ + s,
    }
}

impl Error {
    /// The human-readable text of this error (what `to_string` gives in the
    /// application layer).
    pub fn message(&self) -> (s: String)
        ensures
            s@ == error_message(self@),
    {
        match self {
            Error::Peerbus(s) => String::from_str("peerbus error: ").concat(s.as_str()),
            Error::Identity(s) => String::from_str("identity error: ").concat(s.as_str()),
            Error::Configuration(s) => String::from_str("configuration error: ").concat(s.as_str()),
            Error::DidKey(s) => String::from_str("did:key error: ").concat(s.as_str()),
            Error::ResolutionFailed(s) => String::from_str("resolution failed: ").concat(s.as_str()),
            Error::ControlPlane(s) => String::from_str("control-plane error: ").concat(s.as_str()),
            Error::InvalidSignature { topic } => String::from_str(
                "invalid signature for directory record '",
            ).concat(topic.as_str()).concat("'"),
            Error::ExpiredRecord { topic } => String::from_str("directory record '").concat(
                topic.as_str(),
            ).concat("' has expired"),
            Error::OwnershipConflict { topic } => String::from_str(
                "live ownership conflict for topic '",
            ).concat(topic.as_str()).concat("'"),
            Error::UnsupportedProtocol(v) => {
                let d = u64_to_decimal(*v as u64);
                String::from_str("unsupported directory protocol version ").concat(d.as_str())
            },
            Error::InvalidDirectoryOperation { topic } => String::from_str(
                "invalid directory operation for topic '",
            ).concat(topic.as_str()).concat("'"),
            Error::ExchangeMismatch { topic, expected, actual } => {
                let e = exchange_name_string(*expected);
                let a = exchange_name_string(*actual);
                String::from_str("exchange mismatch for '").concat(topic.as_str()).concat(
                    "': expected ",
                ).concat(e.as_str()).concat(", got ").concat(a.as_str())
            },
            Error::TypeMismatch { topic } => String::from_str(
                "wire type mismatch for directory record '",
            ).concat(topic.as_str()).concat("'"),
            Error::BatchTooLarge { actual, maximum } => {
                let a = u64_to_decimal(*actual as u64);
                let m = u64_to_decimal(*maximum as u64);
                String::from_str("directory batch contains ").concat(a.as_str()).concat(
                    " entries; maximum is ",
                ).concat(m.as_str())
            },
            Error::StaleRevision { topic } => String::from_str(
                "stale directory revision for topic '",
            ).concat(topic.as_str()).concat("'"),
            Error::RevisionConflict { topic } => String::from_str(
                "conflicting directory records use the same revision for topic '",
            ).concat(topic.as_str()).concat("'"),
            Error::SnapshotChanged { expected, actual } => {
                let e = u64_to_decimal(*expected);
                let a = u64_to_decimal(*actual);
                String::from_str("directory snapshot changed from generation ").concat(
                    e.as_str(),
                ).concat(" to ").concat(a.as_str())
            },
            Error::ControlTimeout { millis } => {
                let m = duration_to_text(*millis);
                String::from_str("control-plane operation timed out after ").concat(m.as_str())
            },
            Error::InvalidTopic { topic, reason } => String::from_str("invalid topic path '").concat(
                topic.as_str(),
            ).concat("': ").concat(reason.as_str()),
            Error::Io(s) => String::from_str("I/O error: ").concat(s.as_str()),
            Error::Postcard(s) => String::from_str("postcard serialization error: ").concat(
                s.as_str(),
            ),
            Error::Format(s) => String::from_str("formatting error: ").concat(s.as_str()),
        }
    }
}

} // verus!
