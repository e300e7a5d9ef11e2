//! Failures, their kinds, and what the caller is told of them.
//!
//! Whatever goes wrong while a request is served is one `Failure`. Each failure is of
//! exactly one kind, and the kind and the stage at which it arose decide the status
//! code and the text that the caller is sent.

use vstd::prelude::*;
use vstd::string::StringExecFns;

verus! {

/// The kinds of failure that the service tells apart.
#[derive(Debug, Clone, Copy, PartialEq, Eq, Structural)]
pub enum FailureKind {
    /// The request body cannot be taken for a sketch at all.
    MalformedInput,
    /// The sketch cannot be brought to the resolution at which the service compares.
    IncompatibleSketch,
    /// No comparison could be attempted.
    IncomparableQuery,
    /// Too many requests are being served.
    Overloaded,
    /// The request took longer than it may.
    TimedOut,
    /// Anything else.
    InternalError,
}

/// What went wrong while a request was served.
#[derive(Debug, Clone, PartialEq, Eq)]
pub enum Failure {
    /// The body is larger than the service accepts.
    PayloadTooLarge,
    /// The body could not be decoded, or it holds no sketch; the text says which.
    MalformedInput(String),
    /// The sketch could not be reprojected; the text says why.
    IncompatibleSketch(String),
    /// The query holds no sketch that the indices can be asked about.
    IncomparableQuery,
    /// The search itself failed; the text says how.
    SearchFailed(String),
    /// A static asset could not be read; the text says why.
    StaticAsset(String),
    /// The request was shed.
    Overloaded,
    /// The request ran out of time.
    TimedOut,
    /// A failure of no other description; the text describes it.
    Unhandled(String),
}

/// The status code of a request that was served.
pub const STATUS_OK: u16 = 200;

/// The status code for input that the service cannot use.
pub const STATUS_BAD_REQUEST: u16 = 400;

/// The status code for a request that ran out of time.
pub const STATUS_REQUEST_TIMEOUT: u16 = 408;

/// The status code for a body that is too large.
pub const STATUS_PAYLOAD_TOO_LARGE: u16 = 413;

/// The status code for a failure that is the service's own.
pub const STATUS_INTERNAL_SERVER_ERROR: u16 = 500;

/// The status code for a request that was shed.
pub const STATUS_SERVICE_UNAVAILABLE: u16 = 503;

/// The kind that a failure is of.
pub open spec fn kind_of(failure: Failure) -> FailureKind {
    match failure {
        Failure::PayloadTooLarge => FailureKind::MalformedInput,
        Failure::MalformedInput(_) => FailureKind::MalformedInput,
        Failure::IncompatibleSketch(_) => FailureKind::IncompatibleSketch,
        Failure::IncomparableQuery => FailureKind::IncomparableQuery,
        Failure::SearchFailed(_) => FailureKind::InternalError,
        Failure::StaticAsset(_) => FailureKind::InternalError,
        Failure::Overloaded => FailureKind::Overloaded,
        Failure::TimedOut => FailureKind::TimedOut,
        Failure::Unhandled(_) => FailureKind::InternalError,
    }
}

/// The status code that a failure is answered with.
pub open spec fn status_of(failure: Failure) -> u16 {
    match failure {
        Failure::PayloadTooLarge => STATUS_PAYLOAD_TOO_LARGE,
        _ => match kind_of(failure) {
            FailureKind::MalformedInput => STATUS_BAD_REQUEST,
            FailureKind::IncompatibleSketch => STATUS_BAD_REQUEST,
            FailureKind::IncomparableQuery => STATUS_INTERNAL_SERVER_ERROR,
            FailureKind::Overloaded => STATUS_SERVICE_UNAVAILABLE,
            FailureKind::TimedOut => STATUS_REQUEST_TIMEOUT,
            FailureKind::InternalError => STATUS_INTERNAL_SERVER_ERROR,
        },
    }
}

/// The text that a failure is answered with.
pub open spec fn message_of(failure: Failure) -> Seq<char> {
    match failure {
        Failure::PayloadTooLarge => "Request payload is too large"@,
        Failure::MalformedInput(detail) => "Error parsing signature: "@ + detail@,
        Failure::IncompatibleSketch(detail) => "Error parsing signature: "@ + detail@,
        Failure::IncomparableQuery => "Something went wrong: "@
            + "Could not extract compatible sketch to compare"@,
        Failure::SearchFailed(detail) => "Something went wrong: "@ + detail@,
        Failure::StaticAsset(detail) => "Unhandled static serve error: "@ + detail@,
        Failure::Overloaded => "service is overloaded, try again later"@,
        Failure::TimedOut => "request timed out"@,
        Failure::Unhandled(detail) => "Unhandled internal error: "@ + detail@,
    }
}

impl Failure {
    /// The kind of this failure.
    pub fn kind(&self) -> (kind: FailureKind)
        ensures
            kind == kind_of(*self),
    {
        match self {
            Failure::PayloadTooLarge => FailureKind::MalformedInput,
            Failure::MalformedInput(_) => FailureKind::MalformedInput,
            Failure::IncompatibleSketch(_) => FailureKind::IncompatibleSketch,
            Failure::IncomparableQuery => FailureKind::IncomparableQuery,
            Failure::SearchFailed(_) => FailureKind::InternalError,
            Failure::StaticAsset(_) => FailureKind::InternalError,
            Failure::Overloaded => FailureKind::Overloaded,
            Failure::TimedOut => FailureKind::TimedOut,
            Failure::Unhandled(_) => FailureKind::InternalError,
        }
    }

    /// The status code for this failure.
    pub fn status(&self) -> (status: u16)
        ensures
            status == status_of(*self),
    {
        match self {
            Failure::PayloadTooLarge => STATUS_PAYLOAD_TOO_LARGE,
            _ => match self.kind() {
                FailureKind::MalformedInput => STATUS_BAD_REQUEST,
                FailureKind::IncompatibleSketch => STATUS_BAD_REQUEST,
                FailureKind::IncomparableQuery => STATUS_INTERNAL_SERVER_ERROR,
                FailureKind::Overloaded => STATUS_SERVICE_UNAVAILABLE,
                FailureKind::TimedOut => STATUS_REQUEST_TIMEOUT,
                FailureKind::InternalError => STATUS_INTERNAL_SERVER_ERROR,
            },
        }
    }

    /// The text for this failure.
    pub fn message(&self) -> (message: String)
        ensures
            message@ == message_of(*self),
    {
        match self {
            Failure::PayloadTooLarge => "Request payload is too large".to_owned(),
            Failure::MalformedInput(detail) => "Error parsing signature: ".to_owned().concat(
                detail.as_str(),
            ),
            Failure::IncompatibleSketch(detail) => "Error parsing signature: ".to_owned().concat(
                detail.as_str(),
            ),
            Failure::IncomparableQuery => "Something went wrong: ".to_owned().concat(
                "Could not extract compatible sketch to compare",
            ),
            Failure::SearchFailed(detail) => "Something went wrong: ".to_owned().concat(
                detail.as_str(),
            ),
            Failure::StaticAsset(detail) => "Unhandled static serve error: ".to_owned().concat(
                detail.as_str(),
            ),
            Failure::Overloaded => "service is overloaded, try again later".to_owned(),
            Failure::TimedOut => "request timed out".to_owned(),
            Failure::Unhandled(detail) => "Unhandled internal error: ".to_owned().concat(
                detail.as_str(),
            ),
        }
    }
}

/// Every kind has its status code: a client error for the two kinds that the input is to
/// blame for, a code of its own for each other kind, and success for none.
pub proof fn law_status_by_kind(failure: Failure)
    ensures
        kind_of(failure) == FailureKind::MalformedInput ==> status_of(failure) == 400 || status_of(
            failure,
        ) == 413,
        kind_of(failure) == FailureKind::IncompatibleSketch ==> status_of(failure) == 400,
        kind_of(failure) == FailureKind::IncomparableQuery ==> status_of(failure) == 500,
        kind_of(failure) == FailureKind::InternalError ==> status_of(failure) == 500,
        kind_of(failure) == FailureKind::TimedOut ==> status_of(failure) == 408,
        kind_of(failure) == FailureKind::Overloaded ==> status_of(failure) == 503,
        status_of(failure) != STATUS_OK,
{
}

} // verus!
