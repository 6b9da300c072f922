//! The error type shared by the services.

use vstd::prelude::*;
use crate::tenant_core::{tenant_error_message, TenantError};
use crate::text::{append_str, owned, str_eq};

verus! {

/// Why a service refused an input or stopped.
#[derive(Debug, Clone, PartialEq, Eq)]
pub enum NebulaError {
    /// A store, bus, model or client supplied by the caller reported a failure.
    Port(String),
    /// An event arrived on a topic that the service does not consume.
    UnsupportedTopic(String),
    /// A payload could not be decoded.
    InvalidPayload(String),
    /// A value could not be encoded.
    Encoding(String),
    /// A requested count was zero.
    ZeroCount,
    /// A raw tenant id could not be resolved.
    Tenant(TenantError),
    /// A tenant id was not a valid UUID.
    InvalidTenantId(String),
    /// The tenant dataset already holds its row quota.
    QuotaExceeded,
    /// A masking rule's pattern is not a valid regular expression; holds the
    /// rule name and the `regex` crate's account of the fault.
    InvalidPattern(String, String),
    /// A document's MIME type is not supported; holds the MIME type.
    UnsupportedMimeType(String),
    /// A document declared as UTF-8 text is not valid UTF-8; holds the
    /// standard library's account of the fault.
    InvalidUtf8(String),
    /// A document held no extractable text.
    EmptyDocument,
    /// The chosen answer contains a term that a constitution rule forbids; holds the rule id.
    ConstitutionViolation(String),
    /// A response held no fenced code block.
    NoCodeBlock,
    /// A code block held no structural feature.
    NoStructuralFeatures,
    /// A gRPC frame is shorter than its five-byte header.
    InvalidGrpcFrame,
    /// A gRPC frame's payload is shorter than its declared length.
    TruncatedGrpcFrame,
    /// No failed prompt was available for validation.
    NoFailedPrompts,
    /// The source artifact is empty.
    EmptyArtifact,
    /// A markdown document produced no chunk.
    NoSemanticChunks,
    /// A batch limit of zero was requested.
    ZeroBatchLimit,
    /// The marker of a generated file is missing; holds the marker.
    MissingBlock(String),
    /// The opening fence after a marker is missing; holds the marker.
    MissingOpeningFence(String),
    /// The closing fence after a marker is missing; holds the marker.
    MissingClosingFence(String),
}

/// The human-readable message of an error. The refusals that the services
/// word themselves carry their wording; an error reported by a port, a
/// payload, an encoder, the `regex` crate or the UTF-8 decoder carries the
/// text it was given; a tenant id that is not a UUID is named.
pub open spec fn error_message(e: NebulaError) -> Seq<char> {
    match e {
        NebulaError::Port(m) => m@,
        NebulaError::UnsupportedTopic(t) => "unsupported topic: "@ + t@,
        NebulaError::InvalidPayload(m) => m@,
        NebulaError::Encoding(m) => m@,
        NebulaError::ZeroCount => "curriculum count must be greater than zero"@,
        NebulaError::Tenant(t) => tenant_error_message(t),
        NebulaError::InvalidTenantId(t) => "invalid tenant id: "@ + t@,
        NebulaError::QuotaExceeded => "tenant dataset quota exceeded"@,
        NebulaError::InvalidPattern(_, detail) => detail@,
        NebulaError::UnsupportedMimeType(m) => "unsupported document mime type: "@ + m@,
        NebulaError::InvalidUtf8(detail) => detail@,
        NebulaError::EmptyDocument => "document did not contain extractable text"@,
        NebulaError::ConstitutionViolation(id) => "chosen answer violates constitution rule "@ + id@,
        NebulaError::NoCodeBlock => "no code block found"@,
        NebulaError::NoStructuralFeatures => "no structural features found"@,
        NebulaError::InvalidGrpcFrame => "invalid gRPC frame"@,
        NebulaError::TruncatedGrpcFrame => "truncated gRPC frame"@,
        NebulaError::NoFailedPrompts => "no failed prompts available for validation"@,
        NebulaError::EmptyArtifact => "source artifact is empty"@,
        NebulaError::NoSemanticChunks => "markdown did not produce semantic chunks"@,
        NebulaError::ZeroBatchLimit => "batch limit must be greater than zero"@,
        NebulaError::MissingBlock(m) => "missing "@ + m@ + " block"@,
        NebulaError::MissingOpeningFence(m) => "missing opening fence for "@ + m@,
        NebulaError::MissingClosingFence(m) => "missing closing fence for "@ + m@,
    }
}

/// The message `prefix` followed by `tail`.
fn prefixed(prefix: &str, tail: &str) -> (m: String)
    ensures
        m@ == prefix@ + tail@,
{
    let mut m = owned(prefix);
    append_str(&mut m, tail);
    m
}

impl NebulaError {
    /// The human-readable message of the error.
    pub fn message(&self) -> (m: String)
        ensures
            m@ == error_message(*self),
    {
        match self {
            NebulaError::Port(m) => m.clone(),
            NebulaError::UnsupportedTopic(t) => prefixed("unsupported topic: ", t.as_str()),
            NebulaError::InvalidPayload(m) => m.clone(),
            NebulaError::Encoding(m) => m.clone(),
            NebulaError::ZeroCount => owned("curriculum count must be greater than zero"),
            NebulaError::Tenant(t) => t.message(),
            NebulaError::InvalidTenantId(t) => prefixed("invalid tenant id: ", t.as_str()),
            NebulaError::QuotaExceeded => owned("tenant dataset quota exceeded"),
            NebulaError::InvalidPattern(_, detail) => detail.clone(),
            NebulaError::UnsupportedMimeType(m) => prefixed(
                "unsupported document mime type: ",
                m.as_str(),
            ),
            NebulaError::InvalidUtf8(detail) => detail.clone(),
            NebulaError::EmptyDocument => owned("document did not contain extractable text"),
            NebulaError::ConstitutionViolation(id) => prefixed(
                "chosen answer violates constitution rule ",
                id.as_str(),
            ),
            NebulaError::NoCodeBlock => owned("no code block found"),
            NebulaError::NoStructuralFeatures => owned("no structural features found"),
            NebulaError::InvalidGrpcFrame => owned("invalid gRPC frame"),
            NebulaError::TruncatedGrpcFrame => owned("truncated gRPC frame"),
            NebulaError::NoFailedPrompts => owned("no failed prompts available for validation"),
            NebulaError::EmptyArtifact => owned("source artifact is empty"),
            NebulaError::NoSemanticChunks => owned("markdown did not produce semantic chunks"),
            NebulaError::ZeroBatchLimit => owned("batch limit must be greater than zero"),
            NebulaError::MissingBlock(m) => {
                let mut out = prefixed("missing ", m.as_str());
                append_str(&mut out, " block");
                out
            },
            NebulaError::MissingOpeningFence(m) => prefixed("missing opening fence for ", m.as_str()),
            NebulaError::MissingClosingFence(m) => prefixed("missing closing fence for ", m.as_str()),
        }
    }
}

/// Accepts an event's topic when it is the one a service consumes; refuses
/// any other with `UnsupportedTopic`, holding the topic.
pub fn require_topic(topic: &str, expected: &str) -> (r: Result<(), NebulaError>)
    ensures
        r is Ok <==> topic@ == expected@,
        !(r is Ok) ==> (r matches Err(NebulaError::UnsupportedTopic(t)) && t@ == topic@),
{
    if str_eq(topic, expected) {
        Ok(())
    } else {
        Err(NebulaError::UnsupportedTopic(owned(topic)))
    }
}

} // verus!
