//! What a failed attempt reports.

use crate::time::Delay;
use vstd::prelude::*;

verus! {

#[derive(Debug, Clone, Copy, PartialEq, Eq, Structural)]
pub enum ProviderErrorKind {
    Protocol,
    Unsupported,
    InvalidRequest,
    Timeout,
    Cancelled,
    Transport,
    Unauthorized,
    PermissionDenied,
    QuotaExhausted,
    RateLimited,
    Unavailable,
    NoEligibleAccount,
    AccountCapacityUnavailable,
    ProviderInfrastructureUnavailable,
}

/// Whether the request has reached the upstream.
#[derive(Debug, Clone, Copy, PartialEq, Eq, Structural)]
pub enum UpstreamSendState {
    NotSent,
    Sent,
    Ambiguous,
}

/// A failed attempt: what went wrong, whether the upstream has seen the request, the status that
/// it answered with, how long to wait, and whether the request may be repeated elsewhere. It
/// holds neither credentials nor upstream text.
#[derive(Debug, Clone, Copy, PartialEq, Eq)]
pub struct ProviderError {
    pub kind: ProviderErrorKind,
    pub send_state: UpstreamSendState,
    pub status: Option<u16>,
    pub retry_after: Option<Delay>,
    pub replay_safe: bool,
}

/// A bare failure: a kind and a send state, and nothing more.
pub open spec fn failure(kind: ProviderErrorKind, send_state: UpstreamSendState) -> ProviderError {
    ProviderError { kind, send_state, status: None, retry_after: None, replay_safe: false }
}

impl ProviderError {
    pub fn new(kind: ProviderErrorKind, send_state: UpstreamSendState) -> (error: ProviderError)
        ensures
            error == failure(kind, send_state),
    {
        ProviderError { kind, send_state, status: None, retry_after: None, replay_safe: false }
    }
}

/// A failure before anything was sent.
pub fn error(kind: ProviderErrorKind) -> (error: ProviderError)
    ensures
        error == failure(kind, UpstreamSendState::NotSent),
{
    ProviderError::new(kind, UpstreamSendState::NotSent)
}

/// A port of the host failed before anything was sent.
pub fn infrastructure() -> (error: ProviderError)
    ensures
        error == failure(
            ProviderErrorKind::ProviderInfrastructureUnavailable,
            UpstreamSendState::NotSent,
        ),
{
    error(ProviderErrorKind::ProviderInfrastructureUnavailable)
}

/// The upstream's answer breaks its protocol.
pub open spec fn broken_protocol() -> ProviderError {
    failure(ProviderErrorKind::Protocol, UpstreamSendState::Sent)
}

pub fn protocol() -> (error: ProviderError)
    ensures
        error == broken_protocol(),
{
    ProviderError::new(ProviderErrorKind::Protocol, UpstreamSendState::Sent)
}

/// What kind of failure an administrator sees.
#[derive(Debug, Clone, Copy, PartialEq, Eq, Structural)]
pub enum AdminErrorKind {
    Invalid,
    NotFound,
    Unavailable,
    Conflict,
    Unsupported,
}

/// A failed administration, with a fixed message where one may be shown. It holds neither
/// credentials nor upstream text.
#[derive(Debug, Clone, Copy, PartialEq, Eq)]
pub struct AdminError {
    pub kind: AdminErrorKind,
    pub public_message: Option<&'static str>,
}

/// A failure of this kind without a message.
pub open spec fn admin_failure(kind: AdminErrorKind) -> AdminError {
    AdminError { kind, public_message: None }
}

impl AdminError {
    pub fn new(kind: AdminErrorKind) -> (error: AdminError)
        ensures
            error == admin_failure(kind),
    {
        AdminError { kind, public_message: None }
    }

    pub fn with_public_message(self, message: &'static str) -> (error: AdminError)
        ensures
            error.kind == self.kind,
            error.public_message matches Some(given) && given@ == message@,
    {
        AdminError { kind: self.kind, public_message: Some(message) }
    }
}

/// What was given cannot be used.
pub fn invalid() -> (error: AdminError)
    ensures
        error == admin_failure(AdminErrorKind::Invalid),
{
    AdminError::new(AdminErrorKind::Invalid)
}

} // verus!
