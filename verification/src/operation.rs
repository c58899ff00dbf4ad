//! What a client asks for.

use crate::error::{error, failure, ProviderError, ProviderErrorKind, UpstreamSendState};
use crate::json::JsonObject;
use vstd::prelude::*;

verus! {

/// A request in a protocol of the client's side: its body, and what the host knows of where it
/// comes from.
#[derive(Debug, PartialEq)]
pub struct ProtocolPayload {
    pub protocol: String,
    pub body: JsonObject,
    pub context: JsonObject,
}

/// What a client asks a provider to do.
#[derive(Debug, PartialEq)]
pub enum Operation {
    Generate(ProtocolPayload),
    /// Anything else, by its name.
    Other(String),
}

impl Operation {
    /// The request to generate an answer, which is all that this provider does.
    pub fn generate(&self) -> (payload: Result<&ProtocolPayload, ProviderError>)
        ensures
            match *self {
                Operation::Generate(expected) => payload == Ok::<&ProtocolPayload, ProviderError>(
                    &expected,
                ),
                Operation::Other(_) => payload == Err::<&ProtocolPayload, ProviderError>(
                    failure(ProviderErrorKind::Unsupported, UpstreamSendState::NotSent),
                ),
            },
    {
        match self {
            Operation::Generate(payload) => Ok(payload),
            Operation::Other(_) => Err(error(ProviderErrorKind::Unsupported)),
        }
    }
}

} // verus!
