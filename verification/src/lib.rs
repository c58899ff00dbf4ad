//! OpenCode Zen / Go provider logic.
pub mod admin;
pub mod attempt;
pub mod bundle;
pub mod catalog;
pub mod credential;
pub mod error;
pub mod event;
pub mod identity;
pub mod json;
pub mod operation;
pub mod provider;
pub mod quota;
pub mod quota_query;
pub mod request;
pub mod response;
pub mod selection;
pub mod stream;
pub mod text;
pub mod time;
pub mod workers;

pub use bundle::{
    initialize, initialize_with_endpoint_policy, OpenCodeAdmin, OpenCodeInitializeError,
    OpenCodeProvider, ProviderBundle,
};
pub use provider::OpenCodeEndpointPolicy;
