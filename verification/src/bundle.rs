//! What the host's assembly holds of this provider.

use crate::catalog::{by_identifier, lists_models, protocol_path, Capabilities, Catalog};
use crate::credential::{tier_name, Credential};
use crate::error::{failure, ProviderError, UpstreamSendState};
use crate::identity::Identity;
use crate::json::view_text;
use crate::operation::ProtocolPayload;
use crate::provider::{
    headers_view, is_endpoint, is_outbound, model_for, model_read, outbound, OfficialEndpoints,
    OpenCodeEndpointPolicy, OutboundRequest,
};
use crate::quota::{usage_headers, usage_request, UsageRequest, USAGE_PATH};
use crate::workers::{is_recheck_task, worker_contributions, WorkerContribution};
use std::sync::Arc;
use vstd::prelude::*;

verus! {

/// The provider's name.
pub const KIND: &'static str = "opencode";

/// The provider could not be set up. It holds neither credentials nor requests.
#[derive(Debug, Clone, Copy, PartialEq, Eq, Structural)]
pub struct OpenCodeInitializeError;

impl OpenCodeInitializeError {
    pub fn message(self) -> (text: &'static str)
        ensures
            text@ == "OpenCode provider initialization failed"@,
    {
        "OpenCode provider initialization failed"
    }
}

/// The data side: which models there are, and what is sent for a request.
pub struct OpenCodeProvider<P: OpenCodeEndpointPolicy> {
    pub kind: String,
    pub catalog: Arc<Catalog>,
    pub endpoints: Arc<P>,
}

/// The administration side.
pub struct OpenCodeAdmin<P: OpenCodeEndpointPolicy> {
    pub kind: String,
    pub catalog: Arc<Catalog>,
    pub endpoints: Arc<P>,
}

pub struct ProviderBundle<P: OpenCodeEndpointPolicy> {
    pub provider: Arc<OpenCodeProvider<P>>,
    pub admin: Arc<OpenCodeAdmin<P>>,
    pub worker_contributions: Vec<WorkerContribution>,
}

impl<P: OpenCodeEndpointPolicy> OpenCodeProvider<P> {
    pub fn name(&self) -> (name: &'static str)
        ensures
            name@ == KIND@,
    {
        KIND
    }

    /// The catalog comes with the release and never changes.
    pub fn catalog_generation(&self) -> (generation: u64)
        ensures
            generation == 1,
    {
        1
    }

    pub fn query_model_capabilities(&self) -> (entries: Vec<Capabilities>)
        ensures
            by_identifier(entries@),
            lists_models(entries@, self.catalog.models@),
    {
        self.catalog.capabilities()
    }

    /// What to send for a request with this credential, at the address that the host's policy
    /// gives for the product and the protocol.
    pub fn prepare(
        &self,
        payload: &ProtocolPayload,
        model_id: Option<&str>,
        identity: &Identity,
        credential: &Credential,
    ) -> (request: Result<OutboundRequest, ProviderError>)
        ensures
            match model_read(self.catalog.models@, credential.tier, view_text(model_id)) {
                Ok(model) => is_outbound(request, *payload, model, identity@, credential@)
                    && (request matches Ok(request) ==> is_endpoint(
                    *self.endpoints,
                    tier_name(credential.tier),
                    protocol_path(model.protocol),
                    request.endpoint,
                )),
                Err(kind) => request == Err::<OutboundRequest, ProviderError>(
                    failure(kind, UpstreamSendState::NotSent),
                ),
            },
    {
        let model = model_for(&self.catalog, credential.tier, model_id)?;
        let product = credential.tier.as_str();
        let path = model.protocol.path();
        let endpoint = self.endpoints.endpoint(product, path);
        assert(is_endpoint(*self.endpoints, product@, path@, endpoint));
        outbound(endpoint, payload, model, identity, credential)
    }
}

impl<P: OpenCodeEndpointPolicy> OpenCodeAdmin<P> {
    /// What to send for the usage report of an account, at the address that the host's policy
    /// gives for its product.
    pub fn prepare_usage(&self, account_id: &str, credential: &Credential) -> (request:
        UsageRequest)
        ensures
            is_endpoint(
                *self.endpoints,
                tier_name(credential.tier),
                USAGE_PATH@,
                request.endpoint,
            ),
            headers_view(request.headers@) == usage_headers(account_id@),
            request.bearer@ == credential.api_key@,
    {
        let product = credential.tier.as_str();
        let endpoint = self.endpoints.endpoint(product, USAGE_PATH);
        assert(is_endpoint(*self.endpoints, product@, USAGE_PATH@, endpoint));
        usage_request(endpoint, account_id, credential.api_key.as_str())
    }
}

/// Whether a bundle is set up over this catalog and these endpoints.
pub open spec fn is_set_up<P: OpenCodeEndpointPolicy>(
    bundle: ProviderBundle<P>,
    catalog: Catalog,
    endpoints: P,
) -> bool {
    &&& bundle.provider.kind@ == KIND@
    &&& bundle.admin.kind@ == KIND@
    &&& *bundle.provider.catalog == catalog
    &&& *bundle.admin.catalog == catalog
    &&& *bundle.provider.endpoints == endpoints
    &&& *bundle.admin.endpoints == endpoints
    &&& bundle.worker_contributions@.len() == 1
    &&& is_recheck_task(bundle.worker_contributions@[0], KIND@)
}

/// Sets the provider up with the official endpoints, if the catalog could be read.
pub fn initialize(catalog: Option<Catalog>) -> (bundle: Result<
    ProviderBundle<OfficialEndpoints>,
    OpenCodeInitializeError,
>)
    ensures
        match (catalog, bundle) {
            (Some(catalog), Ok(bundle)) => is_set_up(bundle, catalog, OfficialEndpoints),
            (None, Err(_)) => true,
            _ => false,
        },
{
    initialize_with_endpoint_policy(catalog, OfficialEndpoints)
}

/// Sets the provider up with the host's endpoints, which both sides share.
pub fn initialize_with_endpoint_policy<P: OpenCodeEndpointPolicy>(
    catalog: Option<Catalog>,
    endpoints: P,
) -> (bundle: Result<ProviderBundle<P>, OpenCodeInitializeError>)
    ensures
        match (catalog, bundle) {
            (Some(catalog), Ok(bundle)) => is_set_up(bundle, catalog, endpoints),
            (None, Err(_)) => true,
            _ => false,
        },
{
    let catalog = match catalog {
        Some(catalog) => Arc::new(catalog),
        None => return Err(OpenCodeInitializeError),
    };
    let endpoints = Arc::new(endpoints);
    let provider = OpenCodeProvider {
        kind: KIND.to_owned(),
        catalog: catalog.clone(),
        endpoints: endpoints.clone(),
    };
    let admin = OpenCodeAdmin { kind: KIND.to_owned(), catalog, endpoints };
    Ok(
        ProviderBundle {
            provider: Arc::new(provider),
            admin: Arc::new(admin),
            worker_contributions: worker_contributions(KIND),
        },
    )
}

impl<P: OpenCodeEndpointPolicy> ProviderBundle<P> {
    pub fn core_provider(&self) -> (provider: Arc<OpenCodeProvider<P>>)
        ensures
            provider == self.provider,
    {
        self.provider.clone()
    }

    pub fn admin_provider(&self) -> (admin: Arc<OpenCodeAdmin<P>>)
        ensures
            admin == self.admin,
    {
        self.admin.clone()
    }

    /// Hands out the background tasks, which can be done once.
    pub fn take_worker_contributions(&mut self) -> (tasks: Vec<WorkerContribution>)
        ensures
            tasks@ == old(self).worker_contributions@,
            final(self).worker_contributions@.len() == 0,
            final(self).provider == old(self).provider,
            final(self).admin == old(self).admin,
    {
        let mut tasks: Vec<WorkerContribution> = Vec::new();
        tasks.append(&mut self.worker_contributions);
        assert(tasks@ =~= old(self).worker_contributions@);
        tasks
    }
}

} // verus!
