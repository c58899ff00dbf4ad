//! One attempt with one account: what is sent, and what the answer means. Trying other accounts,
//! cancelling and handing on to the client are the host's.

pub mod laws;

use crate::catalog::{found, Catalog, Model, Protocol};
use crate::credential::{Credential, CredentialView, Tier};
use crate::error::{error, failure, ProviderError, ProviderErrorKind, UpstreamSendState};
use crate::identity::{Identity, IdentityView};
use crate::json::{view_string, view_text, Json};
use crate::operation::ProtocolPayload;
use crate::request::{encode, request_encoded};
use crate::text::{
    equal_but_case, number_read, read_number, same_but_case, same_text, split_at_first, split_once,
    trim, trimmed,
};
use crate::time::{Delay, Moment, NANOS_PER_SECOND};
use vstd::prelude::*;

verus! {

/// The version of the command line client that requests name themselves after. Whatever shows a
/// version shows this one.
pub const CLIENT_VERSION: &'static str = "1.18.31";

/// What kind of client requests name themselves.
pub const CLIENT_KIND: &'static str = "cli";

/// What the client's own libraries add to its user agent.
pub const SDK_USER_AGENT_SUFFIX: &'static str = "ai-sdk/provider-utils/4.0.23 runtime/bun/1.3.14";

/// How long to wait for a connection, in seconds.
pub const CONNECT_SECONDS: u64 = 30;

/// How long to wait for the session to be bound before the end is delivered, in seconds.
pub const BIND_SECONDS: u64 = 1;

/// How long an account cools down after it was asked too often, in seconds.
pub const RATE_LIMIT_COOLDOWN: u64 = 120;

/// How long an account cools down after another failure, in seconds.
pub const FAILURE_COOLDOWN: u64 = 60;

/// The user agent: the client's own part, then that of its libraries.
pub open spec fn user_agent_text() -> Seq<char> {
    "opencode/"@ + CLIENT_VERSION@ + " "@ + SDK_USER_AGENT_SUFFIX@
}

pub fn user_agent() -> (agent: String)
    ensures
        agent@ == user_agent_text(),
{
    let mut agent = "opencode/".to_owned();
    agent.append(CLIENT_VERSION);
    agent.append(" ");
    agent.append(SDK_USER_AGENT_SUFFIX);
    agent
}

/// Where the host sends requests to. It is the host's own and never comes with a request.
pub trait OpenCodeEndpointPolicy: Send + Sync {
    fn endpoint(&self, product: &str, path: &str) -> String;
}

/// The address of a path of a product; any product but Go is Zen.
pub open spec fn official_url(product: Seq<char>, path: Seq<char>) -> Seq<char> {
    (if product == "go"@ {
        "https://opencode.ai/zen/go/v1"@
    } else {
        "https://opencode.ai/zen/v1"@
    }) + "/"@ + path
}

/// The address that the official service has for a path of a product.
pub fn official_endpoint(product: &str, path: &str) -> (url: String)
    ensures
        url@ == official_url(product@, path@),
{
    let tier = if same_text(product, "go") {
        Tier::Go
    } else {
        Tier::Zen
    };
    let mut url = tier.base_url().to_owned();
    url.append("/");
    url.append(path);
    url
}

/// The official service.
pub struct OfficialEndpoints;

impl OpenCodeEndpointPolicy for OfficialEndpoints {
    fn endpoint(&self, product: &str, path: &str) -> (url: String)
        ensures
            url@ == official_url(product@, path@),
    {
        official_endpoint(product, path)
    }
}

/// Whether an address is one that the host's policy gives for a path of a product.
pub open spec fn is_endpoint<P: OpenCodeEndpointPolicy>(
    policy: P,
    product: Seq<char>,
    path: Seq<char>,
    url: String,
) -> bool {
    exists|p: &str, q: &str|
        p@ == product && q@ == path && #[trigger] call_ensures(P::endpoint, (&policy, p, q), url)
}

/// A header and its value.
pub struct Header {
    pub name: &'static str,
    pub value: String,
}

pub open spec fn headers_view(headers: Seq<Header>) -> Seq<(Seq<char>, Seq<char>)> {
    headers.map_values(|header: Header| (header.name@, header.value@))
}

pub fn push_header(headers: &mut Vec<Header>, name: &'static str, value: &str)
    ensures
        headers_view(final(headers)@) == headers_view(old(headers)@).push((name@, value@)),
{
    headers.push(Header { name, value: value.to_owned() });
    assert(headers_view(headers@) =~= headers_view(old(headers)@).push((name@, value@)));
}

/// The headers that every request has.
pub open spec fn common_headers(identity: IdentityView) -> Seq<(Seq<char>, Seq<char>)> {
    seq![
        ("accept"@, "text/event-stream"@),
        ("user-agent"@, user_agent_text()),
        ("x-opencode-client"@, CLIENT_KIND@),
        ("x-opencode-project"@, identity.project),
        ("x-opencode-session"@, identity.session),
        ("x-opencode-request"@, identity.request),
    ]
}

/// The headers of a request. The Messages protocol has the key in a header of its own.
pub open spec fn headers_of(
    identity: IdentityView,
    protocol: Protocol,
    api_key: Seq<char>,
) -> Seq<(Seq<char>, Seq<char>)> {
    let related = match identity.parent {
        Some(parent) => common_headers(identity).push(("x-parent-session-id"@, parent)),
        None => common_headers(identity),
    };
    if protocol == Protocol::Messages {
        related.push(("x-api-key"@, api_key)).push(("anthropic-version"@, "2023-06-01"@))
    } else {
        related
    }
}

/// What is sent upstream: the body as JSON, these headers, and the key as a bearer token where it
/// is no header of its own.
pub struct OutboundRequest {
    pub endpoint: String,
    pub body: Json,
    pub headers: Vec<Header>,
    pub bearer: Option<String>,
    pub protocol: Protocol,
}

fn make_headers(identity: &Identity, protocol: Protocol, api_key: &str) -> (headers: Vec<Header>)
    ensures
        headers_view(headers@) == headers_of(identity@, protocol, api_key@),
{
    let mut headers: Vec<Header> = Vec::new();
    assert(headers_view(headers@) =~= seq![]);
    push_header(&mut headers, "accept", "text/event-stream");
    push_header(&mut headers, "user-agent", user_agent().as_str());
    push_header(&mut headers, "x-opencode-client", CLIENT_KIND);
    push_header(&mut headers, "x-opencode-project", identity.project.as_str());
    push_header(&mut headers, "x-opencode-session", identity.session.as_str());
    push_header(&mut headers, "x-opencode-request", identity.request.as_str());
    assert(headers_view(headers@) =~= common_headers(identity@));
    if let Some(parent) = &identity.parent {
        push_header(&mut headers, "x-parent-session-id", parent.as_str());
    }
    if protocol == Protocol::Messages {
        push_header(&mut headers, "x-api-key", api_key);
        push_header(&mut headers, "anthropic-version", "2023-06-01");
    }
    headers
}

/// The model that a request is for, in the product of the account.
pub open spec fn model_read(models: Seq<Model>, tier: Tier, model_id: Option<Seq<char>>) -> Result<
    Model,
    ProviderErrorKind,
> {
    match model_id {
        None => Err(ProviderErrorKind::InvalidRequest),
        Some(id) => match found(models, tier, id) {
            Some(model) => Ok(model),
            None => Err(ProviderErrorKind::Unsupported),
        },
    }
}

pub fn model_for<'a>(catalog: &'a Catalog, tier: Tier, model_id: Option<&str>) -> (model: Result<
    &'a Model,
    ProviderError,
>)
    ensures
        match model_read(catalog.models@, tier, view_text(model_id)) {
            Ok(expected) => model == Ok::<&Model, ProviderError>(&expected),
            Err(kind) => model == Err::<&Model, ProviderError>(
                failure(kind, UpstreamSendState::NotSent),
            ),
        },
{
    let id = match model_id {
        Some(id) => id,
        None => return Err(error(ProviderErrorKind::InvalidRequest)),
    };
    match catalog.find(tier, id) {
        Some(model) => Ok(model),
        None => Err(error(ProviderErrorKind::Unsupported)),
    }
}

/// Whether an outcome is what is sent for a request to this model with this account, wherever it
/// is sent to.
pub open spec fn is_outbound(
    outcome: Result<OutboundRequest, ProviderError>,
    payload: ProtocolPayload,
    model: Model,
    identity: IdentityView,
    credential: CredentialView,
) -> bool {
    match request_encoded(payload.protocol@, payload.body@, model) {
        Ok(body) => {
            &&& outcome matches Ok(request)
            &&& request.body@ == body
            &&& request.protocol == model.protocol
            &&& headers_view(request.headers@) == headers_of(
                identity,
                model.protocol,
                credential.api_key,
            )
            &&& view_string(request.bearer) == (if model.protocol == Protocol::Messages {
                None
            } else {
                Some(credential.api_key)
            })
        },
        Err(kind) => outcome == Err::<OutboundRequest, ProviderError>(
            failure(kind, UpstreamSendState::NotSent),
        ),
    }
}

/// What to send for a request to this model with this account, at this address.
pub fn outbound(
    endpoint: String,
    payload: &ProtocolPayload,
    model: &Model,
    identity: &Identity,
    credential: &Credential,
) -> (request: Result<OutboundRequest, ProviderError>)
    ensures
        is_outbound(request, *payload, *model, identity@, credential@),
        request matches Ok(request) ==> request.endpoint == endpoint,
{
    let body = encode(payload, model)?;
    let headers = make_headers(identity, model.protocol, credential.api_key.as_str());
    let bearer = if model.protocol == Protocol::Messages {
        None
    } else {
        Some(credential.api_key.clone())
    };
    Ok(OutboundRequest { endpoint, body, headers, bearer, protocol: model.protocol })
}

/// How long is left until a deadline; nothing once it has passed.
pub fn time_left(deadline: Moment, now: Moment) -> (left: Result<Delay, ProviderError>)
    ensures
        match left {
            Ok(left) => deadline.instant() >= now.instant() && left.nanos == deadline.instant()
                - now.instant(),
            Err(error) => deadline.instant() < now.instant() && error == failure(
                ProviderErrorKind::Timeout,
                UpstreamSendState::NotSent,
            ),
        },
{
    match deadline.since(now) {
        Some(left) => Ok(left),
        None => Err(error(ProviderErrorKind::Timeout)),
    }
}

/// What a status that is no success says.
pub open spec fn refusal_kind(status: u16) -> ProviderErrorKind {
    if status == 401 {
        ProviderErrorKind::Unauthorized
    } else if status == 403 {
        ProviderErrorKind::PermissionDenied
    } else if status == 402 {
        ProviderErrorKind::QuotaExhausted
    } else if status == 429 {
        ProviderErrorKind::RateLimited
    } else if 500 <= status <= 599 {
        ProviderErrorKind::Unavailable
    } else {
        ProviderErrorKind::InvalidRequest
    }
}

/// Whether a refusal is about the account, so that another one may serve the same request.
pub open spec fn is_account_refusal(status: u16) -> bool {
    status == 401 || status == 402 || status == 403 || status == 429
}

/// Whether the account cools down after a refusal.
pub open spec fn cools_down(status: u16) -> bool {
    is_account_refusal(status) || 500 <= status <= 599
}

/// How long the account cools down: as long as the upstream says, else a fixed time.
pub open spec fn cooldown_of(status: u16, retry: Option<Delay>) -> Delay {
    match retry {
        Some(delay) => delay,
        None => Delay {
            nanos: ((if status == 429 {
                RATE_LIMIT_COOLDOWN
            } else {
                FAILURE_COOLDOWN
            }) * NANOS_PER_SECOND) as u128,
        },
    }
}

/// The error for a status that is no success.
pub open spec fn refusal_of(status: u16, retry: Option<Delay>) -> ProviderError {
    ProviderError {
        kind: refusal_kind(status),
        send_state: UpstreamSendState::Sent,
        status: Some(status),
        retry_after: retry,
        replay_safe: is_account_refusal(status),
    }
}

pub fn make_refusal(status: u16, retry: Option<Delay>) -> (refusal: ProviderError)
    ensures
        refusal == refusal_of(status, retry),
{
    let kind = if status == 401 {
        ProviderErrorKind::Unauthorized
    } else if status == 403 {
        ProviderErrorKind::PermissionDenied
    } else if status == 402 {
        ProviderErrorKind::QuotaExhausted
    } else if status == 429 {
        ProviderErrorKind::RateLimited
    } else if 500 <= status && status <= 599 {
        ProviderErrorKind::Unavailable
    } else {
        ProviderErrorKind::InvalidRequest
    };
    ProviderError {
        kind,
        send_state: UpstreamSendState::Sent,
        status: Some(status),
        retry_after: retry,
        replay_safe: status == 401 || status == 402 || status == 403 || status == 429,
    }
}

pub fn make_cooldown(status: u16, retry: Option<Delay>) -> (delay: Delay)
    ensures
        delay == cooldown_of(status, retry),
{
    match retry {
        Some(delay) => delay,
        None => Delay::from_seconds(
            if status == 429 {
                RATE_LIMIT_COOLDOWN
            } else {
                FAILURE_COOLDOWN
            },
        ),
    }
}

/// Until when an account cools down: for this long from now on, or until the deadline where that
/// moment cannot be told.
pub fn cooldown_until(now: Moment, delay: Delay, deadline: Moment) -> (until: Moment)
    ensures
        if (now.instant() + delay.nanos) / (NANOS_PER_SECOND as int) <= i64::MAX {
            until.instant() == now.instant() + delay.nanos
        } else {
            until == deadline
        },
{
    match now.plus(delay) {
        Some(until) => until,
        None => deadline,
    }
}

/// What a content type says before its parameters.
pub open spec fn media_type(value: Seq<char>) -> Seq<char> {
    trimmed(
        match split_at_first(value, ";"@) {
            Some((before, _)) => before,
            None => value,
        },
    )
}

pub open spec fn is_event_stream(content_type: Option<Seq<char>>) -> bool {
    content_type matches Some(value) && same_but_case(media_type(value), "text/event-stream"@)
}

/// Whether an answer is an event stream, whatever the parameters and the case.
pub fn event_stream(content_type: Option<&str>) -> (result: bool)
    ensures
        result == is_event_stream(view_text(content_type)),
{
    match content_type {
        Some(value) => match split_once(value, ";") {
            Some((before, _)) => equal_but_case(trim(before.as_str()).as_str(), "text/event-stream"),
            None => equal_but_case(trim(value).as_str(), "text/event-stream"),
        },
        None => false,
    }
}

/// The time that an HTTP date stands for, in seconds since the Unix epoch; `None` where it is
/// none.
pub uninterp spec fn http_date(text: Seq<char>) -> Option<u64>;

/// `httpdate::parse_http_date` either fails or gives the time that the text stands for, which is
/// in whole seconds, not before the Unix epoch, and depends on the text alone.
#[verifier::external_body]
fn parse_http_date(text: &str) -> (seconds: Option<u64>)
    ensures
        seconds == http_date(text@),
{
    let date = httpdate::parse_http_date(text).ok()?;
    Some(date.duration_since(std::time::UNIX_EPOCH).ok()?.as_secs())
}

/// How long to wait: a number of seconds, else the time until a date. Nothing where that is no
/// time at all.
pub open spec fn wait_of(number: Option<u64>, date: Option<u64>, now: Moment) -> Option<Delay> {
    match (number, date) {
        (Some(seconds), _) => if seconds == 0 {
            None
        } else {
            Some(Delay { nanos: (seconds * NANOS_PER_SECOND) as u128 })
        },
        (None, Some(seconds)) => if seconds * NANOS_PER_SECOND > now.instant() {
            Some(Delay { nanos: (seconds * NANOS_PER_SECOND - now.instant()) as u128 })
        } else {
            None
        },
        (None, None) => None,
    }
}

/// How long to wait, from the number or the date that a header was read as.
pub fn wait_from(number: Option<u64>, date: Option<u64>, now: Moment) -> (delay: Option<Delay>)
    ensures
        delay == wait_of(number, date, now),
{
    match number {
        Some(0) => None,
        Some(seconds) => Some(Delay::from_seconds(seconds)),
        None => match date {
            Some(seconds) => {
                let reached: i128 = now.seconds as i128 * 1_000_000_000 + now.nanos as i128;
                let due: i128 = seconds as i128 * 1_000_000_000;
                if due > reached {
                    Some(Delay { nanos: (due - reached) as u128 })
                } else {
                    None
                }
            },
            None => None,
        },
    }
}

/// How long the upstream asks to wait: a number of seconds or a date.
pub fn retry_after(value: &str, now: Moment) -> (delay: Option<Delay>)
    ensures
        delay == wait_of(number_read(value@), http_date(value@), now),
{
    wait_from(read_number(value), parse_http_date(value), now)
}

/// The official policy sends requests to the official service and nowhere else.
pub proof fn lemma_official_endpoint(product: Seq<char>, path: Seq<char>, url: String)
    requires
        is_endpoint(OfficialEndpoints, product, path, url),
    ensures
        url@ == official_url(product, path),
{
}

} // verus!
