//! What is sent with a request, and what a refusal means.

use crate::catalog::{found_from, is_entry, protocol_path, Model, Protocol};
use crate::credential::{tier_name, CredentialView, Tier};
use crate::error::{ProviderError, ProviderErrorKind, UpstreamSendState};
use crate::identity::IdentityView;
use crate::json::view_string;
use crate::operation::ProtocolPayload;
use crate::provider::{
    cooldown_of, cools_down, headers_of, headers_view, is_event_stream, is_outbound, media_type,
    model_read, official_url, refusal_of, user_agent_text, wait_of, OutboundRequest,
};
use crate::request::request_encoded;
use crate::text::laws::{lemma_trimmed_end, lemma_trimmed_start};
use crate::text::{
    ascii_lower, is_white_space, lemma_occurrence, occurrence_from, occurs_at, same_but_case, trimmed,
};
use crate::time::{Delay, Moment};
use vstd::prelude::*;

verus! {

/// Whether headers hold one of this name, and with this value only.
pub open spec fn sends(
    headers: Seq<(Seq<char>, Seq<char>)>,
    name: Seq<char>,
    value: Seq<char>,
) -> bool {
    &&& exists|i: int| 0 <= i < headers.len() && #[trigger] headers[i] == (name, value)
    &&& forall|i: int|
        0 <= i < headers.len() && (#[trigger] headers[i]).0 == name ==> headers[i].1 == value
}

/// Whether headers hold none of this name.
pub open spec fn leaves_out(headers: Seq<(Seq<char>, Seq<char>)>, name: Seq<char>) -> bool {
    forall|i: int| 0 <= i < headers.len() ==> (#[trigger] headers[i]).0 != name
}

proof fn lemma_header_names()
    ensures
        "accept"@.len() == 6,
        "user-agent"@.len() == 10,
        "x-opencode-client"@.len() == 17,
        "anthropic-version"@.len() == 17,
        "x-opencode-client"@ != "anthropic-version"@,
        "x-opencode-project"@.len() == 18,
        "x-opencode-session"@.len() == 18,
        "x-opencode-request"@.len() == 18,
        "x-opencode-project"@ != "x-opencode-session"@,
        "x-opencode-project"@ != "x-opencode-request"@,
        "x-opencode-session"@ != "x-opencode-request"@,
        "x-parent-session-id"@.len() == 19,
        "x-api-key"@.len() == 9,
{
    reveal_strlit("accept");
    reveal_strlit("user-agent");
    reveal_strlit("x-opencode-client");
    reveal_strlit("anthropic-version");
    reveal_strlit("x-opencode-project");
    reveal_strlit("x-opencode-session");
    reveal_strlit("x-opencode-request");
    reveal_strlit("x-parent-session-id");
    reveal_strlit("x-api-key");
    assert("x-opencode-client"@[0] != "anthropic-version"@[0]);
    assert("x-opencode-project"@[11] == 'p');
    assert("x-opencode-session"@[11] == 's');
    assert("x-opencode-request"@[11] == 'r');
}

/// Every request names its project, its session and itself by the names that it goes under, and
/// the session that it comes from only where there is one; it asks for an event stream and names
/// the client.
pub proof fn lemma_request_is_named(identity: IdentityView, protocol: Protocol, api_key: Seq<char>)
    ensures
        ({
            let headers = headers_of(identity, protocol, api_key);
            &&& sends(headers, "accept"@, "text/event-stream"@)
            &&& sends(headers, "x-opencode-client"@, "cli"@)
            &&& sends(headers, "x-opencode-project"@, identity.project)
            &&& sends(headers, "x-opencode-session"@, identity.session)
            &&& sends(headers, "x-opencode-request"@, identity.request)
            &&& sends(headers, "user-agent"@, user_agent_text())
            &&& match identity.parent {
                Some(parent) => sends(headers, "x-parent-session-id"@, parent),
                None => leaves_out(headers, "x-parent-session-id"@),
            }
        }),
{
    lemma_header_names();
    let headers = headers_of(identity, protocol, api_key);
    assert(headers[0] == ("accept"@, "text/event-stream"@));
    assert(headers[1] == ("user-agent"@, user_agent_text()));
    assert(headers[2] == ("x-opencode-client"@, "cli"@));
    assert(headers[3] == ("x-opencode-project"@, identity.project));
    assert(headers[4] == ("x-opencode-session"@, identity.session));
    assert(headers[5] == ("x-opencode-request"@, identity.request));
    if let Some(parent) = identity.parent {
        assert(headers[6] == ("x-parent-session-id"@, parent));
    }
}

/// What is sent is what the request is translated to, towards the model's own protocol, and with
/// the account's key and no other: as a bearer token, or in the Messages protocol in a header of
/// its own next to the version; never both.
pub proof fn lemma_key_goes_one_way(
    outcome: Result<OutboundRequest, ProviderError>,
    payload: ProtocolPayload,
    model: Model,
    identity: IdentityView,
    credential: CredentialView,
)
    requires
        is_outbound(outcome, payload, model, identity, credential),
    ensures
        match request_encoded(payload.protocol@, payload.body@, model) {
            Err(kind) => outcome matches Err(error) && error.kind == kind && error.send_state
                == UpstreamSendState::NotSent && !error.replay_safe,
            Ok(body) => outcome matches Ok(request) && {
                let headers = headers_view(request.headers@);
                &&& request.body@ == body
                &&& request.protocol == model.protocol
                &&& if model.protocol == Protocol::Messages {
                    &&& request.bearer is None
                    &&& sends(headers, "x-api-key"@, credential.api_key)
                    &&& sends(headers, "anthropic-version"@, "2023-06-01"@)
                } else {
                    &&& view_string(request.bearer) == Some(credential.api_key)
                    &&& leaves_out(headers, "x-api-key"@)
                    &&& leaves_out(headers, "anthropic-version"@)
                }
            },
        },
{
    lemma_header_names();
    let headers = headers_of(identity, model.protocol, credential.api_key);
    if model.protocol == Protocol::Messages {
        let at = headers.len() - 2;
        assert(headers[at] == ("x-api-key"@, credential.api_key));
        assert(headers[at + 1] == ("anthropic-version"@, "2023-06-01"@));
    }
}

/// What each status that is no success means: whether the account is refused, and so another one
/// may be tried, and how it is reported; and that the request was seen.
pub proof fn lemma_refusals_by_status(status: u16, retry: Option<Delay>)
    ensures
        ({
            let error = refusal_of(status, retry);
            &&& error.kind == ProviderErrorKind::Unauthorized <==> status == 401
            &&& error.kind == ProviderErrorKind::QuotaExhausted <==> status == 402
            &&& error.kind == ProviderErrorKind::PermissionDenied <==> status == 403
            &&& error.kind == ProviderErrorKind::RateLimited <==> status == 429
            &&& error.kind == ProviderErrorKind::Unavailable <==> 500 <= status < 600
            &&& error.kind == ProviderErrorKind::InvalidRequest <==> !(status == 401 || status
                == 402 || status == 403 || status == 429 || 500 <= status < 600)
            &&& error.replay_safe <==> (status == 401 || status == 402 || status == 403 || status
                == 429)
            &&& error.send_state == UpstreamSendState::Sent
            &&& error.status == Some(status)
            &&& error.retry_after == retry
            &&& cools_down(status) <==> (status == 401 || status == 402 || status == 403 || status
                == 429 || 500 <= status < 600)
        }),
{
}

/// An account is put aside for as long as the upstream asks for; without that for two minutes
/// where it was asked too often, and for one minute otherwise.
pub proof fn lemma_cooldowns(status: u16, retry: Option<Delay>)
    ensures
        retry matches Some(delay) ==> cooldown_of(status, retry) == delay,
        retry is None ==> cooldown_of(status, retry).nanos == if status == 429 {
            120_000_000_000u128
        } else {
            60_000_000_000u128
        },
{
}

/// A wait is asked for in seconds, or as the time until a date. A wait of no time, or until a date
/// that has passed, is none.
pub proof fn lemma_waits(number: Option<u64>, date: Option<u64>, now: Moment)
    ensures
        number matches Some(seconds) ==> (wait_of(number, date, now) is Some <==> seconds > 0) && (
        wait_of(number, date, now) matches Some(delay) ==> delay.nanos == seconds * 1_000_000_000),
        number is None && date is None ==> wait_of(number, date, now) is None,
        number is None && date is Some ==> {
            let left = date->0 * 1_000_000_000 - (now.seconds * 1_000_000_000 + now.nanos);
            &&& wait_of(number, date, now) is Some <==> left > 0
            &&& wait_of(number, date, now) matches Some(delay) ==> delay.nanos == left
        },
{
}

/// The model of a request is the first of the account's product under that identifier. A request
/// without a model is invalid, one for a model that the product lacks is not supported.
pub proof fn lemma_model_is_of_the_product(
    models: Seq<Model>,
    tier: Tier,
    model_id: Option<Seq<char>>,
)
    ensures
        match model_read(models, tier, model_id) {
            Ok(model) => model_id is Some && model.tier == tier && model.id@ == model_id->0
                && exists|i: int|
                0 <= i < models.len() && #[trigger] models[i] == model && forall|j: int|
                    0 <= j < i ==> !((#[trigger] models[j]).tier == tier && models[j].id@
                        == model_id->0),
            Err(kind) => if model_id is None {
                kind == ProviderErrorKind::InvalidRequest
            } else {
                kind == ProviderErrorKind::Unsupported && forall|i: int|
                    0 <= i < models.len() ==> !((#[trigger] models[i]).tier == tier && models[i].id@
                        == model_id->0)
            },
        },
{
    if let Some(id) = model_id {
        lemma_found_first(models, tier, id, 0);
    }
}

proof fn lemma_found_first(models: Seq<Model>, tier: Tier, id: Seq<char>, at: int)
    requires
        0 <= at <= models.len(),
        forall|j: int| 0 <= j < at ==> !((#[trigger] models[j]).tier == tier && models[j].id@ == id),
    ensures
        match found_from(models, tier, id, at) {
            Some(model) => model.tier == tier && model.id@ == id && exists|i: int|
                0 <= i < models.len() && #[trigger] models[i] == model && forall|j: int|
                    0 <= j < i ==> !((#[trigger] models[j]).tier == tier && models[j].id@ == id),
            None => forall|i: int|
                0 <= i < models.len() ==> !((#[trigger] models[i]).tier == tier && models[i].id@
                    == id),
        },
    decreases models.len() - at,
{
    if at < models.len() && !is_entry(models[at], tier, id) {
        lemma_found_first(models, tier, id, at + 1);
    }
}

/// Where the official service takes requests: each product has its own address, and each protocol
/// its own path below it. What is not Go is taken for Zen.
pub proof fn lemma_official_addresses(tier: Tier, protocol: Protocol)
    ensures
        forall|product: Seq<char>, path: Seq<char>|
            product != "go"@ ==> #[trigger] official_url(product, path)
                == "https://opencode.ai/zen/v1/"@ + path,
        official_url(tier_name(tier), protocol_path(protocol)) == (match tier {
            Tier::Zen => "https://opencode.ai/zen/v1/"@,
            Tier::Go => "https://opencode.ai/zen/go/v1/"@,
        }) + (match protocol {
            Protocol::Responses => "responses"@,
            Protocol::Chat => "chat/completions"@,
            Protocol::Messages => "messages"@,
        }),
{
    reveal_strlit("zen");
    reveal_strlit("go");
    assert("zen"@.len() != "go"@.len());
    reveal_strlit("https://opencode.ai/zen/v1");
    reveal_strlit("https://opencode.ai/zen/go/v1");
    reveal_strlit("https://opencode.ai/zen/v1/");
    reveal_strlit("https://opencode.ai/zen/go/v1/");
    reveal_strlit("/");
    assert("https://opencode.ai/zen/v1"@ + "/"@ =~= "https://opencode.ai/zen/v1/"@);
    assert("https://opencode.ai/zen/go/v1"@ + "/"@ =~= "https://opencode.ai/zen/go/v1/"@);
}

/// Whether an answer is an event stream does not depend on the parameters of its content type,
/// nor on the case of its letters; without a content type it is none.
pub proof fn lemma_parameters_do_not_matter(value: Seq<char>, other: Seq<char>)
    ensures
        !is_event_stream(None),
        media_type(value) == media_type(other) ==> is_event_stream(Some(value)) == is_event_stream(
            Some(other),
        ),
        same_but_case(media_type(value), "text/event-stream"@) <==> is_event_stream(Some(value)),
{
}

/// The client names itself by this one text, in every request and wherever it is shown.
pub proof fn lemma_user_agent()
    ensures
        user_agent_text()
            == "opencode/1.18.31 ai-sdk/provider-utils/4.0.23 runtime/bun/1.3.14"@,
{
    reveal_strlit("opencode/");
    reveal_strlit("1.18.31");
    reveal_strlit(" ");
    reveal_strlit("ai-sdk/provider-utils/4.0.23 runtime/bun/1.3.14");
    reveal_strlit("opencode/1.18.31 ai-sdk/provider-utils/4.0.23 runtime/bun/1.3.14");
    assert(user_agent_text()
        =~= "opencode/1.18.31 ai-sdk/provider-utils/4.0.23 runtime/bun/1.3.14"@);
}

/// Whether two characters are the same letter, or the same character.
pub open spec fn same_letter(c: char, small: char) -> bool {
    c == small || ('a' <= small <= 'z' && c as int == small as int - 32)
}

/// Whether a content type says `text/event-stream` at this place, in any case, with nothing but
/// white space around it up to the first semicolon or the end.
pub open spec fn says_event_stream(value: Seq<char>, from: int, end: int) -> bool {
    let name = "text/event-stream"@;
    &&& 0 <= from
    &&& from + name.len() <= end <= value.len()
    &&& end == value.len() || value[end] == ';'
    &&& forall|i: int| 0 <= i < end ==> #[trigger] value[i] != ';'
    &&& forall|i: int| 0 <= i < from ==> is_white_space(#[trigger] value[i])
    &&& forall|i: int| from + name.len() <= i < end ==> is_white_space(#[trigger] value[i])
    &&& forall|i: int| 0 <= i < name.len() ==> same_letter(value[from + i], #[trigger] name[i])
}

proof fn lemma_head(value: Seq<char>) -> (end: int)
    ensures
        0 <= end <= value.len(),
        end == value.len() || value[end] == ';',
        forall|i: int| 0 <= i < end ==> #[trigger] value[i] != ';',
        media_type(value) == trimmed(value.take(end)),
{
    reveal_strlit(";");
    lemma_occurrence(value, ";"@, 0);
    match occurrence_from(value, ";"@, 0) {
        Some(at) => {
            assert(value.subrange(at, at + 1)[0] == value[at]);
            assert forall|i: int| 0 <= i < at implies #[trigger] value[i] != ';' by {
                if value[i] == ';' {
                    assert(value.subrange(i, i + 1) =~= ";"@);
                    assert(occurs_at(value, ";"@, i));
                }
            }
            at
        },
        None => {
            assert forall|i: int| 0 <= i < value.len() implies #[trigger] value[i] != ';' by {
                if value[i] == ';' {
                    assert(value.subrange(i, i + 1) =~= ";"@);
                    assert(occurs_at(value, ";"@, i));
                }
            }
            assert(value.take(value.len() as int) =~= value);
            value.len() as int
        },
    }
}

/// An answer is an event stream exactly where its content type says so before any parameters, in
/// letters of any case, with or without white space around it.
pub proof fn lemma_event_streams(value: Seq<char>)
    ensures
        is_event_stream(Some(value)) <==> exists|from: int, end: int|
            says_event_stream(value, from, end),
{
    reveal_strlit("text/event-stream");
    let name = "text/event-stream"@;
    let end = lemma_head(value);
    let head = value.take(end);
    let from = lemma_trimmed_start(head);
    let rest = head.skip(from);
    let to = lemma_trimmed_end(rest);
    let kept = rest.take(to);
    assert(media_type(value) == kept);
    assert forall|i: int| 0 <= i < to implies #[trigger] kept[i] == value[from + i] by {}
    if is_event_stream(Some(value)) {
        assert forall|i: int| 0 <= i < name.len() implies same_letter(
            value[from + i],
            #[trigger] name[i],
        ) by {
            assert(kept[i] == value[from + i]);
            assert(ascii_lower(kept[i]) == ascii_lower(name[i]));
        }
        assert forall|i: int| 0 <= i < from implies is_white_space(#[trigger] value[i]) by {
            assert(head.take(from)[i] == value[i]);
        }
        assert forall|i: int| from + name.len() <= i < end implies is_white_space(
            #[trigger] value[i],
        ) by {
            assert(rest.skip(to)[i - from - to] == value[i]);
        }
        assert(says_event_stream(value, from, end));
    }
    if exists|first: int, last: int| says_event_stream(value, first, last) {
        let (first, last) = choose|first: int, last: int| says_event_stream(value, first, last);
        assert(last == end) by {
            if last < end {
                assert(value[last] == ';');
            } else if end < last {
                assert(value[end] == ';');
            }
        }
        assert(same_letter(value[first + 0], name[0]));
        assert(same_letter(value[first + 16], name[16]));
        assert(!is_white_space(value[first]));
        assert(!is_white_space(value[first + 16]));
        assert(from == first) by {
            if first < from {
                assert(head.take(from)[first] == value[first]);
            } else if from < first {
                assert(is_white_space(value[from]));
                assert(head[from] == value[from]);
            }
        }
        assert(to == 17) by {
            if to < 17 {
                assert(rest.skip(to)[16 - to] == value[first + 16]);
            } else if to > 17 {
                assert(rest[to - 1] == value[from + to - 1]);
            }
        }
        assert forall|i: int| 0 <= i < kept.len() implies ascii_lower(#[trigger] kept[i])
            == ascii_lower(name[i]) by {
            assert(same_letter(value[from + i], name[i]));
        }
        assert(same_but_case(media_type(value), name));
    }
}

} // verus!
