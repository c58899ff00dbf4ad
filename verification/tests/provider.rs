use base64::Engine as _;
use provider_opencode::attempt::{Attempt, Happening, Progress, Step};
use provider_opencode::catalog::{Catalog, Model, Protocol};
use provider_opencode::credential::{Credential, Tier};
use provider_opencode::error::{ProviderErrorKind, UpstreamSendState};
use provider_opencode::event::{GatewayEvent, ProviderEvent, TokenUsage};
use provider_opencode::identity::Identity;
use provider_opencode::json::{Json, JsonObject};
use provider_opencode::operation::{Operation, ProtocolPayload};
use provider_opencode::provider::{
    cooldown_until, event_stream, model_for, official_endpoint, retry_after, time_left, user_agent,
    wait_from, OutboundRequest,
};
use provider_opencode::selection::{Account, Action, Event, Phase, Search, SearchRequest};
use provider_opencode::stream::SseEvent;
use provider_opencode::time::{Delay, Moment};
use provider_opencode::{
    initialize, initialize_with_endpoint_policy, OpenCodeEndpointPolicy, OpenCodeInitializeError,
    OpenCodeProvider,
};

struct Endpoint(String);

impl OpenCodeEndpointPolicy for Endpoint {
    fn endpoint(&self, product: &str, path: &str) -> String {
        format!("{}/{product}/{path}", self.0)
    }
}

fn entry(tier: Tier, id: &str, protocol: Protocol) -> Model {
    Model {
        tier,
        id: id.to_owned(),
        name: id.to_owned(),
        protocol,
        tools: true,
        vision: false,
        reasoning: false,
        context: 200_000,
        output: 32_768,
    }
}

fn catalog() -> Catalog {
    Catalog {
        models: vec![
            entry(Tier::Zen, "big-pickle", Protocol::Chat),
            entry(Tier::Zen, "gpt-5.4", Protocol::Responses),
            entry(Tier::Zen, "minimax-m2.7", Protocol::Chat),
            entry(Tier::Go, "minimax-m2.7", Protocol::Messages),
        ],
    }
}

fn provider() -> std::sync::Arc<OpenCodeProvider<Endpoint>> {
    initialize_with_endpoint_policy(Some(catalog()), Endpoint("http://test".to_owned()))
        .ok()
        .unwrap()
        .core_provider()
}

fn json(text: &str) -> Json {
    Json::parse(text).unwrap()
}

fn object(text: &str) -> JsonObject {
    match json(text) {
        Json::Object(object) => object,
        _ => panic!("no object"),
    }
}

fn payload(body: &str, context: &str) -> ProtocolPayload {
    ProtocolPayload {
        protocol: "openai".to_owned(),
        body: object(body),
        context: object(context),
    }
}

fn credential(tier: Tier) -> Credential {
    Credential { api_key: "test-key-a".to_owned(), tier }
}

fn header<'a>(request: &'a OutboundRequest, name: &str) -> Option<&'a str> {
    request.headers.iter().find(|header| header.name == name).map(|header| header.value.as_str())
}

fn prepared(model: &str, tier: Tier, payload: &ProtocolPayload, scope: &str, id: &str) -> OutboundRequest {
    let identity = Identity::new(payload, scope, id);
    provider().prepare(payload, Some(model), &identity, &credential(tier)).ok().unwrap()
}

fn sse(data: &str) -> SseEvent {
    SseEvent { event: None, data: data.to_owned(), id: None, retry: None }
}

fn received(data: &str) -> Happening {
    Happening::Received { event: sse(data), reported: None }
}

/// An attempt whose answer has begun.
fn receiving(protocol: Protocol) -> Attempt {
    let mut attempt = Attempt::new(protocol, "model", true);
    let answered = Happening::Answered {
        status: 200,
        retry: None,
        content_type: Some("text/event-stream".to_owned()),
    };
    assert!(matches!(attempt.step(answered), Step::Observe(200)));
    attempt
}

/// Takes in events that all make sense.
fn deliver(attempt: &mut Attempt, events: &[&str]) -> Vec<ProviderEvent> {
    let mut all = Vec::new();
    for data in events {
        match attempt.step(received(data)) {
            Step::Deliver { events, .. } => all.extend(events),
            _ => panic!("{data}"),
        }
    }
    all
}

fn closing_response(events: &[ProviderEvent]) -> &Json {
    let names: Vec<&str> = events.iter().filter_map(|event| event.wire.event.as_deref()).collect();
    assert!(names.contains(&"response.output_item.added"));
    assert!(names.contains(&"response.output_item.done"));
    events.last().unwrap().wire.data.get("response").unwrap()
}

fn item(items: &Json, index: usize) -> &Json {
    &items.as_array().unwrap()[index]
}

fn at(seconds: i64) -> Moment {
    Moment { seconds, nanos: 0 }
}

fn seconds(seconds: u64) -> Delay {
    Delay::from_seconds(seconds)
}

const CHAT: [&str; 3] = [
    r#"{"choices":[{"index":0,"delta":{"content":"hello"},"finish_reason":null}]}"#,
    r#"{"choices":[{"index":0,"delta":{},"finish_reason":"stop"}],"usage":{"prompt_tokens":8,"completion_tokens":2,"total_tokens":10}}"#,
    "[DONE]",
];

#[test]
fn identity_scopes_projects_clients_and_parent_sessions_with_stable_message_ids() {
    let mut requests = Vec::new();
    for (client, project, session, parent, message) in [
        ("key_a", "project_a", "root", "", "msg_1"),
        ("key_a", "project_a", "child", "root", "msg_2"),
        ("key_a", "project_a", "root", "", "msg_3"),
        ("key_b", "project_a", "root", "", "msg_1"),
        ("key_a", "project_b", "root", "", "msg_1"),
        ("key_a", "project_a", "root", "", ""),
    ] {
        let headers = [
            ("x-opencode-project", project),
            ("x-opencode-session", session),
            ("x-parent-session-id", parent),
        ]
        .into_iter()
        .filter(|(_, value)| !value.is_empty())
        .map(|(key, value)| {
            let encoded = base64::engine::general_purpose::STANDARD.encode(value);
            format!(r#"["{key}","{encoded}"]"#)
        })
        .collect::<Vec<_>>()
        .join(",");
        let body = format!(
            r#"{{"model":"big-pickle","input":[{{"role":"user","id":"{message}","content":"hi"}}]}}"#
        );
        let context = format!(r#"{{"opaque_request_headers":[{headers}]}}"#);
        requests.push(prepared(
            "big-pickle",
            Tier::Zen,
            &payload(&body, &context),
            client,
            &format!("req_{message}"),
        ));
    }
    let header = |index: usize, name: &str| header(&requests[index], name).unwrap();
    assert_eq!(header(0, "x-opencode-session"), header(1, "x-parent-session-id"));
    assert_eq!(header(0, "x-opencode-session"), header(2, "x-opencode-session"));
    assert_ne!(header(0, "x-opencode-session"), header(3, "x-opencode-session"));
    assert_ne!(header(0, "x-opencode-session"), header(4, "x-opencode-session"));
    assert_eq!(header(1, "x-opencode-request"), "msg_2");
    assert!(requests[0].headers.iter().all(|header| header.name != "x-parent-session-id"));
    assert_eq!(
        header(0, "user-agent"),
        "opencode/1.18.31 ai-sdk/provider-utils/4.0.23 runtime/bun/1.3.14"
    );
    let shape = |value: &str, prefix: &str| {
        let rest = value.strip_prefix(prefix).unwrap();
        assert_eq!(rest.len(), 26, "{value}");
        assert!(
            rest[..12].bytes().all(|byte| byte.is_ascii_hexdigit())
                && rest[12..].bytes().all(|byte| byte.is_ascii_alphanumeric()),
            "{value}"
        );
    };
    shape(header(0, "x-opencode-session"), "ses_");
    shape(header(1, "x-parent-session-id"), "ses_");
    shape(header(5, "x-opencode-request"), "msg_");
}

#[test]
fn successful_fallback_updates_affinity_before_completed_is_delivered() {
    let mut attempt = receiving(Protocol::Chat);
    for data in CHAT {
        match attempt.step(received(data)) {
            Step::Deliver { bind, events } => {
                let completed = events
                    .iter()
                    .flat_map(|event| event.canonical.iter())
                    .any(|fact| matches!(fact, GatewayEvent::Completed(_)));
                assert_eq!(bind, completed, "{data}");
            }
            _ => panic!("{data}"),
        }
    }
    assert!(matches!(attempt.step(Happening::Closed), Step::Finish));
}

#[test]
fn a_tested_account_is_not_bound() {
    let mut attempt = receiving(Protocol::Chat);
    attempt.enabled = false;
    for data in CHAT {
        assert!(matches!(attempt.step(received(data)), Step::Deliver { bind: false, .. }));
    }
}

#[test]
fn native_responses_preserve_wire_and_chat_rejects_unrepresentable_continuation() {
    let events = [
        r#"{"type":"response.created","response":{"id":"resp_native","model":"gpt-5.4","status":"in_progress"}}"#,
        r#"{"type":"response.completed","response":{"id":"resp_native","model":"gpt-5.4","status":"completed","output":[],"usage":{"input_tokens":4,"output_tokens":2,"total_tokens":6}}}"#,
    ];
    let request = prepared(
        "gpt-5.4",
        Tier::Zen,
        &payload(r#"{"input":"hi"}"#, "{}"),
        "key_test",
        "req_test",
    );
    assert_eq!(request.endpoint, "http://test/zen/responses");
    let mut attempt = receiving(request.protocol);
    let mut all = deliver(&mut attempt, &events[..1]);
    let counters = TokenUsage {
        input_tokens: 4,
        output_tokens: 2,
        cached_tokens: 0,
        cache_write_tokens: 0,
        reasoning_tokens: 0,
        total_tokens: 6,
    };
    let mut last = sse(events[1]);
    last.event = Some("response.completed".to_owned());
    last.id = Some("7".to_owned());
    last.retry = Some(3);
    match attempt.step(Happening::Received { event: last, reported: Some(counters) }) {
        Step::Deliver { events, .. } => all.extend(events),
        _ => panic!("no delivery"),
    }
    assert_eq!(all.len(), 2);
    assert_eq!(all[0].wire.data.print(), json(events[0]).print());
    assert_eq!(all[1].wire.data.print(), json(events[1]).print());
    assert_eq!(all[1].wire.event.as_deref(), Some("response.completed"));
    assert_eq!(all[1].wire.id.as_deref(), Some("7"));
    assert_eq!(all[1].wire.retry, Some(3));
    assert!(all
        .iter()
        .flat_map(|event| event.canonical.iter())
        .any(|fact| matches!(fact, GatewayEvent::Usage(usage) if usage.total_tokens == Some(6))));
    let refused = payload(r#"{"input":"hi","previous_response_id":"resp_old"}"#, "{}");
    let identity = Identity::new(&refused, "key_test", "req_test");
    let result = provider().prepare(&refused, Some("big-pickle"), &identity, &credential(Tier::Zen));
    assert!(matches!(result, Err(error) if error.kind == ProviderErrorKind::Unsupported));
}

#[test]
fn a_chat_request_names_itself_and_carries_its_key() {
    let input = r#"{"model":"big-pickle","input":"hi","metadata":{"x-opencode-session":"child","x-parent-session-id":"root","x-opencode-project":"project"}}"#;
    let request = prepared("big-pickle", Tier::Zen, &payload(input, "{}"), "key_test", "req_test");
    assert_eq!(request.endpoint, "http://test/zen/chat/completions");
    for name in [
        "x-opencode-session",
        "x-opencode-request",
        "x-opencode-project",
        "x-parent-session-id",
        "x-opencode-client",
        "user-agent",
    ] {
        assert!(header(&request, name).is_some(), "{name}");
    }
    assert_eq!(header(&request, "accept"), Some("text/event-stream"));
    assert_eq!(request.bearer.as_deref(), Some("test-key-a"));
    assert!(header(&request, "x-api-key").is_none());
    assert!(header(&request, "x-session-affinity").is_none());
    let messages = request.body.get("messages").unwrap();
    let content = item(messages, 0).get("content").unwrap();
    assert_eq!(item(content, 0).text_at("text"), Some("hi"));
    let mut attempt = receiving(request.protocol);
    let events = deliver(&mut attempt, &CHAT);
    assert!(events
        .iter()
        .flat_map(|event| event.canonical.iter())
        .any(|fact| matches!(fact, GatewayEvent::TextDelta { text, .. } if text == "hello")));
    let output = closing_response(&events).get("output").unwrap();
    let content = item(output, 0).get("content").unwrap();
    assert_eq!(item(content, 0).text_at("text"), Some("hello"));
}

fn account(id: &str) -> Account {
    Account {
        id: id.to_owned(),
        provider: "opencode".to_owned(),
        plan_type: Some("zen".to_owned()),
        revision: 1,
        enabled: true,
        allowed: true,
    }
}

fn search_request() -> SearchRequest {
    SearchRequest {
        provider: "opencode".to_owned(),
        model: Some("big-pickle".to_owned()),
        diagnostic: false,
        required: None,
        excluded: Vec::new(),
        queueing: false,
    }
}

/// A search up to the point where the cooldowns are wanted.
fn cooling_search(request: SearchRequest, accounts: Vec<Account>) -> Search {
    let catalog = catalog();
    let mut search = Search::begin(request).ok().unwrap();
    assert!(matches!(search.step(Event::Affinity(None), &catalog), Action::ListAccounts));
    assert!(matches!(search.step(Event::Accounts(accounts), &catalog), Action::LoadState));
    let known = vec![true; search.accounts.len()];
    assert!(matches!(search.step(Event::Scheduled(known), &catalog), Action::ReadCooldowns));
    search
}

#[test]
fn retry_after_cools_key_and_all_cooling_never_acquires_another_lease() {
    let now = at(1_000_000);
    let retry = retry_after("3600", now);
    assert_eq!(retry, Some(seconds(3600)));
    let mut attempt = Attempt::new(Protocol::Chat, "model", true);
    let delay = match attempt.step(Happening::Answered { status: 429, retry, content_type: None }) {
        Step::Cool(delay) => delay,
        _ => panic!("not put aside"),
    };
    let until = cooldown_until(now, delay, at(1_000_020));
    assert_eq!(until, at(1_003_600));
    match attempt.step(Happening::Cooled) {
        Step::Fail(error) => {
            assert_eq!(error.kind, ProviderErrorKind::RateLimited);
            assert_eq!(error.status, Some(429));
            assert_eq!(error.retry_after, Some(seconds(3600)));
            assert!(error.replay_safe);
        }
        _ => panic!("no failure"),
    }
    let catalog = catalog();
    let mut search = cooling_search(search_request(), vec![account("acct_a")]);
    let cooldowns = Event::Cooldowns { untils: vec![Some(until)], now };
    assert!(matches!(search.step(cooldowns, &catalog), Action::Offer));
    assert!(search.candidates.is_empty());
    let offered = Event::Offered { waitable: false, blocked: Vec::new() };
    assert!(matches!(search.step(offered, &catalog), Action::Choose));
    match search.step(Event::Chosen(None), &catalog) {
        Action::Fail(error) => {
            assert_eq!(error.kind, ProviderErrorKind::NoEligibleAccount);
            assert_eq!(error.retry_after, Some(seconds(3600)));
        }
        _ => panic!("no failure"),
    }
}

#[test]
fn cooling_account_is_skipped_and_cooldown_storage_failure_is_closed() {
    let catalog = catalog();
    let now = at(1_000_000);
    let accounts = || vec![account("acct_a"), account("acct_b")];
    let mut search = cooling_search(search_request(), accounts());
    let cooldowns = Event::Cooldowns { untils: vec![Some(at(1_003_600)), None], now };
    assert!(matches!(search.step(cooldowns, &catalog), Action::Offer));
    assert_eq!(search.candidates.len(), 1);
    assert_eq!(search.candidates[0].id, "acct_b");
    let mut search = cooling_search(search_request(), accounts());
    match search.step(Event::Unavailable, &catalog) {
        Action::Fail(error) => {
            assert_eq!(error.kind, ProviderErrorKind::ProviderInfrastructureUnavailable);
            assert_eq!(error.send_state, UpstreamSendState::NotSent);
        }
        _ => panic!("no failure"),
    }
    assert_eq!(search.phase, Phase::Finished);
}

#[test]
fn messages_tool_call_and_usage_are_translated_on_go_specific_route() {
    let body = r#"{"model":"minimax-m2.7","input":"weather?","tools":[{"type":"function","name":"weather","parameters":{"type":"object"}}]}"#;
    let request = prepared("minimax-m2.7", Tier::Go, &payload(body, "{}"), "key_test", "req_test");
    assert_eq!(request.endpoint, "http://test/go/messages");
    let mut attempt = receiving(request.protocol);
    let events = deliver(
        &mut attempt,
        &[
            r#"{"type":"message_start","message":{"id":"msg_upstream","model":"minimax-m2.7","usage":{"input_tokens":10,"cache_read_input_tokens":3}}}"#,
            r#"{"type":"content_block_start","index":0,"content_block":{"type":"tool_use","id":"call_1","name":"weather","input":{}}}"#,
            r#"{"type":"content_block_delta","index":0,"delta":{"type":"input_json_delta","partial_json":"{\"city\":\"Paris\"}"}}"#,
            r#"{"type":"message_delta","delta":{"stop_reason":"tool_use"},"usage":{"output_tokens":7}}"#,
            r#"{"type":"message_stop"}"#,
        ],
    );
    let response = closing_response(&events);
    let output = response.get("output").unwrap();
    assert_eq!(item(output, 0).text_at("type"), Some("function_call"));
    assert_eq!(item(output, 0).text_at("name"), Some("weather"));
    assert_eq!(item(output, 0).text_at("arguments"), Some("{\"city\":\"Paris\"}"));
    assert_eq!(response.get("usage").unwrap().u64_at("total_tokens"), Some(20));
    let facts: Vec<&GatewayEvent> =
        events.iter().flat_map(|event| event.canonical.iter()).collect();
    assert!(facts.iter().any(|fact| matches!(
        fact,
        GatewayEvent::ToolCallDelta { arguments_delta, .. } if arguments_delta.contains("Paris")
    )));
    assert!(facts.iter().any(|fact| matches!(
        fact,
        GatewayEvent::Usage(usage)
            if usage.input_tokens == Some(13) && usage.output_tokens == Some(7)
    )));
    assert_eq!(header(&request, "x-api-key"), Some("test-key-a"));
    assert_eq!(header(&request, "anthropic-version"), Some("2023-06-01"));
    assert!(request.bearer.is_none());
    let tools = request.body.get("tools").unwrap();
    let schema = item(tools, 0).get("input_schema").unwrap();
    assert_eq!(schema.text_at("type"), Some("object"));
}

#[test]
fn parallel_tool_history_and_reasoning_length_limit_reach_responses_client() {
    let history = r#"{"input":[
        {"role":"user","content":"parallel tools"},
        {"type":"function_call","call_id":"call_1","name":"one","arguments":"{}"},
        {"type":"function_call","call_id":"call_2","name":"two","arguments":"{}"},
        {"type":"function_call_output","call_id":"call_1","output":"first"},
        {"type":"function_call_output","call_id":"call_2","output":"second"}
    ]}"#;
    let request = prepared("minimax-m2.7", Tier::Zen, &payload(history, "{}"), "key_test", "req_test");
    assert_eq!(request.endpoint, "http://test/zen/chat/completions");
    let mut attempt = receiving(request.protocol);
    let events = deliver(
        &mut attempt,
        &[
            r#"{"choices":[{"index":0,"delta":{"reasoning_content":"thinking"}}]}"#,
            r#"{"choices":[{"index":0,"delta":{"content":"partial"},"finish_reason":"length"}],"usage":{"prompt_tokens":2,"completion_tokens":3,"total_tokens":5}}"#,
            "[DONE]",
        ],
    );
    let response = closing_response(&events);
    assert_eq!(response.text_at("status"), Some("incomplete"));
    assert_eq!(
        response.get("incomplete_details").unwrap().text_at("reason"),
        Some("max_output_tokens")
    );
    let output = response.get("output").unwrap();
    let summary = item(output, 0).get("summary").unwrap();
    assert_eq!(item(summary, 0).text_at("text"), Some("thinking"));
    let content = item(output, 1).get("content").unwrap();
    assert_eq!(item(content, 0).text_at("text"), Some("partial"));
    let messages = request.body.get("messages").unwrap();
    assert_eq!(item(messages, 1).array_at("tool_calls").unwrap().len(), 2);
    assert_eq!(item(messages, 2).text_at("tool_call_id"), Some("call_1"));
    assert_eq!(item(messages, 3).text_at("tool_call_id"), Some("call_2"));
}

#[test]
fn truncated_stream_and_done_without_finish_are_errors() {
    let partial = r#"{"choices":[{"index":0,"delta":{"content":"partial"}}]}"#;
    for last in [Happening::Closed, received("[DONE]")] {
        let mut attempt = receiving(Protocol::Chat);
        let events = deliver(&mut attempt, &[partial]);
        assert!(!events
            .iter()
            .flat_map(|event| event.canonical.iter())
            .any(|fact| matches!(fact, GatewayEvent::Completed(_))));
        match attempt.step(last) {
            Step::Fail(error) => assert_eq!(error.kind, ProviderErrorKind::Protocol),
            _ => panic!("no failure"),
        }
    }
}

#[test]
fn every_way_to_fail_has_its_error() {
    let failure = |progress: Progress, happening: Happening| {
        let mut attempt = match progress {
            Progress::Receiving => receiving(Protocol::Chat),
            _ => Attempt::new(Protocol::Chat, "model", true),
        };
        match attempt.step(happening) {
            Step::Fail(error) => (error.kind, error.send_state),
            _ => panic!("no failure"),
        }
    };
    let sending = Progress::Sending;
    let receiving = Progress::Receiving;
    assert_eq!(failure(sending, Happening::Cancelled), (ProviderErrorKind::Cancelled, UpstreamSendState::NotSent));
    assert_eq!(failure(receiving, Happening::Cancelled), (ProviderErrorKind::Cancelled, UpstreamSendState::Sent));
    assert_eq!(failure(sending, Happening::TimedOut), (ProviderErrorKind::Timeout, UpstreamSendState::Ambiguous));
    assert_eq!(failure(receiving, Happening::TimedOut), (ProviderErrorKind::Timeout, UpstreamSendState::Sent));
    assert_eq!(
        failure(sending, Happening::SendFailed { timeout: true, connect: false }),
        (ProviderErrorKind::Timeout, UpstreamSendState::Ambiguous)
    );
    assert_eq!(
        failure(sending, Happening::SendFailed { timeout: false, connect: true }),
        (ProviderErrorKind::Transport, UpstreamSendState::NotSent)
    );
    assert_eq!(failure(receiving, Happening::Garbled), (ProviderErrorKind::Protocol, UpstreamSendState::Sent));
    assert_eq!(
        failure(receiving, Happening::ReadFailed { timeout: true }),
        (ProviderErrorKind::Timeout, UpstreamSendState::Sent)
    );
    assert_eq!(
        failure(receiving, Happening::ReadFailed { timeout: false }),
        (ProviderErrorKind::Transport, UpstreamSendState::Sent)
    );
    let answered = |content_type: Option<&str>| Happening::Answered {
        status: 200,
        retry: None,
        content_type: content_type.map(str::to_owned),
    };
    assert_eq!(failure(sending, answered(None)), (ProviderErrorKind::Protocol, UpstreamSendState::Sent));
    assert_eq!(failure(sending, answered(Some("text/html"))), (ProviderErrorKind::Protocol, UpstreamSendState::Sent));
}

#[test]
fn refusals_are_told_apart() {
    for (status, kind, cooldown, replay_safe) in [
        (401, ProviderErrorKind::Unauthorized, Some(60), true),
        (402, ProviderErrorKind::QuotaExhausted, Some(60), true),
        (403, ProviderErrorKind::PermissionDenied, Some(60), true),
        (429, ProviderErrorKind::RateLimited, Some(120), true),
        (500, ProviderErrorKind::Unavailable, Some(60), false),
        (599, ProviderErrorKind::Unavailable, Some(60), false),
        (400, ProviderErrorKind::InvalidRequest, None, false),
        (302, ProviderErrorKind::InvalidRequest, None, false),
    ] {
        let mut attempt = Attempt::new(Protocol::Chat, "model", true);
        let answered = Happening::Answered { status, retry: None, content_type: None };
        let step = match (attempt.step(answered), cooldown) {
            (Step::Cool(delay), Some(expected)) => {
                assert_eq!(delay, seconds(expected), "{status}");
                attempt.step(Happening::Cooled)
            }
            (step, None) => step,
            _ => panic!("{status}"),
        };
        match step {
            Step::Fail(error) => {
                assert_eq!(error.kind, kind, "{status}");
                assert_eq!(error.status, Some(status));
                assert_eq!(error.send_state, UpstreamSendState::Sent);
                assert_eq!(error.replay_safe, replay_safe, "{status}");
                assert_eq!(error.retry_after, None);
            }
            _ => panic!("{status}"),
        }
    }
    let mut tested = Attempt::new(Protocol::Chat, "model", false);
    let answered = Happening::Answered { status: 429, retry: None, content_type: None };
    assert!(matches!(tested.step(answered), Step::Fail(_)));
    let mut attempt = Attempt::new(Protocol::Chat, "model", true);
    let answered = Happening::Answered { status: 401, retry: None, content_type: None };
    assert!(matches!(attempt.step(answered), Step::Cool(_)));
    match attempt.step(Happening::CoolingFailed) {
        Step::Fail(error) => {
            assert_eq!(error.kind, ProviderErrorKind::ProviderInfrastructureUnavailable);
            assert_eq!(error.send_state, UpstreamSendState::Sent);
        }
        _ => panic!("no failure"),
    }
}

#[test]
fn waiting_times_are_read() {
    let now = Moment { seconds: 784_111_770, nanos: 500_000_000 };
    assert_eq!(retry_after("7", now), Some(seconds(7)));
    assert_eq!(retry_after("+7", now), Some(seconds(7)));
    assert_eq!(retry_after("0", now), None);
    assert_eq!(retry_after("-7", now), None);
    assert_eq!(retry_after("7.5", now), None);
    assert_eq!(retry_after(" 7", now), None);
    assert_eq!(retry_after("", now), None);
    assert_eq!(retry_after("+", now), None);
    assert_eq!(retry_after("18446744073709551616", now), None);
    assert_eq!(retry_after("18446744073709551615", now), Some(seconds(u64::MAX)));
    let date = "Sun, 06 Nov 1994 08:49:37 GMT";
    assert_eq!(retry_after(date, now), Some(Delay { nanos: 6_500_000_000 }));
    assert_eq!(retry_after(date, at(784_111_777)), None);
    assert_eq!(retry_after(date, at(784_111_778)), None);
    assert_eq!(wait_from(None, Some(5), at(2)), Some(seconds(3)));
    assert_eq!(wait_from(Some(0), Some(5), at(2)), None);
    assert_eq!(wait_from(None, None, at(2)), None);
}

#[test]
fn deadlines_are_kept() {
    assert_eq!(time_left(at(5), at(2)).ok(), Some(seconds(3)));
    assert_eq!(time_left(at(5), at(5)).ok(), Some(seconds(0)));
    let error = time_left(at(5), at(6)).unwrap_err();
    assert_eq!(error.kind, ProviderErrorKind::Timeout);
    assert_eq!(error.send_state, UpstreamSendState::NotSent);
    let late = Delay { nanos: u128::MAX };
    assert_eq!(cooldown_until(at(5), late, at(9)), at(9));
    assert_eq!(cooldown_until(at(-5), seconds(3), at(9)), at(-2));
}

#[test]
fn event_streams_are_recognised() {
    for value in [
        "text/event-stream",
        "Text/Event-Stream; charset=utf-8",
        " text/event-stream\t;x",
        "text/event-stream;",
    ] {
        assert!(event_stream(Some(value)), "{value}");
    }
    for value in ["", "text/html", "text/event-streams", "x; text/event-stream"] {
        assert!(!event_stream(Some(value)), "{value}");
    }
    assert!(!event_stream(None));
}

#[test]
fn official_endpoints_follow_the_product() {
    assert_eq!(official_endpoint("zen", "responses"), "https://opencode.ai/zen/v1/responses");
    assert_eq!(official_endpoint("go", "messages"), "https://opencode.ai/zen/go/v1/messages");
    assert_eq!(official_endpoint("other", "usage"), "https://opencode.ai/zen/v1/usage");
    let official = initialize(Some(catalog())).ok().unwrap().core_provider();
    let payload = payload(r#"{"input":"hi"}"#, "{}");
    let identity = Identity::new(&payload, "key", "req");
    let request =
        official.prepare(&payload, Some("big-pickle"), &identity, &credential(Tier::Zen)).ok().unwrap();
    assert_eq!(request.endpoint, "https://opencode.ai/zen/v1/chat/completions");
    assert_eq!(official.name(), "opencode");
    assert_eq!(official.catalog_generation(), 1);
}

#[test]
fn a_model_has_to_be_named_and_offered() {
    let catalog = catalog();
    assert_eq!(
        model_for(&catalog, Tier::Go, Some("minimax-m2.7")).unwrap().protocol,
        Protocol::Messages
    );
    let error = model_for(&catalog, Tier::Go, Some("big-pickle")).unwrap_err();
    assert_eq!(error.kind, ProviderErrorKind::Unsupported);
    let error = model_for(&catalog, Tier::Go, None).unwrap_err();
    assert_eq!(error.kind, ProviderErrorKind::InvalidRequest);
}

#[test]
fn without_a_catalog_there_is_no_provider() {
    let error = initialize(None).err().unwrap();
    assert_eq!(error, OpenCodeInitializeError);
    assert_eq!(error.message(), "OpenCode provider initialization failed");
    assert_eq!(user_agent(), "opencode/1.18.31 ai-sdk/provider-utils/4.0.23 runtime/bun/1.3.14");
}

#[test]
fn only_answers_are_generated() {
    let operation = Operation::Generate(payload(r#"{"input":"hi"}"#, "{}"));
    assert_eq!(operation.generate().unwrap().protocol, "openai");
    let other = Operation::Other("embed".to_owned());
    assert_eq!(other.generate().unwrap_err().kind, ProviderErrorKind::Unsupported);
}
