use provider_opencode::admin::{
    account_configuration, check_rotation, connection_test_operation, current_credential,
    dashboard_wire_profile, export_credentials, map_quota_error, models, prepare_import,
    prepare_rotation, unsupported, AccountRecord, ExportInput,
};
use provider_opencode::catalog::{Catalog, Model, Protocol};
use provider_opencode::credential::{Credential, Tier};
use provider_opencode::error::{AdminError, AdminErrorKind};
use provider_opencode::identity::quota_session;
use provider_opencode::initialize;
use provider_opencode::json::{Json, JsonObject};
use provider_opencode::quota::{
    clamp_percent, interpret, limit_reached, project_window, read_usage, rejection, rejection_from,
    QuotaError, QuotaEvidence, QuotaState, UsageAttribution, WindowRole,
};
use provider_opencode::quota_query::{
    ProviderQuota, QueryAction, QueryEvent, QueryPhase, QuotaQuery,
};
use provider_opencode::time::Moment;

fn object(text: &str) -> JsonObject {
    match Json::parse(text).unwrap() {
        Json::Object(object) => object,
        _ => panic!("no object"),
    }
}

fn printed(object: &JsonObject) -> String {
    Json::object(object.clone()).print()
}

fn record(provider: &str) -> AccountRecord {
    AccountRecord {
        id: "acct_a".to_owned(),
        provider_kind: provider.to_owned(),
        name: "test account".to_owned(),
        authentication_kind: "api_key".to_owned(),
        credential_revision: 1,
    }
}

fn at(seconds: i64) -> Moment {
    Moment { seconds, nanos: 0 }
}

fn percent(value: f64) -> Option<u64> {
    Some(value.to_bits())
}

const CANONICAL: &str = r#"{"usage": {
    "rolling": {"status": "ok", "percent": 12, "resetsAt": "2099-09-16T13:40:00Z"},
    "weekly": {"status": "ok", "percent": 57, "resetsAt": "2099-09-18T00:00:00Z"},
    "monthly": {"status": "ok", "percent": 3, "resetsAt": "2099-10-01T00:00:00Z"}
}}"#;

/// A point in the twenties of this century.
const NOW: i64 = 1_750_000_000;

fn loaded(tier: &str) -> QueryEvent {
    QueryEvent::Loaded {
        provider: "opencode".to_owned(),
        material: object(&format!(r#"{{"api_key":"test-key-a","tier":"{tier}"}}"#)),
    }
}

/// Asks the upstream, which answers like this.
fn refreshed(status: u16, body: &str) -> (QuotaQuery, QueryAction) {
    let mut query = QuotaQuery::new("opencode".to_owned(), true);
    assert!(matches!(
        query.step(loaded("go")),
        QueryAction::Fetch(credential) if credential.api_key == "test-key-a"
    ));
    let report = read_usage((200..300).contains(&status), status, body);
    let action = query.step(QueryEvent::Fetched { report, observed_at: at(NOW) });
    (query, action)
}

fn shown(action: QueryAction) -> ProviderQuota {
    match action {
        QueryAction::Show(quota) => quota,
        _ => panic!("nothing shown"),
    }
}

fn refusal(action: QueryAction) -> AdminError {
    match action {
        QueryAction::Fail(error) => error,
        _ => panic!("no failure"),
    }
}

#[test]
fn rotation_preserves_omitted_key_and_export_can_be_imported_again() {
    let current = Credential { api_key: "test-key-a".to_owned(), tier: Tier::Zen };
    check_rotation(&record("opencode"), "opencode").unwrap();
    let record_of = record("opencode");
    let rotated = prepare_rotation(&record_of, "opencode", &current, &object(r#"{"tier":"go"}"#))
        .ok()
        .unwrap();
    assert_eq!(rotated.expected_credential_revision, record_of.credential_revision);
    assert_eq!(rotated.material.get("api_key").unwrap().as_text(), Some("test-key-a"));
    assert_eq!(rotated.plan_type, "go");
    assert_eq!((rotated.account_id.as_str(), rotated.name.as_str()), ("acct_a", "test account"));
    let material = rotated.material;
    let exported = export_credentials(
        &vec![ExportInput { account: record("opencode"), material: material.clone() }],
        "opencode",
    )
    .ok()
    .unwrap();
    assert_eq!(exported.account_ids, vec!["acct_a"]);
    let imported = prepare_import(&exported.document, None).ok().unwrap();
    assert_eq!(imported[0].plan_type, "go");
    assert_eq!(imported[0].name, "test account");
    assert_eq!(printed(&imported[0].material), printed(&material));
    assert!(check_rotation(&record("openai"), "opencode").is_err());
    let replacement = object(r#"{"api_key":"new-key"}"#);
    assert!(prepare_rotation(&record("openai"), "opencode", &current, &replacement).is_err());
}

#[test]
fn a_rotation_replaces_what_it_names() {
    let current = Credential { api_key: "old".to_owned(), tier: Tier::Go };
    let account = record("opencode");
    let rotated = |material: &str| {
        prepare_rotation(&account, "opencode", &current, &object(material))
            .map(|prepared| printed(&prepared.material))
    };
    for (material, expected) in [
        (r#"{"api_key":"new"}"#, r#"{"api_key":"new","tier":"go"}"#),
        (r#"{"api_key":"","tier":"zen"}"#, r#"{"api_key":"old","tier":"zen"}"#),
        ("{}", r#"{"api_key":"old","tier":"go"}"#),
    ] {
        assert_eq!(rotated(material).ok().as_deref(), Some(expected));
    }
    for material in [r#"{"api_key":null}"#, r#"{"tier":null}"#, r#"{"other":1}"#] {
        assert_eq!(rotated(material).err().unwrap().kind, AdminErrorKind::Invalid, "{material}");
    }
    let mut other = record("opencode");
    other.authentication_kind = "oauth".to_owned();
    assert_eq!(check_rotation(&other, "opencode").unwrap_err().kind, AdminErrorKind::Invalid);
}

#[test]
fn dashboard_profile_reports_shipped_cli_identity_without_release_channel() {
    let profile = dashboard_wire_profile("opencode");
    assert_eq!(profile.provider, "opencode");
    assert_eq!(profile.product, "OpenCode CLI");
    assert_eq!(profile.version, "1.18.31");
    assert_eq!(
        profile.user_agent,
        "opencode/1.18.31 ai-sdk/provider-utils/4.0.23 runtime/bun/1.3.14"
    );
    assert_eq!(profile.attribute_label, "客户端标识");
    assert_eq!(profile.attribute_value, "cli");
    assert_eq!(profile.os_type, "—");
    assert_eq!(profile.os_version, "—");
    assert_eq!(profile.arch, "—");
    assert_eq!(profile.terminal, "—");
    assert!(profile.build.is_none());
    assert!(profile.verified_at.is_none());
    assert!(profile.release.is_none());
}

#[test]
fn key_import_preserves_product_and_public_configuration_hides_secret() {
    let prepared = prepare_import(
        &object(r#"{"accounts":[{"name":"Go key","tier":"go","api_key":"test-secret"}]}"#),
        None,
    )
    .ok()
    .unwrap();
    assert_eq!(prepared[0].authentication_kind, "api_key");
    assert_eq!(prepared[0].plan_type, "go");
    assert!(prepared[0].enabled);
    let digits = prepared[0].account_id.strip_prefix("acct_").unwrap();
    assert_eq!(digits.len(), 36);
    let credential = Credential { api_key: "test-key-a".to_owned(), tier: Tier::Go };
    assert_eq!(printed(&account_configuration(&credential)), r#"{"tier":"go"}"#);
}

#[test]
fn import_rejects_header_injection_and_unknown_product() {
    for material in [
        r#"{"name":"test","tier":"go","api_key":"key\r\nx-inject: test"}"#,
        r#"{"name":"test","tier":"unknown","api_key":"key"}"#,
    ] {
        let document = object(&format!(r#"{{"accounts":[{material}]}}"#));
        assert_eq!(prepare_import(&document, None).err().unwrap().kind, AdminErrorKind::Invalid);
    }
}

#[test]
fn imports_have_limits() {
    let entry = r#"{"name":"n","api_key":"k"}"#;
    let document = |count: usize| object(&format!(r#"{{"accounts":[{}]}}"#, vec![entry; count].join(",")));
    assert_eq!(prepare_import(&document(1000), None).ok().unwrap().len(), 1000);
    assert!(prepare_import(&document(1001), None).is_err());
    assert!(prepare_import(&document(0), None).is_err());
    assert!(prepare_import(&object("{}"), None).is_err());
    for entry in [
        "7".to_owned(),
        r#"{"api_key":"k"}"#.to_owned(),
        r#"{"name":" \t","api_key":"k"}"#.to_owned(),
        r#"{"name":7,"api_key":"k"}"#.to_owned(),
        r#"{"name":"n"}"#.to_owned(),
        r#"{"name":"n","api_key":"k","extra":1}"#.to_owned(),
        format!(r#"{{"name":"{}","api_key":"k"}}"#, "n".repeat(257)),
        format!(r#"{{"name":"n","api_key":"{}"}}"#, "k".repeat(4097)),
    ] {
        let document = object(&format!(r#"{{"accounts":[{{"name":"n","api_key":"k"}},{entry}]}}"#));
        assert!(prepare_import(&document, None).is_err(), "{entry}");
    }
    let long = format!(r#"{{"name":"{}","api_key":"{}"}}"#, "n".repeat(256), "k".repeat(4096));
    assert!(prepare_import(&object(&format!(r#"{{"accounts":[{long}]}}"#)), None).is_ok());
}

#[test]
fn fresh_accounts_have_identifiers_of_their_own() {
    let document = object(r#"{"accounts":[{"name":"n","api_key":"k"},{"name":"n","api_key":"k"}]}"#);
    let prepared = prepare_import(&document, None).ok().unwrap();
    assert_ne!(prepared[0].account_id, prepared[1].account_id);
}

#[test]
fn an_export_of_another_provider_is_refused() {
    let input = ExportInput {
        account: record("openai"),
        material: object(r#"{"api_key":"k","tier":"zen"}"#),
    };
    assert!(export_credentials(&vec![input], "opencode").is_err());
    let broken = ExportInput { account: record("opencode"), material: object("{}") };
    assert!(export_credentials(&vec![broken], "opencode").is_err());
    let empty = export_credentials(&Vec::new(), "opencode").ok().unwrap();
    assert_eq!(printed(&empty.document), r#"{"accounts":[],"provider":"opencode"}"#);
}

#[test]
fn accounts_of_other_providers_are_not_found() {
    let material = object(r#"{"api_key":"k"}"#);
    let found = current_credential("opencode", "opencode", &material).ok().unwrap();
    assert_eq!((found.api_key.as_str(), found.tier), ("k", Tier::Zen));
    assert_eq!(
        current_credential("opencode", "openai", &material).err().unwrap().kind,
        AdminErrorKind::NotFound
    );
    assert_eq!(
        current_credential("opencode", "opencode", &object("{}")).err().unwrap().kind,
        AdminErrorKind::Invalid
    );
}

#[test]
fn models_of_one_product_are_listed() {
    let entry = |tier: Tier, id: &str, name: &str| Model {
        tier,
        id: id.to_owned(),
        name: name.to_owned(),
        protocol: Protocol::Chat,
        tools: true,
        vision: true,
        reasoning: true,
        context: 1,
        output: 1,
    };
    let catalog = Catalog {
        models: vec![
            entry(Tier::Zen, "b", "B"),
            entry(Tier::Go, "b", "B Go"),
            entry(Tier::Zen, "a", "A"),
        ],
    };
    assert_eq!(
        models(&catalog, Tier::Zen),
        vec![("b".to_owned(), "B".to_owned()), ("a".to_owned(), "A".to_owned())]
    );
    assert_eq!(models(&catalog, Tier::Go), vec![("b".to_owned(), "B Go".to_owned())]);
}

#[test]
fn a_connection_test_is_short() {
    let payload = connection_test_operation("m", "ping");
    assert_eq!(payload.protocol, "openai");
    assert_eq!(
        printed(&payload.body),
        r#"{"input":"ping","max_output_tokens":128,"model":"m","stream":true}"#
    );
    assert_eq!(printed(&payload.context), "{}");
    assert_eq!(unsupported().kind, AdminErrorKind::Unsupported);
}

#[test]
fn quota_refresh_projects_go_windows_and_persists_provider_document() {
    let (mut query, action) = refreshed(200, CANONICAL);
    assert!(matches!(
        action,
        QueryAction::Store(QuotaState::ObservedUnknown { observed_at }) if observed_at == at(NOW)
    ));
    let stored = printed(&query.report.as_ref().unwrap().0);
    let document = Json::parse(CANONICAL).unwrap();
    assert_eq!(stored, document.get("usage").unwrap().print());
    let quota = shown(query.step(QueryEvent::Stored { now: at(NOW) }));
    assert_eq!(quota.plan_type, Tier::Go);
    assert_eq!(quota.observed_at, Some(at(NOW)));
    assert!(!quota.limit_reached);
    let windows: Vec<_> = quota
        .windows
        .iter()
        .map(|window| {
            (
                window.role.key(),
                window.role.group(),
                window.role.label(),
                window.role,
                window.used_percent,
                window.role.seconds(),
            )
        })
        .collect();
    assert_eq!(
        windows,
        vec![
            (
                "rolling",
                "shortTerm",
                "5小时额度",
                WindowRole::Primary,
                percent(12.0),
                Some(5 * 60 * 60)
            ),
            (
                "weekly",
                "shortTerm",
                "周额度",
                WindowRole::Secondary,
                percent(57.0),
                Some(7 * 24 * 60 * 60)
            ),
            ("monthly", "monthly", "月额度", WindowRole::Monthly, percent(3.0), None),
        ]
    );
    assert_eq!(quota.windows[0].reset_at, Some(at(4_093_249_200)));
    assert!(quota.windows.iter().all(|window| window.reset_at.is_some()));
    assert!(quota
        .windows
        .iter()
        .all(|window| window.local_usage_attribution == UsageAttribution::Unavailable));
    let admin = initialize(Some(Catalog { models: Vec::new() })).ok().unwrap().admin_provider();
    let credential = Credential { api_key: "test-key-a".to_owned(), tier: Tier::Go };
    let request = admin.prepare_usage("acct_a", &credential);
    assert_eq!(request.endpoint, "https://opencode.ai/zen/go/v1/usage");
    let header = |name: &str| {
        request.headers.iter().find(|header| header.name == name).unwrap().value.as_str()
    };
    assert_eq!(header("accept"), "application/json");
    assert_eq!(
        header("user-agent"),
        "opencode/1.18.31 ai-sdk/provider-utils/4.0.23 runtime/bun/1.3.14"
    );
    assert_eq!(header("x-opencode-client"), "cli");
    let session = header("x-opencode-session");
    assert!(session.starts_with("ses_") && session.len() == 30, "{session}");
    assert_eq!(session, quota_session("acct_a"));
    assert_eq!(request.bearer, "test-key-a");
}

#[test]
fn quota_read_returns_persisted_windows_without_querying_upstream_again() {
    let (mut query, _) = refreshed(200, CANONICAL);
    let stored = query.report.as_ref().map(|(report, observed_at)| (report.clone(), *observed_at));
    let fresh = shown(query.step(QueryEvent::Stored { now: at(NOW + 5) }));
    let mut reading = QuotaQuery::new("opencode".to_owned(), false);
    assert!(matches!(reading.step(loaded("go")), QueryAction::Find));
    let cached = shown(reading.step(QueryEvent::Found { stored, now: at(NOW + 5) }));
    assert_eq!(cached.windows, fresh.windows);
    assert_eq!(cached.plan_type, Tier::Go);
    assert_eq!(cached.observed_at, fresh.observed_at);
    assert!(cached.observed_at.is_some());
}

#[test]
fn quota_read_without_observation_reports_unknown_instead_of_zero_usage() {
    let mut query = QuotaQuery::new("opencode".to_owned(), false);
    query.step(loaded("go"));
    let quota = shown(query.step(QueryEvent::Found { stored: None, now: at(NOW) }));
    assert!(quota.windows.is_empty());
    assert!(quota.observed_at.is_none());
    assert!(!quota.limit_reached);
    assert_eq!(quota.plan_type, Tier::Go);
}

#[test]
fn quota_zen_tier_is_not_queried_because_no_endpoint_exists() {
    let mut query = QuotaQuery::new("opencode".to_owned(), true);
    let quota = shown(query.step(loaded("zen")));
    assert!(quota.windows.is_empty());
    assert_eq!(quota.plan_type, Tier::Zen);
    assert_eq!(query.phase, QueryPhase::Finished);
    assert!(query.report.is_none());
}

#[test]
fn quota_reached_window_exhausts_account_only_until_it_resets() {
    let (mut query, action) = refreshed(
        200,
        r#"{"usage": {"rolling": {"status": "rate-limited", "percent": 100, "resetsAt": "2099-01-01T00:00:00Z"}}}"#,
    );
    assert!(matches!(
        action,
        QueryAction::Store(QuotaState::Exhausted {
            evidence: QuotaEvidence::AccountLimitReached,
            reset_at: Some(reset),
            ..
        }) if reset == at(4_070_908_800)
    ));
    assert!(shown(query.step(QueryEvent::Stored { now: at(NOW) })).limit_reached);
    let (mut query, action) = refreshed(
        200,
        r#"{"usage": {"rolling": {"status": "rate-limited", "percent": 100, "resetsAt": "2020-01-01T00:00:00Z"}}}"#,
    );
    assert!(matches!(action, QueryAction::Store(QuotaState::ObservedUnknown { .. })));
    assert!(!shown(query.step(QueryEvent::Stored { now: at(NOW) })).limit_reached);
}

#[test]
fn quota_failures_map_to_distinct_admin_kinds_without_leaking_upstream_body() {
    for (status, body, kind) in [
        (
            401,
            r#"{"type":"error","error":{"type":"AuthError","message":"Missing API key."}}"#,
            AdminErrorKind::Invalid,
        ),
        (
            403,
            r#"{"type":"error","error":{"type":"EntitlementError","message":"OpenCode Go subscription required."}}"#,
            AdminErrorKind::Invalid,
        ),
        (403, "<html>blocked</html>", AdminErrorKind::Unavailable),
        (200, r#"{"error": "not a usage contract"}"#, AdminErrorKind::Invalid),
        (503, "", AdminErrorKind::Unavailable),
    ] {
        let (query, action) = refreshed(status, body);
        let error = refusal(action);
        assert_eq!(error.kind, kind, "{status}");
        assert!(error.public_message.is_some(), "{status}");
        assert!(query.report.is_none(), "{status}");
        assert_eq!(query.phase, QueryPhase::Finished);
    }
}

#[test]
fn quota_errors_have_fixed_messages() {
    for (error, kind, message) in [
        (
            QuotaError::Unauthorized,
            AdminErrorKind::Invalid,
            "OpenCode 额度查询凭据无效，请检查账号授权",
        ),
        (
            QuotaError::NoPlan,
            AdminErrorKind::Invalid,
            "该 Key 没有 OpenCode Go 订阅，无法查询额度",
        ),
        (
            QuotaError::Invalid,
            AdminErrorKind::Invalid,
            "OpenCode 额度数据无效，请检查账号授权",
        ),
        (
            QuotaError::Upstream,
            AdminErrorKind::Unavailable,
            "OpenCode 额度查询失败，请检查出站连接与上游服务",
        ),
    ] {
        let shown = map_quota_error(error);
        assert_eq!((shown.kind, shown.public_message), (kind, Some(message)));
    }
}

#[test]
fn rejections_are_told_apart() {
    let denied = r#"{"error":{"type":"EntitlementError"}}"#;
    assert_eq!(rejection(401, denied), QuotaError::Unauthorized);
    assert_eq!(rejection(403, denied), QuotaError::NoPlan);
    assert_eq!(rejection(403, r#"{"error":{"type":"Other"}}"#), QuotaError::Upstream);
    assert_eq!(rejection(403, "no json"), QuotaError::Upstream);
    assert_eq!(rejection(500, denied), QuotaError::Upstream);
    assert_eq!(rejection_from(403, &Json::parse(denied)), QuotaError::NoPlan);
    assert_eq!(rejection_from(403, &None), QuotaError::Upstream);
}

#[test]
fn only_a_report_is_a_report() {
    for body in ["no json", "{}", r#"{"usage":{}}"#, r#"{"usage":[]}"#, "[]"] {
        assert_eq!(read_usage(true, 200, body).err(), Some(QuotaError::Invalid), "{body}");
    }
    assert!(interpret(&object(r#"{"daily":{"status":"ok"}}"#)).is_err());
    assert!(interpret(&object(r#"{"rolling":{"note":1},"weekly":7}"#)).is_err());
    let windows = interpret(&object(r#"{"monthly":{"status":"ok"},"rolling":{"percent":1.5}}"#)).unwrap();
    assert_eq!(windows.len(), 2);
    assert_eq!((windows[0].role, windows[0].used_percent), (WindowRole::Primary, percent(1.5)));
    assert_eq!((windows[1].role, windows[1].used_percent), (WindowRole::Monthly, None));
}

#[test]
fn shares_are_held_between_nothing_and_the_whole() {
    let window = |share: &str| {
        interpret(&object(&format!(r#"{{"rolling":{{"status":"ok","percent":{share}}}}}"#))).unwrap()[0]
    };
    for (share, expected, reached) in [
        ("99", 99.0, false),
        ("99.99", 99.99, false),
        ("100", 100.0, true),
        ("100.5", 100.0, true),
        ("18446744073709551615", 100.0, true),
        ("-5", 0.0, false),
        ("-0.5", 0.0, false),
        ("-0.0", -0.0, false),
        ("0", 0.0, false),
    ] {
        let window = window(share);
        assert_eq!(window.used_percent, percent(expected), "{share}");
        assert_eq!(window.limit_reached, reached, "{share}");
    }
    assert_eq!(window("\"7\"").used_percent, None);
    assert_eq!(clamp_percent(f64::INFINITY.to_bits()), None);
    assert_eq!(clamp_percent(f64::NEG_INFINITY.to_bits()), None);
    assert_eq!(clamp_percent(f64::NAN.to_bits()), None);
    assert_eq!(clamp_percent(f64::MAX.to_bits()), percent(100.0));
}

#[test]
fn limits_expire_with_their_reset() {
    let limited = |reset_at: Option<Moment>| {
        vec![project_window(WindowRole::Primary, None, Some("rate-limited"), reset_at).unwrap()]
    };
    assert!(limit_reached(&limited(Some(at(10))), at(9)));
    assert!(!limit_reached(&limited(Some(at(10))), at(10)));
    assert!(limit_reached(&limited(None), at(10)));
    assert!(project_window(WindowRole::Primary, None, None, None).is_none());
    let windows = interpret(&object(
        r#"{"rolling":{"status":"rate-limited","resetsAt":"1970-01-01T00:00:30+00:00"},
            "weekly":{"status":"rate-limited","resetsAt":"1970-01-01T01:00:20.5+01:00"},
            "monthly":{"status":"ok","resetsAt":"1970-01-01T00:00:10Z"}}"#,
    ))
    .unwrap();
    assert_eq!(
        provider_opencode::quota::access_state(&windows, at(5)),
        QuotaState::Exhausted {
            evidence: QuotaEvidence::AccountLimitReached,
            observed_at: at(5),
            reset_at: Some(Moment { seconds: 20, nanos: 500_000_000 }),
        }
    );
}

#[test]
fn a_question_fails_as_its_steps_do() {
    let mut query = QuotaQuery::new("opencode".to_owned(), true);
    assert_eq!(refusal(query.step(QueryEvent::Unavailable)).kind, AdminErrorKind::Unavailable);
    let (mut query, _) = refreshed(200, CANONICAL);
    assert_eq!(refusal(query.step(QueryEvent::Conflicted)).kind, AdminErrorKind::Conflict);
    let (mut query, _) = refreshed(200, CANONICAL);
    assert_eq!(refusal(query.step(QueryEvent::Unavailable)).kind, AdminErrorKind::Unavailable);
    let mut query = QuotaQuery::new("opencode".to_owned(), true);
    let foreign = QueryEvent::Loaded {
        provider: "openai".to_owned(),
        material: object(r#"{"api_key":"k"}"#),
    };
    assert_eq!(refusal(query.step(foreign)).kind, AdminErrorKind::NotFound);
}

#[test]
fn imported_accounts_keep_the_proxy() {
    let document = object(r#"{"accounts":[{"name":"a","api_key":"k"},{"name":"b","api_key":"k"}]}"#);
    let prepared = prepare_import(&document, Some("http://proxy.test:8080")).ok().unwrap();
    assert!(prepared
        .iter()
        .all(|account| account.outbound_proxy.as_deref() == Some("http://proxy.test:8080")));
    let prepared = prepare_import(&document, None).ok().unwrap();
    assert!(prepared.iter().all(|account| account.outbound_proxy.is_none()));
}
