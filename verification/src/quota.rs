//! The quota of the Go product: what the upstream's usage report says, and what follows from it.
//!
//! A report holds up to three windows, each with a status, the used share in percent and the time
//! of its reset. It says neither how long a window is nor how much it allows, so what is missing
//! stays unknown. The Zen product has no such report.

pub mod laws;

use crate::identity::{quota_session, quota_session_id};
use crate::json::{
    as_text, field, get, nearest_binary64, parsed_json, Fields, Json, JsonObject, JsonView,
    NumberView, HUNDRED, INFINITE, SIGN,
};
use crate::provider::{
    headers_view, push_header, user_agent, user_agent_text, Header, CLIENT_KIND,
};
use crate::text::same_text;
use crate::time::Moment;
use vstd::prelude::*;

verus! {

/// The path of the usage report below the product's base URL.
pub const USAGE_PATH: &'static str = "usage";

/// How long to wait for a connection when a report is fetched, in seconds.
pub const CONNECT_SECONDS: u64 = 10;

/// How long to wait for the whole report, in seconds.
pub const REQUEST_SECONDS: u64 = 20;

/// Why there is no quota to show. It holds neither credentials nor upstream text.
#[derive(Debug, Clone, Copy, PartialEq, Eq, Structural)]
pub enum QuotaError {
    /// The upstream refused the key.
    Unauthorized,
    /// The upstream says that the key has no Go subscription.
    NoPlan,
    /// What came back is no usage report.
    Invalid,
    /// The network or the upstream failed, or refused for another reason.
    Upstream,
}

/// The windows of a report. The weekly one is always seven days long, the rolling one is
/// documented with five hours, and a month has no fixed length.
#[derive(Debug, Clone, Copy, PartialEq, Eq, Structural)]
pub enum WindowRole {
    Primary,
    Secondary,
    Monthly,
}

pub open spec fn window_key(role: WindowRole) -> Seq<char> {
    match role {
        WindowRole::Primary => "rolling"@,
        WindowRole::Secondary => "weekly"@,
        WindowRole::Monthly => "monthly"@,
    }
}

pub open spec fn window_group(role: WindowRole) -> Seq<char> {
    match role {
        WindowRole::Primary => "shortTerm"@,
        WindowRole::Secondary => "shortTerm"@,
        WindowRole::Monthly => "monthly"@,
    }
}

pub open spec fn window_label(role: WindowRole) -> Seq<char> {
    match role {
        WindowRole::Primary => "5小时额度"@,
        WindowRole::Secondary => "周额度"@,
        WindowRole::Monthly => "月额度"@,
    }
}

pub open spec fn window_seconds(role: WindowRole) -> Option<u64> {
    match role {
        WindowRole::Primary => Some(18_000),
        WindowRole::Secondary => Some(604_800),
        WindowRole::Monthly => None,
    }
}

impl WindowRole {
    pub fn key(self) -> (key: &'static str)
        ensures
            key@ == window_key(self),
    {
        match self {
            WindowRole::Primary => "rolling",
            WindowRole::Secondary => "weekly",
            WindowRole::Monthly => "monthly",
        }
    }

    pub fn group(self) -> (group: &'static str)
        ensures
            group@ == window_group(self),
    {
        match self {
            WindowRole::Primary => "shortTerm",
            WindowRole::Secondary => "shortTerm",
            WindowRole::Monthly => "monthly",
        }
    }

    pub fn label(self) -> (label: &'static str)
        ensures
            label@ == window_label(self),
    {
        match self {
            WindowRole::Primary => "5小时额度",
            WindowRole::Secondary => "周额度",
            WindowRole::Monthly => "月额度",
        }
    }

    pub fn seconds(self) -> (seconds: Option<u64>)
        ensures
            seconds == window_seconds(self),
    {
        match self {
            WindowRole::Primary => Some(18_000),
            WindowRole::Secondary => Some(604_800),
            WindowRole::Monthly => None,
        }
    }
}

/// Which of an account's own requests count towards a window: all of them, or none that can be
/// named.
#[derive(Debug, Clone, Copy, PartialEq, Eq, Structural)]
pub enum UsageAttribution {
    Account,
    Unavailable,
}

/// A window of the quota, as far as it is known. The used share is the bit pattern of a binary64
/// number. Limits hold for single models and reports do not name them, so no usage that is counted
/// for the whole account is ascribed to a window.
#[derive(Debug, Clone, Copy, PartialEq, Eq, Structural)]
pub struct QuotaWindow {
    pub role: WindowRole,
    pub local_usage_attribution: UsageAttribution,
    pub used_percent: Option<u64>,
    pub reset_at: Option<Moment>,
    pub limit_reached: bool,
}

/// The moment that an RFC 3339 text stands for: seconds since the Unix epoch, and the nanoseconds
/// that follow; `None` where it is no such text.
pub uninterp spec fn rfc3339_moment(text: Seq<char>) -> Option<(i64, u32)>;

/// `chrono::DateTime::parse_from_rfc3339` either fails or gives the moment that the text stands
/// for, which depends on the text alone.
#[verifier::external_body]
fn parse_rfc3339(text: &str) -> (moment: Option<(i64, u32)>)
    ensures
        moment == rfc3339_moment(text@),
{
    let parsed = chrono::DateTime::parse_from_rfc3339(text).ok()?;
    Some((parsed.timestamp(), parsed.timestamp_subsec_nanos()))
}

/// A binary64 number without its sign.
pub open spec fn magnitude(bits: u64) -> int {
    if bits >= SIGN {
        bits - SIGN
    } else {
        bits as int
    }
}

/// A number held between 0 and 100, by its bit pattern: the patterns of numbers from 0 up have
/// the order of the numbers, and those with the sign bit are below, except for the negative zero.
/// Infinities and what is no number are not known.
pub open spec fn clamped(bits: u64) -> Option<u64> {
    if magnitude(bits) >= INFINITE {
        None
    } else if bits > SIGN {
        Some(0)
    } else if bits < SIGN && bits > HUNDRED {
        Some(HUNDRED)
    } else {
        Some(bits)
    }
}

/// The used share that a window states.
pub open spec fn percent_read(value: Option<JsonView>) -> Option<u64> {
    match value {
        Some(JsonView::Number(number)) => clamped(nearest_binary64(number)),
        _ => None,
    }
}

/// Whether a used share is the whole.
pub open spec fn is_full(percent: Option<u64>) -> bool {
    percent matches Some(bits) && HUNDRED <= bits < SIGN
}

pub open spec fn reset_read(value: Option<JsonView>) -> Option<Moment> {
    match as_text(value) {
        Some(text) => match rfc3339_moment(text) {
            Some((seconds, nanos)) => Some(Moment { seconds, nanos }),
            None => None,
        },
        None => None,
    }
}

/// What a window says, if it says anything. Its limit is reached where the upstream says so, or
/// where the used share is the whole.
pub open spec fn window_of(
    role: WindowRole,
    percent: Option<u64>,
    status: Option<Seq<char>>,
    reset_at: Option<Moment>,
) -> Option<QuotaWindow> {
    if percent is None && status is None && reset_at is None {
        None
    } else {
        Some(
            QuotaWindow {
                role,
                local_usage_attribution: UsageAttribution::Unavailable,
                used_percent: percent,
                reset_at,
                limit_reached: status == Some("rate-limited"@) || is_full(percent),
            },
        )
    }
}

/// A window of a report.
pub open spec fn window_read(report: Fields, role: WindowRole) -> Option<QuotaWindow> {
    match field(report, window_key(role)) {
        Some(JsonView::Object(source)) => window_of(
            role,
            percent_read(field(source, "percent"@)),
            as_text(field(source, "status"@)),
            reset_read(field(source, "resetsAt"@)),
        ),
        _ => None,
    }
}

pub open spec fn with_window(windows: Seq<QuotaWindow>, window: Option<QuotaWindow>) -> Seq<
    QuotaWindow,
> {
    match window {
        Some(window) => windows.push(window),
        None => windows,
    }
}

/// The windows of a report that say anything, from the shortest to the longest.
pub open spec fn windows_read(report: Fields) -> Seq<QuotaWindow> {
    let rolling = with_window(seq![], window_read(report, WindowRole::Primary));
    let weekly = with_window(rolling, window_read(report, WindowRole::Secondary));
    with_window(weekly, window_read(report, WindowRole::Monthly))
}

/// The report inside an answer: an object that is not empty.
pub open spec fn report_of(body: JsonView) -> Option<Fields> {
    match get(Some(body), "usage"@) {
        Some(JsonView::Object(report)) => if report == Map::<Seq<char>, JsonView>::empty() {
            None
        } else {
            Some(report)
        },
        _ => None,
    }
}

/// Takes the report out of an answer. Without one the answer is invalid, not a quota without
/// limits.
pub fn usage_document(body: &Json) -> (report: Result<JsonObject, QuotaError>)
    ensures
        match report_of(body@) {
            Some(expected) => report matches Ok(report) && report@ == expected,
            None => report == Err::<JsonObject, QuotaError>(QuotaError::Invalid),
        },
{
    match body.get("usage") {
        Some(Json::Object(report)) => if report.is_empty() {
            Err(QuotaError::Invalid)
        } else {
            Ok(report.clone())
        },
        _ => Err(QuotaError::Invalid),
    }
}

/// What a window's used share says where it is an integer: it is the whole exactly from 100 on.
pub open spec fn integer_share_decides(value: Option<JsonView>) -> bool {
    match value {
        Some(JsonView::Number(NumberView::Unsigned(share))) => is_full(percent_read(value))
            <==> share >= 100,
        Some(JsonView::Number(NumberView::Negative(_))) => !is_full(percent_read(value)),
        _ => true,
    }
}

/// The used share that a report states for a window.
pub open spec fn stated_share(report: Fields, role: WindowRole) -> Option<JsonView> {
    get(field(report, window_key(role)), "percent"@)
}

/// A number held between 0 and 100.
pub fn clamp_percent(bits: u64) -> (percent: Option<u64>)
    ensures
        percent == clamped(bits),
{
    let magnitude: u64 = if bits >= SIGN {
        bits - SIGN
    } else {
        bits
    };
    if magnitude >= INFINITE {
        None
    } else if bits > SIGN {
        Some(0)
    } else if bits < SIGN && bits > HUNDRED {
        Some(HUNDRED)
    } else {
        Some(bits)
    }
}

fn read_percent(value: Option<&Json>) -> (percent: Option<u64>)
    ensures
        percent == percent_read(crate::json::view_option(value)),
        integer_share_decides(crate::json::view_option(value)),
{
    match value {
        Some(Json::Number(number)) => match number.binary64() {
            Some(bits) => clamp_percent(bits),
            None => None,
        },
        _ => None,
    }
}

fn read_reset(value: Option<&Json>) -> (reset_at: Option<Moment>)
    ensures
        reset_at == reset_read(crate::json::view_option(value)),
{
    match value {
        Some(value) => match value.as_text() {
            Some(text) => match parse_rfc3339(text) {
                Some((seconds, nanos)) => Some(Moment { seconds, nanos }),
                None => None,
            },
            None => None,
        },
        None => None,
    }
}

/// What a window says, from its used share, its status and the time of its reset.
pub fn project_window(
    role: WindowRole,
    percent: Option<u64>,
    status: Option<&str>,
    reset_at: Option<Moment>,
) -> (window: Option<QuotaWindow>)
    ensures
        window == window_of(role, percent, crate::json::view_text(status), reset_at),
{
    if percent.is_none() && status.is_none() && reset_at.is_none() {
        return None;
    }
    let limited = match status {
        Some(status) => same_text(status, "rate-limited"),
        None => false,
    };
    let full = match percent {
        Some(bits) => HUNDRED <= bits && bits < SIGN,
        None => false,
    };
    Some(
        QuotaWindow {
            role,
            local_usage_attribution: UsageAttribution::Unavailable,
            used_percent: percent,
            reset_at,
            limit_reached: limited || full,
        },
    )
}

fn read_window(report: &JsonObject, role: WindowRole) -> (window: Option<QuotaWindow>)
    ensures
        window == window_read(report@, role),
        integer_share_decides(stated_share(report@, role)),
{
    match report.get(role.key()) {
        Some(Json::Object(source)) => {
            let percent = read_percent(source.get("percent"));
            let status = match source.get("status") {
                Some(status) => status.as_text(),
                None => None,
            };
            let reset_at = read_reset(source.get("resetsAt"));
            project_window(role, percent, status, reset_at)
        },
        _ => None,
    }
}

/// The windows of a report. What was stored of it earlier reads the same.
pub fn interpret(report: &JsonObject) -> (windows: Result<Vec<QuotaWindow>, QuotaError>)
    ensures
        match windows {
            Ok(windows) => windows@.len() > 0 && windows@ == windows_read(report@),
            Err(error) => windows_read(report@).len() == 0 && error == QuotaError::Invalid,
        },
        forall|role: WindowRole| integer_share_decides(#[trigger] stated_share(report@, role)),
{
    let mut windows: Vec<QuotaWindow> = Vec::new();
    if let Some(window) = read_window(report, WindowRole::Primary) {
        windows.push(window);
    }
    if let Some(window) = read_window(report, WindowRole::Secondary) {
        windows.push(window);
    }
    if let Some(window) = read_window(report, WindowRole::Monthly) {
        windows.push(window);
    }
    assert(windows@ =~= windows_read(report@));
    assert forall|role: WindowRole| integer_share_decides(
        #[trigger] stated_share(report@, role),
    ) by {
        match role {
            WindowRole::Primary => {},
            WindowRole::Secondary => {},
            WindowRole::Monthly => {},
        }
    }
    if windows.len() == 0 {
        return Err(QuotaError::Invalid);
    }
    Ok(windows)
}

/// Whether a window's limit still holds: it was reached, and its reset has not come yet.
pub open spec fn is_active(window: QuotaWindow, now: Moment) -> bool {
    window.limit_reached && (window.reset_at matches Some(reset) ==> reset.instant()
        > now.instant())
}

pub open spec fn any_active(windows: Seq<QuotaWindow>, now: Moment) -> bool {
    exists|i: int| 0 <= i < windows.len() && is_active(#[trigger] windows[i], now)
}

fn window_active(window: &QuotaWindow, now: Moment) -> (active: bool)
    ensures
        active == is_active(*window, now),
{
    window.limit_reached && match window.reset_at {
        Some(reset) => reset.after(now),
        None => true,
    }
}

/// Whether the limit of any window still holds.
pub fn limit_reached(windows: &Vec<QuotaWindow>, now: Moment) -> (reached: bool)
    ensures
        reached == any_active(windows@, now),
{
    let mut i: usize = 0;
    while i < windows.len()
        invariant
            i <= windows.len(),
            forall|j: int| 0 <= j < i ==> !is_active(#[trigger] windows@[j], now),
        decreases windows.len() - i,
    {
        if window_active(&windows[i], now) {
            assert(is_active(windows@[i as int], now));
            return true;
        }
        i += 1;
    }
    false
}

/// What shows that an account's quota is used up.
#[derive(Debug, Clone, Copy, PartialEq, Eq, Structural)]
pub enum QuotaEvidence {
    AccountLimitReached,
}

/// What is known of an account's access. Nothing but a reached limit is evidence: a share that
/// is left does not show that requests are let through.
#[derive(Debug, Clone, Copy, PartialEq, Eq, Structural)]
pub enum QuotaState {
    Exhausted { evidence: QuotaEvidence, observed_at: Moment, reset_at: Option<Moment> },
    ObservedUnknown { observed_at: Moment },
}

/// The earlier one of a moment that may be unknown and a known one.
pub open spec fn earlier(known: Option<Moment>, other: Moment) -> Moment {
    match known {
        Some(moment) => if other.instant() < moment.instant() {
            other
        } else {
            moment
        },
        None => other,
    }
}

/// The first reset among the first windows whose limit still holds, as far as they state one.
pub open spec fn first_reset(windows: Seq<QuotaWindow>, now: Moment) -> Option<Moment>
    decreases windows.len(),
{
    if windows.len() == 0 {
        None
    } else {
        let before = first_reset(windows.drop_last(), now);
        match windows.last().reset_at {
            Some(reset) if is_active(windows.last(), now) => Some(earlier(before, reset)),
            _ => before,
        }
    }
}

pub open spec fn state_of(windows: Seq<QuotaWindow>, observed_at: Moment) -> QuotaState {
    if any_active(windows, observed_at) {
        QuotaState::Exhausted {
            evidence: QuotaEvidence::AccountLimitReached,
            observed_at,
            reset_at: first_reset(windows, observed_at),
        }
    } else {
        QuotaState::ObservedUnknown { observed_at }
    }
}

/// What windows say of an account's access.
pub fn access_state(windows: &Vec<QuotaWindow>, observed_at: Moment) -> (state: QuotaState)
    ensures
        state == state_of(windows@, observed_at),
{
    let mut reset_at: Option<Moment> = None;
    let mut i: usize = 0;
    assert(windows@.take(0) =~= seq![]);
    while i < windows.len()
        invariant
            i <= windows.len(),
            reset_at == first_reset(windows@.take(i as int), observed_at),
        decreases windows.len() - i,
    {
        assert(windows@.take(i + 1).drop_last() =~= windows@.take(i as int));
        if window_active(&windows[i], observed_at) {
            if let Some(reset) = windows[i].reset_at {
                reset_at = match reset_at {
                    Some(current) => if current.after(reset) {
                        Some(reset)
                    } else {
                        Some(current)
                    },
                    None => Some(reset),
                };
            }
        }
        i += 1;
    }
    assert(windows@.take(i as int) =~= windows@);
    if limit_reached(windows, observed_at) {
        QuotaState::Exhausted { evidence: QuotaEvidence::AccountLimitReached, observed_at, reset_at }
    } else {
        QuotaState::ObservedUnknown { observed_at }
    }
}

/// Whether an answer is the upstream's own refusal for want of a subscription, and not the page
/// of some server in between.
pub open spec fn is_entitlement_error(document: Option<JsonView>) -> bool {
    as_text(get(get(document, "error"@), "type"@)) == Some("EntitlementError"@)
}

/// What an answer that is no success means.
pub open spec fn rejection_of(status: u16, document: Option<JsonView>) -> QuotaError {
    if status == 401 {
        QuotaError::Unauthorized
    } else if status == 403 && is_entitlement_error(document) {
        QuotaError::NoPlan
    } else {
        QuotaError::Upstream
    }
}

fn entitlement_denied(document: &Option<Json>) -> (denied: bool)
    ensures
        denied == is_entitlement_error(
            match *document {
                Some(document) => Some(document@),
                None => None,
            },
        ),
{
    match document {
        Some(document) => match document.get("error") {
            Some(error) => match error.text_at("type") {
                Some(kind) => same_text(kind, "EntitlementError"),
                None => false,
            },
            None => false,
        },
        None => false,
    }
}

/// What an answer that is no success means, from what its body was read as.
pub fn rejection_from(status: u16, document: &Option<Json>) -> (error: QuotaError)
    ensures
        error == rejection_of(
            status,
            match *document {
                Some(document) => Some(document@),
                None => None,
            },
        ),
{
    if status == 401 {
        QuotaError::Unauthorized
    } else if status == 403 && entitlement_denied(document) {
        QuotaError::NoPlan
    } else {
        QuotaError::Upstream
    }
}

/// What an answer that is no success means.
pub fn rejection(status: u16, body: &str) -> (error: QuotaError)
    ensures
        error == rejection_of(status, parsed_json(body@)),
{
    rejection_from(status, &Json::parse(body))
}

/// The report of an answer, or why there is none.
pub open spec fn usage_read(success: bool, status: u16, document: Option<JsonView>) -> Result<
    Fields,
    QuotaError,
> {
    if !success {
        Err(rejection_of(status, document))
    } else {
        match document {
            Some(document) => match report_of(document) {
                Some(report) => Ok(report),
                None => Err(QuotaError::Invalid),
            },
            None => Err(QuotaError::Invalid),
        }
    }
}

/// Reads an answer to the question for the usage report.
pub fn read_usage(success: bool, status: u16, body: &str) -> (report: Result<
    JsonObject,
    QuotaError,
>)
    ensures
        match usage_read(success, status, parsed_json(body@)) {
            Ok(expected) => report matches Ok(report) && report@ == expected,
            Err(error) => report == Err::<JsonObject, QuotaError>(error),
        },
{
    if !success {
        return Err(rejection(status, body));
    }
    match Json::parse(body) {
        Some(document) => usage_document(&document),
        None => Err(QuotaError::Invalid),
    }
}

/// The question for the usage report: only what it needs, under the same session every time.
pub struct UsageRequest {
    pub endpoint: String,
    pub headers: Vec<Header>,
    pub bearer: String,
}

pub open spec fn usage_headers(account_id: Seq<char>) -> Seq<(Seq<char>, Seq<char>)> {
    seq![
        ("accept"@, "application/json"@),
        ("user-agent"@, user_agent_text()),
        ("x-opencode-client"@, CLIENT_KIND@),
        ("x-opencode-session"@, quota_session_id(account_id)),
    ]
}

/// What to send for the usage report of an account.
pub fn usage_request(endpoint: String, account_id: &str, api_key: &str) -> (request: UsageRequest)
    ensures
        request.endpoint == endpoint,
        headers_view(request.headers@) == usage_headers(account_id@),
        request.bearer@ == api_key@,
{
    let mut headers: Vec<Header> = Vec::new();
    assert(headers_view(headers@) =~= seq![]);
    push_header(&mut headers, "accept", "application/json");
    push_header(&mut headers, "user-agent", user_agent().as_str());
    push_header(&mut headers, "x-opencode-client", CLIENT_KIND);
    push_header(&mut headers, "x-opencode-session", quota_session(account_id).as_str());
    assert(headers_view(headers@) =~= usage_headers(account_id@));
    UsageRequest { endpoint, headers, bearer: api_key.to_owned() }
}

/// No window of any report is ascribed usage that is counted for the whole account.
pub proof fn lemma_no_usage_is_ascribed(report: Fields)
    ensures
        forall|i: int|
            0 <= i < windows_read(report).len() ==> (
            #[trigger] windows_read(report)[i]).local_usage_attribution
                == UsageAttribution::Unavailable,
{
}

/// An account is called exhausted exactly where the limit of some window still holds.
pub proof fn lemma_exhausted_is_reached(windows: Seq<QuotaWindow>, observed_at: Moment)
    ensures
        state_of(windows, observed_at) is Exhausted <==> any_active(windows, observed_at),
{
}

/// Time alone never makes a limit reached: one that holds later has held all the time since.
pub proof fn lemma_limits_only_expire(windows: Seq<QuotaWindow>, now: Moment, later: Moment)
    requires
        now.instant() <= later.instant(),
        any_active(windows, later),
    ensures
        any_active(windows, now),
{
    let i = choose|i: int| 0 <= i < windows.len() && is_active(#[trigger] windows[i], later);
    assert(is_active(windows[i], now));
}

/// The reset that is reported belongs to a window whose limit still holds, lies ahead, and no
/// such window states an earlier one.
pub proof fn lemma_first_reset(windows: Seq<QuotaWindow>, now: Moment)
    ensures
        match first_reset(windows, now) {
            Some(reset) => {
                &&& reset.instant() > now.instant()
                &&& exists|i: int|
                    0 <= i < windows.len() && is_active(#[trigger] windows[i], now)
                        && windows[i].reset_at == Some(reset)
                &&& forall|i: int|
                    0 <= i < windows.len() && is_active(#[trigger] windows[i], now)
                        && windows[i].reset_at is Some ==> reset.instant()
                        <= windows[i].reset_at->0.instant()
            },
            None => forall|i: int|
                0 <= i < windows.len() && is_active(#[trigger] windows[i], now)
                    ==> windows[i].reset_at is None,
        },
    decreases windows.len(),
{
    if windows.len() > 0 {
        let front = windows.drop_last();
        lemma_first_reset(front, now);
        let last = windows.len() - 1;
        assert(windows[last] == windows.last());
        assert forall|i: int| 0 <= i < front.len() implies front[i] == #[trigger] windows[i] by {
        }
        if let Some(before) = first_reset(front, now) {
            let i = choose|i: int|
                0 <= i < front.len() && is_active(#[trigger] front[i], now) && front[i].reset_at
                    == Some(before);
            assert(is_active(windows[i], now));
        }
        assert forall|i: int| 0 <= i < front.len() && is_active(front[i], now) implies is_active(
            #[trigger] windows[i],
            now,
        ) by {
        }
    }
}

/// A share that is kept is a number from 0 to 100, the negative zero among them.
pub proof fn lemma_percent_bounds(bits: u64)
    ensures
        clamped(bits) matches Some(percent) ==> percent <= HUNDRED || percent == SIGN,
{
}

} // verus!
