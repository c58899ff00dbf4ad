//! What holds of every answer to a question for a quota.

use crate::credential::{credential_read, Tier};
use crate::error::AdminErrorKind;
use crate::json::{
    field, nearest_binary64, Fields, JsonObject, JsonView, HUNDRED, INFINITE, SIGN,
};
use crate::quota::{
    any_active, first_reset, is_active, lemma_first_reset, magnitude, rfc3339_moment, window_read,
    windows_read, QuotaError, QuotaEvidence, QuotaState, QuotaWindow, UsageAttribution,
    WindowRole,
};
use crate::quota_query::{next, ActionView, QueryEvent, QueryPhase, QueryView, QuotaView};
use crate::time::{Moment, NANOS_PER_SECOND};
use vstd::prelude::*;

verus! {

/// Whether a moment lies after another one.
pub open spec fn lies_after(moment: Moment, other: Moment) -> bool {
    moment.seconds * NANOS_PER_SECOND + moment.nanos > other.seconds * NANOS_PER_SECOND
        + other.nanos
}

/// Whether a limit was reached that has not been reset by a time.
pub open spec fn held_at(window: QuotaWindow, now: Moment) -> bool {
    window.limit_reached && match window.reset_at {
        Some(reset) => lies_after(reset, now),
        None => true,
    }
}

/// When the question was asked, where the event says so.
pub open spec fn asked_at(event: QueryEvent) -> Option<Moment> {
    match event {
        QueryEvent::Stored { now } => Some(now),
        QueryEvent::Found { now, .. } => Some(now),
        _ => None,
    }
}

/// Whatever is shown, fresh or stored: a limit is called reached exactly where some shown window
/// was reached and has no reset, or one that still lies ahead when the quota is read. Where no
/// report is shown there is no window, no time and no limit.
pub proof fn lemma_limits_hold_when_read(query: QueryView, event: QueryEvent, quota: QuotaView)
    requires
        next(query, event).1 == ActionView::Show(quota),
    ensures
        quota.limit_reached <==> (asked_at(event) is Some && exists|i: int|
            0 <= i < quota.windows.len() && held_at(
                #[trigger] quota.windows[i],
                asked_at(event)->0,
            )),
        quota.windows.len() == 0 <==> quota.observed_at is None,
        next(query, event).0.phase == QueryPhase::Finished,
{
    if let Some(now) = asked_at(event) {
        assert forall|i: int| 0 <= i < quota.windows.len() implies is_active(
            #[trigger] quota.windows[i],
            now,
        ) == held_at(quota.windows[i], now) by {
        }
        if quota.limit_reached {
            let i = choose|i: int|
                0 <= i < quota.windows.len() && is_active(#[trigger] quota.windows[i], now);
            assert(held_at(quota.windows[i], now));
        }
    }
}

/// Once the resets of all windows that were reached have come, a report that is read shows no
/// limit any more.
pub proof fn lemma_past_resets_lift_limits(query: QueryView, event: QueryEvent, quota: QuotaView)
    requires
        next(query, event).1 == ActionView::Show(quota),
        asked_at(event) is Some,
        forall|i: int|
            0 <= i < quota.windows.len() && (#[trigger] quota.windows[i]).limit_reached
                ==> quota.windows[i].reset_at is Some && !lies_after(
                quota.windows[i].reset_at->0,
                asked_at(event)->0,
            ),
    ensures
        !quota.limit_reached,
{
    lemma_limits_hold_when_read(query, event, quota);
}

/// The name under which a report holds a window.
pub open spec fn reported_as(role: WindowRole) -> Seq<char> {
    match role {
        WindowRole::Primary => "rolling"@,
        WindowRole::Secondary => "weekly"@,
        WindowRole::Monthly => "monthly"@,
    }
}

/// The used share that a window states, as a number that is finite.
pub open spec fn finite_share(source: Fields) -> Option<u64> {
    match field(source, "percent"@) {
        Some(JsonView::Number(number)) => {
            let bits = nearest_binary64(number);
            if bits < INFINITE || SIGN <= bits < SIGN + INFINITE {
                Some(bits)
            } else {
                None
            }
        },
        _ => None,
    }
}

/// The time of the reset that a window states, as far as it can be read.
pub open spec fn stated_reset(source: Fields) -> Option<(i64, u32)> {
    match field(source, "resetsAt"@) {
        Some(JsonView::Text(text)) => rfc3339_moment(text),
        _ => None,
    }
}

/// Whether a shown window says what the report says of it: the same share, held between 0 and
/// 100, the same reset, and that its limit is reached exactly where the report calls it limited
/// or the share is at least 100.
pub open spec fn says_what_is_reported(window: QuotaWindow, source: Fields) -> bool {
    &&& match finite_share(source) {
        None => window.used_percent is None,
        Some(bits) => window.used_percent == Some(
            if SIGN < bits {
                0
            } else if HUNDRED < bits && bits < SIGN {
                HUNDRED
            } else {
                bits
            },
        ),
    }
    &&& match stated_reset(source) {
        None => window.reset_at is None,
        Some(reset) => window.reset_at == Some(Moment { seconds: reset.0, nanos: reset.1 }),
    }
    &&& window.limit_reached <==> (field(source, "status"@) == Some(
        JsonView::Text("rate-limited"@),
    ) || (finite_share(source) matches Some(bits) && HUNDRED <= bits < SIGN))
    &&& window.local_usage_attribution == UsageAttribution::Unavailable
}

/// Whether a report says anything of a window.
pub open spec fn says_anything(report: Fields, role: WindowRole) -> bool {
    field(report, reported_as(role)) matches Some(JsonView::Object(source)) && (finite_share(
        source,
    ) is Some || field(source, "status"@) matches Some(JsonView::Text(_)) || stated_reset(
        source,
    ) is Some)
}

pub open spec fn place_of(role: WindowRole) -> int {
    match role {
        WindowRole::Primary => 0,
        WindowRole::Secondary => 1,
        WindowRole::Monthly => 2,
    }
}

/// The report that an event brings up, and when it was observed.
pub open spec fn report_at_hand(query: QueryView, event: QueryEvent) -> Option<(Fields, Moment)> {
    match event {
        QueryEvent::Stored { .. } => query.report,
        QueryEvent::Found { stored: Some((report, observed_at)), .. } => Some(
            (report@, observed_at),
        ),
        _ => None,
    }
}

proof fn lemma_window_says(report: Fields, role: WindowRole)
    ensures
        match window_read(report, role) {
            Some(window) => window.role == role && says_anything(report, role)
                && says_what_is_reported(
                window,
                field(report, reported_as(role))->0->Object_0,
            ),
            None => !says_anything(report, role),
        },
{
    if let Some(JsonView::Object(source)) = field(report, reported_as(role)) {
        if let Some(JsonView::Number(number)) = field(source, "percent"@) {
            let bits = nearest_binary64(number);
            assert(magnitude(bits) < INFINITE <==> finite_share(source) is Some);
        }
    }
}

/// What is shown of a report: the windows of which it says anything, each once and from the
/// shortest to the longest, and each with what the report says of it; the product is Go, and the
/// time is that of the observation.
pub proof fn lemma_report_is_shown(
    query: QueryView,
    event: QueryEvent,
    quota: QuotaView,
    role: WindowRole,
)
    requires
        next(query, event).1 == ActionView::Show(quota),
        report_at_hand(query, event) is Some,
    ensures
        ({
            let (report, observed_at) = report_at_hand(query, event)->0;
            &&& quota.plan_type == Tier::Go
            &&& quota.observed_at == Some(observed_at)
            &&& forall|i: int, j: int|
                0 <= i < j < quota.windows.len() ==> place_of((#[trigger] quota.windows[i]).role)
                    < place_of((#[trigger] quota.windows[j]).role)
            &&& says_anything(report, role) ==> exists|i: int|
                0 <= i < quota.windows.len() && (#[trigger] quota.windows[i]).role == role
                    && says_what_is_reported(
                    quota.windows[i],
                    field(report, reported_as(role))->0->Object_0,
                )
            &&& !says_anything(report, role) ==> forall|i: int|
                0 <= i < quota.windows.len() ==> (#[trigger] quota.windows[i]).role != role
        }),
{
    let (report, _) = report_at_hand(query, event)->0;
    let first = window_read(report, WindowRole::Primary);
    let second = window_read(report, WindowRole::Secondary);
    let third = window_read(report, WindowRole::Monthly);
    lemma_window_says(report, WindowRole::Primary);
    lemma_window_says(report, WindowRole::Secondary);
    lemma_window_says(report, WindowRole::Monthly);
    let windows = quota.windows;
    assert(windows == windows_read(report));
    if says_anything(report, role) {
        let at: int = match role {
            WindowRole::Primary => 0,
            WindowRole::Secondary => if first is Some {
                1
            } else {
                0
            },
            WindowRole::Monthly => windows.len() - 1,
        };
        assert(windows[at].role == role);
    }
}

/// A report that says nothing of any window is never shown or stored: it stands for no quota.
pub proof fn lemma_empty_report_is_refused(query: QueryView, event: QueryEvent, report: Fields)
    requires
        forall|role: WindowRole| !#[trigger] says_anything(report, role),
        report_at_hand(query, event) matches Some((shown, _)) && shown == report || (
        event matches QueryEvent::Fetched { report: Ok(fetched), .. } && fetched@ == report),
    ensures
        next(query, event).1 == ActionView::Missing(QuotaError::Invalid),
{
    lemma_window_says(report, WindowRole::Primary);
    lemma_window_says(report, WindowRole::Secondary);
    lemma_window_says(report, WindowRole::Monthly);
    assert(!says_anything(report, WindowRole::Primary));
    assert(!says_anything(report, WindowRole::Secondary));
    assert(!says_anything(report, WindowRole::Monthly));
}

/// What is stored with a fetched report: the account is exhausted exactly where, at the time of
/// the observation, the limit of some window of the report holds; it is then to be asked for
/// again at the earliest reset that such a window states. A share that is left proves nothing.
pub proof fn lemma_stored_state_follows_the_report(
    query: QueryView,
    event: QueryEvent,
    state: QuotaState,
)
    requires
        next(query, event).1 == ActionView::Store(state),
    ensures
        event matches QueryEvent::Fetched { report: Ok(report), observed_at } && {
            let windows = windows_read(report@);
            let holds = exists|i: int|
                0 <= i < windows.len() && held_at(#[trigger] windows[i], observed_at);
            &&& next(query, event).0.report == Some((report@, observed_at))
            &&& match state {
                QuotaState::Exhausted { evidence, observed_at: at, reset_at } => {
                    &&& holds
                    &&& evidence == QuotaEvidence::AccountLimitReached
                    &&& at == observed_at
                    &&& match reset_at {
                        None => forall|i: int|
                            0 <= i < windows.len() && held_at(#[trigger] windows[i], observed_at)
                                ==> windows[i].reset_at is None,
                        Some(reset) => {
                            &&& exists|i: int|
                                0 <= i < windows.len() && held_at(
                                    #[trigger] windows[i],
                                    observed_at,
                                ) && windows[i].reset_at == Some(reset)
                            &&& forall|i: int|
                                0 <= i < windows.len() && held_at(
                                    #[trigger] windows[i],
                                    observed_at,
                                ) && windows[i].reset_at is Some ==> !lies_after(
                                    reset,
                                    windows[i].reset_at->0,
                                )
                        },
                    }
                },
                QuotaState::ObservedUnknown { observed_at: at } => !holds && at == observed_at,
            }
        },
{
    if let QueryEvent::Fetched { report: Ok(report), observed_at } = event {
        let windows = windows_read(report@);
        lemma_first_reset(windows, observed_at);
        assert forall|i: int| 0 <= i < windows.len() implies is_active(
            #[trigger] windows[i],
            observed_at,
        ) == held_at(windows[i], observed_at) by {
        }
        if any_active(windows, observed_at) {
            let i = choose|i: int|
                0 <= i < windows.len() && is_active(#[trigger] windows[i], observed_at);
            assert(held_at(windows[i], observed_at));
        }
        if let Some(reset) = first_reset(windows, observed_at) {
            let i = choose|i: int|
                0 <= i < windows.len() && is_active(#[trigger] windows[i], observed_at)
                    && windows[i].reset_at == Some(reset);
            assert(held_at(windows[i], observed_at));
        }
    }
}

/// How a question goes on. A refresh asks the upstream and shows what came of it; without one
/// only what was stored is looked for. What is missing is told by its reason and nothing is
/// stored for it; a product other than Go shows no window, whatever was stored.
pub proof fn lemma_course_of_a_question(query: QueryView, event: QueryEvent)
    ensures
        event matches QueryEvent::Fetched { report: Err(error), .. } ==> next(query, event).1
            == ActionView::Missing(error),
        event matches QueryEvent::Found { stored: None, .. } ==> (next(
            query,
            event,
        ).1 matches ActionView::Show(quota) && quota.plan_type == Tier::Go && quota.windows.len()
            == 0 && !quota.limit_reached),
        next(query, event).1 is Find ==> !query.refresh && next(query, event).0.phase
            == QueryPhase::Finding,
        next(query, event).1 is Fetch ==> query.refresh && next(query, event).0.phase
            == QueryPhase::Fetching,
        next(query, event).1 is Store ==> next(query, event).0.phase == QueryPhase::Storing,
        next(query, event).1 is Fail || next(query, event).1 is Missing ==> next(
            query,
            event,
        ).0.phase == QueryPhase::Finished,
        next(query, event).0.refresh == query.refresh,
        next(query, event).0.kind == query.kind,
{
}

/// What becomes of an account that was loaded: one of another provider is not found, one whose
/// credential cannot be read is invalid. A Zen account has nothing to show. For a Go account the
/// upstream is asked with its credential where a refresh is wanted, else what was stored is looked
/// for.
pub proof fn lemma_loaded_accounts(query: QueryView, provider: String, material: JsonObject)
    ensures
        ({
            let (after, action) = next(query, QueryEvent::Loaded { provider, material });
            if provider@ != query.kind {
                action == ActionView::Fail(AdminErrorKind::NotFound)
            } else {
                match credential_read(JsonView::Object(material@)) {
                    None => action == ActionView::Fail(AdminErrorKind::Invalid),
                    Some(credential) => match credential.tier {
                        Tier::Zen => action matches ActionView::Show(quota) && quota.plan_type
                            == Tier::Zen && quota.windows.len() == 0 && !quota.limit_reached
                            && quota.observed_at is None,
                        Tier::Go => if query.refresh {
                            action == ActionView::Fetch(credential) && after.phase
                                == QueryPhase::Fetching
                        } else {
                            action == ActionView::Find && after.phase == QueryPhase::Finding
                        },
                    },
                }
            }
        }),
{
}

/// What the host cannot do is reported as such, and a report that came too late as a conflict.
pub proof fn lemma_failures_are_reported(query: QueryView)
    ensures
        next(query, QueryEvent::Unavailable).1 == ActionView::Fail(AdminErrorKind::Unavailable),
        next(query, QueryEvent::Conflicted).1 == ActionView::Fail(AdminErrorKind::Conflict),
{
}

/// A fetched report that says anything of a window is stored as it came, with the time at which
/// it was observed, and is then what is shown.
pub proof fn lemma_readable_report_is_stored(
    query: QueryView,
    report: JsonObject,
    observed_at: Moment,
    role: WindowRole,
    now: Moment,
)
    requires
        says_anything(report@, role),
    ensures
        ({
            let (after, action) = next(
                query,
                QueryEvent::Fetched { report: Ok(report), observed_at },
            );
            &&& action is Store
            &&& after.phase == QueryPhase::Storing
            &&& after.report == Some((report@, observed_at))
            &&& next(after, QueryEvent::Stored { now }).1 is Show
        }),
{
    lemma_window_says(report@, role);
    lemma_window_says(report@, WindowRole::Primary);
    lemma_window_says(report@, WindowRole::Secondary);
    lemma_window_says(report@, WindowRole::Monthly);
}

} // verus!
