//! Answering a question for an account's quota. The host loads, fetches and stores; what each
//! result leads to is decided here.

pub mod laws;

use crate::admin::{current_credential, current_read, is_quota_failure, map_quota_error};
use crate::credential::{Credential, CredentialView, Tier};
use crate::error::{admin_failure, AdminError, AdminErrorKind};
use crate::json::{Fields, JsonObject};
use crate::quota::{
    access_state, any_active, interpret, limit_reached, state_of, windows_read, QuotaError,
    QuotaState, QuotaWindow,
};
use crate::time::Moment;
use vstd::prelude::*;

verus! {

/// What is shown of an account's quota. No window means that nothing is known, not that nothing
/// is used.
pub struct ProviderQuota {
    pub plan_type: Tier,
    pub observed_at: Option<Moment>,
    pub windows: Vec<QuotaWindow>,
    pub limit_reached: bool,
}

#[verifier::ext_equal]
pub struct QuotaView {
    pub plan_type: Tier,
    pub observed_at: Option<Moment>,
    pub windows: Seq<QuotaWindow>,
    pub limit_reached: bool,
}

impl ProviderQuota {
    pub open spec fn view(&self) -> QuotaView {
        QuotaView {
            plan_type: self.plan_type,
            observed_at: self.observed_at,
            windows: self.windows@,
            limit_reached: self.limit_reached,
        }
    }
}

/// What is shown where there is no report.
pub open spec fn nothing_known(tier: Tier) -> QuotaView {
    QuotaView { plan_type: tier, observed_at: None, windows: seq![], limit_reached: false }
}

/// What is shown of a report: the windows as they were observed, and whether a limit holds now.
pub open spec fn shown(report: Fields, observed_at: Moment, now: Moment) -> QuotaView {
    let windows = windows_read(report);
    QuotaView {
        plan_type: Tier::Go,
        observed_at: Some(observed_at),
        windows,
        limit_reached: any_active(windows, now),
    }
}

pub fn empty_quota(tier: Tier) -> (quota: ProviderQuota)
    ensures
        quota@ == nothing_known(tier),
{
    ProviderQuota { plan_type: tier, observed_at: None, windows: Vec::new(), limit_reached: false }
}

/// What the question waits for.
#[derive(Debug, Clone, Copy, PartialEq, Eq, Structural)]
pub enum QueryPhase {
    Loading,
    Fetching,
    Storing,
    Finding,
    Finished,
}

/// What the host has done.
pub enum QueryEvent {
    /// Loaded the account: its provider and its credential's document.
    Loaded { provider: String, material: JsonObject },
    /// Fetched a report, or not.
    Fetched { report: Result<JsonObject, QuotaError>, observed_at: Moment },
    /// Stored the report.
    Stored { now: Moment },
    /// The credential was replaced meanwhile, so that the report is not its own.
    Conflicted,
    /// Looked for a stored report.
    Found { stored: Option<(JsonObject, Moment)>, now: Moment },
    /// Could not do what was asked.
    Unavailable,
}

/// What the host has to do.
pub enum QueryAction {
    /// Fetch a report with this credential.
    Fetch(Credential),
    /// Store the fetched report, together with what it says of the account's access.
    Store(QuotaState),
    /// Look for a stored report.
    Find,
    Show(ProviderQuota),
    Fail(AdminError),
}

/// A question for an account's quota.
pub struct QuotaQuery {
    pub kind: String,
    /// Whether the upstream is to be asked, rather than what was stored of its last answer.
    pub refresh: bool,
    pub phase: QueryPhase,
    /// The fetched report and when it was observed.
    pub report: Option<(JsonObject, Moment)>,
}

#[verifier::ext_equal]
pub struct QueryView {
    pub kind: Seq<char>,
    pub refresh: bool,
    pub phase: QueryPhase,
    pub report: Option<(Fields, Moment)>,
}

pub open spec fn report_view(report: Option<(JsonObject, Moment)>) -> Option<(Fields, Moment)> {
    match report {
        Some((document, observed_at)) => Some((document@, observed_at)),
        None => None,
    }
}

impl QuotaQuery {
    pub open spec fn view(&self) -> QueryView {
        QueryView {
            kind: self.kind@,
            refresh: self.refresh,
            phase: self.phase,
            report: report_view(self.report),
        }
    }
}

/// What an action comes to.
#[verifier::ext_equal]
pub enum ActionView {
    Fetch(CredentialView),
    Store(QuotaState),
    Find,
    Show(QuotaView),
    /// An error without a message.
    Fail(AdminErrorKind),
    /// The error that stands for a missing quota.
    Missing(QuotaError),
}

/// Whether an action is the expected one.
pub open spec fn is_action(action: QueryAction, expected: ActionView) -> bool {
    match expected {
        ActionView::Fetch(credential) => action matches QueryAction::Fetch(given) && given@
            == credential,
        ActionView::Store(state) => action == QueryAction::Store(state),
        ActionView::Find => action == QueryAction::Find,
        ActionView::Show(quota) => action matches QueryAction::Show(given) && given@ == quota,
        ActionView::Fail(kind) => action == QueryAction::Fail(admin_failure(kind)),
        ActionView::Missing(error) => action matches QueryAction::Fail(given) && is_quota_failure(
            given,
            error,
        ),
    }
}

/// Whether an event answers what the question waits for.
pub open spec fn answers(query: QueryView, event: QueryEvent) -> bool {
    match event {
        QueryEvent::Loaded { .. } => query.phase == QueryPhase::Loading,
        QueryEvent::Fetched { .. } => query.phase == QueryPhase::Fetching,
        QueryEvent::Stored { .. } => query.phase == QueryPhase::Storing,
        QueryEvent::Conflicted => query.phase == QueryPhase::Storing,
        QueryEvent::Found { .. } => query.phase == QueryPhase::Finding,
        QueryEvent::Unavailable => query.phase == QueryPhase::Loading || query.phase
            == QueryPhase::Storing || query.phase == QueryPhase::Finding,
    }
}

pub open spec fn over(query: QueryView, action: ActionView) -> (QueryView, ActionView) {
    (QueryView { phase: QueryPhase::Finished, ..query }, action)
}

/// The account is there. Only the Go product has a report to ask for.
pub open spec fn loaded(query: QueryView, provider: Seq<char>, material: Fields) -> (
    QueryView,
    ActionView,
) {
    match current_read(query.kind, provider, material) {
        Err(kind) => over(query, ActionView::Fail(kind)),
        Ok(credential) => if credential.tier != Tier::Go {
            over(query, ActionView::Show(nothing_known(credential.tier)))
        } else if query.refresh {
            (
                QueryView { phase: QueryPhase::Fetching, ..query },
                ActionView::Fetch(credential),
            )
        } else {
            (QueryView { phase: QueryPhase::Finding, ..query }, ActionView::Find)
        },
    }
}

/// A report is there. It is stored only if it can be read.
pub open spec fn fetched(query: QueryView, report: Result<Fields, QuotaError>, observed_at: Moment) -> (
    QueryView,
    ActionView,
) {
    match report {
        Err(error) => over(query, ActionView::Missing(error)),
        Ok(report) => if windows_read(report).len() == 0 {
            over(query, ActionView::Missing(QuotaError::Invalid))
        } else {
            (
                QueryView {
                    phase: QueryPhase::Storing,
                    report: Some((report, observed_at)),
                    ..query
                },
                ActionView::Store(state_of(windows_read(report), observed_at)),
            )
        },
    }
}

/// Shows a report with the time at which it was observed, not the time at which it is read.
pub open spec fn presented(query: QueryView, report: Fields, observed_at: Moment, now: Moment) -> (
    QueryView,
    ActionView,
) {
    if windows_read(report).len() == 0 {
        over(query, ActionView::Missing(QuotaError::Invalid))
    } else {
        over(query, ActionView::Show(shown(report, observed_at, now)))
    }
}

/// What comes of an event.
pub open spec fn next(query: QueryView, event: QueryEvent) -> (QueryView, ActionView) {
    match event {
        QueryEvent::Unavailable => over(query, ActionView::Fail(AdminErrorKind::Unavailable)),
        QueryEvent::Loaded { provider, material } => loaded(query, provider@, material@),
        QueryEvent::Fetched { report, observed_at } => fetched(
            query,
            match report {
                Ok(report) => Ok(report@),
                Err(error) => Err(error),
            },
            observed_at,
        ),
        QueryEvent::Conflicted => over(query, ActionView::Fail(AdminErrorKind::Conflict)),
        QueryEvent::Stored { now } => match query.report {
            Some((report, observed_at)) => presented(query, report, observed_at, now),
            None => over(query, ActionView::Missing(QuotaError::Invalid)),
        },
        QueryEvent::Found { stored: None, .. } => over(
            query,
            ActionView::Show(nothing_known(Tier::Go)),
        ),
        QueryEvent::Found { stored: Some((report, observed_at)), now } => presented(
            query,
            report@,
            observed_at,
            now,
        ),
    }
}

impl QuotaQuery {
    pub fn new(kind: String, refresh: bool) -> (query: QuotaQuery)
        ensures
            query@ == (QueryView {
                kind: kind@,
                refresh,
                phase: QueryPhase::Loading,
                report: None,
            }),
    {
        QuotaQuery { kind, refresh, phase: QueryPhase::Loading, report: None }
    }

    fn load(&mut self, provider: &str, material: &JsonObject) -> (action: QueryAction)
        ensures
            ({
                let (query, expected) = loaded(old(self)@, provider@, material@);
                final(self)@ == query && is_action(action, expected)
            }),
    {
        match current_credential(self.kind.as_str(), provider, material) {
            Err(error) => {
                self.phase = QueryPhase::Finished;
                QueryAction::Fail(error)
            },
            Ok(credential) => if credential.tier != Tier::Go {
                self.phase = QueryPhase::Finished;
                QueryAction::Show(empty_quota(credential.tier))
            } else if self.refresh {
                self.phase = QueryPhase::Fetching;
                QueryAction::Fetch(credential)
            } else {
                self.phase = QueryPhase::Finding;
                QueryAction::Find
            },
        }
    }

    fn fetch(&mut self, report: Result<JsonObject, QuotaError>, observed_at: Moment) -> (action:
        QueryAction)
        ensures
            ({
                let (query, expected) = fetched(
                    old(self)@,
                    match report {
                        Ok(report) => Ok(report@),
                        Err(error) => Err(error),
                    },
                    observed_at,
                );
                final(self)@ == query && is_action(action, expected)
            }),
    {
        let report = match report {
            Ok(report) => report,
            Err(error) => {
                self.phase = QueryPhase::Finished;
                return QueryAction::Fail(map_quota_error(error));
            },
        };
        match interpret(&report) {
            Ok(windows) => {
                let state = access_state(&windows, observed_at);
                self.report = Some((report, observed_at));
                self.phase = QueryPhase::Storing;
                QueryAction::Store(state)
            },
            Err(error) => {
                self.phase = QueryPhase::Finished;
                QueryAction::Fail(map_quota_error(error))
            },
        }
    }

    /// Takes in what the host has done and says what it has to do.
    pub fn step(&mut self, event: QueryEvent) -> (action: QueryAction)
        requires
            answers(old(self)@, event),
        ensures
            final(self)@ == next(old(self)@, event).0,
            is_action(action, next(old(self)@, event).1),
    {
        match event {
            QueryEvent::Unavailable => {
                self.phase = QueryPhase::Finished;
                QueryAction::Fail(AdminError::new(AdminErrorKind::Unavailable))
            },
            QueryEvent::Loaded { provider, material } => self.load(provider.as_str(), &material),
            QueryEvent::Fetched { report, observed_at } => self.fetch(report, observed_at),
            QueryEvent::Conflicted => {
                self.phase = QueryPhase::Finished;
                QueryAction::Fail(AdminError::new(AdminErrorKind::Conflict))
            },
            QueryEvent::Stored { now } => {
                self.phase = QueryPhase::Finished;
                match &self.report {
                    Some((report, observed_at)) => present(report, *observed_at, now),
                    None => QueryAction::Fail(map_quota_error(QuotaError::Invalid)),
                }
            },
            QueryEvent::Found { stored, now } => {
                self.phase = QueryPhase::Finished;
                match stored {
                    Some((report, observed_at)) => present(&report, observed_at, now),
                    None => QueryAction::Show(empty_quota(Tier::Go)),
                }
            },
        }
    }
}

fn present(report: &JsonObject, observed_at: Moment, now: Moment) -> (action: QueryAction)
    ensures
        forall|query: QueryView|
            is_action(action, (#[trigger] presented(query, report@, observed_at, now)).1),
{
    match interpret(report) {
        Ok(windows) => {
            let reached = limit_reached(&windows, now);
            QueryAction::Show(
                ProviderQuota {
                    plan_type: Tier::Go,
                    observed_at: Some(observed_at),
                    windows,
                    limit_reached: reached,
                },
            )
        },
        Err(error) => QueryAction::Fail(map_quota_error(error)),
    }
}

/// What is shown right after a report was stored is what a later look at the stored report shows
/// at the same time.
pub proof fn lemma_stored_reads_the_same(
    refreshing: QueryView,
    reading: QueryView,
    report: JsonObject,
    observed_at: Moment,
    now: Moment,
)
    requires
        refreshing.report == Some((report@, observed_at)),
    ensures
        next(refreshing, QueryEvent::Stored { now }).1 == next(
            reading,
            QueryEvent::Found { stored: Some((report, observed_at)), now },
        ).1,
{
}

/// The upstream is asked only for an account of this provider in the Go product, and only where
/// a refresh is wanted.
pub proof fn lemma_only_go_is_asked(query: QueryView, event: QueryEvent, credential: CredentialView)
    requires
        next(query, event).1 == ActionView::Fetch(credential),
    ensures
        query.refresh,
        credential.tier == Tier::Go,
        event matches QueryEvent::Loaded { provider, .. } && provider@ == query.kind,
{
}

} // verus!
