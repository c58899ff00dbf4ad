//! Choosing an account. The host reads the stores, weighs the accounts and waits for capacity;
//! which of these comes next, and what their results mean, is decided here. An account that
//! cools down is never used as a last resort.

pub mod laws;

use crate::catalog::{offers, Catalog, Model};
use crate::credential::{credential_read, Credential, CredentialView, Tier};
use crate::error::{
    error, failure, infrastructure, ProviderError, ProviderErrorKind, UpstreamSendState,
};
use crate::json::{view_string, Json, JsonObject, JsonView};
use crate::text::same_text;
use crate::time::{shorter, shorter_delay, Delay, Moment};
use vstd::prelude::*;

verus! {

/// How long a session stays with its account, in seconds.
pub const AFFINITY_SECONDS: u64 = 86_400;

/// An account as the host lists it, and whether the client may use the model with it.
#[derive(Debug, PartialEq)]
pub struct Account {
    pub id: String,
    pub provider: String,
    pub plan_type: Option<String>,
    pub revision: u64,
    pub enabled: bool,
    pub allowed: bool,
}

/// What an account is wanted for.
pub struct SearchRequest {
    pub provider: String,
    pub model: Option<String>,
    /// Whether this is a test of the required account, to which neither the client's scope nor
    /// a cooldown applies.
    pub diagnostic: bool,
    pub required: Option<String>,
    pub excluded: Vec<String>,
    /// Whether requests may wait for capacity.
    pub queueing: bool,
}

/// What the search waits for.
#[derive(Debug, Clone, Copy, PartialEq, Eq, Structural)]
pub enum Phase {
    Affinity,
    Listing,
    Fetching,
    Scheduling,
    Cooling,
    Offering,
    Choosing,
    Acquiring,
    Loading,
    Claiming,
    Waiting,
    Finished,
}

/// What the host has done.
pub enum Event {
    /// Loaded the account that the session belongs to.
    Affinity(Option<String>),
    /// Listed the provider's accounts.
    Accounts(Vec<Account>),
    /// Fetched the required account, if it exists.
    Fetched(Option<Account>),
    /// Loaded the scheduling state: which of the accounts it knows.
    Scheduled(Vec<bool>),
    /// Read until when each of the accounts cools down.
    Cooldowns { untils: Vec<Option<Moment>>, now: Moment },
    /// Looked at the candidates: whether any of them is worth waiting for, and which of them
    /// have to be left to others that wait already.
    Offered { waitable: bool, blocked: Vec<bool> },
    /// Chose one of the candidates that are left, or found none fit.
    Chosen(Option<usize>),
    /// Acquired a lease for the chosen account.
    Acquired,
    /// Found the chosen account busy, for so long if that is known.
    Busy(Option<Delay>),
    /// Loaded the chosen account's credential.
    Loaded(JsonObject),
    /// Claimed the session for the chosen account, or found its owner.
    Owner(String),
    /// Waited until there may be capacity.
    Waited,
    /// Gave up waiting.
    Rejected(ProviderErrorKind),
    /// Could not do what was asked.
    Unavailable,
}

/// What the host has to do next.
pub enum Action {
    LoadAffinity,
    ListAccounts,
    FetchRequired,
    LoadState,
    ReadCooldowns,
    Offer,
    Choose,
    Acquire(usize),
    LoadCredential(usize),
    ClaimAffinity(usize),
    Wait,
    Fail(ProviderError),
    Select { index: usize, credential: Credential, owner: String },
}

/// A search for an account.
pub struct Search {
    pub request: SearchRequest,
    pub phase: Phase,
    pub preferred: Option<String>,
    pub accounts: Vec<Account>,
    pub known: Vec<bool>,
    pub candidates: Vec<Account>,
    pub tried: Vec<bool>,
    pub waitable: bool,
    pub retry_after: Option<Delay>,
    pub chosen: usize,
    pub credential: Option<Credential>,
}

#[verifier::ext_equal]
pub struct SearchView {
    pub request: SearchRequest,
    pub phase: Phase,
    pub preferred: Option<String>,
    pub accounts: Seq<Account>,
    pub known: Seq<bool>,
    pub candidates: Seq<Account>,
    pub tried: Seq<bool>,
    pub waitable: bool,
    pub retry_after: Option<Delay>,
    pub chosen: usize,
    pub credential: Option<CredentialView>,
}

/// What the host has to do next.
#[verifier::ext_equal]
pub enum ActionView {
    LoadAffinity,
    ListAccounts,
    FetchRequired,
    LoadState,
    ReadCooldowns,
    Offer,
    Choose,
    Acquire(usize),
    LoadCredential(usize),
    ClaimAffinity(usize),
    Wait,
    Fail(ProviderError),
    Select { index: usize, credential: CredentialView, owner: Seq<char> },
}

impl Action {
    pub open spec fn view(&self) -> ActionView {
        match self {
            Action::LoadAffinity => ActionView::LoadAffinity,
            Action::ListAccounts => ActionView::ListAccounts,
            Action::FetchRequired => ActionView::FetchRequired,
            Action::LoadState => ActionView::LoadState,
            Action::ReadCooldowns => ActionView::ReadCooldowns,
            Action::Offer => ActionView::Offer,
            Action::Choose => ActionView::Choose,
            Action::Acquire(index) => ActionView::Acquire(*index),
            Action::LoadCredential(index) => ActionView::LoadCredential(*index),
            Action::ClaimAffinity(index) => ActionView::ClaimAffinity(*index),
            Action::Wait => ActionView::Wait,
            Action::Fail(error) => ActionView::Fail(*error),
            Action::Select { index, credential, owner } => ActionView::Select {
                index: *index,
                credential: credential@,
                owner: owner@,
            },
        }
    }
}

impl Search {
    pub open spec fn view(&self) -> SearchView {
        SearchView {
            request: self.request,
            phase: self.phase,
            preferred: self.preferred,
            accounts: self.accounts@,
            known: self.known@,
            candidates: self.candidates@,
            tried: self.tried@,
            waitable: self.waitable,
            retry_after: self.retry_after,
            chosen: self.chosen,
            credential: match self.credential {
                Some(credential) => Some(credential@),
                None => None,
            },
        }
    }
}

/// The product that an account's plan names; anything but Go is Zen.
pub open spec fn plan_tier(plan: Option<Seq<char>>) -> Tier {
    if plan == Some("go"@) {
        Tier::Go
    } else {
        Tier::Zen
    }
}

pub open spec fn listed(ids: Seq<String>, id: Seq<char>) -> bool {
    exists|i: int| 0 <= i < ids.len() && (#[trigger] ids[i])@ == id
}

/// Whether an account may serve a request: not excluded, the required one if there is one,
/// within the client's scope unless this is a test, and with the model in its product.
pub open spec fn fits(account: Account, request: SearchRequest, models: Seq<Model>) -> bool {
    &&& !listed(request.excluded@, account.id@)
    &&& (request.required matches Some(id) ==> id@ == account.id@)
    &&& (request.diagnostic || account.allowed)
    &&& (request.model matches Some(model) && offers(
        models,
        plan_tier(view_string(account.plan_type)),
        model@,
    ))
}

/// The accounts that may serve a request, in their order.
pub open spec fn eligible(
    accounts: Seq<Account>,
    request: SearchRequest,
    models: Seq<Model>,
) -> Seq<Account>
    decreases accounts.len(),
{
    if accounts.len() == 0 {
        seq![]
    } else if fits(accounts.last(), request, models) {
        eligible(accounts.drop_last(), request, models).push(accounts.last())
    } else {
        eligible(accounts.drop_last(), request, models)
    }
}

/// Whether the account with this identifier is among the accounts.
pub open spec fn has_account(accounts: Seq<Account>, id: Seq<char>) -> bool {
    exists|i: int| 0 <= i < accounts.len() && (#[trigger] accounts[i]).id@ == id
}

/// Whether an account cools down. A test of an account does not care.
pub open spec fn cooling(until: Option<Moment>, now: Moment, diagnostic: bool) -> bool {
    &&& !diagnostic
    &&& until matches Some(until)
    &&& until.instant() > now.instant()
}

/// How long an account still cools down.
pub open spec fn remaining(until: Option<Moment>, now: Moment) -> Delay {
    Delay { nanos: (until->0.instant() - now.instant()) as u128 }
}

/// Those of the first `count` accounts that do not cool down, in their order.
pub open spec fn warm(
    accounts: Seq<Account>,
    untils: Seq<Option<Moment>>,
    now: Moment,
    diagnostic: bool,
    count: int,
) -> Seq<Account>
    decreases count,
{
    if count <= 0 {
        seq![]
    } else {
        let before = warm(accounts, untils, now, diagnostic, count - 1);
        if cooling(untils[count - 1], now, diagnostic) {
            before
        } else {
            before.push(accounts[count - 1])
        }
    }
}

/// How long until the first of the first `count` accounts has cooled down, if any of them cools.
pub open spec fn shortest(
    untils: Seq<Option<Moment>>,
    now: Moment,
    diagnostic: bool,
    count: int,
) -> Option<Delay>
    decreases count,
{
    if count <= 0 {
        None
    } else {
        let before = shortest(untils, now, diagnostic, count - 1);
        if cooling(untils[count - 1], now, diagnostic) {
            shorter(before, remaining(untils[count - 1], now))
        } else {
            before
        }
    }
}

/// Whether the scheduling state knows each of the first `count` accounts that does not cool down.
pub open spec fn warm_known(
    untils: Seq<Option<Moment>>,
    now: Moment,
    diagnostic: bool,
    known: Seq<bool>,
    count: int,
) -> bool {
    forall|i: int|
        0 <= i < count ==> cooling(#[trigger] untils[i], now, diagnostic) || known[i]
}

/// What every search keeps.
pub open spec fn well_formed(search: SearchView) -> bool {
    &&& search.request.model is Some
    &&& search.phase == Phase::Cooling ==> search.known.len() == search.accounts.len()
    &&& search.phase == Phase::Choosing || search.phase == Phase::Acquiring ==> search.tried.len()
        == search.candidates.len()
    &&& search.phase == Phase::Acquiring || search.phase == Phase::Loading || search.phase
        == Phase::Claiming ==> search.chosen < search.candidates.len()
    &&& search.phase == Phase::Acquiring ==> !search.tried[search.chosen as int]
    &&& search.phase == Phase::Claiming ==> search.credential is Some
}

/// Whether an event answers what the search waits for. A choice is one of the candidates that
/// are left.
pub open spec fn answers(search: SearchView, event: Event) -> bool {
    match event {
        Event::Affinity(_) => search.phase == Phase::Affinity,
        Event::Accounts(_) => search.phase == Phase::Listing,
        Event::Fetched(_) => search.phase == Phase::Fetching,
        Event::Scheduled(known) => search.phase == Phase::Scheduling && known@.len()
            == search.accounts.len(),
        Event::Cooldowns { untils, .. } => search.phase == Phase::Cooling && untils@.len()
            == search.accounts.len(),
        Event::Offered { blocked, .. } => search.phase == Phase::Offering && blocked@.len()
            == search.candidates.len(),
        Event::Chosen(None) => search.phase == Phase::Choosing,
        Event::Chosen(Some(index)) => search.phase == Phase::Choosing && index
            < search.candidates.len() && !search.tried[index as int],
        Event::Acquired => search.phase == Phase::Acquiring,
        Event::Busy(_) => search.phase == Phase::Acquiring,
        Event::Loaded(_) => search.phase == Phase::Loading,
        Event::Owner(_) => search.phase == Phase::Claiming,
        Event::Waited => search.phase == Phase::Waiting,
        Event::Rejected(_) => search.phase == Phase::Waiting,
        Event::Unavailable => search.phase != Phase::Offering && search.phase != Phase::Choosing
            && search.phase != Phase::Waiting && search.phase != Phase::Finished,
    }
}

pub open spec fn finished(search: SearchView, error: ProviderError) -> (SearchView, ActionView) {
    (SearchView { phase: Phase::Finished, ..search }, ActionView::Fail(error))
}

pub open spec fn no_infrastructure() -> ProviderError {
    failure(
        ProviderErrorKind::ProviderInfrastructureUnavailable,
        UpstreamSendState::NotSent,
    )
}

/// The accounts are there: those that may serve the request stay.
pub open spec fn gathered(
    search: SearchView,
    accounts: Seq<Account>,
    models: Seq<Model>,
) -> (SearchView, ActionView) {
    (
        SearchView {
            phase: Phase::Scheduling,
            accounts: eligible(accounts, search.request, models),
            ..search
        },
        ActionView::LoadState,
    )
}

/// Whether a test looks for an account that the list does not hold.
pub open spec fn must_fetch(search: SearchView, accounts: Seq<Account>) -> bool {
    &&& search.request.diagnostic
    &&& search.request.required matches Some(id)
    &&& !has_account(accounts, id@)
}

/// The cooldowns are there: accounts that cool down drop out, and their shortest wait is kept.
pub open spec fn cooled(
    search: SearchView,
    untils: Seq<Option<Moment>>,
    now: Moment,
) -> (SearchView, ActionView) {
    let diagnostic = search.request.diagnostic;
    let count = search.accounts.len() as int;
    if !warm_known(untils, now, diagnostic, search.known, count) {
        finished(search, no_infrastructure())
    } else {
        (
            SearchView {
                phase: Phase::Offering,
                accounts: seq![],
                candidates: warm(search.accounts, untils, now, diagnostic, count),
                retry_after: shortest(untils, now, diagnostic, count),
                ..search
            },
            ActionView::Offer,
        )
    }
}

/// No candidate is left: the request waits where that can help, or fails with the shortest wait
/// that is known.
pub open spec fn exhausted(search: SearchView) -> (SearchView, ActionView) {
    if !search.request.diagnostic && search.request.queueing && search.waitable {
        (SearchView { phase: Phase::Waiting, ..search }, ActionView::Wait)
    } else {
        let kind = if search.waitable {
            ProviderErrorKind::AccountCapacityUnavailable
        } else {
            ProviderErrorKind::NoEligibleAccount
        };
        finished(
            search,
            ProviderError {
                retry_after: search.retry_after,
                ..failure(kind, UpstreamSendState::NotSent)
            },
        )
    }
}

/// The credential is there: it has to be readable, and its product has to offer the model.
pub open spec fn loaded(
    search: SearchView,
    document: JsonView,
    models: Seq<Model>,
) -> (SearchView, ActionView) {
    match credential_read(document) {
        None => finished(search, no_infrastructure()),
        Some(read) => if !offers(models, read.tier, search.request.model->0@) {
            finished(
                search,
                failure(ProviderErrorKind::Unsupported, UpstreamSendState::NotSent),
            )
        } else {
            (
                SearchView { phase: Phase::Claiming, credential: Some(read), ..search },
                ActionView::ClaimAffinity(search.chosen),
            )
        },
    }
}

/// The search after an event, and what the host has to do next.
pub open spec fn next(
    search: SearchView,
    event: Event,
    models: Seq<Model>,
) -> (SearchView, ActionView) {
    match event {
        Event::Unavailable => finished(search, no_infrastructure()),
        Event::Affinity(preferred) => (
            SearchView { phase: Phase::Listing, preferred, ..search },
            ActionView::ListAccounts,
        ),
        Event::Accounts(accounts) => if must_fetch(search, accounts@) {
            (
                SearchView { phase: Phase::Fetching, accounts: accounts@, ..search },
                ActionView::FetchRequired,
            )
        } else {
            gathered(search, accounts@, models)
        },
        Event::Fetched(Some(account)) if account.provider@ == search.request.provider@ => gathered(
            search,
            search.accounts.push(account),
            models,
        ),
        Event::Fetched(_) => gathered(search, search.accounts, models),
        Event::Scheduled(known) => (
            SearchView { phase: Phase::Cooling, known: known@, ..search },
            ActionView::ReadCooldowns,
        ),
        Event::Cooldowns { untils, now } => cooled(search, untils@, now),
        Event::Offered { waitable, blocked } => (
            SearchView { phase: Phase::Choosing, waitable, tried: blocked@, ..search },
            ActionView::Choose,
        ),
        Event::Chosen(Some(index)) => (
            SearchView { phase: Phase::Acquiring, chosen: index, ..search },
            ActionView::Acquire(index),
        ),
        Event::Chosen(None) => exhausted(search),
        Event::Busy(delay) => (
            SearchView {
                phase: Phase::Choosing,
                tried: search.tried.update(search.chosen as int, true),
                retry_after: match delay {
                    Some(delay) => shorter(search.retry_after, delay),
                    None => search.retry_after,
                },
                ..search
            },
            ActionView::Choose,
        ),
        Event::Acquired => (
            SearchView { phase: Phase::Loading, ..search },
            ActionView::LoadCredential(search.chosen),
        ),
        Event::Loaded(document) => loaded(search, JsonView::Object(document@), models),
        Event::Owner(owner) => (
            SearchView { phase: Phase::Finished, credential: None, ..search },
            ActionView::Select {
                index: search.chosen,
                credential: search.credential->0,
                owner: owner@,
            },
        ),
        Event::Waited => (
            SearchView { phase: Phase::Listing, retry_after: None, ..search },
            ActionView::ListAccounts,
        ),
        Event::Rejected(kind) => finished(
            search,
            failure(kind, UpstreamSendState::NotSent),
        ),
    }
}

fn tier_of(account: &Account) -> (tier: Tier)
    ensures
        tier == plan_tier(view_string(account.plan_type)),
{
    match &account.plan_type {
        Some(plan) => if same_text(plan.as_str(), "go") {
            Tier::Go
        } else {
            Tier::Zen
        },
        None => Tier::Zen,
    }
}

fn lists(ids: &Vec<String>, id: &str) -> (result: bool)
    ensures
        result == listed(ids@, id@),
{
    let mut i: usize = 0;
    while i < ids.len()
        invariant
            i <= ids.len(),
            forall|j: int| 0 <= j < i ==> (#[trigger] ids@[j])@ != id@,
        decreases ids.len() - i,
    {
        if same_text(ids[i].as_str(), id) {
            assert(ids@[i as int]@ == id@);
            return true;
        }
        i += 1;
    }
    false
}

fn holds(accounts: &Vec<Account>, id: &str) -> (result: bool)
    ensures
        result == has_account(accounts@, id@),
{
    let mut i: usize = 0;
    while i < accounts.len()
        invariant
            i <= accounts.len(),
            forall|j: int| 0 <= j < i ==> (#[trigger] accounts@[j]).id@ != id@,
        decreases accounts.len() - i,
    {
        if same_text(accounts[i].id.as_str(), id) {
            assert(accounts@[i as int].id@ == id@);
            return true;
        }
        i += 1;
    }
    false
}

impl SearchRequest {
    fn admits(&self, account: &Account, catalog: &Catalog) -> (result: bool)
        ensures
            result == fits(*account, *self, catalog.models@),
    {
        if lists(&self.excluded, account.id.as_str()) {
            return false;
        }
        if let Some(id) = &self.required {
            if !same_text(id.as_str(), account.id.as_str()) {
                return false;
            }
        }
        if !self.diagnostic && !account.allowed {
            return false;
        }
        match &self.model {
            Some(model) => catalog.find(tier_of(account), model.as_str()).is_some(),
            None => false,
        }
    }

    /// Keeps the accounts that may serve the request.
    fn retain(&self, accounts: Vec<Account>, catalog: &Catalog) -> (kept: Vec<Account>)
        ensures
            kept@ == eligible(accounts@, *self, catalog.models@),
    {
        let ghost whole = accounts@;
        let ghost mut seen: int = 0;
        let mut rest = accounts;
        let mut kept: Vec<Account> = Vec::new();
        assert(whole.take(0) =~= seq![]);
        assert(whole.skip(0) =~= whole);
        while rest.len() > 0
            invariant
                0 <= seen <= whole.len(),
                rest@ == whole.skip(seen),
                kept@ == eligible(whole.take(seen), *self, catalog.models@),
            decreases rest.len(),
        {
            proof {
                assert(whole.skip(seen)[0] == whole[seen]);
                assert(whole.take(seen + 1).drop_last() =~= whole.take(seen));
                assert(whole.take(seen + 1).last() == whole[seen]);
            }
            let account = rest.remove(0);
            assert(rest@ =~= whole.skip(seen + 1));
            if self.admits(&account, catalog) {
                kept.push(account);
            }
            proof {
                seen = seen + 1;
            }
        }
        assert(whole.take(seen) =~= whole);
        kept
    }
}

fn cools(until: Option<Moment>, now: Moment, diagnostic: bool) -> (delay: Option<Delay>)
    ensures
        delay is Some <==> cooling(until, now, diagnostic),
        delay matches Some(delay) ==> delay == remaining(until, now),
{
    if diagnostic {
        return None;
    }
    match until {
        Some(until) => if until.after(now) {
            until.since(now)
        } else {
            None
        },
        None => None,
    }
}

impl Search {
    /// Starts a search. A request without a model never starts one.
    pub fn begin(request: SearchRequest) -> (search: Result<Search, ProviderError>)
        ensures
            match search {
                Ok(search) => request.model is Some && search@ == (SearchView {
                    request,
                    phase: Phase::Affinity,
                    preferred: None,
                    accounts: seq![],
                    known: seq![],
                    candidates: seq![],
                    tried: seq![],
                    waitable: false,
                    retry_after: None,
                    chosen: 0,
                    credential: None,
                }),
                Err(error) => request.model is None && error == failure(
                    ProviderErrorKind::InvalidRequest,
                    UpstreamSendState::NotSent,
                ),
            },
    {
        if request.model.is_none() {
            return Err(error(ProviderErrorKind::InvalidRequest));
        }
        Ok(
            Search {
                request,
                phase: Phase::Affinity,
                preferred: None,
                accounts: Vec::new(),
                known: Vec::new(),
                candidates: Vec::new(),
                tried: Vec::new(),
                waitable: false,
                retry_after: None,
                chosen: 0,
                credential: None,
            },
        )
    }

    /// The account that the host is to prefer: the required one, else the session's.
    pub fn preference(&self) -> (id: Option<&String>)
        ensures
            id == (match (self.request.required, self.preferred) {
                (Some(required), _) => Some(&required),
                (None, Some(preferred)) => Some(&preferred),
                (None, None) => None,
            }),
    {
        match &self.request.required {
            Some(required) => Some(required),
            None => match &self.preferred {
                Some(preferred) => Some(preferred),
                None => None,
            },
        }
    }

    fn fail(&mut self, error: ProviderError) -> (action: Action)
        ensures
            (final(self)@, action@) == finished(old(self)@, error),
    {
        self.phase = Phase::Finished;
        Action::Fail(error)
    }

    fn gather(&mut self, accounts: Vec<Account>, catalog: &Catalog) -> (action: Action)
        ensures
            (final(self)@, action@) == gathered(old(self)@, accounts@, catalog.models@),
    {
        self.accounts = self.request.retain(accounts, catalog);
        self.phase = Phase::Scheduling;
        Action::LoadState
    }

    fn cool(&mut self, untils: &Vec<Option<Moment>>, now: Moment) -> (action: Action)
        requires
            untils.len() == old(self).accounts.len(),
            old(self).known.len() == old(self).accounts.len(),
        ensures
            (final(self)@, action@) == cooled(old(self)@, untils@, now),
    {
        let diagnostic = self.request.diagnostic;
        let ghost whole = self.accounts@;
        let count: usize = self.accounts.len();
        let mut i: usize = 0;
        while i < count
            invariant
                i <= count,
                count == whole.len(),
                self@ == old(self)@,
                self.known.len() == count,
                untils.len() == count,
                warm_known(untils@, now, diagnostic, self.known@, i as int),
                diagnostic == self.request.diagnostic,
                whole == self.accounts@,
            decreases count - i,
        {
            if cools(untils[i], now, diagnostic).is_none() && !self.known[i] {
                assert(!cooling(untils@[i as int], now, diagnostic));
                return self.fail(infrastructure());
            }
            i += 1;
        }
        let mut rest: Vec<Account> = Vec::new();
        rest.append(&mut self.accounts);
        assert(rest@ =~= whole);
        let mut candidates: Vec<Account> = Vec::new();
        let mut retry_after: Option<Delay> = None;
        let mut seen: usize = 0;
        assert(whole.skip(0) =~= whole);
        while rest.len() > 0
            invariant
                seen <= count,
                count == whole.len(),
                untils.len() == count,
                rest@ == whole.skip(seen as int),
                candidates@ == warm(whole, untils@, now, diagnostic, seen as int),
                retry_after == shortest(untils@, now, diagnostic, seen as int),
            decreases rest.len(),
        {
            assert(whole.skip(seen as int)[0] == whole[seen as int]);
            let account = rest.remove(0);
            assert(rest@ =~= whole.skip(seen + 1));
            match cools(untils[seen], now, diagnostic) {
                Some(delay) => {
                    retry_after = shorter_delay(retry_after, delay);
                },
                None => {
                    candidates.push(account);
                },
            }
            seen += 1;
        }
        assert(self.accounts@ =~= seq![]);
        self.candidates = candidates;
        self.retry_after = retry_after;
        self.phase = Phase::Offering;
        Action::Offer
    }

    fn exhaust(&mut self) -> (action: Action)
        ensures
            (final(self)@, action@) == exhausted(old(self)@),
    {
        if !self.request.diagnostic && self.request.queueing && self.waitable {
            self.phase = Phase::Waiting;
            return Action::Wait;
        }
        let kind = if self.waitable {
            ProviderErrorKind::AccountCapacityUnavailable
        } else {
            ProviderErrorKind::NoEligibleAccount
        };
        let mut refusal = error(kind);
        refusal.retry_after = self.retry_after;
        self.fail(refusal)
    }

    fn load(&mut self, document: JsonObject, catalog: &Catalog) -> (action: Action)
        requires
            old(self).request.model is Some,
        ensures
            (final(self)@, action@) == loaded(
                old(self)@,
                JsonView::Object(document@),
                catalog.models@,
            ),
    {
        let credential = match Credential::parse(&Json::object(document)) {
            Ok(credential) => credential,
            Err(_) => return self.fail(infrastructure()),
        };
        let offered = match &self.request.model {
            Some(model) => catalog.find(credential.tier, model.as_str()).is_some(),
            None => false,
        };
        if !offered {
            return self.fail(error(ProviderErrorKind::Unsupported));
        }
        self.credential = Some(credential);
        self.phase = Phase::Claiming;
        Action::ClaimAffinity(self.chosen)
    }

    fn fetched(&mut self, account: Option<Account>, catalog: &Catalog) -> (action: Action)
        ensures
            ({
                let accounts = match account {
                    Some(account) if account.provider@ == old(self).request.provider@ => old(
                        self,
                    ).accounts@.push(account),
                    _ => old(self).accounts@,
                };
                (final(self)@, action@) == gathered(old(self)@, accounts, catalog.models@)
            }),
    {
        let mut accounts: Vec<Account> = Vec::new();
        accounts.append(&mut self.accounts);
        assert(accounts@ =~= old(self).accounts@);
        if let Some(account) = account {
            if same_text(account.provider.as_str(), self.request.provider.as_str()) {
                accounts.push(account);
            }
        }
        self.gather(accounts, catalog)
    }

    /// Takes in what the host has done and says what it has to do next.
    pub fn step(&mut self, event: Event, catalog: &Catalog) -> (action: Action)
        requires
            well_formed(old(self)@),
            answers(old(self)@, event),
        ensures
            (final(self)@, action@) == next(old(self)@, event, catalog.models@),
            well_formed(final(self)@),
    {
        match event {
            Event::Unavailable => self.fail(infrastructure()),
            Event::Affinity(preferred) => {
                self.preferred = preferred;
                self.phase = Phase::Listing;
                Action::ListAccounts
            },
            Event::Accounts(accounts) => {
                if self.request.diagnostic {
                    if let Some(id) = &self.request.required {
                        if !holds(&accounts, id.as_str()) {
                            self.accounts = accounts;
                            self.phase = Phase::Fetching;
                            return Action::FetchRequired;
                        }
                    }
                }
                self.gather(accounts, catalog)
            },
            Event::Fetched(account) => self.fetched(account, catalog),
            Event::Scheduled(known) => {
                self.known = known;
                self.phase = Phase::Cooling;
                Action::ReadCooldowns
            },
            Event::Cooldowns { untils, now } => self.cool(&untils, now),
            Event::Offered { waitable, blocked } => {
                self.waitable = waitable;
                self.tried = blocked;
                self.phase = Phase::Choosing;
                Action::Choose
            },
            Event::Chosen(Some(index)) => {
                self.chosen = index;
                self.phase = Phase::Acquiring;
                Action::Acquire(index)
            },
            Event::Chosen(None) => self.exhaust(),
            Event::Busy(delay) => {
                if let Some(delay) = delay {
                    self.retry_after = shorter_delay(self.retry_after, delay);
                }
                self.tried.set(self.chosen, true);
                self.phase = Phase::Choosing;
                Action::Choose
            },
            Event::Acquired => {
                self.phase = Phase::Loading;
                Action::LoadCredential(self.chosen)
            },
            Event::Loaded(document) => self.load(document, catalog),
            Event::Owner(owner) => {
                self.phase = Phase::Finished;
                match self.credential.take() {
                    Some(credential) => Action::Select { index: self.chosen, credential, owner },
                    None => Action::Fail(infrastructure()),
                }
            },
            Event::Waited => {
                self.retry_after = None;
                self.phase = Phase::Listing;
                Action::ListAccounts
            },
            Event::Rejected(kind) => self.fail(error(kind)),
        }
    }
}

/// Every account that may serve a request was listed, and the list's order stays.
pub proof fn lemma_eligible(accounts: Seq<Account>, request: SearchRequest, models: Seq<Model>)
    ensures
        forall|i: int|
            0 <= i < eligible(accounts, request, models).len() ==> fits(
                #[trigger] eligible(accounts, request, models)[i],
                request,
                models,
            ) && accounts.contains(eligible(accounts, request, models)[i]),
        forall|i: int|
            0 <= i < accounts.len() && fits(#[trigger] accounts[i], request, models) ==> eligible(
                accounts,
                request,
                models,
            ).contains(accounts[i]),
    decreases accounts.len(),
{
    if accounts.len() > 0 {
        let front = accounts.drop_last();
        let before = eligible(front, request, models);
        let after = eligible(accounts, request, models);
        lemma_eligible(front, request, models);
        assert forall|i: int| 0 <= i < after.len() implies fits(
            #[trigger] after[i],
            request,
            models,
        ) && accounts.contains(after[i]) by {
            if i < before.len() {
                assert(after[i] == before[i]);
                let j = choose|j: int| 0 <= j < front.len() && front[j] == before[i];
                assert(accounts[j] == before[i]);
            } else {
                assert(accounts[accounts.len() - 1] == after[i]);
            }
        }
        assert forall|i: int|
            0 <= i < accounts.len() && fits(
                #[trigger] accounts[i],
                request,
                models,
            ) implies after.contains(accounts[i]) by {
            if i < front.len() {
                assert(front[i] == accounts[i]);
                let j = choose|j: int| 0 <= j < before.len() && before[j] == accounts[i];
                assert(after[j] == accounts[i]);
            } else {
                assert(after[after.len() - 1] == accounts[i]);
            }
        }
    }
}

/// No account that cools down becomes a candidate, and every other one does.
pub proof fn lemma_cooling_is_no_candidate(
    accounts: Seq<Account>,
    untils: Seq<Option<Moment>>,
    now: Moment,
    diagnostic: bool,
    count: int,
)
    requires
        0 <= count <= accounts.len(),
        accounts.len() == untils.len(),
    ensures
        forall|k: int|
            0 <= k < warm(accounts, untils, now, diagnostic, count).len() ==> exists|i: int|
                0 <= i < count && accounts[i] == #[trigger] warm(
                    accounts,
                    untils,
                    now,
                    diagnostic,
                    count,
                )[k] && !cooling(#[trigger] untils[i], now, diagnostic),
        forall|i: int|
            0 <= i < count && !cooling(#[trigger] untils[i], now, diagnostic) ==> warm(
                accounts,
                untils,
                now,
                diagnostic,
                count,
            ).contains(accounts[i]),
    decreases count,
{
    if count > 0 {
        lemma_cooling_is_no_candidate(accounts, untils, now, diagnostic, count - 1);
        let before = warm(accounts, untils, now, diagnostic, count - 1);
        let after = warm(accounts, untils, now, diagnostic, count);
        assert forall|k: int| 0 <= k < after.len() implies exists|i: int|
            0 <= i < count && accounts[i] == #[trigger] after[k] && !cooling(
                #[trigger] untils[i],
                now,
                diagnostic,
            ) by {
            if k < before.len() {
                assert(after[k] == before[k]);
                let i = choose|i: int|
                    0 <= i < count - 1 && accounts[i] == before[k] && !cooling(
                        #[trigger] untils[i],
                        now,
                        diagnostic,
                    );
                assert(!cooling(untils[i], now, diagnostic));
            } else {
                assert(!cooling(untils[count - 1], now, diagnostic));
            }
        }
        assert forall|i: int|
            0 <= i < count && !cooling(#[trigger] untils[i], now, diagnostic) implies after.contains(
            accounts[i],
        ) by {
            if i < count - 1 {
                let j = choose|j: int| 0 <= j < before.len() && before[j] == accounts[i];
                assert(after[j] == accounts[i]);
            } else {
                assert(after[after.len() - 1] == accounts[i]);
            }
        }
    }
}

/// The wait that is reported is that of the account that has cooled down first.
pub proof fn lemma_shortest_wait(
    untils: Seq<Option<Moment>>,
    now: Moment,
    diagnostic: bool,
    count: int,
)
    requires
        0 <= count <= untils.len(),
    ensures
        match shortest(untils, now, diagnostic, count) {
            Some(delay) => {
                &&& forall|i: int|
                    0 <= i < count && cooling(#[trigger] untils[i], now, diagnostic)
                        ==> delay.nanos <= remaining(untils[i], now).nanos
                &&& exists|i: int|
                    0 <= i < count && cooling(#[trigger] untils[i], now, diagnostic) && delay
                        == remaining(untils[i], now)
            },
            None => forall|i: int|
                0 <= i < count ==> !cooling(#[trigger] untils[i], now, diagnostic),
        },
    decreases count,
{
    if count > 0 {
        lemma_shortest_wait(untils, now, diagnostic, count - 1);
        let before = shortest(untils, now, diagnostic, count - 1);
        let last = untils[count - 1];
        if cooling(last, now, diagnostic) {
            if let Some(delay) = before {
                let i = choose|i: int|
                    0 <= i < count - 1 && cooling(#[trigger] untils[i], now, diagnostic) && delay
                        == remaining(untils[i], now);
                assert(cooling(untils[i], now, diagnostic));
            }
            assert(cooling(untils[count - 1], now, diagnostic));
        } else if let Some(delay) = before {
            let i = choose|i: int|
                0 <= i < count - 1 && cooling(#[trigger] untils[i], now, diagnostic) && delay
                    == remaining(untils[i], now);
            assert(cooling(untils[i], now, diagnostic));
        }
    }
}

/// Where every account cools down, none is a candidate and none can be acquired: the host has
/// nothing to choose from, and without anything to wait for the search ends with the time after
/// which the first account is back.
pub proof fn lemma_all_cooling(
    search: SearchView,
    untils: Vec<Option<Moment>>,
    now: Moment,
    models: Seq<Model>,
)
    requires
        search.phase == Phase::Cooling,
        search.accounts.len() > 0,
        search.known.len() == search.accounts.len(),
        untils@.len() == search.accounts.len(),
        forall|i: int|
            0 <= i < untils@.len() ==> cooling(
                #[trigger] untils@[i],
                now,
                search.request.diagnostic,
            ),
    ensures
        ({
            let offered = next(search, Event::Cooldowns { untils, now }, models).0;
            &&& offered.candidates.len() == 0
            &&& offered.retry_after is Some
            &&& forall|blocked: Vec<bool>|
                {
                    let choosing = #[trigger] next(
                        offered,
                        Event::Offered { waitable: false, blocked },
                        models,
                    ).0;
                    next(choosing, Event::Chosen(None), models).1 == ActionView::Fail(
                        ProviderError {
                            retry_after: offered.retry_after,
                            ..failure(
                                ProviderErrorKind::NoEligibleAccount,
                                UpstreamSendState::NotSent,
                            )
                        },
                    )
                }
        }),
{
    let count = search.accounts.len() as int;
    let diagnostic = search.request.diagnostic;
    lemma_cooling_is_no_candidate(search.accounts, untils@, now, diagnostic, count);
    lemma_shortest_wait(untils@, now, diagnostic, count);
    let candidates = warm(search.accounts, untils@, now, diagnostic, count);
    if candidates.len() > 0 {
        let first = candidates[0];
        let i = choose|i: int|
            0 <= i < count && search.accounts[i] == first && !cooling(
                #[trigger] untils@[i],
                now,
                diagnostic,
            );
        assert(!cooling(untils@[i], now, diagnostic));
    }
    assert(cooling(untils@[0], now, diagnostic));
}

/// A store that cannot be read closes the search: unknown is not taken for usable.
pub proof fn lemma_unknown_is_refused(search: SearchView, models: Seq<Model>)
    ensures
        next(search, Event::Unavailable, models).1 == ActionView::Fail(no_infrastructure()),
        next(search, Event::Unavailable, models).0.phase == Phase::Finished,
{
}

/// How many candidates are left to try.
pub open spec fn left(tried: Seq<bool>) -> nat
    decreases tried.len(),
{
    if tried.len() == 0 {
        0
    } else if tried.last() {
        left(tried.drop_last())
    } else {
        left(tried.drop_last()) + 1
    }
}

proof fn lemma_left_update(tried: Seq<bool>, index: int)
    requires
        0 <= index < tried.len(),
        !tried[index],
    ensures
        left(tried.update(index, true)) + 1 == left(tried),
    decreases tried.len(),
{
    let after = tried.update(index, true);
    if index == tried.len() - 1 {
        assert(after.drop_last() =~= tried.drop_last());
    } else {
        assert(after.drop_last() =~= tried.drop_last().update(index, true));
        lemma_left_update(tried.drop_last(), index);
    }
}

/// An account that was found busy is not asked again in the same round, so a round asks each
/// candidate at most once.
pub proof fn lemma_busy_once(search: SearchView, delay: Option<Delay>, models: Seq<Model>)
    requires
        well_formed(search),
        search.phase == Phase::Acquiring,
    ensures
        left(next(search, Event::Busy(delay), models).0.tried) + 1 == left(search.tried),
        next(search, Event::Busy(delay), models).0.tried[search.chosen as int],
{
    lemma_left_update(search.tried, search.chosen as int);
}

/// Only what the cooldowns leave over is ever acquired: nothing but the cooldowns changes the
/// candidates, and a lease is asked for one of them that was not found busy.
pub proof fn lemma_only_candidates_are_acquired(
    search: SearchView,
    event: Event,
    models: Seq<Model>,
)
    requires
        answers(search, event),
    ensures
        !(event is Cooldowns) ==> next(search, event, models).0.candidates == search.candidates,
        next(search, event, models).1 matches ActionView::Acquire(index) ==> index
            < search.candidates.len() && !search.tried[index as int],
{
}

} // verus!
