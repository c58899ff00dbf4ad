//! Which accounts a search may use, whatever the host reports on the way.

use crate::catalog::{is_entry, Model};
use crate::credential::Tier;
use crate::error::{ProviderErrorKind, UpstreamSendState};
use crate::json::JsonView;
use crate::selection::{
    answers, cooling, eligible, fits, lemma_cooling_is_no_candidate, lemma_shortest_wait, listed,
    next, remaining, warm, warm_known, well_formed, Account, ActionView, Event, Phase, SearchRequest,
    SearchView,
};
use crate::time::{Delay, Moment, NANOS_PER_SECOND};
use vstd::prelude::*;

verus! {

/// The product of an account: Go where its plan says so, else Zen.
pub open spec fn product_of(account: Account) -> Tier {
    match account.plan_type {
        Some(plan) => if plan@ == "go"@ {
            Tier::Go
        } else {
            Tier::Zen
        },
        None => Tier::Zen,
    }
}

/// Whether a catalog has a model under this identifier in a product.
pub open spec fn has_model(models: Seq<Model>, tier: Tier, id: Seq<char>) -> bool {
    exists|k: int|
        0 <= k < models.len() && (#[trigger] models[k]).tier == tier && models[k].id@ == id
}

/// Whether a request may be sent with an account: the request does not exclude it; where the
/// request requires an account it is that very one; the client may use it, unless the request is
/// a test; and its product has the model.
pub open spec fn serves(account: Account, request: SearchRequest, models: Seq<Model>) -> bool {
    &&& forall|k: int| 0 <= k < request.excluded@.len() ==> (#[trigger] request.excluded@[k])@
        != account.id@
    &&& request.required is Some ==> account.id@ == request.required->0@
    &&& account.allowed || request.diagnostic
    &&& request.model is Some && has_model(models, product_of(account), request.model->0@)
}

proof fn lemma_serves_is_fits(account: Account, request: SearchRequest, models: Seq<Model>)
    ensures
        serves(account, request, models) == fits(account, request, models),
{
    if let Some(model) = request.model {
        let tier = product_of(account);
        if has_model(models, tier, model@) {
            let k = choose|k: int|
                0 <= k < models.len() && (#[trigger] models[k]).tier == tier && models[k].id@
                    == model@;
            assert(is_entry(models[k], tier, model@));
        }
        if crate::catalog::offers(models, tier, model@) {
            let k = choose|k: int|
                0 <= k < models.len() && is_entry(#[trigger] models[k], tier, model@);
            assert(models[k].tier == tier && models[k].id@ == model@);
        }
    }
    if !listed(request.excluded@, account.id@) {
        assert forall|k: int| 0 <= k < request.excluded@.len() implies (
        #[trigger] request.excluded@[k])@ != account.id@ by {
        }
    }
}

proof fn lemma_eligible_is_filter(accounts: Seq<Account>, request: SearchRequest, models: Seq<Model>)
    ensures
        eligible(accounts, request, models) == accounts.filter(
            |account: Account| serves(account, request, models),
        ),
    decreases accounts.len(),
{
    reveal(Seq::filter);
    if accounts.len() > 0 {
        lemma_eligible_is_filter(accounts.drop_last(), request, models);
        lemma_serves_is_fits(accounts.last(), request, models);
    }
}

/// The accounts that the host names to a search: the list, and the account that a test asked for
/// by itself where it belongs to the provider.
pub open spec fn named_accounts(search: SearchView, event: Event) -> Seq<Account> {
    match event {
        Event::Accounts(accounts) => accounts@,
        Event::Fetched(Some(account)) => if account.provider@ == search.request.provider@ {
            search.accounts.push(account)
        } else {
            search.accounts
        },
        _ => search.accounts,
    }
}

/// Of the accounts that the host names, exactly those stay that may serve the request, in their
/// order. Only a test may ask for its required account by itself, and only where the list does
/// not hold it.
pub proof fn lemma_named_accounts_are_weighed(search: SearchView, event: Event, models: Seq<Model>)
    requires
        event is Accounts || event is Fetched,
    ensures
        ({
            let (after, action) = next(search, event, models);
            let named = named_accounts(search, event);
            let asks = event is Accounts && search.request.diagnostic && search.request.required
                is Some && forall|i: int|
                0 <= i < named.len() ==> (#[trigger] named[i]).id@ != search.request.required->0@;
            &&& after.request == search.request
            &&& after.candidates == search.candidates
            &&& if asks {
                action == ActionView::FetchRequired && after.accounts == named && after.phase
                    == Phase::Fetching
            } else {
                action == ActionView::LoadState && after.phase == Phase::Scheduling
                    && after.accounts == named.filter(
                    |account: Account| serves(account, search.request, models),
                )
            }
        }),
{
    let named = named_accounts(search, event);
    lemma_eligible_is_filter(named, search.request, models);
    if let Some(id) = search.request.required {
        if crate::selection::has_account(named, id@) {
            let i = choose|i: int| 0 <= i < named.len() && (#[trigger] named[i]).id@ == id@;
            assert(named[i].id@ == id@);
        }
    }
}

/// Whether all accounts of a list may serve the request.
pub open spec fn all_serve(
    accounts: Seq<Account>,
    request: SearchRequest,
    models: Seq<Model>,
) -> bool {
    forall|i: int| 0 <= i < accounts.len() ==> serves(#[trigger] accounts[i], request, models)
}

/// What every search keeps: once the accounts have been weighed, it holds none that may not serve
/// the request.
pub open spec fn rightful(search: SearchView, models: Seq<Model>) -> bool {
    &&& search.phase == Phase::Scheduling || search.phase == Phase::Cooling ==> all_serve(
        search.accounts,
        search.request,
        models,
    )
    &&& all_serve(search.candidates, search.request, models)
}

/// The account that an action uses.
pub open spec fn used_account(action: ActionView) -> Option<usize> {
    match action {
        ActionView::Acquire(index) => Some(index),
        ActionView::LoadCredential(index) => Some(index),
        ActionView::ClaimAffinity(index) => Some(index),
        ActionView::Select { index, .. } => Some(index),
        _ => None,
    }
}

proof fn lemma_filter_serves(accounts: Seq<Account>, request: SearchRequest, models: Seq<Model>)
    ensures
        all_serve(
            accounts.filter(|account: Account| serves(account, request, models)),
            request,
            models,
        ),
    decreases accounts.len(),
{
    reveal(Seq::filter);
    if accounts.len() > 0 {
        lemma_filter_serves(accounts.drop_last(), request, models);
    }
}

/// Whatever the host reports, an account is acquired, loaded, claimed or selected only where it
/// may serve the request. In particular it is the required one wherever the request requires one,
/// in a test as in any other request.
pub proof fn lemma_only_rightful_accounts_are_used(
    search: SearchView,
    event: Event,
    models: Seq<Model>,
)
    requires
        well_formed(search),
        answers(search, event),
        rightful(search, models),
    ensures
        rightful(next(search, event, models).0, models),
        next(search, event, models).0.request == search.request,
        used_account(next(search, event, models).1) matches Some(index) ==> {
            let (after, _) = next(search, event, models);
            &&& index < after.candidates.len()
            &&& serves(after.candidates[index as int], search.request, models)
            &&& search.request.required matches Some(id) ==> after.candidates[index as int].id@
                == id@
        },
{
    if event is Accounts || event is Fetched {
        let named = named_accounts(search, event);
        lemma_eligible_is_filter(named, search.request, models);
        lemma_filter_serves(named, search.request, models);
    }
    if let Event::Cooldowns { untils, now } = event {
        let count = search.accounts.len() as int;
        let diagnostic = search.request.diagnostic;
        lemma_cooling_is_no_candidate(search.accounts, untils@, now, diagnostic, count);
        let candidates = warm(search.accounts, untils@, now, diagnostic, count);
        assert forall|k: int| 0 <= k < candidates.len() implies serves(
            #[trigger] candidates[k],
            search.request,
            models,
        ) by {
            let i = choose|i: int|
                0 <= i < count && search.accounts[i] == candidates[k] && !cooling(
                    #[trigger] untils@[i],
                    now,
                    diagnostic,
                );
            assert(serves(search.accounts[i], search.request, models));
        }
    }
}

/// A search after events, and what the host has to do last; nothing where an event does not
/// answer what the search waits for.
pub open spec fn searched(start: SearchView, events: Seq<Event>, models: Seq<Model>) -> Option<
    (SearchView, Option<ActionView>),
>
    decreases events.len(),
{
    if events.len() == 0 {
        Some((start, None))
    } else {
        match searched(start, events.drop_last(), models) {
            Some((search, _)) => if answers(search, events.last()) && well_formed(search) {
                let (after, action) = next(search, events.last(), models);
                Some((after, Some(action)))
            } else {
                None
            },
            None => None,
        }
    }
}

/// From its beginning on, however long it takes, a search never uses an account that may not
/// serve the request: neither an excluded one, nor another than the required one, nor one beyond
/// the client's scope, nor one without the model.
pub proof fn lemma_search_uses_rightful_accounts(
    start: SearchView,
    events: Seq<Event>,
    models: Seq<Model>,
)
    requires
        start.phase == Phase::Affinity,
        start.candidates.len() == 0,
    ensures
        searched(start, events, models) matches Some((search, action)) ==> {
            &&& rightful(search, models)
            &&& search.request == start.request
            &&& (action matches Some(action) && used_account(action) matches Some(index)) ==> {
                let index = used_account(action->0)->0 as int;
                &&& index < search.candidates.len()
                &&& serves(search.candidates[index], start.request, models)
            }
        },
    decreases events.len(),
{
    if events.len() > 0 {
        lemma_search_uses_rightful_accounts(start, events.drop_last(), models);
        if let Some((search, _)) = searched(start, events.drop_last(), models) {
            if answers(search, events.last()) && well_formed(search) {
                lemma_only_rightful_accounts_are_used(search, events.last(), models);
            }
        }
    }
}

pub open spec fn nanoseconds(moment: Moment) -> int {
    moment.seconds * NANOS_PER_SECOND + moment.nanos
}

/// Whether an account still cools down at a time.
pub open spec fn cools_at(until: Option<Moment>, now: Moment) -> bool {
    until is Some && nanoseconds(until->0) > nanoseconds(now)
}

/// Whether an account can be used at a time. A test does not care for cooldowns.
pub open spec fn usable(until: Option<Moment>, now: Moment, test: bool) -> bool {
    test || !cools_at(until, now)
}

proof fn lemma_usable(until: Option<Moment>, now: Moment, test: bool)
    ensures
        usable(until, now, test) == !cooling(until, now, test),
        cools_at(until, now) ==> remaining(until, now).nanos == nanoseconds(until->0)
            - nanoseconds(now),
{
}

/// A usable account that the scheduling state does not know closes the search: unknown is not
/// taken for usable. Otherwise the candidates are offered.
pub proof fn lemma_unknown_account_closes(
    search: SearchView,
    untils: Vec<Option<Moment>>,
    now: Moment,
    models: Seq<Model>,
)
    requires
        search.phase == Phase::Cooling,
        search.known.len() == search.accounts.len(),
        untils@.len() == search.accounts.len(),
    ensures
        ({
            let (after, action) = next(search, Event::Cooldowns { untils, now }, models);
            if exists|i: int|
                0 <= i < untils@.len() && #[trigger] usable(
                    untils@[i],
                    now,
                    search.request.diagnostic,
                ) && !search.known[i] {
                &&& action matches ActionView::Fail(error)
                &&& error.kind == ProviderErrorKind::ProviderInfrastructureUnavailable
                &&& error.send_state == UpstreamSendState::NotSent
                &&& after.phase == Phase::Finished
            } else {
                action == ActionView::Offer && after.phase == Phase::Offering
            }
        }),
{
    let test = search.request.diagnostic;
    let count = search.accounts.len() as int;
    if warm_known(untils@, now, test, search.known, count) {
        assert forall|i: int|
            0 <= i < untils@.len() && #[trigger] usable(
                untils@[i],
                now,
                test,
            ) implies search.known[i] by {
            lemma_usable(untils@[i], now, test);
        }
    } else {
        let i = choose|i: int|
            0 <= i < count && !(cooling(#[trigger] untils@[i], now, test) || search.known[i]);
        lemma_usable(untils@[i], now, test);
        assert(usable(untils@[i], now, test));
    }
}

/// Of the weighed accounts exactly those become candidates that do not cool down any more, and
/// all of them in a test.
pub proof fn lemma_cooldowns_are_kept(
    search: SearchView,
    untils: Vec<Option<Moment>>,
    now: Moment,
    models: Seq<Model>,
)
    requires
        search.phase == Phase::Cooling,
        search.known.len() == search.accounts.len(),
        untils@.len() == search.accounts.len(),
        next(search, Event::Cooldowns { untils, now }, models).1 == ActionView::Offer,
    ensures
        ({
            let candidates = next(search, Event::Cooldowns { untils, now }, models).0.candidates;
            let test = search.request.diagnostic;
            &&& forall|k: int|
                0 <= k < candidates.len() ==> exists|i: int|
                    0 <= i < untils@.len() && #[trigger] candidates[k] == search.accounts[i]
                        && #[trigger] usable(untils@[i], now, test)
            &&& forall|i: int|
                0 <= i < untils@.len() && #[trigger] usable(untils@[i], now, test)
                    ==> candidates.contains(search.accounts[i])
        }),
{
    let test = search.request.diagnostic;
    let count = search.accounts.len() as int;
    let candidates = warm(search.accounts, untils@, now, test, count);
    lemma_cooling_is_no_candidate(search.accounts, untils@, now, test, count);
    assert forall|k: int| 0 <= k < candidates.len() implies exists|i: int|
        0 <= i < untils@.len() && #[trigger] candidates[k] == search.accounts[i]
            && #[trigger] usable(untils@[i], now, test) by {
        let i = choose|i: int|
            0 <= i < count && search.accounts[i] == candidates[k] && !cooling(
                #[trigger] untils@[i],
                now,
                test,
            );
        lemma_usable(untils@[i], now, test);
        assert(usable(untils@[i], now, test));
    }
    assert forall|i: int|
        0 <= i < untils@.len() && #[trigger] usable(
            untils@[i],
            now,
            test,
        ) implies candidates.contains(search.accounts[i]) by {
        lemma_usable(untils@[i], now, test);
        assert(!cooling(untils@[i], now, test));
    }
}

/// The wait that is kept is the time until the first of the accounts that cool down is back, if
/// any does. A test keeps none.
pub proof fn lemma_wait_is_the_shortest(
    search: SearchView,
    untils: Vec<Option<Moment>>,
    now: Moment,
    models: Seq<Model>,
)
    requires
        search.phase == Phase::Cooling,
        search.known.len() == search.accounts.len(),
        untils@.len() == search.accounts.len(),
        next(search, Event::Cooldowns { untils, now }, models).1 == ActionView::Offer,
    ensures
        match next(search, Event::Cooldowns { untils, now }, models).0.retry_after {
            None => search.request.diagnostic || forall|i: int|
                0 <= i < untils@.len() ==> !cools_at(#[trigger] untils@[i], now),
            Some(wait) => {
                &&& !search.request.diagnostic
                &&& exists|i: int|
                    0 <= i < untils@.len() && cools_at(#[trigger] untils@[i], now) && wait.nanos
                        == nanoseconds(untils@[i]->0) - nanoseconds(now)
                &&& forall|i: int|
                    0 <= i < untils@.len() && cools_at(#[trigger] untils@[i], now) ==> wait.nanos
                        <= nanoseconds(untils@[i]->0) - nanoseconds(now)
            },
        },
{
    let test = search.request.diagnostic;
    let count = search.accounts.len() as int;
    lemma_shortest_wait(untils@, now, test, count);
    assert forall|i: int| 0 <= i < count implies (cooling(#[trigger] untils@[i], now, test) <==> (
    !test && cools_at(untils@[i], now))) && (cools_at(untils@[i], now) ==> remaining(
        untils@[i],
        now,
    ).nanos == nanoseconds(untils@[i]->0) - nanoseconds(now)) by {
        lemma_usable(untils@[i], now, test);
    }
}

/// Where no candidate is left, an ordinary request waits if requests may wait and something is
/// worth it. Otherwise it fails before anything was sent: for want of capacity where waiting
/// would have helped, else for want of an account, and with the shortest wait that is known.
pub proof fn lemma_nothing_left(search: SearchView, models: Seq<Model>)
    ensures
        ({
            let (after, action) = next(search, Event::Chosen(None), models);
            if search.waitable && search.request.queueing && !search.request.diagnostic {
                action == ActionView::Wait && after.phase == Phase::Waiting
            } else {
                &&& action matches ActionView::Fail(error)
                &&& error.kind == if search.waitable {
                    ProviderErrorKind::AccountCapacityUnavailable
                } else {
                    ProviderErrorKind::NoEligibleAccount
                }
                &&& error.send_state == UpstreamSendState::NotSent
                &&& error.retry_after == search.retry_after
                &&& after.phase == Phase::Finished
            }
        }),
{
}

/// A busy account is passed over, and the shortest wait that is known of any of them is kept.
pub proof fn lemma_busy_is_passed_over(
    search: SearchView,
    delay: Option<Delay>,
    models: Seq<Model>,
)
    requires
        well_formed(search),
        search.phase == Phase::Acquiring,
    ensures
        ({
            let (after, action) = next(search, Event::Busy(delay), models);
            &&& action == ActionView::Choose
            &&& after.phase == Phase::Choosing
            &&& after.candidates == search.candidates
            &&& after.tried.len() == search.tried.len()
            &&& forall|i: int|
                0 <= i < search.tried.len() ==> #[trigger] after.tried[i] == (search.tried[i] || i
                    == search.chosen)
            &&& match (search.retry_after, delay) {
                (None, other) => after.retry_after == other,
                (known, None) => after.retry_after == known,
                (Some(known), Some(other)) => after.retry_after matches Some(kept) && (kept
                    == known || kept == other) && kept.nanos <= known.nanos && kept.nanos
                    <= other.nanos,
            }
        }),
{
}

/// What is selected is the account that was acquired, with the credential that its document
/// reads as, in a product that has the model; the session goes to the owner that the store named.
pub proof fn lemma_selection_is_the_acquired_account(
    search: SearchView,
    event: Event,
    models: Seq<Model>,
)
    requires
        well_formed(search),
        answers(search, event),
    ensures
        event matches Event::Chosen(Some(index)) ==> next(search, event, models).0.chosen == index
            && next(search, event, models).1 == ActionView::Acquire(index),
        !(event is Chosen) ==> next(search, event, models).0.chosen == search.chosen,
        event is Acquired ==> next(search, event, models).1 == ActionView::LoadCredential(
            search.chosen,
        ),
        event matches Event::Loaded(document) ==> {
            let (after, action) = next(search, event, models);
            match crate::credential::credential_read(JsonView::Object(document@)) {
                None => action matches ActionView::Fail(error) && error.kind
                    == ProviderErrorKind::ProviderInfrastructureUnavailable,
                Some(read) => if has_model(models, read.tier, search.request.model->0@) {
                    action == ActionView::ClaimAffinity(search.chosen) && after.credential == Some(
                        read,
                    )
                } else {
                    action matches ActionView::Fail(error) && error.kind
                        == ProviderErrorKind::Unsupported && error.send_state
                        == UpstreamSendState::NotSent
                },
            }
        },
        event matches Event::Owner(owner) ==> (next(
            search,
            event,
            models,
        ).1 matches ActionView::Select { index, credential, owner: told } && index == search.chosen
            && Some(credential) == search.credential && told == owner@),
        next(search, event, models).1 is Select ==> event is Owner,
{
    if let Event::Loaded(document) = event {
        if let Some(read) = crate::credential::credential_read(JsonView::Object(document@)) {
            let id = search.request.model->0@;
            if has_model(models, read.tier, id) {
                let k = choose|k: int|
                    0 <= k < models.len() && (#[trigger] models[k]).tier == read.tier
                        && models[k].id@ == id;
                assert(is_entry(models[k], read.tier, id));
            }
            if crate::catalog::offers(models, read.tier, id) {
                let k = choose|k: int|
                    0 <= k < models.len() && is_entry(#[trigger] models[k], read.tier, id);
                assert(models[k].tier == read.tier && models[k].id@ == id);
            }
        }
    }
}

/// The accounts, each with the moment at which it is back.
pub open spec fn with_moments(accounts: Seq<Account>, untils: Seq<Option<Moment>>, count: nat) -> Seq<
    (Account, Option<Moment>),
> {
    Seq::new(count, |i: int| (accounts[i], untils[i]))
}

/// Those of them that can be used.
pub open spec fn back_at(
    accounts: Seq<(Account, Option<Moment>)>,
    now: Moment,
    test: bool,
) -> Seq<(Account, Option<Moment>)> {
    accounts.filter(|entry: (Account, Option<Moment>)| usable(entry.1, now, test))
}

/// The accounts alone.
pub open spec fn without_moments(accounts: Seq<(Account, Option<Moment>)>) -> Seq<Account> {
    accounts.map_values(|entry: (Account, Option<Moment>)| entry.0)
}

proof fn lemma_warm_is_filter(
    accounts: Seq<Account>,
    untils: Seq<Option<Moment>>,
    now: Moment,
    test: bool,
    count: nat,
)
    ensures
        warm(accounts, untils, now, test, count as int) == without_moments(
            back_at(with_moments(accounts, untils, count), now, test),
        ),
    decreases count,
{
    reveal(Seq::filter);
    let paired = with_moments(accounts, untils, count);
    if count > 0 {
        let fewer = (count - 1) as nat;
        lemma_warm_is_filter(accounts, untils, now, test, fewer);
        lemma_usable(untils[count - 1], now, test);
        assert(paired.drop_last() =~= with_moments(accounts, untils, fewer));
        let before = back_at(paired.drop_last(), now, test);
        assert(without_moments(before.push(paired.last())) =~= without_moments(before).push(
            accounts[count - 1],
        ));
    }
    assert(warm(accounts, untils, now, test, count as int) =~= without_moments(
        back_at(paired, now, test),
    ));
}

/// The candidates stand in the order in which the accounts were listed, each as often as there.
pub proof fn lemma_candidates_keep_their_order(
    search: SearchView,
    untils: Vec<Option<Moment>>,
    now: Moment,
    models: Seq<Model>,
)
    requires
        search.phase == Phase::Cooling,
        search.known.len() == search.accounts.len(),
        untils@.len() == search.accounts.len(),
        next(search, Event::Cooldowns { untils, now }, models).1 == ActionView::Offer,
    ensures
        next(search, Event::Cooldowns { untils, now }, models).0.candidates == without_moments(
            back_at(
                with_moments(search.accounts, untils@, search.accounts.len()),
                now,
                search.request.diagnostic,
            ),
        ),
{
    lemma_warm_is_filter(
        search.accounts,
        untils@,
        now,
        search.request.diagnostic,
        search.accounts.len(),
    );
}

/// What the host reports is kept as it is reported, and asks for what comes next: the preferred
/// account, which accounts have a known state, who is blocked and whether waiting can help, and
/// the choice among the candidates. A wait that is over starts the search anew, with nothing left
/// of the wait; one that is turned down ends it for the reason given, and a host that fails ends
/// it as out of order. None of the two sends anything.
pub proof fn lemma_reports_are_kept(search: SearchView, event: Event, models: Seq<Model>)
    ensures
        ({
            let (after, action) = next(search, event, models);
            &&& after.request == search.request
            &&& match event {
                Event::Affinity(preferred) => after.preferred == preferred && after.phase
                    == Phase::Listing && action == ActionView::ListAccounts,
                Event::Scheduled(known) => after.known == known@ && after.accounts
                    == search.accounts && after.phase == Phase::Cooling && action
                    == ActionView::ReadCooldowns,
                Event::Offered { waitable, blocked } => after.waitable == waitable && after.tried
                    == blocked@ && after.candidates == search.candidates && after.retry_after
                    == search.retry_after && after.phase == Phase::Choosing && action
                    == ActionView::Choose,
                Event::Chosen(Some(index)) => after.chosen == index && after.tried == search.tried
                    && after.candidates == search.candidates && after.phase == Phase::Acquiring
                    && action == ActionView::Acquire(index),
                Event::Acquired => after.candidates == search.candidates && after.chosen
                    == search.chosen && after.phase == Phase::Loading && action
                    == ActionView::LoadCredential(search.chosen),
                Event::Waited => after.retry_after is None && after.preferred == search.preferred
                    && after.phase == Phase::Listing && action == ActionView::ListAccounts,
                Event::Rejected(kind) => {
                    &&& after.phase == Phase::Finished
                    &&& action matches ActionView::Fail(error)
                    &&& error.kind == kind
                    &&& error.send_state == UpstreamSendState::NotSent
                    &&& error.retry_after is None
                },
                Event::Unavailable => {
                    &&& after.phase == Phase::Finished
                    &&& action matches ActionView::Fail(error)
                    &&& error.kind == ProviderErrorKind::ProviderInfrastructureUnavailable
                    &&& error.send_state == UpstreamSendState::NotSent
                    &&& error.retry_after is None
                },
                _ => true,
            }
        }),
{
}

} // verus!
