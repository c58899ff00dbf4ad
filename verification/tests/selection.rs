use provider_opencode::catalog::{Catalog, Model, Protocol};
use provider_opencode::credential::Tier;
use provider_opencode::error::{ProviderErrorKind, UpstreamSendState};
use provider_opencode::json::{Json, JsonObject};
use provider_opencode::selection::{Account, Action, Event, Phase, Search, SearchRequest};
use provider_opencode::time::{Delay, Moment};

fn entry(tier: Tier, id: &str) -> Model {
    Model {
        tier,
        id: id.to_owned(),
        name: id.to_owned(),
        protocol: Protocol::Chat,
        tools: true,
        vision: true,
        reasoning: true,
        context: 1,
        output: 1,
    }
}

fn catalog() -> Catalog {
    Catalog { models: vec![entry(Tier::Zen, "zen-only"), entry(Tier::Go, "go-only")] }
}

fn account(id: &str, plan: Option<&str>) -> Account {
    Account {
        id: id.to_owned(),
        provider: "opencode".to_owned(),
        plan_type: plan.map(str::to_owned),
        revision: 1,
        enabled: true,
        allowed: true,
    }
}

fn request(model: &str) -> SearchRequest {
    SearchRequest {
        provider: "opencode".to_owned(),
        model: Some(model.to_owned()),
        diagnostic: false,
        required: None,
        excluded: Vec::new(),
        queueing: false,
    }
}

fn object(text: &str) -> JsonObject {
    match Json::parse(text).unwrap() {
        Json::Object(object) => object,
        _ => panic!("no object"),
    }
}

fn at(seconds: i64) -> Moment {
    Moment { seconds, nanos: 0 }
}

fn listing(request: SearchRequest) -> Search {
    let mut search = Search::begin(request).ok().unwrap();
    search.step(Event::Affinity(Some("acct_p".to_owned())), &catalog());
    search
}

/// A search whose candidates are these accounts, with a choice to be made.
fn choosing(request: SearchRequest, accounts: Vec<Account>, waitable: bool) -> Search {
    let catalog = catalog();
    let mut search = listing(request);
    search.step(Event::Accounts(accounts), &catalog);
    let count = search.accounts.len();
    search.step(Event::Scheduled(vec![true; count]), &catalog);
    search.step(Event::Cooldowns { untils: vec![None; count], now: at(0) }, &catalog);
    search.step(Event::Offered { waitable, blocked: vec![false; count] }, &catalog);
    assert_eq!(search.phase, Phase::Choosing);
    search
}

fn failure(action: Action) -> ProviderErrorKind {
    match action {
        Action::Fail(error) => {
            assert_eq!(error.send_state, UpstreamSendState::NotSent);
            error.kind
        }
        _ => panic!("no failure"),
    }
}

fn ids(accounts: &[Account]) -> Vec<&str> {
    accounts.iter().map(|account| account.id.as_str()).collect()
}

#[test]
fn a_search_needs_a_model() {
    let mut without = request("x");
    without.model = None;
    let error = Search::begin(without).err().unwrap();
    assert_eq!(error.kind, ProviderErrorKind::InvalidRequest);
}

#[test]
fn only_fitting_accounts_are_kept() {
    let catalog = catalog();
    let mut refused = account("acct_r", None);
    refused.allowed = false;
    let accounts = vec![
        account("acct_z", Some("zen")),
        account("acct_g", Some("go")),
        refused,
        account("acct_x", Some("other")),
        account("acct_e", None),
    ];
    let mut wanted = request("zen-only");
    wanted.excluded = vec!["acct_e".to_owned()];
    let mut search = listing(wanted);
    assert!(matches!(search.step(Event::Accounts(accounts), &catalog), Action::LoadState));
    assert_eq!(ids(&search.accounts), vec!["acct_z", "acct_x"]);
    let mut search = listing(request("go-only"));
    search.step(
        Event::Accounts(vec![account("acct_z", Some("zen")), account("acct_g", Some("go"))]),
        &catalog,
    );
    assert_eq!(ids(&search.accounts), vec!["acct_g"]);
}

#[test]
fn a_test_fetches_the_account_that_is_not_listed() {
    let catalog = catalog();
    let wanted = || {
        let mut wanted = request("zen-only");
        wanted.diagnostic = true;
        wanted.required = Some("acct_t".to_owned());
        wanted
    };
    let mut search = listing(wanted());
    assert!(matches!(search.step(Event::Accounts(Vec::new()), &catalog), Action::FetchRequired));
    let mut fetched = account("acct_t", None);
    fetched.allowed = false;
    assert!(matches!(search.step(Event::Fetched(Some(fetched)), &catalog), Action::LoadState));
    assert_eq!(ids(&search.accounts), vec!["acct_t"]);
    let mut search = listing(wanted());
    search.step(Event::Accounts(Vec::new()), &catalog);
    let mut foreign = account("acct_t", None);
    foreign.provider = "openai".to_owned();
    search.step(Event::Fetched(Some(foreign)), &catalog);
    assert!(search.accounts.is_empty());
    let mut search = listing(wanted());
    let accounts = vec![account("acct_t", None), account("acct_o", None)];
    assert!(matches!(search.step(Event::Accounts(accounts), &catalog), Action::LoadState));
    assert_eq!(ids(&search.accounts), vec!["acct_t"]);
    search.step(Event::Scheduled(vec![true]), &catalog);
    search.step(Event::Cooldowns { untils: vec![Some(at(99))], now: at(0) }, &catalog);
    assert_eq!(ids(&search.candidates), vec!["acct_t"]);
    assert_eq!(search.retry_after, None);
}

#[test]
fn the_shortest_wait_is_reported() {
    let catalog = catalog();
    let mut search = listing(request("zen-only"));
    let accounts = vec![account("a", None), account("b", None), account("c", None)];
    search.step(Event::Accounts(accounts), &catalog);
    search.step(Event::Scheduled(vec![false, false, true]), &catalog);
    let untils = vec![Some(at(30)), Some(at(20)), Some(at(10))];
    search.step(Event::Cooldowns { untils, now: at(10) }, &catalog);
    assert_eq!(ids(&search.candidates), vec!["c"]);
    assert_eq!(search.retry_after, Some(Delay::from_seconds(10)));
}

#[test]
fn an_account_without_scheduling_state_closes_the_search() {
    let catalog = catalog();
    let mut search = listing(request("zen-only"));
    search.step(Event::Accounts(vec![account("a", None)]), &catalog);
    search.step(Event::Scheduled(vec![false]), &catalog);
    let action = search.step(Event::Cooldowns { untils: vec![None], now: at(0) }, &catalog);
    assert_eq!(failure(action), ProviderErrorKind::ProviderInfrastructureUnavailable);
}

#[test]
fn a_chosen_account_is_leased_loaded_and_claimed() {
    let catalog = catalog();
    let accounts = vec![account("a", None), account("b", None)];
    let mut search = choosing(request("zen-only"), accounts, true);
    assert_eq!(search.preference().map(String::as_str), Some("acct_p"));
    assert!(matches!(search.step(Event::Chosen(Some(0)), &catalog), Action::Acquire(0)));
    let busy = Event::Busy(Some(Delay::from_seconds(5)));
    assert!(matches!(search.step(busy, &catalog), Action::Choose));
    assert_eq!(search.tried, vec![true, false]);
    assert!(matches!(search.step(Event::Chosen(Some(1)), &catalog), Action::Acquire(1)));
    assert!(matches!(search.step(Event::Acquired, &catalog), Action::LoadCredential(1)));
    let document = object(r#"{"api_key":"k","tier":"zen"}"#);
    assert!(matches!(search.step(Event::Loaded(document), &catalog), Action::ClaimAffinity(1)));
    match search.step(Event::Owner("acct_o".to_owned()), &catalog) {
        Action::Select { index, credential, owner } => {
            assert_eq!(index, 1);
            assert_eq!(credential.api_key, "k");
            assert_eq!(credential.tier, Tier::Zen);
            assert_eq!(owner, "acct_o");
        }
        _ => panic!("nothing selected"),
    }
}

#[test]
fn the_required_account_is_preferred() {
    let mut wanted = request("zen-only");
    wanted.required = Some("acct_q".to_owned());
    let search = listing(wanted);
    assert_eq!(search.preference().map(String::as_str), Some("acct_q"));
}

#[test]
fn a_credential_has_to_fit() {
    let catalog = catalog();
    let loading = || {
        let mut search = choosing(request("zen-only"), vec![account("a", None)], true);
        search.step(Event::Chosen(Some(0)), &catalog);
        search.step(Event::Acquired, &catalog);
        search
    };
    let unreadable = Event::Loaded(object(r#"{"api_key":""}"#));
    assert_eq!(
        failure(loading().step(unreadable, &catalog)),
        ProviderErrorKind::ProviderInfrastructureUnavailable
    );
    let other = Event::Loaded(object(r#"{"api_key":"k","tier":"go"}"#));
    assert_eq!(failure(loading().step(other, &catalog)), ProviderErrorKind::Unsupported);
}

#[test]
fn without_a_candidate_a_request_waits_or_fails() {
    let catalog = catalog();
    let none = || Event::Chosen(None);
    let mut search = choosing(request("zen-only"), Vec::new(), false);
    assert_eq!(failure(search.step(none(), &catalog)), ProviderErrorKind::NoEligibleAccount);
    let mut search = choosing(request("zen-only"), vec![account("a", None)], true);
    search.step(Event::Chosen(Some(0)), &catalog);
    search.step(Event::Busy(None), &catalog);
    assert_eq!(
        failure(search.step(none(), &catalog)),
        ProviderErrorKind::AccountCapacityUnavailable
    );
    let mut queueing = request("zen-only");
    queueing.queueing = true;
    let mut search = choosing(queueing, vec![account("a", None)], true);
    assert!(matches!(search.step(none(), &catalog), Action::Wait));
    assert!(matches!(search.step(Event::Waited, &catalog), Action::ListAccounts));
    let mut queueing = request("zen-only");
    queueing.queueing = true;
    let mut search = choosing(queueing, vec![account("a", None)], true);
    search.step(none(), &catalog);
    assert_eq!(
        failure(search.step(Event::Rejected(ProviderErrorKind::RateLimited), &catalog)),
        ProviderErrorKind::RateLimited
    );
}

#[test]
fn every_store_that_fails_closes_the_search() {
    let catalog = catalog();
    let unavailable = ProviderErrorKind::ProviderInfrastructureUnavailable;
    let mut search = Search::begin(request("zen-only")).ok().unwrap();
    assert_eq!(failure(search.step(Event::Unavailable, &catalog)), unavailable);
    let mut search = listing(request("zen-only"));
    assert_eq!(failure(search.step(Event::Unavailable, &catalog)), unavailable);
    let mut search = choosing(request("zen-only"), vec![account("a", None)], true);
    search.step(Event::Chosen(Some(0)), &catalog);
    assert_eq!(failure(search.step(Event::Unavailable, &catalog)), unavailable);
}
