//! The background task that asks again for quotas that were found exhausted.

use vstd::prelude::*;

verus! {

/// How often exhausted quotas are looked at, in seconds.
pub const QUOTA_RECHECK_INTERVAL: u64 = 300;

/// After how long an exhausted quota without a known reset is asked for again, in seconds.
pub const EXHAUSTED_QUOTA_FALLBACK_RECHECK_INTERVAL: u64 = 600;

/// After how long a failed cycle is repeated at first and at most, in seconds.
pub const WORKER_INITIAL_BACKOFF: u64 = 1;

pub const WORKER_MAXIMUM_BACKOFF: u64 = 60;

/// How long the right to run the task is held, and after how long it is renewed, in seconds.
pub const WORKER_LEASE_TTL: u64 = 900;

pub const WORKER_LEASE_RENEWAL: u64 = 300;

/// What a cycle reports where the accounts cannot be listed, and where a quota was not there.
pub const ACCOUNTS_UNAVAILABLE: &'static str = "OpenCode Provider accounts unavailable";

pub const RECHECK_FAILED: &'static str = "OpenCode quota recheck failed";

/// What a background task looks after. Together with its owner this is the task's name.
#[derive(Debug, Clone, Copy, PartialEq, Eq, Structural)]
pub enum WorkerKind {
    QuotaCatalogHealth,
}

/// When a task is run, all times in seconds.
#[derive(Debug, Clone, Copy, PartialEq, Eq, Structural)]
pub struct WorkerSchedule {
    pub interval: u64,
    pub initial_backoff: u64,
    pub maximum_backoff: u64,
    pub lease_ttl: u64,
    pub lease_renewal: u64,
}

/// How the host runs a task: cycle by cycle, and under a lease for so many seconds where only one
/// host may run it at a time; or for as long as the host itself runs.
#[derive(Debug, Clone, Copy, PartialEq, Eq, Structural)]
pub enum WorkerRunnable {
    Scheduled { schedule: WorkerSchedule, lease: Option<u64> },
    Resident,
}

/// A background task for the host to run.
#[derive(Debug, PartialEq)]
pub struct WorkerContribution {
    pub kind: WorkerKind,
    pub owner: String,
    pub runnable: WorkerRunnable,
}

/// Whether a task is the one that asks again for the exhausted quotas of a provider.
pub open spec fn is_recheck_task(task: WorkerContribution, owner: Seq<char>) -> bool {
    &&& task.kind == WorkerKind::QuotaCatalogHealth
    &&& task.owner@ == owner
    &&& task.runnable == WorkerRunnable::Scheduled {
        schedule: WorkerSchedule {
            interval: QUOTA_RECHECK_INTERVAL,
            initial_backoff: WORKER_INITIAL_BACKOFF,
            maximum_backoff: WORKER_MAXIMUM_BACKOFF,
            lease_ttl: WORKER_LEASE_TTL,
            lease_renewal: WORKER_LEASE_RENEWAL,
        },
        lease: Some(WORKER_LEASE_TTL),
    }
}

/// The tasks of a provider. The catalog comes with the release, so there is nothing to keep in
/// step but the quotas.
pub fn worker_contributions(kind: &str) -> (tasks: Vec<WorkerContribution>)
    ensures
        tasks@.len() == 1,
        is_recheck_task(tasks@[0], kind@),
{
    let schedule = WorkerSchedule {
        interval: QUOTA_RECHECK_INTERVAL,
        initial_backoff: WORKER_INITIAL_BACKOFF,
        maximum_backoff: WORKER_MAXIMUM_BACKOFF,
        lease_ttl: WORKER_LEASE_TTL,
        lease_renewal: WORKER_LEASE_RENEWAL,
    };
    let mut tasks: Vec<WorkerContribution> = Vec::new();
    tasks.push(
        WorkerContribution {
            kind: WorkerKind::QuotaCatalogHealth,
            owner: kind.to_owned(),
            runnable: WorkerRunnable::Scheduled { schedule, lease: Some(WORKER_LEASE_TTL) },
        },
    );
    tasks
}

/// An account as far as the task looks at it: whether it is in use, and whether its quota was
/// found exhausted and is due to be asked for again.
#[derive(Debug, Clone, Copy, PartialEq, Eq, Structural)]
pub struct RecheckCandidate {
    pub enabled: bool,
    pub refresh_due: bool,
}

pub open spec fn is_due(candidate: RecheckCandidate) -> bool {
    candidate.enabled && candidate.refresh_due
}

/// Whether an account's quota has to be asked for again. An exhausted quota is never taken for
/// restored because time has passed, so without asking the account would stay out for good.
pub fn recheck_due(candidate: &RecheckCandidate) -> (due: bool)
    ensures
        due == is_due(*candidate),
{
    candidate.enabled && candidate.refresh_due
}

/// The next account from `from` on whose quota is due.
pub open spec fn next_due(candidates: Seq<RecheckCandidate>, from: int) -> Option<int>
    decreases candidates.len() - from,
{
    if from >= candidates.len() {
        None
    } else if is_due(candidates[from]) {
        Some(from)
    } else {
        next_due(candidates, from + 1)
    }
}

/// What the host has to do in a cycle.
#[derive(Debug, Clone, Copy, PartialEq, Eq, Structural)]
pub enum CycleStep {
    /// Ask for the quota of this account.
    Refresh(usize),
    /// The cycle is over, and whether every quota was there.
    Done(bool),
}

/// A cycle over the accounts.
pub struct RecheckCycle {
    pub candidates: Vec<RecheckCandidate>,
    /// The account to look at next.
    pub position: usize,
    pub failures: u64,
}

pub open spec fn cycle_step(candidates: Seq<RecheckCandidate>, from: int, failures: u64) -> CycleStep {
    match next_due(candidates, from) {
        Some(index) => CycleStep::Refresh(index as usize),
        None => CycleStep::Done(failures == 0),
    }
}

/// One more failure, as long as they can be counted.
pub open spec fn counted(failures: u64, failed: bool) -> u64 {
    if failed && failures < u64::MAX {
        (failures + 1) as u64
    } else {
        failures
    }
}

/// A cycle asks for the quota of an account exactly where it is due, and for each at most once:
/// the next one lies behind the last.
pub proof fn lemma_each_due_once(candidates: Seq<RecheckCandidate>, from: int)
    requires
        0 <= from,
    ensures
        match next_due(candidates, from) {
            Some(index) => from <= index < candidates.len() && is_due(candidates[index])
                && forall|i: int| from <= i < index ==> !is_due(#[trigger] candidates[i]),
            None => forall|i: int|
                from <= i < candidates.len() ==> !is_due(#[trigger] candidates[i]),
        },
    decreases candidates.len() - from,
{
    if from < candidates.len() && !is_due(candidates[from]) {
        lemma_each_due_once(candidates, from + 1);
    }
}

impl RecheckCycle {
    pub fn new(candidates: Vec<RecheckCandidate>) -> (cycle: RecheckCycle)
        ensures
            cycle.candidates@ == candidates@,
            cycle.position == 0,
            cycle.failures == 0,
    {
        RecheckCycle { candidates, position: 0, failures: 0 }
    }

    /// The next account whose quota is due, or the end of the cycle.
    pub fn advance(&mut self) -> (step: CycleStep)
        ensures
            step == cycle_step(old(self).candidates@, old(self).position as int, old(self).failures),
            final(self).candidates@ == old(self).candidates@,
            final(self).failures == old(self).failures,
            final(self).position == (match step {
                CycleStep::Refresh(index) => index + 1,
                CycleStep::Done(_) => if old(self).position < old(self).candidates@.len() {
                    old(self).candidates@.len() as int
                } else {
                    old(self).position as int
                },
            }),
    {
        proof {
            lemma_each_due_once(self.candidates@, self.position as int);
        }
        while self.position < self.candidates.len()
            invariant
                self.candidates@ == old(self).candidates@,
                self.failures == old(self).failures,
                old(self).position <= self.position,
                self.position <= self.candidates.len() || self.position == old(self).position,
                next_due(old(self).candidates@, old(self).position as int) == next_due(
                    old(self).candidates@,
                    self.position as int,
                ),
            decreases self.candidates.len() - self.position,
        {
            let index: usize = self.position;
            self.position = index + 1;
            if recheck_due(&self.candidates[index]) {
                return CycleStep::Refresh(index);
            }
        }
        CycleStep::Done(self.failures == 0)
    }

    /// Notes whether the quota was there. Where it was not, what was known stays known, and the
    /// account stays out.
    pub fn note(&mut self, failed: bool)
        ensures
            final(self).failures == counted(old(self).failures, failed),
            final(self).candidates@ == old(self).candidates@,
            final(self).position == old(self).position,
    {
        if failed && self.failures < u64::MAX {
            self.failures += 1;
        }
    }
}

/// A failure is never forgotten: once one was noted, the cycle does not end well.
pub proof fn lemma_failure_is_reported(
    candidates: Seq<RecheckCandidate>,
    from: int,
    failures: u64,
    failed: bool,
)
    requires
        failures > 0,
    ensures
        counted(failures, failed) > 0,
        cycle_step(candidates, from, failures) != CycleStep::Done(true),
{
}

/// What a cycle does next: it asks for the quota of the first account that is left, in use and
/// found exhausted and due; it is over where there is none, and well where nothing failed.
pub proof fn lemma_cycle_asks_for_what_is_due(
    candidates: Seq<RecheckCandidate>,
    from: int,
    failures: u64,
)
    requires
        0 <= from <= candidates.len() <= usize::MAX,
    ensures
        match cycle_step(candidates, from, failures) {
            CycleStep::Refresh(index) => {
                &&& from <= index < candidates.len()
                &&& candidates[index as int].enabled
                &&& candidates[index as int].refresh_due
                &&& forall|i: int|
                    from <= i < index ==> !((#[trigger] candidates[i]).enabled
                        && candidates[i].refresh_due)
            },
            CycleStep::Done(well) => {
                &&& well <==> failures == 0
                &&& forall|i: int|
                    from <= i < candidates.len() ==> !((#[trigger] candidates[i]).enabled
                        && candidates[i].refresh_due)
            },
        },
        counted(failures, false) == failures,
        failures < u64::MAX ==> counted(failures, true) == failures + 1,
{
    lemma_each_due_once(candidates, from);
    if let Some(index) = next_due(candidates, from) {
        assert forall|i: int| from <= i < index implies !((#[trigger] candidates[i]).enabled
            && candidates[i].refresh_due) by {
            assert(!is_due(candidates[i]));
        }
    } else {
        assert forall|i: int| from <= i < candidates.len() implies !((
        #[trigger] candidates[i]).enabled && candidates[i].refresh_due) by {
            assert(!is_due(candidates[i]));
        }
    }
}

/// When the task is run: every five minutes, again after one second and at most one minute where
/// it failed, and by one host at a time, for fifteen minutes that are renewed after five.
pub proof fn lemma_task_is_scheduled(task: WorkerContribution, owner: Seq<char>)
    requires
        is_recheck_task(task, owner),
    ensures
        task.kind == WorkerKind::QuotaCatalogHealth,
        task.owner@ == owner,
        task.runnable matches WorkerRunnable::Scheduled { schedule, lease } && schedule.interval
            == 300 && schedule.initial_backoff == 1 && schedule.maximum_backoff == 60
            && schedule.lease_ttl == 900 && schedule.lease_renewal == 300 && lease == Some(900u64),
{
}

} // verus!
