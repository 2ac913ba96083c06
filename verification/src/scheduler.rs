//! The scheduler: which generation jobs to hand out, level by level.
//!
//! The hierarchy is walked from the top. Below every parent of a level the
//! scheduler hands out as many jobs as the level's count says, to the workers
//! in turn, and then waits for the replies to all of them. The entries that
//! were written become the parents of the next level; below an entry that
//! could not be written nothing is generated. Who runs the scheduler hands
//! the jobs to the workers and reports each reply.

use vstd::prelude::*;
use vstd::string::*;

verus! {

/// A job: generate one entry of `object_class` below `parent`, on worker
/// number `worker`.
#[derive(Debug, PartialEq, Eq)]
pub struct Job {
    pub worker: u64,
    pub parent: String,
    pub object_class: String,
}

/// The mathematical value of a `Job`.
pub ghost struct JobView {
    pub worker: nat,
    pub parent: Seq<char>,
    pub object_class: Seq<char>,
}

impl View for Job {
    type V = JobView;

    open spec fn view(&self) -> JobView {
        JobView {
            worker: self.worker as nat,
            parent: self.parent@,
            object_class: self.object_class@,
        }
    }
}

/// What the scheduler asks for next.
#[derive(Debug, PartialEq, Eq)]
pub enum Action {
    /// Hand this job to its worker.
    Dispatch(Job),
    /// Wait for a reply to a job that was handed out, and report it.
    Gather,
    /// Every level is done.
    Finished,
}

/// The mathematical value of an `Action`.
pub ghost enum Step {
    Dispatch(JobView),
    Gather,
    Finished,
}

impl View for Action {
    type V = Step;

    open spec fn view(&self) -> Step {
        match self {
            Action::Dispatch(job) => Step::Dispatch(job@),
            Action::Gather => Step::Gather,
            Action::Finished => Step::Finished,
        }
    }
}

/// The scheduler's state.
pub struct Scheduler {
    hierarchy: Vec<(String, u64)>,
    workers: u64,
    level: usize,
    parents: Vec<String>,
    parent: usize,
    issued: u64,
    pending: u64,
    confirmed: Vec<String>,
}

/// The mathematical value of a `Scheduler`.
pub ghost struct Plan {
    /// The levels: object class and count.
    pub hierarchy: Seq<(Seq<char>, u64)>,
    /// The number of workers.
    pub workers: nat,
    /// The level that is being generated; the number of levels when all are
    /// done.
    pub level: nat,
    /// The entries below which this level is generated.
    pub parents: Seq<Seq<char>>,
    /// The parent whose jobs are being handed out.
    pub parent: nat,
    /// The number of jobs handed out below that parent.
    pub issued: nat,
    /// The number of those jobs that have no reply yet.
    pub pending: nat,
    /// The entries of this level that were written, in the order of the
    /// replies.
    pub confirmed: Seq<Seq<char>>,
}

impl Plan {
    /// Whether every level is done.
    pub open spec fn finished(self) -> bool {
        self.level >= self.hierarchy.len()
    }

    /// The number of entries to generate below each parent of the level.
    pub open spec fn count(self) -> nat {
        self.hierarchy[self.level as int].1 as nat
    }

    /// What holds of the plan at every moment: while a level is being
    /// generated it has a parent and a worker, the jobs handed out below the
    /// parent are no more than the count, and either a job is left to hand
    /// out or a reply is awaited.
    pub open spec fn valid(self) -> bool {
        &&& self.level <= self.hierarchy.len()
        &&& !self.finished() ==> {
            &&& self.workers > 0
            &&& self.parent < self.parents.len()
            &&& self.pending <= self.issued <= self.count()
            &&& self.issued < self.count() || self.pending > 0
        }
    }

    /// The plan when `level` starts with `parents`: generation of that level,
    /// or the end if there is no such level, no parent or nothing to generate
    /// below a parent.
    pub open spec fn enter(self, level: nat, parents: Seq<Seq<char>>) -> Plan {
        let next = Plan {
            level,
            parents,
            parent: 0,
            issued: 0,
            pending: 0,
            confirmed: Seq::empty(),
            ..self
        };
        if !next.finished() && parents.len() > 0 && next.count() > 0 {
            next
        } else {
            Plan { level: self.hierarchy.len(), ..next }
        }
    }

    /// The job that is handed out next, if one is.
    pub open spec fn next_job(self) -> JobView {
        JobView {
            worker: self.issued % self.workers,
            parent: self.parents[self.parent as int],
            object_class: self.hierarchy[self.level as int].0,
        }
    }

    /// What the scheduler asks for in this state.
    pub open spec fn step(self) -> Step {
        if self.finished() {
            Step::Finished
        } else if self.issued < self.count() {
            Step::Dispatch(self.next_job())
        } else {
            Step::Gather
        }
    }

    /// The plan after it has asked for its next step: a job that is handed
    /// out is counted and awaits its reply.
    pub open spec fn after_step(self) -> Plan {
        if !self.finished() && self.issued < self.count() {
            Plan { issued: self.issued + 1, pending: self.pending + 1, ..self }
        } else {
            self
        }
    }

    /// The plan after the reply to one job: `Some` with the entry's name if
    /// it was written, `None` if not. The entry counts as confirmed only if
    /// it was written. With the last reply for a parent the next parent is
    /// taken up, and after the last parent the next level, with the confirmed
    /// entries as its parents.
    pub open spec fn after_reply(self, outcome: Option<Seq<char>>) -> Plan {
        let confirmed = match outcome {
            Some(path) => self.confirmed.push(path),
            None => self.confirmed,
        };
        let pending = (self.pending - 1) as nat;
        if self.issued < self.count() || pending > 0 {
            Plan { confirmed, pending, ..self }
        } else if self.parent + 1 < self.parents.len() {
            Plan { confirmed, pending: 0, issued: 0, parent: self.parent + 1, ..self }
        } else {
            self.enter(self.level + 1, confirmed)
        }
    }
}

/// What happens to a scheduler: it is asked for its next step, or it is told
/// the reply to a job.
pub ghost enum Event {
    Ask,
    Reply(Option<Seq<char>>),
}

impl Plan {
    /// Whether `event` can happen in this state: a reply needs a job that
    /// awaits one.
    pub open spec fn accepts(self, event: Event) -> bool {
        event is Reply ==> !self.finished() && self.pending > 0
    }

    /// The plan after `event`.
    pub open spec fn after(self, event: Event) -> Plan {
        match event {
            Event::Ask => self.after_step(),
            Event::Reply(outcome) => self.after_reply(outcome),
        }
    }

    /// The plan after `events`, in their order.
    pub open spec fn after_all(self, events: Seq<Event>) -> Plan
        decreases events.len(),
    {
        if events.len() == 0 {
            self
        } else {
            self.after_all(events.drop_last()).after(events.last())
        }
    }

    /// Whether each of `events` can happen in the state that the events
    /// before it lead to.
    pub open spec fn accepts_all(self, events: Seq<Event>) -> bool
        decreases events.len(),
    {
        events.len() == 0 || (self.accepts_all(events.drop_last()) && self.after_all(
            events.drop_last(),
        ).accepts(events.last()))
    }
}

/// Whether one of `events` is the reply that the entry `path` was written.
pub open spec fn written(events: Seq<Event>, path: Seq<char>) -> bool {
    exists|i: int| 0 <= i < events.len() && #[trigger] events[i] == Event::Reply(Some(path))
}

/// Whether each of `paths` is `base` or an entry that `events` report as
/// written.
pub open spec fn all_written(events: Seq<Event>, base: Seq<char>, paths: Seq<Seq<char>>) -> bool {
    forall|i: int| 0 <= i < paths.len() ==> #[trigger] paths[i] == base || written(events, paths[i])
}

/// A valid plan stays valid whatever happens to it.
pub proof fn lemma_valid_after(plan: Plan, event: Event)
    requires
        plan.valid(),
        plan.accepts(event),
    ensures
        plan.after(event).valid(),
{
}

/// The scheduler turns to the next parent, or to the next level, only with
/// the last reply for the parent at hand: when as many jobs as the level's
/// count were handed out below it and this reply was the only one awaited.
pub proof fn lemma_batch_is_complete(plan: Plan, outcome: Option<Seq<char>>)
    requires
        plan.valid(),
        plan.accepts(Event::Reply(outcome)),
    ensures
        plan.after_reply(outcome).parent != plan.parent || plan.after_reply(outcome).level
            != plan.level ==> plan.issued == plan.count() && plan.pending == 1,
{
}

/// Only entries that were written become parents: whatever happens to a
/// scheduler that starts below `base`, every parent it holds is `base` or an
/// entry that a reply reported as written, and so is the parent of every job
/// it hands out. Below an entry that could not be written it generates
/// nothing.
pub proof fn lemma_parents_were_written(
    base: Seq<char>,
    hierarchy: Seq<(Seq<char>, u64)>,
    workers: nat,
    events: Seq<Event>,
)
    requires
        workers > 0 || hierarchy.len() == 0 || hierarchy[0].1 == 0,
        initial_plan(base, hierarchy, workers).accepts_all(events),
    ensures
        initial_plan(base, hierarchy, workers).after_all(events).valid(),
        all_written(events, base, initial_plan(base, hierarchy, workers).after_all(events).parents),
        all_written(
            events,
            base,
            initial_plan(base, hierarchy, workers).after_all(events).confirmed,
        ),
        initial_plan(base, hierarchy, workers).after_all(events).step() matches Step::Dispatch(job)
            ==> job.parent == base || written(events, job.parent),
    decreases events.len(),
{
    let start = initial_plan(base, hierarchy, workers);
    if events.len() == 0 {
        assert(start.parents =~= seq![base]);
    } else {
        let earlier = events.drop_last();
        let before = start.after_all(earlier);
        let plan = before.after(events.last());
        lemma_parents_were_written(base, hierarchy, workers, earlier);
        lemma_valid_after(before, events.last());
        assert forall|path: Seq<char>| written(earlier, path) implies written(events, path) by {
            let i = choose|i: int| 0 <= i < earlier.len() && #[trigger] earlier[i] == Event::Reply(Some(path));
            assert(events[i] == earlier[i]);
        }
        match events.last() {
            Event::Reply(Some(path)) => {
                assert(events[events.len() - 1] == Event::Reply(Some(path)));
                assert(written(events, path));
            },
            _ => {},
        }
        assert(all_written(events, base, plan.parents));
        assert(all_written(events, base, plan.confirmed));
    }
}

/// Where every job is answered before the next step is asked for, the
/// scheduler never has to wait: it hands out a job or is finished, and after
/// the reply to that job no reply is awaited again.
pub proof fn lemma_answered_at_once(plan: Plan, outcome: Option<Seq<char>>)
    requires
        plan.valid(),
        plan.pending == 0,
    ensures
        !(plan.step() is Gather),
        plan.step() is Dispatch ==> plan.after_step().accepts(Event::Reply(outcome))
            && plan.after_step().after_reply(outcome).valid() && plan.after_step().after_reply(
            outcome,
        ).pending == 0,
{
}

/// The number of entries on the level above `level` when every entry is
/// written: the product of the counts of the levels before it, and 1 for the
/// first level, which is generated below the base alone.
pub open spec fn level_size(hierarchy: Seq<(Seq<char>, u64)>, level: nat) -> nat
    decreases level,
{
    if level == 0 {
        1
    } else {
        level_size(hierarchy, (level - 1) as nat) * (hierarchy[level - 1].1 as nat)
    }
}

/// Whether every reply among `events` says that the entry was written.
pub open spec fn all_succeed(events: Seq<Event>) -> bool {
    forall|i: int| 0 <= i < events.len() ==> ((#[trigger] events[i]) matches Event::Reply(outcome)
        ==> outcome is Some)
}

/// The entries that a level has so far are those of the parents that are
/// done, `count` each, and those of the jobs below the parent at hand that
/// have a reply, less the ones that were not written.
pub open spec fn tally(plan: Plan, exact: bool) -> bool {
    !plan.finished() ==> if exact {
        &&& plan.parents.len() == level_size(plan.hierarchy, plan.level)
        &&& plan.confirmed.len() + plan.pending == plan.parent * plan.count() + plan.issued
    } else {
        &&& plan.parents.len() <= level_size(plan.hierarchy, plan.level)
        &&& plan.confirmed.len() + plan.pending <= plan.parent * plan.count() + plan.issued
    }
}

/// `tally` holds after an event if it held before.
proof fn lemma_tally_after(plan: Plan, event: Event, exact: bool)
    requires
        plan.valid(),
        plan.accepts(event),
        tally(plan, exact),
        exact ==> (event matches Event::Reply(outcome) ==> outcome is Some),
    ensures
        tally(plan.after(event), exact),
{
    let next = plan.after(event);
    if !next.finished() {
        match event {
            Event::Ask => {},
            Event::Reply(outcome) => {
                let count = plan.count();
                let parent = plan.parent;
                if plan.issued < count || plan.pending > 1 {
                } else {
                    assert((parent + 1) * count == parent * count + count) by (nonlinear_arith);
                    if parent + 1 < plan.parents.len() {
                    } else {
                        let size = level_size(plan.hierarchy, plan.level);
                        assert(next.level == plan.level + 1);
                        assert(level_size(plan.hierarchy, next.level) == size * count);
                        assert(plan.parents.len() == parent + 1);
                        if exact {
                            assert(size * count == (parent + 1) * count);
                        } else {
                            assert((parent + 1) * count <= size * count) by (nonlinear_arith)
                                requires
                                    parent + 1 <= size,
                            ;
                        }
                    }
                }
            },
        }
    }
}

/// Every level is as large as the counts say: whatever happens to a scheduler
/// from its start, the level it generates has at most as many parents as the
/// product of the counts of the levels before it, and exactly as many if
/// every entry so far was written.
pub proof fn lemma_level_sizes(
    base: Seq<char>,
    hierarchy: Seq<(Seq<char>, u64)>,
    workers: nat,
    events: Seq<Event>,
)
    requires
        workers > 0 || hierarchy.len() == 0 || hierarchy[0].1 == 0,
        initial_plan(base, hierarchy, workers).accepts_all(events),
    ensures
        tally(initial_plan(base, hierarchy, workers).after_all(events), false),
        all_succeed(events) ==> tally(initial_plan(base, hierarchy, workers).after_all(events), true),
    decreases events.len(),
{
    let start = initial_plan(base, hierarchy, workers);
    if events.len() == 0 {
        assert(start.parents =~= seq![base]);
        assert(start.parent * start.count() == 0) by (nonlinear_arith)
            requires
                start.parent == 0,
        ;
    } else {
        let earlier = events.drop_last();
        let before = start.after_all(earlier);
        lemma_level_sizes(base, hierarchy, workers, earlier);
        lemma_parents_were_written(base, hierarchy, workers, earlier);
        lemma_tally_after(before, events.last(), false);
        if all_succeed(events) {
            assert forall|i: int| 0 <= i < earlier.len() implies ((#[trigger] earlier[i]) matches Event::Reply(
                outcome,
            ) ==> outcome is Some) by {
                assert(earlier[i] == events[i]);
            }
            assert(all_succeed(earlier));
            assert(tally(before, true));
            assert(events[events.len() - 1] == events.last());
            assert(events.last() matches Event::Reply(outcome) ==> outcome is Some);
            lemma_tally_after(before, events.last(), true);
        }
    }
}

/// The number of entries on all the levels above `level` when every entry is
/// written: the sum of their sizes.
pub open spec fn entries_above(hierarchy: Seq<(Seq<char>, u64)>, level: nat) -> nat
    decreases level,
{
    if level == 0 {
        0
    } else {
        entries_above(hierarchy, (level - 1) as nat) + level_size(hierarchy, level)
    }
}

impl Plan {
    /// The number of jobs that the scheduler hands out while `events` happen
    /// to it.
    pub open spec fn handed_out(self, events: Seq<Event>) -> nat
        decreases events.len(),
    {
        if events.len() == 0 {
            0
        } else {
            self.handed_out(events.drop_last()) + if events.last() is Ask && self.after_all(
                events.drop_last(),
            ).step() is Dispatch {
                1nat
            } else {
                0nat
            }
        }
    }
}

/// Whether `jobs` is the number of jobs that are due up to the state of
/// `plan` when every entry is written: all entries of the levels that are
/// done, `count` jobs for each parent that is done, and the jobs handed out
/// below the parent at hand.
pub open spec fn on_account(plan: Plan, jobs: nat) -> bool {
    if plan.finished() {
        jobs == entries_above(plan.hierarchy, plan.hierarchy.len())
    } else {
        jobs == entries_above(plan.hierarchy, plan.level) + plan.parent * plan.count() + plan.issued
    }
}

/// Below a level without entries every level is without entries.
proof fn lemma_empty_below(hierarchy: Seq<(Seq<char>, u64)>, empty: nat, level: nat)
    requires
        empty <= level,
        level_size(hierarchy, empty) == 0,
    ensures
        level_size(hierarchy, level) == 0,
        empty >= 1 ==> entries_above(hierarchy, level) == entries_above(
            hierarchy,
            (empty - 1) as nat,
        ),
    decreases level,
{
    if empty < level {
        lemma_empty_below(hierarchy, empty, (level - 1) as nat);
        assert(level_size(hierarchy, level) == 0) by (nonlinear_arith)
            requires
                level_size(hierarchy, level) == level_size(hierarchy, (level - 1) as nat) * (
                hierarchy[level - 1].1 as nat),
                level_size(hierarchy, (level - 1) as nat) == 0,
        ;
    }
}

/// The account of the jobs stays right over an event, where every entry is
/// written.
proof fn lemma_account_after(plan: Plan, event: Event, jobs: nat)
    requires
        plan.valid(),
        plan.accepts(event),
        tally(plan, true),
        on_account(plan, jobs),
        event matches Event::Reply(outcome) ==> outcome is Some,
    ensures
        on_account(
            plan.after(event),
            jobs + if event is Ask && plan.step() is Dispatch {
                1nat
            } else {
                0nat
            },
        ),
{
    let next = plan.after(event);
    let levels = plan.hierarchy;
    match event {
        Event::Ask => {},
        Event::Reply(outcome) => {
            let count = plan.count();
            let parent = plan.parent;
            if plan.issued < count || plan.pending > 1 {
            } else {
                assert((parent + 1) * count == parent * count + count) by (nonlinear_arith);
                if parent + 1 < plan.parents.len() {
                } else {
                    let reached = (plan.level + 1) as nat;
                    assert(level_size(levels, reached) == level_size(levels, plan.level) * count);
                    assert(jobs == entries_above(levels, reached));
                    if next.finished() && reached < levels.len() {
                        assert((parent + 1) * count > 0) by (nonlinear_arith)
                            requires
                                count > 0,
                        ;
                        assert(levels[reached as int].1 == 0);
                        assert(level_size(levels, reached + 1) == 0) by (nonlinear_arith)
                            requires
                                level_size(levels, reached + 1) == level_size(levels, reached) * (
                                levels[reached as int].1 as nat),
                                levels[reached as int].1 == 0,
                        ;
                        lemma_empty_below(levels, reached + 1, levels.len());
                    }
                }
            }
        },
    }
}

/// Where every entry is written, the scheduler hands out one job for every
/// entry of every level: whatever happens to it from its start, the jobs it
/// has handed out are on account, and when it is finished their number is
/// the sum of the sizes of all levels.
pub proof fn lemma_jobs_handed_out(
    base: Seq<char>,
    hierarchy: Seq<(Seq<char>, u64)>,
    workers: nat,
    events: Seq<Event>,
)
    requires
        workers > 0 || hierarchy.len() == 0 || hierarchy[0].1 == 0,
        initial_plan(base, hierarchy, workers).accepts_all(events),
        all_succeed(events),
    ensures
        on_account(
            initial_plan(base, hierarchy, workers).after_all(events),
            initial_plan(base, hierarchy, workers).handed_out(events),
        ),
        initial_plan(base, hierarchy, workers).after_all(events).hierarchy == hierarchy,
    decreases events.len(),
{
    let start = initial_plan(base, hierarchy, workers);
    if events.len() == 0 {
        if start.finished() {
            if hierarchy.len() > 0 {
                assert(level_size(hierarchy, 1) == 0) by (nonlinear_arith)
                    requires
                        level_size(hierarchy, 1) == level_size(hierarchy, 0) * (hierarchy[0].1 as nat),
                        hierarchy[0].1 == 0,
                ;
                lemma_empty_below(hierarchy, 1, hierarchy.len());
            }
        } else {
            assert(start.parent * start.count() == 0) by (nonlinear_arith)
                requires
                    start.parent == 0,
            ;
        }
    } else {
        let earlier = events.drop_last();
        let before = start.after_all(earlier);
        assert forall|i: int| 0 <= i < earlier.len() implies ((#[trigger] earlier[i]) matches Event::Reply(
            outcome,
        ) ==> outcome is Some) by {
            assert(earlier[i] == events[i]);
        }
        assert(events[events.len() - 1] == events.last());
        lemma_jobs_handed_out(base, hierarchy, workers, earlier);
        lemma_parents_were_written(base, hierarchy, workers, earlier);
        lemma_level_sizes(base, hierarchy, workers, earlier);
        lemma_account_after(before, events.last(), start.handed_out(earlier));
    }
}

/// The plan at the start: the first level, below `base` alone.
pub open spec fn initial_plan(base: Seq<char>, hierarchy: Seq<(Seq<char>, u64)>, workers: nat) -> Plan {
    (Plan {
        hierarchy,
        workers,
        level: 0,
        parents: Seq::empty(),
        parent: 0,
        issued: 0,
        pending: 0,
        confirmed: Seq::empty(),
    }).enter(0, seq![base])
}

/// The number of workers for `parallelism` usable cores and a first level of
/// `first_count` entries: twelve for each core, but no more than there are
/// entries on the first level.
pub open spec fn workers_for(parallelism: nat, first_count: nat) -> nat {
    if parallelism * 12 <= first_count {
        parallelism * 12
    } else {
        first_count
    }
}

/// The number of workers for `parallelism` usable cores and a first level of
/// `first_count` entries.
pub fn worker_count(parallelism: usize, first_count: u64) -> (workers: u64)
    ensures
        workers == workers_for(parallelism as nat, first_count as nat),
{
    if (parallelism as u64) <= first_count / 12 {
        (parallelism as u64) * 12
    } else {
        first_count
    }
}

/// The number of entries on the last level when every entry is written, or
/// the largest number if that is too large: the product of all counts. It is
/// the length of the progress display.
pub fn entry_count(hierarchy: &Vec<(String, u64)>) -> (entries: u64)
    ensures
        entries == if level_size(hierarchy.deep_view(), hierarchy.len() as nat) <= u64::MAX {
            level_size(hierarchy.deep_view(), hierarchy.len() as nat)
        } else {
            u64::MAX as nat
        },
{
    let ghost levels = hierarchy.deep_view();
    let mut product: u64 = 1;
    let mut too_large = false;
    let mut i: usize = 0;
    while i < hierarchy.len()
        invariant
            0 <= i <= hierarchy.len(),
            levels == hierarchy.deep_view(),
            too_large ==> level_size(levels, i as nat) > u64::MAX,
            !too_large ==> product == level_size(levels, i as nat),
        decreases hierarchy.len() - i,
    {
        let count = hierarchy[i].1;
        assert(levels[i as int].1 == count);
        let ghost before = level_size(levels, i as nat);
        assert(level_size(levels, (i + 1) as nat) == before * (count as nat));
        if count == 0 {
            assert(before * 0 == 0) by (nonlinear_arith);
            product = 0;
            too_large = false;
        } else if too_large {
            assert(before * (count as nat) >= before) by (nonlinear_arith)
                requires
                    count >= 1,
            ;
        } else if product > u64::MAX / count {
            assert(before * (count as nat) > u64::MAX) by (nonlinear_arith)
                requires
                    before > u64::MAX as nat / count as nat,
                    count >= 1,
            ;
            too_large = true;
        } else {
            assert(before * (count as nat) <= u64::MAX) by (nonlinear_arith)
                requires
                    before <= u64::MAX as nat / count as nat,
                    count >= 1,
            ;
            product = product * count;
        }
        i += 1;
    }
    if too_large {
        u64::MAX
    } else {
        product
    }
}

/// Calls `num_cpus::get`, the number of logical cores that this process can
/// use. It is documented to be at least 1.
#[verifier::external_body]
fn available_cpus() -> (cpus: usize)
    ensures
        cpus >= 1,
{
    num_cpus::get()
}

/// The number of workers to start on this machine for a first level of
/// `first_count` entries.
pub fn task_count(first_count: u64) -> (workers: u64)
    ensures
        exists|cpus: nat| cpus >= 1 && workers == #[trigger] workers_for(cpus, first_count as nat),
        workers <= first_count,
        first_count > 0 ==> workers > 0,
{
    let cpus = available_cpus();
    let workers = worker_count(cpus, first_count);
    assert(workers == workers_for(cpus as nat, first_count as nat));
    workers
}

impl View for Scheduler {
    type V = Plan;

    closed spec fn view(&self) -> Plan {
        Plan {
            hierarchy: self.hierarchy.deep_view(),
            workers: self.workers as nat,
            level: self.level as nat,
            parents: self.parents.deep_view(),
            parent: self.parent as nat,
            issued: self.issued as nat,
            pending: self.pending as nat,
            confirmed: self.confirmed.deep_view(),
        }
    }
}

impl Scheduler {
    /// Whether the scheduler is in a state that `new` and its methods lead
    /// to.
    pub open spec fn wf(&self) -> bool {
        self@.valid()
    }

    /// A scheduler for `hierarchy` below the entry `base`, with `workers`
    /// workers. Without a worker nothing can be handed out: `workers` is 0
    /// only where the first level is empty.
    pub fn new(base: String, hierarchy: Vec<(String, u64)>, workers: u64) -> (scheduler: Self)
        requires
            workers > 0 || hierarchy.len() == 0 || hierarchy[0].1 == 0,
        ensures
            scheduler.wf(),
            scheduler@ == initial_plan(base@, hierarchy.deep_view(), workers as nat),
    {
        let mut parents: Vec<String> = Vec::new();
        parents.push(base);
        let level = if hierarchy.len() > 0 && hierarchy[0].1 > 0 {
            0
        } else {
            hierarchy.len()
        };
        let scheduler = Scheduler {
            hierarchy,
            workers,
            level,
            parents,
            parent: 0,
            issued: 0,
            pending: 0,
            confirmed: Vec::new(),
        };
        proof {
            assert(scheduler.parents.deep_view() =~= seq![base@]);
            assert(scheduler.confirmed.deep_view() =~= Seq::<Seq<char>>::empty());
            if hierarchy.len() > 0 {
                assert(hierarchy.deep_view()[0].1 == hierarchy[0].1);
            }
        }
        scheduler
    }

    /// Whether every level is done.
    pub fn is_finished(&self) -> (done: bool)
        ensures
            done == self@.finished(),
    {
        self.level >= self.hierarchy.len()
    }

    /// The number of jobs that were handed out and have no reply yet.
    pub fn pending(&self) -> (pending: u64)
        ensures
            pending == self@.pending,
    {
        self.pending
    }

    /// What to do next. A job that is returned counts as handed out.
    pub fn next_action(&mut self) -> (action: Action)
        requires
            old(self).wf(),
        ensures
            final(self).wf(),
            action@ == old(self)@.step(),
            final(self)@ == old(self)@.after_step(),
    {
        if self.level >= self.hierarchy.len() {
            return Action::Finished;
        }
        assert(self.hierarchy.deep_view()[self.level as int] == (
            self.hierarchy[self.level as int].0@,
            self.hierarchy[self.level as int].1,
        ));
        assert(self.parents.deep_view()[self.parent as int] == self.parents[self.parent as int]@);
        if self.issued < self.hierarchy[self.level].1 {
            let job = Job {
                worker: self.issued % self.workers,
                parent: self.parents[self.parent].clone(),
                object_class: self.hierarchy[self.level].0.clone(),
            };
            self.issued = self.issued + 1;
            self.pending = self.pending + 1;
            Action::Dispatch(job)
        } else {
            Action::Gather
        }
    }

    /// Reports the reply to one job: `Some` with the name of the entry if it
    /// was written, `None` if it was not.
    pub fn reply(&mut self, outcome: Option<String>)
        requires
            old(self).wf(),
            !old(self)@.finished(),
            old(self)@.pending > 0,
        ensures
            final(self).wf(),
            final(self)@ == old(self)@.after_reply(
                match outcome {
                    Some(path) => Some(path@),
                    None => None,
                },
            ),
    {
        assert(self.hierarchy.deep_view()[self.level as int] == (
            self.hierarchy[self.level as int].0@,
            self.hierarchy[self.level as int].1,
        ));
        assert(self.parents.deep_view().len() == self.parents.len());
        assert(self.hierarchy.deep_view().len() == self.hierarchy.len());
        let ghost before = self.confirmed.deep_view();
        match outcome {
            Some(path) => {
                self.confirmed.push(path);
                proof {
                    assert(self.confirmed.deep_view() =~= before.push(path@));
                }
            },
            None => {},
        }
        self.pending = self.pending - 1;
        if self.issued < self.hierarchy[self.level].1 || self.pending > 0 {
            return ;
        }
        self.issued = 0;
        if self.parent + 1 < self.parents.len() {
            self.parent = self.parent + 1;
            return ;
        }
        self.parent = 0;
        let mut confirmed: Vec<String> = Vec::new();
        std::mem::swap(&mut confirmed, &mut self.confirmed);
        self.parents = confirmed;
        proof {
            assert(self.confirmed.deep_view() =~= Seq::<Seq<char>>::empty());
        }
        let next = self.level + 1;
        if next < self.hierarchy.len() && self.parents.len() > 0 && self.hierarchy[next].1 > 0 {
            assert(self.hierarchy.deep_view()[next as int] == (
                self.hierarchy[next as int].0@,
                self.hierarchy[next as int].1,
            ));
            self.level = next;
        } else {
            proof {
                if next < self.hierarchy.len() {
                    assert(self.hierarchy.deep_view()[next as int] == (
                        self.hierarchy[next as int].0@,
                        self.hierarchy[next as int].1,
                    ));
                }
            }
            self.level = self.hierarchy.len();
        }
    }
}

} // verus!
