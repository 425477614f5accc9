//! The scheduling rules, stated over a mathematical picture of a command
//! graph in the middle of a run.
//!
//! A run moves by three kinds of step: commands are scheduled, a ready
//! command is dispatched, a running command completes. This module says
//! what each step does and proves what holds after any number of steps.

use crate::commands::{
    def_digest_of, digest_input, lemma_digest_input_tells_apart, CommandRtStatus, CommandView,
};
use crate::output::CommandOutput;
use crate::paths::is_file_name;
use vstd::prelude::*;

verus! {

/// How much may run at one time.
#[derive(Clone, Copy, Debug, PartialEq, Eq, Structural)]
pub struct ResourcePool {
    pub cpus: u32,
    pub memory_mb: u32,
}

/// How a finished command came to be finished.
pub enum OutcomeView {
    /// An executor ran it.
    Executed(CommandOutput),
    /// The status record of an earlier run was taken.
    Cached(CommandOutput),
    /// The result of a command with the same digest was taken.
    Reused(CommandOutput),
    /// The executor could not run it.
    Failed(Seq<char>),
}

impl OutcomeView {
    pub open spec fn output(self) -> Option<CommandOutput> {
        match self {
            OutcomeView::Executed(o) => Some(o),
            OutcomeView::Cached(o) => Some(o),
            OutcomeView::Reused(o) => Some(o),
            OutcomeView::Failed(_) => None,
        }
    }

    /// A command passed when it has an output with exit code zero.
    pub open spec fn passed(self) -> bool {
        self.output() matches Some(o) && o.exit_code == 0
    }
}

/// What the scheduler does with a command it was asked to dispatch.
#[derive(Clone, Copy, Debug, PartialEq, Eq, Structural)]
pub enum Decision {
    /// The command is handed to an executor.
    Execute,
    /// The command takes the output of a finished command with its digest.
    Reuse(CommandOutput),
    /// The command takes the passing output found in its status record.
    CacheHit(CommandOutput),
    /// The command stays where it is.
    Defer,
}

/// What an executor reports of a command it was handed.
pub enum ReportView {
    Output(CommandOutput),
    Failure(Seq<char>),
}

/// The sum of the weights of the running commands.
pub open spec fn running_weight(status: Seq<CommandRtStatus>, weights: Seq<nat>) -> nat
    decreases status.len(),
{
    if status.len() == 0 {
        0
    } else {
        running_weight(status.drop_last(), weights.drop_last()) + if status.last() is Running {
            weights.last()
        } else {
            0
        }
    }
}

/// A command graph in the middle of a run.
pub struct GraphView {
    pub commands: Seq<CommandView>,
    /// For each command, the positions of the commands it depends on.
    pub deps: Seq<Seq<int>>,
    pub digests: Seq<Seq<u8>>,
    pub status: Seq<CommandRtStatus>,
    pub outcomes: Seq<Option<OutcomeView>>,
    pub pool: ResourcePool,
    pub max_parallel: nat,
    pub trace_id: Seq<char>,
}

impl GraphView {
    pub open spec fn len(self) -> int {
        self.commands.len() as int
    }

    /// The graph is well defined: every name names a file and differs from
    /// every other, and every dependency names a command of the graph.
    pub open spec fn well_defined(self) -> bool {
        &&& self.deps.len() == self.len()
        &&& self.digests.len() == self.len()
        &&& self.status.len() == self.len()
        &&& self.outcomes.len() == self.len()
        &&& forall|i: int| 0 <= i < self.len() ==> is_file_name((#[trigger] self.commands[i]).name)
        &&& forall|i: int, j: int|
            0 <= i < self.len() && 0 <= j < self.len() && i != j ==> (#[trigger] self.commands[i]).name
                != (#[trigger] self.commands[j]).name
        &&& forall|i: int|
            0 <= i < self.len() ==> (#[trigger] self.deps[i]).len()
                == self.commands[i].dependencies.len()
        &&& forall|i: int, k: int|
            0 <= i < self.len() && 0 <= k < self.deps[i].len() ==> {
                &&& 0 <= #[trigger] self.deps[i][k] < self.len()
                &&& self.commands[self.deps[i][k]].name == self.commands[i].dependencies[k]
            }
        &&& forall|i: int|
            0 <= i < self.len() ==> #[trigger] self.digests[i] == def_digest_of(self.commands[i])
    }

    /// Command `i` has finished and passed.
    pub open spec fn passed_at(self, i: int) -> bool {
        &&& 0 <= i < self.len()
        &&& self.status[i] is Finished
        &&& self.outcomes[i] matches Some(outcome)
        &&& outcome.passed()
    }

    /// Command `b` names command `a` as a dependency.
    pub open spec fn depends_on(self, b: int, a: int) -> bool {
        &&& 0 <= b < self.len()
        &&& exists|k: int| 0 <= k < self.deps[b].len() && #[trigger] self.deps[b][k] == a
    }

    pub open spec fn cpu_weights(self) -> Seq<nat> {
        self.commands.map_values(|c: CommandView| c.runtime.num_cpus as nat)
    }

    pub open spec fn memory_weights(self) -> Seq<nat> {
        self.commands.map_values(|c: CommandView| c.runtime.max_memory_mb as nat)
    }

    pub open spec fn unit_weights(self) -> Seq<nat> {
        self.commands.map_values(|c: CommandView| 1nat)
    }

    /// The processors claimed by the running commands.
    pub open spec fn cpus_in_use(self) -> nat {
        running_weight(self.status, self.cpu_weights())
    }

    /// The memory claimed by the running commands.
    pub open spec fn memory_in_use(self) -> nat {
        running_weight(self.status, self.memory_weights())
    }

    /// The number of running commands.
    pub open spec fn running_count(self) -> nat {
        running_weight(self.status, self.unit_weights())
    }

    /// What holds at every moment of every run.
    pub open spec fn inv(self) -> bool {
        &&& self.well_defined()
        &&& forall|i: int|
            0 <= i < self.len() ==> ((#[trigger] self.status[i]) is Finished) == (
            self.outcomes[i] is Some)
        &&& forall|i: int, k: int|
            0 <= i < self.len() && 0 <= k < self.deps[i].len() && (self.status[i] is Running
                || self.status[i] is Finished) ==> self.passed_at(#[trigger] self.deps[i][k])
        &&& forall|i: int, k: int|
            0 <= i < self.len() && 0 <= k < self.deps[i].len() && !(self.status[i] is Unscheduled)
                ==> !(self.status[#[trigger] self.deps[i][k]] is Unscheduled)
        &&& forall|i: int, j: int|
            0 <= i < self.len() && 0 <= j < self.len() && i != j && (
            #[trigger] self.status[i]) is Running && (#[trigger] self.status[j]) is Running
                ==> self.digests[i] != self.digests[j]
        &&& self.cpus_in_use() <= self.pool.cpus
        &&& self.memory_in_use() <= self.pool.memory_mb
        &&& self.running_count() <= self.max_parallel
    }

    /// Command `i` waits for nothing but a decision: it is scheduled and
    /// every command it depends on has finished and passed.
    pub open spec fn is_ready(self, i: int) -> bool {
        &&& 0 <= i < self.len()
        &&& self.status[i] is Scheduled
        &&& forall|k: int| 0 <= k < self.deps[i].len() ==> self.passed_at(#[trigger] self.deps[i][k])
    }

    /// Command `j` is another command with the digest of `i` that has
    /// finished with an output.
    pub open spec fn is_source(self, i: int, j: int) -> bool {
        &&& 0 <= j < self.len()
        &&& j != i
        &&& self.digests[j] == self.digests[i]
        &&& self.outcomes[j] matches Some(outcome)
        &&& outcome.output() is Some
    }

    /// The first command whose output command `i` may take.
    pub open spec fn source(self, i: int) -> Option<int> {
        if exists|j: int| self.is_source(i, j) {
            Some(
                choose|j: int|
                    self.is_source(i, j) && forall|k: int| 0 <= k < j ==> !self.is_source(i, k),
            )
        } else {
            None
        }
    }

    /// Another command with the digest of `i` is running.
    pub open spec fn has_running_twin(self, i: int) -> bool {
        exists|j: int|
            0 <= j < self.len() && j != i && (#[trigger] self.status[j]) is Running
                && self.digests[j] == self.digests[i]
    }

    /// Command `i` can be admitted: what it needs is free.
    pub open spec fn fits(self, i: int) -> bool {
        &&& self.cpus_in_use() + self.commands[i].runtime.num_cpus <= self.pool.cpus
        &&& self.memory_in_use() + self.commands[i].runtime.max_memory_mb <= self.pool.memory_mb
        &&& self.running_count() < self.max_parallel
    }

    /// What is done with command `i`, given what its status record held.
    /// A command that is not ready waits. A ready command takes the output
    /// of its status record if that passed; else the output of a finished
    /// command with its digest; else it waits while a command with its
    /// digest runs or while there is no room for it; else it is executed.
    pub open spec fn decision(self, i: int, cached: Option<CommandOutput>) -> Decision {
        if !self.is_ready(i) {
            Decision::Defer
        } else if cached is Some && cached.unwrap().exit_code == 0 {
            Decision::CacheHit(cached.unwrap())
        } else if self.source(i) is Some {
            Decision::Reuse(self.outcomes[self.source(i).unwrap()].unwrap().output().unwrap())
        } else if self.has_running_twin(i) || !self.fits(i) {
            Decision::Defer
        } else {
            Decision::Execute
        }
    }

    /// The graph with command `i` at `status` and with `outcome`.
    pub open spec fn with(self, i: int, status: CommandRtStatus, outcome: Option<OutcomeView>) -> GraphView {
        GraphView {
            status: self.status.update(i, status),
            outcomes: self.outcomes.update(i, outcome),
            ..self
        }
    }

    /// The graph after command `i` was offered for dispatch at time `now`.
    /// A command that is handed to an executor starts running; a command
    /// that takes a result starts and finishes in the same moment.
    pub open spec fn dispatched(self, i: int, cached: Option<CommandOutput>, now: u64) -> GraphView {
        let running: CommandRtStatus = self.status[i].successor(now).unwrap();
        let finished: CommandRtStatus = running.successor(now).unwrap();
        match self.decision(i, cached) {
            Decision::Defer => self,
            Decision::Execute => self.with(i, running, None),
            Decision::Reuse(output) => self.with(i, finished, Some(OutcomeView::Reused(output))),
            Decision::CacheHit(output) => self.with(i, finished, Some(OutcomeView::Cached(output))),
        }
    }

    /// The graph after an executor reported on command `i` at time `now`.
    /// A report on a command that is not running changes nothing.
    pub open spec fn completed(self, i: int, report: ReportView, now: u64) -> GraphView {
        if 0 <= i < self.len() && self.status[i] is Running {
            self.with(
                i,
                self.status[i].successor(now).unwrap(),
                Some(
                    match report {
                        ReportView::Output(output) => OutcomeView::Executed(output),
                        ReportView::Failure(reason) => OutcomeView::Failed(reason),
                    },
                ),
            )
        } else {
            self
        }
    }

    /// Command `i` is among `roots` or is needed by them, through at most
    /// `steps` dependencies.
    pub open spec fn reaches(self, roots: Seq<bool>, i: int, steps: nat) -> bool
        decreases steps,
    {
        ||| (0 <= i < roots.len() && roots[i])
        ||| (steps > 0 && exists|j: int, k: int|
            0 <= j < self.len() && 0 <= k < self.deps[j].len() && #[trigger] self.deps[j][k] == i
                && self.reaches(roots, j, (steps - 1) as nat))
    }

    /// Command `i` belongs to the run of `roots`: it is one of them or one
    /// of them needs it, directly or through others.
    pub open spec fn in_scope(self, roots: Seq<bool>, i: int) -> bool {
        exists|steps: nat| self.reaches(roots, i, steps)
    }

    /// The graph at the start of the run `trace_id` of `roots` at time `now`:
    /// the commands of the run are scheduled, all others are not, and no
    /// outcome of an earlier run is left.
    pub open spec fn scheduled(self, roots: Seq<bool>, trace_id: Seq<char>, now: u64) -> GraphView {
        GraphView {
            status: Seq::new(
                self.len() as nat,
                |i: int|
                    if self.in_scope(roots, i) {
                        CommandRtStatus::Scheduled { scheduled_time: now }
                    } else {
                        CommandRtStatus::Unscheduled
                    },
            ),
            outcomes: Seq::new(self.len() as nat, |i: int| None::<OutcomeView>),
            trace_id,
            ..self
        }
    }

    /// Every command of the run has finished.
    pub open spec fn is_complete(self) -> bool {
        forall|i: int|
            0 <= i < self.len() ==> (#[trigger] self.status[i]) is Unscheduled
                || self.status[i] is Finished
    }
}

/// One step of a run.
pub enum Step {
    /// A run of `roots` is started.
    Schedule { roots: Seq<bool>, trace_id: Seq<char>, now: u64 },
    /// Command `i` is offered for dispatch.
    Dispatch { i: int, cached: Option<CommandOutput>, now: u64 },
    /// An executor reports on command `i`.
    Complete { i: int, report: ReportView, now: u64 },
}

impl GraphView {
    /// The graph after one step.
    pub open spec fn step(self, step: Step) -> GraphView {
        match step {
            Step::Schedule { roots, trace_id, now } => self.scheduled(roots, trace_id, now),
            Step::Dispatch { i, cached, now } => self.dispatched(i, cached, now),
            Step::Complete { i, report, now } => self.completed(i, report, now),
        }
    }

    /// The graph after `steps`, taken in order.
    pub open spec fn after(self, steps: Seq<Step>) -> GraphView
        decreases steps.len(),
    {
        if steps.len() == 0 {
            self
        } else {
            self.after(steps.drop_last()).step(steps.last())
        }
    }
}

/// Changing one status changes the running weight by the weight of that
/// one command.
pub proof fn lemma_running_weight_update(
    status: Seq<CommandRtStatus>,
    weights: Seq<nat>,
    i: int,
    next: CommandRtStatus,
)
    requires
        0 <= i < status.len(),
        weights.len() == status.len(),
    ensures
        running_weight(status.update(i, next), weights) + (if status[i] is Running {
            weights[i]
        } else {
            0
        }) == running_weight(status, weights) + (if next is Running {
            weights[i]
        } else {
            0
        }),
    decreases status.len(),
{
    let after: Seq<CommandRtStatus> = status.update(i, next);
    if i == status.len() - 1 {
        assert(after.drop_last() =~= status.drop_last());
    } else {
        assert(after.drop_last() =~= status.drop_last().update(i, next));
        lemma_running_weight_update(status.drop_last(), weights.drop_last(), i, next);
    }
}

/// Where nothing runs, nothing is in use.
pub proof fn lemma_running_weight_idle(status: Seq<CommandRtStatus>, weights: Seq<nat>)
    requires
        weights.len() == status.len(),
        forall|i: int| 0 <= i < status.len() ==> !((#[trigger] status[i]) is Running),
    ensures
        running_weight(status, weights) == 0,
    decreases status.len(),
{
    if status.len() > 0 {
        lemma_running_weight_idle(status.drop_last(), weights.drop_last());
    }
}

/// The start of a run leaves the graph in order.
pub proof fn lemma_scheduled_keeps_inv(
    graph: GraphView,
    roots: Seq<bool>,
    trace_id: Seq<char>,
    now: u64,
)
    requires
        graph.well_defined(),
    ensures
        graph.scheduled(roots, trace_id, now).inv(),
{
    let after: GraphView = graph.scheduled(roots, trace_id, now);
    lemma_running_weight_idle(after.status, after.cpu_weights());
    lemma_running_weight_idle(after.status, after.memory_weights());
    lemma_running_weight_idle(after.status, after.unit_weights());
    assert forall|i: int, k: int|
        0 <= i < after.len() && 0 <= k < after.deps[i].len() && !(after.status[i] is Unscheduled)
        implies !(after.status[#[trigger] after.deps[i][k]] is Unscheduled) by {
        let d: int = graph.deps[i][k];
        assert(graph.in_scope(roots, i));
        let steps: nat = choose|steps: nat| graph.reaches(roots, i, steps);
        assert(graph.reaches(roots, d, steps + 1));
        assert(graph.in_scope(roots, d));
    }
}

/// A dispatch leaves the graph in order.
pub proof fn lemma_dispatched_keeps_inv(
    graph: GraphView,
    i: int,
    cached: Option<CommandOutput>,
    now: u64,
)
    requires
        graph.inv(),
    ensures
        graph.dispatched(i, cached, now).inv(),
{
    let after: GraphView = graph.dispatched(i, cached, now);
    match graph.decision(i, cached) {
        Decision::Defer => {},
        Decision::Execute => {
            lemma_running_weight_update(graph.status, graph.cpu_weights(), i, after.status[i]);
            lemma_running_weight_update(graph.status, graph.memory_weights(), i, after.status[i]);
            lemma_running_weight_update(graph.status, graph.unit_weights(), i, after.status[i]);
            lemma_step_keeps_gates(graph, after, i);
            assert forall|a: int, b: int|
                0 <= a < after.len() && 0 <= b < after.len() && a != b && (
                #[trigger] after.status[a]) is Running && (#[trigger] after.status[b]) is Running
                implies after.digests[a] != after.digests[b] by {
                if a == i {
                    assert(graph.status[b] is Running);
                } else if b == i {
                    assert(graph.status[a] is Running);
                } else {
                    assert(graph.status[a] is Running && graph.status[b] is Running);
                }
            }
        },
        _ => {
            lemma_running_weight_update(graph.status, graph.cpu_weights(), i, after.status[i]);
            lemma_running_weight_update(graph.status, graph.memory_weights(), i, after.status[i]);
            lemma_running_weight_update(graph.status, graph.unit_weights(), i, after.status[i]);
            lemma_step_keeps_gates(graph, after, i);
            assert forall|a: int, b: int|
                0 <= a < after.len() && 0 <= b < after.len() && a != b && (
                #[trigger] after.status[a]) is Running && (#[trigger] after.status[b]) is Running
                implies after.digests[a] != after.digests[b] by {
                assert(graph.status[a] is Running && graph.status[b] is Running);
            }
        },
    }
}

/// A report leaves the graph in order.
pub proof fn lemma_completed_keeps_inv(graph: GraphView, i: int, report: ReportView, now: u64)
    requires
        graph.inv(),
    ensures
        graph.completed(i, report, now).inv(),
{
    let after: GraphView = graph.completed(i, report, now);
    if 0 <= i < graph.len() && graph.status[i] is Running {
        lemma_running_weight_update(graph.status, graph.cpu_weights(), i, after.status[i]);
        lemma_running_weight_update(graph.status, graph.memory_weights(), i, after.status[i]);
        lemma_running_weight_update(graph.status, graph.unit_weights(), i, after.status[i]);
        lemma_step_keeps_gates(graph, after, i);
        assert forall|a: int, b: int|
            0 <= a < after.len() && 0 <= b < after.len() && a != b && (
            #[trigger] after.status[a]) is Running && (#[trigger] after.status[b]) is Running
            implies after.digests[a] != after.digests[b] by {
            assert(graph.status[a] is Running && graph.status[b] is Running);
        }
    }
}

/// A step that moves one command forward, and past scheduled only when
/// everything it depends on has passed, keeps every gate shut that was shut.
proof fn lemma_step_keeps_gates(graph: GraphView, after: GraphView, i: int)
    requires
        graph.inv(),
        0 <= i < graph.len(),
        !(graph.status[i] is Unscheduled) && !(graph.status[i] is Finished),
        after == graph.with(i, after.status[i], after.outcomes[i]),
        after.status[i] is Running || after.status[i] is Finished,
        (after.status[i] is Finished) == (after.outcomes[i] is Some),
        forall|k: int| 0 <= k < graph.deps[i].len() ==> graph.passed_at(#[trigger] graph.deps[i][k]),
    ensures
        after.well_defined(),
        forall|a: int|
            0 <= a < after.len() ==> ((#[trigger] after.status[a]) is Finished) == (
            after.outcomes[a] is Some),
        forall|a: int, k: int|
            0 <= a < after.len() && 0 <= k < after.deps[a].len() && (after.status[a] is Running
                || after.status[a] is Finished) ==> after.passed_at(#[trigger] after.deps[a][k]),
        forall|a: int, k: int|
            0 <= a < after.len() && 0 <= k < after.deps[a].len() && !(after.status[a] is Unscheduled)
                ==> !(after.status[#[trigger] after.deps[a][k]] is Unscheduled),
{
    assert forall|a: int, k: int|
        0 <= a < after.len() && 0 <= k < after.deps[a].len() && (after.status[a] is Running
            || after.status[a] is Finished) implies after.passed_at(
        #[trigger] after.deps[a][k],
    ) by {
        let d: int = graph.deps[a][k];
        assert(graph.passed_at(d));
        assert(d != i);
    }
    assert forall|a: int, k: int|
        0 <= a < after.len() && 0 <= k < after.deps[a].len() && !(after.status[a] is Unscheduled)
        implies !(after.status[#[trigger] after.deps[a][k]] is Unscheduled) by {
        let d: int = graph.deps[a][k];
        assert(!(graph.status[d] is Unscheduled));
    }
}

/// Two commands of one graph are digested as different bytes, for they
/// differ in name: they share a digest only where the hash gives one value
/// for two inputs.
pub proof fn lemma_commands_digested_apart(graph: GraphView, i: int, j: int)
    requires
        graph.well_defined(),
        0 <= i < graph.len(),
        0 <= j < graph.len(),
        i != j,
    ensures
        digest_input(graph.commands[i]) != digest_input(graph.commands[j]),
{
    if digest_input(graph.commands[i]) == digest_input(graph.commands[j]) {
        lemma_digest_input_tells_apart(graph.commands[i], graph.commands[j]);
    }
}

/// Whatever steps a run takes, in whatever order, the graph stays in order.
pub proof fn lemma_every_run_keeps_inv(graph: GraphView, steps: Seq<Step>)
    requires
        graph.inv(),
    ensures
        graph.after(steps).inv(),
    decreases steps.len(),
{
    if steps.len() > 0 {
        lemma_every_run_keeps_inv(graph, steps.drop_last());
        let before: GraphView = graph.after(steps.drop_last());
        match steps.last() {
            Step::Schedule { roots, trace_id, now } => {
                lemma_scheduled_keeps_inv(before, roots, trace_id, now);
            },
            Step::Dispatch { i, cached, now } => {
                lemma_dispatched_keeps_inv(before, i, cached, now);
            },
            Step::Complete { i, report, now } => {
                lemma_completed_keeps_inv(before, i, report, now);
            },
        }
    }
}

/// Dependency gating, at every moment of every run: whatever steps were
/// taken, a command that runs depends only on commands that have finished.
pub proof fn lemma_never_running_before_dependency(
    graph: GraphView,
    steps: Seq<Step>,
    a: int,
    b: int,
)
    requires
        graph.inv(),
        graph.after(steps).depends_on(b, a),
        graph.after(steps).status[b] is Running,
    ensures
        graph.after(steps).status[a] is Finished,
        graph.after(steps).passed_at(a),
{
    lemma_every_run_keeps_inv(graph, steps);
    lemma_dependency_gating(graph.after(steps), a, b);
}

/// No step of `steps` starts a run.
pub open spec fn within_one_run(steps: Seq<Step>) -> bool {
    forall|k: int| 0 <= k < steps.len() ==> !((#[trigger] steps[k]) is Schedule)
}

/// Failure blocks dependents for good: once a command has finished without
/// passing, then for the rest of the run, whatever steps are taken, it
/// stays so and no command that depends on it runs or finishes.
pub proof fn lemma_failure_blocks_for_good(graph: GraphView, steps: Seq<Step>, a: int, b: int)
    requires
        graph.inv(),
        graph.depends_on(b, a),
        0 <= a < graph.len(),
        graph.status[a] is Finished,
        !graph.passed_at(a),
        within_one_run(steps),
    ensures
        graph.after(steps).status[a] == graph.status[a],
        graph.after(steps).outcomes[a] == graph.outcomes[a],
        graph.after(steps).status[b] is Unscheduled || graph.after(steps).status[b] is Scheduled,
        graph.after(steps).deps == graph.deps,
    decreases steps.len(),
{
    if steps.len() == 0 {
        lemma_failure_blocks_dependents(graph, a, b, None, 0);
    } else {
        let earlier: Seq<Step> = steps.drop_last();
        assert(within_one_run(earlier)) by {
            assert forall|k: int| 0 <= k < earlier.len() implies !((#[trigger] earlier[k])
                is Schedule) by {
                assert(earlier[k] == steps[k]);
            }
        }
        lemma_failure_blocks_for_good(graph, earlier, a, b);
        lemma_every_run_keeps_inv(graph, earlier);
        let before: GraphView = graph.after(earlier);
        assert(!(steps[steps.len() - 1] is Schedule));
        assert(before.depends_on(b, a)) by {
            let k: int = choose|k: int|
                0 <= k < graph.deps[b].len() && #[trigger] graph.deps[b][k] == a;
            assert(before.deps[b][k] == a);
        }
        assert(before.len() == graph.len());
        match steps.last() {
            Step::Schedule { .. } => {},
            Step::Dispatch { i, cached, now } => {
                lemma_finished_stays(before, a, i, cached, ReportView::Output(
                    CommandOutput { exit_code: 0 },
                ), now);
                lemma_dispatched_keeps_inv(before, i, cached, now);
                lemma_failure_blocks_dependents(before.dispatched(i, cached, now), a, b, None, 0);
            },
            Step::Complete { i, report, now } => {
                lemma_finished_stays(before, a, i, None, report, now);
                lemma_completed_keeps_inv(before, i, report, now);
                lemma_failure_blocks_dependents(before.completed(i, report, now), a, b, None, 0);
            },
        }
    }
}

/// Dependency gating: a command that runs, or has finished, depends only
/// on commands that finished before it and passed.
pub proof fn lemma_dependency_gating(graph: GraphView, a: int, b: int)
    requires
        graph.inv(),
        graph.depends_on(b, a),
        graph.status[b] is Running || graph.status[b] is Finished,
    ensures
        graph.status[a] is Finished,
        graph.passed_at(a),
{
    let k: int = choose|k: int| 0 <= k < graph.deps[b].len() && #[trigger] graph.deps[b][k] == a;
    assert(graph.passed_at(graph.deps[b][k]));
}

/// Failure blocks dependents: while a command has finished without
/// passing, no command that depends on it runs or finishes, and offering
/// such a command for dispatch changes nothing.
pub proof fn lemma_failure_blocks_dependents(
    graph: GraphView,
    a: int,
    b: int,
    cached: Option<CommandOutput>,
    now: u64,
)
    requires
        graph.inv(),
        graph.depends_on(b, a),
        0 <= a < graph.len(),
        graph.status[a] is Finished,
        !graph.passed_at(a),
    ensures
        graph.status[b] is Unscheduled || graph.status[b] is Scheduled,
        graph.decision(b, cached) == Decision::Defer,
        graph.dispatched(b, cached, now) == graph,
{
    let k: int = choose|k: int| 0 <= k < graph.deps[b].len() && #[trigger] graph.deps[b][k] == a;
    if graph.status[b] is Running || graph.status[b] is Finished {
        assert(graph.passed_at(graph.deps[b][k]));
    }
    assert(!graph.passed_at(graph.deps[b][k]));
    assert(!graph.is_ready(b));
}

/// What has finished stays finished: no dispatch and no report changes
/// the status or the outcome of a finished command.
pub proof fn lemma_finished_stays(
    graph: GraphView,
    a: int,
    i: int,
    cached: Option<CommandOutput>,
    report: ReportView,
    now: u64,
)
    requires
        graph.inv(),
        0 <= a < graph.len(),
        graph.status[a] is Finished,
    ensures
        graph.dispatched(i, cached, now).status[a] == graph.status[a],
        graph.dispatched(i, cached, now).outcomes[a] == graph.outcomes[a],
        graph.completed(i, report, now).status[a] == graph.status[a],
        graph.completed(i, report, now).outcomes[a] == graph.outcomes[a],
{
}

/// Whether a command may go from `from` to `to` in one dispatch or one
/// report: it stays, or takes one legal step, or two in the same moment.
pub open spec fn moves_legally(from: CommandRtStatus, to: CommandRtStatus) -> bool {
    ||| to == from
    ||| from.steps_to(to)
    ||| exists|between: CommandRtStatus| from.steps_to(between) && between.steps_to(to)
}

/// Within a run every step moves at most one command, and moves it as the
/// status of a command may move: forward, one stage after the other.
pub proof fn lemma_steps_move_forward(
    graph: GraphView,
    a: int,
    i: int,
    cached: Option<CommandOutput>,
    report: ReportView,
    now: u64,
)
    requires
        graph.inv(),
        0 <= a < graph.len(),
    ensures
        moves_legally(graph.status[a], graph.dispatched(i, cached, now).status[a]),
        moves_legally(graph.status[a], graph.completed(i, report, now).status[a]),
        graph.dispatched(i, cached, now).status[a].stage() >= graph.status[a].stage(),
        graph.completed(i, report, now).status[a].stage() >= graph.status[a].stage(),
        a != i ==> graph.dispatched(i, cached, now).status[a] == graph.status[a],
        a != i ==> graph.completed(i, report, now).status[a] == graph.status[a],
{
    let from: CommandRtStatus = graph.status[a];
    if a == i {
        if graph.decision(i, cached) != Decision::Defer {
            let running: CommandRtStatus = from.successor(now).unwrap();
            let finished: CommandRtStatus = running.successor(now).unwrap();
            assert(from.successor(now) == Some(running));
            assert(running.successor(now) == Some(finished));
            assert(from.steps_to(running));
            assert(running.steps_to(finished));
        }
        if from is Running {
            let finished: CommandRtStatus = from.successor(now).unwrap();
            assert(from.successor(now) == Some(finished));
            assert(from.steps_to(finished));
        }
    }
}

/// Independent progress: a scheduled command whose dependencies have
/// passed, and for which there is room, is dispatched whatever the other
/// commands do, and finishes with the first report on it. No command that
/// it does not depend on can hold it back by not finishing.
pub proof fn lemma_independent_progress(
    graph: GraphView,
    c: int,
    cached: Option<CommandOutput>,
    report: ReportView,
    started: u64,
    ended: u64,
)
    requires
        graph.inv(),
        graph.is_ready(c),
        graph.fits(c),
        !graph.has_running_twin(c),
    ensures
        graph.decision(c, cached) != Decision::Defer,
        graph.dispatched(c, cached, started).status[c] is Running || graph.dispatched(
            c,
            cached,
            started,
        ).status[c] is Finished,
        graph.dispatched(c, cached, started).completed(c, report, ended).status[c] is Finished,
        forall|a: int|
            0 <= a < graph.len() && a != c ==> graph.dispatched(c, cached, started).completed(
                c,
                report,
                ended,
            ).status[a] == #[trigger] graph.status[a],
{
}

} // verus!
