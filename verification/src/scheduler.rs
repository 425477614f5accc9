//! The scheduler: it holds a command graph, decides which command may run
//! next and records what became of each.
//!
//! The scheduler runs nothing itself. Its caller looks up status records,
//! hands commands to executors and reports back; the scheduler answers
//! each step as `graph` says.

use crate::commands::{Command, CommandRtStatus, CommandView, TargetType};
use crate::digest::CommandDefDigest;
use crate::error::OtlErr;
use crate::event::{Event, EventView};
use crate::graph::{
    lemma_completed_keeps_inv, lemma_dispatched_keeps_inv, lemma_running_weight_idle,
    lemma_running_weight_update, lemma_scheduled_keeps_inv, Decision, GraphView, OutcomeView,
    ReportView, ResourcePool,
};
use crate::output::CommandOutput;
use crate::paths::{is_file_name, names_a_file};
use vstd::prelude::*;
use vstd::string::*;

verus! {

/// How a finished command came to be finished.
#[derive(Debug, PartialEq, Eq)]
pub enum Outcome {
    /// An executor ran it.
    Executed(CommandOutput),
    /// The status record of an earlier run was taken.
    Cached(CommandOutput),
    /// The result of a command with the same digest was taken.
    Reused(CommandOutput),
    /// The executor could not run it.
    Failed(String),
}

impl View for Outcome {
    type V = OutcomeView;

    open spec fn view(&self) -> OutcomeView {
        match self {
            Outcome::Executed(o) => OutcomeView::Executed(*o),
            Outcome::Cached(o) => OutcomeView::Cached(*o),
            Outcome::Reused(o) => OutcomeView::Reused(*o),
            Outcome::Failed(reason) => OutcomeView::Failed(reason@),
        }
    }
}

impl Outcome {
    /// The output that the command finished with, if it has one.
    pub fn output(&self) -> (output: Option<CommandOutput>)
        ensures
            output == self@.output(),
    {
        match self {
            Outcome::Executed(o) => Some(*o),
            Outcome::Cached(o) => Some(*o),
            Outcome::Reused(o) => Some(*o),
            Outcome::Failed(_) => None,
        }
    }

    /// Whether the command finished with exit code zero.
    pub fn passed(&self) -> (passed: bool)
        ensures
            passed == self@.passed(),
    {
        match self.output() {
            Some(o) => o.exit_code == 0,
            None => false,
        }
    }
}

/// What an executor reports of a command it was handed: the output of the
/// process, or why there was no process.
#[derive(Debug, PartialEq, Eq)]
pub enum Report {
    Output(CommandOutput),
    Failure(String),
}

impl Report {
    /// What an executor's answer means as a report: the output of the
    /// event that ends the execution; a failure where the executor
    /// answered with another event, or with the text of an error.
    pub fn from_execution(answer: Result<Event, String>) -> (report: Report)
        ensures
            match answer {
                Ok(Event::Finished { output, .. }) => report == Report::Output(output),
                Ok(_) => report matches Report::Failure(reason) && reason@
                    == "the executor gave no finishing event"@,
                Err(error) => report matches Report::Failure(reason) && reason@ == error@,
            },
    {
        match answer {
            Ok(Event::Finished { output, .. }) => Report::Output(output),
            Ok(_) => Report::Failure(String::from_str("the executor gave no finishing event")),
            Err(error) => Report::Failure(error),
        }
    }
}

impl View for Report {
    type V = ReportView;

    open spec fn view(&self) -> ReportView {
        match self {
            Report::Output(o) => ReportView::Output(*o),
            Report::Failure(reason) => ReportView::Failure(reason@),
        }
    }
}

/// The commands that a run is asked for.
#[derive(Debug, PartialEq, Eq)]
pub enum Selection {
    /// Every command of a target type.
    Type(TargetType),
    /// The command with this name.
    One(String),
    /// The commands with these names.
    Many(Vec<String>),
}

pub enum SelectionView {
    Type(TargetType),
    One(Seq<char>),
    Many(Seq<Seq<char>>),
}

impl View for Selection {
    type V = SelectionView;

    open spec fn view(&self) -> SelectionView {
        match self {
            Selection::Type(t) => SelectionView::Type(*t),
            Selection::One(name) => SelectionView::One(name@),
            Selection::Many(names) => SelectionView::Many(names.deep_view()),
        }
    }
}

/// What the caller is to do with a command it offered for dispatch.
#[derive(Debug, PartialEq, Eq)]
pub enum Dispatch {
    /// Hand the command to an executor and report back.
    Execute,
    /// Publish this event: the command has finished without running.
    Resolved(Event),
    /// Nothing: the command must wait.
    Deferred,
}

/// Why a set of commands is no graph.
pub enum LoadError {
    /// The command at this position has no name.
    EmptyName(int),
    /// The command at this position has a name that names no file: it
    /// holds a separator or is `.` or `..`.
    UnsafeName(int),
    /// The command at this position has the name of an earlier one.
    DuplicateName(int),
    /// The command at the first position names, at the second position of
    /// its dependencies, a command that is not there.
    MissingDependency(int, int),
}

/// The least position below `n` at which `p` holds.
pub open spec fn first_where(n: int, p: spec_fn(int) -> bool) -> Option<int> {
    if exists|i: int| 0 <= i < n && #[trigger] p(i) {
        Some(
            choose|i: int|
                0 <= i < n && #[trigger] p(i) && forall|k: int| 0 <= k < i ==> !#[trigger] p(k),
        )
    } else {
        None
    }
}

pub proof fn lemma_first_where(n: int, p: spec_fn(int) -> bool, i: int)
    requires
        0 <= i < n,
        p(i),
        forall|k: int| 0 <= k < i ==> !#[trigger] p(k),
    ensures
        first_where(n, p) == Some(i),
{
    let c: int = choose|c: int|
        0 <= c < n && #[trigger] p(c) && forall|k: int| 0 <= k < c ==> !#[trigger] p(k);
    if c < i {
        assert(!p(c));
    } else if i < c {
        assert(!p(i));
    }
}

/// Whether one of `commands` has the name `name`.
pub open spec fn has_name(commands: Seq<CommandView>, name: Seq<char>) -> bool {
    exists|j: int| 0 <= j < commands.len() && (#[trigger] commands[j]).name == name
}

pub open spec fn is_unnamed(commands: Seq<CommandView>) -> spec_fn(int) -> bool {
    |i: int| commands[i].name.len() == 0
}

pub open spec fn is_unsafe(commands: Seq<CommandView>) -> spec_fn(int) -> bool {
    |i: int| !is_file_name(commands[i].name)
}

pub open spec fn is_redeclared(commands: Seq<CommandView>) -> spec_fn(int) -> bool {
    |i: int| has_name(commands.take(i), commands[i].name)
}

pub open spec fn is_missing(commands: Seq<CommandView>, names: Seq<Seq<char>>) -> spec_fn(
    int,
) -> bool {
    |k: int| !has_name(commands, names[k])
}

pub open spec fn lacks_dependency(commands: Seq<CommandView>) -> spec_fn(int) -> bool {
    |i: int|
        first_where(
            commands[i].dependencies.len() as int,
            is_missing(commands, commands[i].dependencies),
        ) is Some
}

/// What keeps `commands` from being loaded as a graph: the first command
/// without a name, else the first command whose name names no file, else
/// the first command whose name was declared before, else the first
/// dependency that names no command.
pub open spec fn load_error(commands: Seq<CommandView>) -> Option<LoadError> {
    let n: int = commands.len() as int;
    match first_where(n, is_unnamed(commands)) {
        Some(i) => Some(LoadError::EmptyName(i)),
        None => match first_where(n, is_unsafe(commands)) {
            Some(i) => Some(LoadError::UnsafeName(i)),
            None => match first_where(n, is_redeclared(commands)) {
                Some(i) => Some(LoadError::DuplicateName(i)),
                None => match first_where(n, lacks_dependency(commands)) {
                    Some(i) => Some(
                        LoadError::MissingDependency(
                            i,
                            first_where(
                                commands[i].dependencies.len() as int,
                                is_missing(commands, commands[i].dependencies),
                            ).unwrap(),
                        ),
                    ),
                    None => None,
                },
            },
        },
    }
}

/// The names that a selection asks for and the graph does not hold: the
/// first of them.
pub open spec fn unknown_name(commands: Seq<CommandView>, selection: SelectionView) -> Option<
    Seq<char>,
> {
    match selection {
        SelectionView::Type(_) => None,
        SelectionView::One(name) => if has_name(commands, name) {
            None
        } else {
            Some(name)
        },
        SelectionView::Many(names) => match first_where(
            names.len() as int,
            is_missing(commands, names),
        ) {
            Some(k) => Some(names[k]),
            None => None,
        },
    }
}

/// For each command, whether the selection names it.
pub open spec fn roots_of(commands: Seq<CommandView>, selection: SelectionView) -> Seq<bool> {
    Seq::new(
        commands.len(),
        |i: int|
            match selection {
                SelectionView::Type(t) => commands[i].target_type == t,
                SelectionView::One(name) => commands[i].name == name,
                SelectionView::Many(names) => names.contains(commands[i].name),
            },
    )
}

/// The number of `true` among `marks`.
pub open spec fn count_true(marks: Seq<bool>) -> nat
    decreases marks.len(),
{
    if marks.len() == 0 {
        0
    } else {
        count_true(marks.drop_last()) + if marks.last() {
            1nat
        } else {
            0nat
        }
    }
}

proof fn lemma_count_true_bound(marks: Seq<bool>)
    ensures
        count_true(marks) <= marks.len(),
    decreases marks.len(),
{
    if marks.len() > 0 {
        lemma_count_true_bound(marks.drop_last());
    }
}

proof fn lemma_count_true_set(marks: Seq<bool>, i: int)
    requires
        0 <= i < marks.len(),
        !marks[i],
    ensures
        count_true(marks.update(i, true)) == count_true(marks) + 1,
    decreases marks.len(),
{
    let after: Seq<bool> = marks.update(i, true);
    if i == marks.len() - 1 {
        assert(after.drop_last() =~= marks.drop_last());
    } else {
        assert(after.drop_last() =~= marks.drop_last().update(i, true));
        lemma_count_true_set(marks.drop_last(), i);
    }
}

/// A command graph and the state of its run.
pub struct Scheduler {
    commands: Vec<Command>,
    digests: Vec<CommandDefDigest>,
    deps: Vec<Vec<usize>>,
    status: Vec<CommandRtStatus>,
    outcomes: Vec<Option<Outcome>>,
    pool: ResourcePool,
    max_parallel: usize,
    trace_id: String,
    used_cpus: u64,
    used_memory_mb: u64,
    running: usize,
}

pub open spec fn command_views(commands: Seq<Command>) -> Seq<CommandView> {
    commands.map_values(|c: Command| c@)
}

pub open spec fn position_views(deps: Seq<Vec<usize>>) -> Seq<Seq<int>> {
    deps.map_values(|d: Vec<usize>| d@.map_values(|p: usize| p as int))
}

pub open spec fn digest_views(digests: Seq<CommandDefDigest>) -> Seq<Seq<u8>> {
    digests.map_values(|d: CommandDefDigest| d@)
}

pub open spec fn outcome_views(outcomes: Seq<Option<Outcome>>) -> Seq<Option<OutcomeView>> {
    outcomes.map_values(
        |o: Option<Outcome>|
            match o {
                Some(outcome) => Some(outcome@),
                None => None,
            },
    )
}

impl View for Scheduler {
    type V = GraphView;

    closed spec fn view(&self) -> GraphView {
        GraphView {
            commands: command_views(self.commands@),
            deps: position_views(self.deps@),
            digests: digest_views(self.digests@),
            status: self.status@,
            outcomes: outcome_views(self.outcomes@),
            pool: self.pool,
            max_parallel: self.max_parallel as nat,
            trace_id: self.trace_id@,
        }
    }
}

impl Scheduler {
    /// The graph is in order and the books agree with it.
    pub closed spec fn wf(&self) -> bool {
        &&& self@.inv()
        &&& self.used_cpus == self@.cpus_in_use()
        &&& self.used_memory_mb == self@.memory_in_use()
        &&& self.running == self@.running_count()
    }

    /// A well-formed scheduler is in order, as `graph` understands it.
    pub proof fn lemma_wf_inv(&self)
        requires
            self.wf(),
        ensures
            self@.inv(),
    {
    }

    /// The number of commands.
    pub fn len(&self) -> (n: usize)
        requires
            self.wf(),
        ensures
            n == self@.len(),
    {
        self.commands.len()
    }

    /// The command at position `i`.
    pub fn command(&self, i: usize) -> (command: &Command)
        requires
            self.wf(),
            i < self@.len(),
        ensures
            command@ == self@.commands[i as int],
    {
        &self.commands[i]
    }

    /// The digest of the command at position `i`.
    pub fn digest(&self, i: usize) -> (digest: &CommandDefDigest)
        requires
            self.wf(),
            i < self@.len(),
        ensures
            digest@ == self@.digests[i as int],
    {
        &self.digests[i]
    }

    /// Where the command at position `i` stands.
    pub fn status(&self, i: usize) -> (status: CommandRtStatus)
        requires
            self.wf(),
            i < self@.len(),
        ensures
            status == self@.status[i as int],
    {
        self.status[i]
    }

    /// What became of the command at position `i`, once it has finished.
    pub fn outcome(&self, i: usize) -> (outcome: Option<&Outcome>)
        requires
            self.wf(),
            i < self@.len(),
        ensures
            match outcome {
                Some(o) => self@.outcomes[i as int] == Some(o@),
                None => self@.outcomes[i as int] is None,
            },
    {
        match &self.outcomes[i] {
            Some(o) => Some(o),
            None => None,
        }
    }

    /// The position of the command named `name`.
    pub fn position(&self, name: &String) -> (found: Option<usize>)
        requires
            self.wf(),
        ensures
            match found {
                Some(j) => j < self@.len() && self@.commands[j as int].name == name@,
                None => !has_name(self@.commands, name@),
            },
    {
        let found: Option<usize> = find_command(&self.commands, name);
        found
    }

    /// Whether no command is running.
    pub fn is_idle(&self) -> (idle: bool)
        requires
            self.wf(),
        ensures
            idle == (self@.running_count() == 0),
    {
        self.running == 0
    }

    /// Whether every command of the run has finished.
    pub fn is_complete(&self) -> (complete: bool)
        requires
            self.wf(),
        ensures
            complete == self@.is_complete(),
    {
        let mut i: usize = 0;
        while i < self.status.len()
            invariant
                i <= self.status@.len(),
                self.status@.len() == self@.len(),
                self.status@ == self@.status,
                forall|k: int|
                    0 <= k < i ==> (#[trigger] self.status@[k]) is Unscheduled
                        || self.status@[k] is Finished,
            decreases self.status@.len() - i,
        {
            match self.status[i] {
                CommandRtStatus::Unscheduled => {},
                CommandRtStatus::Finished { .. } => {},
                _ => {
                    return false;
                },
            }
            i += 1;
        }
        true
    }
}

impl Scheduler {
    /// Loads `commands` as a graph in which nothing is scheduled, unless a
    /// name is empty or declared twice or a dependency names no command.
    pub fn new(commands: Vec<Command>, pool: ResourcePool, max_parallel: usize) -> (r: Result<
        Scheduler,
        OtlErr,
    >)
        ensures
            match load_error(command_views(commands@)) {
                None => {
                    &&& r matches Ok(s)
                    &&& s.wf()
                    &&& s@.commands == command_views(commands@)
                    &&& s@.pool == pool
                    &&& s@.max_parallel == max_parallel
                    &&& s@.trace_id.len() == 0
                    &&& forall|i: int|
                        0 <= i < s@.len() ==> (#[trigger] s@.status[i]) is Unscheduled
                            && s@.outcomes[i] is None
                },
                Some(LoadError::EmptyName(_)) => {
                    &&& r matches Err(OtlErr::CommandSettingFailed { reason })
                    &&& reason@ == "a command has no name"@
                },
                Some(LoadError::UnsafeName(i)) => {
                    &&& r matches Err(OtlErr::CommandSettingFailed { reason })
                    &&& reason@ == "a command name is no file name: "@ + commands@[i]@.name
                },
                Some(LoadError::DuplicateName(i)) => {
                    &&& r matches Err(OtlErr::CommandSettingFailed { reason })
                    &&& reason@ == "a command name is declared twice: "@ + commands@[i]@.name
                },
                Some(LoadError::MissingDependency(i, k)) => {
                    &&& r matches Err(OtlErr::MissingCommandDependency { missing_dep_name })
                    &&& missing_dep_name@ == commands@[i]@.dependencies[k]
                },
            },
    {
        let ghost views: Seq<CommandView> = command_views(commands@);
        let n: usize = commands.len();
        if let Some(_) = find_unnamed(&commands) {
            return Err(
                OtlErr::CommandSettingFailed { reason: String::from_str("a command has no name") },
            );
        }
        if let Some(i) = find_unsafe(&commands) {
            assert(views[i as int] == commands@[i as int]@);
            return Err(
                OtlErr::CommandSettingFailed {
                    reason: String::from_str("a command name is no file name: ").concat(
                        commands[i].name.as_str(),
                    ),
                },
            );
        }
        if let Some(i) = find_redeclared(&commands) {
            assert(views[i as int] == commands@[i as int]@);
            return Err(
                OtlErr::CommandSettingFailed {
                    reason: String::from_str("a command name is declared twice: ").concat(
                        commands[i].name.as_str(),
                    ),
                },
            );
        }
        let deps: Vec<Vec<usize>> = match resolve_dependencies(&commands) {
            Ok(deps) => deps,
            Err((i, k)) => {
                assert(views[i as int] == commands@[i as int]@);
                assert(views[i as int].dependencies[k as int]
                    == commands@[i as int].dependencies@[k as int]@);
                return Err(
                    OtlErr::MissingCommandDependency {
                        missing_dep_name: commands[i].dependencies[k].clone(),
                    },
                );
            },
        };
        assert(load_error(views) is None);
        let mut i: usize = 0;
        let mut digests: Vec<CommandDefDigest> = Vec::new();
        let mut status: Vec<CommandRtStatus> = Vec::new();
        let mut outcomes: Vec<Option<Outcome>> = Vec::new();
        while i < n
            invariant
                i <= n,
                n == commands@.len(),
                digests@.len() == i,
                status@.len() == i,
                outcomes@.len() == i,
                forall|a: int|
                    0 <= a < i ==> (#[trigger] digests@[a])@ == crate::commands::def_digest_of(
                        commands@[a]@,
                    ),
                forall|a: int| 0 <= a < i ==> (#[trigger] status@[a]) is Unscheduled,
                forall|a: int| 0 <= a < i ==> (#[trigger] outcomes@[a]) is None,
            decreases n - i,
        {
            digests.push(commands[i].def_digest());
            status.push(CommandRtStatus::Unscheduled);
            outcomes.push(None);
            i += 1;
        }
        let scheduler = Scheduler {
            commands,
            digests,
            deps,
            status,
            outcomes,
            pool,
            max_parallel,
            trace_id: String::new(),
            used_cpus: 0,
            used_memory_mb: 0,
            running: 0,
        };
        proof {
            let graph: GraphView = scheduler@;
            assert(graph.commands == views);
            lemma_names_in_order(views);
            assert forall|a: int| 0 <= a < graph.len() implies (#[trigger] graph.deps[a]).len()
                == graph.commands[a].dependencies.len() by {
                assert(graph.deps[a] == scheduler.deps@[a]@.map_values(|p: usize| p as int));
            }
            assert forall|a: int, k: int|
                0 <= a < graph.len() && 0 <= k < graph.deps[a].len() implies {
                &&& 0 <= #[trigger] graph.deps[a][k] < graph.len()
                &&& graph.commands[graph.deps[a][k]].name == graph.commands[a].dependencies[k]
            } by {
                assert(graph.deps[a] == scheduler.deps@[a]@.map_values(|p: usize| p as int));
                assert(graph.deps[a][k] == scheduler.deps@[a]@[k] as int);
            }
            assert forall|a: int| 0 <= a < graph.len() implies #[trigger] graph.digests[a]
                == crate::commands::def_digest_of(graph.commands[a]) by {
                assert(graph.digests[a] == scheduler.digests@[a]@);
            }
            assert(graph.well_defined());
            assert forall|a: int| 0 <= a < graph.len() implies (#[trigger] graph.status[a])
                is Unscheduled && graph.outcomes[a] is None by {
                assert(scheduler.outcomes@[a] is None);
            }
            lemma_running_weight_idle(graph.status, graph.cpu_weights());
            lemma_running_weight_idle(graph.status, graph.memory_weights());
            lemma_running_weight_idle(graph.status, graph.unit_weights());
            assert(graph.inv());
        }
        Ok(scheduler)
    }
}

impl Scheduler {
    fn has_passed(&self, d: usize) -> (passed: bool)
        requires
            self.wf(),
            d < self@.len(),
        ensures
            passed == self@.passed_at(d as int),
    {
        match self.status[d] {
            CommandRtStatus::Finished { .. } => match &self.outcomes[d] {
                Some(outcome) => outcome.passed(),
                None => false,
            },
            _ => false,
        }
    }

    /// Whether the command at position `i` is scheduled and every command
    /// it depends on has finished and passed.
    pub fn is_ready(&self, i: usize) -> (ready: bool)
        requires
            self.wf(),
        ensures
            ready == self@.is_ready(i as int),
    {
        if i >= self.commands.len() {
            return false;
        }
        match self.status[i] {
            CommandRtStatus::Scheduled { .. } => {},
            _ => {
                return false;
            },
        }
        let ghost graph: GraphView = self@;
        assert(graph.deps[i as int] == self.deps@[i as int]@.map_values(|p: usize| p as int));
        let mut k: usize = 0;
        while k < self.deps[i].len()
            invariant
                self.wf(),
                graph == self@,
                i < graph.len(),
                k <= self.deps@[i as int]@.len(),
                graph.deps[i as int] == self.deps@[i as int]@.map_values(|p: usize| p as int),
                forall|b: int| 0 <= b < k ==> graph.passed_at(#[trigger] graph.deps[i as int][b]),
            decreases self.deps@[i as int]@.len() - k,
        {
            let d: usize = self.deps[i][k];
            assert(graph.deps[i as int][k as int] == d as int);
            if !self.has_passed(d) {
                return false;
            }
            k += 1;
        }
        true
    }

    /// The positions of the ready commands, in ascending order.
    pub fn ready(&self) -> (list: Vec<usize>)
        requires
            self.wf(),
        ensures
            forall|p: int| 0 <= p < list@.len() ==> self@.is_ready(#[trigger] list@[p] as int),
            forall|i: int|
                self@.is_ready(i) ==> exists|p: int| 0 <= p < list@.len() && #[trigger] list@[p] == i,
            forall|p: int, q: int| 0 <= p < q < list@.len() ==> list@[p] < list@[q],
    {
        let mut list: Vec<usize> = Vec::new();
        let n: usize = self.commands.len();
        let mut i: usize = 0;
        while i < n
            invariant
                self.wf(),
                n == self@.len(),
                i <= n,
                forall|p: int| 0 <= p < list@.len() ==> self@.is_ready(#[trigger] list@[p] as int),
                forall|p: int| 0 <= p < list@.len() ==> (#[trigger] list@[p]) < i,
                forall|a: int|
                    0 <= a < i && self@.is_ready(a) ==> exists|p: int|
                        0 <= p < list@.len() && #[trigger] list@[p] == a,
                forall|p: int, q: int| 0 <= p < q < list@.len() ==> list@[p] < list@[q],
            decreases n - i,
        {
            if self.is_ready(i) {
                let ghost before: Seq<usize> = list@;
                list.push(i);
                assert(list@[before.len() as int] == i);
                assert forall|a: int| 0 <= a < i + 1 && self@.is_ready(a) implies exists|p: int|
                    0 <= p < list@.len() && #[trigger] list@[p] == a by {
                    if a < i {
                        let p: int = choose|p: int| 0 <= p < before.len() && #[trigger] before[p] == a;
                        assert(list@[p] == a);
                    }
                }
            }
            i += 1;
        }
        list
    }

    /// The first other command with the digest of command `i` that has
    /// finished with an output.
    fn find_source(&self, i: usize) -> (found: Option<CommandOutput>)
        requires
            self.wf(),
            i < self@.len(),
        ensures
            match found {
                Some(output) => self@.source(i as int) matches Some(j) && self@.outcomes[j]
                    matches Some(outcome) && outcome.output() == Some(output),
                None => self@.source(i as int) is None,
            },
    {
        let ghost graph: GraphView = self@;
        let n: usize = self.commands.len();
        let mut j: usize = 0;
        while j < n
            invariant
                self.wf(),
                graph == self@,
                n == graph.len(),
                i < n,
                j <= n,
                forall|b: int| 0 <= b < j ==> !graph.is_source(i as int, b),
            decreases n - j,
        {
            let output: Option<CommandOutput> = match &self.outcomes[j] {
                Some(outcome) => outcome.output(),
                None => None,
            };
            let is_source: bool = j != i && output.is_some() && self.digests[j].same_as(
                &self.digests[i],
            );
            assert(graph.digests[j as int] == self.digests@[j as int]@);
            assert(graph.digests[i as int] == self.digests@[i as int]@);
            assert(graph.outcomes[j as int] == match self.outcomes@[j as int] {
                Some(outcome) => Some(outcome@),
                None => None,
            });
            assert(is_source == graph.is_source(i as int, j as int));
            if is_source {
                proof {
                    let c: int = choose|c: int|
                        graph.is_source(i as int, c) && forall|b: int|
                            0 <= b < c ==> !graph.is_source(i as int, b);
                    if c < j {
                        assert(!graph.is_source(i as int, c));
                    } else if j < c {
                        assert(!graph.is_source(i as int, j as int));
                    }
                    assert(graph.source(i as int) == Some(j as int));
                }
                return output;
            }
            j += 1;
        }
        None
    }

    fn has_running_twin(&self, i: usize) -> (twin: bool)
        requires
            self.wf(),
            i < self@.len(),
        ensures
            twin == self@.has_running_twin(i as int),
    {
        let ghost graph: GraphView = self@;
        let n: usize = self.commands.len();
        let mut j: usize = 0;
        while j < n
            invariant
                self.wf(),
                graph == self@,
                n == graph.len(),
                i < n,
                j <= n,
                forall|b: int|
                    0 <= b < j ==> !(b != i && (#[trigger] graph.status[b]) is Running
                        && graph.digests[b] == graph.digests[i as int]),
            decreases n - j,
        {
            let running: bool = match self.status[j] {
                CommandRtStatus::Running { .. } => true,
                _ => false,
            };
            assert(graph.digests[j as int] == self.digests@[j as int]@);
            assert(graph.digests[i as int] == self.digests@[i as int]@);
            if j != i && running && self.digests[j].same_as(&self.digests[i]) {
                assert(graph.status[j as int] is Running);
                return true;
            }
            j += 1;
        }
        false
    }

    fn fits(&self, i: usize) -> (fits: bool)
        requires
            self.wf(),
            i < self@.len(),
        ensures
            fits == self@.fits(i as int),
    {
        let runtime = &self.commands[i].runtime;
        assert(self@.commands[i as int] == self.commands@[i as int]@);
        self.used_cpus + runtime.num_cpus as u64 <= self.pool.cpus as u64 && self.used_memory_mb
            + runtime.max_memory_mb as u64 <= self.pool.memory_mb as u64 && self.running
            < self.max_parallel
    }

    /// What would be done with the command at position `i` if it were
    /// offered for dispatch now.
    pub fn decide(&self, i: usize, cached: Option<CommandOutput>) -> (decision: Decision)
        requires
            self.wf(),
        ensures
            decision == self@.decision(i as int, cached),
    {
        if !self.is_ready(i) {
            return Decision::Defer;
        }
        if let Some(output) = cached {
            if output.exit_code == 0 {
                return Decision::CacheHit(output);
            }
        }
        if let Some(output) = self.find_source(i) {
            return Decision::Reuse(output);
        }
        if self.has_running_twin(i) || !self.fits(i) {
            Decision::Defer
        } else {
            Decision::Execute
        }
    }

    /// Offers the command at position `i` for dispatch at time `now`;
    /// `cached` is what its status record held, if it had one.
    pub fn dispatch(&mut self, i: usize, cached: Option<CommandOutput>, now: u64) -> (dispatch:
        Dispatch)
        requires
            old(self).wf(),
        ensures
            final(self).wf(),
            final(self)@ == old(self)@.dispatched(i as int, cached, now),
            match old(self)@.decision(i as int, cached) {
                Decision::Defer => dispatch is Deferred,
                Decision::Execute => dispatch is Execute,
                Decision::Reuse(output) => dispatch matches Dispatch::Resolved(event) && event@ == (
                EventView::Finished {
                    command: old(self)@.commands[i as int].name,
                    trace_id: old(self)@.trace_id,
                    output,
                }),
                Decision::CacheHit(output) => dispatch matches Dispatch::Resolved(event) && event@
                    == (EventView::Finished {
                    command: old(self)@.commands[i as int].name,
                    trace_id: old(self)@.trace_id,
                    output,
                }),
            },
    {
        let ghost before: GraphView = self@;
        let decision: Decision = self.decide(i, cached);
        if let Decision::Defer = decision {
            return Dispatch::Deferred;
        }
        proof {
            lemma_dispatched_keeps_inv(before, i as int, cached, now);
            assert(before.commands[i as int] == self.commands@[i as int]@);
            assert(before.outcomes[i as int] is None);
        }
        match decision {
            Decision::Execute => {
                let next: CommandRtStatus = self.status[i].advance(now).unwrap();
                proof {
                    lemma_running_weight_update(before.status, before.cpu_weights(), i as int, next);
                    lemma_running_weight_update(
                        before.status,
                        before.memory_weights(),
                        i as int,
                        next,
                    );
                    lemma_running_weight_update(before.status, before.unit_weights(), i as int, next);
                }
                self.used_cpus = self.used_cpus + self.commands[i].runtime.num_cpus as u64;
                self.used_memory_mb = self.used_memory_mb + self.commands[i].runtime.max_memory_mb as u64;
                self.running = self.running + 1;
                self.status.set(i, next);
                proof {
                    assert(self@.outcomes =~= before.outcomes.update(i as int, None));
                    assert(self@ == before.with(i as int, next, None));
                }
                Dispatch::Execute
            },
            Decision::Reuse(output) => {
                let event: Event = self.resolve(i, now, Outcome::Reused(output), output);
                Dispatch::Resolved(event)
            },
            Decision::CacheHit(output) => {
                let event: Event = self.resolve(i, now, Outcome::Cached(output), output);
                Dispatch::Resolved(event)
            },
            Decision::Defer => Dispatch::Deferred,
        }
    }

    /// Finishes the scheduled command at position `i` without running it:
    /// it starts and finishes at time `now`.
    fn resolve(&mut self, i: usize, now: u64, outcome: Outcome, output: CommandOutput) -> (event:
        Event)
        requires
            old(self).wf(),
            i < old(self)@.len(),
            old(self)@.status[i as int] is Scheduled,
            outcome@.output() == Some(output),
            old(self)@.with(
                i as int,
                old(self)@.status[i as int].successor(now).unwrap().successor(now).unwrap(),
                Some(outcome@),
            ).inv(),
        ensures
            final(self).wf(),
            final(self)@ == old(self)@.with(
                i as int,
                old(self)@.status[i as int].successor(now).unwrap().successor(now).unwrap(),
                Some(outcome@),
            ),
            event@ == (EventView::Finished {
                command: old(self)@.commands[i as int].name,
                trace_id: old(self)@.trace_id,
                output,
            }),
    {
        let ghost before: GraphView = self@;
        let next: CommandRtStatus = self.status[i].advance(now).unwrap().advance(now).unwrap();
        proof {
            assert(before.commands[i as int] == self.commands@[i as int]@);
            lemma_running_weight_update(before.status, before.cpu_weights(), i as int, next);
            lemma_running_weight_update(before.status, before.memory_weights(), i as int, next);
            lemma_running_weight_update(before.status, before.unit_weights(), i as int, next);
        }
        let event: Event = Event::command_finished(
            self.commands[i].name.clone(),
            self.trace_id.clone(),
            output,
        );
        let ghost recorded: OutcomeView = outcome@;
        self.status.set(i, next);
        self.outcomes.set(i, Some(outcome));
        proof {
            assert(self@.outcomes =~= before.outcomes.update(i as int, Some(recorded)));
            assert(self@ == before.with(i as int, next, Some(recorded)));
        }
        event
    }

    /// Records what an executor reported at time `now` of the command at
    /// position `i`. Says whether the command was running; if it was not,
    /// nothing is recorded.
    pub fn complete(&mut self, i: usize, report: Report, now: u64) -> (recorded: bool)
        requires
            old(self).wf(),
        ensures
            final(self).wf(),
            final(self)@ == old(self)@.completed(i as int, report@, now),
            recorded == (i < old(self)@.len() && old(self)@.status[i as int] is Running),
    {
        let ghost before: GraphView = self@;
        if i >= self.commands.len() {
            return false;
        }
        let next: CommandRtStatus = match self.status[i] {
            CommandRtStatus::Running { .. } => self.status[i].advance(now).unwrap(),
            _ => {
                return false;
            },
        };
        proof {
            lemma_completed_keeps_inv(before, i as int, report@, now);
            assert(before.commands[i as int] == self.commands@[i as int]@);
            lemma_running_weight_update(before.status, before.cpu_weights(), i as int, next);
            lemma_running_weight_update(before.status, before.memory_weights(), i as int, next);
            lemma_running_weight_update(before.status, before.unit_weights(), i as int, next);
        }
        let outcome: Outcome = match report {
            Report::Output(output) => Outcome::Executed(output),
            Report::Failure(reason) => Outcome::Failed(reason),
        };
        let ghost recorded: OutcomeView = outcome@;
        self.used_cpus = self.used_cpus - self.commands[i].runtime.num_cpus as u64;
        self.used_memory_mb = self.used_memory_mb - self.commands[i].runtime.max_memory_mb as u64;
        self.running = self.running - 1;
        self.status.set(i, next);
        self.outcomes.set(i, Some(outcome));
        proof {
            assert(self@.outcomes =~= before.outcomes.update(i as int, Some(recorded)));
            assert(self@ == before.with(i as int, next, Some(recorded)));
        }
        true
    }
}

impl Scheduler {
    /// For each command whether `selection` names it, or the first name in
    /// `selection` that no command has.
    fn select(&self, selection: &Selection) -> (r: Result<Vec<bool>, String>)
        requires
            self.wf(),
        ensures
            match unknown_name(self@.commands, selection@) {
                Some(name) => r matches Err(unknown) && unknown@ == name,
                None => r matches Ok(roots) && roots@ == roots_of(self@.commands, selection@),
            },
    {
        let ghost graph: GraphView = self@;
        let n: usize = self.commands.len();
        let mut roots: Vec<bool> = Vec::new();
        match selection {
            Selection::Type(wanted) => {
                let mut i: usize = 0;
                while i < n
                    invariant
                        graph == self@,
                        n == self.commands@.len(),
                        i <= n,
                        roots@.len() == i,
                        forall|a: int|
                            0 <= a < i ==> #[trigger] roots@[a] == (self.commands@[a].target_type
                                == *wanted),
                    decreases n - i,
                {
                    roots.push(self.commands[i].target_type == *wanted);
                    i += 1;
                }
                assert(roots@ =~= roots_of(graph.commands, selection@));
                Ok(roots)
            },
            Selection::One(name) => {
                match find_command(&self.commands, name) {
                    None => Err(name.clone()),
                    Some(j) => {
                        assert(graph.commands[j as int] == self.commands@[j as int]@);
                        assert(has_name(graph.commands, name@));
                        let mut i: usize = 0;
                        while i < n
                            invariant
                                n == self.commands@.len(),
                                i <= n,
                                roots@.len() == i,
                                forall|a: int| 0 <= a < i ==> #[trigger] roots@[a] == (a == j),
                            decreases n - i,
                        {
                            roots.push(i == j);
                            i += 1;
                        }
                        proof {
                            let wanted: Seq<bool> = roots_of(graph.commands, selection@);
                            assert forall|a: int| 0 <= a < n implies roots@[a] == wanted[a] by {
                                if a != j {
                                    assert(graph.commands[a].name != graph.commands[j as int].name);
                                }
                            }
                            assert(roots@ =~= wanted);
                        }
                        Ok(roots)
                    },
                }
            },
            Selection::Many(names) => {
                match resolve_names(&self.commands, names) {
                    Err(k) => {
                        assert(names.deep_view()[k as int] == names@[k as int]@);
                        Err(names[k].clone())
                    },
                    Ok(found) => {
                        let mut i: usize = 0;
                        while i < n
                            invariant
                                n == self.commands@.len(),
                                i <= n,
                                roots@.len() == i,
                                forall|a: int| 0 <= a < i ==> !#[trigger] roots@[a],
                            decreases n - i,
                        {
                            roots.push(false);
                            i += 1;
                        }
                        let mut b: usize = 0;
                        while b < found.len()
                            invariant
                                n == self.commands@.len(),
                                b <= found@.len(),
                                roots@.len() == n,
                                forall|c: int| 0 <= c < found@.len() ==> (#[trigger] found@[c]) < n,
                                forall|a: int|
                                    0 <= a < n ==> #[trigger] roots@[a] == exists|c: int|
                                        0 <= c < b && #[trigger] found@[c] == a,
                            decreases found@.len() - b,
                        {
                            let ghost before: Seq<bool> = roots@;
                            let at: usize = found[b];
                            roots.set(at, true);
                            proof {
                                assert forall|a: int| 0 <= a < n implies #[trigger] roots@[a]
                                    == exists|c: int| 0 <= c < b + 1 && #[trigger] found@[c] == a by {
                                    if a == at {
                                        assert(found@[b as int] == a);
                                    } else if before[a] {
                                        let c: int = choose|c: int|
                                            0 <= c < b && #[trigger] found@[c] == a;
                                        assert(found@[c] == a);
                                    }
                                }
                            }
                            b += 1;
                        }
                        proof {
                            let wanted: Seq<bool> = roots_of(graph.commands, selection@);
                            let listed: Seq<Seq<char>> = names.deep_view();
                            assert forall|a: int| 0 <= a < n implies roots@[a] == wanted[a] by {
                                assert(graph.commands[a] == self.commands@[a]@);
                                if roots@[a] {
                                    let c: int = choose|c: int|
                                        0 <= c < found@.len() && #[trigger] found@[c] == a;
                                    assert(listed[c] == names@[c]@);
                                    assert(listed.contains(graph.commands[a].name));
                                }
                                if listed.contains(graph.commands[a].name) {
                                    let c: int = choose|c: int|
                                        0 <= c < listed.len() && listed[c] == graph.commands[a].name;
                                    let at: int = found@[c] as int;
                                    assert(listed[c] == names@[c]@);
                                    assert(graph.commands[at] == self.commands@[at]@);
                                    if at != a {
                                        assert(graph.commands[at].name != graph.commands[a].name);
                                    }
                                    assert(found@[c] == a);
                                }
                            }
                            assert(roots@ =~= wanted);
                        }
                        Ok(roots)
                    },
                }
            },
        }
    }

    /// For each command whether it belongs to the run of `roots`.
    fn close_over_dependencies(&self, roots: &Vec<bool>) -> (marks: Vec<bool>)
        requires
            self.wf(),
            roots@.len() == self@.len(),
        ensures
            marks@.len() == self@.len(),
            forall|i: int| 0 <= i < marks@.len() ==> #[trigger] marks@[i] == self@.in_scope(roots@, i),
    {
        let ghost graph: GraphView = self@;
        let n: usize = self.commands.len();
        let mut marks: Vec<bool> = roots.clone();
        assert(marks@ =~= roots@);
        let mut changed: bool = true;
        proof {
            lemma_count_true_bound(marks@);
            assert forall|i: int| 0 <= i < n && marks@[i] implies graph.in_scope(roots@, i) by {
                assert(graph.reaches(roots@, i, 0));
            }
        }
        while changed
            invariant
                self.wf(),
                graph == self@,
                n == graph.len(),
                roots@.len() == n,
                marks@.len() == n,
                forall|i: int| 0 <= i < n && roots@[i] ==> #[trigger] marks@[i],
                forall|i: int| 0 <= i < n && #[trigger] marks@[i] ==> graph.in_scope(roots@, i),
                !changed ==> forall|a: int, k: int|
                    0 <= a < n && 0 <= k < graph.deps[a].len() && marks@[a] ==> marks@[
                    #[trigger] graph.deps[a][k]],
                count_true(marks@) <= n,
            decreases n - count_true(marks@) + (if changed { 1int } else { 0int }),
        {
            changed = false;
            let ghost start: Seq<bool> = marks@;
            let mut j: usize = 0;
            while j < n
                invariant
                    self.wf(),
                    graph == self@,
                    n == graph.len(),
                    roots@.len() == n,
                    marks@.len() == n,
                    start.len() == n,
                    j <= n,
                    forall|i: int| 0 <= i < n && roots@[i] ==> #[trigger] marks@[i],
                    forall|i: int| 0 <= i < n && #[trigger] marks@[i] ==> graph.in_scope(roots@, i),
                    count_true(marks@) <= n,
                    changed ==> count_true(marks@) > count_true(start),
                    !changed ==> marks@ == start,
                    !changed ==> forall|a: int, k: int|
                        0 <= a < j && 0 <= k < graph.deps[a].len() && marks@[a] ==> marks@[
                        #[trigger] graph.deps[a][k]],
                decreases n - j,
            {
                if marks[j] {
                    assert(graph.deps[j as int] == self.deps@[j as int]@.map_values(
                        |p: usize| p as int,
                    ));
                    let mut k: usize = 0;
                    while k < self.deps[j].len()
                        invariant
                            self.wf(),
                            graph == self@,
                            n == graph.len(),
                            roots@.len() == n,
                            marks@.len() == n,
                            start.len() == n,
                            j < n,
                            k <= self.deps@[j as int]@.len(),
                            graph.deps[j as int] == self.deps@[j as int]@.map_values(
                                |p: usize| p as int,
                            ),
                            marks@[j as int],
                            forall|i: int| 0 <= i < n && roots@[i] ==> #[trigger] marks@[i],
                            forall|i: int|
                                0 <= i < n && #[trigger] marks@[i] ==> graph.in_scope(roots@, i),
                            count_true(marks@) <= n,
                            changed ==> count_true(marks@) > count_true(start),
                            !changed ==> marks@ == start,
                            !changed ==> forall|a: int, b: int|
                                0 <= a < j && 0 <= b < graph.deps[a].len() && marks@[a] ==> marks@[
                                #[trigger] graph.deps[a][b]],
                            !changed ==> forall|b: int|
                                0 <= b < k ==> marks@[#[trigger] graph.deps[j as int][b]],
                        decreases self.deps@[j as int]@.len() - k,
                    {
                        let d: usize = self.deps[j][k];
                        assert(graph.deps[j as int][k as int] == d as int);
                        assert(d < n);
                        if !marks[d] {
                            proof {
                                lemma_count_true_set(marks@, d as int);
                                lemma_count_true_bound(marks@.update(d as int, true));
                                let steps: nat = choose|steps: nat|
                                    graph.reaches(roots@, j as int, steps);
                                assert(graph.in_scope(roots@, j as int));
                                assert(graph.reaches(roots@, j as int, steps));
                                assert(graph.reaches(roots@, d as int, steps + 1));
                                assert(graph.in_scope(roots@, d as int));
                            }
                            marks.set(d, true);
                            changed = true;
                        }
                        k += 1;
                    }
                }
                j += 1;
            }
        }
        proof {
            assert forall|i: int| 0 <= i < marks@.len() implies #[trigger] marks@[i]
                == graph.in_scope(roots@, i) by {
                if graph.in_scope(roots@, i) {
                    let steps: nat = choose|steps: nat| graph.reaches(roots@, i, steps);
                    lemma_closed_marks_hold_scope(graph, roots@, marks@, i, steps);
                }
            }
        }
        marks
    }

    /// Starts the run `trace_id` of the commands that `selection` names and
    /// of all they depend on: these are scheduled at time `now`, and what an
    /// earlier run left is forgotten. Nothing starts while a command runs,
    /// nor when `selection` names a command that the graph does not hold.
    pub fn start_run(&mut self, selection: &Selection, trace_id: &str, now: u64) -> (r: Result<
        (),
        OtlErr,
    >)
        requires
            old(self).wf(),
        ensures
            final(self).wf(),
            if old(self)@.running_count() > 0 {
                &&& r matches Err(OtlErr::CommandSettingFailed { reason })
                &&& reason@ == "a run is in progress"@
                &&& final(self)@ == old(self)@
            } else {
                match unknown_name(old(self)@.commands, selection@) {
                    Some(name) => {
                        &&& r matches Err(OtlErr::MissingCommandDependency { missing_dep_name })
                        &&& missing_dep_name@ == name
                        &&& final(self)@ == old(self)@
                    },
                    None => {
                        &&& r is Ok
                        &&& final(self)@ == old(self)@.scheduled(
                            roots_of(old(self)@.commands, selection@),
                            trace_id@,
                            now,
                        )
                    },
                }
            },
    {
        let ghost before: GraphView = self@;
        if self.running != 0 {
            return Err(
                OtlErr::CommandSettingFailed { reason: String::from_str("a run is in progress") },
            );
        }
        let roots: Vec<bool> = match self.select(selection) {
            Ok(roots) => roots,
            Err(name) => {
                return Err(OtlErr::MissingCommandDependency { missing_dep_name: name });
            },
        };
        let marks: Vec<bool> = self.close_over_dependencies(&roots);
        let n: usize = self.commands.len();
        let mut status: Vec<CommandRtStatus> = Vec::new();
        let mut outcomes: Vec<Option<Outcome>> = Vec::new();
        let mut i: usize = 0;
        while i < n
            invariant
                i <= n,
                marks@.len() == n,
                status@.len() == i,
                outcomes@.len() == i,
                forall|a: int|
                    0 <= a < i ==> #[trigger] status@[a] == if marks@[a] {
                        CommandRtStatus::Scheduled { scheduled_time: now }
                    } else {
                        CommandRtStatus::Unscheduled
                    },
                forall|a: int| 0 <= a < i ==> (#[trigger] outcomes@[a]) is None,
            decreases n - i,
        {
            status.push(
                if marks[i] {
                    CommandRtStatus::Scheduled { scheduled_time: now }
                } else {
                    CommandRtStatus::Unscheduled
                },
            );
            outcomes.push(None);
            i += 1;
        }
        self.status = status;
        self.outcomes = outcomes;
        self.trace_id = String::from_str(trace_id);
        self.used_cpus = 0;
        self.used_memory_mb = 0;
        self.running = 0;
        proof {
            let after: GraphView = before.scheduled(roots@, trace_id@, now);
            lemma_scheduled_keeps_inv(before, roots@, trace_id@, now);
            assert(self@.status =~= after.status);
            assert(self@.outcomes =~= after.outcomes);
            assert(self@ == after);
            lemma_running_weight_idle(after.status, after.cpu_weights());
            lemma_running_weight_idle(after.status, after.memory_weights());
            lemma_running_weight_idle(after.status, after.unit_weights());
        }
        Ok(())
    }
}

/// Marks that hold the roots, and with each command all it depends on,
/// hold every command of the run.
proof fn lemma_closed_marks_hold_scope(
    graph: GraphView,
    roots: Seq<bool>,
    marks: Seq<bool>,
    i: int,
    steps: nat,
)
    requires
        graph.well_defined(),
        roots.len() == graph.len(),
        marks.len() == graph.len(),
        forall|a: int| 0 <= a < graph.len() && roots[a] ==> #[trigger] marks[a],
        forall|a: int, k: int|
            0 <= a < graph.len() && 0 <= k < graph.deps[a].len() && marks[a] ==> marks[
            #[trigger] graph.deps[a][k]],
        graph.reaches(roots, i, steps),
    ensures
        0 <= i < graph.len(),
        marks[i],
    decreases steps,
{
    if 0 <= i < roots.len() && roots[i] {
    } else {
        let (j, k): (int, int) = choose|j: int, k: int|
            0 <= j < graph.len() && 0 <= k < graph.deps[j].len() && #[trigger] graph.deps[j][k] == i
                && graph.reaches(roots, j, (steps - 1) as nat);
        lemma_closed_marks_hold_scope(graph, roots, marks, j, (steps - 1) as nat);
        assert(marks[graph.deps[j][k]]);
    }
}

/// Where no command is unsafe or redeclared, every name names a file and
/// no two commands share one.
proof fn lemma_names_in_order(views: Seq<CommandView>)
    requires
        first_where(views.len() as int, is_unsafe(views)) is None,
        first_where(views.len() as int, is_redeclared(views)) is None,
    ensures
        forall|a: int| 0 <= a < views.len() ==> is_file_name((#[trigger] views[a]).name),
        forall|a: int, b: int|
            0 <= a < views.len() && 0 <= b < views.len() && a != b ==> (#[trigger] views[a]).name
                != (#[trigger] views[b]).name,
{
    assert forall|a: int| 0 <= a < views.len() implies is_file_name((#[trigger] views[a]).name) by {
        assert(!is_unsafe(views)(a));
    }
    assert forall|a: int, b: int|
        0 <= a < views.len() && 0 <= b < views.len() && a != b implies (#[trigger] views[a]).name
        != (#[trigger] views[b]).name by {
        if a < b {
            assert(!is_redeclared(views)(b));
            assert(views.take(b)[a] == views[a]);
        } else {
            assert(!is_redeclared(views)(a));
            assert(views.take(a)[b] == views[b]);
        }
    }
}

/// The first command whose name names no file.
fn find_unsafe(commands: &Vec<Command>) -> (r: Option<usize>)
    ensures
        match r {
            Some(i) => i < commands@.len() && first_where(
                commands@.len() as int,
                is_unsafe(command_views(commands@)),
            ) == Some(i as int),
            None => first_where(commands@.len() as int, is_unsafe(command_views(commands@)))
                is None,
        },
{
    let ghost views: Seq<CommandView> = command_views(commands@);
    let n: usize = commands.len();
    let mut i: usize = 0;
    while i < n
        invariant
            i <= n,
            n == commands@.len(),
            views == command_views(commands@),
            forall|k: int| 0 <= k < i ==> !#[trigger] is_unsafe(views)(k),
        decreases n - i,
    {
        if !names_a_file(commands[i].name.as_str()) {
            proof {
                assert(is_unsafe(views)(i as int));
                lemma_first_where(n as int, is_unsafe(views), i as int);
            }
            return Some(i);
        }
        assert(!is_unsafe(views)(i as int));
        i += 1;
    }
    None
}

/// The first command without a name.
fn find_unnamed(commands: &Vec<Command>) -> (r: Option<usize>)
    ensures
        match r {
            Some(i) => first_where(
                commands@.len() as int,
                is_unnamed(command_views(commands@)),
            ) == Some(i as int),
            None => first_where(commands@.len() as int, is_unnamed(command_views(commands@)))
                is None,
        },
{
    let ghost views: Seq<CommandView> = command_views(commands@);
    let n: usize = commands.len();
    let mut i: usize = 0;
    while i < n
        invariant
            i <= n,
            n == commands@.len(),
            views == command_views(commands@),
            forall|k: int| 0 <= k < i ==> !#[trigger] is_unnamed(views)(k),
        decreases n - i,
    {
        if commands[i].name.as_str().is_empty() {
            proof {
                assert(is_unnamed(views)(i as int));
                lemma_first_where(n as int, is_unnamed(views), i as int);
            }
            return Some(i);
        }
        assert(!is_unnamed(views)(i as int));
        i += 1;
    }
    None
}

/// The first command that has the name of an earlier one.
fn find_redeclared(commands: &Vec<Command>) -> (r: Option<usize>)
    ensures
        match r {
            Some(i) => i < commands@.len() && first_where(
                commands@.len() as int,
                is_redeclared(command_views(commands@)),
            ) == Some(i as int),
            None => first_where(commands@.len() as int, is_redeclared(command_views(commands@)))
                is None,
        },
{
    let ghost views: Seq<CommandView> = command_views(commands@);
    let n: usize = commands.len();
    let mut i: usize = 0;
    while i < n
        invariant
            i <= n,
            n == commands@.len(),
            views == command_views(commands@),
            forall|k: int| 0 <= k < i ==> !#[trigger] is_redeclared(views)(k),
        decreases n - i,
    {
        let mut j: usize = 0;
        let mut clash: bool = false;
        while j < i && !clash
            invariant
                j <= i < n,
                n == commands@.len(),
                views == command_views(commands@),
                !clash ==> forall|k: int|
                    0 <= k < j ==> (#[trigger] views[k]).name != views[i as int].name,
                clash ==> j < i && views[j as int].name == views[i as int].name,
            decreases i - j + if clash { 0int } else { 1int },
        {
            if commands[j].name == commands[i].name {
                clash = true;
            } else {
                j += 1;
            }
        }
        if clash {
            proof {
                assert(views.take(i as int)[j as int].name == views[i as int].name);
                assert(is_redeclared(views)(i as int));
                lemma_first_where(n as int, is_redeclared(views), i as int);
            }
            return Some(i);
        }
        proof {
            assert forall|k: int| 0 <= k < views.take(i as int).len() implies (
            #[trigger] views.take(i as int)[k]).name != views[i as int].name by {
                assert(views.take(i as int)[k] == views[k]);
            }
            assert(!is_redeclared(views)(i as int));
        }
        i += 1;
    }
    None
}

/// The positions of the commands that `names` name, or the first name that
/// names none.
fn resolve_names(commands: &Vec<Command>, names: &Vec<String>) -> (r: Result<Vec<usize>, usize>)
    ensures
        match r {
            Ok(found) => {
                &&& first_where(
                    names@.len() as int,
                    is_missing(command_views(commands@), names.deep_view()),
                ) is None
                &&& found@.len() == names@.len()
                &&& forall|b: int|
                    0 <= b < found@.len() ==> (#[trigger] found@[b]) < commands@.len()
                        && commands@[found@[b] as int]@.name == names@[b]@
            },
            Err(k) => k < names@.len() && first_where(
                names@.len() as int,
                is_missing(command_views(commands@), names.deep_view()),
            ) == Some(k as int),
        },
{
    let ghost views: Seq<CommandView> = command_views(commands@);
    let ghost wanted: Seq<Seq<char>> = names.deep_view();
    let mut found: Vec<usize> = Vec::new();
    let mut k: usize = 0;
    while k < names.len()
        invariant
            k <= names@.len(),
            views == command_views(commands@),
            wanted == names.deep_view(),
            found@.len() == k,
            forall|b: int| 0 <= b < k ==> !#[trigger] is_missing(views, wanted)(b),
            forall|b: int|
                0 <= b < k ==> (#[trigger] found@[b]) < commands@.len()
                    && commands@[found@[b] as int]@.name == names@[b]@,
        decreases names@.len() - k,
    {
        assert(wanted[k as int] == names@[k as int]@);
        match find_command(commands, &names[k]) {
            Some(j) => {
                assert(views[j as int] == commands@[j as int]@);
                assert(has_name(views, wanted[k as int]));
                found.push(j);
            },
            None => {
                proof {
                    assert(is_missing(views, wanted)(k as int));
                    lemma_first_where(wanted.len() as int, is_missing(views, wanted), k as int);
                }
                return Err(k);
            },
        }
        k += 1;
    }
    Ok(found)
}

/// For each command the positions of the commands it depends on, or the
/// first dependency that names no command.
fn resolve_dependencies(commands: &Vec<Command>) -> (r: Result<Vec<Vec<usize>>, (usize, usize)>)
    ensures
        match r {
            Ok(deps) => {
                &&& first_where(
                    commands@.len() as int,
                    lacks_dependency(command_views(commands@)),
                ) is None
                &&& deps@.len() == commands@.len()
                &&& forall|a: int|
                    0 <= a < deps@.len() ==> (#[trigger] deps@[a])@.len()
                        == commands@[a]@.dependencies.len()
                &&& forall|a: int, k: int|
                    0 <= a < deps@.len() && 0 <= k < deps@[a]@.len() ==> (#[trigger] deps@[a]@[k])
                        < commands@.len() && commands@[deps@[a]@[k] as int]@.name
                        == commands@[a]@.dependencies[k]
            },
            Err((i, k)) => {
                &&& i < commands@.len()
                &&& k < commands@[i as int].dependencies@.len()
                &&& first_where(commands@.len() as int, lacks_dependency(command_views(commands@)))
                    == Some(i as int)
                &&& first_where(
                    commands@[i as int]@.dependencies.len() as int,
                    is_missing(command_views(commands@), commands@[i as int]@.dependencies),
                ) == Some(k as int)
            },
        },
{
    let ghost views: Seq<CommandView> = command_views(commands@);
    let n: usize = commands.len();
    let mut deps: Vec<Vec<usize>> = Vec::new();
    let mut i: usize = 0;
    while i < n
        invariant
            i <= n,
            n == commands@.len(),
            views == command_views(commands@),
            deps@.len() == i,
            forall|a: int| 0 <= a < i ==> !#[trigger] lacks_dependency(views)(a),
            forall|a: int|
                0 <= a < i ==> (#[trigger] deps@[a])@.len() == commands@[a]@.dependencies.len(),
            forall|a: int, k: int|
                0 <= a < i && 0 <= k < deps@[a]@.len() ==> (#[trigger] deps@[a]@[k]) < n
                    && commands@[deps@[a]@[k] as int]@.name == commands@[a]@.dependencies[k],
        decreases n - i,
    {
        assert(views[i as int] == commands@[i as int]@);
        assert(views[i as int].dependencies == commands@[i as int].dependencies.deep_view());
        match resolve_names(commands, &commands[i].dependencies) {
            Ok(found) => {
                proof {
                    assert(!lacks_dependency(views)(i as int));
                    assert forall|k: int| 0 <= k < found@.len() implies (#[trigger] found@[k]) < n
                        && commands@[found@[k] as int]@.name == commands@[i as int]@.dependencies[k] by {
                        assert(commands@[i as int]@.dependencies[k]
                            == commands@[i as int].dependencies@[k]@);
                    }
                }
                deps.push(found);
            },
            Err(k) => {
                proof {
                    assert(lacks_dependency(views)(i as int));
                    lemma_first_where(n as int, lacks_dependency(views), i as int);
                }
                return Err((i, k));
            },
        }
        i += 1;
    }
    Ok(deps)
}

/// The position of the command named `name` among `commands`.
fn find_command(commands: &Vec<Command>, name: &String) -> (found: Option<usize>)
    ensures
        match found {
            Some(j) => j < commands@.len() && commands@[j as int]@.name == name@,
            None => !has_name(command_views(commands@), name@),
        },
{
    let mut j: usize = 0;
    while j < commands.len()
        invariant
            j <= commands@.len(),
            forall|k: int| 0 <= k < j ==> (#[trigger] commands@[k])@.name != name@,
        decreases commands@.len() - j,
    {
        if commands[j].name == *name {
            return Some(j);
        }
        j += 1;
    }
    proof {
        let views: Seq<CommandView> = command_views(commands@);
        assert forall|k: int| 0 <= k < views.len() implies (#[trigger] views[k]).name != name@ by {
            assert(views[k] == commands@[k]@);
        }
    }
    None
}

} // verus!
