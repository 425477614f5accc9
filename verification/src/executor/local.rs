//! The local executor: a command runs as a process on this machine.
//!
//! The process itself is the caller's business. A `LocalRun` is told what
//! the process did (it was started, it wrote a line, it exited, its output
//! ran dry) and answers with what is to be published and stored.

use crate::error::OtlErr;
use crate::event::{Event, EventView};
use crate::executor::{is_execution_trace, is_running_trace};
use crate::output::{status_record, CommandOutput, EXIT_CODE_UNAVAILABLE};
use vstd::prelude::*;
use vstd::string::*;

verus! {

/// Builds a `LocalExecutor`.
#[derive(Clone, Copy, Debug, PartialEq, Eq)]
pub struct LocalExecutorBuilder {
    threads: usize,
}

/// Runs commands as processes, at most `threads` of them at a time.
#[derive(Clone, Copy, Debug, PartialEq, Eq)]
pub struct LocalExecutor {
    threads: usize,
}

impl LocalExecutorBuilder {
    pub closed spec fn spec_threads(&self) -> usize {
        self.threads
    }

    /// A builder for an executor that runs four commands at a time.
    pub fn new() -> (builder: Self)
        ensures
            builder.spec_threads() == 4,
    {
        Self { threads: 4 }
    }

    /// Sets how many commands the executor runs at a time.
    pub fn threads(self, threads: usize) -> (builder: Self)
        ensures
            builder.spec_threads() == threads,
    {
        let mut builder = self;
        builder.threads = threads;
        builder
    }

    pub fn build(self) -> (r: Result<LocalExecutor, OtlErr>)
        ensures
            r matches Ok(executor) && executor.spec_max_parallel() == self.spec_threads(),
    {
        Ok(LocalExecutor { threads: self.threads })
    }
}

impl LocalExecutor {
    pub closed spec fn spec_max_parallel(&self) -> usize {
        self.threads
    }

    /// How many commands this executor runs at a time.
    #[verifier::when_used_as_spec(spec_max_parallel)]
    pub fn max_parallel(&self) -> (threads: usize)
        ensures
            threads == self.spec_max_parallel(),
    {
        self.threads
    }

    /// Prepares one execution of the command `command` in the run
    /// `trace_id`.
    pub fn begin(&self, command: &str, trace_id: &str) -> (run: LocalRun)
        ensures
            run.wf(),
            run.phase() is Prepared,
            run.command() == command@,
            run.trace_id() == trace_id@,
            run.emitted() == Seq::<EventView>::empty(),
    {
        LocalRun::new(command, trace_id)
    }
}

/// How far an execution has come.
#[derive(Clone, Copy, Debug, PartialEq, Eq, Structural)]
pub enum RunPhase {
    /// Nothing has been published yet.
    Prepared,
    /// The start has been published; the process runs.
    Streaming,
    /// The process has exited; output it left behind may still arrive.
    Exited,
    /// The end has been published.
    Done,
}

/// What is to be done with a line of output: `event` is published, and
/// `stdout_text` is added to the file of standard output.
#[derive(Debug, PartialEq, Eq)]
pub struct LineAction {
    pub event: Event,
    pub stdout_text: String,
}

/// What is to be done at the end of an execution: `status_record` is stored
/// as the status file, and `event` is published.
#[derive(Debug, PartialEq, Eq)]
pub struct Completion {
    pub output: CommandOutput,
    pub status_record: Vec<u8>,
    pub event: Event,
}

/// One execution of one command.
pub struct LocalRun {
    command: String,
    trace_id: String,
    phase: RunPhase,
    output: Option<CommandOutput>,
    emitted: Ghost<Seq<EventView>>,
}

impl LocalRun {
    /// The command that runs.
    pub closed spec fn command(&self) -> Seq<char> {
        self.command@
    }

    /// The run that the execution belongs to.
    pub closed spec fn trace_id(&self) -> Seq<char> {
        self.trace_id@
    }

    pub closed spec fn phase(&self) -> RunPhase {
        self.phase
    }

    /// What the process ended with, once it has exited.
    pub closed spec fn output(&self) -> Option<CommandOutput> {
        self.output
    }

    /// The events handed out for publishing so far, in order.
    pub closed spec fn emitted(&self) -> Seq<EventView> {
        self.emitted@
    }

    /// The events published so far are in the order owed for the phase.
    pub closed spec fn wf(&self) -> bool {
        match self.phase {
            RunPhase::Prepared => self.emitted@.len() == 0 && self.output is None,
            RunPhase::Streaming => self.output is None && is_running_trace(
                self.emitted@,
                self.command@,
                self.trace_id@,
            ),
            RunPhase::Exited => self.output is Some && is_running_trace(
                self.emitted@,
                self.command@,
                self.trace_id@,
            ),
            RunPhase::Done => self.output is Some && is_execution_trace(
                self.emitted@,
                self.command@,
                self.trace_id@,
                self.output.unwrap(),
            ),
        }
    }

    pub fn new(command: &str, trace_id: &str) -> (run: LocalRun)
        ensures
            run.wf(),
            run.phase() is Prepared,
            run.command() == command@,
            run.trace_id() == trace_id@,
            run.emitted() == Seq::<EventView>::empty(),
            run.output() is None,
    {
        LocalRun {
            command: String::from_str(command),
            trace_id: String::from_str(trace_id),
            phase: RunPhase::Prepared,
            output: None,
            emitted: Ghost(Seq::empty()),
        }
    }

    #[verifier::when_used_as_spec(phase)]
    pub fn current_phase(&self) -> (phase: RunPhase)
        ensures
            phase == self.phase(),
    {
        self.phase
    }

    /// The process is about to be started: the start is published, once.
    pub fn start(&mut self) -> (event: Option<Event>)
        requires
            old(self).wf(),
        ensures
            final(self).wf(),
            final(self).command() == old(self).command(),
            final(self).trace_id() == old(self).trace_id(),
            final(self).output() == old(self).output(),
            match event {
                Some(e) => {
                    &&& old(self).phase() is Prepared
                    &&& final(self).phase() is Streaming
                    &&& e@ == (EventView::Started {
                        command: old(self).command(),
                        trace_id: old(self).trace_id(),
                    })
                    &&& final(self).emitted() == old(self).emitted().push(e@)
                },
                None => {
                    &&& !(old(self).phase() is Prepared)
                    &&& final(self).phase() == old(self).phase()
                    &&& final(self).emitted() == old(self).emitted()
                },
            },
    {
        match self.phase {
            RunPhase::Prepared => {
                let event: Event = Event::command_started(
                    self.command.clone(),
                    self.trace_id.clone(),
                );
                self.phase = RunPhase::Streaming;
                self.emitted = Ghost(self.emitted@.push(event@));
                Some(event)
            },
            _ => None,
        }
    }

    /// The process wrote `line`: it is published and kept, whether the
    /// process still runs or has exited and left the line behind.
    pub fn on_line(&mut self, line: String) -> (action: Option<LineAction>)
        requires
            old(self).wf(),
        ensures
            final(self).wf(),
            final(self).command() == old(self).command(),
            final(self).trace_id() == old(self).trace_id(),
            final(self).output() == old(self).output(),
            final(self).phase() == old(self).phase(),
            match action {
                Some(a) => {
                    &&& old(self).phase() is Streaming || old(self).phase() is Exited
                    &&& a.event@ == (EventView::Stdout {
                        command: old(self).command(),
                        trace_id: old(self).trace_id(),
                        line: line@,
                    })
                    &&& a.stdout_text@ == line@ + "\n"@
                    &&& final(self).emitted() == old(self).emitted().push(a.event@)
                },
                None => {
                    &&& old(self).phase() is Prepared || old(self).phase() is Done
                    &&& final(self).emitted() == old(self).emitted()
                },
            },
    {
        match self.phase {
            RunPhase::Streaming | RunPhase::Exited => {
                let stdout_text: String = line.clone().concat("\n");
                let event: Event = Event::command_stdout(
                    self.command.clone(),
                    self.trace_id.clone(),
                    line,
                );
                self.emitted = Ghost(self.emitted@.push(event@));
                Some(LineAction { event, stdout_text })
            },
            _ => None,
        }
    }

    /// The process exited with `code`, or without one. Its output is the
    /// exit code, or the sentinel where there is none, as for a process
    /// that was ended by a signal or at its timeout; a code other than
    /// zero is an output like any other, not a failure of the executor.
    pub fn on_exit(&mut self, code: Option<i32>) -> (output: Option<CommandOutput>)
        requires
            old(self).wf(),
        ensures
            final(self).wf(),
            final(self).command() == old(self).command(),
            final(self).trace_id() == old(self).trace_id(),
            final(self).emitted() == old(self).emitted(),
            match output {
                Some(o) => {
                    &&& old(self).phase() is Streaming
                    &&& final(self).phase() is Exited
                    &&& o.exit_code == match code {
                        Some(c) => c,
                        None => EXIT_CODE_UNAVAILABLE,
                    }
                    &&& final(self).output() == Some(o)
                },
                None => {
                    &&& !(old(self).phase() is Streaming)
                    &&& final(self).phase() == old(self).phase()
                    &&& final(self).output() == old(self).output()
                },
            },
    {
        match self.phase {
            RunPhase::Streaming => {
                let output: CommandOutput = CommandOutput::from_exit_status(code);
                self.phase = RunPhase::Exited;
                self.output = Some(output);
                Some(output)
            },
            _ => None,
        }
    }

    /// The process ran into its timeout and was ended: it is taken to have
    /// exited without a code, so that its output is the sentinel, which
    /// does not pass.
    pub fn on_timeout(&mut self) -> (output: Option<CommandOutput>)
        requires
            old(self).wf(),
        ensures
            final(self).wf(),
            final(self).command() == old(self).command(),
            final(self).trace_id() == old(self).trace_id(),
            final(self).emitted() == old(self).emitted(),
            match output {
                Some(o) => {
                    &&& old(self).phase() is Streaming
                    &&& final(self).phase() is Exited
                    &&& o.exit_code == EXIT_CODE_UNAVAILABLE
                    &&& !o.passed()
                    &&& final(self).output() == Some(o)
                },
                None => {
                    &&& !(old(self).phase() is Streaming)
                    &&& final(self).phase() == old(self).phase()
                    &&& final(self).output() == old(self).output()
                },
            },
    {
        self.on_exit(None)
    }

    /// The output of the exited process has run dry: the status record is
    /// to be stored and the end published, once.
    pub fn finish(&mut self) -> (completion: Option<Completion>)
        requires
            old(self).wf(),
        ensures
            final(self).wf(),
            final(self).command() == old(self).command(),
            final(self).trace_id() == old(self).trace_id(),
            final(self).output() == old(self).output(),
            match completion {
                Some(c) => {
                    &&& old(self).phase() is Exited
                    &&& final(self).phase() is Done
                    &&& old(self).output() == Some(c.output)
                    &&& c.status_record@ == status_record(c.output.exit_code as int)
                    &&& c.event@ == (EventView::Finished {
                        command: old(self).command(),
                        trace_id: old(self).trace_id(),
                        output: c.output,
                    })
                    &&& final(self).emitted() == old(self).emitted().push(c.event@)
                    &&& is_execution_trace(
                        final(self).emitted(),
                        final(self).command(),
                        final(self).trace_id(),
                        c.output,
                    )
                },
                None => {
                    &&& !(old(self).phase() is Exited)
                    &&& final(self).phase() == old(self).phase()
                    &&& final(self).emitted() == old(self).emitted()
                },
            },
    {
        match (self.phase, self.output) {
            (RunPhase::Exited, Some(output)) => {
                let event: Event = Event::command_finished(
                    self.command.clone(),
                    self.trace_id.clone(),
                    output,
                );
                let status_record: Vec<u8> = output.to_status_bytes();
                proof {
                    let after: Seq<EventView> = self.emitted@.push(event@);
                    assert(after.drop_last() =~= self.emitted@);
                }
                self.phase = RunPhase::Done;
                self.emitted = Ghost(self.emitted@.push(event@));
                Some(Completion { output, status_record, event })
            },
            _ => None,
        }
    }

    /// The failure of the executor itself: the working directory could not
    /// be prepared, the script not written or the process not started.
    pub fn failure(&self, reason: &str) -> (error: OtlErr)
        ensures
            error matches OtlErr::ExecutorFailed(text) && text@ == reason@,
    {
        OtlErr::ExecutorFailed(String::from_str(reason))
    }
}

/// Whatever a process does, the events of its execution come in order: the
/// start is first, every line of output follows it, and once the execution
/// is done the end is last and nothing comes after it.
pub proof fn lemma_run_events_ordered(run: LocalRun)
    requires
        run.wf(),
    ensures
        run.phase() is Prepared ==> run.emitted().len() == 0,
        run.phase() is Streaming || run.phase() is Exited ==> is_running_trace(
            run.emitted(),
            run.command(),
            run.trace_id(),
        ),
        run.phase() is Done ==> run.output() is Some && is_execution_trace(
            run.emitted(),
            run.command(),
            run.trace_id(),
            run.output().unwrap(),
        ),
{
}

} // verus!
