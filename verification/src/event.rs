//! Events: what subscribers are told about the life of a command.

use crate::output::CommandOutput;
use vstd::prelude::*;
use vstd::string::*;

verus! {

/// One thing that happened to one command during the run `trace_id`.
#[derive(Debug, PartialEq, Eq, Hash)]
pub enum Event {
    /// The command is about to run.
    Started { command: String, trace_id: String },
    /// The command wrote a line to standard output.
    Stdout { command: String, trace_id: String, line: String },
    /// The command is done, by running or by a cached result.
    Finished { command: String, trace_id: String, output: CommandOutput },
}

pub enum EventView {
    Started { command: Seq<char>, trace_id: Seq<char> },
    Stdout { command: Seq<char>, trace_id: Seq<char>, line: Seq<char> },
    Finished { command: Seq<char>, trace_id: Seq<char>, output: CommandOutput },
}

impl EventView {
    /// The command that the event is about.
    pub open spec fn command(self) -> Seq<char> {
        match self {
            EventView::Started { command, .. } => command,
            EventView::Stdout { command, .. } => command,
            EventView::Finished { command, .. } => command,
        }
    }

    /// The run that the event belongs to.
    pub open spec fn trace_id(self) -> Seq<char> {
        match self {
            EventView::Started { trace_id, .. } => trace_id,
            EventView::Stdout { trace_id, .. } => trace_id,
            EventView::Finished { trace_id, .. } => trace_id,
        }
    }
}

impl View for Event {
    type V = EventView;

    open spec fn view(&self) -> EventView {
        match self {
            Event::Started { command, trace_id } => EventView::Started {
                command: command@,
                trace_id: trace_id@,
            },
            Event::Stdout { command, trace_id, line } => EventView::Stdout {
                command: command@,
                trace_id: trace_id@,
                line: line@,
            },
            Event::Finished { command, trace_id, output } => EventView::Finished {
                command: command@,
                trace_id: trace_id@,
                output: *output,
            },
        }
    }
}

impl Clone for Event {
    fn clone(&self) -> (copy: Event)
        ensures
            copy@ == self@,
    {
        match self {
            Event::Started { command, trace_id } => Event::Started {
                command: command.clone(),
                trace_id: trace_id.clone(),
            },
            Event::Stdout { command, trace_id, line } => Event::Stdout {
                command: command.clone(),
                trace_id: trace_id.clone(),
                line: line.clone(),
            },
            Event::Finished { command, trace_id, output } => Event::Finished {
                command: command.clone(),
                trace_id: trace_id.clone(),
                output: *output,
            },
        }
    }
}

impl Event {
    pub fn command_started(command: String, trace_id: String) -> (event: Event)
        ensures
            event@ == (EventView::Started { command: command@, trace_id: trace_id@ }),
    {
        Event::Started { command, trace_id }
    }

    pub fn command_stdout(command: String, trace_id: String, line: String) -> (event: Event)
        ensures
            event@ == (EventView::Stdout { command: command@, trace_id: trace_id@, line: line@ }),
    {
        Event::Stdout { command, trace_id, line }
    }

    pub fn command_finished(command: String, trace_id: String, output: CommandOutput) -> (event:
        Event)
        ensures
            event@ == (EventView::Finished { command: command@, trace_id: trace_id@, output }),
    {
        Event::Finished { command, trace_id, output }
    }

    /// Whether the event says that a command is done.
    pub fn finished_event(&self) -> (finished: bool)
        ensures
            finished == (self@ is Finished),
    {
        match self {
            Event::Finished { .. } => true,
            _ => false,
        }
    }

    /// The name of the command that the event is about.
    pub fn command(&self) -> (name: &String)
        ensures
            name@ == self@.command(),
    {
        match self {
            Event::Started { command, .. } => command,
            Event::Stdout { command, .. } => command,
            Event::Finished { command, .. } => command,
        }
    }

    /// The run that the event belongs to.
    pub fn trace_id(&self) -> (id: &String)
        ensures
            id@ == self@.trace_id(),
    {
        match self {
            Event::Started { trace_id, .. } => trace_id,
            Event::Stdout { trace_id, .. } => trace_id,
            Event::Finished { trace_id, .. } => trace_id,
        }
    }
}

} // verus!
