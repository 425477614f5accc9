//! The client protocol: what a client may ask of the engine, how it is
//! answered, and how a subscriber keeps track of its event stream.

use crate::commands::{lowercase, TargetType};
use crate::error::OtlErr;
use crate::event::Event;
use crate::scheduler::{Selection, SelectionView};
use crate::text::clone_lines;
use vstd::prelude::*;
use vstd::string::*;

verus! {

/// What a client asks of the engine.
#[derive(Debug, PartialEq, Eq)]
pub enum ClientCommand {
    /// Load this graph definition in place of the current graph.
    SetGraph(String),
    /// Run every command of the target type with this name.
    RunType(String),
    /// Run the command with this name.
    RunOne(String),
    /// Run the commands with these names.
    RunMany(Vec<String>),
}

impl ClientCommand {
    pub fn send_graph(graph: String) -> (command: Self)
        ensures
            command == ClientCommand::SetGraph(graph),
    {
        ClientCommand::SetGraph(graph)
    }

    pub fn execute_type(target_type: String) -> (command: Self)
        ensures
            command == ClientCommand::RunType(target_type),
    {
        ClientCommand::RunType(target_type)
    }

    pub fn execute_command(name: String) -> (command: Self)
        ensures
            command == ClientCommand::RunOne(name),
    {
        ClientCommand::RunOne(name)
    }

    pub fn execute_many(names: Vec<String>) -> (command: Self)
        ensures
            command == ClientCommand::RunMany(names),
    {
        ClientCommand::RunMany(names)
    }

    /// The commands that this request asks to run; none where it asks to
    /// load a graph. A target type that is none of the three is an error.
    pub fn selection(&self) -> (r: Result<Option<Selection>, OtlErr>)
        ensures
            match self {
                ClientCommand::SetGraph(_) => r matches Ok(None),
                ClientCommand::RunType(name) => match TargetType::from_name(lowercase(name@)) {
                    Some(t) => r matches Ok(Some(s)) && s@ == SelectionView::Type(t),
                    None => r matches Err(OtlErr::BadTargetType(bad)) && bad@ == name@,
                },
                ClientCommand::RunOne(name) => r matches Ok(Some(s)) && s@ == SelectionView::One(
                    name@,
                ),
                ClientCommand::RunMany(names) => r matches Ok(Some(s)) && s@ == SelectionView::Many(
                    names.deep_view(),
                ),
            },
    {
        match self {
            ClientCommand::SetGraph(_) => Ok(None),
            ClientCommand::RunType(name) => match TargetType::from_str(name.as_str()) {
                Ok(t) => Ok(Some(Selection::Type(t))),
                Err(e) => Err(e),
            },
            ClientCommand::RunOne(name) => Ok(Some(Selection::One(name.clone()))),
            ClientCommand::RunMany(names) => Ok(Some(Selection::Many(clone_lines(names)))),
        }
    }
}

/// The acknowledgement of a request: nothing where the engine did as
/// asked, else the text of the error.
pub fn acknowledge(outcome: &Result<(), OtlErr>) -> (ack: Result<(), String>)
    ensures
        match outcome {
            Ok(_) => ack is Ok,
            Err(e) => ack matches Err(text) && text@ == e.message(),
        },
{
    match outcome {
        Ok(_) => Ok(()),
        Err(e) => Err(e.to_string()),
    }
}

/// What a client is told when its request could not be sent.
pub fn client_channel_err() -> (text: String)
    ensures
        text@ == "Channel error trying to send a command to the client"@,
{
    String::from_str("Channel error trying to send a command to the client")
}

/// What a client makes of the answer to a request: `resp` is the
/// acknowledgement, or the text of the error where none arrived.
pub fn handle_client_resp(resp: Result<Result<(), String>, String>) -> (r: Result<(), String>)
    ensures
        match resp {
            Ok(Ok(_)) => r is Ok,
            Ok(Err(reason)) => r matches Err(text) && text@
                == "Client command failed with error "@ + reason@,
            Err(lost) => r matches Err(text) && text@ == lost@,
        },
{
    match resp {
        Ok(Ok(())) => Ok(()),
        Ok(Err(reason)) => Err(
            String::from_str("Client command failed with error ").concat(reason.as_str()),
        ),
        Err(lost) => Err(lost),
    }
}

/// What came of asking an event channel for its next event.
#[derive(Debug, PartialEq, Eq)]
pub enum Polled {
    /// This event was waiting.
    Message(Event),
    /// Nothing is waiting now; more may come.
    Empty,
    /// Nothing is waiting and nothing will come.
    Closed,
}

/// A subscriber's view of its event stream. It is done once an event has
/// said that a command finished, and exhausted once the channel has closed.
/// Done is a hint: further events may follow it.
#[derive(Clone, Copy, Debug, PartialEq, Eq, Structural)]
pub struct PyEventStream {
    pub done: bool,
    pub exhausted: bool,
}

impl PyEventStream {
    /// A stream from which nothing has been taken yet.
    pub fn create_subscriber() -> (stream: Self)
        ensures
            !stream.done,
            !stream.exhausted,
    {
        Self { done: false, exhausted: false }
    }

    /// Takes note of an event that was received.
    pub fn set_done(&mut self, event: &Event)
        ensures
            final(self).done == (old(self).done || event@ is Finished),
            final(self).exhausted == old(self).exhausted,
    {
        if event.finished_event() {
            self.done = true;
        }
    }

    /// The outcome of waiting for the next event: `received` is the
    /// event, or nothing where the channel closed.
    pub fn pop_message_blocking(&mut self, received: Option<Event>) -> (r: Result<Event, String>)
        ensures
            match received {
                Some(event) => {
                    &&& r == Ok::<Event, String>(event)
                    &&& final(self).done == (old(self).done || event@ is Finished)
                    &&& final(self).exhausted == old(self).exhausted
                },
                None => {
                    &&& r matches Err(text)
                    &&& text@ == "Event channel closed"@
                    &&& final(self).done == old(self).done
                    &&& final(self).exhausted
                },
            },
    {
        match received {
            Some(event) => {
                self.set_done(&event);
                Ok(event)
            },
            None => {
                self.exhausted = true;
                Err(String::from_str("Event channel closed"))
            },
        }
    }

    /// The outcome of looking for an event without waiting: an event, or
    /// nothing for now, or an error where the channel has closed.
    pub fn nonblocking_pop(&mut self, polled: Polled) -> (r: Result<Option<Event>, String>)
        ensures
            match polled {
                Polled::Message(event) => {
                    &&& r == Ok::<Option<Event>, String>(Some(event))
                    &&& final(self).done == (old(self).done || event@ is Finished)
                    &&& final(self).exhausted == old(self).exhausted
                },
                Polled::Empty => {
                    &&& r == Ok::<Option<Event>, String>(None)
                    &&& *final(self) == *old(self)
                },
                Polled::Closed => {
                    &&& r matches Err(text)
                    &&& text@ == "Event channel closed"@
                    &&& final(self).done == old(self).done
                    &&& final(self).exhausted
                },
            },
    {
        match polled {
            Polled::Message(event) => {
                self.set_done(&event);
                Ok(Some(event))
            },
            Polled::Empty => Ok(None),
            Polled::Closed => {
                self.exhausted = true;
                Err(String::from_str("Event channel closed"))
            },
        }
    }

    /// Whether an event has said that a command finished.
    pub fn is_done(&self) -> (done: bool)
        ensures
            done == self.done,
    {
        self.done
    }

    /// Whether the channel has closed.
    pub fn is_exhausted(&self) -> (exhausted: bool)
        ensures
            exhausted == self.exhausted,
    {
        self.exhausted
    }
}

} // verus!
