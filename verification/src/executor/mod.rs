//! What every executor owes its subscribers: the order of the events of one
//! execution.

pub mod local;

pub use local::{LocalExecutor, LocalExecutorBuilder};

use crate::event::{Event, EventView};
use crate::output::CommandOutput;
use crate::text::str_eq;
use vstd::prelude::*;

verus! {

/// Whether `event` is a line of output of `command` in the run `trace_id`.
pub open spec fn is_output_line(event: EventView, command: Seq<char>, trace_id: Seq<char>) -> bool {
    event is Stdout && event.command() == command && event.trace_id() == trace_id
}

/// The events of an execution that has started and not yet finished: the
/// start, then nothing but lines of output.
pub open spec fn is_running_trace(
    events: Seq<EventView>,
    command: Seq<char>,
    trace_id: Seq<char>,
) -> bool {
    &&& events.len() >= 1
    &&& events[0] == (EventView::Started { command, trace_id })
    &&& forall|i: int| 1 <= i < events.len() ==> is_output_line(#[trigger] events[i], command, trace_id)
}

/// The events of a whole execution: the start comes first, the end comes
/// last and carries the output, and every line of output stands between
/// them.
pub open spec fn is_execution_trace(
    events: Seq<EventView>,
    command: Seq<char>,
    trace_id: Seq<char>,
    output: CommandOutput,
) -> bool {
    &&& events.len() >= 2
    &&& is_running_trace(events.drop_last(), command, trace_id)
    &&& events.last() == (EventView::Finished { command, trace_id, output })
}

/// The views of `events`, in order.
pub open spec fn views(events: Seq<Event>) -> Seq<EventView> {
    events.map_values(|event: Event| event@)
}

/// Checks recorded events against the order owed for one execution of
/// `command` in the run `trace_id`, and gives the output they end with.
pub fn execution_output(events: &Vec<Event>, command: &str, trace_id: &str) -> (r: Option<
    CommandOutput,
>)
    ensures
        match r {
            Some(output) => is_execution_trace(views(events@), command@, trace_id@, output),
            None => forall|output: CommandOutput|
                !is_execution_trace(views(events@), command@, trace_id@, output),
        },
{
    let ghost all: Seq<EventView> = views(events@);
    let n: usize = events.len();
    if n < 2 {
        return None;
    }
    let first_ok: bool = match &events[0] {
        Event::Started { command: c, trace_id: t } => str_eq(c.as_str(), command) && str_eq(
            t.as_str(),
            trace_id,
        ),
        _ => false,
    };
    if !first_ok {
        assert(all.drop_last()[0] == all[0]);
        return None;
    }
    let mut i: usize = 1;
    while i < n - 1
        invariant
            1 <= i <= n - 1,
            n == events@.len(),
            all == views(events@),
            forall|k: int| 1 <= k < i ==> is_output_line(#[trigger] all[k], command@, trace_id@),
        decreases n - i,
    {
        let line_ok: bool = match &events[i] {
            Event::Stdout { command: c, trace_id: t, .. } => str_eq(c.as_str(), command)
                && str_eq(t.as_str(), trace_id),
            _ => false,
        };
        if !line_ok {
            assert(all.drop_last()[i as int] == all[i as int]);
            return None;
        }
        i += 1;
    }
    match &events[n - 1] {
        Event::Finished { command: c, trace_id: t, output } => {
            if str_eq(c.as_str(), command) && str_eq(t.as_str(), trace_id) {
                proof {
                    let body: Seq<EventView> = all.drop_last();
                    assert(body[0] == all[0]);
                    assert forall|k: int| 1 <= k < body.len() implies is_output_line(
                        #[trigger] body[k],
                        command@,
                        trace_id@,
                    ) by {
                        assert(body[k] == all[k]);
                    }
                }
                Some(*output)
            } else {
                None
            }
        },
        _ => None,
    }
}

} // verus!
