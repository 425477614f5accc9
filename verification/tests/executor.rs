use smelt::executor::execution_output;
use smelt::executor::local::{LocalRun, RunPhase};
use smelt::{CommandOutput, Event, LocalExecutorBuilder, OtlErr};

#[test]
fn the_builder_defaults_to_four_threads() {
    let executor = LocalExecutorBuilder::new().build().unwrap();
    assert_eq!(executor.max_parallel(), 4);
    let executor = LocalExecutorBuilder::new().threads(9).build().unwrap();
    assert_eq!(executor.max_parallel(), 9);
    let executor = LocalExecutorBuilder::new().threads(9).threads(0).build().unwrap();
    assert_eq!(executor.max_parallel(), 0);
}

#[test]
fn an_execution_publishes_start_lines_and_end_in_order() {
    let executor = LocalExecutorBuilder::new().build().unwrap();
    let mut run = executor.begin("b", "trace-1");
    let mut published: Vec<Event> = Vec::new();
    assert_eq!(run.current_phase(), RunPhase::Prepared);
    published.push(run.start().unwrap());
    assert_eq!(run.current_phase(), RunPhase::Streaming);
    let action = run.on_line("hi".to_string()).unwrap();
    assert_eq!(action.stdout_text, "hi\n");
    published.push(action.event);
    let output = run.on_exit(Some(0)).unwrap();
    assert_eq!(output, CommandOutput { exit_code: 0 });
    assert_eq!(run.current_phase(), RunPhase::Exited);
    let left_behind = run.on_line("bye".to_string()).unwrap();
    assert_eq!(left_behind.stdout_text, "bye\n");
    published.push(left_behind.event);
    let completion = run.finish().unwrap();
    assert_eq!(completion.output, CommandOutput { exit_code: 0 });
    assert_eq!(completion.status_record, b"{\"exit_code\":0}".to_vec());
    published.push(completion.event);
    assert_eq!(run.current_phase(), RunPhase::Done);
    assert_eq!(
        published,
        vec![
            Event::Started { command: "b".to_string(), trace_id: "trace-1".to_string() },
            Event::Stdout {
                command: "b".to_string(),
                trace_id: "trace-1".to_string(),
                line: "hi".to_string()
            },
            Event::Stdout {
                command: "b".to_string(),
                trace_id: "trace-1".to_string(),
                line: "bye".to_string()
            },
            Event::Finished {
                command: "b".to_string(),
                trace_id: "trace-1".to_string(),
                output: CommandOutput { exit_code: 0 }
            },
        ]
    );
    assert_eq!(
        execution_output(&published, "b", "trace-1"),
        Some(CommandOutput { exit_code: 0 })
    );
}

#[test]
fn steps_out_of_turn_change_nothing() {
    let mut run = LocalRun::new("a", "t");
    assert!(run.on_line("early".to_string()).is_none());
    assert!(run.on_exit(Some(0)).is_none());
    assert!(run.finish().is_none());
    assert_eq!(run.current_phase(), RunPhase::Prepared);
    assert!(run.start().is_some());
    assert!(run.start().is_none());
    assert!(run.finish().is_none());
    assert!(run.on_exit(Some(2)).is_some());
    assert!(run.on_exit(Some(3)).is_none());
    assert!(run.start().is_none());
    let completion = run.finish().unwrap();
    assert_eq!(completion.output.exit_code, 2);
    assert!(run.finish().is_none());
    assert!(run.on_line("late".to_string()).is_none());
    assert!(run.on_exit(None).is_none());
    assert_eq!(run.current_phase(), RunPhase::Done);
}

#[test]
fn a_failing_exit_code_is_an_output_not_an_error() {
    let mut run = LocalRun::new("a", "t");
    run.start().unwrap();
    assert_eq!(run.on_exit(Some(17)).unwrap(), CommandOutput { exit_code: 17 });
    let completion = run.finish().unwrap();
    assert!(!completion.output.passed());
    assert_eq!(completion.status_record, b"{\"exit_code\":17}".to_vec());
    assert_eq!(
        completion.event,
        Event::Finished {
            command: "a".to_string(),
            trace_id: "t".to_string(),
            output: CommandOutput { exit_code: 17 }
        }
    );
}

#[test]
fn a_process_killed_by_a_signal_ends_with_the_sentinel() {
    let mut run = LocalRun::new("a", "t");
    run.start().unwrap();
    assert_eq!(run.on_exit(None).unwrap().exit_code, -555);
    let completion = run.finish().unwrap();
    assert_eq!(completion.status_record, b"{\"exit_code\":-555}".to_vec());
}

#[test]
fn a_process_ended_at_its_timeout_does_not_pass() {
    let mut run = LocalRun::new("a", "t");
    assert!(run.on_timeout().is_none());
    run.start().unwrap();
    run.on_line("so far".to_string()).unwrap();
    let output = run.on_timeout().unwrap();
    assert_eq!(output, CommandOutput { exit_code: -555 });
    assert!(!output.passed());
    assert_eq!(run.current_phase(), RunPhase::Exited);
    assert!(run.on_timeout().is_none());
    assert!(run.on_exit(Some(0)).is_none());
    let completion = run.finish().unwrap();
    assert_eq!(completion.output.exit_code, -555);
    assert_eq!(completion.status_record, b"{\"exit_code\":-555}".to_vec());
}

#[test]
fn a_failure_of_the_executor_is_an_error() {
    let run = LocalRun::new("a", "t");
    match run.failure("cannot create directory") {
        OtlErr::ExecutorFailed(reason) => assert_eq!(reason, "cannot create directory"),
        other => panic!("unexpected: {:?}", other),
    }
}

fn started(c: &str, t: &str) -> Event {
    Event::command_started(c.to_string(), t.to_string())
}

fn stdout(c: &str, t: &str, line: &str) -> Event {
    Event::command_stdout(c.to_string(), t.to_string(), line.to_string())
}

fn finished(c: &str, t: &str, code: i32) -> Event {
    Event::command_finished(c.to_string(), t.to_string(), CommandOutput { exit_code: code })
}

#[test]
fn recorded_events_are_checked_against_the_order() {
    let good = vec![started("a", "t"), stdout("a", "t", "x"), finished("a", "t", 1)];
    assert_eq!(execution_output(&good, "a", "t"), Some(CommandOutput { exit_code: 1 }));
    let shortest = vec![started("a", "t"), finished("a", "t", 0)];
    assert_eq!(execution_output(&shortest, "a", "t"), Some(CommandOutput { exit_code: 0 }));
    let bad: Vec<Vec<Event>> = vec![
        vec![],
        vec![started("a", "t")],
        vec![finished("a", "t", 0)],
        vec![finished("a", "t", 0), started("a", "t")],
        vec![started("a", "t"), stdout("a", "t", "x")],
        vec![stdout("a", "t", "x"), started("a", "t"), finished("a", "t", 0)],
        vec![started("a", "t"), finished("a", "t", 0), stdout("a", "t", "x")],
        vec![started("a", "t"), started("a", "t"), finished("a", "t", 0)],
        vec![started("a", "t"), finished("a", "t", 0), finished("a", "t", 0)],
        vec![started("b", "t"), finished("a", "t", 0)],
        vec![started("a", "t"), stdout("b", "t", "x"), finished("a", "t", 0)],
        vec![started("a", "t"), finished("a", "u", 0)],
    ];
    for events in bad.iter() {
        assert_eq!(execution_output(events, "a", "t"), None);
    }
}

#[test]
fn events_know_their_command() {
    let e = stdout("a", "t", "line");
    assert_eq!(e.command(), "a");
    assert_eq!(e.trace_id(), "t");
    assert!(!e.finished_event());
    assert!(!started("a", "t").finished_event());
    assert!(finished("a", "t", 3).finished_event());
    assert_eq!(e.clone(), e);
}
