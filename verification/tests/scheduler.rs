use smelt::commands::{Command, CommandRtStatus, Runtime, TargetType};
use smelt::executor::execution_output;
use smelt::executor::local::LocalRun;
use smelt::{
    CommandOutput, Decision, Dispatch, EnvMap, Event, OtlErr, Outcome, Report, ResourcePool,
    Scheduler, Selection,
};

fn command(name: &str, target_type: TargetType, script: &[&str], deps: &[&str]) -> Command {
    Command {
        name: name.to_string(),
        target_type,
        script: script.iter().map(|s| s.to_string()).collect(),
        dependent_files: vec![],
        dependencies: deps.iter().map(|s| s.to_string()).collect(),
        outputs: vec![],
        runtime: Runtime {
            num_cpus: 1,
            max_memory_mb: 100,
            timeout: 10,
            env: EnvMap::new(),
            command_run_dir: None,
        },
    }
}

fn pool() -> ResourcePool {
    ResourcePool { cpus: 8, memory_mb: 1000 }
}

fn a_then_b() -> Scheduler {
    Scheduler::new(
        vec![
            command("a", TargetType::Build, &["exit 0"], &[]),
            command("b", TargetType::Build, &["echo hi"], &["a"]),
        ],
        pool(),
        4,
    )
    .unwrap()
}

fn a_then_b_and_c() -> Scheduler {
    Scheduler::new(
        vec![
            command("a", TargetType::Build, &["sleep 1000"], &[]),
            command("b", TargetType::Build, &["echo b"], &["a"]),
            command("c", TargetType::Build, &["echo c"], &[]),
        ],
        pool(),
        4,
    )
    .unwrap()
}

fn ok(code: i32) -> Report {
    Report::Output(CommandOutput { exit_code: code })
}

/// Runs the process of one command as a shell would: it writes `lines` and
/// exits with `code`. Gives the events published and the output.
fn execute(name: &str, trace_id: &str, lines: &[&str], code: i32) -> (Vec<Event>, CommandOutput) {
    let mut run = LocalRun::new(name, trace_id);
    let mut events = vec![run.start().unwrap()];
    for line in lines {
        events.push(run.on_line(line.to_string()).unwrap().event);
    }
    run.on_exit(Some(code)).unwrap();
    let completion = run.finish().unwrap();
    events.push(completion.event);
    (events, completion.output)
}

#[test]
fn a_graph_loads_with_nothing_scheduled() {
    let s = a_then_b();
    assert_eq!(s.len(), 2);
    assert_eq!(s.status(0), CommandRtStatus::Unscheduled);
    assert_eq!(s.status(1), CommandRtStatus::Unscheduled);
    assert_eq!(s.outcome(0), None);
    assert_eq!(s.command(1).name, "b");
    assert_eq!(s.digest(0), &s.command(0).def_digest());
    assert_eq!(s.position(&"b".to_string()), Some(1));
    assert_eq!(s.position(&"z".to_string()), None);
    assert!(s.is_idle());
    assert!(s.is_complete());
    assert_eq!(s.ready(), Vec::<usize>::new());
    let empty = Scheduler::new(vec![], pool(), 4).unwrap();
    assert_eq!(empty.len(), 0);
    assert!(empty.is_complete());
}

#[test]
fn a_dependency_on_no_command_fails_the_load() {
    let r = Scheduler::new(
        vec![
            command("a", TargetType::Build, &[], &[]),
            command("b", TargetType::Build, &[], &["a", "ghost", "phantom"]),
            command("c", TargetType::Build, &[], &["nobody"]),
        ],
        pool(),
        4,
    );
    match r {
        Err(OtlErr::MissingCommandDependency { missing_dep_name }) => {
            assert_eq!(missing_dep_name, "ghost")
        }
        _ => panic!("the load should fail"),
    }
}

#[test]
fn names_must_be_there_and_differ() {
    let r = Scheduler::new(
        vec![command("a", TargetType::Build, &[], &[]), command("", TargetType::Build, &[], &[])],
        pool(),
        4,
    );
    match r {
        Err(OtlErr::CommandSettingFailed { reason }) => assert_eq!(reason, "a command has no name"),
        _ => panic!("the load should fail"),
    }
    let r = Scheduler::new(
        vec![
            command("a", TargetType::Build, &[], &["missing"]),
            command("b", TargetType::Build, &[], &[]),
            command("a", TargetType::Test, &[], &[]),
        ],
        pool(),
        4,
    );
    match r {
        Err(OtlErr::CommandSettingFailed { reason }) => {
            assert_eq!(reason, "a command name is declared twice: a")
        }
        _ => panic!("the load should fail"),
    }
}

#[test]
fn a_run_schedules_what_is_asked_for_and_what_that_needs() {
    let mut s = Scheduler::new(
        vec![
            command("lib", TargetType::Build, &[], &[]),
            command("app", TargetType::Build, &[], &["lib"]),
            command("unit", TargetType::Test, &[], &["app"]),
            command("lint", TargetType::Test, &[], &[]),
            command("wave", TargetType::Stimulus, &[], &["gen"]),
            command("gen", TargetType::Build, &[], &[]),
            command("docs", TargetType::Build, &[], &[]),
        ],
        pool(),
        4,
    )
    .unwrap();
    let scheduled = |s: &Scheduler| -> Vec<bool> {
        (0..s.len()).map(|i| s.status(i) == CommandRtStatus::Scheduled { scheduled_time: 5 }).collect()
    };
    s.start_run(&Selection::One("unit".to_string()), "t1", 5).unwrap();
    assert_eq!(scheduled(&s), vec![true, true, true, false, false, false, false]);
    assert_eq!(s.status(3), CommandRtStatus::Unscheduled);
    assert_eq!(s.ready(), vec![0]);
    s.start_run(&Selection::Type(TargetType::Test), "t2", 5).unwrap();
    assert_eq!(scheduled(&s), vec![true, true, true, true, false, false, false]);
    assert_eq!(s.ready(), vec![0, 3]);
    s.start_run(&Selection::Type(TargetType::Stimulus), "t3", 5).unwrap();
    assert_eq!(scheduled(&s), vec![false, false, false, false, true, true, false]);
    s.start_run(&Selection::Many(vec!["docs".to_string(), "app".to_string()]), "t4", 5).unwrap();
    assert_eq!(scheduled(&s), vec![true, true, false, false, false, false, true]);
    s.start_run(&Selection::Many(vec![]), "t5", 5).unwrap();
    assert_eq!(scheduled(&s), vec![false; 7]);
    assert!(s.is_complete());
}

#[test]
fn a_run_of_an_unknown_command_is_refused() {
    let mut s = a_then_b();
    match s.start_run(&Selection::One("zzz".to_string()), "t", 0) {
        Err(OtlErr::MissingCommandDependency { missing_dep_name }) => {
            assert_eq!(missing_dep_name, "zzz")
        }
        other => panic!("unexpected: {:?}", other),
    }
    let names = vec!["a".to_string(), "x".to_string(), "y".to_string()];
    match s.start_run(&Selection::Many(names), "t", 0) {
        Err(OtlErr::MissingCommandDependency { missing_dep_name }) => {
            assert_eq!(missing_dep_name, "x")
        }
        other => panic!("unexpected: {:?}", other),
    }
    assert_eq!(s.status(0), CommandRtStatus::Unscheduled);
}

#[test]
fn no_run_starts_while_a_command_runs() {
    let mut s = a_then_b();
    s.start_run(&Selection::Type(TargetType::Build), "t", 0).unwrap();
    assert_eq!(s.dispatch(0, None, 1), Dispatch::Execute);
    match s.start_run(&Selection::Type(TargetType::Build), "u", 2) {
        Err(OtlErr::CommandSettingFailed { reason }) => assert_eq!(reason, "a run is in progress"),
        other => panic!("unexpected: {:?}", other),
    }
    assert_eq!(s.status(0), CommandRtStatus::Running { scheduled_time: 0, started_time: 1 });
    assert!(s.complete(0, ok(0), 3));
    s.start_run(&Selection::Type(TargetType::Build), "u", 4).unwrap();
    assert_eq!(s.status(0), CommandRtStatus::Scheduled { scheduled_time: 4 });
    assert_eq!(s.outcome(0), None);
}

#[test]
fn a_dependent_waits_for_its_dependency() {
    let mut s = a_then_b();
    s.start_run(&Selection::Type(TargetType::Build), "t", 0).unwrap();
    assert_eq!(s.ready(), vec![0]);
    assert!(!s.is_ready(1));
    assert_eq!(s.dispatch(1, None, 1), Dispatch::Deferred);
    assert_eq!(s.dispatch(1, Some(CommandOutput { exit_code: 0 }), 1), Dispatch::Deferred);
    assert_eq!(s.status(1), CommandRtStatus::Scheduled { scheduled_time: 0 });
    assert_eq!(s.dispatch(0, None, 2), Dispatch::Execute);
    assert_eq!(s.ready(), Vec::<usize>::new());
    assert_eq!(s.dispatch(1, None, 3), Dispatch::Deferred);
    assert_eq!(s.status(1), CommandRtStatus::Scheduled { scheduled_time: 0 });
    assert!(s.complete(0, ok(0), 4));
    assert_eq!(
        s.status(0),
        CommandRtStatus::Finished { scheduled_time: 0, started_time: 2, finished_time: 4 }
    );
    assert_eq!(s.ready(), vec![1]);
    assert_eq!(s.dispatch(1, None, 5), Dispatch::Execute);
    assert_eq!(s.status(1), CommandRtStatus::Running { scheduled_time: 0, started_time: 5 });
    assert!(!s.is_complete());
    assert!(s.complete(1, ok(0), 6));
    assert!(s.is_complete());
    assert!(s.is_idle());
    assert_eq!(s.outcome(1), Some(&Outcome::Executed(CommandOutput { exit_code: 0 })));
}

#[test]
fn a_failed_dependency_blocks_its_dependents() {
    let mut s = a_then_b();
    s.start_run(&Selection::Type(TargetType::Build), "t", 0).unwrap();
    assert_eq!(s.dispatch(0, None, 1), Dispatch::Execute);
    assert!(s.complete(0, ok(1), 2));
    assert_eq!(s.outcome(0), Some(&Outcome::Executed(CommandOutput { exit_code: 1 })));
    assert!(!s.outcome(0).unwrap().passed());
    assert_eq!(s.ready(), Vec::<usize>::new());
    assert!(!s.is_ready(1));
    assert_eq!(s.decide(1, None), Decision::Defer);
    assert_eq!(s.dispatch(1, None, 3), Dispatch::Deferred);
    assert_eq!(s.dispatch(1, Some(CommandOutput { exit_code: 0 }), 3), Dispatch::Deferred);
    assert!(!s.complete(1, ok(0), 4));
    assert_eq!(s.status(1), CommandRtStatus::Scheduled { scheduled_time: 0 });
    assert_eq!(s.outcome(1), None);
    assert!(s.is_idle());
    assert!(!s.is_complete());
}

#[test]
fn a_failure_of_the_executor_is_the_outcome_and_blocks_too() {
    let mut s = a_then_b();
    s.start_run(&Selection::Type(TargetType::Build), "t", 0).unwrap();
    assert_eq!(s.dispatch(0, None, 1), Dispatch::Execute);
    assert!(s.complete(0, Report::Failure("no shell".to_string()), 2));
    assert_eq!(s.outcome(0), Some(&Outcome::Failed("no shell".to_string())));
    assert_eq!(s.outcome(0).unwrap().output(), None);
    assert!(s.status(0).is_finished());
    assert_eq!(s.dispatch(1, None, 3), Dispatch::Deferred);
}

#[test]
fn a_stalled_command_does_not_hold_back_an_independent_one() {
    let mut s = a_then_b_and_c();
    s.start_run(&Selection::Type(TargetType::Build), "t", 0).unwrap();
    assert_eq!(s.ready(), vec![0, 2]);
    assert_eq!(s.dispatch(0, None, 1), Dispatch::Execute);
    assert_eq!(s.ready(), vec![2]);
    assert_eq!(s.dispatch(2, None, 2), Dispatch::Execute);
    assert!(s.complete(2, ok(0), 3));
    assert_eq!(
        s.status(2),
        CommandRtStatus::Finished { scheduled_time: 0, started_time: 2, finished_time: 3 }
    );
    assert_eq!(s.status(0), CommandRtStatus::Running { scheduled_time: 0, started_time: 1 });
    assert_eq!(s.status(1), CommandRtStatus::Scheduled { scheduled_time: 0 });
    assert!(!s.is_idle());
}

#[test]
fn a_passing_status_record_finishes_a_command_without_running_it() {
    let mut s = a_then_b();
    s.start_run(&Selection::Type(TargetType::Build), "run-7", 0).unwrap();
    let hit = s.dispatch(0, Some(CommandOutput { exit_code: 0 }), 9);
    assert_eq!(
        hit,
        Dispatch::Resolved(Event::Finished {
            command: "a".to_string(),
            trace_id: "run-7".to_string(),
            output: CommandOutput { exit_code: 0 }
        })
    );
    assert_eq!(
        s.status(0),
        CommandRtStatus::Finished { scheduled_time: 0, started_time: 9, finished_time: 9 }
    );
    assert_eq!(s.outcome(0), Some(&Outcome::Cached(CommandOutput { exit_code: 0 })));
    assert!(s.is_idle());
    assert_eq!(s.ready(), vec![1]);
    assert!(!s.complete(0, ok(5), 10));
    assert_eq!(s.outcome(0), Some(&Outcome::Cached(CommandOutput { exit_code: 0 })));
}

#[test]
fn a_failing_status_record_is_not_taken() {
    let mut s = a_then_b();
    s.start_run(&Selection::Type(TargetType::Build), "t", 0).unwrap();
    assert_eq!(s.decide(0, Some(CommandOutput { exit_code: 2 })), Decision::Execute);
    assert_eq!(s.dispatch(0, Some(CommandOutput { exit_code: 2 }), 1), Dispatch::Execute);
    assert_eq!(s.status(0), CommandRtStatus::Running { scheduled_time: 0, started_time: 1 });
}

#[test]
fn commands_of_one_graph_have_digests_of_their_own() {
    let first = command("abuild", TargetType::Build, &["x"], &[]);
    let second = command("a", TargetType::Build, &["buildx"], &[]);
    let mut s = Scheduler::new(
        vec![first, second, command("other", TargetType::Build, &["x"], &[])],
        pool(),
        4,
    )
    .unwrap();
    assert!(!s.digest(0).same_as(s.digest(1)));
    assert!(!s.digest(0).same_as(s.digest(2)));
    assert!(!s.digest(1).same_as(s.digest(2)));
    s.start_run(&Selection::Type(TargetType::Build), "t", 0).unwrap();
    assert_eq!(s.dispatch(0, None, 1), Dispatch::Execute);
    assert_eq!(s.decide(1, None), Decision::Execute);
    assert_eq!(s.dispatch(1, None, 2), Dispatch::Execute);
    assert!(s.complete(0, ok(4), 3));
    assert_eq!(s.decide(2, None), Decision::Execute);
    assert_eq!(
        s.dispatch(2, Some(CommandOutput { exit_code: 0 }), 4),
        Dispatch::Resolved(Event::Finished {
            command: "other".to_string(),
            trace_id: "t".to_string(),
            output: CommandOutput { exit_code: 0 }
        })
    );
    assert_eq!(s.outcome(2), Some(&Outcome::Cached(CommandOutput { exit_code: 0 })));
}

#[test]
fn a_name_must_name_a_file() {
    for bad in ["a/b", "/abs", "dir/", ".", ".."] {
        let r = Scheduler::new(
            vec![
                command("fine", TargetType::Build, &[], &["nobody"]),
                command(bad, TargetType::Build, &[], &[]),
                command("fine", TargetType::Build, &[], &[]),
            ],
            pool(),
            4,
        );
        match r {
            Err(OtlErr::CommandSettingFailed { reason }) => {
                assert_eq!(reason, format!("a command name is no file name: {}", bad))
            }
            _ => panic!("the load should fail"),
        }
    }
    let r = Scheduler::new(
        vec![command("a/b", TargetType::Build, &[], &[]), command("", TargetType::Build, &[], &[])],
        pool(),
        4,
    );
    match r {
        Err(OtlErr::CommandSettingFailed { reason }) => assert_eq!(reason, "a command has no name"),
        _ => panic!("the load should fail"),
    }
    assert!(Scheduler::new(vec![command("a.b c", TargetType::Build, &[], &[])], pool(), 4).is_ok());
}

#[test]
fn an_executors_answer_is_read_as_a_report() {
    let finished = Event::command_finished(
        "a".to_string(),
        "t".to_string(),
        CommandOutput { exit_code: 3 },
    );
    assert_eq!(Report::from_execution(Ok(finished)), Report::Output(CommandOutput { exit_code: 3 }));
    let started = Event::command_started("a".to_string(), "t".to_string());
    assert_eq!(
        Report::from_execution(Ok(started)),
        Report::Failure("the executor gave no finishing event".to_string())
    );
    let line = Event::command_stdout("a".to_string(), "t".to_string(), "x".to_string());
    assert_eq!(
        Report::from_execution(Ok(line)),
        Report::Failure("the executor gave no finishing event".to_string())
    );
    assert_eq!(
        Report::from_execution(Err("no shell".to_string())),
        Report::Failure("no shell".to_string())
    );
}

#[test]
fn a_command_waits_for_room() {
    let mut big = command("big", TargetType::Build, &["a"], &[]);
    big.runtime.num_cpus = 6;
    let mut mid = command("mid", TargetType::Build, &["b"], &[]);
    mid.runtime.num_cpus = 3;
    let mut small = command("small", TargetType::Build, &["c"], &[]);
    small.runtime.num_cpus = 2;
    let mut hungry = command("hungry", TargetType::Build, &["d"], &[]);
    hungry.runtime.max_memory_mb = 900;
    let mut s = Scheduler::new(vec![big, mid, small, hungry], pool(), 4).unwrap();
    s.start_run(&Selection::Type(TargetType::Build), "t", 0).unwrap();
    assert_eq!(s.dispatch(0, None, 1), Dispatch::Execute);
    assert_eq!(s.decide(1, None), Decision::Defer);
    assert_eq!(s.dispatch(1, None, 1), Dispatch::Deferred);
    assert_eq!(s.dispatch(2, None, 1), Dispatch::Execute);
    assert_eq!(s.dispatch(3, None, 1), Dispatch::Deferred);
    assert_eq!(s.ready(), vec![1, 3]);
    assert!(s.complete(0, ok(0), 2));
    assert_eq!(s.dispatch(1, None, 3), Dispatch::Execute);
    assert_eq!(s.dispatch(3, None, 3), Dispatch::Deferred);
    assert!(s.complete(2, ok(0), 4));
    assert_eq!(s.dispatch(3, None, 5), Dispatch::Execute);
    assert!(s.complete(1, ok(0), 6));
    assert!(s.complete(3, ok(0), 7));
    assert!(s.is_complete());
    assert!(s.is_idle());
}

#[test]
fn no_more_commands_run_than_may_run_at_once() {
    let mut s = Scheduler::new(
        vec![
            command("a", TargetType::Test, &["1"], &[]),
            command("b", TargetType::Test, &["2"], &[]),
            command("c", TargetType::Test, &["3"], &[]),
        ],
        pool(),
        2,
    )
    .unwrap();
    s.start_run(&Selection::Type(TargetType::Test), "t", 0).unwrap();
    assert_eq!(s.dispatch(0, None, 1), Dispatch::Execute);
    assert_eq!(s.dispatch(1, None, 1), Dispatch::Execute);
    assert_eq!(s.dispatch(2, None, 1), Dispatch::Deferred);
    assert!(s.complete(1, ok(0), 2));
    assert_eq!(s.dispatch(2, None, 3), Dispatch::Execute);
}

#[test]
fn reports_on_commands_that_do_not_run_are_dropped() {
    let mut s = a_then_b();
    assert!(!s.complete(0, ok(0), 1));
    assert!(!s.complete(7, ok(0), 1));
    s.start_run(&Selection::Type(TargetType::Build), "t", 0).unwrap();
    assert!(!s.complete(0, ok(0), 1));
    assert_eq!(s.status(0), CommandRtStatus::Scheduled { scheduled_time: 0 });
    assert_eq!(s.dispatch(7, None, 1), Dispatch::Deferred);
    assert!(!s.is_ready(7));
}

/// Runs a whole graph as the engine does: ready commands are dispatched,
/// dispatched commands are executed by `process`, and what is published is
/// collected in order.
fn run_all(
    s: &mut Scheduler,
    selection: &Selection,
    trace_id: &str,
    process: &dyn Fn(&str) -> (Vec<&'static str>, i32),
) -> Vec<Event> {
    let mut published = Vec::new();
    let mut clock: u64 = 0;
    s.start_run(selection, trace_id, clock).unwrap();
    loop {
        let ready = s.ready();
        if ready.is_empty() {
            break;
        }
        for i in ready {
            clock += 1;
            match s.dispatch(i, None, clock) {
                Dispatch::Execute => {
                    let name = s.command(i).name.clone();
                    let (lines, code) = process(&name);
                    let (events, output) = execute(&name, trace_id, &lines, code);
                    published.extend(events);
                    clock += 1;
                    assert!(s.complete(i, Report::Output(output), clock));
                }
                Dispatch::Resolved(event) => published.push(event),
                Dispatch::Deferred => {}
            }
        }
    }
    published
}

#[test]
fn a_then_b_publishes_the_events_of_a_before_those_of_b() {
    let mut s = a_then_b();
    let published = run_all(&mut s, &Selection::Type(TargetType::Build), "t", &|name| {
        if name == "b" {
            (vec!["hi"], 0)
        } else {
            (vec![], 0)
        }
    });
    assert_eq!(
        published,
        vec![
            Event::Started { command: "a".to_string(), trace_id: "t".to_string() },
            Event::Finished {
                command: "a".to_string(),
                trace_id: "t".to_string(),
                output: CommandOutput { exit_code: 0 }
            },
            Event::Started { command: "b".to_string(), trace_id: "t".to_string() },
            Event::Stdout {
                command: "b".to_string(),
                trace_id: "t".to_string(),
                line: "hi".to_string()
            },
            Event::Finished {
                command: "b".to_string(),
                trace_id: "t".to_string(),
                output: CommandOutput { exit_code: 0 }
            },
        ]
    );
    assert!(s.is_complete());
}

#[test]
fn the_events_of_each_command_come_in_order() {
    let mut s = Scheduler::new(
        vec![
            command("lib", TargetType::Build, &["make lib"], &[]),
            command("app", TargetType::Build, &["make app"], &["lib"]),
            command("unit", TargetType::Test, &["run unit"], &["app", "lib"]),
            command("lint", TargetType::Test, &["run lint"], &[]),
        ],
        pool(),
        4,
    )
    .unwrap();
    let published = run_all(&mut s, &Selection::Type(TargetType::Test), "t9", &|name| {
        if name == "unit" {
            (vec!["1 passed", "", "done"], 0)
        } else if name == "lint" {
            (vec!["warning"], 3)
        } else {
            (vec!["ok"], 0)
        }
    });
    for (name, code) in [("lib", 0), ("app", 0), ("unit", 0), ("lint", 3)] {
        let own: Vec<Event> =
            published.iter().filter(|e| e.command() == name).cloned().collect();
        assert_eq!(execution_output(&own, name, "t9"), Some(CommandOutput { exit_code: code }));
    }
    let first_of = |name: &str| published.iter().position(|e| e.command() == name).unwrap();
    let last_of = |name: &str| published.iter().rposition(|e| e.command() == name).unwrap();
    assert!(last_of("lib") < first_of("app"));
    assert!(last_of("app") < first_of("unit"));
    assert!(s.is_complete());
}

#[test]
fn a_failure_stops_what_depends_on_it_and_nothing_else() {
    let mut s = a_then_b_and_c();
    let published =
        run_all(&mut s, &Selection::Type(TargetType::Build), "t", &|name| {
            if name == "a" {
                (vec![], 1)
            } else {
                (vec![], 0)
            }
        });
    assert!(published.iter().all(|e| e.command() != "b"));
    assert!(s.status(0).is_finished());
    assert_eq!(s.status(1), CommandRtStatus::Scheduled { scheduled_time: 0 });
    assert!(s.status(2).is_finished());
    assert_eq!(s.outcome(2), Some(&Outcome::Executed(CommandOutput { exit_code: 0 })));
    assert!(!s.is_complete());
    assert!(s.is_idle());
}
