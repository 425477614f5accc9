use smelt::commands::{Command, CommandRtStatus, Runtime, TargetType};
use smelt::paths::{join_path, names_a_file};
use smelt::{CommandOutput, EnvMap, OtlErr};

fn runtime() -> Runtime {
    Runtime { num_cpus: 2, max_memory_mb: 512, timeout: 30, env: EnvMap::new(), command_run_dir: None }
}

fn sample() -> Command {
    let mut rt = runtime();
    rt.env.insert("SEED".to_string(), "7".to_string());
    rt.env.insert("MODE".to_string(), "fast mode".to_string());
    Command {
        name: "unit".to_string(),
        target_type: TargetType::Test,
        script: vec!["echo start".to_string(), "run --all".to_string()],
        dependent_files: vec!["src/a.v".to_string()],
        dependencies: vec!["build".to_string()],
        outputs: vec!["log \"x\"".to_string()],
        runtime: rt,
    }
}

#[test]
fn target_type_is_read_whatever_the_case() {
    assert_eq!(TargetType::from_str("test").unwrap(), TargetType::Test);
    assert_eq!(TargetType::from_str("TEST").unwrap(), TargetType::Test);
    assert_eq!(TargetType::from_str("Stimulus").unwrap(), TargetType::Stimulus);
    assert_eq!(TargetType::from_str("bUiLd").unwrap(), TargetType::Build);
}

#[test]
fn an_unknown_target_type_is_refused_as_written() {
    match TargetType::from_str("Deploy") {
        Err(OtlErr::BadTargetType(given)) => assert_eq!(given, "Deploy"),
        other => panic!("unexpected: {:?}", other),
    }
    assert!(matches!(TargetType::from_str(""), Err(OtlErr::BadTargetType(_))));
    assert!(matches!(TargetType::from_str("tests"), Err(OtlErr::BadTargetType(_))));
    assert!(matches!(TargetType::from_str(" test"), Err(OtlErr::BadTargetType(_))));
    match TargetType::from_lowercase("TEST", "TEST") {
        Err(OtlErr::BadTargetType(given)) => assert_eq!(given, "TEST"),
        other => panic!("unexpected: {:?}", other),
    }
    assert_eq!(TargetType::from_lowercase("build", "BUILD").unwrap(), TargetType::Build);
}

#[test]
fn target_type_has_a_lower_case_name() {
    assert_eq!(TargetType::Test.to_string(), "test");
    assert_eq!(TargetType::Stimulus.to_string(), "stimulus");
    assert_eq!(TargetType::Build.as_str(), "build");
    for t in [TargetType::Test, TargetType::Stimulus, TargetType::Build] {
        assert_eq!(TargetType::from_str(&t.to_string()).unwrap(), t);
    }
}

#[test]
fn file_names_are_fixed() {
    assert_eq!(Command::script_file(), "command.sh");
    assert_eq!(Command::stderr_file(), "command.err");
    assert_eq!(Command::stdout_file(), "command.out");
    assert_eq!(Command::status_file(), "command.status");
}

#[test]
fn default_target_root_lies_below_the_root() {
    let c = sample();
    assert_eq!(c.default_target_root("/work").unwrap(), "/work/smelt-out/unit");
    assert_eq!(c.default_target_root("/work/").unwrap(), "/work/smelt-out/unit");
    assert_eq!(c.default_target_root("work").unwrap(), "work/smelt-out/unit");
    assert_eq!(c.default_target_root("/").unwrap(), "/smelt-out/unit");
    assert_eq!(c.default_target_root(".").unwrap(), "./smelt-out/unit");
    assert_eq!(c.default_target_root("").unwrap(), "smelt-out/unit");
    let mut other = sample();
    other.name = "unit2".to_string();
    assert_ne!(
        c.default_target_root("/work").unwrap(),
        other.default_target_root("/work").unwrap()
    );
}

#[test]
fn working_dir_follows_the_overrides() {
    let mut c = sample();
    assert_eq!(c.working_dir("/work"), "/work/smelt-out/unit");
    c.runtime.env.insert("TARGET_ROOT".to_string(), "/elsewhere".to_string());
    assert_eq!(c.working_dir("/work"), "/elsewhere");
    c.runtime.command_run_dir = Some("/run/here".to_string());
    assert_eq!(c.working_dir("/work"), "/run/here");
}

#[test]
fn the_working_dir_is_what_joining_paths_gives() {
    let c = sample();
    for root in ["", "/", "/work", "/work/", "rel", "rel/dir/", "."] {
        let joined = std::path::Path::new(root).join("smelt-out").join("unit");
        assert_eq!(std::path::Path::new(&c.default_target_root(root).unwrap()), joined.as_path());
        assert_eq!(c.working_dir(root), joined.to_str().unwrap());
        let file = joined.join("command.status");
        assert_eq!(c.path_of(root, Command::status_file()), file.to_str().unwrap());
    }
}

#[test]
fn names_of_files_hold_no_separator() {
    for name in ["a", "unit test", "a.b", "...", ".a", "a.", "é"] {
        assert!(names_a_file(name));
    }
    for name in ["", "/", "a/b", "a/", "/a", ".", "..", "x/.."] {
        assert!(!names_a_file(name));
    }
    assert_eq!(join_path("", "a"), "a");
    assert_eq!(join_path("d", "a"), "d/a");
    assert_eq!(join_path("d/", "a"), "d/a");
    assert_eq!(join_path("/", "a"), "/a");
    assert_eq!(join_path("d", ""), "d/");
}

#[test]
fn files_lie_in_the_working_dir() {
    let mut c = sample();
    assert_eq!(c.path_of("", Command::status_file()), "smelt-out/unit/command.status");
    assert_eq!(c.path_of("/work/", Command::status_file()), "/work/smelt-out/unit/command.status");
    assert_eq!(c.path_of("/work", Command::status_file()), "/work/smelt-out/unit/command.status");
    assert_eq!(c.path_of("/work", Command::script_file()), "/work/smelt-out/unit/command.sh");
    c.runtime.command_run_dir = Some("/run/here".to_string());
    assert_eq!(c.path_of("/work", Command::stdout_file()), "/run/here/command.out");
    c.runtime.command_run_dir = Some("/run/here/".to_string());
    assert_eq!(c.path_of("/work", Command::stdout_file()), "/run/here/command.out");
    c.runtime.command_run_dir = Some("".to_string());
    assert_eq!(c.path_of("/work", Command::stdout_file()), "command.out");
}

#[test]
fn script_contents_exports_then_runs() {
    let c = sample();
    assert_eq!(
        c.script_contents(),
        vec![
            "export MODE=fast mode".to_string(),
            "export SEED=7".to_string(),
            "echo start".to_string(),
            "run --all".to_string(),
        ]
    );
    let mut bare = sample();
    bare.runtime.env = EnvMap::new();
    bare.script = vec![];
    assert_eq!(bare.script_contents(), Vec::<String>::new());
    assert_eq!(bare.render_script(), "");
}

#[test]
fn rendered_script_ends_each_line() {
    let c = sample();
    assert_eq!(
        c.render_script(),
        "export MODE=fast mode\nexport SEED=7\necho start\nrun --all\n"
    );
}

#[test]
fn status_lookup_misses_without_a_record() {
    let c = sample();
    assert!(matches!(c.get_status_from_fs(None), Err(OtlErr::CommandCacheMiss)));
    assert!(matches!(c.get_status_from_fs(Some(b"")), Err(OtlErr::CommandCacheMiss)));
    assert!(matches!(
        c.get_status_from_fs(Some(b"{\"exit_code\": true}")),
        Err(OtlErr::CommandCacheMiss)
    ));
}

#[test]
fn status_lookup_finds_what_an_execution_stored() {
    let c = sample();
    for code in [0, 1, -555] {
        let produced = CommandOutput { exit_code: code };
        let stored = produced.to_status_bytes();
        assert_eq!(c.get_status_from_fs(Some(&stored)).unwrap(), produced);
    }
}

#[test]
fn a_status_moves_forward_one_stage_at_a_time() {
    let s0 = CommandRtStatus::Unscheduled;
    let s1 = s0.advance(10).unwrap();
    assert_eq!(s1, CommandRtStatus::Scheduled { scheduled_time: 10 });
    let s2 = s1.advance(20).unwrap();
    assert_eq!(s2, CommandRtStatus::Running { scheduled_time: 10, started_time: 20 });
    let s3 = s2.advance(35).unwrap();
    assert_eq!(
        s3,
        CommandRtStatus::Finished { scheduled_time: 10, started_time: 20, finished_time: 35 }
    );
    assert_eq!(s3.advance(40), None);
    assert!(s3.is_finished());
    assert!(!s2.is_finished());
    assert!(!s0.is_finished());
}

#[test]
fn a_runtime_reads_as_text() {
    let c = sample();
    assert_eq!(
        c.runtime.to_string(),
        "Runtime { num_cpus: 2, max_memory_mb: 512, timeout: 30, env: {\"MODE\": \"fast mode\", \"SEED\": \"7\"} }"
    );
    let mut rt = runtime();
    rt.num_cpus = 0;
    rt.max_memory_mb = u32::MAX;
    rt.timeout = 1000;
    assert_eq!(
        rt.to_string(),
        "Runtime { num_cpus: 0, max_memory_mb: 4294967295, timeout: 1000, env: {} }"
    );
}

#[test]
fn a_command_reads_as_text() {
    let mut c = sample();
    c.runtime.env = EnvMap::new();
    assert_eq!(
        c.to_string(),
        "Command { name: unit, target_type: test, script: [\"echo start\", \"run --all\"], dependencies: [\"build\"], outputs: [\"log \\\"x\\\"\"], runtime: Runtime { num_cpus: 2, max_memory_mb: 512, timeout: 30, env: {} } }"
    );
    c.script = vec![];
    c.dependencies = vec![];
    c.outputs = vec![];
    assert_eq!(
        c.to_string(),
        "Command { name: unit, target_type: test, script: [], dependencies: [], outputs: [], runtime: Runtime { num_cpus: 2, max_memory_mb: 512, timeout: 30, env: {} } }"
    );
}

#[test]
fn a_clone_is_equal() {
    let c = sample();
    assert_eq!(c.clone(), c);
    assert_eq!(c.runtime.clone(), c.runtime);
}

#[test]
fn errors_have_their_texts() {
    assert_eq!(OtlErr::Unknown.to_string(), "unknown error");
    assert_eq!(OtlErr::IoError("disk".to_string()).to_string(), "IoError disk");
    assert_eq!(OtlErr::SerdeYamlError("y".to_string()).to_string(), "Serde yaml error y");
    assert_eq!(OtlErr::SerdeJsonError("j".to_string()).to_string(), "Serde json error j");
    assert_eq!(OtlErr::CommandCacheMiss.to_string(), "Command cache miss");
    assert_eq!(OtlErr::BadTargetType("x".to_string()).to_string(), "Invalid target type x");
    assert_eq!(
        OtlErr::ExecutorFailed("boom".to_string()).to_string(),
        "Executor failed to execute with error : boom"
    );
    assert_eq!(
        OtlErr::MissingCommandDependency { missing_dep_name: "dep".to_string() }.to_string(),
        "Dependency for a command named dep was found, but no such command was declared"
    );
    assert_eq!(
        OtlErr::MissingFileDependency { missing_file_name: "f".to_string() }.to_string(),
        "Dependency for a command named f was found, but no such command was declared"
    );
    assert_eq!(
        OtlErr::CommandSettingFailed { reason: "why".to_string() }.to_string(),
        "Setting commands failed; reason is why"
    );
}
