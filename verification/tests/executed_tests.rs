use smelt::executed_tests::artifact_pointer::Pointer;
use smelt::{ArtifactPointer, ExecutedTestResult, TestOutputs, TestResult};

fn result(code: i32) -> TestResult {
    TestResult {
        test_name: "t".to_string(),
        outputs: Some(TestOutputs {
            artifacts: vec![ArtifactPointer::file_artifact(
                "log".to_string(),
                "/out/t/command.out".to_string(),
            )],
            exit_code: code,
        }),
    }
}

#[test]
fn a_file_artifact_points_to_its_path() {
    let artifact = ArtifactPointer::file_artifact("wave".to_string(), "/tmp/wave.vcd".to_string());
    assert_eq!(artifact.artifact_name, "wave");
    assert_eq!(artifact.pointer, Some(Pointer::Path("/tmp/wave.vcd".to_string())));
}

#[test]
fn the_exit_code_is_read_from_either_kind_of_result() {
    assert_eq!(ExecutedTestResult::Success(result(0)).get_retcode(), 0);
    assert_eq!(ExecutedTestResult::Success(result(-555)).get_retcode(), -555);
    let missing = ExecutedTestResult::MissingFiles {
        test_result: result(3),
        missing_artifacts: vec![ArtifactPointer::file_artifact(
            "cov".to_string(),
            "/out/t/cov.db".to_string(),
        )],
    };
    assert_eq!(missing.get_retcode(), 3);
}

#[test]
fn the_outputs_are_taken_from_either_kind_of_result() {
    let outputs = ExecutedTestResult::Success(result(0)).to_test_result();
    assert_eq!(outputs, result(0).outputs.unwrap());
    assert!(outputs.passed());
    let missing =
        ExecutedTestResult::MissingFiles { test_result: result(2), missing_artifacts: vec![] };
    let outputs = missing.to_test_result();
    assert_eq!(outputs.exit_code, 2);
    assert_eq!(outputs.artifacts.len(), 1);
    assert!(!outputs.passed());
}

#[test]
fn outputs_pass_on_exit_code_zero_only() {
    assert!(TestOutputs { artifacts: vec![], exit_code: 0 }.passed());
    assert!(!TestOutputs { artifacts: vec![], exit_code: 1 }.passed());
    assert!(!TestOutputs { artifacts: vec![], exit_code: -1 }.passed());
}
