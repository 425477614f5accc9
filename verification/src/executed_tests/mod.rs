//! The results of executed tests and the artifacts they left.

pub mod artifact_pointer;

use vstd::prelude::*;

verus! {

/// A named artifact of a test.
#[derive(Debug, PartialEq, Eq, Hash)]
pub struct ArtifactPointer {
    pub artifact_name: String,
    pub pointer: Option<artifact_pointer::Pointer>,
}

/// What a test left behind: its artifacts and its exit code.
#[derive(Debug, PartialEq, Eq, Hash)]
pub struct TestOutputs {
    pub artifacts: Vec<ArtifactPointer>,
    pub exit_code: i32,
}

/// The result of one test; `outputs` is there once the test has run.
#[derive(Debug, PartialEq, Eq, Hash)]
pub struct TestResult {
    pub test_name: String,
    pub outputs: Option<TestOutputs>,
}

/// The result of a test after its artifacts were looked for.
#[derive(Debug, PartialEq, Eq, Hash)]
pub enum ExecutedTestResult {
    /// Every artifact is there.
    Success(TestResult),
    /// Some artifacts are not there.
    MissingFiles {
        /// The test result, with the artifacts that are there.
        test_result: TestResult,
        /// The artifacts that are not there; each points into the file
        /// system.
        missing_artifacts: Vec<ArtifactPointer>,
    },
}

impl ArtifactPointer {
    /// The artifact `artifact_name`, a file at `path`.
    pub fn file_artifact(artifact_name: String, path: String) -> (artifact: Self)
        ensures
            artifact.artifact_name == artifact_name,
            artifact.pointer == Some(artifact_pointer::Pointer::Path(path)),
    {
        let pointer = Some(artifact_pointer::Pointer::Path(path));
        Self { artifact_name, pointer }
    }
}

impl ExecutedTestResult {
    /// The test result that this result carries.
    pub open spec fn test_result(self) -> TestResult {
        match self {
            ExecutedTestResult::Success(result) => result,
            ExecutedTestResult::MissingFiles { test_result, .. } => test_result,
        }
    }

    /// The outputs of the test. The test must have run.
    pub fn to_test_result(self) -> (outputs: TestOutputs)
        requires
            self.test_result().outputs is Some,
        ensures
            Some(outputs) == self.test_result().outputs,
    {
        match self {
            Self::Success(val) => val.outputs.unwrap(),
            Self::MissingFiles { test_result, .. } => test_result.outputs.unwrap(),
        }
    }

    /// The exit code of the test. The test must have run.
    pub fn get_retcode(&self) -> (code: i32)
        requires
            self.test_result().outputs is Some,
        ensures
            code == self.test_result().outputs.unwrap().exit_code,
    {
        match self {
            Self::Success(val) => match &val.outputs {
                Some(outputs) => outputs.exit_code,
                None => 0,
            },
            Self::MissingFiles { test_result, .. } => match &test_result.outputs {
                Some(outputs) => outputs.exit_code,
                None => 0,
            },
        }
    }
}

impl TestOutputs {
    /// A test passed when it exited with code zero.
    pub fn passed(&self) -> (passed: bool)
        ensures
            passed == (self.exit_code == 0),
    {
        self.exit_code == 0
    }
}

} // verus!
