//! The error type shared by every component of the engine.

use vstd::prelude::*;
use vstd::string::*;

verus! {

/// Everything that can go wrong while loading or running a command graph.
///
/// Failures that originate outside the engine (the file system, a graph
/// definition parser) are carried as the text they were reported with.
#[derive(Debug)]
pub enum OtlErr {
    Unknown,
    IoError(String),
    SerdeYamlError(String),
    SerdeJsonError(String),
    CommandCacheMiss,
    BadTargetType(String),
    ExecutorFailed(String),
    MissingCommandDependency { missing_dep_name: String },
    MissingFileDependency { missing_file_name: String },
    CommandSettingFailed { reason: String },
}

impl OtlErr {
    /// The text a user is shown for this error.
    pub open spec fn message(self) -> Seq<char> {
        match self {
            OtlErr::Unknown => "unknown error"@,
            OtlErr::IoError(e) => "IoError "@ + e@,
            OtlErr::SerdeYamlError(e) => "Serde yaml error "@ + e@,
            OtlErr::SerdeJsonError(e) => "Serde json error "@ + e@,
            OtlErr::CommandCacheMiss => "Command cache miss"@,
            OtlErr::BadTargetType(t) => "Invalid target type "@ + t@,
            OtlErr::ExecutorFailed(e) => "Executor failed to execute with error : "@ + e@,
            OtlErr::MissingCommandDependency { missing_dep_name } => {
                "Dependency for a command named "@ + missing_dep_name@
                    + " was found, but no such command was declared"@
            },
            OtlErr::MissingFileDependency { missing_file_name } => {
                "Dependency for a command named "@ + missing_file_name@
                    + " was found, but no such command was declared"@
            },
            OtlErr::CommandSettingFailed { reason } => {
                "Setting commands failed; reason is "@ + reason@
            },
        }
    }

    /// Renders the error as text.
    pub fn to_string(&self) -> (text: String)
        ensures
            text@ == self.message(),
    {
        match self {
            OtlErr::Unknown => String::from_str("unknown error"),
            OtlErr::IoError(e) => String::from_str("IoError ").concat(e.as_str()),
            OtlErr::SerdeYamlError(e) => String::from_str("Serde yaml error ").concat(e.as_str()),
            OtlErr::SerdeJsonError(e) => String::from_str("Serde json error ").concat(e.as_str()),
            OtlErr::CommandCacheMiss => String::from_str("Command cache miss"),
            OtlErr::BadTargetType(t) => String::from_str("Invalid target type ").concat(t.as_str()),
            OtlErr::ExecutorFailed(e) => String::from_str(
                "Executor failed to execute with error : ",
            ).concat(e.as_str()),
            OtlErr::MissingCommandDependency { missing_dep_name } => String::from_str(
                "Dependency for a command named ",
            ).concat(missing_dep_name.as_str()).concat(
                " was found, but no such command was declared",
            ),
            OtlErr::MissingFileDependency { missing_file_name } => String::from_str(
                "Dependency for a command named ",
            ).concat(missing_file_name.as_str()).concat(
                " was found, but no such command was declared",
            ),
            OtlErr::CommandSettingFailed { reason } => String::from_str(
                "Setting commands failed; reason is ",
            ).concat(reason.as_str()),
        }
    }
}

} // verus!
