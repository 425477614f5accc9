//! A command execution engine: commands with declared dependencies are
//! digested, scheduled in dependency order, run by an executor and reported
//! to subscribers as a stream of lifecycle events.

pub mod client;
pub mod commands;
pub mod digest;
pub mod env;
pub mod error;
pub mod event;
pub mod executed_tests;
pub mod executor;
pub mod framing;
pub mod graph;
pub mod output;
pub mod paths;
pub mod render;
pub mod scheduler;
pub mod text;

pub use client::{ClientCommand, Polled, PyEventStream};
pub use commands::{Command, CommandRtStatus, CommandScript, Runtime, TargetType};
pub use digest::{CommandDefDigest, DigestError, ExecDigest, HexError};
pub use env::EnvMap;
pub use error::OtlErr;
pub use event::Event;
pub use executed_tests::{ArtifactPointer, ExecutedTestResult, TestOutputs, TestResult};
pub use executor::{LocalExecutor, LocalExecutorBuilder};
pub use graph::{Decision, ResourcePool};
pub use output::CommandOutput;
pub use scheduler::{Dispatch, Outcome, Report, Scheduler, Selection};
