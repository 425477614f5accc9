//! The command model: what a command is, how its definition is digested,
//! where it works and what script it runs.

use crate::digest::{sha1, sha1_digest, CommandDefDigest};
use crate::env::{lookup, EnvMap};
use crate::error::OtlErr;
use crate::framing::{
    append_framed, append_framed_list, framed, framed_list, lemma_framed_list_read_back,
    lemma_framed_read_back,
};
use crate::output::CommandOutput;
use crate::paths::{is_file_name, join_path, joined_path, lemma_joined_paths_distinct};
use crate::render::{
    append_debug_list, append_decimal, append_joined, debug_entry, debug_list, debug_map,
    decimal_text, quote,
};
use crate::text::{clone_lines, str_eq};
use std::sync::Arc;
use vstd::prelude::*;
use vstd::string::*;

verus! {

/// The category of a command, by which runs select commands.
#[derive(Clone, Copy, Debug, PartialEq, Eq, Hash, Structural)]
pub enum TargetType {
    Test,
    Stimulus,
    Build,
}

/// The lower-case form of a text, as `str::to_lowercase` gives it.
pub uninterp spec fn lowercase(text: Seq<char>) -> Seq<char>;

/// Calls `str::to_lowercase`, whose result is named here and not defined.
#[verifier::external_body]
fn to_lowercase(s: &str) -> (lower: String)
    ensures
        lower@ == lowercase(s@),
{
    s.to_lowercase()
}

impl TargetType {
    /// The name of the target type, in lower case.
    pub open spec fn name(self) -> Seq<char> {
        match self {
            TargetType::Test => "test"@,
            TargetType::Stimulus => "stimulus"@,
            TargetType::Build => "build"@,
        }
    }

    /// The target type with the lower-case name `lower`.
    pub open spec fn from_name(lower: Seq<char>) -> Option<TargetType> {
        if lower == "test"@ {
            Some(TargetType::Test)
        } else if lower == "stimulus"@ {
            Some(TargetType::Stimulus)
        } else if lower == "build"@ {
            Some(TargetType::Build)
        } else {
            None
        }
    }

    pub fn as_str(&self) -> (name: &'static str)
        ensures
            name@ == self.name(),
    {
        match self {
            TargetType::Test => "test",
            TargetType::Stimulus => "stimulus",
            TargetType::Build => "build",
        }
    }

    pub fn to_string(&self) -> (name: String)
        ensures
            name@ == self.name(),
    {
        String::from_str(self.as_str())
    }

    /// The target type named by `lower`, a text already in lower case;
    /// `given` is the text as the user wrote it, for the error.
    pub fn from_lowercase(lower: &str, given: &str) -> (r: Result<TargetType, OtlErr>)
        ensures
            match TargetType::from_name(lower@) {
                Some(t) => r == Ok::<TargetType, OtlErr>(t),
                None => r matches Err(OtlErr::BadTargetType(bad)) && bad@ == given@,
            },
    {
        if str_eq(lower, "test") {
            Ok(TargetType::Test)
        } else if str_eq(lower, "stimulus") {
            Ok(TargetType::Stimulus)
        } else if str_eq(lower, "build") {
            Ok(TargetType::Build)
        } else {
            Err(OtlErr::BadTargetType(String::from_str(given)))
        }
    }

    /// Reads a target type, whatever the case of its letters.
    pub fn from_str(s: &str) -> (r: Result<TargetType, OtlErr>)
        ensures
            match TargetType::from_name(lowercase(s@)) {
                Some(t) => r == Ok::<TargetType, OtlErr>(t),
                None => r matches Err(OtlErr::BadTargetType(bad)) && bad@ == s@,
            },
    {
        let lower: String = to_lowercase(s);
        TargetType::from_lowercase(lower.as_str(), s)
    }
}

/// The resources a command may use while it runs.
#[derive(Debug, PartialEq, Eq, Hash)]
pub struct Runtime {
    pub num_cpus: u32,
    pub max_memory_mb: u32,
    pub timeout: u32,
    pub env: EnvMap,
    pub command_run_dir: Option<String>,
}

pub struct RuntimeView {
    pub num_cpus: u32,
    pub max_memory_mb: u32,
    pub timeout: u32,
    pub env: Seq<(Seq<char>, Seq<char>)>,
    pub command_run_dir: Option<Seq<char>>,
}

impl View for Runtime {
    type V = RuntimeView;

    open spec fn view(&self) -> RuntimeView {
        RuntimeView {
            num_cpus: self.num_cpus,
            max_memory_mb: self.max_memory_mb,
            timeout: self.timeout,
            env: self.env@,
            command_run_dir: match self.command_run_dir {
                Some(dir) => Some(dir@),
                None => None,
            },
        }
    }
}

impl Clone for Runtime {
    fn clone(&self) -> (copy: Runtime)
        ensures
            copy@ == self@,
    {
        Runtime {
            num_cpus: self.num_cpus,
            max_memory_mb: self.max_memory_mb,
            timeout: self.timeout,
            env: self.env.clone(),
            command_run_dir: match &self.command_run_dir {
                Some(dir) => Some(dir.clone()),
                None => None,
            },
        }
    }
}

/// A runtime as text.
pub open spec fn runtime_text(runtime: RuntimeView) -> Seq<char> {
    "Runtime { num_cpus: "@ + decimal_text(runtime.num_cpus as nat) + ", max_memory_mb: "@
        + decimal_text(runtime.max_memory_mb as nat) + ", timeout: "@ + decimal_text(
        runtime.timeout as nat,
    ) + ", env: "@ + debug_map(runtime.env) + " }"@
}

impl Runtime {
    /// The runtime as text, for people to read.
    pub fn to_string(&self) -> (text: String)
        ensures
            text@ == runtime_text(self@),
    {
        let ghost env: Seq<(Seq<char>, Seq<char>)> = self.env@;
        let ghost wanted: Seq<Seq<char>> = env.map_values(
            |entry: (Seq<char>, Seq<char>)| debug_entry(entry),
        );
        let mut entries: Vec<String> = Vec::new();
        let count: usize = self.env.len();
        let mut i: usize = 0;
        while i < count
            invariant
                i <= count,
                count == env.len(),
                env == self.env@,
                wanted == env.map_values(|entry: (Seq<char>, Seq<char>)| debug_entry(entry)),
                entries.deep_view() =~= wanted.take(i as int),
            decreases count - i,
        {
            let ghost before: Seq<Seq<char>> = entries.deep_view();
            let entry: String = quote(self.env.name_at(i).as_str()).concat(": ").concat(
                quote(self.env.value_at(i).as_str()).as_str(),
            );
            assert(entry@ == wanted[i as int]);
            entries.push(entry);
            assert(entries.deep_view() =~= before.push(entry@));
            i += 1;
        }
        assert(wanted.take(i as int) =~= wanted);
        let mut text: String = String::from_str("Runtime { num_cpus: ");
        append_decimal(&mut text, self.num_cpus as u64);
        text.append(", max_memory_mb: ");
        append_decimal(&mut text, self.max_memory_mb as u64);
        text.append(", timeout: ");
        append_decimal(&mut text, self.timeout as u64);
        text.append(", env: ");
        text.append("{");
        append_joined(&mut text, &entries, ", ");
        text.append("}");
        text.append(" }");
        assert(text@ =~= runtime_text(self@));
        text
    }
}

/// A named unit of work: a script with the commands it depends on and the
/// resources it needs.
#[derive(Debug, PartialEq, Eq, Hash)]
pub struct Command {
    pub name: String,
    pub target_type: TargetType,
    pub script: Vec<String>,
    pub dependent_files: Vec<String>,
    pub dependencies: Vec<String>,
    pub outputs: Vec<String>,
    pub runtime: Runtime,
}

pub struct CommandView {
    pub name: Seq<char>,
    pub target_type: TargetType,
    pub script: Seq<Seq<char>>,
    pub dependent_files: Seq<Seq<char>>,
    pub dependencies: Seq<Seq<char>>,
    pub outputs: Seq<Seq<char>>,
    pub runtime: RuntimeView,
}

impl View for Command {
    type V = CommandView;

    open spec fn view(&self) -> CommandView {
        CommandView {
            name: self.name@,
            target_type: self.target_type,
            script: self.script.deep_view(),
            dependent_files: self.dependent_files.deep_view(),
            dependencies: self.dependencies.deep_view(),
            outputs: self.outputs.deep_view(),
            runtime: self.runtime@,
        }
    }
}

impl Clone for Command {
    fn clone(&self) -> (copy: Command)
        ensures
            copy@ == self@,
    {
        Command {
            name: self.name.clone(),
            target_type: self.target_type,
            script: clone_lines(&self.script),
            dependent_files: clone_lines(&self.dependent_files),
            dependencies: clone_lines(&self.dependencies),
            outputs: clone_lines(&self.outputs),
            runtime: self.runtime.clone(),
        }
    }
}

/// A command as text.
pub open spec fn command_text(command: CommandView) -> Seq<char> {
    "Command { name: "@ + command.name + ", target_type: "@ + command.target_type.name()
        + ", script: "@ + debug_list(command.script) + ", dependencies: "@ + debug_list(
        command.dependencies,
    ) + ", outputs: "@ + debug_list(command.outputs) + ", runtime: "@ + runtime_text(
        command.runtime,
    ) + " }"@
}

/// What of a command is digested: its name, the name of its target type,
/// its script lines and the names of its dependencies, in this order, each
/// in a frame, so that no two definitions are digested as the same bytes.
pub open spec fn digest_input(command: CommandView) -> Seq<u8> {
    framed(command.name) + (framed(command.target_type.name()) + (framed_list(command.script)
        + framed_list(command.dependencies)))
}

/// The digest of a command definition.
pub open spec fn def_digest_of(command: CommandView) -> Seq<u8> {
    sha1_digest(digest_input(command))
}

/// The directory, below every output root, that holds the working
/// directories.
pub open spec fn out_dir() -> Seq<char> {
    "smelt-out"@
}

/// The working directory that the command `name` has below `root` unless it
/// asks for another: the directory `name` in the directory `smelt-out` in
/// `root`.
pub open spec fn target_root(root: Seq<char>, name: Seq<char>) -> Seq<char> {
    joined_path(joined_path(root, out_dir()), name)
}

/// The line that exports one environment variable.
pub open spec fn export_line(variable: (Seq<char>, Seq<char>)) -> Seq<char> {
    "export "@ + variable.0 + "="@ + variable.1
}

/// The lines of a command's script file: one export for each environment
/// variable, then the script.
pub open spec fn script_lines(command: CommandView) -> Seq<Seq<char>> {
    command.runtime.env.map_values(|variable: (Seq<char>, Seq<char>)| export_line(variable))
        + command.script
}

/// Lines as the text of a file: each followed by a line feed.
pub open spec fn rendered(lines: Seq<Seq<char>>) -> Seq<char>
    decreases lines.len(),
{
    if lines.len() == 0 {
        Seq::<char>::empty()
    } else {
        rendered(lines.drop_last()) + lines.last() + "\n"@
    }
}

/// Where a command works: the directory its runtime names, else the one its
/// environment names as `TARGET_ROOT`, else its own directory below `root`.
pub open spec fn working_dir_of(command: CommandView, root: Seq<char>) -> Seq<char> {
    match command.runtime.command_run_dir {
        Some(dir) => dir,
        None => match lookup(command.runtime.env, "TARGET_ROOT"@) {
            Some(dir) => dir,
            None => target_root(root, command.name),
        },
    }
}

impl Command {
    /// The digest of this command's definition. Commands with the same name,
    /// target type, script and dependencies have the same digest, whatever
    /// else they hold.
    pub fn def_digest(&self) -> (digest: CommandDefDigest)
        ensures
            digest@ == def_digest_of(self@),
    {
        let mut input: Vec<u8> = Vec::new();
        append_framed(&mut input, self.name.as_str());
        append_framed(&mut input, self.target_type.as_str());
        append_framed_list(&mut input, &self.script);
        append_framed_list(&mut input, &self.dependencies);
        assert(input@ =~= digest_input(self@));
        CommandDefDigest::new(sha1(input.as_slice()))
    }

    /// The command as text, for people to read.
    pub fn to_string(&self) -> (text: String)
        ensures
            text@ == command_text(self@),
    {
        let mut text: String = String::from_str("Command { name: ");
        text.append(self.name.as_str());
        text.append(", target_type: ");
        text.append(self.target_type.as_str());
        text.append(", script: ");
        append_debug_list(&mut text, &self.script);
        text.append(", dependencies: ");
        append_debug_list(&mut text, &self.dependencies);
        text.append(", outputs: ");
        append_debug_list(&mut text, &self.outputs);
        text.append(", runtime: ");
        text.append(self.runtime.to_string().as_str());
        text.append(" }");
        assert(text@ =~= command_text(self@));
        text
    }

    /// The name of the file that holds the script.
    pub fn script_file() -> (name: &'static str)
        ensures
            name@ == "command.sh"@,
    {
        "command.sh"
    }

    /// The name of the file kept for what the script writes to standard error.
    pub fn stderr_file() -> (name: &'static str)
        ensures
            name@ == "command.err"@,
    {
        "command.err"
    }

    /// The name of the file that holds what the script wrote to standard
    /// output.
    pub fn stdout_file() -> (name: &'static str)
        ensures
            name@ == "command.out"@,
    {
        "command.out"
    }

    /// The name of the file that holds the status record.
    pub fn status_file() -> (name: &'static str)
        ensures
            name@ == "command.status"@,
    {
        "command.status"
    }

    /// The working directory that this command has below `root` unless it
    /// asks for another.
    pub fn default_target_root(&self, root: &str) -> (r: Result<String, OtlErr>)
        ensures
            r matches Ok(dir) && dir@ == target_root(root@, self.name@),
    {
        let out: String = join_path(root, "smelt-out");
        Ok(join_path(out.as_str(), self.name.as_str()))
    }

    /// Where this command works.
    pub fn working_dir(&self, root: &str) -> (dir: String)
        ensures
            dir@ == working_dir_of(self@, root@),
    {
        match &self.runtime.command_run_dir {
            Some(dir) => dir.clone(),
            None => match self.runtime.env.get("TARGET_ROOT") {
                Some(dir) => dir.clone(),
                None => {
                    let out: String = join_path(root, "smelt-out");
                    join_path(out.as_str(), self.name.as_str())
                },
            },
        }
    }

    /// The path of the file `file` in the working directory of this
    /// command: the status record, for one, is stored and looked up at
    /// `path_of(root, Command::status_file())`.
    pub fn path_of(&self, root: &str, file: &str) -> (path: String)
        ensures
            path@ == joined_path(working_dir_of(self@, root@), file@),
    {
        let dir: String = self.working_dir(root);
        join_path(dir.as_str(), file)
    }

    /// The lines of the script file, in order.
    pub fn script_contents(&self) -> (lines: Vec<String>)
        ensures
            lines.deep_view() == script_lines(self@),
    {
        let mut lines: Vec<String> = Vec::new();
        let ghost env: Seq<(Seq<char>, Seq<char>)> = self.runtime.env@;
        let ghost exports: Seq<Seq<char>> = env.map_values(
            |variable: (Seq<char>, Seq<char>)| export_line(variable),
        );
        let count: usize = self.runtime.env.len();
        let mut i: usize = 0;
        while i < count
            invariant
                i <= count,
                count == env.len(),
                env == self.runtime.env@,
                exports == env.map_values(
                    |variable: (Seq<char>, Seq<char>)| export_line(variable),
                ),
                lines.deep_view() =~= exports.take(i as int),
            decreases count - i,
        {
            let line: String = String::from_str("export ").concat(
                self.runtime.env.name_at(i).as_str(),
            ).concat("=").concat(self.runtime.env.value_at(i).as_str());
            assert(line@ == exports[i as int]);
            let ghost before: Seq<Seq<char>> = lines.deep_view();
            lines.push(line);
            assert(lines.deep_view() =~= before.push(line@));
            i += 1;
        }
        let mut k: usize = 0;
        while k < self.script.len()
            invariant
                k <= self.script@.len(),
                lines.deep_view() =~= exports + self.script.deep_view().take(k as int),
            decreases self.script@.len() - k,
        {
            let ghost before: Seq<Seq<char>> = lines.deep_view();
            let line: String = self.script[k].clone();
            lines.push(line);
            assert(lines.deep_view() =~= before.push(line@));
            k += 1;
        }
        assert(self.script.deep_view().take(k as int) =~= self.script.deep_view());
        lines
    }

    /// The text of the script file.
    pub fn render_script(&self) -> (text: String)
        ensures
            text@ == rendered(script_lines(self@)),
    {
        let lines: Vec<String> = self.script_contents();
        let ghost all: Seq<Seq<char>> = lines.deep_view();
        let mut text: String = String::new();
        let mut i: usize = 0;
        assert(all.take(0) =~= Seq::<Seq<char>>::empty());
        while i < lines.len()
            invariant
                i <= lines@.len(),
                all == lines.deep_view(),
                text@ == rendered(all.take(i as int)),
            decreases lines@.len() - i,
        {
            text.append(lines[i].as_str());
            text.append("\n");
            proof {
                let prefix: Seq<Seq<char>> = all.take(i + 1);
                assert(prefix.drop_last() =~= all.take(i as int));
                assert(prefix.last() == lines@[i as int]@);
            }
            i += 1;
        }
        assert(all.take(i as int) =~= all);
        text
    }

    /// The cached result of this command, given what its status file held:
    /// `None` where the working directory or the file was not found.
    /// Whatever keeps the record from being read is a cache miss.
    pub fn get_status_from_fs(&self, record: Option<&[u8]>) -> (r: Result<CommandOutput, OtlErr>)
        ensures
            match CommandOutput::spec_from_status_record(
                match record {
                    Some(bytes) => Some(bytes@),
                    None => None,
                },
            ) {
                Some(output) => r == Ok::<CommandOutput, OtlErr>(output),
                None => r matches Err(OtlErr::CommandCacheMiss),
            },
    {
        match record {
            None => Err(OtlErr::CommandCacheMiss),
            Some(bytes) => match CommandOutput::from_status_bytes(bytes) {
                Some(output) => Ok(output),
                None => Err(OtlErr::CommandCacheMiss),
            },
        }
    }
}

/// Two commands that agree in name, target type, script and dependencies
/// have the same digest.
pub proof fn lemma_def_digest_deterministic(a: CommandView, b: CommandView)
    requires
        a.name == b.name,
        a.target_type == b.target_type,
        a.script == b.script,
        a.dependencies == b.dependencies,
    ensures
        def_digest_of(a) == def_digest_of(b),
{
}

/// The target types have different names.
pub proof fn lemma_target_type_by_name(a: TargetType, b: TargetType)
    requires
        a.name() == b.name(),
    ensures
        a == b,
{
    reveal_strlit("test");
    reveal_strlit("stimulus");
    reveal_strlit("build");
    assert("test"@.len() == 4);
    assert("stimulus"@.len() == 8);
    assert("build"@.len() == 5);
}

/// Whatever is digested can be read back from the bytes that are digested:
/// definitions that differ in name, target type, a script line or a
/// dependency are digested as different bytes.
pub proof fn lemma_digest_input_tells_apart(a: CommandView, b: CommandView)
    requires
        digest_input(a) == digest_input(b),
    ensures
        a.name == b.name,
        a.target_type == b.target_type,
        a.script == b.script,
        a.dependencies == b.dependencies,
{
    let type_a: Seq<u8> = framed(a.target_type.name());
    let type_b: Seq<u8> = framed(b.target_type.name());
    let lists_a: Seq<u8> = framed_list(a.script) + framed_list(a.dependencies);
    let lists_b: Seq<u8> = framed_list(b.script) + framed_list(b.dependencies);
    lemma_framed_read_back(a.name, type_a + lists_a, b.name, type_b + lists_b);
    lemma_framed_read_back(a.target_type.name(), lists_a, b.target_type.name(), lists_b);
    lemma_target_type_by_name(a.target_type, b.target_type);
    lemma_framed_list_read_back(
        a.script,
        framed_list(a.dependencies),
        b.script,
        framed_list(b.dependencies),
    );
    let none: Seq<u8> = Seq::<u8>::empty();
    assert(framed_list(a.dependencies) + none =~= framed_list(a.dependencies));
    assert(framed_list(b.dependencies) + none =~= framed_list(b.dependencies));
    lemma_framed_list_read_back(a.dependencies, none, b.dependencies, none);
}

/// Commands with different names have different working directories below
/// the same root.
pub proof fn lemma_target_roots_distinct(root: Seq<char>, a: Seq<char>, b: Seq<char>)
    requires
        a != b,
    ensures
        target_root(root, a) != target_root(root, b),
{
    lemma_joined_paths_distinct(joined_path(root, out_dir()), a, b);
}

/// The working directory of a command whose name names a file lies in
/// `smelt-out` in the root, or in `smelt-out` where the root is empty, and
/// has the name of the command.
pub proof fn lemma_target_root_shape(root: Seq<char>, name: Seq<char>)
    requires
        is_file_name(name),
    ensures
        target_root(root, name) == joined_path(root, out_dir()).push('/') + name,
        root.len() == 0 ==> target_root(root, name) == out_dir().push('/') + name,
        root.len() > 0 && root.last() != '/' ==> target_root(root, name) == root.push('/')
            + out_dir().push('/') + name,
        root.len() > 0 && root.last() == '/' ==> target_root(root, name) == root
            + out_dir().push('/') + name,
{
    reveal_strlit("smelt-out");
    let out: Seq<char> = joined_path(root, out_dir());
    assert(out.last() == 't');
    assert(target_root(root, name) =~= out.push('/') + name);
    if root.len() == 0 {
    } else if root.last() == '/' {
        assert(target_root(root, name) =~= root + out_dir().push('/') + name);
    } else {
        assert(target_root(root, name) =~= root.push('/') + out_dir().push('/') + name);
    }
}

/// Where a command stands in its run. A command moves forward only, one
/// stage at a time, and takes the times of the earlier stages along. Times
/// are readings of a clock that the caller keeps.
#[derive(Clone, Copy, Debug, PartialEq, Eq, Hash, Structural)]
pub enum CommandRtStatus {
    /// Neither this command nor its dependencies have been asked to run.
    Unscheduled,
    Scheduled { scheduled_time: u64 },
    Running { scheduled_time: u64, started_time: u64 },
    Finished { scheduled_time: u64, started_time: u64, finished_time: u64 },
}

impl CommandRtStatus {
    /// How far along the status is: 0 for unscheduled up to 3 for finished.
    pub open spec fn stage(self) -> nat {
        match self {
            CommandRtStatus::Unscheduled => 0,
            CommandRtStatus::Scheduled { .. } => 1,
            CommandRtStatus::Running { .. } => 2,
            CommandRtStatus::Finished { .. } => 3,
        }
    }

    /// The status that follows this one when the clock reads `now`; a
    /// finished command has none.
    pub open spec fn successor(self, now: u64) -> Option<CommandRtStatus> {
        match self {
            CommandRtStatus::Unscheduled => Some(
                CommandRtStatus::Scheduled { scheduled_time: now },
            ),
            CommandRtStatus::Scheduled { scheduled_time } => Some(
                CommandRtStatus::Running { scheduled_time, started_time: now },
            ),
            CommandRtStatus::Running { scheduled_time, started_time } => Some(
                CommandRtStatus::Finished { scheduled_time, started_time, finished_time: now },
            ),
            CommandRtStatus::Finished { .. } => None,
        }
    }

    /// Whether a command may go from this status to `next` in one step.
    pub open spec fn steps_to(self, next: CommandRtStatus) -> bool {
        exists|now: u64| self.successor(now) == Some(next)
    }

    /// The status that follows this one when the clock reads `now`.
    pub fn advance(&self, now: u64) -> (next: Option<CommandRtStatus>)
        ensures
            next == self.successor(now),
    {
        match self {
            CommandRtStatus::Unscheduled => Some(
                CommandRtStatus::Scheduled { scheduled_time: now },
            ),
            CommandRtStatus::Scheduled { scheduled_time } => Some(
                CommandRtStatus::Running { scheduled_time: *scheduled_time, started_time: now },
            ),
            CommandRtStatus::Running { scheduled_time, started_time } => Some(
                CommandRtStatus::Finished {
                    scheduled_time: *scheduled_time,
                    started_time: *started_time,
                    finished_time: now,
                },
            ),
            CommandRtStatus::Finished { .. } => None,
        }
    }

    pub fn is_finished(&self) -> (finished: bool)
        ensures
            finished == (self is Finished),
    {
        match self {
            CommandRtStatus::Finished { .. } => true,
            _ => false,
        }
    }
}

/// Every legal step moves a command one stage forward.
pub proof fn lemma_status_moves_forward(from: CommandRtStatus, to: CommandRtStatus)
    requires
        from.steps_to(to),
    ensures
        to.stage() == from.stage() + 1,
{
}

/// A script together with the scripts it depends on.
#[derive(Clone, Debug, PartialEq, Eq, Hash)]
pub struct CommandScript(Arc<CommandScriptInner>);

#[derive(Clone, Debug, PartialEq, Eq, Hash)]
pub(crate) struct CommandScriptInner {
    script: Vec<String>,
    deps: Vec<CommandScript>,
}

} // verus!
