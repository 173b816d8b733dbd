//! Running commands in a child process that the system restricts.
use vstd::prelude::*;
use crate::protocol::ExecutorEnvironment;
use crate::text::{concat2, same_text};

verus! {

broadcast use vstd::string::group_string_axioms;

/// One command to run.
#[derive(Debug, PartialEq, Eq, Clone)]
pub struct CommandSpec {
    pub program: String,
    pub args: Vec<String>,
    pub current_dir: Option<String>,
}

impl CommandSpec {
    /// A command without arguments, in the directory of its parent.
    pub fn new(program: &str) -> (r: CommandSpec)
        ensures
            r.program@ == program@,
            r.args@.len() == 0,
            r.current_dir is None,
    {
        CommandSpec { program: program.to_owned(), args: Vec::new(), current_dir: None }
    }

    /// Adds an argument at the end.
    pub fn arg(self, arg: &str) -> (r: CommandSpec)
        ensures
            r.program == self.program,
            r.args@.len() == self.args@.len() + 1,
            r.args@.drop_last() == self.args@,
            r.args@.last()@ == arg@,
            r.current_dir == self.current_dir,
    {
        let mut args = self.args;
        args.push(arg.to_owned());
        assert(args@.drop_last() =~= self.args@);
        CommandSpec { program: self.program, args, current_dir: self.current_dir }
    }

    /// Sets the working directory.
    pub fn current_dir(self, path: &str) -> (r: CommandSpec)
        ensures
            r.program == self.program,
            r.args == self.args,
            r.current_dir is Some && r.current_dir->0@ == path@,
    {
        CommandSpec {
            program: self.program,
            args: self.args,
            current_dir: Some(path.to_owned()),
        }
    }
}

/// What a restricted child process left behind.
#[derive(Debug, PartialEq, Eq, Clone)]
pub struct ExecutionOutput {
    pub process_id: u32,
    pub exit_code: u32,
    pub stdout: Vec<u8>,
    pub stderr: Vec<u8>,
    /// Whether the backend has seen that the child was restricted.
    pub restricted: bool,
}

/// A way to run commands under restriction. An error is given as its message.
pub trait RestrictedBackend {
    fn execute(&self, command: &CommandSpec) -> Result<ExecutionOutput, String>;

    /// Runs a command for a limited time. When the time is up the process and its
    /// children are ended; where that fails the result is an error.
    fn execute_with_deadline(
        &self,
        command: &CommandSpec,
        deadline_millis: Option<u64>,
    ) -> (r: Result<ExecutionOutput, String>)
        default_ensures
            call_ensures(Self::execute, (self, command), r),
    {
        self.execute(command)
    }

    /// The facts that an authorization is bound to; without them none is given.
    fn environment(&self) -> (r: Result<ExecutorEnvironment, String>)
        default_ensures
            r is Err,
            r->Err_0@ == "restricted backend did not expose executor environment facts"@,
    {
        Err("restricted backend did not expose executor environment facts".to_string())
    }
}

/// The only way to run a command: there is none around the backend.
pub struct RestrictedProcessPool<B> {
    backend: B,
}

impl<B> RestrictedProcessPool<B> {
    pub closed spec fn inner(&self) -> B {
        self.backend
    }

    pub fn new(backend: B) -> (r: RestrictedProcessPool<B>)
        ensures
            r.inner() == backend,
    {
        RestrictedProcessPool { backend }
    }
}

impl<B: RestrictedBackend> RestrictedProcessPool<B> {
    /// Runs a command with the backend.
    pub fn execute(&self, command: &CommandSpec) -> (r: Result<ExecutionOutput, String>)
        ensures
            call_ensures(B::execute, (&self.inner(), command), r),
    {
        self.backend.execute(command)
    }

    /// Runs a command with the backend for a limited time.
    pub fn execute_with_deadline(
        &self,
        command: &CommandSpec,
        deadline_millis: Option<u64>,
    ) -> (r: Result<ExecutionOutput, String>)
        ensures
            call_ensures(
                B::execute_with_deadline,
                (&self.inner(), command, deadline_millis),
                r,
            ),
    {
        self.backend.execute_with_deadline(command, deadline_millis)
    }

    /// The backend's environment.
    pub fn environment(&self) -> (r: Result<ExecutorEnvironment, String>)
        ensures
            call_ensures(B::environment, (&self.inner(),), r),
    {
        self.backend.environment()
    }
}

// ---------------------------------------------------------------------------
// The executor's own facts
// ---------------------------------------------------------------------------

/// The home directory: the profile directory where it is set, else the home
/// directory; neither may be empty.
pub open spec fn home_of(user_profile: Option<Seq<char>>, home: Option<Seq<char>>) -> Option<
    Seq<char>,
> {
    let found = if user_profile is Some {
        user_profile
    } else {
        home
    };
    if found is Some && found->0.len() > 0 {
        found
    } else {
        None
    }
}

/// Puts together what an authorization is bound to. Without a home directory there
/// is nothing to bind to.
pub fn local_executor_environment(
    os: &str,
    user_profile: Option<String>,
    home: Option<String>,
    workspace: Result<String, String>,
    generation: u64,
) -> (r: Result<ExecutorEnvironment, String>)
    ensures
        ({
            let found = home_of(opt_view(user_profile), opt_view(home));
            match r {
                Ok(env) => {
                    &&& found is Some
                    &&& workspace is Ok
                    &&& env.os@ == os@
                    &&& env.home@ == found->0
                    &&& env.workspace == workspace->Ok_0
                    &&& env.generation == generation
                },
                Err(e) => if found is None {
                    e@ == "executor home is unavailable"@
                } else {
                    workspace is Err && e == workspace->Err_0
                },
            }
        }),
{
    let found = match user_profile {
        Some(profile) => Some(profile),
        None => home,
    };
    match found {
        Some(home) => {
            if home.as_str().is_empty() {
                return Err("executor home is unavailable".to_string());
            }
            match workspace {
                Ok(workspace) => Ok(
                    ExecutorEnvironment { os: os.to_owned(), home, workspace, generation },
                ),
                Err(e) => Err(e),
            }
        },
        None => Err("executor home is unavailable".to_string()),
    }
}

pub open spec fn opt_view(text: Option<String>) -> Option<Seq<char>> {
    match text {
        Some(t) => Some(t@),
        None => None,
    }
}

// ---------------------------------------------------------------------------
// Waiting for a child
// ---------------------------------------------------------------------------

/// The exit code of a command that ran out of time.
pub const DEADLINE_EXIT_CODE: u32 = 124;

/// What a look at the child showed.
#[derive(Debug, Clone, Copy, PartialEq, Eq, Structural)]
pub enum ChildState {
    Ended,
    Running,
    Unknown,
}

/// What to do after a look at the child.
#[derive(Debug, Clone, Copy, PartialEq, Eq, Structural)]
pub enum WaitAction {
    Collect,
    Fail,
    EndGroup,
    Sleep,
}

/// Decides after a look at the child. An ended child is collected even when its time
/// is up; one that is still running is ended together with its group.
pub fn wait_step(state: ChildState, time_is_up: bool) -> (r: WaitAction)
    ensures
        r == (match state {
            ChildState::Ended => WaitAction::Collect,
            ChildState::Unknown => WaitAction::Fail,
            ChildState::Running => if time_is_up {
                WaitAction::EndGroup
            } else {
                WaitAction::Sleep
            },
        }),
{
    match state {
        ChildState::Ended => WaitAction::Collect,
        ChildState::Unknown => WaitAction::Fail,
        ChildState::Running => {
            if time_is_up {
                WaitAction::EndGroup
            } else {
                WaitAction::Sleep
            }
        },
    }
}

/// `libc::WIFEXITED`: the child ended by itself when the low seven bits are zero.
#[verifier::external_body]
fn ended_by_itself(status: i32) -> (r: bool)
    ensures
        r == (status & 0x7f == 0),
{
    libc::WIFEXITED(status)
}

/// `libc::WEXITSTATUS`: the second byte of the status.
#[verifier::external_body]
fn own_exit_code(status: i32) -> (r: i32)
    ensures
        r == (status >> 8) & 0xff,
{
    libc::WEXITSTATUS(status)
}

/// `libc::WIFSIGNALED`: the child was ended by a signal when the low seven bits are
/// neither all zero nor all one.
#[verifier::external_body]
fn ended_by_signal(status: i32) -> (r: bool)
    ensures
        r == (status & 0x7f != 0 && status & 0x7f != 0x7f),
{
    libc::WIFSIGNALED(status)
}

/// `libc::WTERMSIG`: the low seven bits of the status.
#[verifier::external_body]
fn ending_signal(status: i32) -> (r: i32)
    ensures
        r == status & 0x7f,
{
    libc::WTERMSIG(status)
}

/// The exit code that a wait status stands for.
pub open spec fn exit_code_of(status: i32, timed_out: bool) -> int {
    if timed_out {
        DEADLINE_EXIT_CODE as int
    } else if status & 0x7f == 0 {
        ((status >> 8) & 0xff) as int
    } else if status & 0x7f != 0x7f {
        128 + (status & 0x7f)
    } else {
        1
    }
}

/// The exit code of a child: its own, or 128 and the signal that ended it, or the
/// code for a command that ran out of time.
pub fn exit_code(status: i32, timed_out: bool) -> (r: u32)
    ensures
        r == exit_code_of(status, timed_out),
        r <= 255,
{
    assert(0 <= (status >> 8) & 0xff <= 255) by (bit_vector);
    assert(0 <= status & 0x7f <= 127) by (bit_vector);
    if timed_out {
        DEADLINE_EXIT_CODE
    } else if ended_by_itself(status) {
        own_exit_code(status) as u32
    } else if ended_by_signal(status) {
        128 + ending_signal(status) as u32
    } else {
        1
    }
}

// ---------------------------------------------------------------------------
// Rules for a restricted file system
// ---------------------------------------------------------------------------

pub const ACCESS_READ_FILE: u64 = 0x1;

pub const ACCESS_WRITE_FILE: u64 = 0x2;

pub const ACCESS_READ_DIR: u64 = 0x4;

pub const ACCESS_REMOVE_DIR: u64 = 0x8;

pub const ACCESS_REMOVE_FILE: u64 = 0x10;

pub const ACCESS_MAKE_CHAR: u64 = 0x20;

pub const ACCESS_MAKE_DIR: u64 = 0x40;

pub const ACCESS_MAKE_REG: u64 = 0x80;

pub const ACCESS_MAKE_SOCK: u64 = 0x100;

pub const ACCESS_MAKE_FIFO: u64 = 0x200;

pub const ACCESS_MAKE_BLOCK: u64 = 0x400;

pub const ACCESS_MAKE_SYM: u64 = 0x800;

pub const ACCESS_EXEC: u64 = 0x1000;

/// Reading files and directories, and running programs.
pub const READONLY_ACCESS: u64 = ACCESS_READ_FILE | ACCESS_READ_DIR | ACCESS_EXEC;

/// Everything that can be done with files. Whatever is not granted is denied.
pub const WORKSPACE_ACCESS: u64 = READONLY_ACCESS | ACCESS_WRITE_FILE | ACCESS_REMOVE_DIR
    | ACCESS_REMOVE_FILE | ACCESS_MAKE_CHAR | ACCESS_MAKE_DIR | ACCESS_MAKE_REG | ACCESS_MAKE_SOCK
    | ACCESS_MAKE_FIFO | ACCESS_MAKE_BLOCK | ACCESS_MAKE_SYM;

/// How far the file system is restricted.
#[derive(Debug, Clone, Copy, PartialEq, Eq, Structural)]
pub enum LandlockFsMode {
    ReadOnly,
    WorkspaceWrite,
}

/// A grant for a directory and everything below it.
#[derive(Debug, PartialEq, Eq)]
pub struct PathRule {
    pub path: String,
    pub access: u64,
}

/// The grants of a mode: reading everywhere, and in workspace mode everything below
/// the workspace.
pub open spec fn rules_of(mode: LandlockFsMode, root: Seq<char>) -> Seq<(Seq<char>, u64)> {
    match mode {
        LandlockFsMode::ReadOnly => seq![("/"@, READONLY_ACCESS)],
        LandlockFsMode::WorkspaceWrite => seq![("/"@, READONLY_ACCESS), (root, WORKSPACE_ACCESS)],
    }
}

pub open spec fn rules_view(rules: Seq<PathRule>) -> Seq<(Seq<char>, u64)> {
    rules.map_values(|rule: PathRule| (rule.path@, rule.access))
}

/// The mode that a setting stands for; `None` where the setting is unknown. Without
/// a setting the workspace may be written.
pub open spec fn landlock_mode_of(setting: Option<Seq<char>>) -> Option<LandlockFsMode> {
    match setting {
        None => Some(LandlockFsMode::WorkspaceWrite),
        Some(s) => if s == "read-only"@ || s == "ReadOnly"@ {
            Some(LandlockFsMode::ReadOnly)
        } else if s == ""@ || s == "workspace-write"@ || s == "WorkspaceWrite"@ {
            Some(LandlockFsMode::WorkspaceWrite)
        } else {
            None
        },
    }
}

/// The configuration of the backend that restricts the file system of a child.
#[derive(Debug)]
pub struct LandlockBackend {
    workspace_root: String,
    mode: LandlockFsMode,
    generation: u64,
}

pub struct LandlockView {
    pub root: Seq<char>,
    pub mode: LandlockFsMode,
    pub generation: u64,
}

impl View for LandlockBackend {
    type V = LandlockView;

    closed spec fn view(&self) -> LandlockView {
        LandlockView {
            root: self.workspace_root@,
            mode: self.mode,
            generation: self.generation,
        }
    }
}

impl Clone for LandlockBackend {
    fn clone(&self) -> (r: LandlockBackend)
        ensures
            r@ == self@,
    {
        LandlockBackend {
            workspace_root: self.workspace_root.clone(),
            mode: self.mode,
            generation: self.generation,
        }
    }
}

impl LandlockBackend {
    pub fn new(workspace_root: String, mode: LandlockFsMode, generation: u64) -> (r: LandlockBackend)
        ensures
            r@ == (LandlockView { root: workspace_root@, mode, generation }),
    {
        LandlockBackend { workspace_root, mode, generation }
    }

    /// The configuration for a setting of the mode and a current directory. An
    /// unknown mode is refused.
    pub fn from_environment(
        setting: Option<&str>,
        current_dir: Result<String, String>,
        generation: u64,
    ) -> (r: Result<LandlockBackend, String>)
        ensures
            ({
                let mode = landlock_mode_of(
                    match setting {
                        Some(s) => Some(s@),
                        None => None,
                    },
                );
                match r {
                    Ok(b) => {
                        &&& mode is Some
                        &&& current_dir is Ok
                        &&& b@ == (LandlockView {
                            root: current_dir->Ok_0@,
                            mode: mode->0,
                            generation,
                        })
                    },
                    Err(e) => if mode is None {
                        e@ == "unknown sandbox mode: "@ + setting->0@
                    } else {
                        current_dir is Err && e == current_dir->Err_0
                    },
                }
            }),
    {
        let mode = match setting {
            None => LandlockFsMode::WorkspaceWrite,
            Some(s) => {
                if same_text(s, "read-only") || same_text(s, "ReadOnly") {
                    LandlockFsMode::ReadOnly
                } else if same_text(s, "") || same_text(s, "workspace-write") || same_text(
                    s,
                    "WorkspaceWrite",
                ) {
                    LandlockFsMode::WorkspaceWrite
                } else {
                    return Err(concat2("unknown sandbox mode: ", s));
                }
            },
        };
        match current_dir {
            Ok(dir) => Ok(LandlockBackend::new(dir, mode, generation)),
            Err(e) => Err(e),
        }
    }

    pub fn workspace_root(&self) -> (r: &String)
        ensures
            r@ == self@.root,
    {
        &self.workspace_root
    }

    pub fn mode(&self) -> (r: LandlockFsMode)
        ensures
            r == self@.mode,
    {
        self.mode
    }

    pub fn generation(&self) -> (r: u64)
        ensures
            r == self@.generation,
    {
        self.generation
    }

    /// The grants for a child, given the canonical path of the workspace.
    pub fn path_rules(&self, canonical_root: &str) -> (r: Vec<PathRule>)
        ensures
            rules_view(r@) == rules_of(self@.mode, canonical_root@),
    {
        let mut rules: Vec<PathRule> = Vec::new();
        rules.push(PathRule { path: "/".to_string(), access: READONLY_ACCESS });
        match self.mode {
            LandlockFsMode::ReadOnly => {},
            LandlockFsMode::WorkspaceWrite => {
                rules.push(
                    PathRule { path: canonical_root.to_owned(), access: WORKSPACE_ACCESS },
                );
            },
        }
        assert(rules_view(rules@) =~= rules_of(self@.mode, canonical_root@));
        rules
    }
}

// ---------------------------------------------------------------------------
// Laws
// ---------------------------------------------------------------------------

/// No rule of the read-only mode grants a way to change a file, and in workspace
/// mode only the rule for the workspace does.
pub proof fn changes_are_granted_in_the_workspace_only(
    mode: LandlockFsMode,
    root: Seq<char>,
    i: int,
)
    requires
        0 <= i < rules_of(mode, root).len(),
    ensures
        rules_of(mode, root)[i].1 & WORKSPACE_ACCESS & !READONLY_ACCESS != 0 ==> mode
            == LandlockFsMode::WorkspaceWrite && rules_of(mode, root)[i].0 == root,
{
    assert(0x1005u64 & 0x1fffu64 & !0x1005u64 == 0) by (bit_vector);
    lemma_access_values();
}

proof fn lemma_access_values()
    ensures
        READONLY_ACCESS == 0x1005,
        WORKSPACE_ACCESS == 0x1fff,
{
    assert(0x1u64 | 0x4u64 | 0x1000u64 == 0x1005u64) by (bit_vector);
    assert(0x1005u64 | 0x2u64 | 0x8u64 | 0x10u64 | 0x20u64 | 0x40u64 | 0x80u64 | 0x100u64 | 0x200u64
        | 0x400u64 | 0x800u64 == 0x1fffu64) by (bit_vector);
}

/// The home directory is that of the user's profile, or otherwise the one that is set; an
/// empty one is none.
pub proof fn where_home_is(profile: Seq<char>, home: Option<Seq<char>>)
    ensures
        profile.len() > 0 ==> home_of(Some(profile), home) == Some(profile),
        profile.len() == 0 ==> home_of(Some(profile), home) is None,
        home is Some && home->0.len() > 0 ==> home_of(None, home) == home,
        home is None || home->0.len() == 0 ==> home_of(None, home) is None,
{
}

/// The exit code of a process: the one it left with, a hundred and twenty-eight and the number
/// of the signal that ended it, or a hundred and twenty-four where its time was up.
pub proof fn how_a_process_ended(code: i32, signal: i32)
    requires
        0 <= code < 256,
        0 < signal < 127,
    ensures
        exit_code_of(code, true) == 124,
        exit_code_of((code * 256) as i32, false) == code,
        exit_code_of(signal, false) == 128 + signal,
{
    let status = (code * 256) as i32;
    assert(status & 0x7f == 0 && (status >> 8) & 0xff == code) by (bit_vector)
        requires
            status == code * 256,
            0 <= code < 256,
    ;
    assert(signal & 0x7f == signal) by (bit_vector)
        requires
            0 < signal < 127,
    ;
}

/// What a process may do: read and run anything, and in workspace mode write below its root.
pub proof fn what_a_process_may_do(root: Seq<char>)
    ensures
        rules_of(LandlockFsMode::ReadOnly, root).len() == 1,
        rules_of(LandlockFsMode::ReadOnly, root)[0] == ("/"@, 0x1005u64),
        rules_of(LandlockFsMode::WorkspaceWrite, root).len() == 2,
        rules_of(LandlockFsMode::WorkspaceWrite, root)[0] == ("/"@, 0x1005u64),
        rules_of(LandlockFsMode::WorkspaceWrite, root)[1] == (root, 0x1fffu64),
{
    assert(0x1u64 | 0x4u64 | 0x1000u64 == 0x1005u64) by (bit_vector);
    assert(0x1005u64 | 0x2u64 | 0x8u64 | 0x10u64 | 0x20u64 | 0x40u64 | 0x80u64 | 0x100u64 | 0x200u64
        | 0x400u64 | 0x800u64 == 0x1fffu64) by (bit_vector);
}

/// How the mode of a process is set: by either of two names, or by none for the workspace.
pub proof fn how_a_mode_is_set(setting: Seq<char>)
    ensures
        landlock_mode_of(None) == Some(LandlockFsMode::WorkspaceWrite),
        landlock_mode_of(Some(setting)) == Some(LandlockFsMode::ReadOnly) <==> setting
            == "read-only"@ || setting == "ReadOnly"@,
        landlock_mode_of(Some(setting)) == Some(LandlockFsMode::WorkspaceWrite) <==> setting.len()
            == 0 || setting == "workspace-write"@ || setting == "WorkspaceWrite"@,
{
    reveal_strlit("read-only");
    reveal_strlit("ReadOnly");
    reveal_strlit("workspace-write");
    reveal_strlit("WorkspaceWrite");
    reveal_strlit("");
    assert("read-only"@.len() == 9);
    assert("ReadOnly"@.len() == 8);
    assert("workspace-write"@.len() == 15);
    assert("WorkspaceWrite"@.len() == 14);
    assert(""@.len() == 0);
    if setting.len() == 0 {
        assert(setting =~= ""@);
    }
}

/// A process that a signal ended and that left a core behind has the same code as one without,
/// and one whose end is not known has the code one.
pub proof fn other_ends_of_a_process(signal: i32)
    requires
        0 < signal < 127,
    ensures
        exit_code_of((signal + 128) as i32, false) == 128 + signal,
        exit_code_of(127, false) == 1,
{
    let status = (signal + 128) as i32;
    assert(status & 0x7f == signal) by (bit_vector)
        requires
            status == signal + 128,
            0 < signal < 127,
    ;
    assert(127i32 & 0x7f == 0x7f) by (bit_vector);
}

} // verus!
