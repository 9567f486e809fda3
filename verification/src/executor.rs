//! Running the planned operations with bounded parallelism.
//!
//! The pool decides; its caller does the work. The caller asks the pool for
//! the next step, emits the events and starts the processes that the steps
//! name, and reports back every process that is over. The pool hands out no
//! more slots than its cap, and skips what cannot run without taking a slot.

use crate::operations::{texts, Operation, OperationView};
use crate::pool::Pool;
use crate::text::{chars_of, push_str, string_of};
use std::path::PathBuf;
use vstd::prelude::*;

verus! {

/// A step in the life of one operation, tagged with the position of its
/// target in the target list.
#[derive(Debug, Clone, PartialEq)]
pub enum TaskEvent {
    /// The operation got a slot and its process is being started.
    Started { index: usize },
    /// The process is over, or could not be started.
    Finished { index: usize, stdout: String, stderr: String, exit_code: i32 },
    /// Nothing was run for this target.
    Skipped { index: usize, reason: String },
}

/// An event as contracts see it.
pub enum EventView {
    Started { index: usize },
    Finished { index: usize, stdout: Seq<char>, stderr: Seq<char>, exit_code: i32 },
    Skipped { index: usize, reason: Seq<char> },
}

impl EventView {
    /// The target the event is about.
    pub open spec fn index(self) -> usize {
        match self {
            EventView::Started { index } => index,
            EventView::Finished { index, .. } => index,
            EventView::Skipped { index, .. } => index,
        }
    }

    /// Whether the event ends the life of its operation.
    pub open spec fn is_terminal(self) -> bool {
        !(self is Started)
    }
}

impl View for TaskEvent {
    type V = EventView;

    open spec fn view(&self) -> EventView {
        match self {
            TaskEvent::Started { index } => EventView::Started { index: *index },
            TaskEvent::Finished { index, stdout, stderr, exit_code } => EventView::Finished {
                index: *index,
                stdout: stdout@,
                stderr: stderr@,
                exit_code: *exit_code,
            },
            TaskEvent::Skipped { index, reason } => EventView::Skipped {
                index: *index,
                reason: reason@,
            },
        }
    }
}

impl TaskEvent {
    /// The target the event is about.
    pub fn index(&self) -> (i: usize)
        ensures
            i == self@.index(),
    {
        match self {
            TaskEvent::Started { index } => *index,
            TaskEvent::Finished { index, .. } => *index,
            TaskEvent::Skipped { index, .. } => *index,
        }
    }
}

// ---------------------------------------------------------------------------
// What to run
// ---------------------------------------------------------------------------

/// An argument of a process: a text, or a location as the system spells it.
#[derive(Debug, Clone, PartialEq)]
pub enum Arg {
    Text(String),
    Path(PathBuf),
}

/// An argument as contracts see it.
pub enum ArgView {
    Text(Seq<char>),
    Path(PathBuf),
}

impl View for Arg {
    type V = ArgView;

    open spec fn view(&self) -> ArgView {
        match self {
            Arg::Text(t) => ArgView::Text(t@),
            Arg::Path(p) => ArgView::Path(*p),
        }
    }
}

/// The views of a sequence of arguments.
pub open spec fn arg_views(s: Seq<Arg>) -> Seq<ArgView> {
    Seq::new(s.len(), |i: int| s[i]@)
}

/// Which program an operation runs.
#[derive(Debug, Clone, Copy, PartialEq, Eq, Structural)]
pub enum Program {
    Git,
    Shell,
}

/// A process to start: the program, its arguments, the directory to run
/// it in, whether git must be kept from prompting and from paging, and the
/// location whose parent directory has to be there first.
#[derive(Debug, Clone, PartialEq)]
pub struct ProcessSpec {
    pub program: Program,
    pub args: Vec<Arg>,
    pub work_dir: Option<PathBuf>,
    pub no_prompt: bool,
    pub no_pager: bool,
    pub make_parent_of: Option<PathBuf>,
}

/// One setting of a process's environment: a variable and its value.
#[derive(Debug, Clone, PartialEq)]
pub struct EnvVar {
    pub name: String,
    pub value: String,
}

/// A setting of the environment as contracts see it.
pub struct EnvView {
    pub name: Seq<char>,
    pub value: Seq<char>,
}

impl View for EnvVar {
    type V = EnvView;

    open spec fn view(&self) -> EnvView {
        EnvView { name: self.name@, value: self.value@ }
    }
}

/// The views of a sequence of settings.
pub open spec fn env_views(s: Seq<EnvVar>) -> Seq<EnvView> {
    Seq::new(s.len(), |i: int| s[i]@)
}

/// The name under which a program is started.
pub open spec fn program_name(program: Program) -> Seq<char> {
    match program {
        Program::Git => "git"@,
        Program::Shell => "sh"@,
    }
}

/// The setting that keeps git from asking on the terminal.
pub open spec fn no_prompt_setting() -> EnvView {
    EnvView { name: "GIT_TERMINAL_PROMPT"@, value: "0"@ }
}

/// The setting that keeps git from paging its output.
pub open spec fn no_pager_setting() -> EnvView {
    EnvView { name: "GIT_PAGER"@, value: "cat"@ }
}

/// A process to start, as contracts see it.
pub struct ProcessView {
    pub program: Program,
    pub args: Seq<ArgView>,
    pub work_dir: Option<PathBuf>,
    pub no_prompt: bool,
    pub no_pager: bool,
    pub make_parent_of: Option<PathBuf>,
}

impl View for ProcessSpec {
    type V = ProcessView;

    open spec fn view(&self) -> ProcessView {
        ProcessView {
            program: self.program,
            args: arg_views(self.args@),
            work_dir: self.work_dir,
            no_prompt: self.no_prompt,
            no_pager: self.no_pager,
            make_parent_of: self.make_parent_of,
        }
    }
}

impl ProcessView {
    /// What is set in the environment of the process: first what keeps
    /// git from prompting, then what keeps it from paging, each where it is
    /// asked for.
    pub open spec fn environment(self) -> Seq<EnvView> {
        (if self.no_prompt {
            seq![no_prompt_setting()]
        } else {
            Seq::empty()
        }) + (if self.no_pager {
            seq![no_pager_setting()]
        } else {
            Seq::empty()
        })
    }
}

impl ProcessSpec {
    /// The name under which the program is started.
    pub fn program_name(&self) -> (name: &'static str)
        ensures
            name@ == program_name(self.program),
    {
        match self.program {
            Program::Git => "git",
            Program::Shell => "sh",
        }
    }

    /// What is to be set in the environment of the process.
    pub fn environment(&self) -> (env: Vec<EnvVar>)
        ensures
            env_views(env@) == self@.environment(),
    {
        let mut env: Vec<EnvVar> = Vec::new();
        if self.no_prompt {
            env.push(EnvVar { name: "GIT_TERMINAL_PROMPT".to_owned(), value: "0".to_owned() });
        }
        if self.no_pager {
            env.push(EnvVar { name: "GIT_PAGER".to_owned(), value: "cat".to_owned() });
        }
        assert(env_views(env@) =~= self@.environment());
        env
    }
}

/// What the executor does for one operation.
#[derive(Debug, Clone, PartialEq)]
pub enum Launch {
    /// Nothing is run; the reason is reported.
    Skip { reason: String },
    /// A process is run once a slot is free.
    Run(ProcessSpec),
}

/// A launch as contracts see it.
pub enum LaunchView {
    Skip { reason: Seq<char> },
    Run(ProcessView),
}

impl View for Launch {
    type V = LaunchView;

    open spec fn view(&self) -> LaunchView {
        match self {
            Launch::Skip { reason } => LaunchView::Skip { reason: reason@ },
            Launch::Run(spec) => LaunchView::Run(spec@),
        }
    }
}

/// The views of a sequence of launches.
pub open spec fn launch_views(s: Seq<Launch>) -> Seq<LaunchView> {
    Seq::new(s.len(), |i: int| s[i]@)
}

/// The arguments `args` as texts.
pub open spec fn text_args(args: Seq<Seq<char>>) -> Seq<ArgView> {
    Seq::new(args.len(), |i: int| ArgView::Text(args[i]))
}

/// What the executor does for an operation. Git runs in the target's
/// directory and may neither prompt nor page; a clone may not prompt and
/// needs the parent of its destination; a shell command is handed to `sh -c`
/// in the target's directory. What is skipped, or not checked out, runs
/// nothing.
pub open spec fn launch_of(op: OperationView) -> LaunchView {
    match op {
        OperationView::Skip { reason } => LaunchView::Skip { reason },
        OperationView::NotCheckedOut => LaunchView::Skip { reason: "not checked out"@ },
        OperationView::Git { args, work_dir } => LaunchView::Run(
            ProcessView {
                program: Program::Git,
                args: text_args(args),
                work_dir: Some(work_dir),
                no_prompt: true,
                no_pager: true,
                make_parent_of: None,
            },
        ),
        OperationView::Clone { url, dest } => LaunchView::Run(
            ProcessView {
                program: Program::Git,
                args: seq![ArgView::Text("clone"@), ArgView::Text(url), ArgView::Path(dest)],
                work_dir: None,
                no_prompt: true,
                no_pager: false,
                make_parent_of: Some(dest),
            },
        ),
        OperationView::Shell { cmd, work_dir } => LaunchView::Run(
            ProcessView {
                program: Program::Shell,
                args: seq![ArgView::Text("-c"@), ArgView::Text(cmd)],
                work_dir: Some(work_dir),
                no_prompt: false,
                no_pager: false,
                make_parent_of: None,
            },
        ),
    }
}

/// Says what the executor does for `op`.
pub fn launch(op: &Operation) -> (l: Launch)
    ensures
        l@ == launch_of(op@),
{
    match op {
        Operation::Skip { reason } => Launch::Skip { reason: reason.clone() },
        Operation::NotCheckedOut => Launch::Skip { reason: "not checked out".to_owned() },
        Operation::Git { args, work_dir } => {
            let mut list: Vec<Arg> = Vec::new();
            let mut i: usize = 0;
            while i < args.len()
                invariant
                    i <= args.len(),
                    list.len() == i,
                    forall|k: int| 0 <= k < i ==> (#[trigger] list@[k])@ == ArgView::Text(args@[k]@),
                decreases args.len() - i,
            {
                list.push(Arg::Text(args[i].clone()));
                i = i + 1;
            }
            assert(arg_views(list@) =~= text_args(texts(args@)));
            Launch::Run(
                ProcessSpec {
                    program: Program::Git,
                    args: list,
                    work_dir: Some(work_dir.clone()),
                    no_prompt: true,
                    no_pager: true,
                    make_parent_of: None,
                },
            )
        },
        Operation::Clone { url, dest } => {
            let mut list: Vec<Arg> = Vec::new();
            list.push(Arg::Text("clone".to_owned()));
            list.push(Arg::Text(url.clone()));
            list.push(Arg::Path(dest.clone()));
            assert(arg_views(list@) =~= seq![
                ArgView::Text("clone"@),
                ArgView::Text(url@),
                ArgView::Path(*dest),
            ]);
            Launch::Run(
                ProcessSpec {
                    program: Program::Git,
                    args: list,
                    work_dir: None,
                    no_prompt: true,
                    no_pager: false,
                    make_parent_of: Some(dest.clone()),
                },
            )
        },
        Operation::Shell { cmd, work_dir } => {
            let mut list: Vec<Arg> = Vec::new();
            list.push(Arg::Text("-c".to_owned()));
            list.push(Arg::Text(cmd.clone()));
            assert(arg_views(list@) =~= seq![ArgView::Text("-c"@), ArgView::Text(cmd@)]);
            Launch::Run(
                ProcessSpec {
                    program: Program::Shell,
                    args: list,
                    work_dir: Some(work_dir.clone()),
                    no_prompt: false,
                    no_pager: false,
                    make_parent_of: None,
                },
            )
        },
    }
}

// ---------------------------------------------------------------------------
// What came of it
// ---------------------------------------------------------------------------

/// Exit code reported when the process gave none.
pub const FAILURE_CODE: i32 = 1;

/// How a process ended.
#[derive(Debug, Clone, PartialEq)]
pub enum Outcome {
    /// It ran; `code` is missing when it was ended from outside.
    Exited { stdout: String, stderr: String, code: Option<i32> },
    /// It could not be started.
    LaunchFailed { error: String },
}

/// An outcome as contracts see it.
pub enum OutcomeView {
    Exited { stdout: Seq<char>, stderr: Seq<char>, code: Option<i32> },
    LaunchFailed { error: Seq<char> },
}

impl View for Outcome {
    type V = OutcomeView;

    open spec fn view(&self) -> OutcomeView {
        match self {
            Outcome::Exited { stdout, stderr, code } => OutcomeView::Exited {
                stdout: stdout@,
                stderr: stderr@,
                code: *code,
            },
            Outcome::LaunchFailed { error } => OutcomeView::LaunchFailed { error: error@ },
        }
    }
}

/// The event that reports an outcome. A process without an exit code, and
/// one that could not be started, count as failed with code 1; the latter
/// has the reason as its error output.
pub open spec fn finished_event(index: usize, outcome: OutcomeView) -> EventView {
    match outcome {
        OutcomeView::Exited { stdout, stderr, code } => EventView::Finished {
            index,
            stdout,
            stderr,
            exit_code: match code {
                Some(c) => c,
                None => FAILURE_CODE,
            },
        },
        OutcomeView::LaunchFailed { error } => EventView::Finished {
            index,
            stdout: Seq::empty(),
            stderr: "failed to execute: "@ + error,
            exit_code: FAILURE_CODE,
        },
    }
}

/// Makes the event that reports the outcome of the operation at `index`.
pub fn finished(index: usize, outcome: Outcome) -> (event: TaskEvent)
    ensures
        event@ == finished_event(index, outcome@),
{
    match outcome {
        Outcome::Exited { stdout, stderr, code } => TaskEvent::Finished {
            index,
            stdout,
            stderr,
            exit_code: match code {
                Some(c) => c,
                None => FAILURE_CODE,
            },
        },
        Outcome::LaunchFailed { error } => {
            let mut text = chars_of("failed to execute: ");
            push_str(&mut text, error.as_str());
            TaskEvent::Finished {
                index,
                stdout: String::new(),
                stderr: string_of(&text),
                exit_code: FAILURE_CODE,
            }
        },
    }
}

// ---------------------------------------------------------------------------
// Getting started
// ---------------------------------------------------------------------------

/// Sets up the pool that runs `operations` with at most `max_jobs` at once.
/// Nothing has happened yet: every operation waits.
pub fn execute_all(operations: Vec<Operation>, max_jobs: usize) -> (pool: Pool)
    ensures
        pool.wf(),
        pool@.cap == max_jobs,
        pool@.len() == operations.len(),
        forall|i: int|
            0 <= i < operations.len() ==> #[trigger] pool@.launches[i] == launch_of(
                operations@[i]@,
            ),
        forall|i: int| 0 <= i < operations.len() ==> #[trigger] pool@.phases[i] is Waiting,
        pool@.history.len() == 0,
{
    let mut launches: Vec<Launch> = Vec::new();
    let mut i: usize = 0;
    while i < operations.len()
        invariant
            i <= operations.len(),
            launches.len() == i,
            forall|k: int| 0 <= k < i ==> (#[trigger] launches@[k])@ == launch_of(operations@[k]@),
        decreases operations.len() - i,
    {
        launches.push(launch(&operations[i]));
        i = i + 1;
    }
    Pool::new(launches, max_jobs)
}

} // verus!
