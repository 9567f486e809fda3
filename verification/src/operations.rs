//! What is to be done for one target.

use crate::cli::Command;
use crate::config::{Repo, RepoView};
use crate::text::{chars_of, join, push_all, push_str, rows, string_of};
use std::path::PathBuf;
use vstd::prelude::*;

verus! {

/// The action planned for one target.
#[derive(Debug, Clone, PartialEq)]
pub enum Operation {
    /// Run git with these arguments in the target's directory.
    Git { args: Vec<String>, work_dir: PathBuf },
    /// Clone a target that is not there yet.
    Clone { url: String, dest: PathBuf },
    /// Run a shell command in the target's directory.
    Shell { cmd: String, work_dir: PathBuf },
    /// Nothing to do, and why.
    Skip { reason: String },
    /// The target is not there and cannot be cloned.
    NotCheckedOut,
}

/// An operation as contracts see it.
pub enum OperationView {
    Git { args: Seq<Seq<char>>, work_dir: PathBuf },
    Clone { url: Seq<char>, dest: PathBuf },
    Shell { cmd: Seq<char>, work_dir: PathBuf },
    Skip { reason: Seq<char> },
    NotCheckedOut,
}

/// The views of a sequence of strings.
pub open spec fn texts(v: Seq<String>) -> Seq<Seq<char>> {
    Seq::new(v.len(), |i: int| v[i]@)
}

impl View for Operation {
    type V = OperationView;

    open spec fn view(&self) -> OperationView {
        match self {
            Operation::Git { args, work_dir } => OperationView::Git {
                args: texts(args@),
                work_dir: *work_dir,
            },
            Operation::Clone { url, dest } => OperationView::Clone { url: url@, dest: *dest },
            Operation::Shell { cmd, work_dir } => OperationView::Shell {
                cmd: cmd@,
                work_dir: *work_dir,
            },
            Operation::Skip { reason } => OperationView::Skip { reason: reason@ },
            Operation::NotCheckedOut => OperationView::NotCheckedOut,
        }
    }
}

impl OperationView {
    /// Whether the operation runs a process, and so needs a slot.
    pub open spec fn runs(self) -> bool {
        self is Git || self is Clone || self is Shell
    }
}

/// The git arguments of a command that runs git in an existing target.
pub open spec fn git_args(command: Command) -> Seq<Seq<char>> {
    match command {
        Command::Update | Command::Pull => seq!["pull"@],
        Command::Status => seq!["status"@, "--short"@],
        Command::Diff => seq!["diff"@, "--no-color"@],
        Command::Push => seq!["push"@],
        Command::Fetch => seq!["fetch"@],
        _ => Seq::empty(),
    }
}

/// A clone of the target when its address is known, else `otherwise`.
pub open spec fn clone_or(repo: RepoView, otherwise: OperationView) -> OperationView {
    match repo.clone_url {
        Some(url) => OperationView::Clone { url, dest: repo.path },
        None => otherwise,
    }
}

/// The operation that `command` means for `repo`, given whether the
/// target's directory exists. Pulling clones what is missing; checking out
/// skips what is there; everything else needs the target to be there.
pub open spec fn planned(command: Command, repo: RepoView, exists: bool) -> OperationView {
    match command {
        Command::Update | Command::Pull => if exists {
            OperationView::Git { args: git_args(command), work_dir: repo.path }
        } else {
            clone_or(repo, OperationView::NotCheckedOut)
        },
        Command::Status | Command::Diff | Command::Push | Command::Fetch => if exists {
            OperationView::Git { args: git_args(command), work_dir: repo.path }
        } else {
            OperationView::NotCheckedOut
        },
        Command::Checkout | Command::Co => if exists {
            OperationView::Skip { reason: "already exists"@ }
        } else {
            clone_or(repo, OperationView::Skip { reason: "no clone URL"@ })
        },
        Command::Run { cmd } => if exists {
            OperationView::Shell { cmd: join(texts(cmd@), " "@), work_dir: repo.path }
        } else {
            OperationView::NotCheckedOut
        },
        Command::List | Command::Ls => OperationView::NotCheckedOut,
    }
}

fn git_in(repo: &Repo, first: &str, second: Option<&str>) -> (op: Operation)
    ensures
        op@ == (OperationView::Git {
            args: match second {
                Some(s) => seq![first@, s@],
                None => seq![first@],
            },
            work_dir: repo.path,
        }),
{
    let mut args: Vec<String> = Vec::new();
    args.push(first.to_owned());
    match second {
        Some(s) => {
            args.push(s.to_owned());
            assert(texts(args@) =~= seq![first@, s@]);
        },
        None => {
            assert(texts(args@) =~= seq![first@]);
        },
    }
    Operation::Git { args, work_dir: repo.path.clone() }
}

fn clone_of(repo: &Repo, otherwise: Operation) -> (op: Operation)
    ensures
        op@ == clone_or(repo@, otherwise@),
{
    match &repo.clone_url {
        Some(url) => Operation::Clone { url: url.clone(), dest: repo.path.clone() },
        None => otherwise,
    }
}

fn command_line(cmd: &Vec<String>) -> (line: String)
    ensures
        line@ == join(texts(cmd@), " "@),
{
    let mut parts: Vec<Vec<char>> = Vec::new();
    let mut i: usize = 0;
    while i < cmd.len()
        invariant
            i <= cmd.len(),
            parts.len() == i,
            rows(parts@) == texts(cmd@).take(i as int),
        decreases cmd.len() - i,
    {
        let part = chars_of(cmd[i].as_str());
        proof {
            let before = rows(parts@);
            let after = rows(parts@.push(part));
            let goal = texts(cmd@).take(i + 1);
            assert(after.len() == i + 1 && goal.len() == i + 1);
            assert forall|k: int| 0 <= k < i + 1 implies after[k] == goal[k] by {
                if k < i {
                    assert(after[k] == parts@[k]@);
                    assert(before[k] == parts@[k]@);
                    assert(before[k] == texts(cmd@).take(i as int)[k]);
                } else {
                    assert(after[k] == part@);
                    assert(goal[k] == cmd@[k]@);
                }
            }
            assert(after =~= goal);
        }
        parts.push(part);
        i = i + 1;
    }
    assert(texts(cmd@).take(cmd.len() as int) =~= texts(cmd@));
    string_of(&crate::text::joined(&parts, " "))
}

/// Plans what `command` means for `repo`. `exists` tells whether the
/// target's directory is there. Listing plans nothing and is not accepted.
pub fn plan(command: &Command, repo: &Repo, exists: bool) -> (op: Operation)
    requires
        !command.lists(),
    ensures
        op@ == planned(*command, repo@, exists),
{
    match command {
        Command::Update | Command::Pull => {
            if exists {
                git_in(repo, "pull", None)
            } else {
                clone_of(repo, Operation::NotCheckedOut)
            }
        },
        Command::Status => {
            if exists {
                git_in(repo, "status", Some("--short"))
            } else {
                Operation::NotCheckedOut
            }
        },
        Command::Diff => {
            if exists {
                git_in(repo, "diff", Some("--no-color"))
            } else {
                Operation::NotCheckedOut
            }
        },
        Command::Push => {
            if exists {
                git_in(repo, "push", None)
            } else {
                Operation::NotCheckedOut
            }
        },
        Command::Fetch => {
            if exists {
                git_in(repo, "fetch", None)
            } else {
                Operation::NotCheckedOut
            }
        },
        Command::Checkout | Command::Co => {
            if exists {
                Operation::Skip { reason: "already exists".to_owned() }
            } else {
                clone_of(repo, Operation::Skip { reason: "no clone URL".to_owned() })
            }
        },
        Command::Run { cmd } => {
            if exists {
                Operation::Shell { cmd: command_line(cmd), work_dir: repo.path.clone() }
            } else {
                Operation::NotCheckedOut
            }
        },
        Command::List | Command::Ls => Operation::NotCheckedOut,
    }
}

/// Plans the operation of every target. `present[i]` tells whether the
/// directory of target `i` is there.
pub fn plan_all(command: &Command, repos: &Vec<Repo>, present: &Vec<bool>) -> (ops: Vec<Operation>)
    requires
        !command.lists(),
        present.len() == repos.len(),
    ensures
        ops.len() == repos.len(),
        forall|i: int|
            0 <= i < repos.len() ==> (#[trigger] ops@[i])@ == planned(
                *command,
                repos@[i]@,
                present@[i],
            ),
{
    let mut ops: Vec<Operation> = Vec::new();
    let mut i: usize = 0;
    while i < repos.len()
        invariant
            i <= repos.len(),
            present.len() == repos.len(),
            !command.lists(),
            ops.len() == i,
            forall|k: int|
                0 <= k < i ==> (#[trigger] ops@[k])@ == planned(*command, repos@[k]@, present@[k]),
        decreases repos.len() - i,
    {
        ops.push(plan(command, &repos[i], present[i]));
        i = i + 1;
    }
    ops
}

} // verus!
