//! The commands that can be fanned out over the targets, and the options
//! that go with them.

use crate::config::{join_path, parent_of, path_join, path_parent, path_units, units_of};
use std::path::PathBuf;
use vstd::prelude::*;

verus! {

/// What the user asked to do with every target.
#[derive(Clone, Debug)]
pub enum Command {
    /// Pull the latest changes, cloning what is missing.
    Update,
    /// Same as `Update`.
    Pull,
    /// Show the working tree status.
    Status,
    /// Show the differences.
    Diff,
    /// Push commits.
    Push,
    /// Fetch from the remotes.
    Fetch,
    /// Clone what is missing.
    Checkout,
    /// Same as `Checkout`.
    Co,
    /// Run an arbitrary command in every target.
    Run { cmd: Vec<String> },
    /// List the configured targets.
    List,
    /// Same as `List`.
    Ls,
}

impl Command {
    /// The name under which the command is shown; aliases share one name.
    pub open spec fn name(self) -> Seq<char> {
        match self {
            Command::Update | Command::Pull => "update"@,
            Command::Status => "status"@,
            Command::Diff => "diff"@,
            Command::Push => "push"@,
            Command::Fetch => "fetch"@,
            Command::Checkout | Command::Co => "checkout"@,
            Command::Run { .. } => "run"@,
            Command::List | Command::Ls => "list"@,
        }
    }

    /// Whether the command only lists the targets.
    pub open spec fn lists(self) -> bool {
        self is List || self is Ls
    }

    pub fn display_name(&self) -> (name: &'static str)
        ensures
            name@ == self.name(),
    {
        match self {
            Command::Update | Command::Pull => "update",
            Command::Status => "status",
            Command::Diff => "diff",
            Command::Push => "push",
            Command::Fetch => "fetch",
            Command::Checkout | Command::Co => "checkout",
            Command::Run { .. } => "run",
            Command::List | Command::Ls => "list",
        }
    }

    pub fn is_list(&self) -> (b: bool)
        ensures
            b == self.lists(),
    {
        match self {
            Command::List | Command::Ls => true,
            _ => false,
        }
    }
}

/// The options of one invocation.
#[derive(Clone, Debug)]
pub struct Cli {
    pub command: Command,
    /// Verbose output.
    pub verbose: bool,
    /// Base directory of the targets; the configuration's directory when
    /// missing.
    pub directory: Option<PathBuf>,
    /// The configuration; `.mrconfig` in the home directory when missing.
    pub config: Option<PathBuf>,
    /// Most operations to run at once.
    pub jobs: Option<usize>,
    /// Do not descend into subdirectories.
    pub no_recurse: bool,
    /// Force the operation.
    pub force: bool,
}

/// Slots used when the user asks for no number.
pub const DEFAULT_JOBS: usize = 8;

/// The number of slots: what the user asked for, or eight, but never more
/// than the machine has processors.
pub open spec fn job_limit_of(jobs: Option<usize>, cpus: usize) -> usize {
    let wanted = match jobs {
        Some(j) => j,
        None => DEFAULT_JOBS,
    };
    if cpus < wanted {
        cpus
    } else {
        wanted
    }
}

/// The number of slots for a machine with `cpus` processors.
pub fn job_limit(jobs: Option<usize>, cpus: usize) -> (n: usize)
    ensures
        n == job_limit_of(jobs, cpus),
{
    let wanted = match jobs {
        Some(j) => j,
        None => DEFAULT_JOBS,
    };
    if cpus < wanted {
        cpus
    } else {
        wanted
    }
}

/// `num_cpus::get`: the number of processors available to this process.
/// Its documentation promises that it is at least one; nothing else is
/// claimed of it.
pub assume_specification[ num_cpus::get ]() -> (cpus: usize)
    ensures
        cpus >= 1,
;

/// The number of slots on this machine: the smaller of the number of its
/// processors, which is at least one, and of what the user asked for, or
/// of eight when the user asked for nothing. So there is at least one slot
/// unless the user asked for none.
pub fn max_jobs(cli: &Cli) -> (n: usize)
    ensures
        exists|cpus: usize| cpus >= 1 && n == #[trigger] job_limit_of(cli.jobs, cpus),
        n <= match cli.jobs {
            Some(j) => j,
            None => DEFAULT_JOBS,
        },
        n >= 1 <==> cli.jobs != Some(0usize),
{
    let cpus = num_cpus::get();
    let n = job_limit(cli.jobs, cpus);
    assert(cpus >= 1 && n == job_limit_of(cli.jobs, cpus));
    n
}

/// `first` when there is one, else `fallback`.
pub open spec fn first_of(first: Option<PathBuf>, fallback: Option<PathBuf>) -> Option<PathBuf> {
    match first {
        Some(p) => Some(p),
        None => fallback,
    }
}

/// The base directory: the one given, else `config_parent`, the directory
/// of the configuration.
pub fn base_dir_from(directory: &Option<PathBuf>, config_parent: Option<PathBuf>) -> (dir: Option<
    PathBuf,
>)
    ensures
        dir == first_of(*directory, config_parent),
{
    match directory {
        Some(d) => Some(d.clone()),
        None => config_parent,
    }
}

/// The base directory of the targets: the one given on the command line,
/// else the directory that holds the configuration. There is none when
/// nothing was given and the configuration's path has no parent.
pub fn resolve_base_dir(cli: &Cli, config_path: &PathBuf) -> (dir: Option<PathBuf>)
    ensures
        cli.directory is Some ==> dir == cli.directory,
        cli.directory is None ==> units_of(dir) == path_parent(path_units(*config_path)),
{
    if cli.directory.is_some() {
        base_dir_from(&cli.directory, None)
    } else {
        base_dir_from(&cli.directory, parent_of(config_path))
    }
}

/// Name of the configuration in the home directory.
pub open spec fn default_config_name() -> Seq<char> {
    ".mrconfig"@
}

/// The configuration to read: the one given on the command line, else
/// `.mrconfig` adjoined to the home directory. There is none when neither
/// is to be had.
pub fn resolve_config_path(cli: &Cli, home: Option<PathBuf>) -> (path: Option<PathBuf>)
    ensures
        cli.config is Some ==> path == cli.config,
        cli.config is None ==> match home {
            Some(h) => units_of(path) == Some(path_join(path_units(h), default_config_name())),
            None => path is None,
        },
{
    match &cli.config {
        Some(p) => Some(p.clone()),
        None => match home {
            Some(h) => Some(join_path(&h, ".mrconfig")),
            None => None,
        },
    }
}

} // verus!
