use mrx::cli::{
    base_dir_from, job_limit, max_jobs, resolve_base_dir, resolve_config_path, Cli, Command,
};
use mrx::config::Repo;
use mrx::operations::{plan, plan_all, Operation};
use std::path::PathBuf;

fn every_command() -> Vec<Command> {
    vec![
        Command::Update,
        Command::Pull,
        Command::Status,
        Command::Diff,
        Command::Push,
        Command::Fetch,
        Command::Checkout,
        Command::Co,
        Command::Run { cmd: vec!["make".to_string(), "-j4".to_string(), "all".to_string()] },
        Command::List,
        Command::Ls,
    ]
}

fn cli(command: Command) -> Cli {
    Cli {
        command,
        verbose: false,
        directory: None,
        config: None,
        jobs: None,
        no_recurse: false,
        force: false,
    }
}

fn repo(url: Option<&str>) -> Repo {
    Repo {
        name: "x".to_string(),
        path: PathBuf::from("/srv/work/x"),
        clone_url: url.map(|u| u.to_string()),
    }
}

fn git(args: &[&str]) -> Operation {
    Operation::Git {
        args: args.iter().map(|a| a.to_string()).collect(),
        work_dir: PathBuf::from("/srv/work/x"),
    }
}

#[test]
fn display_names() {
    let names: Vec<&str> = every_command().iter().map(|c| c.display_name()).collect();
    assert_eq!(
        names,
        vec![
            "update", "update", "status", "diff", "push", "fetch", "checkout", "checkout", "run",
            "list", "list"
        ]
    );
}

#[test]
fn only_the_listing_commands_list() {
    let lists: Vec<bool> = every_command().iter().map(|c| c.is_list()).collect();
    assert_eq!(
        lists,
        vec![false, false, false, false, false, false, false, false, false, true, true]
    );
}

#[test]
fn job_limit_is_the_smaller_of_processors_and_request() {
    assert_eq!(job_limit(None, 4), 4);
    assert_eq!(job_limit(None, 8), 8);
    assert_eq!(job_limit(None, 64), 8);
    assert_eq!(job_limit(Some(3), 16), 3);
    assert_eq!(job_limit(Some(32), 16), 16);
    assert_eq!(job_limit(Some(0), 16), 0);
    assert_eq!(job_limit(Some(1), 1), 1);
}

#[test]
fn max_jobs_never_exceeds_the_request() {
    let mut options = cli(Command::Status);
    assert!(1 <= max_jobs(&options) && max_jobs(&options) <= 8);
    options.jobs = Some(2);
    assert!(1 <= max_jobs(&options) && max_jobs(&options) <= 2);
    options.jobs = Some(1);
    assert_eq!(max_jobs(&options), 1);
    options.jobs = Some(0);
    assert_eq!(max_jobs(&options), 0);
}

#[test]
fn base_directory() {
    let mut options = cli(Command::Status);
    let config = PathBuf::from("/home/me/.mrconfig");
    assert_eq!(resolve_base_dir(&options, &config), Some(PathBuf::from("/home/me")));
    assert_eq!(resolve_base_dir(&options, &PathBuf::from("/")), None);
    options.directory = Some(PathBuf::from("/srv"));
    assert_eq!(resolve_base_dir(&options, &config), Some(PathBuf::from("/srv")));
    assert_eq!(resolve_base_dir(&options, &PathBuf::from("/")), Some(PathBuf::from("/srv")));
    assert_eq!(base_dir_from(&None, None), None);
    assert_eq!(
        base_dir_from(&Some(PathBuf::from("/a")), Some(PathBuf::from("/b"))),
        Some(PathBuf::from("/a"))
    );
}

#[test]
fn configuration_path() {
    let mut options = cli(Command::Status);
    assert_eq!(
        resolve_config_path(&options, Some(PathBuf::from("/home/me"))),
        Some(PathBuf::from("/home/me/.mrconfig"))
    );
    assert_eq!(resolve_config_path(&options, None), None);
    options.config = Some(PathBuf::from("/etc/mr"));
    assert_eq!(resolve_config_path(&options, None), Some(PathBuf::from("/etc/mr")));
    assert_eq!(
        resolve_config_path(&options, Some(PathBuf::from("/home/me"))),
        Some(PathBuf::from("/etc/mr"))
    );
}

#[test]
fn plans_for_a_target_that_is_there() {
    let r = repo(Some("url"));
    assert_eq!(plan(&Command::Update, &r, true), git(&["pull"]));
    assert_eq!(plan(&Command::Pull, &r, true), git(&["pull"]));
    assert_eq!(plan(&Command::Status, &r, true), git(&["status", "--short"]));
    assert_eq!(plan(&Command::Diff, &r, true), git(&["diff", "--no-color"]));
    assert_eq!(plan(&Command::Push, &r, true), git(&["push"]));
    assert_eq!(plan(&Command::Fetch, &r, true), git(&["fetch"]));
    assert_eq!(
        plan(&Command::Checkout, &r, true),
        Operation::Skip { reason: "already exists".to_string() }
    );
    assert_eq!(
        plan(&Command::Co, &r, true),
        Operation::Skip { reason: "already exists".to_string() }
    );
    assert_eq!(
        plan(&every_command()[8], &r, true),
        Operation::Shell { cmd: "make -j4 all".to_string(), work_dir: PathBuf::from("/srv/work/x") }
    );
}

#[test]
fn plans_for_a_target_that_is_missing() {
    let with_url = repo(Some("git@host:x.git"));
    let without = repo(None);
    let clone =
        Operation::Clone { url: "git@host:x.git".to_string(), dest: PathBuf::from("/srv/work/x") };
    assert_eq!(plan(&Command::Update, &with_url, false), clone);
    assert_eq!(plan(&Command::Pull, &without, false), Operation::NotCheckedOut);
    assert_eq!(plan(&Command::Checkout, &with_url, false), clone);
    assert_eq!(
        plan(&Command::Co, &without, false),
        Operation::Skip { reason: "no clone URL".to_string() }
    );
    for command in [Command::Status, Command::Diff, Command::Push, Command::Fetch] {
        assert_eq!(plan(&command, &with_url, false), Operation::NotCheckedOut);
    }
    assert_eq!(plan(&every_command()[8], &with_url, false), Operation::NotCheckedOut);
}

#[test]
fn an_empty_command_line_is_an_empty_shell_command() {
    let run = Command::Run { cmd: Vec::new() };
    assert_eq!(
        plan(&run, &repo(None), true),
        Operation::Shell { cmd: String::new(), work_dir: PathBuf::from("/srv/work/x") }
    );
}

#[test]
fn plans_for_every_target() {
    let repos = vec![repo(None), repo(Some("u"))];
    let ops = plan_all(&Command::Update, &repos, &vec![true, false]);
    assert_eq!(
        ops,
        vec![
            git(&["pull"]),
            Operation::Clone { url: "u".to_string(), dest: PathBuf::from("/srv/work/x") }
        ]
    );
}
