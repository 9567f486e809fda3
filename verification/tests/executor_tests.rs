use mrx::executor::{
    execute_all, finished, launch, Arg, EnvVar, Launch, Outcome, ProcessSpec, Program, TaskEvent,
};
use mrx::operations::Operation;
use mrx::pool::{Pool, Step};
use std::path::PathBuf;

fn git_op(n: usize) -> Operation {
    Operation::Git { args: vec!["pull".to_string()], work_dir: PathBuf::from(format!("/srv/r{}", n)) }
}

fn exited(code: Option<i32>) -> Outcome {
    Outcome::Exited { stdout: "out".to_string(), stderr: "err".to_string(), code }
}

#[test]
fn launches() {
    assert_eq!(
        launch(&Operation::Skip { reason: "already exists".to_string() }),
        Launch::Skip { reason: "already exists".to_string() }
    );
    assert_eq!(
        launch(&Operation::NotCheckedOut),
        Launch::Skip { reason: "not checked out".to_string() }
    );
    assert_eq!(
        launch(&Operation::Git {
            args: vec!["status".to_string(), "--short".to_string()],
            work_dir: PathBuf::from("/srv/x")
        }),
        Launch::Run(ProcessSpec {
            program: Program::Git,
            args: vec![Arg::Text("status".to_string()), Arg::Text("--short".to_string())],
            work_dir: Some(PathBuf::from("/srv/x")),
            no_prompt: true,
            no_pager: true,
            make_parent_of: None,
        })
    );
    assert_eq!(
        launch(&Operation::Clone { url: "u".to_string(), dest: PathBuf::from("/srv/new/x") }),
        Launch::Run(ProcessSpec {
            program: Program::Git,
            args: vec![
                Arg::Text("clone".to_string()),
                Arg::Text("u".to_string()),
                Arg::Path(PathBuf::from("/srv/new/x"))
            ],
            work_dir: None,
            no_prompt: true,
            no_pager: false,
            make_parent_of: Some(PathBuf::from("/srv/new/x")),
        })
    );
    assert_eq!(
        launch(&Operation::Shell { cmd: "make all".to_string(), work_dir: PathBuf::from("/srv/x") }),
        Launch::Run(ProcessSpec {
            program: Program::Shell,
            args: vec![Arg::Text("-c".to_string()), Arg::Text("make all".to_string())],
            work_dir: Some(PathBuf::from("/srv/x")),
            no_prompt: false,
            no_pager: false,
            make_parent_of: None,
        })
    );
}

#[test]
fn outcomes_become_finished_events() {
    assert_eq!(
        finished(4, exited(Some(0))),
        TaskEvent::Finished {
            index: 4,
            stdout: "out".to_string(),
            stderr: "err".to_string(),
            exit_code: 0
        }
    );
    assert_eq!(
        finished(4, exited(Some(-9))),
        TaskEvent::Finished {
            index: 4,
            stdout: "out".to_string(),
            stderr: "err".to_string(),
            exit_code: -9
        }
    );
    assert_eq!(
        finished(0, exited(None)),
        TaskEvent::Finished {
            index: 0,
            stdout: "out".to_string(),
            stderr: "err".to_string(),
            exit_code: 1
        }
    );
    assert_eq!(
        finished(2, Outcome::LaunchFailed { error: "No such file or directory".to_string() }),
        TaskEvent::Finished {
            index: 2,
            stdout: String::new(),
            stderr: "failed to execute: No such file or directory".to_string(),
            exit_code: 1
        }
    );
    assert_eq!(finished(7, exited(Some(1))).index(), 7);
}

/// Takes steps until the pool waits or is done; returns the last step.
fn drain(pool: &mut Pool, events: &mut Vec<TaskEvent>) -> Step {
    loop {
        match pool.next_step() {
            Step::Emit(event) => events.push(event),
            Step::Start { index } => events.push(TaskEvent::Started { index }),
            last => return last,
        }
    }
}

fn outstanding(events: &[TaskEvent]) -> usize {
    let started = events.iter().filter(|e| matches!(e, TaskEvent::Started { .. })).count();
    let finished = events.iter().filter(|e| matches!(e, TaskEvent::Finished { .. })).count();
    started - finished
}

#[test]
fn ten_operations_with_three_slots() {
    let mut pool = execute_all((0..10).map(git_op).collect(), 3);
    let mut events = Vec::new();
    let mut running: Vec<usize> = Vec::new();
    let mut seen = 0;
    loop {
        let last = drain(&mut pool, &mut events);
        for k in 0..events.len() {
            assert!(outstanding(&events[..=k]) <= 3);
        }
        for event in &events[seen..] {
            if let TaskEvent::Started { index } = event {
                running.push(*index);
            }
        }
        seen = events.len();
        assert_eq!(pool.running_count(), running.len());
        if last == Step::Done {
            break;
        }
        assert_eq!(last, Step::Wait);
        assert!(running.len() <= 3 && !running.is_empty());
        // the one started last is over first
        let index = running.pop().unwrap();
        let event = pool.complete(index, exited(Some(0))).unwrap();
        assert_eq!(event.index(), index);
        events.push(event);
        seen = events.len();
    }
    assert_eq!(events.len(), 20);
    assert!(running.is_empty());
    for i in 0..10 {
        let about: Vec<&TaskEvent> = events.iter().filter(|e| e.index() == i).collect();
        assert_eq!(about.len(), 2);
        assert_eq!(*about[0], TaskEvent::Started { index: i });
        assert!(matches!(about[1], TaskEvent::Finished { .. }));
    }
    let starts: Vec<usize> = events
        .iter()
        .filter_map(|e| match e {
            TaskEvent::Started { index } => Some(*index),
            _ => None,
        })
        .collect();
    assert_eq!(starts, (0..10).collect::<Vec<usize>>());
}

#[test]
fn the_first_three_start_at_once_and_the_fourth_waits() {
    let mut pool = execute_all((0..10).map(git_op).collect(), 3);
    assert_eq!(pool.next_step(), Step::Start { index: 0 });
    assert_eq!(pool.next_step(), Step::Start { index: 1 });
    assert_eq!(pool.next_step(), Step::Start { index: 2 });
    assert_eq!(pool.next_step(), Step::Wait);
    assert_eq!(pool.next_step(), Step::Wait);
    assert_eq!(pool.running_count(), 3);
    assert!(pool.complete(1, exited(Some(0))).is_some());
    assert_eq!(pool.running_count(), 2);
    assert_eq!(pool.next_step(), Step::Start { index: 3 });
    assert_eq!(pool.next_step(), Step::Wait);
}

#[test]
fn what_runs_nothing_is_reported_first_and_takes_no_slot() {
    let ops = vec![
        git_op(0),
        Operation::Skip { reason: "already exists".to_string() },
        git_op(2),
        Operation::NotCheckedOut,
    ];
    let mut pool = execute_all(ops, 1);
    assert_eq!(pool.len(), 4);
    assert_eq!(
        pool.next_step(),
        Step::Emit(TaskEvent::Skipped { index: 1, reason: "already exists".to_string() })
    );
    assert_eq!(
        pool.next_step(),
        Step::Emit(TaskEvent::Skipped { index: 3, reason: "not checked out".to_string() })
    );
    assert_eq!(pool.running_count(), 0);
    assert_eq!(pool.next_step(), Step::Start { index: 0 });
    assert_eq!(pool.next_step(), Step::Wait);
    assert!(pool.complete(0, exited(None)).is_some());
    assert_eq!(pool.next_step(), Step::Start { index: 2 });
    assert!(pool.complete(2, Outcome::LaunchFailed { error: "e".to_string() }).is_some());
    assert_eq!(pool.next_step(), Step::Done);
    assert_eq!(pool.next_step(), Step::Done);
}

#[test]
fn reports_about_what_is_not_running_are_dropped() {
    let mut pool = execute_all(vec![git_op(0), Operation::NotCheckedOut, git_op(2)], 2);
    assert_eq!(pool.complete(0, exited(Some(0))), None);
    assert_eq!(pool.complete(9, exited(Some(0))), None);
    drain(&mut pool, &mut Vec::new());
    assert_eq!(pool.complete(1, exited(Some(0))), None);
    assert!(pool.complete(0, exited(Some(0))).is_some());
    assert_eq!(pool.complete(0, exited(Some(0))), None);
    assert_eq!(pool.running_count(), 1);
}

#[test]
fn processes_of_the_pool() {
    let pool = execute_all(vec![git_op(0), Operation::NotCheckedOut], 2);
    assert_eq!(pool.process_at(0).map(|p| p.program), Some(Program::Git));
    assert_eq!(pool.process_at(1), None);
    assert_eq!(pool.process_at(2), None);
    assert_eq!(*pool.launch_at(1), Launch::Skip { reason: "not checked out".to_string() });
}

#[test]
fn a_pool_without_slots_starts_nothing() {
    let mut pool = execute_all(vec![Operation::NotCheckedOut, git_op(1)], 0);
    assert!(matches!(pool.next_step(), Step::Emit(_)));
    assert_eq!(pool.next_step(), Step::Wait);
    assert_eq!(pool.running_count(), 0);
}

#[test]
fn an_empty_pool_is_done() {
    let mut pool = execute_all(Vec::new(), 3);
    assert_eq!(pool.next_step(), Step::Done);
}

fn process_of(op: &Operation) -> ProcessSpec {
    match launch(op) {
        Launch::Run(spec) => spec,
        Launch::Skip { reason } => panic!("skipped: {}", reason),
    }
}

fn setting(name: &str, value: &str) -> EnvVar {
    EnvVar { name: name.to_string(), value: value.to_string() }
}

#[test]
fn programs_and_their_environment() {
    let git = process_of(&git_op(0));
    assert_eq!(git.program_name(), "git");
    assert_eq!(
        git.environment(),
        vec![setting("GIT_TERMINAL_PROMPT", "0"), setting("GIT_PAGER", "cat")]
    );
    let clone =
        process_of(&Operation::Clone { url: "u".to_string(), dest: PathBuf::from("/srv/x") });
    assert_eq!(clone.program_name(), "git");
    assert_eq!(clone.environment(), vec![setting("GIT_TERMINAL_PROMPT", "0")]);
    let shell =
        process_of(&Operation::Shell { cmd: "ls".to_string(), work_dir: PathBuf::from("/srv/x") });
    assert_eq!(shell.program_name(), "sh");
    assert_eq!(shell.environment(), Vec::new());
}
