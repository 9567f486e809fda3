//! The interactive dashboard: its state, its inputs and what they do.

pub mod event;
pub mod laws;
pub mod render;
pub mod spinner;
pub mod state;

use crate::cli::Command;
use crate::executor::{EventView, TaskEvent};
use crate::summarize::{summarize, summary};
use crate::text::{chars_of, push_str, string_of};
use event::{AppEvent, Key};
use state::{done_total, failed_total, tally_line, AppState, AppView, RepoStatus, StatusView};
use vstd::prelude::*;

verus! {

// ---------------------------------------------------------------------------
// Events from the executor
// ---------------------------------------------------------------------------

/// The status a target has once `event` was applied to it.
pub open spec fn status_after(event: EventView, command: Command) -> StatusView {
    match event {
        EventView::Started { .. } => StatusView::Running,
        EventView::Finished { stdout, stderr, exit_code, .. } => StatusView::Done {
            summary: summary(command, stdout, stderr, exit_code),
            stdout,
            stderr,
            exit_code,
        },
        EventView::Skipped { reason, .. } => StatusView::Skipped { reason },
    }
}

/// Whether `event` would take its target back: it reports a start, and the
/// target's operation is over.
pub open spec fn is_stale(view: AppView, event: EventView) -> bool {
    event is Started && view.statuses[event.index() as int].is_done()
}

/// The dashboard after `event`: the status of the event's target is
/// replaced, nothing else changes. A start reported for a target whose
/// operation is over changes nothing: no target goes back.
pub open spec fn applied(view: AppView, event: EventView, command: Command) -> AppView {
    if is_stale(view, event) {
        view
    } else {
        view.with_status(event.index() as int, status_after(event, command))
    }
}

/// Records what `event` says about its target. A finished operation gets
/// its one-line summary here and keeps its full output. A target whose
/// operation is over is never set back to running.
pub fn apply_event(state: &mut AppState, event: &TaskEvent, command: &Command)
    requires
        event@.index() < old(state)@.total(),
    ensures
        final(state)@ == applied(old(state)@, event@, *command),
{
    match event {
        TaskEvent::Started { index } => {
            if !state.status(*index).is_done() {
                state.set_status(*index, RepoStatus::Running);
            }
        },
        TaskEvent::Finished { index, stdout, stderr, exit_code } => {
            let summary = summarize(command, stdout.as_str(), stderr.as_str(), *exit_code);
            state.set_status(
                *index,
                RepoStatus::Done {
                    summary,
                    stdout: stdout.clone(),
                    stderr: stderr.clone(),
                    exit_code: *exit_code,
                },
            );
        },
        TaskEvent::Skipped { index, reason } => {
            state.set_status(*index, RepoStatus::Skipped { reason: reason.clone() });
        },
    }
}

// ---------------------------------------------------------------------------
// Input from the terminal
// ---------------------------------------------------------------------------

/// Whether the dashboard goes on after an input.
#[derive(Clone, Copy, Debug, PartialEq, Eq, Structural)]
pub enum Control {
    Continue,
    Quit,
}

/// Whether `input` ends the session in a dashboard that looks like `view`.
/// Control-C always does, `q` does in both modes.
pub open spec fn quits(view: AppView, input: AppEvent) -> bool {
    match input {
        AppEvent::Key(key, control) => (control && key == Key::Char('c')) || key == Key::Char('q'),
        AppEvent::Tick => false,
    }
}

/// The dashboard after `input`. While a target is expanded the arrow keys
/// scroll and Escape or Enter collapse; otherwise they move the cursor and
/// Enter expands. A tick advances the animation. Inputs that quit, and keys
/// without a meaning, change nothing.
pub open spec fn after_input(view: AppView, input: AppEvent) -> AppView {
    match input {
        AppEvent::Tick => view.advance_tick(),
        AppEvent::Key(key, control) => {
            if quits(view, input) {
                view
            } else if view.expanded is Some {
                match key {
                    Key::Esc | Key::Enter => view.collapse(),
                    Key::Up | Key::Char('k') => view.scroll_up(),
                    Key::Down | Key::Char('j') => view.scroll_down(view.expanded_lines()),
                    _ => view,
                }
            } else {
                match key {
                    Key::Up | Key::Char('k') => view.move_up(),
                    Key::Down | Key::Char('j') => view.move_down(),
                    Key::Enter => view.toggle_expand(),
                    Key::Home | Key::Char('g') => view.select_first(),
                    Key::End | Key::Char('G') => view.select_last(),
                    _ => view,
                }
            }
        },
    }
}

/// Reacts to one input and says whether the session goes on.
pub fn handle_input(state: &mut AppState, input: AppEvent) -> (control: Control)
    ensures
        final(state)@ == after_input(old(state)@, input),
        control == Control::Quit <==> quits(old(state)@, input),
{
    match input {
        AppEvent::Tick => {
            state.advance_tick();
            Control::Continue
        },
        AppEvent::Key(key, control) => {
            if control && key == Key::Char('c') {
                return Control::Quit;
            }
            let expanded = state.expanded();
            if expanded.is_some() {
                match key {
                    Key::Esc | Key::Enter => {
                        state.collapse();
                        Control::Continue
                    },
                    Key::Up | Key::Char('k') => {
                        state.scroll_up();
                        Control::Continue
                    },
                    Key::Down | Key::Char('j') => {
                        let max = state.expanded_line_count();
                        state.scroll_down(max);
                        Control::Continue
                    },
                    Key::Char('q') => Control::Quit,
                    _ => Control::Continue,
                }
            } else {
                match key {
                    Key::Char('q') => Control::Quit,
                    Key::Up | Key::Char('k') => {
                        state.move_up();
                        Control::Continue
                    },
                    Key::Down | Key::Char('j') => {
                        state.move_down();
                        Control::Continue
                    },
                    Key::Enter => {
                        state.toggle_expand();
                        Control::Continue
                    },
                    Key::Home | Key::Char('g') => {
                        state.select_first();
                        Control::Continue
                    },
                    Key::End | Key::Char('G') => {
                        state.select_last();
                        Control::Continue
                    },
                    _ => Control::Continue,
                }
            }
        },
    }
}

// ---------------------------------------------------------------------------
// The end of a session
// ---------------------------------------------------------------------------

/// The line printed when the session is over.
pub open spec fn report_line(view: AppView) -> Seq<char> {
    "mrx "@ + view.command_name + ": "@ + tally_line(
        done_total(view.statuses),
        view.total(),
        failed_total(view.statuses),
    )
}

/// The line to print when the session is over, and whether the run counts
/// as a success: it does unless some operation ended with a non-zero exit
/// code.
pub fn final_report(state: &AppState) -> (report: (String, bool))
    ensures
        report.0@ == report_line(state@),
        report.1 == (failed_total(state@.statuses) == 0),
{
    let failed = state.failed_count();
    let mut line = chars_of("mrx ");
    push_str(&mut line, state.command_name());
    push_str(&mut line, ": ");
    let tally = state.summary_line();
    push_str(&mut line, tally.as_str());
    assert(line@ =~= report_line(state@));
    (string_of(&line), failed == 0)
}

} // verus!
