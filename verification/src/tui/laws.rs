//! Laws of the dashboard: what holds of its state whatever events and
//! inputs arrive.

use super::event::AppEvent;
use super::state::{done_total, failed_total, lemma_totals, AppView, StatusView};
use super::{after_input, applied, status_after};
use crate::cli::Command;
use crate::executor::EventView;
use crate::lines::{lemma_next_newline, lines, lines_from, next_newline};
use vstd::prelude::*;

verus! {

// ---------------------------------------------------------------------------
// Sequences of events
// ---------------------------------------------------------------------------

/// The dashboard after all of `events`, applied in order.
pub open spec fn applied_all(view: AppView, events: Seq<EventView>, command: Command) -> AppView
    decreases events.len(),
{
    if events.len() == 0 {
        view
    } else {
        applied(applied_all(view, events.drop_last(), command), events.last(), command)
    }
}

/// Whether every target is still pending.
pub open spec fn all_pending(view: AppView) -> bool {
    forall|i: int| 0 <= i < view.statuses.len() ==> #[trigger] view.statuses[i] is Pending
}

/// Whether every event is about one of `total` targets.
pub open spec fn in_bounds(events: Seq<EventView>, total: nat) -> bool {
    forall|k: int| 0 <= k < events.len() ==> (#[trigger] events[k]).index() < total
}

/// Whether some event is about the target at `i`.
pub open spec fn touches(events: Seq<EventView>, i: int) -> bool {
    exists|k: int| 0 <= k < events.len() && (#[trigger] events[k]).index() == i
}

/// Whether no target is reported as started after it was reported as over.
pub open spec fn starts_before_ends(events: Seq<EventView>) -> bool {
    forall|j: int, k: int|
        0 <= j < k < events.len() && (#[trigger] events[j]).is_terminal() && (
        #[trigger] events[k]) is Started ==> events[j].index() != events[k].index()
}

/// Events change statuses only, and leave one status for each target.
proof fn lemma_events_change_statuses_only(
    view: AppView,
    events: Seq<EventView>,
    command: Command,
)
    requires
        view.wf(),
        in_bounds(events, view.total()),
    ensures
        applied_all(view, events, command) == (AppView {
            statuses: applied_all(view, events, command).statuses,
            ..view
        }),
        applied_all(view, events, command).statuses.len() == view.statuses.len(),
        applied_all(view, events, command).wf(),
    decreases events.len(),
{
    if events.len() > 0 {
        let front = events.drop_last();
        assert forall|k: int| 0 <= k < front.len() implies (#[trigger] front[k]).index()
            < view.total() by {
            assert(front[k] == events[k]);
        }
        lemma_events_change_statuses_only(view, front, command);
        assert(events.last() == events[events.len() - 1]);
    }
}

/// No event takes a target back: the rank of every status stays or rises,
/// and a status that is over stays over.
pub proof fn law_event_never_sets_back(view: AppView, event: EventView, command: Command, i: int)
    requires
        view.wf(),
        event.index() < view.total(),
        0 <= i < view.total(),
    ensures
        view.statuses[i].rank() <= applied(view, event, command).statuses[i].rank(),
        view.statuses[i].is_done() ==> applied(view, event, command).statuses[i].is_done(),
{
}

/// After any events, a target has left the pending state exactly when some
/// event was about it.
pub proof fn law_touched_iff_not_pending(
    view: AppView,
    events: Seq<EventView>,
    command: Command,
    i: int,
)
    requires
        view.wf(),
        all_pending(view),
        in_bounds(events, view.total()),
        0 <= i < view.total(),
    ensures
        applied_all(view, events, command).statuses[i].rank() > 0 <==> touches(events, i),
    decreases events.len(),
{
    if events.len() == 0 {
        assert(view.statuses[i] is Pending);
    } else {
        let front = events.drop_last();
        let last = events.last();
        assert(last == events[events.len() - 1]);
        assert forall|k: int| 0 <= k < front.len() implies (#[trigger] front[k]).index()
            < view.total() by {
            assert(front[k] == events[k]);
        }
        law_touched_iff_not_pending(view, front, command, i);
        lemma_events_change_statuses_only(view, front, command);
        let before = applied_all(view, front, command);
        let after = applied(before, last, command);
        if last.index() == i {
            assert(after.statuses[i].rank() > 0);
            assert(touches(events, i));
        } else {
            assert(after.statuses[i] == before.statuses[i]);
            if touches(front, i) {
                let k = choose|k: int| 0 <= k < front.len() && (#[trigger] front[k]).index() == i;
                assert(events[k] == front[k]);
                assert(touches(events, i));
            }
            if touches(events, i) {
                let k = choose|k: int|
                    0 <= k < events.len() && (#[trigger] events[k]).index() == i;
                assert(k < front.len());
                assert(front[k] == events[k]);
                assert(touches(front, i));
            }
        }
    }
}

/// A target never moves backwards: over any stretch of any event sequence
/// the rank of its status does not drop, and once its operation is over it
/// stays over.
pub proof fn law_no_regress(
    view: AppView,
    events: Seq<EventView>,
    command: Command,
    a: int,
    b: int,
    i: int,
)
    requires
        view.wf(),
        in_bounds(events, view.total()),
        0 <= a <= b <= events.len(),
        0 <= i < view.total(),
    ensures
        applied_all(view, events.take(a), command).statuses[i].rank() <= applied_all(
            view,
            events.take(b),
            command,
        ).statuses[i].rank(),
        applied_all(view, events.take(a), command).statuses[i].is_done() ==> applied_all(
            view,
            events.take(b),
            command,
        ).statuses[i].is_done(),
    decreases b - a,
{
    if a < b {
        law_no_regress(view, events, command, a, b - 1, i);
        let shorter = events.take(b - 1);
        let longer = events.take(b);
        assert(longer.drop_last() =~= shorter);
        assert(longer.last() == events[b - 1]);
        assert forall|k: int| 0 <= k < shorter.len() implies (#[trigger] shorter[k]).index()
            < view.total() by {
            assert(shorter[k] == events[k]);
        }
        lemma_events_change_statuses_only(view, shorter, command);
        law_event_never_sets_back(applied_all(view, shorter, command), events[b - 1], command, i);
    }
}

/// Failures are among the finished and the finished among all, so that the
/// finished and the unfinished add up to the number of targets.
pub proof fn law_counts(view: AppView)
    requires
        view.wf(),
    ensures
        failed_total(view.statuses) <= done_total(view.statuses) <= view.total(),
        done_total(view.statuses) + (view.total() - done_total(view.statuses)) == view.total(),
{
    lemma_totals(view.statuses);
}

// ---------------------------------------------------------------------------
// Moving the cursor
// ---------------------------------------------------------------------------

/// A move of the cursor.
pub enum Move {
    Up,
    Down,
    First,
    Last,
}

/// The dashboard after one move of the cursor.
pub open spec fn moved(view: AppView, m: Move) -> AppView {
    match m {
        Move::Up => view.move_up(),
        Move::Down => view.move_down(),
        Move::First => view.select_first(),
        Move::Last => view.select_last(),
    }
}

/// The dashboard after a sequence of moves.
pub open spec fn moved_all(view: AppView, moves: Seq<Move>) -> AppView
    decreases moves.len(),
{
    if moves.len() == 0 {
        view
    } else {
        moved(moved_all(view, moves.drop_last()), moves.last())
    }
}

/// Whatever moves are made, the cursor stays on a target when there is one,
/// and nothing at all changes when there is none.
pub proof fn law_cursor_in_range(view: AppView, moves: Seq<Move>)
    requires
        view.wf(),
    ensures
        moved_all(view, moves).wf(),
        moved_all(view, moves) == (AppView { selected: moved_all(view, moves).selected, ..view }),
        view.total() >= 1 ==> 0 <= moved_all(view, moves).selected <= view.total() - 1,
        view.total() == 0 ==> moved_all(view, moves) == view,
    decreases moves.len(),
{
    if moves.len() > 0 {
        law_cursor_in_range(view, moves.drop_last());
    }
}

// ---------------------------------------------------------------------------
// Expanding and scrolling
// ---------------------------------------------------------------------------

/// Toggling resets the scroll offset every time. Toggling twice without
/// moving gives back the expansion there was when it was none or the target
/// under the cursor, and none otherwise; it touches nothing else.
pub proof fn law_double_toggle(view: AppView)
    requires
        view.wf(),
    ensures
        view.toggle_expand().wf(),
        view.toggle_expand().scroll_offset == 0,
        view.toggle_expand().toggle_expand() == (AppView {
            expanded: if view.expanded == Some(view.selected) {
                view.expanded
            } else {
                None
            },
            scroll_offset: 0,
            ..view
        }),
        view.expanded is None ==> view.toggle_expand().toggle_expand().expanded is None,
{
}

/// A text that is not empty has at least one line.
pub proof fn lemma_text_has_a_line(s: Seq<char>)
    requires
        s.len() > 0,
    ensures
        lines(s).len() >= 1,
{
    let k = next_newline(s, 0);
    if 0 <= k < s.len() {
        assert(lines(s) == seq![crate::lines::strip_cr(s.subrange(0, k))] + lines_from(s, k + 1));
    }
}

/// A text without a line feed that is not empty is one line.
pub proof fn lemma_single_line(s: Seq<char>)
    requires
        s.len() > 0,
        forall|j: int| 0 <= j < s.len() ==> s[j] != '\n',
    ensures
        lines(s).len() == 1,
{
    lemma_next_newline(s, 0, s.len() as int);
}

/// What is shown for an expanded target is never empty, and is a single
/// line while the operation is not over.
pub proof fn lemma_content_lines(status: StatusView)
    ensures
        lines(status.content()).len() >= 1,
        !status.is_done() ==> lines(status.content()).len() == 1,
{
    reveal_strlit("(no output)");
    reveal_strlit("(still running...)");
    reveal_strlit("(pending...)");
    reveal_strlit("(skipped: ");
    reveal_strlit(")");
    let c = status.content();
    assert(c.len() > 0);
    lemma_text_has_a_line(c);
    if !status.is_done() {
        lemma_single_line(c);
    }
}

/// No input takes the scroll offset out of the expanded text.
pub proof fn law_scroll_in_range(view: AppView, input: AppEvent)
    requires
        view.wf(),
        view.scroll_in_range(),
    ensures
        after_input(view, input).wf(),
        after_input(view, input).scroll_in_range(),
{
    let after = after_input(view, input);
    if after.expanded is Some {
        lemma_content_lines(after.statuses[after.expanded.unwrap() as int]);
    }
}

/// No event takes the scroll offset out of the expanded text, unless it
/// reports the end of the expanded target's operation after that operation
/// was over.
pub proof fn law_events_keep_scroll_in_range(view: AppView, event: EventView, command: Command)
    requires
        view.wf(),
        view.scroll_in_range(),
        event.index() < view.total(),
        !(event.is_terminal() && view.expanded == Some(event.index() as nat)
            && view.statuses[event.index() as int].is_done()),
    ensures
        applied(view, event, command).wf(),
        applied(view, event, command).scroll_in_range(),
{
    let after = applied(view, event, command);
    if view.expanded == Some(event.index() as nat) {
        lemma_content_lines(view.statuses[event.index() as int]);
        lemma_content_lines(after.statuses[event.index() as int]);
    }
}

// ---------------------------------------------------------------------------
// Whole sessions
// ---------------------------------------------------------------------------

/// One thing that happens to the dashboard.
pub enum Happening {
    /// An event arrives from the executor.
    Event(EventView),
    /// The user presses a key, or the poll times out.
    Input(AppEvent),
}

/// The dashboard after one happening.
pub open spec fn happened(view: AppView, h: Happening, command: Command) -> AppView {
    match h {
        Happening::Event(e) => applied(view, e, command),
        Happening::Input(i) => after_input(view, i),
    }
}

/// The dashboard after a session of happenings.
pub open spec fn happened_all(view: AppView, session: Seq<Happening>, command: Command) -> AppView
    decreases session.len(),
{
    if session.len() == 0 {
        view
    } else {
        happened(happened_all(view, session.drop_last(), command), session.last(), command)
    }
}

/// Whether every event of the session is about a target of the dashboard,
/// and none reports the end of an operation that is over when it arrives.
pub open spec fn orderly(view: AppView, session: Seq<Happening>, command: Command) -> bool
    decreases session.len(),
{
    if session.len() == 0 {
        true
    } else {
        &&& orderly(view, session.drop_last(), command)
        &&& session.last() matches Happening::Event(e) ==> {
            let before = happened_all(view, session.drop_last(), command);
            e.index() < before.total() && !(e.is_terminal() && before.statuses[e.index() as int].is_done())
        }
    }
}

/// Throughout an orderly session the dashboard stays well formed, keeps its
/// targets, and keeps the scroll offset within the text of the expanded
/// target.
pub proof fn law_sessions_keep_scroll_in_range(
    view: AppView,
    session: Seq<Happening>,
    command: Command,
)
    requires
        view.wf(),
        view.scroll_in_range(),
        orderly(view, session, command),
    ensures
        happened_all(view, session, command).wf(),
        happened_all(view, session, command).scroll_in_range(),
        happened_all(view, session, command).repos == view.repos,
    decreases session.len(),
{
    if session.len() > 0 {
        let before = happened_all(view, session.drop_last(), command);
        law_sessions_keep_scroll_in_range(view, session.drop_last(), command);
        match session.last() {
            Happening::Event(e) => {
                law_events_keep_scroll_in_range(before, e, command);
            },
            Happening::Input(i) => {
                law_scroll_in_range(before, i);
            },
        }
    }
}

} // verus!
