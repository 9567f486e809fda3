//! What the dashboard knows: one status per target, the cursor, and which
//! target, if any, is expanded.

use crate::config::{Repo, RepoView};
use crate::lines::{lines, split_lines};
use crate::text::{chars_of, decimal, push_all, push_count, push_str, rows, string_of};
use vstd::prelude::*;

verus! {

/// Display state of one target.
#[derive(Debug, Clone, PartialEq)]
pub enum RepoStatus {
    Pending,
    Running,
    Done { summary: String, stdout: String, stderr: String, exit_code: i32 },
    Skipped { reason: String },
}

/// A status as contracts see it.
pub enum StatusView {
    Pending,
    Running,
    Done { summary: Seq<char>, stdout: Seq<char>, stderr: Seq<char>, exit_code: i32 },
    Skipped { reason: Seq<char> },
}

impl StatusView {
    /// Whether the operation is over, whatever its outcome.
    pub open spec fn is_done(self) -> bool {
        self is Done || self is Skipped
    }

    /// Whether the operation ran and ended with a non-zero exit code.
    pub open spec fn is_failed(self) -> bool {
        self matches StatusView::Done { exit_code, .. } && exit_code != 0
    }

    /// How far the operation has come: 0 pending, 1 running, 2 over.
    pub open spec fn rank(self) -> nat {
        match self {
            StatusView::Pending => 0,
            StatusView::Running => 1,
            _ => 2,
        }
    }

    /// What is shown when the target is expanded: the captured output,
    /// standard output first and the error output right behind it, or a
    /// placeholder in parentheses where there is no output.
    pub open spec fn content(self) -> Seq<char> {
        match self {
            StatusView::Done { stdout, stderr, .. } => {
                if stdout.len() + stderr.len() > 0 {
                    stdout + stderr
                } else {
                    "(no output)"@
                }
            },
            StatusView::Running => "(still running...)"@,
            StatusView::Pending => "(pending...)"@,
            StatusView::Skipped { reason } => "(skipped: "@ + reason + ")"@,
        }
    }
}

impl View for RepoStatus {
    type V = StatusView;

    open spec fn view(&self) -> StatusView {
        match self {
            RepoStatus::Pending => StatusView::Pending,
            RepoStatus::Running => StatusView::Running,
            RepoStatus::Done { summary, stdout, stderr, exit_code } => StatusView::Done {
                summary: summary@,
                stdout: stdout@,
                stderr: stderr@,
                exit_code: *exit_code,
            },
            RepoStatus::Skipped { reason } => StatusView::Skipped { reason: reason@ },
        }
    }
}

impl RepoStatus {
    pub fn is_done(&self) -> (b: bool)
        ensures
            b == self@.is_done(),
    {
        match self {
            RepoStatus::Done { .. } | RepoStatus::Skipped { .. } => true,
            _ => false,
        }
    }

    pub fn is_failed(&self) -> (b: bool)
        ensures
            b == self@.is_failed(),
    {
        match self {
            RepoStatus::Done { exit_code, .. } => *exit_code != 0,
            _ => false,
        }
    }

    /// The text shown when the target is expanded.
    pub fn content(&self) -> (text: String)
        ensures
            text@ == self@.content(),
    {
        match self {
            RepoStatus::Done { stdout, stderr, .. } => {
                let out = chars_of(stdout.as_str());
                let err = chars_of(stderr.as_str());
                let mut text: Vec<char> = Vec::new();
                push_all(&mut text, &out);
                push_all(&mut text, &err);
                if text.len() == 0 {
                    push_str(&mut text, "(no output)");
                }
                assert(text@ =~= self@.content());
                string_of(&text)
            },
            RepoStatus::Running => "(still running...)".to_owned(),
            RepoStatus::Pending => "(pending...)".to_owned(),
            RepoStatus::Skipped { reason } => {
                let mut text = chars_of("(skipped: ");
                push_str(&mut text, reason.as_str());
                push_str(&mut text, ")");
                string_of(&text)
            },
        }
    }
}

/// How many of the statuses are over.
pub open spec fn done_total(s: Seq<StatusView>) -> nat
    decreases s.len(),
{
    if s.len() == 0 {
        0
    } else {
        done_total(s.drop_last()) + if s.last().is_done() {
            1nat
        } else {
            0nat
        }
    }
}

/// How many of the statuses are failures.
pub open spec fn failed_total(s: Seq<StatusView>) -> nat
    decreases s.len(),
{
    if s.len() == 0 {
        0
    } else {
        failed_total(s.drop_last()) + if s.last().is_failed() {
            1nat
        } else {
            0nat
        }
    }
}

/// Failures are among the finished, and the finished among all.
pub proof fn lemma_totals(s: Seq<StatusView>)
    ensures
        failed_total(s) <= done_total(s) <= s.len(),
    decreases s.len(),
{
    if s.len() > 0 {
        lemma_totals(s.drop_last());
    }
}

/// The one-line tally: finished over all, and the failures when there are
/// any.
pub open spec fn tally_line(done: nat, total: nat, failed: nat) -> Seq<char> {
    if failed > 0 {
        decimal(done) + "/"@ + decimal(total) + " done, "@ + decimal(failed) + " failed"@
    } else {
        decimal(done) + "/"@ + decimal(total) + " done"@
    }
}

/// The dashboard's state as contracts see it.
pub struct AppView {
    pub repos: Seq<RepoView>,
    pub statuses: Seq<StatusView>,
    pub selected: nat,
    pub expanded: Option<nat>,
    pub scroll_offset: nat,
    pub tick: nat,
    pub command_name: Seq<char>,
}

impl AppView {
    /// What always holds of a dashboard: one status per target, the cursor
    /// on a target when there is one, and only a target expanded.
    pub open spec fn wf(self) -> bool {
        &&& self.statuses.len() == self.repos.len()
        &&& self.selected < self.repos.len() || (self.repos.len() == 0 && self.selected == 0)
        &&& self.expanded matches Some(i) ==> i < self.repos.len()
    }

    /// Number of targets.
    pub open spec fn total(self) -> nat {
        self.repos.len()
    }

    /// The cursor moved one target up, unless it is on the first.
    pub open spec fn move_up(self) -> AppView {
        AppView {
            selected: if self.selected > 0 {
                (self.selected - 1) as nat
            } else {
                0
            },
            ..self
        }
    }

    /// The cursor moved one target down, unless it is on the last.
    pub open spec fn move_down(self) -> AppView {
        AppView {
            selected: if self.selected + 1 < self.total() {
                self.selected + 1
            } else {
                self.selected
            },
            ..self
        }
    }

    /// The cursor put on the first target.
    pub open spec fn select_first(self) -> AppView {
        AppView { selected: 0, ..self }
    }

    /// The cursor put on the last target.
    pub open spec fn select_last(self) -> AppView {
        AppView {
            selected: if self.total() == 0 {
                0
            } else {
                (self.total() - 1) as nat
            },
            ..self
        }
    }

    /// The target under the cursor expanded, or collapsed when it is the one
    /// expanded; the scroll offset back at zero. Without targets nothing is
    /// ever expanded.
    pub open spec fn toggle_expand(self) -> AppView {
        AppView {
            expanded: if self.total() == 0 || self.expanded == Some(self.selected) {
                None
            } else {
                Some(self.selected)
            },
            scroll_offset: 0,
            ..self
        }
    }

    /// Nothing expanded, the scroll offset back at zero.
    pub open spec fn collapse(self) -> AppView {
        AppView { expanded: None, scroll_offset: 0, ..self }
    }

    /// Scrolled one line up, unless at the top.
    pub open spec fn scroll_up(self) -> AppView {
        AppView {
            scroll_offset: if self.scroll_offset > 0 {
                (self.scroll_offset - 1) as nat
            } else {
                0
            },
            ..self
        }
    }

    /// Scrolled one line down while the offset stays below `max_lines`.
    pub open spec fn scroll_down(self, max_lines: nat) -> AppView {
        AppView {
            scroll_offset: if self.scroll_offset + 1 < max_lines {
                self.scroll_offset + 1
            } else {
                self.scroll_offset
            },
            ..self
        }
    }

    /// One more animation tick counted; the counter starts over after the
    /// largest machine number.
    pub open spec fn advance_tick(self) -> AppView {
        AppView {
            tick: if self.tick >= usize::MAX {
                0
            } else {
                self.tick + 1
            },
            ..self
        }
    }

    /// The status of the target at `index` replaced.
    pub open spec fn with_status(self, index: int, status: StatusView) -> AppView {
        AppView { statuses: self.statuses.update(index, status), ..self }
    }

    /// Whether the scroll offset names a line of the expanded text.
    pub open spec fn scroll_in_range(self) -> bool {
        self.expanded is Some ==> self.scroll_offset < self.expanded_lines()
    }

    /// The text of the expanded target; meaningful when one is expanded.
    pub open spec fn expanded_text(self) -> Seq<char> {
        self.statuses[self.expanded.unwrap() as int].content()
    }

    /// Number of lines of the expanded target's text, zero when nothing is
    /// expanded.
    pub open spec fn expanded_lines(self) -> nat {
        if self.expanded is Some {
            lines(self.expanded_text()).len()
        } else {
            0
        }
    }
}

/// The views of a sequence of statuses.
pub open spec fn status_views(s: Seq<RepoStatus>) -> Seq<StatusView> {
    Seq::new(s.len(), |i: int| s[i]@)
}

/// The views of a sequence of targets.
pub open spec fn repo_views(s: Seq<Repo>) -> Seq<RepoView> {
    Seq::new(s.len(), |i: int| s[i]@)
}

/// The dashboard's state.
pub struct AppState {
    repos: Vec<Repo>,
    statuses: Vec<RepoStatus>,
    selected: usize,
    expanded: Option<usize>,
    scroll_offset: usize,
    tick: usize,
    command_name: String,
}

impl View for AppState {
    type V = AppView;

    closed spec fn view(&self) -> AppView {
        AppView {
            repos: repo_views(self.repos@),
            statuses: status_views(self.statuses@),
            selected: self.selected as nat,
            expanded: match self.expanded {
                Some(i) => Some(i as nat),
                None => None,
            },
            scroll_offset: self.scroll_offset as nat,
            tick: self.tick as nat,
            command_name: self.command_name@,
        }
    }
}

impl AppState {
    #[verifier::type_invariant]
    spec fn inv(self) -> bool {
        self@.wf()
    }

    /// A dashboard over `repos` with every target pending, the cursor on the
    /// first target and nothing expanded.
    pub fn new(repos: Vec<Repo>, command_name: &str) -> (state: AppState)
        ensures
            state@.wf(),
            state@.repos == repo_views(repos@),
            state@.statuses == Seq::new(repos.len() as nat, |i: int| StatusView::Pending),
            state@.selected == 0,
            state@.expanded is None,
            state@.scroll_offset == 0,
            state@.tick == 0,
            state@.command_name == command_name@,
    {
        let n = repos.len();
        let mut statuses: Vec<RepoStatus> = Vec::new();
        let mut i: usize = 0;
        while i < n
            invariant
                i <= n,
                statuses.len() == i,
                forall|k: int| 0 <= k < i ==> statuses@[k] == RepoStatus::Pending,
            decreases n - i,
        {
            statuses.push(RepoStatus::Pending);
            i = i + 1;
        }
        let state = AppState {
            repos,
            statuses,
            selected: 0,
            expanded: None,
            scroll_offset: 0,
            tick: 0,
            command_name: command_name.to_owned(),
        };
        assert(state@.statuses =~= Seq::new(n as nat, |i: int| StatusView::Pending));
        state
    }

    pub fn total(&self) -> (n: usize)
        ensures
            n == self@.total(),
            self@.wf(),
    {
        proof {
            use_type_invariant(self);
        }
        self.repos.len()
    }

    /// Number of targets whose operation is over.
    pub fn done_count(&self) -> (n: usize)
        ensures
            n == done_total(self@.statuses),
            n <= self@.total(),
    {
        proof {
            use_type_invariant(self);
        }
        let ghost views = status_views(self.statuses@);
        let mut n: usize = 0;
        let mut i: usize = 0;
        assert(views.take(0) =~= Seq::<StatusView>::empty());
        while i < self.statuses.len()
            invariant
                i <= self.statuses.len(),
                views == status_views(self.statuses@),
                n == done_total(views.take(i as int)),
                n <= i,
            decreases self.statuses.len() - i,
        {
            proof {
                assert(views.take(i + 1).drop_last() =~= views.take(i as int));
                assert(views.take(i + 1).last() == self.statuses@[i as int]@);
            }
            if self.statuses[i].is_done() {
                n = n + 1;
            }
            i = i + 1;
        }
        assert(views.take(self.statuses.len() as int) =~= views);
        n
    }

    /// Number of targets whose operation ended with a non-zero exit code.
    pub fn failed_count(&self) -> (n: usize)
        ensures
            n == failed_total(self@.statuses),
            n <= done_total(self@.statuses),
    {
        let ghost views = status_views(self.statuses@);
        let mut n: usize = 0;
        let mut i: usize = 0;
        assert(views.take(0) =~= Seq::<StatusView>::empty());
        while i < self.statuses.len()
            invariant
                i <= self.statuses.len(),
                views == status_views(self.statuses@),
                n == failed_total(views.take(i as int)),
                n <= i,
            decreases self.statuses.len() - i,
        {
            proof {
                assert(views.take(i + 1).drop_last() =~= views.take(i as int));
                assert(views.take(i + 1).last() == self.statuses@[i as int]@);
            }
            if self.statuses[i].is_failed() {
                n = n + 1;
            }
            i = i + 1;
        }
        proof {
            assert(views.take(self.statuses.len() as int) =~= views);
            lemma_totals(views);
        }
        n
    }

    /// Whether every operation is over.
    pub fn all_done(&self) -> (b: bool)
        ensures
            b == (done_total(self@.statuses) == self@.total()),
    {
        self.done_count() == self.total()
    }

    /// Position of the cursor.
    pub fn selected(&self) -> (i: usize)
        ensures
            i == self@.selected,
            self@.wf(),
    {
        proof {
            use_type_invariant(self);
        }
        self.selected
    }

    /// The expanded target, if one is expanded.
    pub fn expanded(&self) -> (e: Option<usize>)
        ensures
            match e {
                Some(i) => self@.expanded == Some(i as nat),
                None => self@.expanded is None,
            },
            self@.wf(),
    {
        proof {
            use_type_invariant(self);
        }
        self.expanded
    }

    /// First line shown of the expanded content.
    pub fn scroll_offset(&self) -> (n: usize)
        ensures
            n == self@.scroll_offset,
    {
        self.scroll_offset
    }

    /// Animation ticks seen so far.
    pub fn tick(&self) -> (n: usize)
        ensures
            n == self@.tick,
    {
        self.tick
    }

    /// Name of the command that is being run.
    pub fn command_name(&self) -> (name: &str)
        ensures
            name@ == self@.command_name,
    {
        self.command_name.as_str()
    }

    /// The target at position `index`.
    pub fn repo(&self, index: usize) -> (repo: &Repo)
        requires
            index < self@.total(),
        ensures
            repo@ == self@.repos[index as int],
    {
        &self.repos[index]
    }

    /// The status of the target at position `index`.
    pub fn status(&self, index: usize) -> (status: &RepoStatus)
        requires
            index < self@.total(),
        ensures
            status@ == self@.statuses[index as int],
    {
        proof {
            use_type_invariant(self);
        }
        &self.statuses[index]
    }

    /// Replaces the status of the target at position `index`.
    pub fn set_status(&mut self, index: usize, status: RepoStatus)
        requires
            index < old(self)@.total(),
        ensures
            final(self)@ == old(self)@.with_status(index as int, status@),
    {
        proof {
            use_type_invariant(&*self);
        }
        let ghost before = self.statuses@;
        self.statuses[index] = status;
        assert(status_views(self.statuses@) =~= status_views(before).update(index as int, status@));
    }

    /// Counts one animation tick.
    pub fn advance_tick(&mut self)
        ensures
            final(self)@ == old(self)@.advance_tick(),
    {
        proof {
            use_type_invariant(&*self);
        }
        self.tick = if self.tick == usize::MAX {
            0
        } else {
            self.tick + 1
        };
    }

    /// Moves the cursor one target up, unless it is on the first.
    pub fn move_up(&mut self)
        ensures
            final(self)@ == old(self)@.move_up(),
    {
        proof {
            use_type_invariant(&*self);
        }
        if self.selected > 0 {
            self.selected = self.selected - 1;
        }
    }

    /// Moves the cursor one target down, unless it is on the last.
    pub fn move_down(&mut self)
        ensures
            final(self)@ == old(self)@.move_down(),
    {
        proof {
            use_type_invariant(&*self);
        }
        if self.selected < self.repos.len() && self.repos.len() - self.selected > 1 {
            self.selected = self.selected + 1;
        }
    }

    /// Puts the cursor on the first target.
    pub fn select_first(&mut self)
        ensures
            final(self)@ == old(self)@.select_first(),
    {
        proof {
            use_type_invariant(&*self);
        }
        self.selected = 0;
    }

    /// Puts the cursor on the last target.
    pub fn select_last(&mut self)
        ensures
            final(self)@ == old(self)@.select_last(),
    {
        proof {
            use_type_invariant(&*self);
        }
        self.selected = if self.repos.len() == 0 {
            0
        } else {
            self.repos.len() - 1
        };
    }

    /// Expands the target under the cursor, or collapses it when it is the
    /// one expanded. The scroll offset goes back to zero either way. Without
    /// targets there is nothing to expand.
    pub fn toggle_expand(&mut self)
        ensures
            final(self)@ == old(self)@.toggle_expand(),
    {
        proof {
            use_type_invariant(&*self);
        }
        self.scroll_offset = 0;
        let on_cursor = match self.expanded {
            Some(i) => i == self.selected,
            None => false,
        };
        if on_cursor || self.repos.len() == 0 {
            self.expanded = None;
        } else {
            self.expanded = Some(self.selected);
        }
    }

    /// Collapses whatever is expanded.
    pub fn collapse(&mut self)
        ensures
            final(self)@ == old(self)@.collapse(),
    {
        proof {
            use_type_invariant(&*self);
        }
        self.expanded = None;
        self.scroll_offset = 0;
    }

    /// Scrolls the expanded content one line up, unless it is at the top.
    pub fn scroll_up(&mut self)
        ensures
            final(self)@ == old(self)@.scroll_up(),
    {
        proof {
            use_type_invariant(&*self);
        }
        if self.scroll_offset > 0 {
            self.scroll_offset = self.scroll_offset - 1;
        }
    }

    /// Scrolls the expanded content one line down while the offset stays
    /// below `max_lines`.
    pub fn scroll_down(&mut self, max_lines: usize)
        ensures
            final(self)@ == old(self)@.scroll_down(max_lines as nat),
    {
        proof {
            use_type_invariant(&*self);
        }
        if self.scroll_offset < max_lines && max_lines - self.scroll_offset > 1 {
            self.scroll_offset = self.scroll_offset + 1;
        }
    }

    /// The text of the expanded target, made afresh from its status.
    pub fn expanded_content(&self) -> (text: Option<String>)
        ensures
            match text {
                Some(t) => self@.expanded is Some && t@ == self@.expanded_text(),
                None => self@.expanded is None,
            },
    {
        proof {
            use_type_invariant(self);
        }
        match self.expanded {
            Some(i) => Some(self.statuses[i].content()),
            None => None,
        }
    }

    /// Number of lines of the expanded target's text, zero when nothing is
    /// expanded.
    pub fn expanded_line_count(&self) -> (n: usize)
        ensures
            n == self@.expanded_lines(),
    {
        match self.expanded_content() {
            Some(t) => {
                let ls = split_lines(&chars_of(t.as_str()));
                assert(rows(ls@).len() == ls.len());
                ls.len()
            },
            None => 0,
        }
    }

    /// The tally of finished and failed operations in one line.
    pub fn summary_line(&self) -> (line: String)
        ensures
            line@ == tally_line(
                done_total(self@.statuses),
                self@.total(),
                failed_total(self@.statuses),
            ),
    {
        let failed = self.failed_count();
        let done = self.done_count();
        let total = self.total();
        let mut line: Vec<char> = Vec::new();
        push_count(&mut line, done);
        push_str(&mut line, "/");
        push_count(&mut line, total);
        if failed > 0 {
            push_str(&mut line, " done, ");
            push_count(&mut line, failed);
            push_str(&mut line, " failed");
        } else {
            push_str(&mut line, " done");
        }
        assert(line@ =~= tally_line(done as nat, total as nat, failed as nat));
        string_of(&line)
    }
}

} // verus!
