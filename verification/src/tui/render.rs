//! The dashboard as styled text.
//!
//! A frame is a function of the terminal's size and the dashboard's state:
//! a header, a rule, as many target rows as fit around the cursor, with the
//! expanded target's output in a box below its row, another rule and a
//! footer with the keys.

use super::spinner::{frame, frame_at};
use super::state::{done_total, failed_total, tally_line, AppState, AppView, RepoStatus, StatusView};
use crate::config::RepoView;
use crate::lines::{lines, split_lines};
use crate::text::{
    chars_of, decimal, push_all, push_count, push_repeat, push_str, repeat, rows, same_chars,
    slice_of, string_of,
};
use vstd::prelude::*;

verus! {

// ---------------------------------------------------------------------------
// Styled text
// ---------------------------------------------------------------------------

/// A foreground colour.
#[derive(Clone, Copy, Debug, PartialEq, Eq, Structural)]
pub enum Color {
    Default,
    DarkGray,
    Yellow,
    Green,
    Red,
    Cyan,
}

/// How a piece of text is drawn.
#[derive(Clone, Copy, Debug, PartialEq, Eq, Structural)]
pub struct Style {
    pub fg: Color,
    pub bold: bool,
}

/// A piece of text in one style.
#[derive(Clone, Debug, PartialEq)]
pub struct Span {
    pub text: String,
    pub style: Style,
}

/// A span as contracts see it.
pub struct SpanView {
    pub text: Seq<char>,
    pub style: Style,
}

impl View for Span {
    type V = SpanView;

    open spec fn view(&self) -> SpanView {
        SpanView { text: self.text@, style: self.style }
    }
}

/// One line of the frame.
#[derive(Clone, Debug, PartialEq)]
pub struct Line {
    pub spans: Vec<Span>,
}

impl View for Line {
    type V = Seq<SpanView>;

    open spec fn view(&self) -> Seq<SpanView> {
        Seq::new(self.spans.len() as nat, |i: int| self.spans@[i]@)
    }
}

/// The views of a sequence of lines.
pub open spec fn line_views(s: Seq<Line>) -> Seq<Seq<SpanView>> {
    Seq::new(s.len(), |i: int| s[i]@)
}

/// Text in the terminal's own style.
pub open spec fn plain(text: Seq<char>) -> SpanView {
    SpanView { text, style: Style { fg: Color::Default, bold: false } }
}

/// Text in a colour.
pub open spec fn colored(text: Seq<char>, fg: Color) -> SpanView {
    SpanView { text, style: Style { fg, bold: false } }
}

/// Bold text in a colour.
pub open spec fn strong(text: Seq<char>, fg: Color) -> SpanView {
    SpanView { text, style: Style { fg, bold: true } }
}

// ---------------------------------------------------------------------------
// What a frame is
// ---------------------------------------------------------------------------

/// The smaller of two numbers.
pub open spec fn least(a: int, b: int) -> int {
    if a <= b {
        a
    } else {
        b
    }
}

/// `a - b`, or zero when `b` is the larger.
pub open spec fn minus(a: int, b: int) -> nat {
    if a >= b {
        (a - b) as nat
    } else {
        0
    }
}

/// Lines left for the targets: the height without header, footer and the
/// two rules.
pub open spec fn list_height(height: nat) -> nat {
    minus(height as int, 4)
}

/// Most lines of output shown in the box: three less than the list is
/// high, and three at least.
pub open spec fn box_capacity(list_height: nat) -> nat {
    if list_height >= 6 {
        (list_height - 3) as nat
    } else {
        3
    }
}

/// Lines that the expansion takes: the shown lines of output and the two
/// borders; none when nothing is expanded.
pub open spec fn expanded_rows(view: AppView, list_height: nat) -> nat {
    if view.expanded is Some {
        (least(view.expanded_lines() as int, box_capacity(list_height) as int) + 2) as nat
    } else {
        0
    }
}

/// First target shown: the list starts at the top while the cursor fits,
/// and is moved just far enough to show the cursor otherwise.
pub open spec fn view_start(view: AppView, list_height: nat) -> nat {
    let room = minus(list_height as int, expanded_rows(view, list_height) as int);
    if view.selected < room {
        0
    } else {
        (view.selected - room + 1) as nat
    }
}

/// One past the last target shown.
pub open spec fn view_end(view: AppView, list_height: nat) -> nat {
    let room = minus(list_height as int, expanded_rows(view, list_height) as int);
    least(view.total() as int, (view_start(view, list_height) + room) as int) as nat
}

/// Length of the longest target name.
pub open spec fn longest_name(repos: Seq<RepoView>) -> nat
    decreases repos.len(),
{
    if repos.len() == 0 {
        0
    } else {
        let rest = longest_name(repos.drop_last());
        if repos.last().name.len() > rest {
            repos.last().name.len()
        } else {
            rest
        }
    }
}

/// Width of the name column: the longest name, or ten without targets.
pub open spec fn name_column(repos: Seq<RepoView>) -> nat {
    if repos.len() == 0 {
        10
    } else {
        longest_name(repos)
    }
}

/// What is shown while an operation of the named command runs.
pub open spec fn running_label(command_name: Seq<char>) -> Seq<char> {
    if command_name == "update"@ {
        "pulling..."@
    } else if command_name == "status"@ {
        "checking..."@
    } else if command_name == "diff"@ {
        "diffing..."@
    } else if command_name == "push"@ {
        "pushing..."@
    } else if command_name == "fetch"@ {
        "fetching..."@
    } else if command_name == "checkout"@ {
        "cloning..."@
    } else {
        "running..."@
    }
}

/// Glyph and text of a status, each with its style: a blank for pending, the
/// spinner for running, a check or a cross for finished, a dash for skipped.
/// Failures are red.
pub open spec fn status_cells(status: StatusView, tick: nat, command_name: Seq<char>) -> (
    SpanView,
    SpanView,
) {
    match status {
        StatusView::Pending => (colored(seq![' '], Color::DarkGray), colored("waiting..."@, Color::DarkGray)),
        StatusView::Running => (
            colored(seq![frame_at(tick)], Color::Yellow),
            colored(running_label(command_name), Color::Yellow),
        ),
        StatusView::Done { summary, exit_code, .. } => if exit_code == 0 {
            (colored(seq!['\u{2713}'], Color::Green), colored(summary, Color::DarkGray))
        } else {
            (colored(seq!['\u{2717}'], Color::Red), colored(summary, Color::Red))
        },
        StatusView::Skipped { reason } => (colored(seq!['-'], Color::DarkGray), colored(reason, Color::DarkGray)),
    }
}

/// The header: the command on the left, the tally on the right.
pub open spec fn header(view: AppView, width: nat) -> Seq<SpanView> {
    let title = "  mrx "@ + view.command_name;
    let tally = tally_line(done_total(view.statuses), view.total(), failed_total(view.statuses));
    seq![
        strong(title, Color::Default),
        plain(repeat(' ', minus(width as int, (title.len() + tally.len()) as int))),
        colored(tally, Color::DarkGray),
    ]
}

/// A rule across the frame.
pub open spec fn separator(width: nat) -> Seq<SpanView> {
    seq![colored(repeat('\u{2500}', width), Color::DarkGray)]
}

/// The row of the target at `i`: a marker on the cursor's row, the status
/// glyph, the name padded to the name column, and the status text.
pub open spec fn row(view: AppView, i: int) -> Seq<SpanView> {
    let on_cursor = i == view.selected;
    let name = view.repos[i].name;
    let cells = status_cells(view.statuses[i], view.tick, view.command_name);
    let marker = if on_cursor {
        strong(seq![' ', ' ', '\u{25b8}', ' '], Color::Cyan)
    } else {
        plain(seq![' ', ' ', ' ', ' '])
    };
    seq![
        marker,
        cells.0,
        plain(seq![' ']),
        SpanView { text: name, style: Style { fg: Color::Default, bold: on_cursor } },
        plain(repeat(' ', minus(name_column(view.repos) as int, name.len() as int) + 2)),
        cells.1,
    ]
}

/// First line of output shown in the box: the scroll offset, held to the
/// last line.
pub open spec fn box_start(view: AppView) -> nat {
    least(view.scroll_offset as int, minus(view.expanded_lines() as int, 1) as int) as nat
}

/// One past the last line of output shown in the box.
pub open spec fn box_end(view: AppView, list_height: nat) -> nat {
    least((box_start(view) + box_capacity(list_height)) as int, view.expanded_lines() as int) as nat
}

/// Width between the borders of the box.
pub open spec fn box_width(width: nat) -> nat {
    minus(width as int, 6)
}

/// The top border of the box.
pub open spec fn box_top(width: nat) -> Seq<SpanView> {
    seq![
        colored(
            seq![' ', ' ', ' ', ' ', '\u{250c}'] + repeat('\u{2500}', box_width(width)) + seq![
                '\u{2510}',
            ],
            Color::DarkGray,
        ),
    ]
}

/// A line of output in the box, cut to the box's inner width.
pub open spec fn box_line(text: Seq<char>, width: nat) -> Seq<SpanView> {
    seq![
        colored(seq![' ', ' ', ' ', ' ', '\u{2502}', ' '], Color::DarkGray),
        plain(text.take(least(text.len() as int, minus(box_width(width) as int, 2) as int))),
    ]
}

/// The note in the bottom border that says which lines are shown.
pub open spec fn scroll_note(start: nat, end: nat, total: nat) -> Seq<char> {
    seq![' ', '['] + decimal(start + 1) + seq!['-'] + decimal(end) + seq!['/'] + decimal(total)
        + seq![']', ' ']
}

/// The bottom border of a box that shows the lines `start..end` of `total`
/// and has room for `capacity`; it carries the scroll note when there is
/// more output than room.
pub open spec fn box_bottom_of(total: nat, capacity: nat, start: nat, end: nat, width: nat) -> Seq<
    SpanView,
> {
    if total > capacity {
        let note = scroll_note(start, end, total);
        seq![
            colored(
                seq![' ', ' ', ' ', ' ', '\u{2514}'] + repeat(
                    '\u{2500}',
                    minus(box_width(width) as int, note.len() as int),
                ) + note + seq!['\u{2518}'],
                Color::DarkGray,
            ),
        ]
    } else {
        seq![
            colored(
                seq![' ', ' ', ' ', ' ', '\u{2514}'] + repeat('\u{2500}', box_width(width)) + seq![
                    '\u{2518}',
                ],
                Color::DarkGray,
            ),
        ]
    }
}

/// The bottom border of the box with the expanded target's output.
pub open spec fn box_bottom(view: AppView, width: nat, list_height: nat) -> Seq<SpanView> {
    box_bottom_of(
        view.expanded_lines(),
        box_capacity(list_height),
        box_start(view),
        box_end(view, list_height),
        width,
    )
}

/// The lines of output `from..to` as lines of the box.
pub open spec fn box_lines(content: Seq<Seq<char>>, width: nat, from: int, to: int) -> Seq<
    Seq<SpanView>,
>
    decreases to - from,
{
    if from >= to {
        Seq::empty()
    } else {
        box_lines(content, width, from, to - 1).push(box_line(content[to - 1], width))
    }
}

/// The box with the expanded target's output.
pub open spec fn expansion(view: AppView, width: nat, list_height: nat) -> Seq<Seq<SpanView>> {
    seq![box_top(width)] + box_lines(
        lines(view.expanded_text()),
        width,
        box_start(view) as int,
        box_end(view, list_height) as int,
    ) + seq![box_bottom(view, width, list_height)]
}

/// The rows of the targets `from..to`, the box below the expanded one.
pub open spec fn body(view: AppView, width: nat, list_height: nat, from: int, to: int) -> Seq<
    Seq<SpanView>,
>
    decreases to - from,
{
    if from >= to {
        Seq::empty()
    } else {
        let before = body(view, width, list_height, from, to - 1).push(row(view, to - 1));
        if view.expanded == Some((to - 1) as nat) {
            before + expansion(view, width, list_height)
        } else {
            before
        }
    }
}

/// The footer: the keys that mean something in the current mode.
pub open spec fn footer(view: AppView) -> Seq<SpanView> {
    if view.expanded is Some {
        seq![
            colored(
                "  [\u{2191}\u{2193}] scroll  [esc] collapse  [q] quit"@,
                Color::DarkGray,
            ),
        ]
    } else {
        seq![
            colored(
                "  [\u{2191}\u{2193}/jk] navigate  [enter] expand  [q] quit"@,
                Color::DarkGray,
            ),
        ]
    }
}

/// The whole frame for a terminal of the given size.
pub open spec fn frame_of(view: AppView, width: nat, height: nat) -> Seq<Seq<SpanView>> {
    let h = list_height(height);
    seq![header(view, width), separator(width)] + body(
        view,
        width,
        h,
        view_start(view, h) as int,
        view_end(view, h) as int,
    ) + seq![separator(width), footer(view)]
}

// ---------------------------------------------------------------------------
// Drawing it
// ---------------------------------------------------------------------------

fn span(text: &Vec<char>, fg: Color, bold: bool) -> (s: Span)
    ensures
        s@ == (SpanView { text: text@, style: Style { fg, bold } }),
{
    Span { text: string_of(text), style: Style { fg, bold } }
}

fn line1(a: Span) -> (l: Line)
    ensures
        l@ == seq![a@],
{
    let mut spans: Vec<Span> = Vec::new();
    spans.push(a);
    let l = Line { spans };
    assert(l@ =~= seq![a@]);
    l
}

/// What is shown while an operation of the named command runs.
pub fn running_text(command: &str) -> (text: String)
    ensures
        text@ == running_label(command@),
{
    let name = chars_of(command);
    if same_chars(&name, &chars_of("update")) {
        "pulling...".to_owned()
    } else if same_chars(&name, &chars_of("status")) {
        "checking...".to_owned()
    } else if same_chars(&name, &chars_of("diff")) {
        "diffing...".to_owned()
    } else if same_chars(&name, &chars_of("push")) {
        "pushing...".to_owned()
    } else if same_chars(&name, &chars_of("fetch")) {
        "fetching...".to_owned()
    } else if same_chars(&name, &chars_of("checkout")) {
        "cloning...".to_owned()
    } else {
        "running...".to_owned()
    }
}

/// Glyph and text of a status, each with its style.
pub fn format_status(status: &RepoStatus, tick: usize, command_name: &str) -> (cells: (
    String,
    Style,
    String,
    Style,
))
    ensures
        (SpanView { text: cells.0@, style: cells.1 }) == status_cells(
            status@,
            tick as nat,
            command_name@,
        ).0,
        (SpanView { text: cells.2@, style: cells.3 }) == status_cells(
            status@,
            tick as nat,
            command_name@,
        ).1,
{
    let gray = Style { fg: Color::DarkGray, bold: false };
    match status {
        RepoStatus::Pending => {
            let mut icon: Vec<char> = Vec::new();
            icon.push(' ');
            assert(icon@ =~= seq![' ']);
            (string_of(&icon), gray, "waiting...".to_owned(), gray)
        },
        RepoStatus::Running => {
            let yellow = Style { fg: Color::Yellow, bold: false };
            let mut icon: Vec<char> = Vec::new();
            icon.push(frame(tick));
            assert(icon@ =~= seq![frame_at(tick as nat)]);
            (string_of(&icon), yellow, running_text(command_name), yellow)
        },
        RepoStatus::Done { summary, exit_code, .. } => {
            let mut icon: Vec<char> = Vec::new();
            if *exit_code == 0 {
                icon.push('\u{2713}');
                assert(icon@ =~= seq!['\u{2713}']);
                (string_of(&icon), Style { fg: Color::Green, bold: false }, summary.clone(), gray)
            } else {
                let red = Style { fg: Color::Red, bold: false };
                icon.push('\u{2717}');
                assert(icon@ =~= seq!['\u{2717}']);
                (string_of(&icon), red, summary.clone(), red)
            }
        },
        RepoStatus::Skipped { reason } => {
            let mut icon: Vec<char> = Vec::new();
            icon.push('-');
            assert(icon@ =~= seq!['-']);
            (string_of(&icon), gray, reason.clone(), gray)
        },
    }
}

fn capacity(list_height: usize) -> (n: usize)
    ensures
        n == box_capacity(list_height as nat),
        n >= 3,
{
    if list_height >= 6 {
        list_height - 3
    } else {
        3
    }
}

/// Where the list starts and how many lines the expansion takes, for a
/// list of the given height.
pub fn calculate_scroll(state: &AppState, list_height: usize) -> (window: (usize, usize))
    ensures
        window.0 == view_start(state@, list_height as nat),
        window.1 == expanded_rows(state@, list_height as nat),
        window.0 <= state@.selected + 1,
{
    let expanded_rows: usize = if state.expanded().is_some() {
        let shown = state.expanded_line_count();
        let cap = capacity(list_height);
        if shown < cap {
            shown + 2
        } else {
            cap + 2
        }
    } else {
        0
    };
    let room: usize = if list_height >= expanded_rows {
        list_height - expanded_rows
    } else {
        0
    };
    let selected = state.selected();
    let total = state.total();
    let start = if selected < room {
        0
    } else {
        selected - room + 1
    };
    (start, expanded_rows)
}

fn name_width(state: &AppState) -> (w: usize)
    ensures
        w == name_column(state@.repos),
{
    let total = state.total();
    if total == 0 {
        return 10;
    }
    let ghost repos = state@.repos;
    let mut w: usize = 0;
    let mut i: usize = 0;
    assert(repos.take(0) =~= Seq::<RepoView>::empty());
    while i < total
        invariant
            i <= total,
            total == state@.total(),
            repos == state@.repos,
            w == longest_name(repos.take(i as int)),
        decreases total - i,
    {
        proof {
            assert(repos.take(i + 1).drop_last() =~= repos.take(i as int));
            assert(repos.take(i + 1).last() == repos[i as int]);
        }
        let len = state.repo(i).name.as_str().unicode_len();
        if len > w {
            w = len;
        }
        i = i + 1;
    }
    assert(repos.take(total as int) =~= repos);
    w
}

fn header_line(state: &AppState, width: usize) -> (l: Line)
    ensures
        l@ == header(state@, width as nat),
{
    let mut title = chars_of("  mrx ");
    push_str(&mut title, state.command_name());
    let tally = chars_of(state.summary_line().as_str());
    let used = title.len().saturating_add(tally.len());
    let gap: usize = if width >= used {
        width - used
    } else {
        0
    };
    let mut fill: Vec<char> = Vec::new();
    push_repeat(&mut fill, ' ', gap);
    assert(fill@ =~= repeat(' ', gap as nat));
    let mut spans: Vec<Span> = Vec::new();
    spans.push(span(&title, Color::Default, true));
    spans.push(span(&fill, Color::Default, false));
    spans.push(span(&tally, Color::DarkGray, false));
    let l = Line { spans };
    assert(l@ =~= header(state@, width as nat));
    l
}

fn separator_line(width: usize) -> (l: Line)
    ensures
        l@ == separator(width as nat),
{
    let mut rule: Vec<char> = Vec::new();
    push_repeat(&mut rule, '\u{2500}', width);
    assert(rule@ =~= repeat('\u{2500}', width as nat));
    line1(span(&rule, Color::DarkGray, false))
}

fn footer_line(state: &AppState) -> (l: Line)
    ensures
        l@ == footer(state@),
{
    let text = if state.expanded().is_some() {
        chars_of("  [\u{2191}\u{2193}] scroll  [esc] collapse  [q] quit")
    } else {
        chars_of("  [\u{2191}\u{2193}/jk] navigate  [enter] expand  [q] quit")
    };
    line1(span(&text, Color::DarkGray, false))
}

fn row_line(state: &AppState, i: usize, column: usize) -> (l: Line)
    requires
        i < state@.total(),
        column == name_column(state@.repos),
    ensures
        l@ == row(state@, i as int),
{
    let on_cursor = i == state.selected();
    let name = chars_of(state.repo(i).name.as_str());
    let cells = format_status(state.status(i), state.tick(), state.command_name());
    let mut marker: Vec<char> = Vec::new();
    marker.push(' ');
    marker.push(' ');
    marker.push(if on_cursor {
        '\u{25b8}'
    } else {
        ' '
    });
    marker.push(' ');
    let mut one: Vec<char> = Vec::new();
    one.push(' ');
    let mut pad: Vec<char> = Vec::new();
    let short: usize = if column >= name.len() {
        column - name.len()
    } else {
        0
    };
    push_repeat(&mut pad, ' ', short);
    push_repeat(&mut pad, ' ', 2);
    proof {
        assert(pad@ =~= repeat(' ', (short + 2) as nat));
        assert(one@ =~= seq![' ']);
        if on_cursor {
            assert(marker@ =~= seq![' ', ' ', '\u{25b8}', ' ']);
        } else {
            assert(marker@ =~= seq![' ', ' ', ' ', ' ']);
        }
    }
    let mut spans: Vec<Span> = Vec::new();
    spans.push(
        if on_cursor {
            span(&marker, Color::Cyan, true)
        } else {
            span(&marker, Color::Default, false)
        },
    );
    spans.push(Span { text: cells.0, style: cells.1 });
    spans.push(span(&one, Color::Default, false));
    spans.push(span(&name, Color::Default, on_cursor));
    spans.push(span(&pad, Color::Default, false));
    spans.push(Span { text: cells.2, style: cells.3 });
    let l = Line { spans };
    assert(l@ =~= row(state@, i as int));
    l
}

fn border(left: char, fill: usize, note: &Vec<char>, right: char) -> (l: Line)
    ensures
        l@ == seq![
            colored(
                seq![' ', ' ', ' ', ' ', left] + repeat('\u{2500}', fill as nat) + note@ + seq![
                    right,
                ],
                Color::DarkGray,
            ),
        ],
{
    let mut text: Vec<char> = Vec::new();
    push_repeat(&mut text, ' ', 4);
    text.push(left);
    assert(text@ =~= seq![' ', ' ', ' ', ' ', left]);
    push_repeat(&mut text, '\u{2500}', fill);
    push_all(&mut text, note);
    text.push(right);
    assert(text@ =~= seq![' ', ' ', ' ', ' ', left] + repeat('\u{2500}', fill as nat) + note@
        + seq![right]);
    line1(span(&text, Color::DarkGray, false))
}

fn content_line(text: &Vec<char>, width: usize) -> (l: Line)
    ensures
        l@ == box_line(text@, width as nat),
{
    let inner: usize = if width >= 8 {
        width - 8
    } else {
        0
    };
    let keep = if text.len() < inner {
        text.len()
    } else {
        inner
    };
    let shown = slice_of(text, 0, keep);
    assert(shown@ =~= text@.take(keep as int));
    let mut edge: Vec<char> = Vec::new();
    push_repeat(&mut edge, ' ', 4);
    edge.push('\u{2502}');
    edge.push(' ');
    assert(edge@ =~= seq![' ', ' ', ' ', ' ', '\u{2502}', ' ']);
    let mut spans: Vec<Span> = Vec::new();
    spans.push(span(&edge, Color::DarkGray, false));
    spans.push(span(&shown, Color::Default, false));
    let l = Line { spans };
    assert(l@ =~= box_line(text@, width as nat));
    l
}

fn push_box_lines(
    out: &mut Vec<Line>,
    content: &Vec<Vec<char>>,
    width: usize,
    start: usize,
    end: usize,
)
    requires
        start <= end <= content.len(),
    ensures
        line_views(final(out)@) == line_views(old(out)@) + box_lines(
            rows(content@),
            width as nat,
            start as int,
            end as int,
        ),
{
    let ghost cs = rows(content@);
    let ghost before = line_views(out@);
    let mut i: usize = start;
    assert(before + box_lines(cs, width as nat, start as int, start as int) =~= before);
    while i < end
        invariant
            start <= i <= end <= content.len(),
            cs == rows(content@),
            line_views(out@) == before + box_lines(cs, width as nat, start as int, i as int),
        decreases end - i,
    {
        let l = content_line(&content[i], width);
        proof {
            assert(cs[i as int] == content@[i as int]@);
            assert(line_views(out@.push(l)) =~= line_views(out@).push(l@));
            assert(before + box_lines(cs, width as nat, start as int, i + 1) =~= (before
                + box_lines(cs, width as nat, start as int, i as int)).push(l@));
        }
        out.push(l);
        i = i + 1;
    }
}

fn top_line(width: usize) -> (l: Line)
    ensures
        l@ == box_top(width as nat),
{
    let inner: usize = if width >= 6 {
        width - 6
    } else {
        0
    };
    let none: Vec<char> = Vec::new();
    let l = border('\u{250c}', inner, &none, '\u{2510}');
    assert(seq![' ', ' ', ' ', ' ', '\u{250c}'] + repeat('\u{2500}', inner as nat) + none@ + seq![
        '\u{2510}',
    ] =~= seq![' ', ' ', ' ', ' ', '\u{250c}'] + repeat('\u{2500}', inner as nat) + seq![
        '\u{2510}',
    ]);
    l
}

fn bottom_line(total: usize, cap: usize, start: usize, end: usize, width: usize) -> (l: Line)
    requires
        start < usize::MAX,
    ensures
        l@ == box_bottom_of(total as nat, cap as nat, start as nat, end as nat, width as nat),
{
    let inner: usize = if width >= 6 {
        width - 6
    } else {
        0
    };
    if total > cap {
        let mut note: Vec<char> = Vec::new();
        note.push(' ');
        note.push('[');
        push_count(&mut note, start + 1);
        note.push('-');
        push_count(&mut note, end);
        note.push('/');
        push_count(&mut note, total);
        note.push(']');
        note.push(' ');
        assert(note@ =~= scroll_note(start as nat, end as nat, total as nat));
        let dashes: usize = if inner >= note.len() {
            inner - note.len()
        } else {
            0
        };
        border('\u{2514}', dashes, &note, '\u{2518}')
    } else {
        let none: Vec<char> = Vec::new();
        let l = border('\u{2514}', inner, &none, '\u{2518}');
        assert(seq![' ', ' ', ' ', ' ', '\u{2514}'] + repeat('\u{2500}', inner as nat) + none@
            + seq!['\u{2518}'] =~= seq![' ', ' ', ' ', ' ', '\u{2514}'] + repeat(
            '\u{2500}',
            inner as nat,
        ) + seq!['\u{2518}']);
        l
    }
}

fn push_expansion(out: &mut Vec<Line>, state: &AppState, width: usize, list_height: usize)
    requires
        state@.expanded is Some,
    ensures
        line_views(final(out)@) == line_views(old(out)@) + expansion(
            state@,
            width as nat,
            list_height as nat,
        ),
{
    let content = match state.expanded_content() {
        Some(text) => split_lines(&chars_of(text.as_str())),
        None => Vec::new(),
    };
    let ghost cs = rows(content@);
    assert(cs == lines(state@.expanded_text()));
    assert(cs.len() == content.len());
    let total = content.len();
    let cap = capacity(list_height);
    let last: usize = if total >= 1 {
        total - 1
    } else {
        0
    };
    let offset = state.scroll_offset();
    let start: usize = if offset < last {
        offset
    } else {
        last
    };
    let end: usize = if total - start > cap {
        start + cap
    } else {
        total
    };
    assert(start == box_start(state@));
    assert(end == box_end(state@, list_height as nat));
    let ghost before = line_views(out@);
    let top = top_line(width);
    assert(line_views(out@.push(top)) =~= before.push(top@));
    out.push(top);
    push_box_lines(out, &content, width, start, end);
    let bottom = bottom_line(total, cap, start, end, width);
    assert(line_views(out@.push(bottom)) =~= line_views(out@).push(bottom@));
    out.push(bottom);
    assert(line_views(out@) =~= before + expansion(state@, width as nat, list_height as nat));
}

/// Draws the dashboard for a terminal of the given size.
pub fn draw(width: u16, height: u16, state: &AppState) -> (out: Vec<Line>)
    ensures
        line_views(out@) == frame_of(state@, width as nat, height as nat),
{
    let w: usize = width as usize;
    let h: usize = if height >= 4 {
        (height - 4) as usize
    } else {
        0
    };
    let column = name_width(state);
    let (start, rows_taken) = calculate_scroll(state, h);
    let total = state.total();
    let room: usize = if h >= rows_taken {
        h - rows_taken
    } else {
        0
    };
    let end: usize = if start >= total {
        start
    } else if total - start > room {
        start + room
    } else {
        total
    };
    let expanded = state.expanded();
    let mut out: Vec<Line> = Vec::new();
    out.push(header_line(state, w));
    out.push(separator_line(w));
    let ghost head = seq![header(state@, w as nat), separator(w as nat)];
    assert(line_views(out@) =~= head);
    let mut i: usize = start;
    let ghost stop = view_end(state@, h as nat) as int;
    assert(body(state@, w as nat, h as nat, start as int, start as int) =~= Seq::<
        Seq<SpanView>,
    >::empty());
    assert(end != stop ==> stop <= start && end == start);
    assert(line_views(out@) =~= head + body(state@, w as nat, h as nat, start as int, start as int));
    while i < end
        invariant
            start <= i <= end,
            start < end ==> end <= total,
            total == state@.total(),
            column == name_column(state@.repos),
            match expanded {
                Some(e) => state@.expanded == Some(e as nat),
                None => state@.expanded is None,
            },
            line_views(out@) == head + body(state@, w as nat, h as nat, start as int, i as int),
        decreases end - i,
    {
        let ghost so_far = line_views(out@);
        let l = row_line(state, i, column);
        proof {
            assert(line_views(out@.push(l)) =~= so_far.push(l@));
        }
        out.push(l);
        let here = match expanded {
            Some(e) => e == i,
            None => false,
        };
        if here {
            push_expansion(&mut out, state, w, h);
        }
        proof {
            let b0 = body(state@, w as nat, h as nat, start as int, i as int);
            let b1 = body(state@, w as nat, h as nat, start as int, i + 1);
            if here {
                assert(b1 == b0.push(row(state@, i as int)) + expansion(
                    state@,
                    w as nat,
                    h as nat,
                ));
                assert(line_views(out@) =~= head + b1);
            } else {
                assert(b1 == b0.push(row(state@, i as int)));
                assert(line_views(out@) =~= head + b1);
            }
        }
        i = i + 1;
    }
    let ghost main = line_views(out@);
    assert(body(state@, w as nat, h as nat, start as int, end as int) == body(
        state@,
        w as nat,
        h as nat,
        start as int,
        stop,
    ));
    out.push(separator_line(w));
    out.push(footer_line(state));
    assert(line_views(out@) =~= main + seq![separator(w as nat), footer(state@)]);
    out
}

} // verus!
