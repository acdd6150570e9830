//! What the terminal shows: the four panes, the cursor and the open pop-ups.

use std::collections::VecDeque;

use vstd::prelude::*;
use vstd::string::*;

use crate::app::{Focus, TuiApp, TuiView};
use crate::popups;
use crate::popups::{Popup, PopupView};
use crate::scoreboard;
use crate::screen;
use crate::screen::{Color, Line, Rect, Size, SpanView, Style};
use crate::slots;
use crate::state::{State, StateView};
use crate::text;
use crate::tree;

verus! {

/// A bordered pane.
#[derive(Debug)]
pub struct Pane {
    pub area: Rect,
    pub title: String,
    pub title_style: Style,
    pub border: Color,
    pub lines: Vec<Line>,
    /// The look of text without one of its own.
    pub text_style: Style,
}

/// What a [`Pane`] holds.
#[verifier::ext_equal]
pub struct PaneView {
    pub area: Rect,
    pub title: Seq<char>,
    pub title_style: Style,
    pub border: Color,
    pub lines: Seq<Seq<SpanView>>,
    pub text_style: Style,
}

impl View for Pane {
    type V = PaneView;

    open spec fn view(&self) -> PaneView {
        PaneView {
            area: self.area,
            title: self.title@,
            title_style: self.title_style,
            border: self.border,
            lines: screen::lines_view(self.lines@),
            text_style: self.text_style,
        }
    }
}

/// Where the panes are.
#[derive(Debug, Clone, Copy, PartialEq, Eq, Structural)]
pub struct Panes {
    pub scoreboard: Rect,
    pub stored: Rect,
    pub log: Rect,
    pub input: Rect,
}

/// Everything that is drawn.
#[derive(Debug)]
pub struct Screen {
    pub scoreboard: Pane,
    pub stored: Pane,
    pub log: Pane,
    pub input: Pane,
    /// Column and row of the cursor, while the input has the focus.
    pub cursor: Option<(u16, u16)>,
    pub help: Option<Popup>,
    pub results: Option<Popup>,
    pub lineup: Option<Popup>,
    pub slots: Option<Popup>,
}

/// What a [`Screen`] holds.
#[verifier::ext_equal]
pub struct ScreenView {
    pub scoreboard: PaneView,
    pub stored: PaneView,
    pub log: PaneView,
    pub input: PaneView,
    pub cursor: Option<(u16, u16)>,
    pub help: Option<PopupView>,
    pub results: Option<PopupView>,
    pub lineup: Option<PopupView>,
    pub slots: Option<PopupView>,
}

/// What an optional pop-up holds.
pub open spec fn popup_view(p: Option<Popup>) -> Option<PopupView> {
    match p {
        Some(p) => Some(p@),
        None => None,
    }
}

impl View for Screen {
    type V = ScreenView;

    open spec fn view(&self) -> ScreenView {
        ScreenView {
            scoreboard: self.scoreboard@,
            stored: self.stored@,
            log: self.log@,
            input: self.input@,
            cursor: self.cursor,
            help: popup_view(self.help),
            results: popup_view(self.results),
            lineup: popup_view(self.lineup),
            slots: popup_view(self.slots),
        }
    }
}

/// Rows of the scoreboard pane: five more than the lanes in use, at least seven.
pub open spec fn scoreboard_rows(s: StateView) -> u16 {
    screen::max_int(s.lane_spread.1 - s.lane_spread.0 + 1 + 5, 7) as u16
}

pub fn scoreboard_height(state: &State) -> (r: u16)
    requires
        state.wf(),
    ensures
        r == scoreboard_rows(state@),
{
    let (lo, hi) = state.lane_spread;
    let rows: u16 = hi.saturating_sub(lo).saturating_add(1) as u16;
    if rows + 5 > 7 {
        rows + 5
    } else {
        7
    }
}

// The log

/// The lines of the first `n` log entries.
pub open spec fn entry_lines(log: Seq<Seq<char>>, n: nat) -> Seq<Seq<char>>
    decreases n,
{
    if n == 0 {
        Seq::empty()
    } else {
        entry_lines(log, (n - 1) as nat) + text::line_parts(log[n - 1])
    }
}

/// The last lines of the log, as many as fit into a pane of the given height.
pub open spec fn log_tail(log: Seq<Seq<char>>, height: u16) -> Seq<Seq<char>> {
    let all = entry_lines(log, log.len());
    all.skip(screen::max_int(all.len() - screen::max_int(height - 2, 0), 0))
}

/// The lines of the log pane.
pub open spec fn log_lines(log: Seq<Seq<char>>, height: u16) -> Seq<Seq<SpanView>> {
    log_tail(log, height).map_values(|t: Seq<char>| seq![screen::span(t, Style::plain())])
}

/// The lines of the log pane.
pub fn draw_log(log: &VecDeque<String>, height: u16) -> (r: Vec<Line>)
    ensures
        screen::lines_view(r@) == log_lines(text::texts(log@), height),
{
    let ghost entries = text::texts(log@);
    let mut all: Vec<String> = Vec::new();
    let n: usize = log.len();
    let mut i: usize = 0;
    assert(text::texts(all@) =~= entry_lines(entries, 0));
    while i < n
        invariant
            n == log@.len(),
            entries == text::texts(log@),
            i <= n,
            text::texts(all@) == entry_lines(entries, i as nat),
        decreases n - i,
    {
        text::put_line_parts(&mut all, log[i].as_str());
        i = i + 1;
        assert(entries[i - 1] == log@[i - 1]@);
    }
    let ghost tail = log_tail(entries, height);
    let inner: usize = height.saturating_sub(2) as usize;
    let total: usize = all.len();
    assert(text::texts(all@).len() == total);
    let start: usize = total.saturating_sub(inner);
    let ghost shown = log_lines(entries, height);
    let mut lines: Vec<Line> = Vec::new();
    let mut j: usize = start;
    assert(screen::lines_view(lines@) =~= shown.take(0));
    while j < total
        invariant
            total == all@.len(),
            start <= j <= total,
            text::texts(all@) == entry_lines(entries, entries.len()),
            tail == log_tail(entries, height),
            shown == log_lines(entries, height),
            tail == text::texts(all@).skip(start as int),
            screen::lines_view(lines@) == shown.take(j - start),
        decreases total - j,
    {
        assert(tail[j - start] == all@[j as int]@);
        let line: Line = Line::single(all[j].as_str(), Style::plain());
        assert(line@ == shown[j - start]);
        screen::put_line(&mut lines, line);
        j = j + 1;
        assert(shown.take(j - start) =~= shown.take(j - 1 - start).push(shown[j - 1 - start]));
    }
    assert(shown.take(total - start) =~= shown);
    lines
}

// The input

/// What stands before the input.
pub const PROMPT: &'static str = "cts6> ";

/// The input pane.
pub open spec fn input_pane(a: TuiView, area: Rect) -> PaneView {
    let focused = a.focus == Focus::Input;
    PaneView {
        area,
        title: if focused {
            " input  [Tab→stored events  F1 help] "@
        } else {
            " input  [Tab to focus] "@
        },
        title_style: Style::plain(),
        border: if focused {
            Color::Cyan
        } else {
            Color::DarkGray
        },
        lines: seq![
            seq![
                screen::span(
                    PROMPT@,
                    if focused {
                        Style::strong(Color::Cyan)
                    } else {
                        Style::color(Color::DarkGray)
                    },
                ),
                screen::span(
                    a.input,
                    if focused {
                        Style::strong(Color::White)
                    } else {
                        Style::color(Color::DarkGray)
                    },
                ),
            ],
        ],
        text_style: Style::plain(),
    }
}

/// Whether coordinates can name the place of the cursor.
pub open spec fn cursor_fits(a: TuiView, area: Rect) -> bool {
    a.focus == Focus::Input ==> area.x + 7 + screen::cells(a.cursor as int) <= u16::MAX && area.y
        < u16::MAX
}

/// The place of the cursor: behind the border, the prompt and the bytes before
/// it, at most at the pane's last column inside the border.
pub open spec fn cursor_place(a: TuiView, area: Rect) -> Option<(u16, u16)> {
    if a.focus == Focus::Input {
        Some(
            (
                screen::min_int(
                    area.x + 7 + screen::cells(a.cursor as int),
                    area.x + screen::max_int(area.width - 2, 0),
                ) as u16,
                (area.y + 1) as u16,
            ),
        )
    } else {
        None
    }
}

fn is_typing(app: &TuiApp) -> (r: bool)
    ensures
        r == (app@.focus == Focus::Input),
{
    match app.focus {
        Focus::Input => true,
        Focus::Tree => false,
    }
}

/// The input pane.
pub fn draw_input(app: &TuiApp, area: Rect) -> (r: Pane)
    ensures
        r@ == input_pane(app@, area),
{
    let focused: bool = is_typing(app);
    let mut line: Line = Line::blank();
    line.put(
        PROMPT,
        if focused {
            Style::strong(Color::Cyan)
        } else {
            Style::color(Color::DarkGray)
        },
    );
    line.put(
        app.input.as_str(),
        if focused {
            Style::strong(Color::White)
        } else {
            Style::color(Color::DarkGray)
        },
    );
    assert(line@ =~= input_pane(app@, area).lines[0]);
    let mut lines: Vec<Line> = Vec::new();
    screen::put_line(&mut lines, line);
    assert(screen::lines_view(lines@) =~= input_pane(app@, area).lines);
    Pane {
        area,
        title: String::from_str(
            if focused {
                " input  [Tab→stored events  F1 help] "
            } else {
                " input  [Tab to focus] "
            },
        ),
        title_style: Style::plain(),
        border: if focused {
            Color::Cyan
        } else {
            Color::DarkGray
        },
        lines,
        text_style: Style::plain(),
    }
}

/// Whether coordinates can name the place of the cursor.
pub fn cursor_has_place(app: &TuiApp, area: Rect) -> (r: bool)
    ensures
        r == cursor_fits(app@, area),
{
    !is_typing(app) || (area.x as u32 + 7 + screen::to_cells(app.cursor) as u32 <= u16::MAX as u32
        && area.y < u16::MAX)
}

/// The place of the cursor.
pub fn cursor_position(app: &TuiApp, area: Rect) -> (r: Option<(u16, u16)>)
    requires
        area.wf(),
        cursor_fits(app@, area),
    ensures
        r == cursor_place(app@, area),
{
    if !is_typing(app) {
        return None;
    }
    let x: u16 = area.x + 7 + screen::to_cells(app.cursor);
    let max_x: u16 = area.x + area.width.saturating_sub(2);
    Some(
        (
            if x < max_x {
                x
            } else {
                max_x
            },
            area.y + 1,
        ),
    )
}

// The screen

/// The scoreboard pane at `now_ns`.
pub open spec fn scoreboard_pane(s: StateView, area: Rect, now_ns: u64) -> PaneView {
    PaneView {
        area,
        title: " scoreboard "@,
        title_style: Style::strong(Color::Cyan),
        border: Color::Cyan,
        lines: scoreboard::board_lines(s, now_ns),
        text_style: Style::plain(),
    }
}

/// The pane of stored events.
pub open spec fn stored_pane(s: StateView, a: TuiView, area: Rect) -> PaneView {
    let focused = a.focus == Focus::Tree;
    PaneView {
        area,
        title: tree::pane_title(focused),
        title_style: Style::strong(tree::pane_color(focused)),
        border: tree::pane_color(focused),
        lines: tree::pane_lines(s, a, area.height),
        text_style: Style::plain(),
    }
}

/// The log pane.
pub open spec fn log_pane(a: TuiView, area: Rect) -> PaneView {
    PaneView {
        area,
        title: " log "@,
        title_style: Style::color(Color::DarkGray),
        border: Color::DarkGray,
        lines: log_lines(a.log, area.height),
        text_style: Style::color(Color::Gray),
    }
}

/// Everything that is drawn in `area` at `now_ns`, with the panes where `p`
/// puts them.
pub open spec fn screen_view(
    s: StateView,
    a: TuiView,
    area: Rect,
    p: Panes,
    now_ns: u64,
) -> ScreenView {
    ScreenView {
        scoreboard: scoreboard_pane(s, p.scoreboard, now_ns),
        stored: stored_pane(s, a, p.stored),
        log: log_pane(a, p.log),
        input: input_pane(a, p.input),
        cursor: cursor_place(a, p.input),
        help: if a.show_help {
            Some(popups::help_popup(a, area))
        } else {
            None
        },
        results: match a.show_results {
            Some(race_no) => popups::results_popup(s, area, race_no),
            None => None,
        },
        lineup: if a.show_lineup {
            Some(popups::lineup_popup(s, a, area))
        } else {
            None
        },
        slots: match a.show_slots {
            Some(b) => Some(slots::slots_popup(s, b, area)),
            None => None,
        },
    }
}

/// Draws in `area` at `now_ns`, with the panes where `p` puts them.
pub fn draw_panes(state: &State, app: &TuiApp, area: Rect, p: Panes, now_ns: u64) -> (r: Screen)
    requires
        state.wf(),
        app@.wf(),
        area.wf(),
        p.input.wf(),
        cursor_fits(app@, p.input),
    ensures
        r@ == screen_view(state@, app@, area, p, now_ns),
{
    let on_tree: bool = !is_typing(app);
    assert(on_tree == (app@.focus == Focus::Tree));
    let scoreboard: Pane = Pane {
        area: p.scoreboard,
        title: String::from_str(" scoreboard "),
        title_style: Style::strong(Color::Cyan),
        border: Color::Cyan,
        lines: scoreboard::draw_scoreboard(state, now_ns),
        text_style: Style::plain(),
    };
    let stored: Pane = Pane {
        area: p.stored,
        title: String::from_str(tree::pane_title_of(on_tree)),
        title_style: Style::strong(tree::pane_color_of(on_tree)),
        border: tree::pane_color_of(on_tree),
        lines: tree::draw_stored_events(state, app, p.stored.height),
        text_style: Style::plain(),
    };
    let log: Pane = Pane {
        area: p.log,
        title: String::from_str(" log "),
        title_style: Style::color(Color::DarkGray),
        border: Color::DarkGray,
        lines: draw_log(&app.log, p.log.height),
        text_style: Style::color(Color::Gray),
    };
    let help: Option<Popup> = if app.show_help {
        Some(popups::draw_help_popup(app, area))
    } else {
        None
    };
    let results: Option<Popup> = match app.show_results {
        Some(race_no) => popups::draw_results_popup(state, area, race_no),
        None => None,
    };
    let lineup: Option<Popup> = if app.show_lineup {
        Some(popups::draw_lineup_popup(state, app, area))
    } else {
        None
    };
    let slots: Option<Popup> = match app.show_slots {
        Some(b) => Some(slots::draw_slots_popup(state, b, area)),
        None => None,
    };
    let r: Screen = Screen {
        scoreboard,
        stored,
        log,
        input: draw_input(app, p.input),
        cursor: cursor_position(app, p.input),
        help,
        results,
        lineup,
        slots,
    };
    assert(r@ =~= screen_view(state@, app@, area, p, now_ns));
    r
}

/// The sizes of the screen's three bands: the scoreboard's rows, at least three
/// rows for the log, and three for the input.
pub open spec fn bands(s: StateView) -> Seq<Size> {
    seq![Size::Length(scoreboard_rows(s)), Size::Min(3), Size::Length(3)]
}

/// The sizes of the two panes in the top band: at least 40 columns for the
/// scoreboard, and 42 for the stored events.
pub open spec fn top_columns() -> Seq<Size> {
    seq![Size::Min(40), Size::Length(42)]
}

/// Whether `p` are the panes that a division of `area` into `rows`, and of the
/// first of them into `columns`, gives.
pub open spec fn is_division(
    s: StateView,
    area: Rect,
    rows: Seq<Rect>,
    columns: Seq<Rect>,
    p: Panes,
) -> bool {
    &&& screen::layout_outcome(area, true, bands(s), rows)
    &&& screen::layout_outcome(rows[0], false, top_columns(), columns)
    &&& rows.len() == 3 && columns.len() == 2
    &&& p == (Panes { scoreboard: columns[0], stored: columns[1], log: rows[1], input: rows[2] })
    &&& forall|i: int| 0 <= i < 3 ==> screen::is_slice(#[trigger] rows[i], area, true)
    &&& forall|i: int| 0 <= i < 2 ==> screen::is_slice(#[trigger] columns[i], rows[0], false)
}

/// Whether the screen may be divided into the panes `p`.
pub open spec fn divides(s: StateView, area: Rect, p: Panes) -> bool {
    exists|rows: Seq<Rect>, columns: Seq<Rect>| is_division(s, area, rows, columns, p)
}

/// Divides the screen.
pub fn divide(state: &State, area: Rect) -> (r: Panes)
    requires
        state.wf(),
    ensures
        divides(state@, area, r),
{
    let mut sizes: Vec<Size> = Vec::new();
    sizes.push(Size::Length(scoreboard_height(state)));
    sizes.push(Size::Min(3));
    sizes.push(Size::Length(3));
    assert(sizes@ =~= bands(state@));
    let rows: Vec<Rect> = screen::split(area, true, &sizes);
    let mut widths: Vec<Size> = Vec::new();
    widths.push(Size::Min(40));
    widths.push(Size::Length(42));
    assert(widths@ =~= top_columns());
    let columns: Vec<Rect> = screen::split(rows[0], false, &widths);
    let r: Panes = Panes { scoreboard: columns[0], stored: columns[1], log: rows[1], input: rows[2] };
    assert(is_division(state@, area, rows@, columns@, r));
    r
}

/// Draws in `area` at `now_ns`; nothing if the cursor is at a place that
/// coordinates cannot name.
pub fn draw(state: &State, app: &TuiApp, area: Rect, now_ns: u64) -> (r: Option<Screen>)
    requires
        state.wf(),
        app@.wf(),
        area.wf(),
    ensures
        exists|p: Panes| #[trigger]
            divides(state@, area, p) && match r {
                Some(drawn) => cursor_fits(app@, p.input) && drawn@ == screen_view(
                    state@,
                    app@,
                    area,
                    p,
                    now_ns,
                ),
                None => !cursor_fits(app@, p.input),
            },
{
    let p: Panes = divide(state, area);
    proof {
        let (rows, columns) = choose|rows: Seq<Rect>, columns: Seq<Rect>|
            is_division(state@, area, rows, columns, p);
        assert(screen::is_slice(rows[2], area, true));
    }
    if cursor_has_place(app, p.input) {
        Some(draw_panes(state, app, area, p, now_ns))
    } else {
        None
    }
}

/// The log pane shows the end of the log, and no more lines than fit.
pub proof fn law_log_pane_shows_the_end(log: Seq<Seq<char>>, height: u16)
    ensures
        log_tail(log, height).len() <= screen::max_int(height - 2, 0),
        log_tail(log, height).is_suffix_of(entry_lines(log, log.len())),
        entry_lines(log, log.len()).len() <= height - 2 ==> log_tail(log, height) == entry_lines(
            log,
            log.len(),
        ),
{
    let all = entry_lines(log, log.len());
    if all.len() <= height - 2 {
        assert(all.skip(0) =~= all);
    }
}

/// The panes lie inside the area that the screen is divided into.
pub proof fn law_panes_lie_inside(s: StateView, area: Rect, p: Panes)
    requires
        divides(s, area, p),
    ensures
        screen::lies_in(p.scoreboard, area),
        screen::lies_in(p.stored, area),
        screen::lies_in(p.log, area),
        screen::lies_in(p.input, area),
{
    let (rows, columns) = choose|rows: Seq<Rect>, columns: Seq<Rect>|
        is_division(s, area, rows, columns, p);
    assert(screen::is_slice(rows[0], area, true));
    assert(screen::is_slice(rows[1], area, true));
    assert(screen::is_slice(rows[2], area, true));
    assert(screen::is_slice(columns[0], rows[0], false));
    assert(screen::is_slice(columns[1], rows[0], false));
}

/// The lines of the log are the parts of its entries, in order.
pub proof fn law_log_entries_in_order(log: Seq<Seq<char>>, entry: Seq<char>)
    ensures
        entry_lines(Seq::empty(), 0).len() == 0,
        entry_lines(log.push(entry), log.len() + 1) == entry_lines(log, log.len())
            + text::line_parts(entry),
{
    lemma_entry_lines(log, entry, log.len());
    assert(log.push(entry)[log.len() as int] == entry);
}

proof fn lemma_entry_lines(log: Seq<Seq<char>>, entry: Seq<char>, n: nat)
    requires
        n <= log.len(),
    ensures
        entry_lines(log.push(entry), n) == entry_lines(log, n),
    decreases n,
{
    if n > 0 {
        lemma_entry_lines(log, entry, (n - 1) as nat);
        assert(log.push(entry)[n - 1] == log[n - 1]);
    }
}

/// The log pane shows as many of the last lines as there are rows between its
/// borders.
pub proof fn law_log_pane_is_full(log: Seq<Seq<char>>, height: u16, i: int)
    ensures
        ({
            let all = entry_lines(log, log.len());
            let shown = log_lines(log, height);
            let rows = if height >= 2 {
                height - 2
            } else {
                0
            };
            &&& shown.len() == (if all.len() < rows {
                all.len() as int
            } else {
                rows as int
            })
            &&& 0 <= i < shown.len() ==> shown[i].len() == 1 && shown[i][0].text == all[all.len()
                - shown.len() + i]
        }),
{
}

/// The scoreboard pane has a row for each lane in use and five more, and at
/// least seven.
pub proof fn law_scoreboard_height(s: StateView)
    requires
        s.wf(),
    ensures
        scoreboard_rows(s) == s.lane_spread.1 - s.lane_spread.0 + 6 || (scoreboard_rows(s) == 7
            && s.lane_spread.1 == s.lane_spread.0),
{
}

/// The screen is divided for the scoreboard's rows, three rows or more for the
/// log and three for the input, and the top for 40 columns or more of the
/// scoreboard and 42 of the stored events.
pub proof fn law_screen_is_divided(s: StateView)
    ensures
        bands(s).len() == 3 && bands(s)[0] == Size::Length(scoreboard_rows(s)) && bands(s)[1]
            == Size::Min(3) && bands(s)[2] == Size::Length(3),
        top_columns().len() == 2 && top_columns()[0] == Size::Min(40) && top_columns()[1]
            == Size::Length(42),
{
}

/// The input pane shows the prompt and the input. While it has the focus, the
/// cursor stands on its first row, behind the prompt by as many cells as the
/// cursor's place in the input, but not beyond the pane.
pub proof fn law_input_pane(a: TuiView, area: Rect)
    requires
        a.cursor <= 65_535,
        cursor_fits(a, area),
    ensures
        ({
            let p = input_pane(a, area);
            &&& p.area == area
            &&& p.lines.len() == 1 && p.lines[0].len() == 2
            &&& p.lines[0][0].text == PROMPT@ && p.lines[0][1].text == a.input
        }),
        a.focus == Focus::Tree ==> cursor_place(a, area) is None,
        a.focus == Focus::Input ==> ({
            let at = cursor_place(a, area)->0;
            &&& cursor_place(a, area) is Some
            &&& at.1 == area.y + 1
            &&& 7 + a.cursor <= area.width - 2 ==> at.0 == area.x + 7 + a.cursor
            &&& 7 + a.cursor > area.width - 2 && area.width >= 2 ==> at.0 == area.x + area.width - 2
            &&& area.width < 2 ==> at.0 == area.x
        }),
{
}

/// The screen shows each pane where it belongs, with the board at the time of
/// drawing, and the pop-ups that are open.
pub proof fn law_screen_shows_the_panes(
    s: StateView,
    a: TuiView,
    area: Rect,
    p: Panes,
    now_ns: u64,
)
    ensures
        ({
            let v = screen_view(s, a, area, p, now_ns);
            &&& v.scoreboard.area == p.scoreboard && v.scoreboard.lines
                == scoreboard::board_lines(s, now_ns)
            &&& v.stored.area == p.stored && v.stored.lines == tree::pane_lines(
                s,
                a,
                p.stored.height,
            )
            &&& v.log.area == p.log && v.log.lines == log_lines(a.log, p.log.height)
            &&& v.input == input_pane(a, p.input) && v.cursor == cursor_place(a, p.input)
            &&& v.help is Some <==> a.show_help
            &&& v.lineup is Some <==> a.show_lineup
            &&& v.slots is Some <==> a.show_slots is Some
            &&& v.results is Some <==> a.show_results is Some && s.races.contains_key(
                a.show_results->0,
            )
            &&& a.show_results matches Some(id) ==> v.results == popups::results_popup(s, area, id)
            &&& a.show_help ==> v.help->0 == popups::help_popup(a, area)
            &&& a.show_lineup ==> v.lineup->0 == popups::lineup_popup(s, a, area)
            &&& a.show_slots matches Some(b) ==> v.slots->0 == slots::slots_popup(s, b, area)
        }),
{
}

/// The panes come from a division of the area into three bands, the second for
/// the log and the third for the input, and of the first band into two columns,
/// for the scoreboard and the stored events. Log and input have the whole width,
/// and the two columns the height of the band.
pub proof fn law_panes_of_a_division(s: StateView, area: Rect, p: Panes)
    requires
        divides(s, area, p),
    ensures
        exists|rows: Seq<Rect>, columns: Seq<Rect>|
            {
                &&& #[trigger] screen::layout_outcome(area, true, bands(s), rows)
                &&& #[trigger] screen::layout_outcome(rows[0], false, top_columns(), columns)
                &&& p.scoreboard == columns[0] && p.stored == columns[1]
                &&& p.log == rows[1] && p.input == rows[2]
            },
        p.log.x == area.x && p.log.width == area.width,
        p.input.x == area.x && p.input.width == area.width,
        p.scoreboard.y == p.stored.y && p.scoreboard.height == p.stored.height,
{
    let (rows, columns) = choose|rows: Seq<Rect>, columns: Seq<Rect>|
        is_division(s, area, rows, columns, p);
    assert(screen::is_slice(rows[0], area, true));
    assert(screen::is_slice(rows[1], area, true));
    assert(screen::is_slice(rows[2], area, true));
    assert(screen::is_slice(columns[0], rows[0], false));
    assert(screen::is_slice(columns[1], rows[0], false));
    assert(screen::layout_outcome(area, true, bands(s), rows));
    assert(screen::layout_outcome(rows[0], false, top_columns(), columns));
}

/// The cursor has a place unless the input has the focus and its place is beyond
/// what coordinates can name.
pub proof fn law_cursor_has_a_place(a: TuiView, area: Rect)
    ensures
        a.focus == Focus::Tree ==> cursor_fits(a, area),
        a.cursor <= 65_535 && area.x + 7 + a.cursor <= 65_535 && area.y < 65_535 ==> cursor_fits(
            a,
            area,
        ),
        a.cursor > 65_535 && area.x + 7 <= 65_535 && area.y < 65_535 ==> cursor_fits(a, area),
{
}

/// The titles of the panes, and the colors of their borders, which tell where
/// the focus is.
pub proof fn law_pane_titles(s: StateView, a: TuiView, area: Rect, p: Panes, now_ns: u64)
    ensures
        ({
            let v = screen_view(s, a, area, p, now_ns);
            let typing = a.focus == Focus::Input;
            &&& v.scoreboard.title == " scoreboard "@ && v.log.title == " log "@
            &&& typing ==> v.input.title == " input  [Tab→stored events  F1 help] "@
                && v.input.border == Color::Cyan && v.stored.title
                == " stored events  [Tab to focus] "@ && v.stored.border == Color::DarkGray
            &&& !typing ==> v.input.title == " input  [Tab to focus] "@ && v.input.border
                == Color::DarkGray && v.stored.title
                == " stored events  [↑↓ ←/→ collapse/expand  ⏎ open race  Tab→input] "@
                && v.stored.border == Color::Magenta
        }),
{
}

/// What the screen holds is what its fields hold.
pub proof fn law_screen_of_fields(v: Screen)
    ensures
        v@.scoreboard == v.scoreboard@ && v@.stored == v.stored@ && v@.log == v.log@ && v@.input
            == v.input@ && v@.cursor == v.cursor,
        match v.help {
            Some(p) => v@.help == Some(p@),
            None => v@.help is None,
        },
        match v.results {
            Some(p) => v@.results == Some(p@),
            None => v@.results is None,
        },
        match v.lineup {
            Some(p) => v@.lineup == Some(p@),
            None => v@.lineup is None,
        },
        match v.slots {
            Some(p) => v@.slots == Some(p@),
            None => v@.slots is None,
        },
{
}

} // verus!
