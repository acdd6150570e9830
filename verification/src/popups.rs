//! The pop-ups: help, results of a race, and the event lineup; and how a
//! scrolled pop-up is drawn.

use std::collections::BTreeMap;

use vstd::prelude::*;
use vstd::string::*;

use crate::app::{TuiApp, TuiView};
use crate::event::EventDef;
use crate::notation;
use crate::order;
use crate::race;
use crate::race::{LaneResultRow, Race, RaceView, RowView, MAX_LANES};
use crate::running;
use crate::screen;
use crate::screen::{Color, Line, Rect, SpanView, Style};
use crate::state::{State, StateView};
use crate::text;

verus! {

/// A pop-up: where it is drawn, its title, its lines and how many of them are
/// scrolled off its top.
#[derive(Debug)]
pub struct Popup {
    pub area: Rect,
    pub title: String,
    pub lines: Vec<Line>,
    pub scroll: u16,
}

/// What a [`Popup`] holds.
#[verifier::ext_equal]
pub struct PopupView {
    pub area: Rect,
    pub title: Seq<char>,
    pub lines: Seq<Seq<SpanView>>,
    pub scroll: u16,
}

impl View for Popup {
    type V = PopupView;

    open spec fn view(&self) -> PopupView {
        PopupView {
            area: self.area,
            title: self.title@,
            lines: screen::lines_view(self.lines@),
            scroll: self.scroll,
        }
    }
}

// Help

/// A line of the help pop-up with `what` in a column of its own.
pub open spec fn entry_in(what: Seq<char>, style: Style, does: Seq<char>) -> Seq<SpanView> {
    seq![
        screen::span("  "@, Style::plain()),
        screen::span(text::pad_right(what, 22), style),
        screen::span(" "@, Style::plain()),
        screen::span(does, Style::plain()),
    ]
}

/// A command and what it does.
pub open spec fn entry(what: Seq<char>, does: Seq<char>) -> Seq<SpanView> {
    entry_in(what, Style::strong(Color::Cyan), does)
}

/// A key and what it does.
pub open spec fn key_entry(what: Seq<char>, does: Seq<char>) -> Seq<SpanView> {
    entry_in(what, Style::strong(Color::Green), does)
}

/// More about the line above.
pub open spec fn continued(does: Seq<char>) -> Seq<SpanView> {
    seq![
        screen::span("  "@, Style::plain()),
        screen::span(text::repeated(' ', 22), Style::plain()),
        screen::span(" "@, Style::plain()),
        screen::span(does, Style::color(Color::Gray)),
    ]
}

/// A heading.
pub open spec fn section(title: Seq<char>) -> Seq<SpanView> {
    seq![screen::span(title, Style::strong(Color::Yellow))]
}

/// The help on setting up a meet.
pub open spec fn setup_help() -> Seq<Seq<SpanView>> {
    seq![
        seq![
            screen::span(
                "cts6 emulator commands"@,
                Style::strong(Color::White).with_underline(),
            ),
        ],
        Seq::empty(),
        section("meet setup:"@),
        entry("/event N"@, "set active event"@),
        entry("/heat N"@, "set active heat"@),
        entry("/race N"@, "set next race number (resume mid-meet)"@),
        entry("/lanes A..B"@, "set active lane spread (1..=10,"@),
        continued("e.g. /lanes 1..10, 2..8, 1..1)"@),
        entry("/lineup show"@, "list configured events"@),
        entry("/lineup preset P [G]"@, "load preset lineup; gender defaults to Mixed:"@),
        continued("P = hs | ncaa13 | ncaa15 | ncaa16"@),
        continued("G = M | F | X"@),
        entry("/lineup add D G S [Y]"@, "add event (distance, M|F|X,"@),
        continued("stroke 1/FR 2/BK 3/BR 4/FL 5/IM"@),
        continued("6/MED-R 7/FR-R DV, optional split-yds)"@),
        entry("/lineup clear"@, "remove all events"@),
        Seq::empty(),
    ]
}

/// The help on running a race.
pub open spec fn race_help() -> Seq<Seq<SpanView>> {
    seq![
        section("running a race:"@),
        key_entry("<enter>"@, "start the race (timestamp 0.000)"@),
        key_entry("1..9"@, "touch lane 1..9 (single keypress —"@),
        continued("no Enter needed during a race)"@),
        key_entry("0"@, "touch lane 10"@),
        entry("/dq L"@, "mark lane L as DQ"@),
        entry("/  or  /print"@, "finalize: last touch per lane = finish,"@),
        continued("earlier touches = cumulative splits;"@),
        continued("places assigned by ascending finish."@),
        continued("Heat auto-bumps by 1."@),
        Seq::empty(),
    ]
}

/// The help on looking at what is stored.
pub open spec fn inspection_help() -> Seq<Seq<SpanView>> {
    seq![
        section("inspection:"@),
        entry("/races"@, "list stored races"@),
        entry("/status"@, "show current state"@),
        entry("/help"@, "this popup (Esc/Enter to close)"@),
        entry("/quit"@, "exit"@),
        Seq::empty(),
        section("stored events tree (right pane):"@),
        key_entry("Tab"@, "focus the tree (Tab/Esc returns to input)"@),
        key_entry("\u{2191} \u{2193} Home End"@, "navigate rows"@),
        key_entry("\u{2192} / Enter"@, "expand event/heat (or open results"@),
        continued("popup on a Race row)"@),
        key_entry("\u{2190}"@, "collapse (or jump to parent on a race)"@),
    ]
}

/// The lines of the help pop-up.
pub open spec fn help_lines() -> Seq<Seq<SpanView>> {
    setup_help() + race_help() + inspection_help()
}

fn put_entry_in(lines: &mut Vec<Line>, what: &str, style: Style, does: &str)
    ensures
        screen::lines_view(final(lines)@) == screen::lines_view(old(lines)@).push(
            entry_in(what@, style, does@),
        ),
{
    let mut line: Line = Line::blank();
    line.put("  ", Style::plain());
    let mut column: String = String::new();
    text::put_pad_right(&mut column, what, 22);
    assert(column@ =~= text::pad_right(what@, 22));
    line.put_string(column, style);
    line.put(" ", Style::plain());
    line.put(does, Style::plain());
    assert(line@ =~= entry_in(what@, style, does@));
    screen::put_line(lines, line);
}

fn put_entry(lines: &mut Vec<Line>, what: &str, does: &str)
    ensures
        screen::lines_view(final(lines)@) == screen::lines_view(old(lines)@).push(
            entry(what@, does@),
        ),
{
    put_entry_in(lines, what, Style::strong(Color::Cyan), does);
}

fn put_key_entry(lines: &mut Vec<Line>, what: &str, does: &str)
    ensures
        screen::lines_view(final(lines)@) == screen::lines_view(old(lines)@).push(
            key_entry(what@, does@),
        ),
{
    put_entry_in(lines, what, Style::strong(Color::Green), does);
}

fn put_continued(lines: &mut Vec<Line>, does: &str)
    ensures
        screen::lines_view(final(lines)@) == screen::lines_view(old(lines)@).push(
            continued(does@),
        ),
{
    let mut line: Line = Line::blank();
    line.put("  ", Style::plain());
    let mut column: String = String::new();
    text::put_repeated(&mut column, ' ', 22);
    assert(column@ =~= text::repeated(' ', 22));
    line.put_string(column, Style::plain());
    line.put(" ", Style::plain());
    line.put(does, Style::color(Color::Gray));
    assert(line@ =~= continued(does@));
    screen::put_line(lines, line);
}

fn put_section(lines: &mut Vec<Line>, title: &str)
    ensures
        screen::lines_view(final(lines)@) == screen::lines_view(old(lines)@).push(section(title@)),
{
    screen::put_line(lines, Line::single(title, Style::strong(Color::Yellow)));
}

fn put_setup_help(lines: &mut Vec<Line>)
    ensures
        screen::lines_view(final(lines)@) == screen::lines_view(old(lines)@) + setup_help(),
{
    let ghost before = screen::lines_view(lines@);
    screen::put_line(
        lines,
        Line::single(
            "cts6 emulator commands",
            Style::strong(Color::White).with_underline(),
        ),
    );
    screen::put_line(lines, Line::blank());
    put_section(lines, "meet setup:");
    put_entry(lines, "/event N", "set active event");
    put_entry(lines, "/heat N", "set active heat");
    put_entry(lines, "/race N", "set next race number (resume mid-meet)");
    put_entry(lines, "/lanes A..B", "set active lane spread (1..=10,");
    put_continued(lines, "e.g. /lanes 1..10, 2..8, 1..1)");
    put_entry(lines, "/lineup show", "list configured events");
    put_entry(lines, "/lineup preset P [G]", "load preset lineup; gender defaults to Mixed:");
    put_continued(lines, "P = hs | ncaa13 | ncaa15 | ncaa16");
    put_continued(lines, "G = M | F | X");
    put_entry(lines, "/lineup add D G S [Y]", "add event (distance, M|F|X,");
    put_continued(lines, "stroke 1/FR 2/BK 3/BR 4/FL 5/IM");
    put_continued(lines, "6/MED-R 7/FR-R DV, optional split-yds)");
    put_entry(lines, "/lineup clear", "remove all events");
    screen::put_line(lines, Line::blank());
    assert(screen::lines_view(lines@) =~= before + setup_help());
}

fn put_race_help(lines: &mut Vec<Line>)
    ensures
        screen::lines_view(final(lines)@) == screen::lines_view(old(lines)@) + race_help(),
{
    let ghost before = screen::lines_view(lines@);
    put_section(lines, "running a race:");
    put_key_entry(lines, "<enter>", "start the race (timestamp 0.000)");
    put_key_entry(lines, "1..9", "touch lane 1..9 (single keypress —");
    put_continued(lines, "no Enter needed during a race)");
    put_key_entry(lines, "0", "touch lane 10");
    put_entry(lines, "/dq L", "mark lane L as DQ");
    put_entry(lines, "/  or  /print", "finalize: last touch per lane = finish,");
    put_continued(lines, "earlier touches = cumulative splits;");
    put_continued(lines, "places assigned by ascending finish.");
    put_continued(lines, "Heat auto-bumps by 1.");
    screen::put_line(lines, Line::blank());
    assert(screen::lines_view(lines@) =~= before + race_help());
}

fn put_inspection_help(lines: &mut Vec<Line>)
    ensures
        screen::lines_view(final(lines)@) == screen::lines_view(old(lines)@) + inspection_help(),
{
    let ghost before = screen::lines_view(lines@);
    put_section(lines, "inspection:");
    put_entry(lines, "/races", "list stored races");
    put_entry(lines, "/status", "show current state");
    put_entry(lines, "/help", "this popup (Esc/Enter to close)");
    put_entry(lines, "/quit", "exit");
    screen::put_line(lines, Line::blank());
    put_section(lines, "stored events tree (right pane):");
    put_key_entry(lines, "Tab", "focus the tree (Tab/Esc returns to input)");
    put_key_entry(lines, "\u{2191} \u{2193} Home End", "navigate rows");
    put_key_entry(lines, "\u{2192} / Enter", "expand event/heat (or open results");
    put_continued(lines, "popup on a Race row)");
    put_key_entry(lines, "\u{2190}", "collapse (or jump to parent on a race)");
    assert(screen::lines_view(lines@) =~= before + inspection_help());
}

/// The lines of the help pop-up.
pub fn build_help_lines() -> (r: Vec<Line>)
    ensures
        screen::lines_view(r@) == help_lines(),
{
    let mut lines: Vec<Line> = Vec::new();
    assert(screen::lines_view(lines@) =~= Seq::<Seq<SpanView>>::empty());
    put_setup_help(&mut lines);
    put_race_help(&mut lines);
    put_inspection_help(&mut lines);
    assert(screen::lines_view(lines@) =~= help_lines());
    lines
}

/// Title of a pop-up whose lines may not all fit: where they do not, how far it
/// is scrolled and what its keys do.
pub open spec fn scroll_title(
    name: Seq<char>,
    scroll: u16,
    limit: u16,
    hint: Seq<char>,
    closed: Seq<char>,
) -> Seq<char> {
    if limit > 0 {
        " "@ + name + " ["@ + text::dec((scroll + 1) as nat) + "/"@ + text::dec(
            (limit + 1) as nat,
        ) + "]"@ + hint
    } else {
        closed
    }
}

fn scroll_title_of(name: &str, scroll: u16, limit: u16, hint: &str, closed: &str) -> (r: String)
    ensures
        r@ == scroll_title(name@, scroll, limit, hint@, closed@),
{
    if limit > 0 {
        let mut s: String = String::from_str(" ");
        s.append(name);
        s.append(" [");
        text::put_dec(&mut s, scroll as u64 + 1);
        s.append("/");
        text::put_dec(&mut s, limit as u64 + 1);
        s.append("]");
        s.append(hint);
        s
    } else {
        String::from_str(closed)
    }
}

/// A pop-up in `area` for lines of `content_w` cells, scrolled by `scroll` lines
/// as far as that is possible.
pub open spec fn scrolled_popup(
    area: Rect,
    lines: Seq<Seq<SpanView>>,
    content_w: u16,
    least: (u16, u16),
    scroll: u16,
    name: Seq<char>,
    hint: Seq<char>,
    closed: Seq<char>,
) -> PopupView {
    let content_h = screen::cells(lines.len() as int);
    let rect = screen::popup_rect(area, content_w, content_h, least.0, least.1);
    let limit = screen::scroll_range(content_h, rect.height);
    let shown = screen::min_int(scroll as int, limit as int) as u16;
    PopupView {
        area: rect,
        title: scroll_title(name, shown, limit, hint, closed),
        lines,
        scroll: shown,
    }
}

pub(crate) fn scrolled(
    area: Rect,
    lines: Vec<Line>,
    content_w: u16,
    least: (u16, u16),
    scroll: u16,
    name: &str,
    hint: &str,
    closed: &str,
) -> (r: Popup)
    requires
        area.wf(),
    ensures
        r@ == scrolled_popup(
            area,
            screen::lines_view(lines@),
            content_w,
            least,
            scroll,
            name@,
            hint@,
            closed@,
        ),
{
    let content_h: u16 = screen::to_cells(lines.len());
    let rect: Rect = screen::popup(area, content_w, content_h, least.0, least.1);
    let limit: u16 = screen::scroll_limit(content_h, rect.height);
    let shown: u16 = if scroll < limit {
        scroll
    } else {
        limit
    };
    Popup { area: rect, title: scroll_title_of(name, shown, limit, hint, closed), lines, scroll: shown }
}

/// The help pop-up.
pub open spec fn help_popup(a: TuiView, area: Rect) -> PopupView {
    scrolled_popup(
        area,
        help_lines(),
        screen::longest(help_lines(), help_lines().len()),
        (20, 5),
        a.help_scroll,
        "help"@,
        "  Esc to close "@,
        " help — Esc/Enter to close "@,
    )
}

pub fn draw_help_popup(app: &TuiApp, area: Rect) -> (r: Popup)
    requires
        area.wf(),
    ensures
        r@ == help_popup(app@, area),
{
    let lines: Vec<Line> = build_help_lines();
    let content_w: u16 = screen::longest_line(&lines);
    scrolled(
        area,
        lines,
        content_w,
        (20, 5),
        app.help_scroll,
        "help",
        "  Esc to close ",
        " help — Esc/Enter to close ",
    )
}

/// How many lines of the help its pop-up has no room for on a terminal of
/// `term_h` rows.
pub fn help_max_scroll(term_h: u16) -> (r: u16)
    ensures
        r == screen::max_scroll(screen::cells(help_lines().len() as int), term_h, 5),
{
    let lines: Vec<Line> = build_help_lines();
    screen::max_scroll_of(screen::to_cells(lines.len()), term_h, 5)
}

// Results

/// Where lane index `i` stands in the list of results: placed lanes by place,
/// then the disqualified ones, then the others, each by lane.
pub open spec fn result_rank(row: RowView, i: int) -> int {
    (if row.place > 0 {
        0int
    } else if row.lane.dq {
        1
    } else {
        2
    }) * 0x1_0000 + row.place * 0x100 + i
}

/// Whether a lane stands at `x` in the list of results.
pub open spec fn ranked(r: RaceView, x: int) -> bool {
    let i = x % 0x100;
    i < r.lanes.len() && r.lanes[i] is Some && result_rank(r.lanes[i]->0, i) == x
}

/// The ranks of a race's lanes, ascending.
pub open spec fn result_ranks(r: RaceView) -> Seq<int> {
    order::ascending(|x: int| ranked(r, x), 0x100_0000)
}

/// Place of a row, a dash without one.
pub open spec fn result_place(row: RowView) -> Seq<char> {
    if row.place > 0 {
        notation::place_text(row.place)
    } else {
        "—"@
    }
}

/// Finish of a row.
pub open spec fn result_finish(row: RowView) -> SpanView {
    if row.lane.dq {
        screen::span(text::pad_left("DQ"@, 10) + "  "@, Style::strong(Color::Red))
    } else if row.lane.touches.len() == 0 {
        screen::span(text::pad_left("—"@, 10) + "  "@, Style::color(Color::DarkGray))
    } else {
        screen::span(
            text::pad_left(notation::time_text(row.lane.finish()), 10) + "  "@,
            Style::strong(Color::White),
        )
    }
}

/// The first `n` splits, with two blanks between them.
pub open spec fn split_spans(splits: Seq<u32>, n: nat) -> Seq<SpanView>
    decreases n,
{
    if n == 0 {
        Seq::empty()
    } else if n == 1 {
        seq![screen::span(notation::time_text(splits[0]), Style::color(Color::Gray))]
    } else {
        split_spans(splits, (n - 1) as nat).push(screen::span("  "@, Style::plain())).push(
            screen::span(notation::time_text(splits[n - 1]), Style::color(Color::Gray)),
        )
    }
}

/// The row of lane index `i` in the list of results.
pub open spec fn result_spans(row: RowView, i: int) -> Seq<SpanView> {
    let splits = row.lane.splits();
    seq![
        screen::span(
            "  "@ + text::pad_left(result_place(row), 3) + "  "@,
            Style::strong(Color::Yellow),
        ),
        screen::span(
            "Lane"@ + text::pad_left(text::dec((i + 1) as nat), 2) + "  "@,
            Style::strong(Color::Cyan),
        ),
        result_finish(row),
    ] + if splits.len() == 0 {
        seq![screen::span("(no splits)"@, Style::color(Color::DarkGray))]
    } else {
        split_spans(splits, splits.len())
    }
}

/// What stands above the list of results.
pub open spec fn results_head(s: StateView, r: RaceView) -> Seq<Seq<SpanView>> {
    seq![
        seq![
            screen::span("  Race "@ + text::dec(r.id as nat) + "  "@, Style::strong(Color::Cyan)),
            screen::span(
                "Event "@ + text::dec(r.event as nat) + "  "@ + running::event_title(s, r.event)
                    + "  "@,
                Style::color(Color::White),
            ),
            screen::span("Heat "@ + text::dec(r.heat as nat), Style::color(Color::Yellow)),
        ],
        Seq::empty(),
        seq![
            screen::span(
                "  Pl   Lane    Finish        Splits (cumulative)"@,
                Style::strong(Color::DarkGray),
            ),
        ],
        seq![
            screen::span(
                "  ─────────────────────────────────────────────────────────────"@,
                Style::color(Color::DarkGray),
            ),
        ],
    ]
}

/// The list of results.
pub open spec fn result_rows(r: RaceView) -> Seq<Seq<SpanView>> {
    if result_ranks(r).len() == 0 {
        seq![seq![screen::span("  (no lane data recorded)"@, Style::color(Color::DarkGray))]]
    } else {
        result_ranks(r).map_values(|x: int| result_spans(r.lanes[x % 0x100]->0, x % 0x100))
    }
}

/// The lines of the results pop-up.
pub open spec fn results_lines(s: StateView, r: RaceView) -> Seq<Seq<SpanView>> {
    results_head(s, r) + result_rows(r) + seq![
        Seq::empty(),
        seq![screen::span("  Esc/Enter to close"@, Style::color(Color::DarkGray))],
    ]
}

/// The results pop-up of race `race_no`, none if it is not stored.
pub open spec fn results_popup(s: StateView, area: Rect, race_no: u16) -> Option<PopupView> {
    match s.race(race_no) {
        None => None,
        Some(r) => {
            let lines = results_lines(s, r);
            Some(
                PopupView {
                    area: screen::popup_rect(
                        area,
                        screen::widest(lines, lines.len()),
                        screen::cells(lines.len() as int),
                        30,
                        7,
                    ),
                    title: " race "@ + text::dec(r.id as nat)
                        + " results — Esc/Enter to close "@,
                    lines,
                    scroll: 0,
                },
            )
        },
    }
}

fn padded(s: &str, width: usize) -> (r: String)
    ensures
        r@ == text::pad_left(s@, width as int),
{
    let mut out: String = String::new();
    text::put_pad_left(&mut out, s, width);
    assert(out@ =~= text::pad_left(s@, width as int));
    out
}

fn put_splits(line: &mut Line, splits: &[u32])
    ensures
        final(line)@ == old(line)@ + split_spans(splits@, splits@.len()),
{
    let ghost before = line@;
    let n: usize = splits.len();
    let mut j: usize = 0;
    assert(before + split_spans(splits@, 0) =~= before);
    while j < n
        invariant
            n == splits@.len(),
            j <= n,
            line@ == before + split_spans(splits@, j as nat),
        decreases n - j,
    {
        if j > 0 {
            line.put("  ", Style::plain());
        }
        line.put_string(notation::fmt_time(splits[j]), Style::color(Color::Gray));
        j = j + 1;
        assert(line@ =~= before + split_spans(splits@, j as nat));
    }
}

fn result_line(row: &LaneResultRow, i: usize) -> (r: Line)
    requires
        i < MAX_LANES,
    ensures
        r@ == result_spans(row@, i as int),
{
    let place: String = if row.place > 0 {
        notation::place_label(row.place)
    } else {
        String::from_str("—")
    };
    let mut line: Line = Line::blank();
    let mut first: String = String::from_str("  ");
    let column: String = padded(place.as_str(), 3);
    first.append(column.as_str());
    first.append("  ");
    line.put_string(first, Style::strong(Color::Yellow));
    let mut lane: String = String::from_str("Lane");
    text::put_dec_left(&mut lane, (i + 1) as u64, 2);
    lane.append("  ");
    line.put_string(lane, Style::strong(Color::Cyan));
    if row.lane.dq {
        let mut s: String = padded("DQ", 10);
        s.append("  ");
        line.put_string(s, Style::strong(Color::Red));
    } else if row.lane.touches_ms.len() == 0 {
        let mut s: String = padded("—", 10);
        s.append("  ");
        line.put_string(s, Style::color(Color::DarkGray));
    } else {
        let time: String = notation::fmt_time(row.lane.finish_ms());
        let mut s: String = padded(time.as_str(), 10);
        s.append("  ");
        line.put_string(s, Style::strong(Color::White));
    }
    let ghost head = line@;
    let splits: &[u32] = row.lane.split_prefix();
    if splits.len() == 0 {
        line.put("(no splits)", Style::color(Color::DarkGray));
    } else {
        put_splits(&mut line, splits);
    }
    assert(line@ =~= result_spans(row@, i as int));
    line
}

/// The ranks of a race's lanes, ascending.
fn list_ranks(r: &Race) -> (out: Vec<u32>)
    requires
        r@.wf(),
    ensures
        order::ints32(out@) == result_ranks(r@),
{
    let mut m: BTreeMap<u32, ()> = BTreeMap::new();
    let mut i: usize = 0;
    while i < MAX_LANES
        invariant
            r@.wf(),
            i <= MAX_LANES,
            forall|x: u32|
                #![trigger m@.contains_key(x)]
                m@.contains_key(x) <==> x < 0x100_0000 && ranked(r@, x as int) && x % 0x100 < i,
        decreases MAX_LANES - i,
    {
        assert(r@.lanes[i as int] == race::row_view(r.lanes@[i as int]));
        match &r.lanes[i] {
            Some(row) => {
                let group: u32 = if row.place > 0 {
                    0
                } else if row.lane.dq {
                    1
                } else {
                    2
                };
                let rank: u32 = group * 0x1_0000 + row.place as u32 * 0x100 + i as u32;
                assert(rank == result_rank(row@, i as int));
                assert(rank % 0x100 == i);
                let ghost before = m@;
                m.insert(rank, ());
                assert forall|x: u32| #[trigger] m@.contains_key(x) <==> x < 0x100_0000 && ranked(
                    r@,
                    x as int,
                ) && x % 0x100 < i + 1 by {
                    assert(m@.contains_key(x) <==> before.contains_key(x) || x == rank);
                    if x % 0x100 == i {
                        assert(ranked(r@, x as int) <==> x == rank);
                    }
                }
            },
            None => {
                assert forall|x: u32| x % 0x100 == i implies !ranked(r@, x as int) by {}
            },
        }
        i = i + 1;
    }
    let out: Vec<u32> = order::sorted_keys32(&m);
    proof {
        let p = |x: int| m@.contains_key(x as u32);
        let q = |x: int| ranked(r@, x);
        assert forall|x: int| 0 <= x < 0x100_0000 implies #[trigger] p(x) == q(x) by {
            assert(m@.contains_key(x as u32) <==> ranked(r@, x) && x % 0x100 < MAX_LANES);
        }
        order::lemma_ascending_same(p, q, 0x100_0000);
    }
    out
}

fn put_results_head(lines: &mut Vec<Line>, state: &State, r: &Race)
    ensures
        screen::lines_view(final(lines)@) == screen::lines_view(old(lines)@) + results_head(
            state@,
            r@,
        ),
{
    let ghost before = screen::lines_view(lines@);
    let mut first: Line = Line::blank();
    let mut s: String = String::from_str("  Race ");
    text::put_dec(&mut s, r.id as u64);
    s.append("  ");
    first.put_string(s, Style::strong(Color::Cyan));
    let mut s: String = String::from_str("Event ");
    text::put_dec(&mut s, r.event as u64);
    s.append("  ");
    let title: String = running::event_title_of(state, r.event);
    s.append(title.as_str());
    s.append("  ");
    first.put_string(s, Style::color(Color::White));
    let mut s: String = String::from_str("Heat ");
    text::put_dec(&mut s, r.heat as u64);
    first.put_string(s, Style::color(Color::Yellow));
    assert(first@ =~= results_head(state@, r@)[0]);
    screen::put_line(lines, first);
    screen::put_line(lines, Line::blank());
    screen::put_line(
        lines,
        Line::single(
            "  Pl   Lane    Finish        Splits (cumulative)",
            Style::strong(Color::DarkGray),
        ),
    );
    screen::put_line(
        lines,
        Line::single(
            "  ─────────────────────────────────────────────────────────────",
            Style::color(Color::DarkGray),
        ),
    );
    assert(screen::lines_view(lines@) =~= before + results_head(state@, r@));
}

fn put_result_rows(lines: &mut Vec<Line>, r: &Race)
    requires
        r@.wf(),
    ensures
        screen::lines_view(final(lines)@) == screen::lines_view(old(lines)@) + result_rows(r@),
{
    let ghost before = screen::lines_view(lines@);
    let ghost all = result_rows(r@);
    let ranks: Vec<u32> = list_ranks(r);
    let n: usize = ranks.len();
    assert(result_ranks(r@).len() == n);
    if n == 0 {
        screen::put_line(
            lines,
            Line::single("  (no lane data recorded)", Style::color(Color::DarkGray)),
        );
        assert(screen::lines_view(lines@) =~= before + all);
        return;
    }
    proof {
        order::lemma_ascending(|x: int| ranked(r@, x), 0x100_0000);
    }
    let mut j: usize = 0;
    assert(before + all.take(0) =~= before);
    while j < n
        invariant
            r@.wf(),
            n == ranks@.len(),
            n > 0,
            order::ints32(ranks@) == result_ranks(r@),
            all == result_rows(r@),
            all.len() == n,
            forall|j: int|
                0 <= j < result_ranks(r@).len() ==> ranked(r@, #[trigger] result_ranks(r@)[j]),
            j <= n,
            screen::lines_view(lines@) == before + all.take(j as int),
        decreases n - j,
    {
        let x: u32 = ranks[j];
        assert(result_ranks(r@)[j as int] == x as int);
        assert(ranked(r@, x as int));
        let i: usize = (x % 0x100) as usize;
        assert(r@.lanes[i as int] == race::row_view(r.lanes@[i as int]));
        match &r.lanes[i] {
            Some(row) => {
                let line: Line = result_line(row, i);
                assert(line@ == all[j as int]);
                screen::put_line(lines, line);
            },
            None => {
                assert(false);
            },
        }
        j = j + 1;
        assert((before + all.take(j - 1)).push(all[j - 1]) =~= before + all.take(j as int));
    }
    assert(all.take(n as int) =~= all);
}

/// The results pop-up of race `race_no`.
pub fn draw_results_popup(state: &State, area: Rect, race_no: u16) -> (r: Option<Popup>)
    requires
        state.wf(),
        area.wf(),
    ensures
        match r {
            Some(p) => results_popup(state@, area, race_no) == Some(p@),
            None => results_popup(state@, area, race_no) is None,
        },
{
    match state.lookup_by_race(race_no) {
        None => None,
        Some(race) => {
            let mut lines: Vec<Line> = Vec::new();
            assert(screen::lines_view(lines@) =~= Seq::<Seq<SpanView>>::empty());
            put_results_head(&mut lines, state, race);
            put_result_rows(&mut lines, race);
            screen::put_line(&mut lines, Line::blank());
            screen::put_line(
                &mut lines,
                Line::single("  Esc/Enter to close", Style::color(Color::DarkGray)),
            );
            assert(screen::lines_view(lines@) =~= results_lines(state@, race@));
            let rect: Rect = screen::popup(
                area,
                screen::widest_line(&lines),
                screen::to_cells(lines.len()),
                30,
                7,
            );
            let mut title: String = String::from_str(" race ");
            text::put_dec(&mut title, race.id as u64);
            title.append(" results — Esc/Enter to close ");
            Some(Popup { area: rect, title, lines, scroll: 0 })
        },
    }
}

// Lineup

/// The row of event number `num`; `current` marks the active event.
pub open spec fn lineup_spans(num: u16, current: bool, e: EventDef) -> Seq<SpanView> {
    seq![
        screen::span(
            "  "@ + (if current {
                "→"@
            } else {
                " "@
            }) + " "@ + text::pad_left(text::dec(num as nat), 3) + "  "@,
            Style::strong(Color::Yellow),
        ),
        screen::span(
            text::pad_right(e.label_text(), 18) + " "@,
            if current {
                Style::strong(Color::Yellow)
            } else {
                Style::color(Color::White)
            },
        ),
        screen::span(
            text::pad_left(text::dec(e.split_yards as nat), 3) + "yd     "@,
            Style::color(Color::Gray),
        ),
        screen::span(
            text::pad_left(text::dec(e.segments()), 3) + " touch"@ + notation::plural_text(
                e.segments() as int,
                " "@,
                "es"@,
            ),
            Style::color(Color::Gray),
        ),
    ]
}

/// The rows of the lineup.
pub open spec fn lineup_rows(s: StateView) -> Seq<Seq<SpanView>> {
    Seq::new(
        s.lineup.len(),
        |i: int|
            lineup_spans(
                screen::cells(i + 1),
                screen::cells(i + 1) == s.current_event,
                s.lineup[i],
            ),
    )
}

/// What stands above the lineup.
pub open spec fn lineup_head(s: StateView) -> Seq<Seq<SpanView>> {
    seq![
        seq![
            screen::span("  Event Lineup  "@, Style::strong(Color::Cyan)),
            screen::span(
                "("@ + text::dec(s.lineup.len()) + " event"@ + notation::plural_text(
                    s.lineup.len() as int,
                    ""@,
                    "s"@,
                ) + ")"@,
                Style::color(Color::Gray),
            ),
        ],
        Seq::empty(),
    ]
}

/// The lines of the lineup pop-up.
pub open spec fn lineup_lines(s: StateView) -> Seq<Seq<SpanView>> {
    lineup_head(s) + (if s.lineup.len() == 0 {
        seq![
            seq![
                screen::span(
                    "  (no lineup configured — try /lineup preset hs)"@,
                    Style::color(Color::DarkGray),
                ),
            ],
        ]
    } else {
        seq![
            seq![
                screen::span(
                    "  #     Event              Splits    Touches"@,
                    Style::strong(Color::DarkGray),
                ),
            ],
            seq![
                screen::span(
                    "  ──────────────────────────────────────────────────"@,
                    Style::color(Color::DarkGray),
                ),
            ],
        ] + lineup_rows(s)
    }) + seq![
        Seq::empty(),
        seq![
            screen::span(
                "  ↑↓ PgUp/PgDn scroll  Esc/Enter to close"@,
                Style::color(Color::DarkGray),
            ),
        ],
    ]
}

fn lineup_line(num: u16, current: bool, e: &EventDef) -> (r: Line)
    ensures
        r@ == lineup_spans(num, current, *e),
{
    let mut line: Line = Line::blank();
    let mut first: String = String::from_str("  ");
    first.append(
        if current {
            "→"
        } else {
            " "
        },
    );
    first.append(" ");
    text::put_dec_left(&mut first, num as u64, 3);
    first.append("  ");
    line.put_string(first, Style::strong(Color::Yellow));
    let mut name: String = String::new();
    let label: String = e.label();
    text::put_pad_right(&mut name, label.as_str(), 18);
    assert(name@ =~= text::pad_right(e.label_text(), 18));
    name.append(" ");
    line.put_string(
        name,
        if current {
            Style::strong(Color::Yellow)
        } else {
            Style::color(Color::White)
        },
    );
    let yards: String = text::dec_string(e.split_yards as u64);
    let mut splits: String = padded(yards.as_str(), 3);
    splits.append("yd     ");
    line.put_string(splits, Style::color(Color::Gray));
    let segs: u16 = e.total_segments();
    let count: String = text::dec_string(segs as u64);
    let mut touches: String = padded(count.as_str(), 3);
    touches.append(" touch");
    touches.append(notation::plural(segs as usize, " ", "es"));
    line.put_string(touches, Style::color(Color::Gray));
    assert(line@ =~= lineup_spans(num, current, *e));
    line
}

fn put_lineup_rows(lines: &mut Vec<Line>, state: &State)
    ensures
        screen::lines_view(final(lines)@) == screen::lines_view(old(lines)@) + lineup_rows(state@),
{
    let ghost before = screen::lines_view(lines@);
    let ghost all = lineup_rows(state@);
    let n: usize = state.lineup.len();
    let mut i: usize = 0;
    assert(before + all.take(0) =~= before);
    while i < n
        invariant
            n == state.lineup@.len(),
            all == lineup_rows(state@),
            i <= n,
            screen::lines_view(lines@) == before + all.take(i as int),
        decreases n - i,
    {
        let num: u16 = screen::to_cells(i + 1);
        let line: Line = lineup_line(num, num == state.current_event, &state.lineup[i]);
        assert(line@ == all[i as int]);
        screen::put_line(lines, line);
        i = i + 1;
        assert((before + all.take(i - 1)).push(all[i - 1]) =~= before + all.take(i as int));
    }
    assert(all.take(n as int) =~= all);
}

/// The lines of the lineup pop-up.
pub fn build_lineup_lines(state: &State) -> (r: Vec<Line>)
    ensures
        screen::lines_view(r@) == lineup_lines(state@),
{
    let n: usize = state.lineup.len();
    let mut lines: Vec<Line> = Vec::new();
    let mut first: Line = Line::blank();
    first.put("  Event Lineup  ", Style::strong(Color::Cyan));
    let mut count: String = String::from_str("(");
    text::put_dec(&mut count, n as u64);
    count.append(" event");
    count.append(notation::plural(n, "", "s"));
    count.append(")");
    first.put_string(count, Style::color(Color::Gray));
    assert(first@ =~= lineup_head(state@)[0]);
    screen::put_line(&mut lines, first);
    screen::put_line(&mut lines, Line::blank());
    assert(screen::lines_view(lines@) =~= lineup_head(state@));
    if n == 0 {
        screen::put_line(
            &mut lines,
            Line::single(
                "  (no lineup configured — try /lineup preset hs)",
                Style::color(Color::DarkGray),
            ),
        );
    } else {
        screen::put_line(
            &mut lines,
            Line::single(
                "  #     Event              Splits    Touches",
                Style::strong(Color::DarkGray),
            ),
        );
        screen::put_line(
            &mut lines,
            Line::single(
                "  ──────────────────────────────────────────────────",
                Style::color(Color::DarkGray),
            ),
        );
        put_lineup_rows(&mut lines, state);
    }
    screen::put_line(&mut lines, Line::blank());
    screen::put_line(
        &mut lines,
        Line::single("  ↑↓ PgUp/PgDn scroll  Esc/Enter to close", Style::color(Color::DarkGray)),
    );
    assert(screen::lines_view(lines@) =~= lineup_lines(state@));
    lines
}

/// The lineup pop-up.
pub open spec fn lineup_popup(s: StateView, a: TuiView, area: Rect) -> PopupView {
    let lines = lineup_lines(s);
    scrolled_popup(
        area,
        lines,
        screen::widest(lines, lines.len()),
        (30, 7),
        a.lineup_scroll,
        "event lineup"@,
        "  ↑↓ PgUp/PgDn scroll  Esc to close "@,
        " event lineup — Esc/Enter to close "@,
    )
}

pub fn draw_lineup_popup(state: &State, app: &TuiApp, area: Rect) -> (r: Popup)
    requires
        area.wf(),
    ensures
        r@ == lineup_popup(state@, app@, area),
{
    let lines: Vec<Line> = build_lineup_lines(state);
    let content_w: u16 = screen::widest_line(&lines);
    scrolled(
        area,
        lines,
        content_w,
        (30, 7),
        app.lineup_scroll,
        "event lineup",
        "  ↑↓ PgUp/PgDn scroll  Esc to close ",
        " event lineup — Esc/Enter to close ",
    )
}

/// How far the lineup can be scrolled on a terminal of `term_h` rows.
pub fn lineup_max_scroll(state: &State, term_h: u16) -> (r: u16)
    ensures
        r == screen::max_scroll(screen::cells(lineup_lines(state@).len() as int), term_h, 7),
{
    let lines: Vec<Line> = build_lineup_lines(state);
    screen::max_scroll_of(screen::to_cells(lines.len()), term_h, 7)
}

/// The list of results has every lane with a row, and no lane twice.
pub proof fn law_results_list_every_lane_once(r: RaceView, i: int)
    requires
        r.wf(),
        0 <= i < MAX_LANES,
    ensures
        r.lanes[i] is Some ==> exists|j: int|
            0 <= j < result_ranks(r).len() && #[trigger] result_ranks(r)[j] % 0x100 == i,
        forall|j: int, k: int|
            0 <= j < k < result_ranks(r).len() ==> #[trigger] result_ranks(r)[j] % 0x100
                != #[trigger] result_ranks(r)[k] % 0x100,
{
    let q = |x: int| ranked(r, x);
    order::lemma_ascending(q, 0x100_0000);
    let ranks = result_ranks(r);
    if r.lanes[i] is Some {
        let x = result_rank(r.lanes[i]->0, i);
        assert(x % 0x100 == i);
        assert(q(x));
        assert(ranks.contains(x));
        let j = choose|j: int| 0 <= j < ranks.len() && ranks[j] == x;
        assert(ranks[j] % 0x100 == i);
    }
    assert forall|j: int, k: int| 0 <= j < k < ranks.len() implies #[trigger] ranks[j] % 0x100
        != #[trigger] ranks[k] % 0x100 by {
        assert(q(ranks[j]) && q(ranks[k]));
        assert(ranks[j] < ranks[k]);
    }
}

/// In the list of results the lanes with a place come first, by place.
pub proof fn law_results_follow_the_places(r: RaceView, j: int, k: int)
    requires
        r.wf(),
        0 <= j < k < result_ranks(r).len(),
    ensures
        ({
            let first = r.lanes[result_ranks(r)[j] % 0x100]->0;
            let second = r.lanes[result_ranks(r)[k] % 0x100]->0;
            second.place > 0 ==> 0 < first.place <= second.place
        }),
{
    let q = |x: int| ranked(r, x);
    order::lemma_ascending(q, 0x100_0000);
    let ranks = result_ranks(r);
    assert(q(ranks[j]) && q(ranks[k]));
    assert(ranks[j] < ranks[k]);
}

/// A scrolled pop-up shows its lines from as far down as asked, and no further
/// than its last line at its bottom. Its title says so, where not all lines fit.
pub proof fn law_scrolled_popup(
    area: Rect,
    lines: Seq<Seq<SpanView>>,
    content_w: u16,
    least: (u16, u16),
    scroll: u16,
    name: Seq<char>,
    hint: Seq<char>,
    closed: Seq<char>,
)
    requires
        lines.len() <= 65_535,
    ensures
        ({
            let p = scrolled_popup(area, lines, content_w, least, scroll, name, hint, closed);
            let limit = screen::scroll_range(lines.len() as u16, p.area.height);
            &&& p.lines == lines
            &&& p.area == screen::popup_rect(
                area,
                content_w,
                lines.len() as u16,
                least.0,
                least.1,
            )
            &&& scroll <= limit ==> p.scroll == scroll
            &&& scroll > limit ==> p.scroll == limit
            &&& limit == 0 ==> p.title == closed
            &&& limit > 0 ==> p.title == " "@ + name + " ["@ + text::dec((p.scroll + 1) as nat)
                + "/"@ + text::dec((limit + 1) as nat) + "]"@ + hint
        }),
{
}

/// The rows of the results are in order: lanes with a place by place, then those
/// disqualified, then any others; of equal ones the lower lane comes first.
pub proof fn law_results_are_in_order(r: RaceView, j: int, k: int)
    requires
        r.wf(),
        0 <= j < k < result_ranks(r).len(),
    ensures
        ({
            let a = result_ranks(r)[j] % 0x100;
            let b = result_ranks(r)[k] % 0x100;
            let first = r.lanes[a]->0;
            let second = r.lanes[b]->0;
            &&& 0 <= a < 10 && 0 <= b < 10 && r.lanes[a] is Some && r.lanes[b] is Some
            &&& first.place == 0 ==> second.place == 0
            &&& first.place > 0 && second.place > 0 ==> first.place < second.place || (first.place
                == second.place && a < b)
            &&& first.place == 0 && second.lane.dq ==> first.lane.dq
            &&& first.place == 0 && second.place == 0 && first.lane.dq == second.lane.dq ==> a < b
        }),
{
    let q = |x: int| ranked(r, x);
    order::lemma_ascending(q, 0x100_0000);
    let ranks = result_ranks(r);
    assert(q(ranks[j]) && q(ranks[k]));
    assert(ranks[j] < ranks[k]);
}

/// The results of a race have a row for each lane with one: its place, or a
/// dash, its lane number, its finish, DQ or a dash, and its cumulative splits in
/// order. A race without rows says so.
pub proof fn law_result_rows(r: RaceView, j: int, t: int)
    requires
        r.wf(),
    ensures
        result_ranks(r).len() == 0 ==> result_rows(r).len() == 1 && result_rows(r)[0].len() == 1
            && result_rows(r)[0][0].text == "  (no lane data recorded)"@,
        0 <= j < result_ranks(r).len() ==> ({
            let lane = result_ranks(r)[j] % 0x100;
            let row = r.lanes[lane]->0;
            let shown = result_rows(r)[j];
            let n = row.lane.touches.len();
            &&& result_rows(r).len() == result_ranks(r).len()
            &&& shown.len() >= 4
            &&& row.place > 0 ==> shown[0].text == "  "@ + text::pad_left(
                notation::place_text(row.place),
                3,
            ) + "  "@
            &&& row.place == 0 ==> shown[0].text == "  "@ + text::pad_left("—"@, 3) + "  "@
            &&& shown[1].text == "Lane"@ + text::pad_left(text::dec((lane + 1) as nat), 2) + "  "@
            &&& row.lane.dq ==> shown[2].text == text::pad_left("DQ"@, 10) + "  "@
            &&& !row.lane.dq && n == 0 ==> shown[2].text == text::pad_left("—"@, 10) + "  "@
            &&& !row.lane.dq && n > 0 ==> shown[2].text == text::pad_left(
                notation::time_text(row.lane.touches[n - 1]),
                10,
            ) + "  "@
            &&& n <= 1 ==> shown.len() == 4 && shown[3].text == "(no splits)"@
            &&& n > 1 ==> shown.len() == 2 + 2 * (n - 1)
            &&& 0 <= t < n - 1 ==> shown[3 + 2 * t].text == notation::time_text(
                row.lane.touches[t],
            )
            &&& 0 < t < n - 1 ==> shown[2 + 2 * t].text == "  "@
        }),
{
    if 0 <= j < result_ranks(r).len() {
        let lane = result_ranks(r)[j] % 0x100;
        let row = r.lanes[lane]->0;
        lemma_split_spans(row.lane.splits(), row.lane.splits().len(), t);
    }
}

proof fn lemma_split_spans(splits: Seq<u32>, n: nat, t: int)
    requires
        n <= splits.len(),
    ensures
        n > 0 ==> split_spans(splits, n).len() == 2 * n - 1,
        0 <= t < n ==> split_spans(splits, n)[2 * t].text == notation::time_text(splits[t]),
        0 < t < n ==> split_spans(splits, n)[2 * t - 1].text == "  "@,
    decreases n,
{
    if n > 1 {
        lemma_split_spans(splits, (n - 1) as nat, t);
    }
}

/// The results pop-up of a stored race has its number in the title; above the
/// rows stand number, event and heat. There is none for a race that is not
/// stored.
pub proof fn law_results_popup(s: StateView, area: Rect, race_no: u16)
    requires
        s.wf(),
    ensures
        !s.races.contains_key(race_no) ==> results_popup(s, area, race_no) is None,
        s.races.contains_key(race_no) ==> ({
            let r = s.races[race_no];
            let p = results_popup(s, area, race_no)->0;
            let n = result_rows(r).len() as int;
            let title = if r.event <= s.lineup.len() {
                s.lineup[r.event - 1].label_text()
            } else {
                "event "@ + text::dec(r.event as nat)
            };
            &&& results_popup(s, area, race_no) is Some
            &&& p.title == " race "@ + text::dec(race_no as nat)
                + " results — Esc/Enter to close "@
            &&& p.scroll == 0
            &&& p.lines.len() == n + 6
            &&& p.lines[0].len() == 3
            &&& p.lines[0][0].text == "  Race "@ + text::dec(race_no as nat) + "  "@
            &&& p.lines[0][1].text == "Event "@ + text::dec(r.event as nat) + "  "@ + title
                + "  "@
            &&& p.lines[0][2].text == "Heat "@ + text::dec(r.heat as nat)
            &&& p.lines.subrange(4, 4 + n) == result_rows(r)
        }),
{
    if s.races.contains_key(race_no) {
        let r = s.races[race_no];
        let n = result_rows(r).len() as int;
        assert(r.wf() && r.id == race_no);
        assert(results_lines(s, r).subrange(4, 4 + n) =~= result_rows(r));
    }
}

/// The lineup pop-up has a row for each event: an arrow at the current one, its
/// number, its label, its split and the touches that it takes.
pub proof fn law_lineup_popup(s: StateView, a: TuiView, area: Rect, i: int)
    requires
        s.wf(),
        s.lineup.len() < 65_535,
    ensures
        ({
            let p = lineup_popup(s, a, area);
            let n = s.lineup.len() as int;
            &&& p.lines.len() == (if n == 0 {
                5
            } else {
                n + 6
            })
            &&& p.lines[0].len() == 2 && p.lines[0][1].text == "("@ + text::dec(n as nat)
                + " event"@ + (if n == 1 {
                ""@
            } else {
                "s"@
            }) + ")"@
            &&& 0 <= i < n ==> {
                let row = p.lines[4 + i];
                let e = s.lineup[i];
                &&& row.len() == 4
                &&& row[0].text == "  "@ + (if i + 1 == s.current_event {
                    "→"@
                } else {
                    " "@
                }) + " "@ + text::pad_left(text::dec((i + 1) as nat), 3) + "  "@
                &&& row[1].text == text::pad_right(e.label_text(), 18) + " "@
                &&& row[2].text == text::pad_left(text::dec(e.split_yards as nat), 3)
                    + "yd     "@
                &&& row[3].text == text::pad_left(text::dec(e.segments()), 3) + " touch"@ + (
                if e.segments() == 1 {
                    " "@
                } else {
                    "es"@
                })
            }
        }),
{
    if 0 <= i < s.lineup.len() {
        assert(lineup_lines(s)[4 + i] == lineup_rows(s)[i]);
    }
}

/// The help has a line for each command and key on setting up a meet, with what it does.
pub proof fn law_help_on_setup()
    ensures
        help_lines().len() == 40,
        help_lines()[3].len() == 4 && help_lines()[3][1].text == text::pad_right("/event N"@, 22)
            && help_lines()[3][3].text == "set active event"@,
        help_lines()[4].len() == 4 && help_lines()[4][1].text == text::pad_right("/heat N"@, 22)
            && help_lines()[4][3].text == "set active heat"@,
        help_lines()[5].len() == 4 && help_lines()[5][1].text == text::pad_right("/race N"@, 22)
            && help_lines()[5][3].text == "set next race number (resume mid-meet)"@,
        help_lines()[6].len() == 4 && help_lines()[6][1].text == text::pad_right("/lanes A..B"@, 22)
            && help_lines()[6][3].text == "set active lane spread (1..=10,"@,
        help_lines()[7].len() == 4 && help_lines()[7][3].text == "e.g. /lanes 1..10, 2..8, 1..1)"@,
        help_lines()[8].len() == 4 && help_lines()[8][1].text == text::pad_right("/lineup show"@, 22)
            && help_lines()[8][3].text == "list configured events"@,
        help_lines()[9].len() == 4 && help_lines()[9][1].text == text::pad_right("/lineup preset P [G]"@, 22)
            && help_lines()[9][3].text == "load preset lineup; gender defaults to Mixed:"@,
        help_lines()[10].len() == 4 && help_lines()[10][3].text == "P = hs | ncaa13 | ncaa15 | ncaa16"@,
        help_lines()[11].len() == 4 && help_lines()[11][3].text == "G = M | F | X"@,
        help_lines()[12].len() == 4 && help_lines()[12][1].text == text::pad_right("/lineup add D G S [Y]"@, 22)
            && help_lines()[12][3].text == "add event (distance, M|F|X,"@,
        help_lines()[13].len() == 4 && help_lines()[13][3].text == "stroke 1/FR 2/BK 3/BR 4/FL 5/IM"@,
        help_lines()[14].len() == 4 && help_lines()[14][3].text == "6/MED-R 7/FR-R DV, optional split-yds)"@,
        help_lines()[15].len() == 4 && help_lines()[15][1].text == text::pad_right("/lineup clear"@, 22)
            && help_lines()[15][3].text == "remove all events"@,
{
    assert(setup_help().len() == 17 && race_help().len() == 11 && inspection_help().len() == 12);
    assert(help_lines()[3] == setup_help()[3]);
    assert(help_lines()[4] == setup_help()[4]);
    assert(help_lines()[5] == setup_help()[5]);
    assert(help_lines()[6] == setup_help()[6]);
    assert(help_lines()[7] == setup_help()[7]);
    assert(help_lines()[8] == setup_help()[8]);
    assert(help_lines()[9] == setup_help()[9]);
    assert(help_lines()[10] == setup_help()[10]);
    assert(help_lines()[11] == setup_help()[11]);
    assert(help_lines()[12] == setup_help()[12]);
    assert(help_lines()[13] == setup_help()[13]);
    assert(help_lines()[14] == setup_help()[14]);
    assert(help_lines()[15] == setup_help()[15]);
}

/// The help has a line for each command and key on running a race, with what it does.
pub proof fn law_help_on_races()
    ensures
        help_lines().len() == 40,
        help_lines()[18].len() == 4 && help_lines()[18][1].text == text::pad_right("<enter>"@, 22)
            && help_lines()[18][3].text == "start the race (timestamp 0.000)"@,
        help_lines()[19].len() == 4 && help_lines()[19][1].text == text::pad_right("1..9"@, 22)
            && help_lines()[19][3].text == "touch lane 1..9 (single keypress —"@,
        help_lines()[20].len() == 4 && help_lines()[20][3].text == "no Enter needed during a race)"@,
        help_lines()[21].len() == 4 && help_lines()[21][1].text == text::pad_right("0"@, 22)
            && help_lines()[21][3].text == "touch lane 10"@,
        help_lines()[22].len() == 4 && help_lines()[22][1].text == text::pad_right("/dq L"@, 22)
            && help_lines()[22][3].text == "mark lane L as DQ"@,
        help_lines()[23].len() == 4 && help_lines()[23][1].text == text::pad_right("/  or  /print"@, 22)
            && help_lines()[23][3].text == "finalize: last touch per lane = finish,"@,
        help_lines()[24].len() == 4 && help_lines()[24][3].text == "earlier touches = cumulative splits;"@,
        help_lines()[25].len() == 4 && help_lines()[25][3].text == "places assigned by ascending finish."@,
        help_lines()[26].len() == 4 && help_lines()[26][3].text == "Heat auto-bumps by 1."@,
{
    assert(setup_help().len() == 17 && race_help().len() == 11 && inspection_help().len() == 12);
    assert(help_lines()[18] == race_help()[1]);
    assert(help_lines()[19] == race_help()[2]);
    assert(help_lines()[20] == race_help()[3]);
    assert(help_lines()[21] == race_help()[4]);
    assert(help_lines()[22] == race_help()[5]);
    assert(help_lines()[23] == race_help()[6]);
    assert(help_lines()[24] == race_help()[7]);
    assert(help_lines()[25] == race_help()[8]);
    assert(help_lines()[26] == race_help()[9]);
}

/// The help has a line for each command and key on looking at what is stored, with what it does.
pub proof fn law_help_on_inspection()
    ensures
        help_lines().len() == 40,
        help_lines()[29].len() == 4 && help_lines()[29][1].text == text::pad_right("/races"@, 22)
            && help_lines()[29][3].text == "list stored races"@,
        help_lines()[30].len() == 4 && help_lines()[30][1].text == text::pad_right("/status"@, 22)
            && help_lines()[30][3].text == "show current state"@,
        help_lines()[31].len() == 4 && help_lines()[31][1].text == text::pad_right("/help"@, 22)
            && help_lines()[31][3].text == "this popup (Esc/Enter to close)"@,
        help_lines()[32].len() == 4 && help_lines()[32][1].text == text::pad_right("/quit"@, 22)
            && help_lines()[32][3].text == "exit"@,
        help_lines()[35].len() == 4 && help_lines()[35][1].text == text::pad_right("Tab"@, 22)
            && help_lines()[35][3].text == "focus the tree (Tab/Esc returns to input)"@,
        help_lines()[36].len() == 4 && help_lines()[36][1].text == text::pad_right("\u{2191} \u{2193} Home End"@, 22)
            && help_lines()[36][3].text == "navigate rows"@,
        help_lines()[37].len() == 4 && help_lines()[37][1].text == text::pad_right("\u{2192} / Enter"@, 22)
            && help_lines()[37][3].text == "expand event/heat (or open results"@,
        help_lines()[38].len() == 4 && help_lines()[38][3].text == "popup on a Race row)"@,
        help_lines()[39].len() == 4 && help_lines()[39][1].text == text::pad_right("\u{2190}"@, 22)
            && help_lines()[39][3].text == "collapse (or jump to parent on a race)"@,
{
    assert(setup_help().len() == 17 && race_help().len() == 11 && inspection_help().len() == 12);
    assert(help_lines()[29] == inspection_help()[1]);
    assert(help_lines()[30] == inspection_help()[2]);
    assert(help_lines()[31] == inspection_help()[3]);
    assert(help_lines()[32] == inspection_help()[4]);
    assert(help_lines()[35] == inspection_help()[7]);
    assert(help_lines()[36] == inspection_help()[8]);
    assert(help_lines()[37] == inspection_help()[9]);
    assert(help_lines()[38] == inspection_help()[10]);
    assert(help_lines()[39] == inspection_help()[11]);
}

/// The help pop-up has all the lines of the help and, where they fit, says how
/// it is closed.
pub proof fn law_help_popup(a: TuiView, area: Rect)
    ensures
        help_popup(a, area).lines == help_lines(),
        screen::scroll_range(40, help_popup(a, area).area.height) == 0 ==> help_popup(a, area).title
            == " help — Esc/Enter to close "@ && help_popup(a, area).scroll == 0,
{
    law_help_on_setup();
}

/// In the results a disqualification is red, a finish white, a place yellow and
/// a lane number cyan; what is missing is gray.
pub proof fn law_result_colors(row: RowView, i: int)
    ensures
        ({
            let shown = result_spans(row, i);
            &&& shown[0].style.fg == Some(Color::Yellow) && shown[1].style.fg == Some(Color::Cyan)
            &&& row.lane.dq ==> shown[2].style.fg == Some(Color::Red)
            &&& !row.lane.dq && row.lane.touches.len() > 0 ==> shown[2].style.fg == Some(
                Color::White,
            )
            &&& !row.lane.dq && row.lane.touches.len() == 0 ==> shown[2].style.fg == Some(
                Color::DarkGray,
            )
        }),
{
}

/// What a pop-up holds is what its fields hold.
pub proof fn law_popup_view(p: Popup)
    ensures
        p@.area == p.area && p@.title == p.title@ && p@.scroll == p.scroll,
        p@.lines.len() == p.lines@.len(),
        forall|i: int| 0 <= i < p.lines@.len() ==> #[trigger] p@.lines[i] == p.lines@[i]@,
{
}

} // verus!
