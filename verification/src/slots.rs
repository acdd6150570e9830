//! The sequence-memory pop-up: the list of slots, and the lineup stored in one
//! of them.

use vstd::prelude::*;
use vstd::string::*;

use crate::app::SlotBrowse;
use crate::listing;
use crate::popups;
use crate::popups::{Popup, PopupView};
use crate::screen;
use crate::screen::{Color, Line, Rect, SpanView, Style};
use crate::state::{State, StateView, NUM_SLOTS};
use crate::text;

verus! {

/// One slot in the list of slots, with a marker where the pop-up is on it.
pub open spec fn list_line(s: StateView, n: u8, here: bool) -> Seq<SpanView> {
    seq![
        screen::span(
            (if here {
                " ▶ "@
            } else {
                "   "@
            }) + listing::slot_heading(s, n),
            if here {
                Style::strong(Color::Yellow)
            } else {
                Style::color(Color::White)
            },
        ),
    ]
}

/// The list of slots, with the pop-up on slot `at`.
pub open spec fn list_lines(s: StateView, at: u8) -> Seq<Seq<SpanView>> {
    Seq::new(NUM_SLOTS as nat, |i: int| list_line(s, (i + 1) as u8, i + 1 == at)) + seq![
        Seq::empty(),
        seq![
            screen::span(
                "  ↑↓ navigate  Enter to view  Esc/Backspace to close"@,
                Style::color(Color::DarkGray),
            ),
        ],
    ]
}

/// The lineup stored in slot `n`.
pub open spec fn stored_lines(s: StateView, n: u8) -> Seq<Seq<SpanView>> {
    let rows = listing::slot_lineup_rows(s, n);
    Seq::new(rows.len(), |i: int| seq![screen::span(rows[i], Style::color(Color::White))]) + seq![
        Seq::empty(),
        seq![
            screen::span(
                "  ↑↓ PgUp/PgDn scroll  Enter to load  Esc/Backspace to go back"@,
                Style::color(Color::DarkGray),
            ),
        ],
    ]
}

/// How many lines of the list are scrolled off the top of a pop-up of the given
/// height, so that the line of slot `at` is shown.
pub open spec fn list_scroll(at: u8, height: u16) -> u16 {
    screen::max_int(at - screen::max_int(height - 2, 0), 0) as u16
}

/// The pop-up with the list of slots.
pub open spec fn list_popup(s: StateView, at: u8, area: Rect) -> PopupView {
    let lines = list_lines(s, at);
    let rect = screen::popup_rect(
        area,
        screen::widest(lines, lines.len()),
        screen::cells(lines.len() as int),
        30,
        7,
    );
    PopupView {
        area: rect,
        title: " sequence memory — Esc to close "@,
        lines,
        scroll: list_scroll(at, rect.height),
    }
}

/// The pop-up with the lineup stored in slot `n`, scrolled by `scroll` lines as
/// far as that is possible.
pub open spec fn stored_popup(s: StateView, n: u8, scroll: u16, area: Rect) -> PopupView {
    let lines = stored_lines(s, n);
    popups::scrolled_popup(
        area,
        lines,
        screen::widest(lines, lines.len()),
        (30, 7),
        scroll,
        "sequence memory"@,
        "  ↑↓ PgUp/PgDn scroll  Enter to load  Esc to go back "@,
        " sequence memory — Enter to load, Esc to go back "@,
    )
}

/// The sequence-memory pop-up.
pub open spec fn slots_popup(s: StateView, b: SlotBrowse, area: Rect) -> PopupView {
    if b.viewing {
        stored_popup(s, b.slot, b.scroll, area)
    } else {
        list_popup(s, b.slot, area)
    }
}

fn slot_line(state: &State, n: u8, here: bool) -> (r: Line)
    requires
        state.wf(),
        1 <= n <= NUM_SLOTS,
    ensures
        r@ == list_line(state@, n, here),
{
    let mut s: String = String::from_str(
        if here {
            " ▶ "
        } else {
            "   "
        },
    );
    let heading: String = listing::slot_heading_of(state, n);
    s.append(heading.as_str());
    let style: Style = if here {
        Style::strong(Color::Yellow)
    } else {
        Style::color(Color::White)
    };
    let line: Line = Line::single(s.as_str(), style);
    assert(line@ =~= list_line(state@, n, here));
    line
}

/// The lines of the list of slots.
pub fn build_list_lines(state: &State, at: u8) -> (r: Vec<Line>)
    requires
        state.wf(),
    ensures
        screen::lines_view(r@) == list_lines(state@, at),
{
    let ghost all = Seq::new(
        NUM_SLOTS as nat,
        |i: int| list_line(state@, (i + 1) as u8, i + 1 == at),
    );
    let mut lines: Vec<Line> = Vec::new();
    let mut n: u8 = 1;
    assert(screen::lines_view(lines@) =~= all.take(0));
    while n as usize <= NUM_SLOTS
        invariant
            state.wf(),
            1 <= n <= NUM_SLOTS + 1,
            all == Seq::new(
                NUM_SLOTS as nat,
                |i: int| list_line(state@, (i + 1) as u8, i + 1 == at),
            ),
            screen::lines_view(lines@) == all.take(n - 1),
        decreases NUM_SLOTS + 1 - n,
    {
        screen::put_line(&mut lines, slot_line(state, n, n == at));
        n = n + 1;
        assert(all.take(n - 2).push(all[n - 2]) =~= all.take(n - 1));
    }
    assert(all.take(NUM_SLOTS as int) =~= all);
    screen::put_line(&mut lines, Line::blank());
    screen::put_line(
        &mut lines,
        Line::single(
            "  ↑↓ navigate  Enter to view  Esc/Backspace to close",
            Style::color(Color::DarkGray),
        ),
    );
    assert(screen::lines_view(lines@) =~= list_lines(state@, at));
    lines
}

/// The lines of the lineup stored in slot `n`.
pub fn build_stored_lines(state: &State, n: u8) -> (r: Vec<Line>)
    requires
        state.wf(),
        1 <= n <= NUM_SLOTS,
    ensures
        screen::lines_view(r@) == stored_lines(state@, n),
{
    let rows: Vec<String> = listing::slot_lineup_lines(state, n);
    let ghost all = Seq::new(
        rows@.len(),
        |i: int| seq![screen::span(text::texts(rows@)[i], Style::color(Color::White))],
    );
    let count: usize = rows.len();
    let mut lines: Vec<Line> = Vec::new();
    let mut i: usize = 0;
    assert(screen::lines_view(lines@) =~= all.take(0));
    while i < count
        invariant
            count == rows@.len(),
            i <= count,
            all == Seq::new(
                rows@.len(),
                |i: int| seq![screen::span(text::texts(rows@)[i], Style::color(Color::White))],
            ),
            screen::lines_view(lines@) == all.take(i as int),
        decreases count - i,
    {
        screen::put_line(&mut lines, Line::single(rows[i].as_str(), Style::color(Color::White)));
        i = i + 1;
        assert(all.take(i - 1).push(all[i - 1]) =~= all.take(i as int));
    }
    assert(all.take(count as int) =~= all);
    screen::put_line(&mut lines, Line::blank());
    screen::put_line(
        &mut lines,
        Line::single(
            "  ↑↓ PgUp/PgDn scroll  Enter to load  Esc/Backspace to go back",
            Style::color(Color::DarkGray),
        ),
    );
    assert(screen::lines_view(lines@) =~= stored_lines(state@, n));
    lines
}

fn draw_list(state: &State, at: u8, area: Rect) -> (r: Popup)
    requires
        state.wf(),
        area.wf(),
    ensures
        r@ == list_popup(state@, at, area),
{
    let lines: Vec<Line> = build_list_lines(state, at);
    let rect: Rect = screen::popup(
        area,
        screen::widest_line(&lines),
        screen::to_cells(lines.len()),
        30,
        7,
    );
    let scroll: u16 = (at as u16).saturating_sub(rect.height.saturating_sub(2));
    Popup {
        area: rect,
        title: String::from_str(" sequence memory — Esc to close "),
        lines,
        scroll,
    }
}

pub fn draw_slots_popup(state: &State, b: SlotBrowse, area: Rect) -> (r: Popup)
    requires
        state.wf(),
        area.wf(),
        1 <= b.slot <= NUM_SLOTS,
    ensures
        r@ == slots_popup(state@, b, area),
{
    if !b.viewing {
        return draw_list(state, b.slot, area);
    }
    let lines: Vec<Line> = build_stored_lines(state, b.slot);
    let content_w: u16 = screen::widest_line(&lines);
    popups::scrolled(
        area,
        lines,
        content_w,
        (30, 7),
        b.scroll,
        "sequence memory",
        "  ↑↓ PgUp/PgDn scroll  Enter to load  Esc to go back ",
        " sequence memory — Enter to load, Esc to go back ",
    )
}

/// How far the lineup stored in slot `n` can be scrolled on a terminal of
/// `term_h` rows.
pub open spec fn stored_limit(s: StateView, n: u8, term_h: u16) -> u16 {
    screen::max_scroll(screen::cells(stored_lines(s, n).len() as int), term_h, 7)
}

pub fn stored_max_scroll(state: &State, n: u8, term_h: u16) -> (r: u16)
    requires
        state.wf(),
        1 <= n <= NUM_SLOTS,
    ensures
        r == stored_limit(state@, n, term_h),
{
    let lines: Vec<Line> = build_stored_lines(state, n);
    screen::max_scroll_of(screen::to_cells(lines.len()), term_h, 7)
}

/// The list of slots shows the slot that the pop-up is on, whatever the size of
/// the area.
pub proof fn law_list_shows_the_slot(s: StateView, at: u8, area: Rect)
    requires
        s.wf(),
        1 <= at <= NUM_SLOTS,
    ensures
        ({
            let p = list_popup(s, at, area);
            &&& p.scroll <= at - 1 < p.scroll + (p.area.height - 2)
            &&& p.lines[at - 1] == list_line(s, at, true)
        }),
{
}

/// The list of slots has a line for each of the eight, in order, with a marker
/// at the one that the pop-up is on; the lineup of a slot has the lines of its
/// listing.
pub proof fn law_slot_lines(s: StateView, at: u8, n: u8, i: int)
    requires
        s.wf(),
        1 <= n <= 8,
    ensures
        list_lines(s, at).len() == 10,
        0 <= i < 8 ==> list_lines(s, at)[i].len() == 1 && list_lines(s, at)[i][0].text == (if i + 1
            == at {
            " ▶ "@
        } else {
            "   "@
        }) + listing::slot_heading(s, (i + 1) as u8),
        stored_lines(s, n).len() == listing::slot_lineup_rows(s, n).len() + 2,
        0 <= i < listing::slot_lineup_rows(s, n).len() ==> stored_lines(s, n)[i].len() == 1
            && stored_lines(s, n)[i][0].text == listing::slot_lineup_rows(s, n)[i],
{
}

/// The sequence-memory pop-up shows the list of slots, or the stored lineup of
/// the slot that it is on, scrolled as far as asked and possible.
pub proof fn law_slots_popup(s: StateView, b: SlotBrowse, area: Rect)
    requires
        s.wf(),
        1 <= b.slot <= 8,
        stored_lines(s, b.slot).len() <= 65_535,
    ensures
        ({
            let p = slots_popup(s, b, area);
            &&& !b.viewing ==> p.lines == list_lines(s, b.slot) && p.title
                == " sequence memory — Esc to close "@
            &&& b.viewing ==> {
                let limit = screen::scroll_range(
                    stored_lines(s, b.slot).len() as u16,
                    p.area.height,
                );
                &&& p.lines == stored_lines(s, b.slot)
                &&& b.scroll <= limit ==> p.scroll == b.scroll
                &&& b.scroll > limit ==> p.scroll == limit
                &&& limit == 0 ==> p.title == " sequence memory — Enter to load, Esc to go back "@
            }
        }),
{
}

/// A list of slots that fits is not scrolled, and otherwise it is scrolled just
/// so far that the slot that the pop-up is on is its last line shown; a stored
/// lineup can be scrolled by the lines that its pop-up has no room for.
pub proof fn law_slots_scroll(s: StateView, at: u8, n: u8, height: u16, term_h: u16)
    requires
        height >= 2,
    ensures
        at <= height - 2 ==> list_scroll(at, height) == 0,
        at > height - 2 ==> list_scroll(at, height) == at - (height - 2),
        stored_limit(s, n, term_h) == screen::max_scroll(
            screen::cells(stored_lines(s, n).len() as int),
            term_h,
            7,
        ),
{
}

} // verus!
