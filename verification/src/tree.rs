//! The tree of stored events: its rows, and the pane that shows them.

use vstd::prelude::*;
use vstd::string::*;

use crate::app::{Focus, TuiApp, TuiView};
use crate::notation;
use crate::order;
use crate::race::{Race, RowView, MAX_LANES};
use crate::running;
use crate::screen;
use crate::screen::{Color, Line, SpanView, Style};
use crate::state;
use crate::state::{State, StateView};
use crate::text;

verus! {

/// One visible row of the tree.
#[derive(Debug, Clone, Copy, PartialEq, Eq, Structural)]
pub enum TreeRow {
    Event { event_no: u16, expanded: bool, heat_count: usize, race_count: usize },
    Heat { event_no: u16, heat: u8, expanded: bool, race_count: usize },
    Race { event_no: u16, heat: u8, race_no: u16 },
}

/// The event and heat that a key stands for.
pub open spec fn bucket_at(x: int) -> (u16, u8) {
    ((x / 256) as u16, (x % 256) as u8)
}

/// Whether a key stands for an event and heat with stored races.
pub open spec fn has_bucket(s: StateView, x: int) -> bool {
    s.history.contains_key(bucket_at(x))
}

/// The keys of the events and heats with stored races, ascending.
pub open spec fn bucket_keys(s: StateView) -> Seq<int> {
    order::ascending(|x: int| has_bucket(s, x), 0x100_0000)
}

/// The events and heats with stored races, by event and then by heat.
pub open spec fn buckets(s: StateView) -> Seq<(u16, u8)> {
    bucket_keys(s).map_values(|x: int| bucket_at(x))
}

/// How many of the first `n` buckets belong to event `e`.
pub open spec fn heats_of(b: Seq<(u16, u8)>, e: u16, n: nat) -> nat
    decreases n,
{
    if n == 0 {
        0
    } else {
        heats_of(b, e, (n - 1) as nat) + if b[n - 1].0 == e {
            1nat
        } else {
            0nat
        }
    }
}

/// How many races the first `n` buckets hold for event `e`.
pub open spec fn races_of(s: StateView, b: Seq<(u16, u8)>, e: u16, n: nat) -> nat
    decreases n,
{
    if n == 0 {
        0
    } else {
        races_of(s, b, e, (n - 1) as nat) + if b[n - 1].0 == e {
            s.history[b[n - 1]].len()
        } else {
            0nat
        }
    }
}

/// A count as a machine number, the largest one if it does not fit.
pub open spec fn capped(n: nat) -> usize {
    if n > usize::MAX {
        usize::MAX
    } else {
        n as usize
    }
}

/// The row of bucket `i`'s event.
pub open spec fn event_row(s: StateView, a: TuiView, b: Seq<(u16, u8)>, i: int) -> TreeRow {
    TreeRow::Event {
        event_no: b[i].0,
        expanded: a.expanded_events.contains(b[i].0),
        heat_count: heats_of(b, b[i].0, b.len()) as usize,
        race_count: capped(races_of(s, b, b[i].0, b.len())),
    }
}

/// The row of bucket `k`.
pub open spec fn heat_row(s: StateView, a: TuiView, k: (u16, u8)) -> TreeRow {
    TreeRow::Heat {
        event_no: k.0,
        heat: k.1,
        expanded: a.expanded_heats.contains(k),
        race_count: s.history[k].len() as usize,
    }
}

/// The rows of the races of bucket `k`.
pub open spec fn race_rows(s: StateView, k: (u16, u8)) -> Seq<TreeRow> {
    Seq::new(
        s.history[k].len(),
        |j: int| TreeRow::Race { event_no: k.0, heat: k.1, race_no: s.history[k][j] },
    )
}

/// The rows of bucket `i` below its event's row.
pub open spec fn inner_rows(s: StateView, a: TuiView, k: (u16, u8)) -> Seq<TreeRow> {
    if !a.expanded_events.contains(k.0) {
        Seq::empty()
    } else if !a.expanded_heats.contains(k) {
        seq![heat_row(s, a, k)]
    } else {
        seq![heat_row(s, a, k)] + race_rows(s, k)
    }
}

/// The rows of bucket `i`: its event's row if it is the event's first bucket,
/// its own row if the event is expanded, and its races if it is, too.
pub open spec fn rows_at(s: StateView, a: TuiView, b: Seq<(u16, u8)>, i: int) -> Seq<TreeRow> {
    (if i == 0 || b[i - 1].0 != b[i].0 {
        seq![event_row(s, a, b, i)]
    } else {
        Seq::empty()
    }) + inner_rows(s, a, b[i])
}

/// The rows of the first `n` buckets.
pub open spec fn rows_before(s: StateView, a: TuiView, b: Seq<(u16, u8)>, n: nat) -> Seq<TreeRow>
    decreases n,
{
    if n == 0 {
        Seq::empty()
    } else {
        rows_before(s, a, b, (n - 1) as nat) + rows_at(s, a, b, n - 1)
    }
}

/// The visible rows of the tree.
pub open spec fn tree_rows(s: StateView, a: TuiView) -> Seq<TreeRow> {
    rows_before(s, a, buckets(s), buckets(s).len())
}

/// The buckets of a state as pairs.
fn list_buckets(state: &State) -> (r: Vec<(u16, u8)>)
    requires
        state.wf(),
    ensures
        r@ == buckets(state@),
        forall|i: int| 0 <= i < r@.len() ==> state@.history.contains_key(#[trigger] r@[i]),
{
    let keys: Vec<u32> = order::sorted_keys32(&state.history);
    proof {
        let p = |x: int| state.history@.contains_key(x as u32);
        let q = |x: int| has_bucket(state@, x);
        assert forall|x: int| 0 <= x < 0x100_0000 implies #[trigger] p(x) == q(x) by {
            assert(state::key_of(bucket_at(x)) == x as u32);
        }
        order::lemma_ascending_same(p, q, 0x100_0000);
        order::lemma_ascending(q, 0x100_0000);
    }
    let ghost all = buckets(state@);
    assert(order::ints32(keys@) == bucket_keys(state@));
    let n: usize = keys.len();
    let mut out: Vec<(u16, u8)> = Vec::new();
    let mut i: usize = 0;
    while i < n
        invariant
            n == keys@.len(),
            all == buckets(state@),
            order::ints32(keys@) == bucket_keys(state@),
            forall|j: int|
                0 <= j < bucket_keys(state@).len() ==> 0 <= #[trigger] bucket_keys(state@)[j]
                    < 0x100_0000,
            i <= n,
            out@ == all.take(i as int),
        decreases n - i,
    {
        let key: u32 = keys[i];
        assert(bucket_keys(state@)[i as int] == key as int);
        out.push(((key / 256) as u16, (key % 256) as u8));
        i = i + 1;
        assert(out@ =~= all.take(i as int));
    }
    assert(out@ =~= all);
    proof {
        let q = |x: int| has_bucket(state@, x);
        assert forall|j: int| 0 <= j < out@.len() implies state@.history.contains_key(
            #[trigger] out@[j],
        ) by {
            assert(q(bucket_keys(state@)[j]));
        }
    }
    out
}

/// Races stored for `k`.
fn stored<'a>(state: &'a State, k: (u16, u8)) -> (r: &'a Vec<u16>)
    requires
        state.wf(),
        state@.history.contains_key(k),
    ensures
        r@ == state@.history[k],
{
    state.history.get(&state::bucket_key(k.0, k.1)).unwrap()
}

/// The numbers of heats and races of event `e`.
fn count_event(state: &State, b: &Vec<(u16, u8)>, e: u16) -> (r: (usize, usize))
    requires
        state.wf(),
        forall|i: int| 0 <= i < b@.len() ==> state@.history.contains_key(#[trigger] b@[i]),
    ensures
        r.0 == heats_of(b@, e, b@.len()),
        r.1 == capped(races_of(state@, b@, e, b@.len())),
{
    let n: usize = b.len();
    let mut heats: usize = 0;
    let mut races: usize = 0;
    let mut i: usize = 0;
    while i < n
        invariant
            state.wf(),
            n == b@.len(),
            forall|i: int| 0 <= i < b@.len() ==> state@.history.contains_key(#[trigger] b@[i]),
            i <= n,
            heats <= i,
            heats == heats_of(b@, e, i as nat),
            races == capped(races_of(state@, b@, e, i as nat)),
        decreases n - i,
    {
        let k: (u16, u8) = b[i];
        if k.0 == e {
            heats = heats + 1;
            races = races.saturating_add(stored(state, k).len());
        }
        i = i + 1;
    }
    (heats, races)
}

fn put_race_rows(rows: &mut Vec<TreeRow>, state: &State, k: (u16, u8))
    requires
        state.wf(),
        state@.history.contains_key(k),
    ensures
        final(rows)@ == old(rows)@ + race_rows(state@, k),
{
    let ids: &Vec<u16> = stored(state, k);
    let ghost before = rows@;
    let ghost all = race_rows(state@, k);
    let n: usize = ids.len();
    let mut j: usize = 0;
    assert(before + all.take(0) =~= before);
    while j < n
        invariant
            ids@ == state@.history[k],
            n == ids@.len(),
            all == race_rows(state@, k),
            j <= n,
            rows@ == before + all.take(j as int),
        decreases n - j,
    {
        rows.push(TreeRow::Race { event_no: k.0, heat: k.1, race_no: ids[j] });
        j = j + 1;
        assert(rows@ =~= before + all.take(j as int));
    }
    assert(all.take(n as int) =~= all);
}

/// The visible rows of the tree.
pub fn build_tree_rows(state: &State, app: &TuiApp) -> (r: Vec<TreeRow>)
    requires
        state.wf(),
    ensures
        r@ == tree_rows(state@, app@),
{
    let b: Vec<(u16, u8)> = list_buckets(state);
    let n: usize = b.len();
    let mut rows: Vec<TreeRow> = Vec::new();
    let mut i: usize = 0;
    assert(rows@ =~= rows_before(state@, app@, b@, 0));
    while i < n
        invariant
            state.wf(),
            n == b@.len(),
            forall|i: int| 0 <= i < b@.len() ==> state@.history.contains_key(#[trigger] b@[i]),
            i <= n,
            rows@ == rows_before(state@, app@, b@, i as nat),
        decreases n - i,
    {
        let ghost before = rows@;
        let k: (u16, u8) = b[i];
        assert(state@.history.contains_key(k) && state@.bucket_ok(k));
        let expanded: bool = app.event_expanded(k.0);
        if i == 0 || b[i - 1].0 != k.0 {
            let (heat_count, race_count) = count_event(state, &b, k.0);
            rows.push(TreeRow::Event { event_no: k.0, expanded, heat_count, race_count });
        }
        let ghost with_event = rows@;
        if expanded {
            let open: bool = app.heat_is_expanded(k.0, k.1);
            rows.push(
                TreeRow::Heat {
                    event_no: k.0,
                    heat: k.1,
                    expanded: open,
                    race_count: stored(state, k).len(),
                },
            );
            if open {
                put_race_rows(&mut rows, state, k);
            }
        }
        assert(rows@ =~= with_event + inner_rows(state@, app@, k));
        i = i + 1;
        assert(rows@ =~= before + rows_at(state@, app@, b@, i - 1));
    }
    rows
}

// The pane

/// Marks the selected row.
pub open spec fn row_mark(selected: bool) -> Seq<char> {
    if selected {
        "▶"@
    } else {
        " "@
    }
}

/// Marks an expanded row.
pub open spec fn row_arrow(expanded: bool) -> Seq<char> {
    if expanded {
        "▾"@
    } else {
        "▸"@
    }
}

/// The look of a row.
pub open spec fn row_style(style: Style, selected: bool) -> Style {
    if selected {
        style.on(Color::DarkGray)
    } else {
        style
    }
}

/// The first of the rows from `i` on that took first place.
pub open spec fn winner(rows: Seq<Option<RowView>>, i: int) -> Option<RowView>
    decreases rows.len() - i,
{
    if i < 0 || i >= rows.len() {
        None
    } else if rows[i] is Some && rows[i]->0.place == 1 {
        rows[i]
    } else {
        winner(rows, i + 1)
    }
}

/// The winning time of race `id`, dashes if there is none.
pub open spec fn winning_time(s: StateView, id: u16) -> Seq<char> {
    match s.race(id) {
        Some(r) => match winner(r.lanes, 0) {
            Some(row) => if row.lane.finish() > 0 {
                notation::time_text(row.lane.finish())
            } else {
                "--"@
            },
            None => "--"@,
        },
        None => "--"@,
    }
}

/// One row of the pane.
pub open spec fn row_line(s: StateView, row: TreeRow, selected: bool) -> Seq<SpanView> {
    match row {
        TreeRow::Event { event_no, expanded, heat_count, race_count } => seq![
            screen::span(
                " "@ + row_mark(selected) + " "@ + row_arrow(expanded) + " Event "@
                    + text::pad_left(text::dec(event_no as nat), 2) + "  "@ + running::event_title(
                    s,
                    event_no,
                ) + "  ("@ + text::dec(heat_count as nat) + "h/"@ + text::dec(race_count as nat)
                    + "r)"@,
                row_style(Style::strong(Color::Cyan), selected),
            ),
        ],
        TreeRow::Heat { heat, expanded, race_count, .. } => seq![
            screen::span(
                "    "@ + row_mark(selected) + " "@ + row_arrow(expanded) + " Heat "@
                    + text::pad_left(text::dec(heat as nat), 2) + "  ("@ + text::dec(
                    race_count as nat,
                ) + " race"@ + notation::plural_text(race_count as int, ""@, "s"@) + ")"@,
                row_style(Style::color(Color::White), selected),
            ),
        ],
        TreeRow::Race { race_no, .. } => seq![
            screen::span(
                "       "@ + row_mark(selected) + " race #"@ + text::dec(race_no as nat)
                    + "   1st "@ + winning_time(s, race_no),
                if selected {
                    Style::color(Color::White).on(Color::DarkGray)
                } else {
                    Style::color(Color::Gray)
                },
            ),
        ],
    }
}

/// Index of the selected row among `n` rows.
pub open spec fn selected_row(a: TuiView, n: int) -> int {
    screen::min_int(a.tree_selected as int, screen::max_int(n - 1, 0))
}

/// Index of the first row shown when `view_h` rows fit: the selected row is
/// kept in view.
pub open spec fn first_row(a: TuiView, n: int, view_h: int) -> int {
    let sel = selected_row(a, n);
    if n == 0 {
        0
    } else if sel < a.tree_scroll {
        sel
    } else if view_h > 0 && sel >= a.tree_scroll + view_h {
        sel + 1 - view_h
    } else {
        screen::min_int(
            a.tree_scroll as int,
            screen::max_int(n - screen::max_int(view_h, 1), 0),
        )
    }
}

/// Rows that fit into a pane of the given height.
pub open spec fn pane_rows(height: u16) -> int {
    screen::max_int(height - 2, 0)
}

/// The pane of the given height.
pub open spec fn pane_lines(s: StateView, a: TuiView, height: u16) -> Seq<Seq<SpanView>> {
    let rows = tree_rows(s, a);
    let n = rows.len() as int;
    let first = first_row(a, n, pane_rows(height));
    let shown = screen::min_int(n - first, screen::max_int(pane_rows(height), 1));
    if n == 0 {
        seq![
            seq![screen::span("  (no stored races yet)"@, Style::color(Color::DarkGray))],
        ]
    } else {
        Seq::new(
            shown as nat,
            |j: int|
                row_line(
                    s,
                    rows[first + j],
                    a.focus == Focus::Tree && first + j == selected_row(a, n),
                ),
        )
    }
}

/// The pane's title.
pub open spec fn pane_title(focused: bool) -> Seq<char> {
    if focused {
        " stored events  [↑↓ ←/→ collapse/expand  ⏎ open race  Tab→input] "@
    } else {
        " stored events  [Tab to focus] "@
    }
}

pub fn pane_title_of(focused: bool) -> (r: &'static str)
    ensures
        r@ == pane_title(focused),
{
    if focused {
        " stored events  [↑↓ ←/→ collapse/expand  ⏎ open race  Tab→input] "
    } else {
        " stored events  [Tab to focus] "
    }
}

/// The color of the pane's border and title.
pub open spec fn pane_color(focused: bool) -> Color {
    if focused {
        Color::Magenta
    } else {
        Color::DarkGray
    }
}

pub fn pane_color_of(focused: bool) -> (r: Color)
    ensures
        r == pane_color(focused),
{
    if focused {
        Color::Magenta
    } else {
        Color::DarkGray
    }
}

fn mark(selected: bool) -> (r: &'static str)
    ensures
        r@ == row_mark(selected),
{
    if selected {
        "▶"
    } else {
        " "
    }
}

fn arrow(expanded: bool) -> (r: &'static str)
    ensures
        r@ == row_arrow(expanded),
{
    if expanded {
        "▾"
    } else {
        "▸"
    }
}

fn look(style: Style, selected: bool) -> (r: Style)
    ensures
        r == row_style(style, selected),
{
    if selected {
        style.on(Color::DarkGray)
    } else {
        style
    }
}

fn winning_time_of(state: &State, id: u16) -> (r: String)
    requires
        state.wf(),
    ensures
        r@ == winning_time(state@, id),
{
    match state.lookup_by_race(id) {
        Some(race) => {
            let mut i: usize = 0;
            while i < MAX_LANES
                invariant
                    race@.wf(),
                    i <= MAX_LANES,
                    winner(race@.lanes, 0) == winner(race@.lanes, i as int),
                    state@.race(id) == Some(race@),
                decreases MAX_LANES - i,
            {
                assert(race@.lanes[i as int] == crate::race::row_view(race.lanes@[i as int]));
                match &race.lanes[i] {
                    Some(row) => {
                        if row.place == 1 {
                            let t: u32 = row.lane.finish_ms();
                            return if t > 0 {
                                notation::fmt_time(t)
                            } else {
                                String::from_str("--")
                            };
                        }
                    },
                    None => {},
                }
                i = i + 1;
            }
            String::from_str("--")
        },
        None => String::from_str("--"),
    }
}

fn tree_line(state: &State, row: TreeRow, selected: bool) -> (r: Line)
    requires
        state.wf(),
    ensures
        r@ == row_line(state@, row, selected),
{
    match row {
        TreeRow::Event { event_no, expanded, heat_count, race_count } => {
            let mut s: String = String::from_str(" ");
            s.append(mark(selected));
            s.append(" ");
            s.append(arrow(expanded));
            s.append(" Event ");
            text::put_dec_left(&mut s, event_no as u64, 2);
            s.append("  ");
            let title: String = running::event_title_of(state, event_no);
            s.append(title.as_str());
            s.append("  (");
            text::put_dec(&mut s, heat_count as u64);
            s.append("h/");
            text::put_dec(&mut s, race_count as u64);
            s.append("r)");
            Line::single(s.as_str(), look(Style::strong(Color::Cyan), selected))
        },
        TreeRow::Heat { heat, expanded, race_count, .. } => {
            let mut s: String = String::from_str("    ");
            s.append(mark(selected));
            s.append(" ");
            s.append(arrow(expanded));
            s.append(" Heat ");
            text::put_dec_left(&mut s, heat as u64, 2);
            s.append("  (");
            text::put_dec(&mut s, race_count as u64);
            s.append(" race");
            s.append(notation::plural(race_count, "", "s"));
            s.append(")");
            Line::single(s.as_str(), look(Style::color(Color::White), selected))
        },
        TreeRow::Race { race_no, .. } => {
            let mut s: String = String::from_str("       ");
            s.append(mark(selected));
            s.append(" race #");
            text::put_dec(&mut s, race_no as u64);
            s.append("   1st ");
            let time: String = winning_time_of(state, race_no);
            s.append(time.as_str());
            Line::single(
                s.as_str(),
                if selected {
                    Style::color(Color::White).on(Color::DarkGray)
                } else {
                    Style::color(Color::Gray)
                },
            )
        },
    }
}

/// The pane of the given height.
pub fn draw_stored_events(state: &State, app: &TuiApp, height: u16) -> (r: Vec<Line>)
    requires
        state.wf(),
        app@.wf(),
    ensures
        screen::lines_view(r@) == pane_lines(state@, app@, height),
{
    let rows: Vec<TreeRow> = build_tree_rows(state, app);
    let n: usize = rows.len();
    let ghost all = pane_lines(state@, app@, height);
    let mut lines: Vec<Line> = Vec::new();
    if n == 0 {
        screen::put_line(
            &mut lines,
            Line::single("  (no stored races yet)", Style::color(Color::DarkGray)),
        );
        assert(screen::lines_view(lines@) =~= all);
        return lines;
    }
    let focused: bool = match app.focus {
        Focus::Tree => true,
        Focus::Input => false,
    };
    let view_h: usize = height.saturating_sub(2) as usize;
    let sel: usize = if app.tree_selected < n - 1 {
        app.tree_selected
    } else {
        n - 1
    };
    let at_least_one: usize = if view_h > 1 {
        view_h
    } else {
        1
    };
    let first: usize = if sel < app.tree_scroll {
        sel
    } else if view_h > 0 && sel >= app.tree_scroll + view_h {
        sel + 1 - view_h
    } else {
        let room: usize = n.saturating_sub(at_least_one);
        if app.tree_scroll < room {
            app.tree_scroll
        } else {
            room
        }
    };
    assert(first == first_row(app@, n as int, pane_rows(height)));
    let shown: usize = if n - first < at_least_one {
        n - first
    } else {
        at_least_one
    };
    let mut j: usize = 0;
    assert(screen::lines_view(lines@) =~= all.take(0));
    while j < shown
        invariant
            state.wf(),
            rows@ == tree_rows(state@, app@),
            n == rows@.len(),
            n > 0,
            all == pane_lines(state@, app@, height),
            all.len() == shown,
            first + shown <= n,
            first == first_row(app@, n as int, pane_rows(height)),
            sel == selected_row(app@, n as int),
            focused == (app@.focus == Focus::Tree),
            j <= shown,
            screen::lines_view(lines@) == all.take(j as int),
        decreases shown - j,
    {
        let line: Line = tree_line(state, rows[first + j], focused && first + j == sel);
        assert(line@ == all[j as int]);
        screen::put_line(&mut lines, line);
        j = j + 1;
        assert(all.take(j - 1).push(all[j - 1]) =~= all.take(j as int));
    }
    assert(all.take(shown as int) =~= all);
    lines
}

/// The events and heats of the tree are all different, and each has stored
/// races.
pub proof fn lemma_buckets(s: StateView)
    ensures
        forall|i: int, j: int|
            0 <= i < j < buckets(s).len() ==> #[trigger] buckets(s)[i] != #[trigger] buckets(s)[j],
        forall|i: int| 0 <= i < buckets(s).len() ==> s.history.contains_key(#[trigger] buckets(s)[i]),
        forall|k: (u16, u8)| s.history.contains_key(k) ==> #[trigger] buckets(s).contains(k),
{
    let q = |x: int| has_bucket(s, x);
    order::lemma_ascending(q, 0x100_0000);
    let keys = bucket_keys(s);
    let b = buckets(s);
    assert forall|i: int, j: int| 0 <= i < j < b.len() implies #[trigger] b[i] != #[trigger] b[j] by {
        assert(keys[i] < keys[j]);
        assert(b[i] == bucket_at(keys[i]) && b[j] == bucket_at(keys[j]));
        assert(keys[i] == (keys[i] / 256) * 256 + keys[i] % 256);
        assert(keys[j] == (keys[j] / 256) * 256 + keys[j] % 256);
    }
    assert forall|i: int| 0 <= i < b.len() implies s.history.contains_key(#[trigger] b[i]) by {
        assert(q(keys[i]));
    }
    assert forall|k: (u16, u8)| s.history.contains_key(k) implies #[trigger] b.contains(k) by {
        let x = k.0 * 256 + k.1;
        assert(bucket_at(x) == k);
        assert(q(x));
        assert(keys.contains(x));
        let j = choose|j: int| 0 <= j < keys.len() && keys[j] == x;
        assert(b[j] == k);
    }
}

/// Whether a row is the row of the heat `k`.
pub open spec fn is_heat(row: TreeRow, k: (u16, u8)) -> bool {
    row matches TreeRow::Heat { event_no, heat, .. } && event_no == k.0 && heat == k.1
}

/// Whether a row is the row of a race of the heat `k`.
pub open spec fn is_race_of(row: TreeRow, k: (u16, u8)) -> bool {
    row matches TreeRow::Race { event_no, heat, .. } && event_no == k.0 && heat == k.1
}

/// Heat and race rows among the first `n` buckets belong to one of them, and a
/// race is shown only under an expanded event and heat.
pub proof fn lemma_rows_before(s: StateView, a: TuiView, b: Seq<(u16, u8)>, n: nat, k: (u16, u8), x: int)
    requires
        n <= b.len(),
        0 <= x < rows_before(s, a, b, n).len(),
        is_heat(rows_before(s, a, b, n)[x], k) || is_race_of(rows_before(s, a, b, n)[x], k),
    ensures
        exists|m: int| 0 <= m < n && #[trigger] b[m] == k,
        is_race_of(rows_before(s, a, b, n)[x], k) ==> a.expanded_events.contains(k.0)
            && a.expanded_heats.contains(k),
    decreases n,
{
    let before = rows_before(s, a, b, (n - 1) as nat);
    if x < before.len() {
        lemma_rows_before(s, a, b, (n - 1) as nat, k, x);
        let m = choose|m: int| 0 <= m < n - 1 && #[trigger] b[m] == k;
        assert(b[m] == k);
    } else {
        let own = rows_at(s, a, b, n - 1);
        assert(rows_before(s, a, b, n)[x] == own[x - before.len()]);
        assert(b[n - 1] == k);
    }
}

/// The row of heat `b[m]`, whose event is expanded, stands behind the rows of
/// the buckets before it and, if it is its event's first, behind the event's
/// row.
pub open spec fn heat_position(s: StateView, a: TuiView, b: Seq<(u16, u8)>, m: int) -> int {
    rows_before(s, a, b, m as nat).len() + if m == 0 || b[m - 1].0 != b[m].0 {
        1int
    } else {
        0int
    }
}

/// The rows of the first buckets come first.
pub proof fn lemma_rows_grow(s: StateView, a: TuiView, b: Seq<(u16, u8)>, m: nat, n: nat)
    requires
        m <= n <= b.len(),
    ensures
        rows_before(s, a, b, m).is_prefix_of(rows_before(s, a, b, n)),
    decreases n,
{
    if m < n {
        lemma_rows_grow(s, a, b, m, (n - 1) as nat);
    }
}

/// The row at a heat's position is its own.
pub proof fn lemma_heat_position(s: StateView, a: TuiView, m: int)
    requires
        0 <= m < buckets(s).len(),
        a.expanded_events.contains(buckets(s)[m].0),
    ensures
        heat_position(s, a, buckets(s), m) < tree_rows(s, a).len(),
        tree_rows(s, a)[heat_position(s, a, buckets(s), m)] == heat_row(s, a, buckets(s)[m]),
{
    let b = buckets(s);
    lemma_rows_grow(s, a, b, (m + 1) as nat, b.len());
    let upto = rows_before(s, a, b, (m + 1) as nat);
    let before = rows_before(s, a, b, m as nat);
    let own = rows_at(s, a, b, m);
    assert(upto == before + own);
    let inner = inner_rows(s, a, b[m]);
    assert(inner.len() > 0 && inner[0] == heat_row(s, a, b[m]));
    let p = heat_position(s, a, b, m);
    assert(own[p - before.len()] == inner[0]);
    assert(upto[p] == heat_row(s, a, b[m]));
}

/// Rows of buckets other than `k` do not depend on whether `k` is expanded.
pub proof fn lemma_rows_elsewhere(
    s: StateView,
    a: TuiView,
    c: TuiView,
    b: Seq<(u16, u8)>,
    n: nat,
    k: (u16, u8),
)
    requires
        n <= b.len(),
        c.expanded_events == a.expanded_events,
        c.expanded_heats == a.expanded_heats.remove(k),
        forall|i: int| 0 <= i < n ==> #[trigger] b[i] != k,
    ensures
        rows_before(s, c, b, n) == rows_before(s, a, b, n),
    decreases n,
{
    if n > 0 {
        lemma_rows_elsewhere(s, a, c, b, (n - 1) as nat, k);
        assert(b[n - 1] != k);
        assert(rows_at(s, c, b, n - 1) =~= rows_at(s, a, b, n - 1));
    }
}

/// Every event and heat with stored races has its row in the tree once its
/// event is expanded.
pub proof fn law_tree_shows_every_stored_heat(s: StateView, a: TuiView, k: (u16, u8))
    requires
        s.wf(),
        s.history.contains_key(k),
        a.expanded_events.contains(k.0),
    ensures
        tree_rows(s, a).contains(heat_row(s, a, k)),
{
    lemma_buckets(s);
    let b = buckets(s);
    assert(b.contains(k));
    let m = choose|m: int| 0 <= m < b.len() && b[m] == k;
    lemma_heat_position(s, a, m);
    assert(tree_rows(s, a)[heat_position(s, a, b, m)] == heat_row(s, a, k));
}

/// The selected row is among the rows shown in a pane that has room for one.
pub proof fn law_selected_row_is_shown(a: TuiView, n: int, view_h: int)
    requires
        a.wf(),
        n > 0,
        view_h >= 1,
    ensures
        0 <= first_row(a, n, view_h) <= selected_row(a, n) < first_row(a, n, view_h) + view_h,
{
}

/// The event that a row belongs to.
pub open spec fn row_event(row: TreeRow) -> int {
    match row {
        TreeRow::Event { event_no, .. } => event_no as int,
        TreeRow::Heat { event_no, .. } => event_no as int,
        TreeRow::Race { event_no, .. } => event_no as int,
    }
}

/// The heat that a row belongs to; -1 for the row of an event.
pub open spec fn row_heat(row: TreeRow) -> int {
    match row {
        TreeRow::Event { .. } => -1,
        TreeRow::Heat { heat, .. } => heat as int,
        TreeRow::Race { heat, .. } => heat as int,
    }
}

/// Whether row `x` may stand above row `y`: events ascend, heats ascend within
/// an event, the row of an event is above its heats, and that of a heat above
/// its races.
pub open spec fn in_tree_order(x: TreeRow, y: TreeRow) -> bool {
    row_event(x) < row_event(y) || (row_event(x) == row_event(y) && (row_heat(x) < row_heat(y) || (
    row_heat(x) == row_heat(y) && y is Race)))
}

/// What each row says is so: the row of an event is one with stored races, that
/// of a heat is under an expanded event, and that of a race under an expanded
/// heat, and they say whether they are expanded themselves and how many races
/// there are.
pub open spec fn row_is_true(s: StateView, a: TuiView, row: TreeRow) -> bool {
    match row {
        TreeRow::Event { event_no, expanded, .. } => {
            &&& exists|h: u8| #[trigger] s.history.contains_key((event_no, h))
            &&& expanded == a.expanded_events.contains(event_no)
        },
        TreeRow::Heat { event_no, heat, expanded, race_count } => {
            &&& s.history.contains_key((event_no, heat))
            &&& a.expanded_events.contains(event_no)
            &&& expanded == a.expanded_heats.contains((event_no, heat))
            &&& race_count == s.history[(event_no, heat)].len() as usize
        },
        TreeRow::Race { event_no, heat, race_no } => {
            &&& s.history.contains_key((event_no, heat))
            &&& a.expanded_events.contains(event_no)
            &&& a.expanded_heats.contains((event_no, heat))
            &&& s.history[(event_no, heat)].contains(race_no)
        },
    }
}

proof fn lemma_buckets_ascend(s: StateView, i: int, j: int)
    requires
        0 <= i < j < buckets(s).len(),
    ensures
        buckets(s)[i].0 < buckets(s)[j].0 || (buckets(s)[i].0 == buckets(s)[j].0 && buckets(s)[i].1
            < buckets(s)[j].1),
{
    let q = |x: int| has_bucket(s, x);
    order::lemma_ascending(q, 0x100_0000);
    let keys = bucket_keys(s);
    assert(keys[i] < keys[j]);
    assert(0 <= keys[i] < 0x100_0000 && 0 <= keys[j] < 0x100_0000);
    assert(buckets(s)[i] == bucket_at(keys[i]) && buckets(s)[j] == bucket_at(keys[j]));
}

proof fn lemma_rows_at(s: StateView, a: TuiView, m: int, x: int)
    requires
        s.wf(),
        0 <= m < buckets(s).len(),
        0 <= x < rows_at(s, a, buckets(s), m).len(),
    ensures
        ({
            let b = buckets(s);
            let row = rows_at(s, a, b, m)[x];
            &&& row_is_true(s, a, row)
            &&& row_event(row) == b[m].0
            &&& row is Event ==> x == 0 && (m == 0 || b[m - 1].0 != b[m].0)
            &&& !(row is Event) ==> row_heat(row) == b[m].1
            &&& row is Heat ==> x <= 1 && (x == 1 ==> rows_at(s, a, b, m)[0] is Event)
        }),
{
    let b = buckets(s);
    lemma_buckets(s);
    let k = b[m];
    assert(s.history.contains_key(k));
    let row = rows_at(s, a, b, m)[x];
    if m == 0 || b[m - 1].0 != b[m].0 {
        let rest = inner_rows(s, a, k);
        if x > 0 {
            assert(row == rest[x - 1]);
        } else {
            assert(s.history.contains_key((k.0, k.1)));
        }
    }
    match row {
        TreeRow::Race { race_no, .. } => {
            let races = race_rows(s, k);
            let rest = inner_rows(s, a, k);
            let y = x - (rows_at(s, a, b, m).len() - rest.len());
            assert(row == rest[y]);
            assert(rest[y] == races[y - 1]);
            assert(s.history[k][y - 1] == race_no);
        },
        _ => {},
    }
}

proof fn lemma_rows_true(s: StateView, a: TuiView, n: nat, x: int)
    requires
        s.wf(),
        n <= buckets(s).len(),
        0 <= x < rows_before(s, a, buckets(s), n).len(),
    ensures
        row_is_true(s, a, rows_before(s, a, buckets(s), n)[x]),
        exists|m: int|
            0 <= m < n && row_event(rows_before(s, a, buckets(s), n)[x]) == (
            #[trigger] buckets(s)[m]).0 && row_heat(rows_before(s, a, buckets(s), n)[x])
                <= buckets(s)[m].1,
    decreases n,
{
    let b = buckets(s);
    let before = rows_before(s, a, b, (n - 1) as nat);
    if x < before.len() {
        lemma_rows_true(s, a, (n - 1) as nat, x);
        let m = choose|m: int|
            0 <= m < n - 1 && row_event(before[x]) == (#[trigger] b[m]).0 && row_heat(before[x])
                <= b[m].1;
        assert(row_event(before[x]) == b[m].0);
    } else {
        let own = rows_at(s, a, b, n - 1);
        assert(rows_before(s, a, b, n)[x] == own[x - before.len()]);
        lemma_rows_at(s, a, n - 1, x - before.len());
        assert(row_event(own[x - before.len()]) == b[n - 1].0);
    }
}

proof fn lemma_rows_ordered(s: StateView, a: TuiView, n: nat, x: int, y: int)
    requires
        s.wf(),
        n <= buckets(s).len(),
        0 <= x < y < rows_before(s, a, buckets(s), n).len(),
    ensures
        in_tree_order(
            rows_before(s, a, buckets(s), n)[x],
            rows_before(s, a, buckets(s), n)[y],
        ),
    decreases n,
{
    let b = buckets(s);
    let before = rows_before(s, a, b, (n - 1) as nat);
    let own = rows_at(s, a, b, n - 1);
    if y < before.len() {
        lemma_rows_ordered(s, a, (n - 1) as nat, x, y);
    } else {
        let v = y - before.len();
        lemma_rows_at(s, a, n - 1, v);
        if x < before.len() {
            lemma_rows_true(s, a, (n - 1) as nat, x);
            let m = choose|m: int|
                0 <= m < n - 1 && row_event(before[x]) == (#[trigger] b[m]).0 && row_heat(
                    before[x],
                ) <= b[m].1;
            lemma_buckets_ascend(s, m, n - 1);
            if m < n - 2 {
                lemma_buckets_ascend(s, m, n - 2);
            }
            lemma_buckets_ascend(s, n - 2, n - 1);
        } else {
            let u = x - before.len();
            lemma_rows_at(s, a, n - 1, u);
        }
    }
}

/// Every row of the tree says what is so, and the rows stand in order: events
/// ascending, their heats ascending below them, and below those their races. So
/// no event and no heat has two rows.
pub proof fn law_tree_rows_are_true_and_in_order(s: StateView, a: TuiView, x: int, y: int)
    requires
        s.wf(),
        0 <= x < y < tree_rows(s, a).len(),
    ensures
        row_is_true(s, a, tree_rows(s, a)[x]),
        row_is_true(s, a, tree_rows(s, a)[y]),
        in_tree_order(tree_rows(s, a)[x], tree_rows(s, a)[y]),
{
    let n = buckets(s).len();
    lemma_rows_true(s, a, n, x);
    lemma_rows_true(s, a, n, y);
    lemma_rows_ordered(s, a, n, x, y);
}

/// Every event with stored races has a row. Where it is expanded, each of its
/// heats with stored races has one, and where that is expanded too, the heat's
/// races follow it directly, oldest first.
pub proof fn law_tree_rows_are_complete(s: StateView, a: TuiView, k: (u16, u8), j: int) -> (at: int)
    requires
        s.wf(),
        s.history.contains_key(k),
    ensures
        exists|x: int|
            0 <= x < tree_rows(s, a).len() && (#[trigger] tree_rows(s, a)[x]) is Event && row_event(
                tree_rows(s, a)[x],
            ) == k.0,
        a.expanded_events.contains(k.0) ==> 0 <= at < tree_rows(s, a).len() && tree_rows(s, a)[at]
            is Heat && row_event(tree_rows(s, a)[at]) == k.0 && row_heat(tree_rows(s, a)[at])
            == k.1,
        a.expanded_events.contains(k.0) && a.expanded_heats.contains(k) && 0 <= j
            < s.history[k].len() ==> at + 1 + j < tree_rows(s, a).len() && tree_rows(s, a)[at + 1
            + j] == (TreeRow::Race { event_no: k.0, heat: k.1, race_no: s.history[k][j] }),
{
    lemma_buckets(s);
    let b = buckets(s);
    assert(b.contains(k));
    let m = choose|m: int| 0 <= m < b.len() && b[m] == k;
    lemma_event_row(s, a, m);
    let at = heat_position(s, a, b, m);
    if a.expanded_events.contains(k.0) {
        lemma_heat_position(s, a, m);
        if a.expanded_heats.contains(k) && 0 <= j < s.history[k].len() {
            lemma_rows_grow(s, a, b, (m + 1) as nat, b.len());
            let upto = rows_before(s, a, b, (m + 1) as nat);
            let before = rows_before(s, a, b, m as nat);
            let own = rows_at(s, a, b, m);
            let inner = inner_rows(s, a, k);
            assert(upto == before + own);
            assert(inner[1 + j] == race_rows(s, k)[j]);
            assert(own[own.len() - inner.len() + 1 + j] == inner[1 + j]);
            assert(upto[at + 1 + j] == race_rows(s, k)[j]);
            assert(tree_rows(s, a)[at + 1 + j] == upto[at + 1 + j]);
        }
    }
    at
}

proof fn lemma_event_row(s: StateView, a: TuiView, m: int)
    requires
        0 <= m < buckets(s).len(),
    ensures
        exists|x: int|
            0 <= x < tree_rows(s, a).len() && (#[trigger] tree_rows(s, a)[x]) is Event && row_event(
                tree_rows(s, a)[x],
            ) == buckets(s)[m].0,
    decreases m,
{
    let b = buckets(s);
    if m > 0 && b[m - 1].0 == b[m].0 {
        lemma_event_row(s, a, m - 1);
    } else {
        lemma_rows_grow(s, a, b, (m + 1) as nat, b.len());
        let upto = rows_before(s, a, b, (m + 1) as nat);
        let before = rows_before(s, a, b, m as nat);
        let x = before.len() as int;
        assert(upto[x] == event_row(s, a, b, m));
        assert(tree_rows(s, a)[x] == upto[x]);
        assert(tree_rows(s, a)[x] is Event && row_event(tree_rows(s, a)[x]) == b[m].0);
    }
}

/// The heats of an event that have stored races.
pub open spec fn stored_heats(s: StateView, e: u16) -> Set<int> {
    vstd::set_lib::set_int_range(0, 256).filter(|h: int| s.history.contains_key((e, h as u8)))
}

/// The stored races of an event, each by its heat and its place there.
pub open spec fn stored_races(s: StateView, e: u16) -> Set<(int, int)> {
    Set::new(
        |p: (int, int)|
            0 <= p.0 < 256 && s.history.contains_key((e, p.0 as u8)) && 0 <= p.1 < s.history[(
                e,
                p.0 as u8,
            )].len(),
    )
}

spec fn heats_upto(s: StateView, e: u16, n: nat) -> Set<int> {
    vstd::set_lib::set_int_range(0, 256).filter(
        |h: int| exists|m: int| 0 <= m < n && #[trigger] buckets(s)[m] == (e, h as u8),
    )
}

proof fn lemma_heats_counted(s: StateView, e: u16, n: nat)
    requires
        n <= buckets(s).len(),
    ensures
        heats_upto(s, e, n).finite(),
        heats_upto(s, e, n).len() == heats_of(buckets(s), e, n),
    decreases n,
{
    let b = buckets(s);
    let now = heats_upto(s, e, n);
    vstd::set_lib::lemma_int_range(0, 256);
    if n == 0 {
        assert(now =~= Set::<int>::empty());
    } else {
        let before = heats_upto(s, e, (n - 1) as nat);
        lemma_heats_counted(s, e, (n - 1) as nat);
        lemma_buckets(s);
        let h = b[n - 1].1 as int;
        if b[n - 1].0 == e {
            assert(!before.contains(h)) by {
                if before.contains(h) {
                    let m = choose|m: int| 0 <= m < n - 1 && #[trigger] b[m] == (e, h as u8);
                    assert(b[m] != b[n - 1]);
                }
            }
            assert(now =~= before.insert(h)) by {
                assert forall|g: int| now.contains(g) == before.insert(h).contains(g) by {
                    if now.contains(g) {
                        let m = choose|m: int| 0 <= m < n && #[trigger] b[m] == (e, g as u8);
                        if m < n - 1 {
                            assert(b[m] == (e, g as u8));
                        }
                    }
                    if before.contains(g) {
                        let m = choose|m: int| 0 <= m < n - 1 && #[trigger] b[m] == (e, g as u8);
                        assert(b[m] == (e, g as u8));
                    }
                    if g == h {
                        assert(b[n - 1] == (e, g as u8));
                    }
                }
            }
        } else {
            assert(now =~= before) by {
                assert forall|g: int| now.contains(g) == before.contains(g) by {
                    if now.contains(g) {
                        let m = choose|m: int| 0 <= m < n && #[trigger] b[m] == (e, g as u8);
                        assert(m < n - 1);
                        assert(b[m] == (e, g as u8));
                    }
                    if before.contains(g) {
                        let m = choose|m: int| 0 <= m < n - 1 && #[trigger] b[m] == (e, g as u8);
                        assert(b[m] == (e, g as u8));
                    }
                }
            }
        }
    }
}

spec fn races_upto(s: StateView, e: u16, n: nat) -> Set<(int, int)> {
    Set::new(
        |p: (int, int)|
            heats_upto(s, e, n).contains(p.0) && 0 <= p.1 < s.history[(e, p.0 as u8)].len(),
    )
}

proof fn lemma_column(from: Set<(int, int)>, h: int, n: nat)
    requires
        from.finite(),
        forall|j: int| !from.contains((h, j)),
    ensures
        ({
            let all = Set::new(|p: (int, int)| from.contains(p) || (p.0 == h && 0 <= p.1 < n));
            all.finite() && all.len() == from.len() + n
        }),
    decreases n,
{
    let all = Set::new(|p: (int, int)| from.contains(p) || (p.0 == h && 0 <= p.1 < n));
    if n == 0 {
        assert(all =~= from);
    } else {
        let less = Set::new(|p: (int, int)| from.contains(p) || (p.0 == h && 0 <= p.1 < n - 1));
        lemma_column(from, h, (n - 1) as nat);
        assert(!less.contains((h, n - 1)));
        assert(all =~= less.insert((h, n - 1)));
    }
}

proof fn lemma_races_counted(s: StateView, e: u16, n: nat)
    requires
        n <= buckets(s).len(),
    ensures
        races_upto(s, e, n).finite(),
        races_upto(s, e, n).len() == races_of(s, buckets(s), e, n),
    decreases n,
{
    let b = buckets(s);
    let now = races_upto(s, e, n);
    if n == 0 {
        assert(now =~= Set::<(int, int)>::empty());
    } else {
        let before = races_upto(s, e, (n - 1) as nat);
        lemma_races_counted(s, e, (n - 1) as nat);
        lemma_heats_step(s, e, n);
        let h = b[n - 1].1 as int;
        if b[n - 1].0 == e {
            let len = s.history[b[n - 1]].len();
            assert(b[n - 1] == (e, h as u8));
            lemma_column(before, h, len);
            let all = Set::new(
                |p: (int, int)| before.contains(p) || (p.0 == h && 0 <= p.1 < len),
            );
            assert(now =~= all);
        } else {
            assert(now =~= before);
        }
    }
}

proof fn lemma_heats_step(s: StateView, e: u16, n: nat)
    requires
        0 < n <= buckets(s).len(),
    ensures
        ({
            let last = buckets(s)[n - 1];
            let before = heats_upto(s, e, (n - 1) as nat);
            let now = heats_upto(s, e, n);
            &&& last.0 == e ==> !before.contains(last.1 as int) && now == before.insert(
                last.1 as int,
            )
            &&& last.0 != e ==> now == before
        }),
{
    let b = buckets(s);
    let now = heats_upto(s, e, n);
    let before = heats_upto(s, e, (n - 1) as nat);
    lemma_buckets(s);
    let h = b[n - 1].1 as int;
    if b[n - 1].0 == e && before.contains(h) {
        let m = choose|m: int| 0 <= m < n - 1 && #[trigger] b[m] == (e, h as u8);
        assert(b[m] != b[n - 1]);
    }
    assert forall|g: int| now.contains(g) == (before.contains(g) || (b[n - 1].0 == e && g == h)) by {
        if now.contains(g) {
            let m = choose|m: int| 0 <= m < n && #[trigger] b[m] == (e, g as u8);
            if m < n - 1 {
                assert(b[m] == (e, g as u8));
            }
        }
        if before.contains(g) {
            let m = choose|m: int| 0 <= m < n - 1 && #[trigger] b[m] == (e, g as u8);
            assert(b[m] == (e, g as u8));
        }
        if b[n - 1].0 == e && g == h {
            assert(b[n - 1] == (e, g as u8));
        }
    }
    if b[n - 1].0 == e {
        assert(now =~= before.insert(h));
    } else {
        assert(now =~= before);
    }
}

proof fn lemma_all_heats(s: StateView, e: u16)
    ensures
        heats_upto(s, e, buckets(s).len()) == stored_heats(s, e),
{
    let b = buckets(s);
    let n = b.len();
    lemma_buckets(s);
    assert forall|h: int| heats_upto(s, e, n).contains(h) == stored_heats(s, e).contains(h) by {
        if heats_upto(s, e, n).contains(h) {
            let m = choose|m: int| 0 <= m < n && #[trigger] b[m] == (e, h as u8);
            assert(s.history.contains_key(b[m]));
        }
        if stored_heats(s, e).contains(h) {
            assert(b.contains((e, h as u8)));
            let m = choose|m: int| 0 <= m < n && b[m] == (e, h as u8);
            assert(b[m] == (e, h as u8));
        }
    }
    assert(heats_upto(s, e, n) =~= stored_heats(s, e));
}

/// The row of an event says how many of its heats have stored races, and how
/// many races these are together.
pub proof fn law_event_rows_count(s: StateView, a: TuiView, x: int)
    requires
        s.wf(),
        0 <= x < tree_rows(s, a).len(),
        tree_rows(s, a)[x] is Event,
    ensures
        tree_rows(s, a)[x] matches TreeRow::Event { event_no, heat_count, race_count, .. } && {
            &&& stored_heats(s, event_no).finite() && heat_count == stored_heats(s, event_no).len()
            &&& stored_races(s, event_no).finite()
            &&& stored_races(s, event_no).len() <= usize::MAX ==> race_count == stored_races(
                s,
                event_no,
            ).len()
        },
{
    let b = buckets(s);
    let n = b.len();
    lemma_event_rows(s, a, n, x);
    let e = row_event(tree_rows(s, a)[x]) as u16;
    lemma_heats_counted(s, e, n);
    lemma_races_counted(s, e, n);
    lemma_all_heats(s, e);
    assert(races_upto(s, e, n) =~= stored_races(s, e));
    vstd::set_lib::lemma_int_range(0, 256);
    vstd::set_lib::lemma_len_subset(
        stored_heats(s, e),
        vstd::set_lib::set_int_range(0, 256),
    );
}

proof fn lemma_event_rows(s: StateView, a: TuiView, n: nat, x: int)
    requires
        n <= buckets(s).len(),
        0 <= x < rows_before(s, a, buckets(s), n).len(),
        rows_before(s, a, buckets(s), n)[x] is Event,
    ensures
        exists|m: int|
            0 <= m < n && rows_before(s, a, buckets(s), n)[x] == #[trigger] event_row(
                s,
                a,
                buckets(s),
                m,
            ),
    decreases n,
{
    let b = buckets(s);
    let before = rows_before(s, a, b, (n - 1) as nat);
    if x < before.len() {
        lemma_event_rows(s, a, (n - 1) as nat, x);
        let m = choose|m: int| 0 <= m < n - 1 && before[x] == #[trigger] event_row(s, a, b, m);
        assert(rows_before(s, a, b, n)[x] == event_row(s, a, b, m));
    } else {
        let own = rows_at(s, a, b, n - 1);
        assert(rows_before(s, a, b, n)[x] == own[x - before.len()]);
        assert(rows_before(s, a, b, n)[x] == event_row(s, a, b, n - 1));
    }
}

/// The pane of stored events shows consecutive rows of the tree, as many as it
/// has room for: from the first one on while the selected row is among them, and
/// up to the selected row otherwise. Without stored races it says so.
pub proof fn law_tree_pane(s: StateView, a: TuiView, height: u16, j: int)
    requires
        a.wf(),
        height >= 3,
    ensures
        ({
            let rows = tree_rows(s, a);
            let n = rows.len() as int;
            let room = height - 2;
            let selected = if a.tree_selected < n {
                a.tree_selected as int
            } else {
                n - 1
            };
            let first = if selected < room {
                0
            } else {
                selected + 1 - room
            };
            let lines = pane_lines(s, a, height);
            &&& n == 0 ==> lines.len() == 1 && lines[0].len() == 1 && lines[0][0].text
                == "  (no stored races yet)"@
            &&& n > 0 ==> lines.len() == (if n - first < room {
                n - first
            } else {
                room
            })
            &&& n > 0 && 0 <= j < lines.len() ==> lines[j] == row_line(
                s,
                rows[first + j],
                a.focus == Focus::Tree && first + j == selected,
            )
        }),
{
}

/// What the rows show: an event its number, its title and its counts, a heat its
/// number and its races, both with an arrow that is turned down where they are
/// expanded, and a race its number and the time of its winner. The selected row
/// has a marker.
pub proof fn law_tree_row_texts(s: StateView, row: TreeRow, selected: bool)
    ensures
        ({
            let line = row_line(s, row, selected);
            let mark = if selected {
                "▶"@
            } else {
                " "@
            };
            &&& line.len() == 1
            &&& row matches TreeRow::Event { event_no, expanded, heat_count, race_count }
                ==> line[0].text == " "@ + mark + " "@ + (if expanded {
                "▾"@
            } else {
                "▸"@
            }) + " Event "@ + text::pad_left(text::dec(event_no as nat), 2) + "  "@ + (
            if 1 <= event_no <= s.lineup.len() {
                s.lineup[event_no - 1].label_text()
            } else {
                "event "@ + text::dec(event_no as nat)
            }) + "  ("@ + text::dec(heat_count as nat) + "h/"@ + text::dec(race_count as nat)
                + "r)"@
            &&& row matches TreeRow::Heat { heat, expanded, race_count, .. } ==> line[0].text
                == "    "@ + mark + " "@ + (if expanded {
                "▾"@
            } else {
                "▸"@
            }) + " Heat "@ + text::pad_left(text::dec(heat as nat), 2) + "  ("@ + text::dec(
                race_count as nat,
            ) + " race"@ + (if race_count == 1 {
                ""@
            } else {
                "s"@
            }) + ")"@
            &&& row matches TreeRow::Race { race_no, .. } ==> line[0].text == "       "@ + mark
                + " race #"@ + text::dec(race_no as nat) + "   1st "@ + winning_time(s, race_no)
        }),
{
}

/// The winner's time is the last touch of the lane with place 1, and two dashes
/// where no lane has it or the race is not stored.
pub proof fn law_winning_time(s: StateView, id: u16, i: int)
    ensures
        !s.races.contains_key(id) ==> winning_time(s, id) == "--"@,
        s.races.contains_key(id) ==> ({
            let lanes = s.races[id].lanes;
            &&& (forall|j: int|
                0 <= j < lanes.len() ==> !((#[trigger] lanes[j]) is Some && lanes[j]->0.place == 1))
                ==> winning_time(s, id) == "--"@
            &&& 0 <= i < lanes.len() && lanes[i] is Some && lanes[i]->0.place == 1 && (forall|j: int|
                0 <= j < i ==> !((#[trigger] lanes[j]) is Some && lanes[j]->0.place == 1))
                && lanes[i]->0.lane.touches.len() > 0 && lanes[i]->0.lane.touches.last() > 0
                ==> winning_time(s, id) == notation::time_text(lanes[i]->0.lane.touches.last())
        }),
{
    if s.races.contains_key(id) {
        let lanes = s.races[id].lanes;
        if forall|j: int|
            0 <= j < lanes.len() ==> !((#[trigger] lanes[j]) is Some && lanes[j]->0.place == 1) {
            lemma_no_winner(lanes, 0);
        }
        if 0 <= i < lanes.len() && lanes[i] is Some && lanes[i]->0.place == 1 && (forall|j: int|
            0 <= j < i ==> !((#[trigger] lanes[j]) is Some && lanes[j]->0.place == 1)) {
            lemma_winner(lanes, i, 0);
        }
    }
}

proof fn lemma_no_winner(rows: Seq<Option<RowView>>, i: int)
    requires
        0 <= i,
        forall|j: int|
            0 <= j < rows.len() ==> !((#[trigger] rows[j]) is Some && rows[j]->0.place == 1),
    ensures
        winner(rows, i) is None,
    decreases rows.len() - i,
{
    if i < rows.len() {
        assert(!(rows[i] is Some && rows[i]->0.place == 1));
        lemma_no_winner(rows, i + 1);
    }
}

proof fn lemma_winner(rows: Seq<Option<RowView>>, at: int, i: int)
    requires
        0 <= i <= at < rows.len(),
        rows[at] is Some && rows[at]->0.place == 1,
        forall|j: int|
            0 <= j < at ==> !((#[trigger] rows[j]) is Some && rows[j]->0.place == 1),
    ensures
        winner(rows, i) == rows[at],
    decreases at - i,
{
    if i < at {
        assert(!(rows[i] is Some && rows[i]->0.place == 1));
        lemma_winner(rows, at, i + 1);
    }
}

/// The selected row of the tree stands out by its ground, and only that one.
pub proof fn law_selected_row_stands_out(s: StateView, row: TreeRow, selected: bool)
    ensures
        selected ==> row_line(s, row, selected)[0].style.bg == Some(Color::DarkGray),
        !selected ==> row_line(s, row, selected)[0].style.bg is None,
{
}

/// A pane without room between its borders shows the first row of the tree.
pub proof fn law_tree_pane_without_room(s: StateView, a: TuiView, height: u16)
    requires
        a.wf(),
        height < 3,
        tree_rows(s, a).len() > 0,
    ensures
        pane_lines(s, a, height).len() == 1,
        pane_lines(s, a, height)[0] == row_line(
            s,
            tree_rows(s, a)[0],
            a.focus == Focus::Tree && (a.tree_selected == 0 || tree_rows(s, a).len() == 1),
        ),
{
}

} // verus!
