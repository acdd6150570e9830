//! The scoreboard pane: the running race, or what to do to start one.

use vstd::prelude::*;
use vstd::string::*;

use crate::clock;
use crate::notation;
use crate::race;
use crate::race::{InProgress, InProgressView, LaneTime, LaneView, MAX_LANES};
use crate::running;
use crate::screen;
use crate::screen::{Color, Line, SpanView, Style};
use crate::state::{State, StateView};
use crate::text;

verus! {

/// Whether lane index `i` is final: in use, not disqualified, and finished.
pub open spec fn is_final(ip: InProgressView, spread: (u8, u8), i: int) -> bool {
    spread.0 <= i + 1 <= spread.1 && !ip.lanes[i].dq && ip.lanes[i].finished_at is Some
}

/// Whether lane index `j` is final and ahead of lane index `i`: it finished
/// earlier, or at the same time on a lower lane.
pub open spec fn final_ahead(ip: InProgressView, spread: (u8, u8), j: int, i: int) -> bool {
    &&& is_final(ip, spread, j)
    &&& ip.lanes[j].finished_at->0 < ip.lanes[i].finished_at->0 || (ip.lanes[j].finished_at->0
        == ip.lanes[i].finished_at->0 && j < i)
}

/// Number of the first `n` lanes that are final and ahead of lane index `i`.
pub open spec fn finals_ahead(ip: InProgressView, spread: (u8, u8), i: int, n: nat) -> nat
    decreases n,
{
    if n == 0 {
        0
    } else {
        finals_ahead(ip, spread, i, (n - 1) as nat) + if final_ahead(ip, spread, n - 1, i) {
            1nat
        } else {
            0nat
        }
    }
}

/// The place shown for lane index `i`: its rank among the final lanes, none for
/// a lane that is not final.
pub open spec fn live_place(ip: InProgressView, spread: (u8, u8), i: int) -> Option<u8> {
    if is_final(ip, spread, i) {
        Some((1 + finals_ahead(ip, spread, i, ip.lanes.len())) as u8)
    } else {
        None
    }
}

fn final_at(ip: &InProgress, spread: (u8, u8), i: usize) -> (r: Option<u32>)
    requires
        ip@.wf(),
        i < MAX_LANES,
    ensures
        r is Some == is_final(ip@, spread, i as int),
        r is Some ==> r == ip@.lanes[i as int].finished_at,
{
    let lane: &LaneTime = &ip.lanes[i];
    assert(ip@.lanes[i as int] == lane@);
    if spread.0 as usize <= i + 1 && i + 1 <= spread.1 as usize && !lane.dq {
        lane.finished_at
    } else {
        None
    }
}

/// The place shown for lane index `i`.
pub fn live_place_of(ip: &InProgress, spread: (u8, u8), i: usize) -> (r: Option<u8>)
    requires
        ip@.wf(),
        i < MAX_LANES,
    ensures
        r == live_place(ip@, spread, i as int),
{
    match final_at(ip, spread, i) {
        None => None,
        Some(own) => {
            let mut n: u8 = 0;
            let mut j: usize = 0;
            while j < MAX_LANES
                invariant
                    ip@.wf(),
                    is_final(ip@, spread, i as int),
                    ip@.lanes[i as int].finished_at == Some(own),
                    j <= MAX_LANES,
                    n <= j,
                    n == finals_ahead(ip@, spread, i as int, j as nat),
                decreases MAX_LANES - j,
            {
                match final_at(ip, spread, j) {
                    Some(t) => {
                        if t < own || (t == own && j < i) {
                            n = n + 1;
                        }
                    },
                    None => {},
                }
                j = j + 1;
            }
            Some(n + 1)
        },
    }
}

/// How the finish time of a lane looks `since_ms` after its final touch: it
/// blinks for a second and a half.
pub open spec fn finish_style(since_ms: int) -> Style {
    let phase = since_ms / 250;
    if phase >= 6 {
        Style::strong(Color::Green)
    } else if phase % 2 == 0 {
        Style::strong(Color::Black).on(Color::Green)
    } else {
        Style::color(Color::DarkGray).dimmed()
    }
}

/// How an armed finish looks `elapsed_ms` into the race: it blinks.
pub open spec fn armed_style(elapsed_ms: int) -> Style {
    if elapsed_ms / 500 % 2 == 0 {
        Style::strong(Color::Black).on(Color::Red)
    } else {
        Style::strong(Color::Red).dimmed()
    }
}

/// Time and number of touches of a lane.
pub open spec fn lane_time_spans(lane: LaneView, elapsed_ms: u32) -> Seq<SpanView> {
    if lane.dq {
        seq![screen::span("       DQ"@, Style::strong(Color::Red))]
    } else if lane.touches.len() > 0 {
        let time = text::pad_left(notation::time_text(lane.touches.last()), 10);
        let touches = screen::span(
            "  ("@ + text::dec(lane.touches.len()) + " touch"@ + notation::plural_text(
                lane.touches.len() as int,
                ""@,
                "es"@,
            ) + ")"@,
            Style::color(Color::DarkGray),
        );
        match lane.finished_at {
            Some(at) => seq![
                screen::span(
                    time,
                    finish_style(
                        if elapsed_ms < at {
                            0
                        } else {
                            elapsed_ms - at
                        },
                    ),
                ),
                screen::span("  FINAL"@, Style::strong(Color::Green)),
                touches,
            ],
            None => seq![screen::span(time, Style::strong(Color::Green)), touches],
        }
    } else {
        seq![screen::span("        --"@, Style::color(Color::DarkGray))]
    }
}

/// The number of the next touch of a lane, counted in sixteen bits.
pub open spec fn next_touch(lane: LaneView) -> int {
    if lane.touches.len() > u16::MAX {
        1
    } else if lane.touches.len() == u16::MAX {
        u16::MAX as int
    } else {
        (lane.touches.len() + 1) as int
    }
}

/// What a lane that is neither disqualified nor final waits for.
pub open spec fn armed_spans(lane: LaneView, total: nat, elapsed_ms: u32) -> Seq<SpanView> {
    if lane.dq || lane.finished_at is Some || total == 0 || next_touch(lane) > total {
        Seq::empty()
    } else if next_touch(lane) == total {
        seq![screen::span("    FINISH ARMED"@, armed_style(elapsed_ms as int))]
    } else {
        seq![
            screen::span(
                "    SPLIT ARMED ("@ + text::dec(next_touch(lane) as nat) + "/"@ + text::dec(
                    (total - 1) as nat,
                ) + ")"@,
                Style::strong(Color::Yellow),
            ),
        ]
    }
}

/// The row of lane index `i`.
pub open spec fn lane_spans(
    ip: InProgressView,
    spread: (u8, u8),
    total: nat,
    elapsed_ms: u32,
    i: int,
) -> Seq<SpanView> {
    seq![
        screen::span(
            "  Lane"@ + text::pad_left(text::dec((i + 1) as nat), 2) + "  "@,
            Style::strong(Color::Cyan),
        ),
        match live_place(ip, spread, i) {
            Some(p) => screen::span(
                text::pad_left(notation::place_text(p), 3) + "  "@,
                Style::strong(Color::Yellow),
            ),
            None => screen::span("     "@, Style::plain()),
        },
    ] + lane_time_spans(ip.lanes[i], elapsed_ms) + armed_spans(ip.lanes[i], total, elapsed_ms)
}

/// Touches that the running race is over after on each lane; 1 for an event
/// that the lineup does not reach.
pub open spec fn board_touches(s: StateView, event: u16) -> nat {
    match s.event_def(event) {
        Some(e) => e.segments(),
        None => 1,
    }
}

/// Race number, running time, event and heat.
pub open spec fn race_head(s: StateView, ip: InProgressView, elapsed_ms: u32) -> Seq<SpanView> {
    seq![
        screen::span("  race "@, Style::plain()),
        screen::span(text::dec(ip.race_no as nat), Style::strong(Color::White)),
        screen::span("    running time  "@, Style::plain()),
        screen::span(notation::time_text(elapsed_ms), Style::strong(Color::Yellow)),
        screen::span(
            "    "@ + running::event_title(s, ip.event) + "  heat "@ + text::dec(ip.heat as nat),
            Style::plain(),
        ),
    ]
}

/// The pane while no race is in progress.
pub open spec fn idle_lines(s: StateView) -> Seq<Seq<SpanView>> {
    let spread = text::dec(s.lane_spread.0 as nat) + ".."@ + text::dec(s.lane_spread.1 as nat);
    seq![
        seq![
            screen::span("  "@, Style::plain()),
            screen::span("idle"@, Style::strong(Color::DarkGray)),
            screen::span(
                "    event "@ + text::dec(s.current_event as nat) + "    heat "@ + text::dec(
                    s.current_heat as nat,
                ) + "    next race "@ + text::dec(s.next_race_no as nat) + "    lanes "@ + spread,
                Style::plain(),
            ),
        ],
        Seq::empty(),
        seq![
            screen::span(
                "  press <Enter> in the prompt to start a race"@,
                Style::color(Color::Gray),
            ),
        ],
        seq![
            screen::span(
                "  type "@ + spread
                    + " to record lane touches  ·  / to finalize  ·  /dq L to disqualify"@,
                Style::color(Color::Gray),
            ),
        ],
    ]
}

/// The rows of the lanes in use up to lane number `hi`.
pub open spec fn lane_lines(s: StateView, ip: InProgressView, elapsed_ms: u32, hi: int) -> Seq<
    Seq<SpanView>,
>
    decreases hi,
{
    if hi < s.lane_spread.0 || hi <= 0 {
        Seq::empty()
    } else {
        lane_lines(s, ip, elapsed_ms, hi - 1).push(
            lane_spans(ip, s.lane_spread, board_touches(s, ip.event), elapsed_ms, hi - 1),
        )
    }
}

/// The pane while a race is in progress.
pub open spec fn race_lines(s: StateView, ip: InProgressView, now_ns: u64) -> Seq<Seq<SpanView>> {
    let elapsed_ms = clock::elapsed_ms_of(ip.started_ns, now_ns);
    seq![
        race_head(s, ip, elapsed_ms),
        seq![
            screen::span(
                "  ─────────────────────────────────────────────────────────────"@,
                Style::color(Color::DarkGray),
            ),
        ],
    ] + lane_lines(s, ip, elapsed_ms, s.lane_spread.1 as int)
}

/// The scoreboard pane at `now_ns`.
pub open spec fn board_lines(s: StateView, now_ns: u64) -> Seq<Seq<SpanView>> {
    match s.in_progress {
        None => idle_lines(s),
        Some(ip) => race_lines(s, ip, now_ns),
    }
}

fn finish_look(since_ms: u32) -> (r: Style)
    ensures
        r == finish_style(since_ms as int),
{
    let phase: u32 = since_ms / 250;
    if phase >= 6 {
        Style::strong(Color::Green)
    } else if phase % 2 == 0 {
        Style::strong(Color::Black).on(Color::Green)
    } else {
        Style::color(Color::DarkGray).dimmed()
    }
}

fn armed_look(elapsed_ms: u32) -> (r: Style)
    ensures
        r == armed_style(elapsed_ms as int),
{
    if elapsed_ms / 500 % 2 == 0 {
        Style::strong(Color::Black).on(Color::Red)
    } else {
        Style::strong(Color::Red).dimmed()
    }
}

fn put_lane_time(line: &mut Line, lane: &LaneTime, elapsed_ms: u32)
    ensures
        final(line)@ == old(line)@ + lane_time_spans(lane@, elapsed_ms),
{
    let ghost before = line@;
    let n: usize = lane.touches_ms.len();
    if lane.dq {
        line.put("       DQ", Style::strong(Color::Red));
    } else if n > 0 {
        let mut time: String = String::new();
        let shown: String = notation::fmt_time(lane.touches_ms[n - 1]);
        text::put_pad_left(&mut time, shown.as_str(), 10);
        assert(time@ =~= text::pad_left(notation::time_text(lane@.touches.last()), 10));
        match lane.finished_at {
            Some(at) => {
                line.put_string(time, finish_look(elapsed_ms.saturating_sub(at)));
                line.put("  FINAL", Style::strong(Color::Green));
            },
            None => {
                line.put_string(time, Style::strong(Color::Green));
            },
        }
        let mut touches: String = String::from_str("  (");
        text::put_dec(&mut touches, n as u64);
        touches.append(" touch");
        touches.append(notation::plural(n, "", "es"));
        touches.append(")");
        line.put_string(touches, Style::color(Color::DarkGray));
    } else {
        line.put("        --", Style::color(Color::DarkGray));
    }
    assert(line@ =~= before + lane_time_spans(lane@, elapsed_ms));
}

fn put_armed(line: &mut Line, lane: &LaneTime, total: u16, elapsed_ms: u32)
    ensures
        final(line)@ == old(line)@ + armed_spans(lane@, total as nat, elapsed_ms),
{
    let ghost before = line@;
    if !lane.dq && lane.finished_at.is_none() && total > 0 {
        let n: usize = lane.touches_ms.len();
        let next: u16 = screen::to_cells(n).saturating_add(1);
        assert(next == next_touch(lane@));
        if next == total {
            line.put("    FINISH ARMED", armed_look(elapsed_ms));
        } else if next < total {
            let mut s: String = String::from_str("    SPLIT ARMED (");
            text::put_dec(&mut s, next as u64);
            s.append("/");
            text::put_dec(&mut s, (total - 1) as u64);
            s.append(")");
            line.put_string(s, Style::strong(Color::Yellow));
        }
    }
    assert(line@ =~= before + armed_spans(lane@, total as nat, elapsed_ms));
}

fn lane_line(ip: &InProgress, spread: (u8, u8), total: u16, elapsed_ms: u32, i: usize) -> (r: Line)
    requires
        ip@.wf(),
        i < MAX_LANES,
    ensures
        r@ == lane_spans(ip@, spread, total as nat, elapsed_ms, i as int),
{
    let lane: &LaneTime = &ip.lanes[i];
    assert(ip@.lanes[i as int] == lane@);
    let mut line: Line = Line::blank();
    let mut head: String = String::from_str("  Lane");
    text::put_dec_left(&mut head, (i + 1) as u64, 2);
    head.append("  ");
    line.put_string(head, Style::strong(Color::Cyan));
    match live_place_of(ip, spread, i) {
        Some(p) => {
            let mut s: String = String::new();
            let label: String = notation::place_label(p);
            text::put_pad_left(&mut s, label.as_str(), 3);
            assert(s@ =~= text::pad_left(notation::place_text(p), 3));
            s.append("  ");
            line.put_string(s, Style::strong(Color::Yellow));
        },
        None => {
            line.put("     ", Style::plain());
        },
    }
    let ghost start = line@;
    put_lane_time(&mut line, lane, elapsed_ms);
    put_armed(&mut line, lane, total, elapsed_ms);
    assert(line@ =~= lane_spans(ip@, spread, total as nat, elapsed_ms, i as int));
    line
}

fn race_head_line(state: &State, ip: &InProgress, elapsed_ms: u32) -> (r: Line)
    ensures
        r@ == race_head(state@, ip@, elapsed_ms),
{
    let mut line: Line = Line::blank();
    line.put("  race ", Style::plain());
    line.put_string(text::dec_string(ip.race_no as u64), Style::strong(Color::White));
    line.put("    running time  ", Style::plain());
    line.put_string(notation::fmt_time(elapsed_ms), Style::strong(Color::Yellow));
    let mut s: String = String::from_str("    ");
    let title: String = running::event_title_of(state, ip.event);
    s.append(title.as_str());
    s.append("  heat ");
    text::put_dec(&mut s, ip.heat as u64);
    line.put_string(s, Style::plain());
    assert(line@ =~= race_head(state@, ip@, elapsed_ms));
    line
}

fn idle_board(state: &State) -> (r: Vec<Line>)
    ensures
        screen::lines_view(r@) == idle_lines(state@),
{
    let mut spread: String = text::dec_string(state.lane_spread.0 as u64);
    spread.append("..");
    text::put_dec(&mut spread, state.lane_spread.1 as u64);
    let mut lines: Vec<Line> = Vec::new();
    let mut first: Line = Line::blank();
    first.put("  ", Style::plain());
    first.put("idle", Style::strong(Color::DarkGray));
    let mut s: String = String::from_str("    event ");
    text::put_dec(&mut s, state.current_event as u64);
    s.append("    heat ");
    text::put_dec(&mut s, state.current_heat as u64);
    s.append("    next race ");
    text::put_dec(&mut s, state.next_race_no as u64);
    s.append("    lanes ");
    s.append(spread.as_str());
    first.put_string(s, Style::plain());
    assert(first@ =~= idle_lines(state@)[0]);
    screen::put_line(&mut lines, first);
    screen::put_line(&mut lines, Line::blank());
    screen::put_line(
        &mut lines,
        Line::single(
            "  press <Enter> in the prompt to start a race",
            Style::color(Color::Gray),
        ),
    );
    let mut t: String = String::from_str("  type ");
    t.append(spread.as_str());
    t.append(" to record lane touches  ·  / to finalize  ·  /dq L to disqualify");
    screen::put_line(&mut lines, Line::single(t.as_str(), Style::color(Color::Gray)));
    assert(screen::lines_view(lines@) =~= idle_lines(state@));
    lines
}

fn race_board(state: &State, ip: &InProgress, now_ns: u64) -> (r: Vec<Line>)
    requires
        state.wf(),
        ip@.wf(),
    ensures
        screen::lines_view(r@) == race_lines(state@, ip@, now_ns),
{
    let elapsed_ms: u32 = clock::elapsed_ms(ip.started_ns, now_ns);
    let (lo, hi) = state.lane_spread;
    let total: u16 = match state.event_def(ip.event) {
        Some(e) => e.total_segments(),
        None => 1,
    };
    let mut lines: Vec<Line> = Vec::new();
    screen::put_line(&mut lines, race_head_line(state, ip, elapsed_ms));
    screen::put_line(
        &mut lines,
        Line::single(
            "  ─────────────────────────────────────────────────────────────",
            Style::color(Color::DarkGray),
        ),
    );
    let ghost head = screen::lines_view(lines@);
    let mut lane: u8 = lo - 1;
    assert(head + lane_lines(state@, ip@, elapsed_ms, lane as int) =~= head);
    while lane < hi
        invariant
            state.wf(),
            ip@.wf(),
            state@.lane_spread == (lo, hi),
            total == board_touches(state@, ip@.event),
            lo - 1 <= lane <= hi,
            screen::lines_view(lines@) == head + lane_lines(
                state@,
                ip@,
                elapsed_ms,
                lane as int,
            ),
        decreases hi - lane,
    {
        let ghost before = lane_lines(state@, ip@, elapsed_ms, lane as int);
        let line: Line = lane_line(ip, (lo, hi), total, elapsed_ms, lane as usize);
        screen::put_line(&mut lines, line);
        lane = lane + 1;
        assert((head + before).push(line@) =~= head + before.push(line@));
    }
    assert(screen::lines_view(lines@) =~= race_lines(state@, ip@, now_ns));
    lines
}

/// The scoreboard pane at `now_ns`.
pub fn draw_scoreboard(state: &State, now_ns: u64) -> (r: Vec<Line>)
    requires
        state.wf(),
    ensures
        screen::lines_view(r@) == board_lines(state@, now_ns),
{
    match &state.in_progress {
        None => idle_board(state),
        Some(ip) => race_board(state, ip, now_ns),
    }
}

/// A place is shown for the final lanes and for no other.
pub proof fn law_only_final_lanes_show_a_place(ip: InProgressView, spread: (u8, u8), i: int)
    requires
        ip.wf(),
        0 <= i < MAX_LANES,
    ensures
        live_place(ip, spread, i) is Some <==> (spread.0 <= i + 1 <= spread.1 && !ip.lanes[i].dq
            && ip.lanes[i].finished_at is Some),
{
}

/// Once every lane that touched and was not disqualified is final, at its last
/// touch, the places shown are those of the result.
pub proof fn law_board_agrees_with_the_result(ip: InProgressView, spread: (u8, u8), i: int)
    requires
        ip.wf(),
        0 <= i < MAX_LANES,
        forall|j: int|
            0 <= j < MAX_LANES ==> #[trigger] ip.lanes[j].is_finisher() == is_final(ip, spread, j),
        forall|j: int|
            0 <= j < MAX_LANES && #[trigger] is_final(ip, spread, j) ==> ip.lanes[j].finished_at
                == Some(ip.lanes[j].finish()),
    ensures
        live_place(ip, spread, i) == (match race::result_row(ip.lanes, i) {
            Some(row) => if row.place == 0 {
                None
            } else {
                Some(row.place)
            },
            None => None,
        }),
{
    assert(ip.lanes[i].is_finisher() == is_final(ip, spread, i));
    if is_final(ip, spread, i) {
        lemma_finals_ahead(ip, spread, i, MAX_LANES as nat);
        race::law_place_range(ip.lanes, i);
    }
}

proof fn lemma_finals_ahead(ip: InProgressView, spread: (u8, u8), i: int, n: nat)
    requires
        ip.wf(),
        0 <= i < MAX_LANES,
        n <= MAX_LANES,
        is_final(ip, spread, i),
        forall|j: int|
            0 <= j < MAX_LANES ==> #[trigger] ip.lanes[j].is_finisher() == is_final(ip, spread, j),
        forall|j: int|
            0 <= j < MAX_LANES && #[trigger] is_final(ip, spread, j) ==> ip.lanes[j].finished_at
                == Some(ip.lanes[j].finish()),
    ensures
        finals_ahead(ip, spread, i, n) == race::count_ahead(ip.lanes, i, n),
    decreases n,
{
    if n > 0 {
        lemma_finals_ahead(ip, spread, i, (n - 1) as nat);
        assert(ip.lanes[n - 1].is_finisher() == is_final(ip, spread, n - 1));
    }
}

/// The time of a final lane blinks three times, a quarter of a second each, and
/// is steady from then on.
pub proof fn law_final_time_blinks_three_times(since_ms: int)
    requires
        since_ms >= 0,
    ensures
        finish_style(since_ms) == Style::strong(Color::Black).on(Color::Green) <==> (since_ms < 250
            || 500 <= since_ms < 750 || 1_000 <= since_ms < 1_250),
        since_ms >= 1_500 <==> finish_style(since_ms) == Style::strong(Color::Green),
{
}

/// The scoreboard of a running race has a row for each lane in use and two above
/// them.
pub proof fn law_board_has_a_row_per_lane(s: StateView, now_ns: u64)
    requires
        s.wf(),
        s.in_progress is Some,
    ensures
        board_lines(s, now_ns).len() == s.lane_spread.1 - s.lane_spread.0 + 3,
        forall|lane: int|
            s.lane_spread.0 <= lane <= s.lane_spread.1 ==> #[trigger] board_lines(s, now_ns)[lane
                - s.lane_spread.0 + 2] == lane_spans(
                s.in_progress->0,
                s.lane_spread,
                board_touches(s, s.in_progress->0.event),
                clock::elapsed_ms_of(s.in_progress->0.started_ns, now_ns),
                lane - 1,
            ),
{
    let ip = s.in_progress->0;
    lemma_lane_lines(
        s,
        ip,
        clock::elapsed_ms_of(ip.started_ns, now_ns),
        s.lane_spread.1 as int,
    );
}

proof fn lemma_lane_lines(s: StateView, ip: InProgressView, elapsed_ms: u32, hi: int)
    requires
        s.wf(),
        hi >= s.lane_spread.0 - 1,
    ensures
        lane_lines(s, ip, elapsed_ms, hi).len() == hi - s.lane_spread.0 + 1,
        forall|lane: int|
            s.lane_spread.0 <= lane <= hi ==> #[trigger] lane_lines(s, ip, elapsed_ms, hi)[lane
                - s.lane_spread.0] == lane_spans(
                ip,
                s.lane_spread,
                board_touches(s, ip.event),
                elapsed_ms,
                lane - 1,
            ),
    decreases hi,
{
    if hi >= s.lane_spread.0 {
        lemma_lane_lines(s, ip, elapsed_ms, hi - 1);
        let before = lane_lines(s, ip, elapsed_ms, hi - 1);
        assert forall|lane: int| s.lane_spread.0 <= lane <= hi implies #[trigger] lane_lines(
            s,
            ip,
            elapsed_ms,
            hi,
        )[lane - s.lane_spread.0] == lane_spans(
            ip,
            s.lane_spread,
            board_touches(s, ip.event),
            elapsed_ms,
            lane - 1,
        ) by {
            if lane < hi {
                assert(before[lane - s.lane_spread.0] == lane_spans(
                    ip,
                    s.lane_spread,
                    board_touches(s, ip.event),
                    elapsed_ms,
                    lane - 1,
                ));
            }
        }
    }
}

/// Among final lanes in use that are not disqualified, the one with the earlier
/// final touch has the smaller place, of equal ones the lower lane, and the
/// places count from 1 without a gap: as many lanes are before one as its place
/// less one.
pub proof fn law_live_places_follow_the_finish(
    ip: InProgressView,
    spread: (u8, u8),
    i: int,
    j: int,
)
    requires
        ip.wf(),
        0 <= i < 10,
        0 <= j < 10,
        live_place(ip, spread, i) is Some,
        live_place(ip, spread, j) is Some,
    ensures
        ip.lanes[j].finished_at->0 < ip.lanes[i].finished_at->0 ==> live_place(ip, spread, j)->0
            < live_place(ip, spread, i)->0,
        ip.lanes[j].finished_at->0 == ip.lanes[i].finished_at->0 && j < i ==> live_place(
            ip,
            spread,
            j,
        )->0 < live_place(ip, spread, i)->0,
        live_place(ip, spread, i)->0 == 1 + vstd::set_lib::set_int_range(0, 10).filter(
            |l: int|
                live_place(ip, spread, l) is Some && (ip.lanes[l].finished_at->0
                    < ip.lanes[i].finished_at->0 || (ip.lanes[l].finished_at->0
                    == ip.lanes[i].finished_at->0 && l < i)),
        ).len(),
{
    lemma_finals_bound(ip, spread, i, 10);
    lemma_finals_bound(ip, spread, j, 10);
    if final_ahead(ip, spread, j, i) {
        lemma_finals_order(ip, spread, j, i, 10);
    }
    lemma_finals_counted(ip, spread, i, 10);
}

proof fn lemma_finals_bound(ip: InProgressView, spread: (u8, u8), i: int, n: nat)
    ensures
        finals_ahead(ip, spread, i, n) <= n,
    decreases n,
{
    if n > 0 {
        lemma_finals_bound(ip, spread, i, (n - 1) as nat);
    }
}

proof fn lemma_finals_order(ip: InProgressView, spread: (u8, u8), j: int, i: int, n: nat)
    requires
        is_final(ip, spread, i),
        final_ahead(ip, spread, j, i),
        0 <= j,
    ensures
        finals_ahead(ip, spread, j, n) + (if j < n {
            1nat
        } else {
            0nat
        }) <= finals_ahead(ip, spread, i, n),
    decreases n,
{
    if n > 0 {
        lemma_finals_order(ip, spread, j, i, (n - 1) as nat);
    }
}

proof fn lemma_finals_counted(ip: InProgressView, spread: (u8, u8), i: int, n: nat)
    ensures
        ({
            let before = vstd::set_lib::set_int_range(0, n as int).filter(
                |l: int|
                    live_place(ip, spread, l) is Some && (ip.lanes[l].finished_at->0
                        < ip.lanes[i].finished_at->0 || (ip.lanes[l].finished_at->0
                        == ip.lanes[i].finished_at->0 && l < i)),
            );
            &&& before.finite()
            &&& before.len() == finals_ahead(ip, spread, i, n)
        }),
    decreases n,
{
    let p = |l: int|
        live_place(ip, spread, l) is Some && (ip.lanes[l].finished_at->0
            < ip.lanes[i].finished_at->0 || (ip.lanes[l].finished_at->0
            == ip.lanes[i].finished_at->0 && l < i));
    let now = vstd::set_lib::set_int_range(0, n as int).filter(p);
    vstd::set_lib::lemma_int_range(0, n as int);
    if n == 0 {
        assert(now =~= Set::<int>::empty());
    } else {
        let before = vstd::set_lib::set_int_range(0, n - 1).filter(p);
        lemma_finals_counted(ip, spread, i, (n - 1) as nat);
        assert(p(n - 1) == final_ahead(ip, spread, n - 1, i));
        if p(n - 1) {
            assert(now =~= before.insert(n - 1));
        } else {
            assert(now =~= before);
        }
    }
}

/// The row of a lane begins with its number and its place, where it has one.
/// Then a disqualified lane shows DQ, one that touched the time of its last
/// touch and how often it touched, with FINAL in between once it is final, and
/// any other lane two dashes.
pub proof fn law_lane_row(
    ip: InProgressView,
    spread: (u8, u8),
    total: nat,
    elapsed_ms: u32,
    i: int,
)
    requires
        ip.wf(),
        0 <= i < 10,
    ensures
        ({
            let row = lane_spans(ip, spread, total, elapsed_ms, i);
            let lane = ip.lanes[i];
            let touches = "  ("@ + text::dec(lane.touches.len()) + " touch"@ + (
            if lane.touches.len() == 1 {
                ""@
            } else {
                "es"@
            }) + ")"@;
            let time = text::pad_left(
                notation::time_text(lane.touches[lane.touches.len() - 1]),
                10,
            );
            &&& row.len() >= 3
            &&& row[0].text == "  Lane"@ + text::pad_left(text::dec((i + 1) as nat), 2) + "  "@
            &&& live_place(ip, spread, i) is None ==> row[1].text == "     "@
            &&& live_place(ip, spread, i) matches Some(p) ==> row[1].text == text::pad_left(
                notation::place_text(p),
                3,
            ) + "  "@
            &&& lane.dq ==> row.len() == 3 && row[2].text == "       DQ"@
            &&& !lane.dq && lane.touches.len() == 0 ==> row[2].text == "        --"@
            &&& !lane.dq && lane.touches.len() > 0 ==> row[2].text == time
            &&& !lane.dq && lane.touches.len() > 0 && lane.finished_at is None ==> row.len() >= 4
                && row[3].text == touches && row[2].style == Style::strong(Color::Green)
            &&& !lane.dq && lane.touches.len() > 0 && lane.finished_at is Some ==> row.len() == 5
                && row[3].text == "  FINAL"@ && row[4].text == touches && row[2].style
                == finish_style(
                if elapsed_ms < lane.finished_at->0 {
                    0
                } else {
                    elapsed_ms - lane.finished_at->0
                },
            )
        }),
{
}

/// Behind its time, a lane that is neither disqualified nor final shows what its
/// next touch is: the finish, where it is the last of the event's touches, or
/// which of its splits. A lane beyond the event's touches shows nothing.
pub proof fn law_armed_lane(
    ip: InProgressView,
    spread: (u8, u8),
    total: nat,
    elapsed_ms: u32,
    i: int,
)
    requires
        ip.wf(),
        0 <= i < 10,
        !ip.lanes[i].dq,
        ip.lanes[i].finished_at is None,
        ip.lanes[i].touches.len() < 65_535,
    ensures
        ({
            let row = lane_spans(ip, spread, total, elapsed_ms, i);
            let n = ip.lanes[i].touches.len();
            let plain_len = if n == 0 {
                3int
            } else {
                4
            };
            &&& n + 1 > total ==> row.len() == plain_len
            &&& n + 1 == total ==> row.len() == plain_len + 1 && row[plain_len].text
                == "    FINISH ARMED"@ && row[plain_len].style == armed_style(elapsed_ms as int)
            &&& n + 1 < total ==> row.len() == plain_len + 1 && row[plain_len].text
                == "    SPLIT ARMED ("@ + text::dec(n + 1) + "/"@ + text::dec((total - 1) as nat)
                + ")"@
        }),
{
}

/// An armed finish blinks, half a second on and half a second off.
pub proof fn law_armed_finish_blinks(elapsed_ms: int)
    requires
        elapsed_ms >= 0,
    ensures
        armed_style(elapsed_ms + 1_000) == armed_style(elapsed_ms),
        elapsed_ms < 500 ==> armed_style(elapsed_ms) == Style::strong(Color::Black).on(Color::Red),
        500 <= elapsed_ms < 1_000 ==> armed_style(elapsed_ms) == Style::strong(
            Color::Red,
        ).dimmed(),
{
}

/// While it blinks, a final time is dark in between.
pub proof fn law_final_time_is_dark_in_between(since_ms: int)
    requires
        250 <= since_ms < 500 || 750 <= since_ms < 1_000 || 1_250 <= since_ms < 1_500,
    ensures
        finish_style(since_ms) == Style::color(Color::DarkGray).dimmed(),
{
}

/// Above the lanes stand the race's number, its running time, its event and its
/// heat; the lanes are those of its event's touches, or of one touch for an
/// event outside the lineup.
pub proof fn law_board_heading(s: StateView, now_ns: u64)
    requires
        s.wf(),
        s.in_progress is Some,
    ensures
        ({
            let ip = s.in_progress->0;
            let head = board_lines(s, now_ns)[0];
            let title = if ip.event <= s.lineup.len() {
                s.lineup[ip.event - 1].label_text()
            } else {
                "event "@ + text::dec(ip.event as nat)
            };
            &&& head.len() == 5
            &&& head[0].text == "  race "@ && head[1].text == text::dec(ip.race_no as nat)
            &&& head[2].text == "    running time  "@
            &&& head[3].text == notation::time_text(clock::elapsed_ms_of(ip.started_ns, now_ns))
            &&& head[4].text == "    "@ + title + "  heat "@ + text::dec(ip.heat as nat)
            &&& board_touches(s, ip.event) == (if ip.event <= s.lineup.len() {
                s.lineup[ip.event - 1].segments()
            } else {
                1
            })
        }),
{
}

/// Without a race in progress the board shows what the next one will be.
pub proof fn law_idle_board(s: StateView, now_ns: u64)
    requires
        s.in_progress is None,
    ensures
        ({
            let lines = board_lines(s, now_ns);
            let spread = text::dec(s.lane_spread.0 as nat) + ".."@ + text::dec(
                s.lane_spread.1 as nat,
            );
            &&& lines.len() == 4
            &&& lines[0].len() == 3 && lines[0][1].text == "idle"@
            &&& lines[0][2].text == "    event "@ + text::dec(s.current_event as nat)
                + "    heat "@ + text::dec(s.current_heat as nat) + "    next race "@ + text::dec(
                s.next_race_no as nat,
            ) + "    lanes "@ + spread
            &&& lines[1].len() == 0
            &&& lines[3].len() == 1 && lines[3][0].text == "  type "@ + spread
                + " to record lane touches  ·  / to finalize  ·  /dq L to disqualify"@
        }),
{
}

/// On the board a disqualification is red, FINAL green, a lane number cyan, a
/// place yellow and a lane without touches dark.
pub proof fn law_lane_row_colors(
    ip: InProgressView,
    spread: (u8, u8),
    total: nat,
    elapsed_ms: u32,
    i: int,
)
    requires
        ip.wf(),
        0 <= i < 10,
    ensures
        ({
            let row = lane_spans(ip, spread, total, elapsed_ms, i);
            let lane = ip.lanes[i];
            &&& row[0].style.fg == Some(Color::Cyan)
            &&& live_place(ip, spread, i) is Some ==> row[1].style.fg == Some(Color::Yellow)
            &&& lane.dq ==> row[2].style.fg == Some(Color::Red)
            &&& !lane.dq && lane.touches.len() == 0 ==> row[2].style.fg == Some(Color::DarkGray)
            &&& !lane.dq && lane.touches.len() > 0 && lane.finished_at is Some ==> row[3].style.fg
                == Some(Color::Green)
        }),
{
}

} // verus!
