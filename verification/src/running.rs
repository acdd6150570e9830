//! Running a race: start, touches, disqualifications and the final result.

use vstd::prelude::*;
use vstd::string::*;

use crate::clock;
use crate::event;
use crate::notation;
use crate::output;
use crate::output::{Effect, EffectView};
use crate::race;
use crate::race::{InProgress, InProgressView, LaneTime, LaneView, Race, RowView, MAX_LANES};
use crate::state;
use crate::state::{State, StateView};
use crate::text;

verus! {

/// How an event number is shown: the label of its definition, or its number
/// if the lineup does not reach it.
pub open spec fn event_title(s: StateView, event: u16) -> Seq<char> {
    match s.event_def(event) {
        Some(e) => e.label_text(),
        None => "event "@ + text::dec(event as nat),
    }
}

pub fn event_title_of(state: &State, event: u16) -> (r: String)
    ensures
        r@ == event_title(state@, event),
{
    match state.event_def(event) {
        Some(e) => e.label(),
        None => {
            let mut s: String = String::from_str("event ");
            text::put_dec(&mut s, event as u64);
            s
        },
    }
}

/// Touches that event number `event` expects, 0 if the lineup does not reach
/// it.
pub open spec fn expected_touches(s: StateView, event: u16) -> nat {
    match s.event_def(event) {
        Some(e) => e.segments(),
        None => 0,
    }
}

/// Whether a lane number lies in the lanes in use.
pub open spec fn in_spread(s: StateView, lane: u8) -> bool {
    s.lane_spread.0 <= lane <= s.lane_spread.1
}

pub open spec fn msg_outside_spread(s: StateView, lane: u8) -> Seq<char> {
    "(lane "@ + text::dec(lane as nat) + " outside active spread "@ + text::dec(
        s.lane_spread.0 as nat,
    ) + "..="@ + text::dec(s.lane_spread.1 as nat) + ")"@
}

fn outside_spread(state: &State, lane: u8) -> (r: String)
    ensures
        r@ == msg_outside_spread(state@, lane),
{
    let mut s: String = String::from_str("(lane ");
    text::put_dec(&mut s, lane as u64);
    s.append(" outside active spread ");
    text::put_dec(&mut s, state.lane_spread.0 as u64);
    s.append("..=");
    text::put_dec(&mut s, state.lane_spread.1 as u64);
    s.append(")");
    s
}

impl StateView {
    /// The state after a race is started at `now_ns`: nothing changes while
    /// one is in progress.
    pub open spec fn started(self, now_ns: u64) -> StateView {
        if self.in_progress is Some {
            self
        } else {
            StateView {
                in_progress: Some(
                    InProgressView {
                        event: self.current_event,
                        heat: self.current_heat,
                        race_no: self.next_race_no,
                        started_ns: now_ns,
                        lanes: Seq::new(MAX_LANES as nat, |i: int| LaneView::fresh()),
                    },
                ),
                next_race_no: if self.next_race_no == u16::MAX {
                    0
                } else {
                    (self.next_race_no + 1) as u16
                },
                ..self
            }
        }
    }

    /// What starting a race reports.
    pub open spec fn started_effects(self) -> Seq<EffectView> {
        if self.in_progress is Some {
            output::log1("(race already in progress — type / to finalize first)"@)
        } else {
            seq![
                EffectView::Log(
                    "race "@ + text::dec(self.next_race_no as nat) + " started — "@ + event_title(
                        self,
                        self.current_event,
                    ) + " heat "@ + text::dec(self.current_heat as nat)
                        + " (touch lanes 1..8 — each touch is a split, / to finalize)"@,
                ),
                EffectView::StarterBeeps,
            ]
        }
    }

    /// The state with lane `lane` of the running race replaced.
    pub open spec fn with_lane(self, lane: u8, l: LaneView) -> StateView {
        StateView {
            in_progress: Some(
                InProgressView {
                    lanes: self.in_progress->0.lanes.update(lane - 1, l),
                    ..self.in_progress->0
                },
            ),
            ..self
        }
    }

    /// Lane `lane` of the running race.
    pub open spec fn lane(self, lane: u8) -> LaneView {
        self.in_progress->0.lanes[lane - 1]
    }

    /// Race-relative time of `now_ns`.
    pub open spec fn race_ms(self, now_ns: u64) -> u32 {
        clock::elapsed_ms_of(self.in_progress->0.started_ns, now_ns)
    }

    /// The state after a touch on `lane` at `now_ns`: a lane outside the lanes
    /// in use, or without a race in progress, changes nothing.
    pub open spec fn touched(self, lane: u8, now_ns: u64) -> StateView {
        if !in_spread(self, lane) || self.in_progress is None {
            self
        } else {
            self.with_lane(
                lane,
                self.lane(lane).touched(
                    self.race_ms(now_ns),
                    expected_touches(self, self.in_progress->0.event),
                ),
            )
        }
    }

    /// What a touch on `lane` at `now_ns` reports.
    pub open spec fn touched_effects(self, lane: u8, now_ns: u64) -> Seq<EffectView> {
        if !in_spread(self, lane) {
            output::log1(msg_outside_spread(self, lane))
        } else if self.in_progress is None {
            output::log1("(no race in progress — press <enter> to start)"@)
        } else if self.lane(lane).finished_at is Some {
            output::log1(
                "  lane "@ + text::dec(lane as nat) + " already FINAL — touch ignored"@,
            )
        } else {
            let total = expected_touches(self, self.in_progress->0.event);
            let after = self.lane(lane).touched(self.race_ms(now_ns), total);
            seq![
                EffectView::Beep,
                EffectView::Log(
                    if after.finished_at is Some {
                        "  lane "@ + text::dec(lane as nat) + " → FINISH @ "@ + notation::time_text(
                            after.finish(),
                        ) + " ("@ + text::dec(after.touch_count()) + "/"@ + text::dec(total)
                            + " touches)"@
                    } else {
                        "  lane "@ + text::dec(lane as nat) + " → split "@ + text::dec(
                            after.touch_count(),
                        ) + " @ "@ + notation::time_text(after.finish())
                    },
                ),
            ]
        }
    }

    /// The state after `lane` is disqualified.
    pub open spec fn disqualified(self, lane: u8) -> StateView {
        if !in_spread(self, lane) || self.in_progress is None {
            self
        } else {
            self.with_lane(lane, LaneView { dq: true, ..self.lane(lane) })
        }
    }

    /// What disqualifying `lane` reports.
    pub open spec fn disqualified_effects(self, lane: u8) -> Seq<EffectView> {
        output::log1(
            if !in_spread(self, lane) {
                msg_outside_spread(self, lane)
            } else if self.in_progress is None {
                "(no race in progress)"@
            } else {
                "  lane "@ + text::dec(lane as nat) + " → DQ"@
            },
        )
    }

    /// The race numbers of `k`, oldest first.
    pub open spec fn bucket(self, k: (u16, u8)) -> Seq<u16> {
        if self.history.contains_key(k) {
            self.history[k]
        } else {
            Seq::empty()
        }
    }

    /// The state after the running race is finalized: its result is stored
    /// under its number and filed as the newest of its event and heat, whose
    /// cursor is dropped, and the heat goes up by one.
    pub open spec fn finalized(self) -> StateView {
        match self.in_progress {
            None => self,
            Some(ip) => {
                let k = (ip.event, ip.heat);
                StateView {
                    in_progress: None,
                    races: self.races.insert(ip.race_no, race::race_result(ip)),
                    history: self.history.insert(k, self.bucket(k).push(ip.race_no)),
                    cursor: self.cursor.remove(k),
                    current_heat: if self.current_heat == u8::MAX {
                        u8::MAX
                    } else {
                        (self.current_heat + 1) as u8
                    },
                    ..self
                }
            },
        }
    }

    /// What finalizing reports.
    pub open spec fn finalized_effects(self) -> Seq<EffectView> {
        output::log1(
            match self.in_progress {
                None => "(no race in progress)"@,
                Some(ip) => {
                    let r = race::race_result(ip);
                    "race "@ + text::dec(ip.race_no as nat) + " finalized: event "@ + text::dec(
                        ip.event as nat,
                    ) + " heat "@ + text::dec(ip.heat as nat) + " ("@ + text::dec(
                        row_count(r.lanes, r.lanes.len()),
                    ) + " lane(s), "@ + text::dec(r.splits_count as nat)
                        + " interim split(s)) — bumped to next heat"@
                },
            },
        )
    }
}

/// Number of the first `n` lanes that have a row.
pub open spec fn row_count(rows: Seq<Option<RowView>>, n: nat) -> nat
    decreases n,
{
    if n == 0 {
        0
    } else {
        row_count(rows, (n - 1) as nat) + if rows[n - 1] is Some {
            1nat
        } else {
            0nat
        }
    }
}

/// Number of lanes of a race that have a row.
pub fn count_rows(r: &Race) -> (n: u64)
    requires
        r@.wf(),
    ensures
        n == row_count(r@.lanes, r@.lanes.len()),
{
    let mut i: usize = 0;
    let mut n: u64 = 0;
    while i < MAX_LANES
        invariant
            r@.wf(),
            i <= MAX_LANES,
            n == row_count(r@.lanes, i as nat),
            n <= i,
        decreases MAX_LANES - i,
    {
        assert(r@.lanes[i as int] == race::row_view(r.lanes@[i as int]));
        if r.lanes[i].is_some() {
            n = n + 1;
        }
        i = i + 1;
    }
    n
}

/// Starts a race at `now_ns`.
pub fn start_race(state: &mut State, now_ns: u64, out: &mut Vec<Effect>)
    requires
        old(state).wf(),
    ensures
        final(state).wf(),
        final(state)@ == old(state)@.started(now_ns),
        output::effects(final(out)@) == output::effects(old(out)@) + old(state)@.started_effects(),
{
    let ghost before = state@;
    let ghost out0 = output::effects(out@);
    if state.in_progress.is_some() {
        output::say(
            out,
            String::from_str("(race already in progress — type / to finalize first)"),
        );
        return;
    }
    let mut line: String = String::from_str("race ");
    text::put_dec(&mut line, state.next_race_no as u64);
    line.append(" started — ");
    let title: String = event_title_of(state, state.current_event);
    line.append(title.as_str());
    line.append(" heat ");
    text::put_dec(&mut line, state.current_heat as u64);
    line.append(" (touch lanes 1..8 — each touch is a split, / to finalize)");
    let mut lanes: Vec<LaneTime> = Vec::new();
    while lanes.len() < MAX_LANES
        invariant
            lanes@.len() <= MAX_LANES,
            forall|i: int| 0 <= i < lanes@.len() ==> #[trigger] lanes@[i]@ == LaneView::fresh(),
        decreases MAX_LANES - lanes@.len(),
    {
        lanes.push(LaneTime::new());
    }
    let race_no: u16 = state.next_race_no;
    state.next_race_no = state.next_race_no.wrapping_add(1);
    state.in_progress = Some(
        InProgress {
            event: state.current_event,
            heat: state.current_heat,
            race_no,
            started_ns: now_ns,
            lanes,
        },
    );
    assert(state@.in_progress->0.lanes =~= before.started(now_ns).in_progress->0.lanes);
    assert(state@ =~= before.started(now_ns));
    output::say(out, line);
    output::emit(out, Effect::StarterBeeps);
    assert(output::effects(out@) =~= out0 + before.started_effects());
}

/// Records a touch on `lane` at `now_ns`.
pub fn touch_lane(state: &mut State, lane: u8, now_ns: u64, out: &mut Vec<Effect>)
    requires
        old(state).wf(),
    ensures
        final(state).wf(),
        final(state)@ == old(state)@.touched(lane, now_ns),
        output::effects(final(out)@) == output::effects(old(out)@) + old(state)@.touched_effects(
            lane,
            now_ns,
        ),
{
    let ghost before = state@;
    let ghost out0 = output::effects(out@);
    let (lo, hi) = state.lane_spread;
    if lane < lo || lane > hi {
        output::say(out, outside_spread(state, lane));
        return;
    }
    let i: usize = lane as usize - 1;
    let total: u16 = match &state.in_progress {
        None => {
            output::say(out, String::from_str("(no race in progress — press <enter> to start)"));
            return;
        },
        Some(ip) => match state.event_def(ip.event) {
            Some(e) => e.total_segments(),
            None => 0,
        },
    };
    match state.in_progress.take() {
        None => {
            assert(false);
        },
        Some(ip) => {
            let mut ip: InProgress = ip;
            let elapsed: u32 = clock::elapsed_ms(ip.started_ns, now_ns);
            let ghost lanes0 = ip.lanes@;
            let mut line: String = String::from_str("  lane ");
            text::put_dec(&mut line, lane as u64);
            let l: &mut LaneTime = &mut ip.lanes[i];
            match l.touch(elapsed, total) {
                None => {
                    line.append(" already FINAL — touch ignored");
                    output::say(out, line);
                },
                Some(cum) => {
                    let n: u16 = l.touches_u16();
                    if l.finished_at.is_some() {
                        line.append(" → FINISH @ ");
                        line.append(notation::fmt_time(cum).as_str());
                        line.append(" (");
                        text::put_dec(&mut line, n as u64);
                        line.append("/");
                        text::put_dec(&mut line, total as u64);
                        line.append(" touches)");
                    } else {
                        line.append(" → split ");
                        text::put_dec(&mut line, n as u64);
                        line.append(" @ ");
                        line.append(notation::fmt_time(cum).as_str());
                    }
                    output::emit(out, Effect::Beep);
                    output::say(out, line);
                    assert(output::effects(out@) =~= out0 + before.touched_effects(lane, now_ns));
                },
            }
            state.in_progress = Some(ip);
            assert(state@.in_progress->0.lanes =~= before.touched(
                lane,
                now_ns,
            ).in_progress->0.lanes);
            assert(state@ =~= before.touched(lane, now_ns));
        },
    }
}

/// Disqualifies `lane` in the running race.
pub fn dq_lane(state: &mut State, lane: u8, out: &mut Vec<Effect>)
    requires
        old(state).wf(),
    ensures
        final(state).wf(),
        final(state)@ == old(state)@.disqualified(lane),
        output::effects(final(out)@) == output::effects(old(out)@)
            + old(state)@.disqualified_effects(lane),
{
    let ghost before = state@;
    let (lo, hi) = state.lane_spread;
    if lane < lo || lane > hi {
        output::say(out, outside_spread(state, lane));
        return;
    }
    let i: usize = lane as usize - 1;
    match state.in_progress.take() {
        None => {
            output::say(out, String::from_str("(no race in progress)"));
            assert(state@ =~= before);
        },
        Some(ip) => {
            let mut ip: InProgress = ip;
            let l: &mut LaneTime = &mut ip.lanes[i];
            l.dq = true;
            state.in_progress = Some(ip);
            let mut line: String = String::from_str("  lane ");
            text::put_dec(&mut line, lane as u64);
            line.append(" → DQ");
            output::say(out, line);
            assert(state@.in_progress->0.lanes =~= before.disqualified(lane).in_progress->0.lanes);
            assert(state@ =~= before.disqualified(lane));
        },
    }
}

/// Finalizing keeps the state well formed.
proof fn lemma_finalized_wf(s: StateView)
    requires
        s.wf(),
        s.in_progress matches Some(ip) ==> s.bucket((ip.event, ip.heat)).len() < usize::MAX,
    ensures
        s.finalized().wf(),
{
    if s.in_progress is Some {
        let ip = s.in_progress->0;
        let k = (ip.event, ip.heat);
        let t = s.finalized();
        assert forall|j: (u16, u8)| #[trigger] t.history.contains_key(j) implies j.0 >= 1
            && t.bucket_ok(j) by {
            if j != k {
                assert(s.history.contains_key(j) && s.bucket_ok(j));
                assert forall|i: int| 0 <= i < t.history[j].len() implies t.races.contains_key(
                    #[trigger] t.history[j][i],
                ) by {
                    assert(s.races.contains_key(s.history[j][i]));
                }
            } else {
                assert forall|i: int| 0 <= i < t.history[k].len() implies t.races.contains_key(
                    #[trigger] t.history[k][i],
                ) by {
                    if i < s.bucket(k).len() {
                        assert(s.history.contains_key(k) && s.bucket_ok(k));
                        assert(s.races.contains_key(s.history[k][i]));
                    }
                }
            }
        }
        assert forall|j: (u16, u8)| #[trigger] t.cursor.contains_key(j) implies t.cursor_ok(j) by {
            assert(s.cursor.contains_key(j) && s.cursor_ok(j));
        }
    }
}

/// Finalizes the running race.
pub fn finalize_race(state: &mut State, out: &mut Vec<Effect>)
    requires
        old(state).wf(),
    ensures
        final(state).wf(),
        final(state)@ == old(state)@.finalized(),
        output::effects(final(out)@) == output::effects(old(out)@)
            + old(state)@.finalized_effects(),
{
    let ghost before = state@;
    match state.in_progress.take() {
        None => {
            output::say(out, String::from_str("(no race in progress)"));
            assert(state@ =~= before);
        },
        Some(ip) => {
            let r: Race = ip.result();
            let mut line: String = String::from_str("race ");
            text::put_dec(&mut line, ip.race_no as u64);
            line.append(" finalized: event ");
            text::put_dec(&mut line, ip.event as u64);
            line.append(" heat ");
            text::put_dec(&mut line, ip.heat as u64);
            line.append(" (");
            text::put_dec(&mut line, count_rows(&r));
            line.append(" lane(s), ");
            text::put_dec(&mut line, r.splits_count as u64);
            line.append(" interim split(s)) — bumped to next heat");
            output::say(out, line);
            let key: u32 = state::bucket_key(ip.event, ip.heat);
            let ghost k = (ip.event, ip.heat);
            let ghost races0 = state.races@;
            let ghost history0 = state.history@;
            let ghost cursor0 = state.cursor@;
            state.races.insert(ip.race_no, r);
            let mut ids: Vec<u16> = match state.history.remove(&key) {
                Some(v) => v,
                None => Vec::new(),
            };
            assert(ids@ =~= before.bucket(k));
            ids.push(ip.race_no);
            let n: usize = ids.len();
            let ghost ids1 = ids;
            state.history.insert(key, ids);
            state.cursor.remove(&key);
            state.current_heat = state.current_heat.saturating_add(1);
            proof {
                state::lemma_history_insert(history0, k, ids1);
                assert(history0.remove(key).insert(key, ids1) =~= history0.insert(key, ids1));
                state::lemma_cursor_remove(cursor0, k);
                assert(state@.races =~= before.finalized().races);
                assert(state@ =~= before.finalized());
                lemma_finalized_wf(before);
            }
        },
    }
}

/// A finalized race is what is returned from then on when the latest race of its
/// event and heat, or the race with its number, is asked for.
pub proof fn law_finalized_race_is_returned(s: StateView)
    requires
        s.wf(),
        s.in_progress is Some,
    ensures
        s.finalized().latest((s.in_progress->0.event, s.in_progress->0.heat)).1 == Some(
            race::race_result(s.in_progress->0),
        ),
        s.finalized().race(s.in_progress->0.race_no) == Some(race::race_result(s.in_progress->0)),
{
}

/// Finalizing leaves every race with another number, and the history and cursor
/// of every other event and heat, as they were.
pub proof fn law_finalize_keeps_the_rest(s: StateView, id: u16, k: (u16, u8))
    requires
        s.wf(),
        s.in_progress matches Some(ip) ==> id != ip.race_no && k != (ip.event, ip.heat),
    ensures
        s.finalized().race(id) == s.race(id),
        s.finalized().bucket(k) == s.bucket(k),
        s.finalized().cursor.contains_key(k) == s.cursor.contains_key(k),
        s.finalized().cursor[k] == s.cursor[k],
        s.finalized().lineup == s.lineup,
        s.finalized().next_race_no == s.next_race_no,
{
}

/// A race finalized under a number that no stored race has is filed under its
/// own event and heat, and leaves the others so.
pub proof fn law_finalize_files_the_race(s: StateView)
    requires
        s.wf(),
        s.filed(),
        s.in_progress matches Some(ip) ==> !s.races.contains_key(ip.race_no),
    ensures
        s.finalized().filed(),
{
    if s.in_progress is Some {
        let ip = s.in_progress->0;
        let own = (ip.event, ip.heat);
        let t = s.finalized();
        assert forall|k: (u16, u8), i: int|
            #![trigger t.history[k][i]]
            t.history.contains_key(k) && 0 <= i < t.history[k].len() implies {
            &&& t.races[t.history[k][i]].event == k.0
            &&& t.races[t.history[k][i]].heat == k.1
        } by {
            if k != own || i < s.bucket(own).len() {
                assert(s.history.contains_key(k) && s.bucket_ok(k));
                assert(t.history[k][i] == s.history[k][i]);
                assert(s.races.contains_key(s.history[k][i]));
            }
        }
    }
}

/// A race started when none is in progress takes the current event and heat and
/// the next number, which goes up by one, around from the highest to 0.
pub proof fn law_start_takes_the_next_number(s: StateView, now_ns: u64)
    requires
        s.wf(),
        s.in_progress is None,
    ensures
        s.started(now_ns).in_progress->0.race_no == s.next_race_no,
        s.started(now_ns).in_progress->0.event == s.current_event,
        s.started(now_ns).in_progress->0.heat == s.current_heat,
        s.started(now_ns).next_race_no == (s.next_race_no + 1) % 0x1_0000,
        s.started(now_ns).finalized().current_heat == s.current_heat + 1 || s.current_heat
            == u8::MAX,
        s.started(now_ns).wf(),
{
    let t = s.started(now_ns);
    assert forall|j: (u16, u8)| #[trigger] t.history.contains_key(j) implies j.0 >= 1
        && t.bucket_ok(j) by {
        assert(s.history.contains_key(j) && s.bucket_ok(j));
    }
    assert forall|j: (u16, u8)| #[trigger] t.cursor.contains_key(j) implies t.cursor_ok(j) by {
        assert(s.cursor.contains_key(j) && s.cursor_ok(j));
    }
}

/// A touch or a disqualification changes no lane but its own, and nothing
/// outside the running race.
pub proof fn law_lanes_are_independent(s: StateView, lane: u8, other: u8, now_ns: u64)
    requires
        s.wf(),
        1 <= other <= MAX_LANES,
        other != lane,
    ensures
        s.touched(lane, now_ns).lane(other) == s.lane(other),
        s.disqualified(lane).lane(other) == s.lane(other),
        s.touched(lane, now_ns) == (StateView {
            in_progress: s.touched(lane, now_ns).in_progress,
            ..s
        }),
        s.disqualified(lane) == (StateView { in_progress: s.disqualified(lane).in_progress, ..s }),
{
}

/// A lane that is final ignores further touches.
pub proof fn law_final_lane_is_disarmed(s: StateView, lane: u8, now_ns: u64)
    requires
        s.wf(),
        s.in_progress is Some,
        in_spread(s, lane),
        s.lane(lane).finished_at is Some,
    ensures
        s.touched(lane, now_ns) == s,
        !s.touched_effects(lane, now_ns).contains(EffectView::Beep),
{
    assert(s.touched(lane, now_ns).in_progress->0.lanes =~= s.in_progress->0.lanes);
    assert(s.touched(lane, now_ns) =~= s);
    let e = s.touched_effects(lane, now_ns);
    assert(e.len() == 1 && e[0] is Log);
}

/// A disqualified lane is in the result, without a place.
pub proof fn law_disqualified_lane_does_not_place(s: StateView, lane: u8)
    requires
        s.wf(),
        s.in_progress is Some,
        in_spread(s, lane),
    ensures
        s.disqualified(lane).finalized().race(s.in_progress->0.race_no)->0.lanes[lane - 1] matches Some(
            row,
        ) && row.lane.dq && row.place == 0,
{
}

/// In the result of a race a lane that touched and was not disqualified has its
/// last touch as its finish and the touches before that as its splits.
pub proof fn law_result_keeps_the_touches(s: StateView, lane: u8)
    requires
        s.wf(),
        s.in_progress is Some,
        1 <= lane <= MAX_LANES,
        s.lane(lane).touches.len() > 0,
    ensures
        s.finalized().race(s.in_progress->0.race_no)->0.lanes[lane - 1] matches Some(row)
            && row.lane.finish() == s.lane(lane).touches.last() && row.lane.splits() == s.lane(
            lane,
        ).touches.drop_last(),
{
}

/// A touch on a lane in use of the running race is recorded with the whole
/// milliseconds since the start, where they are at least one and more than those
/// of the lane's last touch; the lane's earlier touches stay. A lane of an event
/// of the lineup is final with the last touch that the event takes, at just that
/// time; a lane of any other event never is.
pub proof fn law_touch_takes_the_race_time(s: StateView, lane: u8, now_ns: u64, ms: u32)
    requires
        s.wf(),
        s.in_progress is Some,
        s.lane_spread.0 <= lane <= s.lane_spread.1,
        s.in_progress->0.lanes[lane - 1].finished_at is None,
        s.in_progress->0.lanes[lane - 1].touches.len() < 65_535,
        s.in_progress->0.started_ns + ms * 1_000_000 <= now_ns,
        now_ns < s.in_progress->0.started_ns + (ms + 1) * 1_000_000,
        ms >= 1,
        s.in_progress->0.lanes[lane - 1].touches.len() > 0
            ==> s.in_progress->0.lanes[lane - 1].touches.last() < ms,
    ensures
        ({
            let ip = s.in_progress->0;
            let old_lane = ip.lanes[lane - 1];
            let after = s.touched(lane, now_ns).in_progress->0.lanes[lane - 1];
            let event = ip.event as int;
            &&& s.touched(lane, now_ns).in_progress is Some
            &&& after.touches == old_lane.touches.push(ms)
            &&& after.dq == old_lane.dq
            &&& event <= s.lineup.len() ==> (after.finished_at == (if old_lane.touches.len() + 1
                >= s.lineup[event - 1].segments() {
                Some(ms)
            } else {
                None
            }))
            &&& event > s.lineup.len() ==> after.finished_at is None
        }),
{
    let ip = s.in_progress->0;
    clock::law_elapsed_time(ip.started_ns, now_ns);
    assert(s.race_ms(now_ns) == ms);
    if ip.event <= s.lineup.len() {
        event::law_touches_cover_the_distance(s.lineup[ip.event - 1]);
    }
    race::law_touch_is_recorded_as_timed(
        s.lane(lane),
        ms,
        expected_touches(s, ip.event),
    );
    assert(s.lane(lane).touched(ms, expected_touches(s, ip.event)).touches
        =~= ip.lanes[lane - 1].touches.push(ms));
}

/// A touch outside the lanes in use, without a race in progress, or on a lane
/// that is final, changes nothing.
pub proof fn law_touch_may_be_refused(s: StateView, lane: u8, now_ns: u64)
    requires
        s.wf(),
        s.in_progress is None || lane < s.lane_spread.0 || lane > s.lane_spread.1
            || s.in_progress->0.lanes[lane - 1].finished_at is Some,
    ensures
        s.touched(lane, now_ns) == s,
        forall|i: int|
            0 <= i < s.touched_effects(lane, now_ns).len() ==> #[trigger] s.touched_effects(
                lane,
                now_ns,
            )[i] is Log,
{
    if s.in_progress is Some && s.lane_spread.0 <= lane <= s.lane_spread.1 {
        law_final_lane_is_disarmed(s, lane, now_ns);
    }
}

/// A touch that is recorded sounds one beep and logs one line, with the lane,
/// the number of the touch and its time: FINISH and the touches of the event for
/// a lane that is final with it, and split otherwise.
pub proof fn law_touch_is_reported(s: StateView, lane: u8, now_ns: u64)
    requires
        s.wf(),
        s.in_progress is Some,
        s.lane_spread.0 <= lane <= s.lane_spread.1,
        s.in_progress->0.lanes[lane - 1].finished_at is None,
        s.in_progress->0.lanes[lane - 1].touches.len() < 65_535,
    ensures
        ({
            let after = s.touched(lane, now_ns).in_progress->0.lanes[lane - 1];
            let e = s.touched_effects(lane, now_ns);
            let time = notation::time_text(after.touches.last());
            &&& e.len() == 2 && e[0] is Beep
            &&& after.finished_at is None ==> e[1] == EffectView::Log(
                "  lane "@ + text::dec(lane as nat) + " → split "@ + text::dec(after.touches.len())
                    + " @ "@ + time,
            )
            &&& after.finished_at is Some ==> e[1] == EffectView::Log(
                "  lane "@ + text::dec(lane as nat) + " → FINISH @ "@ + time + " ("@ + text::dec(
                    after.touches.len(),
                ) + "/"@ + text::dec(s.lineup[s.in_progress->0.event - 1].segments())
                    + " touches)"@,
            )
        }),
{
}

/// A race that is started has the current event and heat, the next number, the
/// time of its start and ten lanes without touches and disqualifications; the
/// race counter goes up by one. While a race is in progress no other is started.
pub proof fn law_started_race_is_fresh(s: StateView, now_ns: u64, i: int)
    requires
        s.wf(),
    ensures
        s.in_progress is Some ==> s.started(now_ns) == s,
        s.in_progress is None ==> ({
            let t = s.started(now_ns);
            let ip = t.in_progress->0;
            &&& t.in_progress is Some
            &&& ip.event == s.current_event && ip.heat == s.current_heat
            &&& ip.race_no == s.next_race_no
            &&& ip.started_ns == now_ns
            &&& ip.lanes.len() == 10
            &&& 0 <= i < 10 ==> ip.lanes[i].touches.len() == 0 && !ip.lanes[i].dq
                && ip.lanes[i].finished_at is None
            &&& s.next_race_no < 65_535 ==> t.next_race_no == s.next_race_no + 1
            &&& s.next_race_no == 65_535 ==> t.next_race_no == 0
            &&& t == (StateView {
                in_progress: t.in_progress,
                next_race_no: t.next_race_no,
                ..s
            })
        }),
{
}

/// Starting a race sounds the starter's beeps and logs its number, event and
/// heat; a start while a race is in progress only logs that.
pub proof fn law_start_is_reported(s: StateView)
    requires
        s.wf(),
    ensures
        s.in_progress is Some ==> s.started_effects().len() == 1 && s.started_effects()[0] is Log,
        s.in_progress is None ==> ({
            let e = s.started_effects();
            let event = s.current_event as int;
            let title = if event <= s.lineup.len() {
                s.lineup[event - 1].label_text()
            } else {
                "event "@ + text::dec(event as nat)
            };
            &&& e.len() == 2 && e[1] is StarterBeeps
            &&& e[0] == EffectView::Log(
                "race "@ + text::dec(s.next_race_no as nat) + " started — "@ + title + " heat "@
                    + text::dec(s.current_heat as nat)
                    + " (touch lanes 1..8 — each touch is a split, / to finalize)"@,
            )
        }),
{
}

/// A disqualification marks its lane of the running race and leaves the lane's
/// touches as they are; outside the lanes in use and without a race it changes
/// nothing.
pub proof fn law_disqualification_marks_the_lane(s: StateView, lane: u8)
    requires
        s.wf(),
    ensures
        s.in_progress is None || lane < s.lane_spread.0 || lane > s.lane_spread.1
            ==> s.disqualified(lane) == s,
        s.in_progress is Some && s.lane_spread.0 <= lane <= s.lane_spread.1 ==> ({
            let before = s.in_progress->0.lanes[lane - 1];
            let t = s.disqualified(lane);
            let after = t.in_progress->0.lanes[lane - 1];
            &&& t.in_progress is Some
            &&& after.dq
            &&& after.touches == before.touches && after.finished_at == before.finished_at
            &&& t.in_progress->0.event == s.in_progress->0.event
            &&& t.in_progress->0.heat == s.in_progress->0.heat
            &&& t.in_progress->0.race_no == s.in_progress->0.race_no
            &&& t.in_progress->0.started_ns == s.in_progress->0.started_ns
        }),
        s.disqualified_effects(lane).len() == 1,
        s.in_progress is Some && s.lane_spread.0 <= lane <= s.lane_spread.1
            ==> s.disqualified_effects(lane)[0] == EffectView::Log(
            "  lane "@ + text::dec(lane as nat) + " → DQ"@,
        ),
{
}

/// A touch leaves the running race's event, heat, number and start as they are.
pub proof fn law_touch_keeps_the_race(s: StateView, lane: u8, now_ns: u64)
    requires
        s.wf(),
        s.in_progress is Some,
    ensures
        s.touched(lane, now_ns).in_progress matches Some(ip) && ip.event == s.in_progress->0.event
            && ip.heat == s.in_progress->0.heat && ip.race_no == s.in_progress->0.race_no
            && ip.started_ns == s.in_progress->0.started_ns && ip.lanes.len()
            == s.in_progress->0.lanes.len(),
{
}

/// Finalizing ends the race in progress, stores its result under its number,
/// files that number behind those of the same event and heat, drops the walk
/// through them, and goes on to the next heat, up to 255. Nothing else changes,
/// and without a race in progress nothing at all.
pub proof fn law_finalize_stores_and_moves_on(s: StateView, id: u16, k: (u16, u8))
    requires
        s.wf(),
    ensures
        s.in_progress is None ==> s.finalized() == s,
        s.in_progress is Some ==> ({
            let ip = s.in_progress->0;
            let own = (ip.event, ip.heat);
            let t = s.finalized();
            &&& t.in_progress is None
            &&& t.races.contains_key(ip.race_no)
            &&& t.races[ip.race_no] == race::race_result(ip)
            &&& id != ip.race_no ==> t.races.contains_key(id) == s.races.contains_key(id)
                && t.races[id] == s.races[id]
            &&& t.history.contains_key(own)
            &&& s.history.contains_key(own) ==> t.history[own] == s.history[own].push(ip.race_no)
            &&& !s.history.contains_key(own) ==> t.history[own] == seq![ip.race_no]
            &&& k != own ==> t.history.contains_key(k) == s.history.contains_key(k)
                && t.history[k] == s.history[k]
            &&& !t.cursor.contains_key(own)
            &&& k != own ==> t.cursor.contains_key(k) == s.cursor.contains_key(k) && t.cursor[k]
                == s.cursor[k]
            &&& s.current_heat < 255 ==> t.current_heat == s.current_heat + 1
            &&& s.current_heat == 255 ==> t.current_heat == 255
            &&& t == (StateView {
                in_progress: None,
                races: t.races,
                history: t.history,
                cursor: t.cursor,
                current_heat: t.current_heat,
                ..s
            })
        }),
{
    if s.in_progress is Some {
        let ip = s.in_progress->0;
        if !s.history.contains_key((ip.event, ip.heat)) {
            assert(Seq::<u16>::empty().push(ip.race_no) =~= seq![ip.race_no]);
        }
    }
}

/// Finalizing logs the race's number, event and heat, how many lanes have a row
/// in its result and how many splits it has.
pub proof fn law_finalize_is_reported(s: StateView)
    requires
        s.wf(),
    ensures
        s.finalized_effects().len() == 1 && s.finalized_effects()[0] is Log,
        s.in_progress is Some ==> ({
            let ip = s.in_progress->0;
            let r = race::race_result(ip);
            s.finalized_effects()[0] == EffectView::Log(
                "race "@ + text::dec(ip.race_no as nat) + " finalized: event "@ + text::dec(
                    ip.event as nat,
                ) + " heat "@ + text::dec(ip.heat as nat) + " ("@ + text::dec(
                    vstd::set_lib::set_int_range(0, 10).filter(
                        |i: int| ip.lanes[i].touches.len() > 0 || ip.lanes[i].dq,
                    ).len(),
                ) + " lane(s), "@ + text::dec(r.splits_count as nat)
                    + " interim split(s)) — bumped to next heat"@,
            )
        }),
{
    if s.in_progress is Some {
        let ip = s.in_progress->0;
        lemma_row_count(ip, 10);
    }
}

proof fn lemma_row_count(ip: InProgressView, n: nat)
    requires
        n <= ip.lanes.len(),
    ensures
        ({
            let rows = vstd::set_lib::set_int_range(0, n as int).filter(
                |i: int| ip.lanes[i].touches.len() > 0 || ip.lanes[i].dq,
            );
            &&& rows.finite()
            &&& rows.len() == row_count(race::race_result(ip).lanes, n)
        }),
    decreases n,
{
    let p = |i: int| ip.lanes[i].touches.len() > 0 || ip.lanes[i].dq;
    let now = vstd::set_lib::set_int_range(0, n as int).filter(p);
    vstd::set_lib::lemma_int_range(0, n as int);
    if n == 0 {
        assert(now =~= Set::<int>::empty());
    } else {
        let before = vstd::set_lib::set_int_range(0, n - 1).filter(p);
        lemma_row_count(ip, (n - 1) as nat);
        if p(n - 1) {
            assert(now =~= before.insert(n - 1));
        } else {
            assert(now =~= before);
        }
    }
}

/// The rows of a result are counted lane by lane.
pub proof fn law_rows_are_counted(rows: Seq<Option<RowView>>)
    ensures
        row_count(rows, rows.len()) == vstd::set_lib::set_int_range(0, rows.len() as int).filter(
            |i: int| rows[i] is Some,
        ).len(),
{
    lemma_rows_counted(rows, rows.len());
}

proof fn lemma_rows_counted(rows: Seq<Option<RowView>>, n: nat)
    requires
        n <= rows.len(),
    ensures
        ({
            let found = vstd::set_lib::set_int_range(0, n as int).filter(
                |i: int| rows[i] is Some,
            );
            &&& found.finite()
            &&& found.len() == row_count(rows, n)
        }),
    decreases n,
{
    let p = |i: int| rows[i] is Some;
    let now = vstd::set_lib::set_int_range(0, n as int).filter(p);
    vstd::set_lib::lemma_int_range(0, n as int);
    if n == 0 {
        assert(now =~= Set::<int>::empty());
    } else {
        let before = vstd::set_lib::set_int_range(0, n - 1).filter(p);
        lemma_rows_counted(rows, (n - 1) as nat);
        if p(n - 1) {
            assert(now =~= before.insert(n - 1));
        } else {
            assert(now =~= before);
        }
    }
}

/// A touch on a lane in use of the running race does to that lane what a touch
/// at the race time does, with the touches that the lineup's event takes, or
/// none that make it final for an event outside the lineup.
pub proof fn law_touch_goes_to_its_lane(s: StateView, lane: u8, now_ns: u64)
    requires
        s.wf(),
        s.in_progress is Some,
        s.lane_spread.0 <= lane <= s.lane_spread.1,
    ensures
        ({
            let ip = s.in_progress->0;
            let total = if ip.event <= s.lineup.len() {
                s.lineup[ip.event - 1].segments()
            } else {
                0
            };
            s.touched(lane, now_ns).in_progress->0.lanes[lane - 1] == ip.lanes[lane - 1].touched(
                clock::elapsed_ms_of(ip.started_ns, now_ns),
                total,
            )
        }),
{
}

/// What is logged of a touch or a disqualification that is refused.
pub proof fn law_refusals_are_reported(s: StateView, lane: u8, now_ns: u64)
    requires
        s.wf(),
    ensures
        ({
            let outside = "(lane "@ + text::dec(lane as nat) + " outside active spread "@
                + text::dec(s.lane_spread.0 as nat) + "..="@ + text::dec(s.lane_spread.1 as nat)
                + ")"@;
            let inside = s.lane_spread.0 <= lane <= s.lane_spread.1;
            &&& !inside ==> s.touched_effects(lane, now_ns) == seq![EffectView::Log(outside)]
            &&& !inside ==> s.disqualified_effects(lane) == seq![EffectView::Log(outside)]
            &&& inside && s.in_progress is None ==> s.touched_effects(lane, now_ns) == seq![
                EffectView::Log("(no race in progress — press <enter> to start)"@),
            ]
            &&& inside && s.in_progress is None ==> s.disqualified_effects(lane) == seq![
                EffectView::Log("(no race in progress)"@),
            ]
            &&& inside && s.in_progress is Some && s.in_progress->0.lanes[lane - 1].finished_at
                is Some ==> s.touched_effects(lane, now_ns) == seq![
                EffectView::Log(
                    "  lane "@ + text::dec(lane as nat) + " already FINAL — touch ignored"@,
                ),
            ]
            &&& s.in_progress is Some ==> s.started_effects() == seq![
                EffectView::Log("(race already in progress — type / to finalize first)"@),
            ]
            &&& s.in_progress is None ==> s.finalized_effects() == seq![
                EffectView::Log("(no race in progress)"@),
            ]
        }),
{
}

} // verus!
