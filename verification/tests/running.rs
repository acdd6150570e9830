use cts6_emulator::clock::MeetDate;
use cts6_emulator::event::{EventDef, Gender, Stroke};
use cts6_emulator::output::Effect;
use cts6_emulator::race::{LaneTime, Race};
use cts6_emulator::running::{count_rows, dq_lane, finalize_race, start_race, touch_lane};
use cts6_emulator::state::State;

const MS: u64 = 1_000_000;

fn state() -> State {
    State::with_date(MeetDate { utc_secs: 0, offset_secs: 0 })
}

fn log(out: &[Effect]) -> Vec<String> {
    out.iter()
        .map(|e| match e {
            Effect::Log(s) => s.clone(),
            Effect::Beep => "<beep>".to_string(),
            Effect::StarterBeeps => "<start>".to_string(),
        })
        .collect()
}

fn free(distance: u16) -> EventDef {
    EventDef { distance, gender: Gender::Male, stroke: Stroke::Free, split_yards: 50 }
}

fn row(r: &Race, lane: usize) -> (u8, bool, Vec<u32>) {
    let row = r.lanes[lane - 1].as_ref().unwrap();
    (row.place, row.lane.dq, row.lane.touches_ms.clone())
}

#[test]
fn a_race_from_start_to_result() {
    let mut s = state();
    s.lineup.push(free(100));
    let mut out = Vec::new();
    start_race(&mut s, 5 * MS, &mut out);
    touch_lane(&mut s, 3, 30_005 * MS, &mut out);
    touch_lane(&mut s, 1, 31_005 * MS, &mut out);
    touch_lane(&mut s, 1, 59_005 * MS, &mut out);
    touch_lane(&mut s, 3, 62_007 * MS, &mut out);
    touch_lane(&mut s, 3, 63_000 * MS, &mut out);
    finalize_race(&mut s, &mut out);
    assert_eq!(
        log(&out),
        [
            "race 1 started — 100M FR heat 1 (touch lanes 1..8 — each touch is a split, / to finalize)",
            "<start>",
            "<beep>",
            "  lane 3 → split 1 @ 30.000",
            "<beep>",
            "  lane 1 → split 1 @ 31.000",
            "<beep>",
            "  lane 1 → FINISH @ 59.000 (2/2 touches)",
            "<beep>",
            "  lane 3 → FINISH @ 1:02.002 (2/2 touches)",
            "  lane 3 already FINAL — touch ignored",
            "race 1 finalized: event 1 heat 1 (2 lane(s), 1 interim split(s)) — bumped to next heat",
        ]
    );
    assert!(s.in_progress.is_none());
    assert_eq!((s.current_heat, s.next_race_no), (2, 2));
    let r = s.lookup_by_race(1).unwrap();
    assert_eq!((r.event, r.heat, r.id, r.splits_count), (1, 1, 1, 1));
    assert_eq!(row(r, 1), (1, false, vec![31_000, 59_000]));
    assert_eq!(row(r, 3), (2, false, vec![30_000, 62_002]));
    assert!(r.lanes[1].is_none());
    assert_eq!(count_rows(r), 2);
    assert_eq!(s.lookup_latest(1, 1).unwrap().id, 1);
}

#[test]
fn what_needs_a_race() {
    let mut s = state();
    let mut out = Vec::new();
    touch_lane(&mut s, 1, 0, &mut out);
    dq_lane(&mut s, 1, &mut out);
    finalize_race(&mut s, &mut out);
    start_race(&mut s, 0, &mut out);
    out.truncate(3);
    start_race(&mut s, 0, &mut out);
    assert_eq!(
        log(&out),
        [
            "(no race in progress — press <enter> to start)",
            "(no race in progress)",
            "(no race in progress)",
            "(race already in progress — type / to finalize first)",
        ]
    );
    assert_eq!(s.next_race_no, 2);
}

#[test]
fn lanes_outside_the_spread_are_refused() {
    let mut s = state();
    s.lane_spread = (2, 8);
    let mut out = Vec::new();
    start_race(&mut s, 0, &mut out);
    out.clear();
    touch_lane(&mut s, 1, 1, &mut out);
    touch_lane(&mut s, 9, 1, &mut out);
    dq_lane(&mut s, 0, &mut out);
    assert_eq!(
        log(&out),
        [
            "(lane 1 outside active spread 2..=8)",
            "(lane 9 outside active spread 2..=8)",
            "(lane 0 outside active spread 2..=8)",
        ]
    );
    assert!(s.in_progress.as_ref().unwrap().lanes.iter().all(|l| l.touches_ms.is_empty() && !l.dq));
}

#[test]
fn an_event_outside_the_lineup_never_makes_a_lane_final() {
    let mut s = state();
    s.current_event = 7;
    let mut out = Vec::new();
    start_race(&mut s, 0, &mut out);
    for i in 1..=5u64 {
        touch_lane(&mut s, 2, i * 1_000 * MS, &mut out);
    }
    assert!(log(&out)[0].starts_with("race 1 started — event 7 heat 1 "));
    assert_eq!(log(&out).last().unwrap(), "  lane 2 → split 5 @ 5.000");
    assert_eq!(s.in_progress.as_ref().unwrap().lanes[1].finished_at, None);
}

#[test]
fn touches_of_a_lane_are_in_order() {
    let mut s = state();
    let mut out = Vec::new();
    start_race(&mut s, 100 * MS, &mut out);
    touch_lane(&mut s, 1, 100 * MS, &mut out);
    touch_lane(&mut s, 1, 100 * MS, &mut out);
    touch_lane(&mut s, 1, 50 * MS, &mut out);
    touch_lane(&mut s, 1, 110 * MS, &mut out);
    assert_eq!(s.in_progress.as_ref().unwrap().lanes[0].touches_ms, [1, 2, 3, 10]);
}

#[test]
fn a_disqualified_lane_does_not_place() {
    let mut s = state();
    let mut out = Vec::new();
    start_race(&mut s, 0, &mut out);
    out.clear();
    touch_lane(&mut s, 1, 10_000 * MS, &mut out);
    touch_lane(&mut s, 2, 11_000 * MS, &mut out);
    dq_lane(&mut s, 1, &mut out);
    dq_lane(&mut s, 5, &mut out);
    finalize_race(&mut s, &mut out);
    assert_eq!(log(&out)[4], "  lane 1 → DQ");
    let r = s.lookup_by_race(1).unwrap();
    assert_eq!(row(r, 1), (0, true, vec![10_000]));
    assert_eq!(row(r, 2), (1, false, vec![11_000]));
    assert_eq!(row(r, 5), (0, true, vec![]));
    assert_eq!(count_rows(r), 3);
}

#[test]
fn equal_times_place_by_lane_and_places_have_no_gap() {
    let mut s = state();
    s.lane_spread = (1, 10);
    let mut out = Vec::new();
    start_race(&mut s, 0, &mut out);
    for (lane, ms) in [(10u8, 20_000u64), (4, 20_000), (7, 19_000), (1, 25_000)] {
        touch_lane(&mut s, lane, ms * MS, &mut out);
    }
    finalize_race(&mut s, &mut out);
    let r = s.lookup_by_race(1).unwrap();
    let places: Vec<u8> = [7, 4, 10, 1].iter().map(|l| row(r, *l).0).collect();
    assert_eq!(places, [1, 2, 3, 4]);
}

#[test]
fn splits_count_is_the_most_of_any_lane() {
    let mut s = state();
    let mut out = Vec::new();
    start_race(&mut s, 0, &mut out);
    for (lane, n) in [(1u8, 4u64), (2, 2)] {
        for i in 1..=n {
            touch_lane(&mut s, lane, i * 1_000 * MS, &mut out);
        }
    }
    finalize_race(&mut s, &mut out);
    assert_eq!(s.lookup_by_race(1).unwrap().splits_count, 3);
}

#[test]
fn more_splits_than_a_byte_holds_count_as_none() {
    let mut s = state();
    let mut out = Vec::new();
    start_race(&mut s, 0, &mut out);
    for i in 1..=257u64 {
        touch_lane(&mut s, 1, i * MS, &mut out);
    }
    touch_lane(&mut s, 2, MS, &mut out);
    touch_lane(&mut s, 2, 2 * MS, &mut out);
    finalize_race(&mut s, &mut out);
    assert_eq!(s.lookup_by_race(1).unwrap().splits_count, 1);
}

#[test]
fn counters_at_their_ends() {
    let mut s = state();
    s.next_race_no = u16::MAX;
    s.current_heat = u8::MAX;
    let mut out = Vec::new();
    start_race(&mut s, 0, &mut out);
    finalize_race(&mut s, &mut out);
    assert_eq!(s.next_race_no, 0);
    assert_eq!(s.current_heat, u8::MAX);
    assert!(s.lookup_by_race(u16::MAX).is_some());
}

#[test]
fn lanes_on_their_own() {
    let mut l = LaneTime::new();
    assert_eq!(l.finish_ms(), 0);
    assert!(l.split_prefix().is_empty());
    assert_eq!(l.touch(0, 2), Some(1));
    assert!(l.split_prefix().is_empty());
    assert_eq!(l.touch(40, 2), Some(40));
    assert_eq!(l.finished_at, Some(40));
    assert_eq!(l.touch(50, 2), None);
    assert_eq!(l.finish_ms(), 40);
    assert_eq!(l.split_prefix(), [1]);
    let mut late = LaneTime::new();
    assert_eq!(late.touch(u32::MAX, 0), Some(u32::MAX));
    assert_eq!(late.touch(5, 0), Some(u32::MAX));
}
