use cts6_emulator::clock::MeetDate;
use cts6_emulator::event::{EventDef, Gender, Stroke};
use cts6_emulator::output::Effect;
use cts6_emulator::running::{finalize_race, start_race};
use cts6_emulator::state::{LoadedEvent, LoadingMeet, State, NUM_SLOTS};

fn state() -> State {
    State::with_date(MeetDate { utc_secs: 0, offset_secs: 0 })
}

/// A state with `n` races of event 1, heat 1.
fn with_races(n: u16) -> State {
    let mut s = state();
    let mut out = Vec::new();
    for _ in 0..n {
        s.current_heat = 1;
        start_race(&mut s, 0, &mut out);
        finalize_race(&mut s, &mut out);
    }
    s
}

#[test]
fn a_fresh_state() {
    let s = State::new();
    assert_eq!((s.current_event, s.current_heat, s.next_race_no), (1, 1, 1));
    assert!(s.lineup.is_empty() && s.races.is_empty() && s.history.is_empty() && s.cursor.is_empty());
    assert_eq!(s.lane_spread, (1, 8));
    assert!(s.in_progress.is_none() && s.loading.is_none() && s.selected_slot.is_none());
    assert!(!s.lineup_dirty);
    assert_eq!(s.slots.len(), NUM_SLOTS);
    assert!(s.slots.iter().all(|x| x.name.is_empty() && x.lineup.is_empty()));
    assert!((s.meet_date.utc_secs - chrono::Utc::now().timestamp()).abs() < 60);
}

#[test]
fn walking_the_history() {
    let mut s = with_races(3);
    assert!(s.lookup_previous(1, 1).is_none());
    assert!(s.lookup_next(1, 1).is_none());
    assert_eq!(s.lookup_latest(1, 1).map(|r| r.id), Some(3));
    assert_eq!(s.lookup_next(1, 1).map(|r| r.id), None);
    assert_eq!(s.lookup_next(1, 1).map(|r| r.id), Some(1));
    assert_eq!(s.lookup_next(1, 1).map(|r| r.id), Some(2));
    assert_eq!(s.lookup_previous(1, 1).map(|r| r.id), Some(1));
    assert_eq!(s.lookup_previous(1, 1).map(|r| r.id), None);
    assert_eq!(s.lookup_previous(1, 1).map(|r| r.id), Some(3));
    assert_eq!(s.lookup_previous(1, 1).map(|r| r.id), Some(2));
}

#[test]
fn coming_back_from_either_end() {
    let mut s = with_races(2);
    s.lookup_latest(1, 1);
    assert!(s.lookup_next(1, 1).is_none());
    assert_eq!(s.lookup_previous(1, 1).map(|r| r.id), Some(2));
    assert_eq!(s.lookup_previous(1, 1).map(|r| r.id), Some(1));
    assert!(s.lookup_previous(1, 1).is_none());
    assert_eq!(s.lookup_next(1, 1).map(|r| r.id), Some(1));
}

#[test]
fn lookups_of_nothing() {
    let mut s = with_races(1);
    assert!(s.lookup_latest(1, 2).is_none());
    assert!(s.lookup_latest(2, 1).is_none());
    assert!(s.lookup_previous(0, 0).is_none());
    assert!(s.lookup_next(65_535, 255).is_none());
    assert!(s.lookup_by_race(2).is_none());
    assert_eq!(s.lookup_by_race(1).map(|r| r.id), Some(1));
}

#[test]
fn a_new_race_drops_the_cursor() {
    let mut s = with_races(2);
    s.lookup_latest(1, 1);
    s.lookup_previous(1, 1);
    s.current_heat = 1;
    let mut out = Vec::new();
    start_race(&mut s, 0, &mut out);
    finalize_race(&mut s, &mut out);
    assert!(s.lookup_previous(1, 1).is_none());
    assert_eq!(s.lookup_latest(1, 1).map(|r| r.id), Some(3));
}

fn free(distance: u16) -> EventDef {
    EventDef { distance, gender: Gender::Male, stroke: Stroke::Free, split_yards: 50 }
}

#[test]
fn slots_keep_lineups() {
    let mut s = state();
    s.lineup = vec![free(50)];
    assert_eq!(s.save_to_selected_slot(), None);
    s.select_slot(3);
    assert!(s.lineup.is_empty());
    s.lineup = vec![free(100), free(200)];
    s.lineup_dirty = true;
    assert_eq!(s.save_to_selected_slot(), Some(3));
    assert!(!s.lineup_dirty);
    s.select_slot(8);
    assert!(s.lineup.is_empty());
    s.select_slot(3);
    assert_eq!(s.lineup, [free(100), free(200)]);
    assert_eq!(s.selected_slot, Some(3));
}

fn record(event_num: u16, distance: u16, gender_idx: u8, stroke_idx: u8, is_relay: bool) -> LoadedEvent {
    LoadedEvent { event_num, distance, gender_idx, stroke_idx, is_relay }
}

#[test]
fn a_download_is_committed() {
    let mut s = state();
    let mut l = LoadingMeet::begin(2, "Dual".to_string());
    l.genders = vec!["Girls".to_string(), "Boys".to_string()];
    l.strokes = vec!["Freestyle".to_string(), "Medley".to_string()];
    l.events = vec![
        record(1, 200, 0, 1, true),
        record(4, 50, 1, 0, false),
        record(4, 100, 0, 0, false),
        record(0, 999, 0, 0, false),
        record(3, 400, 9, 9, false),
    ];
    s.loading = Some(l);
    let mut out = Vec::new();
    s.apply_loading_meet(&mut out);
    let labels: Vec<String> = s.lineup.iter().map(|e| e.label()).collect();
    assert_eq!(labels, ["200F MED-R", "0X FR", "400X FR", "100F FR"]);
    assert!(s.lineup.iter().all(|e| e.split_yards == 50));
    assert!(s.loading.is_none());
    match &out[..] {
        [Effect::Log(line)] => {
            assert_eq!(line, "[meet-load] slot 2 \"Dual\": committed 5 events (lineup size 4)")
        }
        _ => panic!(),
    }
}

#[test]
fn an_empty_download_changes_nothing() {
    let mut s = state();
    s.lineup = vec![free(50)];
    let mut out = Vec::new();
    s.apply_loading_meet(&mut out);
    assert!(out.is_empty());
    s.loading = Some(LoadingMeet::begin(1, "x".to_string()));
    s.apply_loading_meet(&mut out);
    assert_eq!(s.lineup, [free(50)]);
    assert!(s.loading.is_none());
    match &out[..] {
        [Effect::Log(line)] => {
            assert_eq!(line, "[meet-load] slot 1 \"x\": finalize with no events; lineup left untouched")
        }
        _ => panic!(),
    }
}

#[test]
fn each_event_and_heat_has_its_own_cursor() {
    let mut s = with_races(2);
    s.current_heat = 2;
    let mut out = Vec::new();
    start_race(&mut s, 0, &mut out);
    finalize_race(&mut s, &mut out);
    assert_eq!(s.lookup_latest(1, 1).map(|r| r.id), Some(2));
    assert_eq!(s.lookup_latest(1, 2).map(|r| r.id), Some(3));
    assert!(s.lookup_previous(1, 2).is_none());
    assert_eq!(s.lookup_previous(1, 1).map(|r| r.id), Some(1));
    assert_eq!(s.lookup_previous(1, 2).map(|r| r.id), Some(3));
}

#[test]
fn a_race_number_can_be_used_again() {
    let mut s = with_races(1);
    s.next_race_no = 1;
    s.current_event = 5;
    s.current_heat = 6;
    let mut out = Vec::new();
    start_race(&mut s, 0, &mut out);
    finalize_race(&mut s, &mut out);
    assert_eq!(s.races.len(), 1);
    let r = s.lookup_by_race(1).unwrap();
    assert_eq!((r.event, r.heat), (5, 6));
    let old = s.lookup_latest(1, 1).unwrap();
    assert_eq!((old.event, old.heat), (5, 6));
}
