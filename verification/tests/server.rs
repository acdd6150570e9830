use cts6_emulator::clock::{current_year, MeetDate};
use cts6_emulator::output::Effect;
use cts6_emulator::protocol::{
    event_response_for_year, finalize_ack, identify_reply, load_ack, meet_status_reply, no_data_reply,
    slot_reply,
};
use cts6_emulator::repl::handle_command;
use cts6_emulator::server::{handle_frame, serve_frame};
use cts6_emulator::state::State;

fn state() -> State {
    State::with_date(MeetDate { utc_secs: 1_709_210_096, offset_secs: 7_200 })
}

fn ask(s: &mut State, frame: &[u8]) -> (Vec<u8>, Vec<String>) {
    let mut out = Vec::new();
    let reply = handle_frame(s, frame, "peer", 2025, &mut out);
    let log = out
        .into_iter()
        .map(|e| match e {
            Effect::Log(t) => t,
            _ => panic!(),
        })
        .collect();
    (reply, log)
}

fn query(verb: u8, heat: u8, event: u8) -> [u8; 11] {
    [0x0B, 0x00, 0x53, 0x53, 0x42, 0x49, verb, heat, event, 0x00, 0xFE]
}

fn run(s: &mut State, lines: &[&str]) {
    for line in lines {
        let mut out = Vec::new();
        handle_command(s, line, 0, &mut out);
    }
}

#[test]
fn simple_requests() {
    let mut s = state();
    assert_eq!(ask(&mut s, &[0x05, 0x00, 0x57, 0xA3, 0xFF]), (identify_reply(), vec![]));
    assert_eq!(ask(&mut s, &[0x06, 0x00, 0x52, 0x72, 0x35, 0xFF]).0, [0x05, 0x00, 0x07, 0xF3, 0xFF]);
    let (reply, log) = ask(&mut s, &[0x05, 0x00, 0x57, 0x8D, 0xFF]);
    assert_eq!(reply, [0x06, 0x00, 0x32, 0x01, 0x3B, 0xEB]);
    assert_eq!(log, ["[net] comm-test wake from peer -> ack"]);
    let status = ask(&mut s, &[0x05, 0x00, 0x54, 0xA6, 0xFF]);
    assert_eq!(status, (meet_status_reply(&s.meet_date), vec![]));
    assert_eq!(&status.0[8..15], [56, 34, 14, 5, 2, 29, 24]);
}

#[test]
fn slot_names_are_told() {
    let mut s = state();
    run(&mut s, &["/slot use 3", "/slot rename Dual"]);
    let (reply, log) = ask(&mut s, &[0x07, 0, 0x52, 0x73, 3, 0, 0xFF]);
    assert_eq!(reply, slot_reply(3, "Dual"));
    assert_eq!(log, ["[slot-list] Rs slot=3 -> \"Dual\""]);
    for n in [0u8, 9, 255] {
        let (reply, log) = ask(&mut s, &[0x07, 0, 0x52, 0x73, n, 0, 0xFF]);
        assert_eq!(reply, slot_reply(n, ""));
        assert_eq!(log, [format!("[slot-list] Rs slot={n} -> \"\"")]);
    }
}

#[test]
fn a_finalized_race_is_reported() {
    let mut s = state();
    run(&mut s, &["", "1 2 2", "/dq 5", "/"]);
    let expected = event_response_for_year(s.lookup_by_race(1).unwrap(), 2025);
    assert_eq!(expected.len(), 49 + 8 * 25 + 2);
    assert_eq!(ask(&mut s, &query(0x45, 1, 1)), (expected.clone(), vec![]));
    let long = [0x0D, 0x00, 0x53, 0x53, 0x42, 0x49, 0x45, 1, 0, 1, 0, 0x00, 0xFD];
    assert_eq!(ask(&mut s, &long).0, expected);
    assert_eq!(ask(&mut s, &query(0x52, 1, 0)).0, expected);
}

#[test]
fn queries_walk_the_history() {
    let mut s = state();
    run(&mut s, &["", "/", "/heat 1", "", "/"]);
    let race = |s: &State, n: u16| event_response_for_year(s.lookup_by_race(n).unwrap(), 2025);
    let (first, second) = (race(&s, 1), race(&s, 2));
    assert_ne!(first, second);
    assert_eq!(ask(&mut s, &query(0x4C, 1, 1)).0, no_data_reply());
    assert_eq!(ask(&mut s, &query(0x45, 1, 1)).0, second);
    assert_eq!(ask(&mut s, &query(0x4C, 1, 1)).0, first);
    assert_eq!(ask(&mut s, &query(0x4C, 1, 1)).0, no_data_reply());
    assert_eq!(ask(&mut s, &query(0x4E, 1, 1)).0, first);
    assert_eq!(ask(&mut s, &query(0x4E, 1, 1)).0, second);
    assert_eq!(ask(&mut s, &query(0x4E, 1, 1)).0, no_data_reply());
    assert_eq!(ask(&mut s, &query(0x4E, 1, 1)).0, first);
}

#[test]
fn what_is_missing_is_answered_with_no_data() {
    let mut s = state();
    let (reply, log) = ask(&mut s, &query(0x45, 2, 9));
    assert_eq!(reply, no_data_reply());
    assert_eq!(log, ["[net] peer no-data reply (empty bucket for frame: 0B 00 53 53 42 49 45 02 09 00 FE)"]);
    assert_eq!(ask(&mut s, &query(0x52, 2, 9)).0, no_data_reply());
    let (reply, log) = ask(&mut s, &[0x03, 0xAB, 0xCD]);
    assert_eq!(reply, no_data_reply());
    assert_eq!(log, ["[net] peer unknown frame (3 B): 03 AB CD"]);
}

fn label(category: u8, idx: u8, text: &[u8]) -> Vec<u8> {
    let mut b = vec![0x18, 0, 0x49, 0x74, category, idx];
    b.extend_from_slice(text);
    b.resize(24, 0);
    b
}

fn record(slot: u8, event: u8, distance: u8, gender: u8, stroke: u8, relay: u8) -> Vec<u8> {
    vec![0x12, 0, 0x49, 0x75, slot, event, 0, distance, 0, gender, stroke, relay, 0, 0, 0, 0, 0, 0]
}

#[test]
fn a_meet_is_downloaded() {
    let mut s = state();
    let mut name = vec![0x1C, 0, 0x49, 0x73, 2];
    name.extend_from_slice(b"Cup");
    name.resize(28, 0);
    let (reply, log) = ask(&mut s, &name);
    assert_eq!((reply, log), (load_ack(), vec!["[meet-load] Is slot=2 name=\"Cup\"".to_string()]));
    assert_eq!(ask(&mut s, &label(0, 1, b"Womens")), (load_ack(), vec![]));
    assert_eq!(ask(&mut s, &label(0, 0, b"Mens")), (load_ack(), vec![]));
    assert_eq!(ask(&mut s, &label(2, 2, b"Backstroke")), (load_ack(), vec![]));
    assert_eq!(ask(&mut s, &label(1, 0, b"Open")), (load_ack(), vec![]));
    assert_eq!(ask(&mut s, &label(3, 0, b"Finals")), (load_ack(), vec![]));
    assert_eq!(
        ask(&mut s, &label(0x1F, 7, b"?")),
        (load_ack(), vec!["[meet-load] It unknown category=0x1F idx=7".to_string()])
    );
    let l = s.loading.as_ref().unwrap();
    assert_eq!(l.genders, ["Mens", "Womens"]);
    assert_eq!(l.strokes, ["", "", "Backstroke"]);
    assert_eq!((l.ages.len(), l.rounds.len()), (1, 1));
    assert_eq!(ask(&mut s, &record(2, 1, 0, 0, 0, 0)), (load_ack(), vec![]));
    assert_eq!(ask(&mut s, &record(2, 1, 100, 2, 0x0C, 0)), (load_ack(), vec![]));
    assert_eq!(ask(&mut s, &record(2, 2, 200, 1, 0x0A, 0x10)), (load_ack(), vec![]));
    assert_eq!(s.loading.as_ref().unwrap().events.len(), 2);
    assert!(s.lineup.is_empty());
    let (reply, log) = ask(&mut s, &[0x07, 0, 0x49, 0x72, 7, 0, 0xFF]);
    assert_eq!(reply, finalize_ack());
    assert_eq!(
        log,
        [
            "[meet-load] Ir finalize slot=7",
            "[meet-load] Ir slot mismatch (loading slot=2, finalize slot=7); applying anyway",
            "[meet-load] slot 2 \"Cup\": committed 2 events (lineup size 2)",
        ]
    );
    let labels: Vec<String> = s.lineup.iter().map(|e| e.label()).collect();
    assert_eq!(labels, ["100F BK", "200M FR-R"]);
    assert!(s.loading.is_none());
}

#[test]
fn a_download_without_a_name() {
    let mut s = state();
    ask(&mut s, &record(4, 1, 50, 1, 0x0A, 0));
    assert_eq!(s.loading.as_ref().unwrap().slot, 4);
    let mut s = state();
    ask(&mut s, &label(0, 0, b"Mens"));
    assert_eq!(s.loading.as_ref().unwrap().slot, 0);
    let (_, log) = ask(&mut s, &[0x07, 0, 0x49, 0x72, 3, 0, 0]);
    assert_eq!(
        log,
        ["[meet-load] Ir finalize slot=3", "[meet-load] slot 0 \"\": finalize with no events; lineup left untouched"]
    );
    let (reply, log) = ask(&mut s, &[0x07, 0, 0x49, 0x72, 3, 0, 0]);
    assert_eq!((reply, log), (finalize_ack(), vec!["[meet-load] Ir finalize slot=3".to_string()]));
}

#[test]
fn result_frames_carry_the_current_year() {
    let mut s = state();
    run(&mut s, &["", "/"]);
    let mut out = Vec::new();
    let reply = serve_frame(&mut s, &query(0x45, 1, 1), "peer", &mut out);
    assert_eq!(reply, event_response_for_year(s.lookup_by_race(1).unwrap(), current_year()));
    assert!(out.is_empty());
}
