use cts6_emulator::clock::MeetDate;
use cts6_emulator::command::{parse_command, parse_lane_spread, Command};
use cts6_emulator::listing::HELP_TEXT;
use cts6_emulator::output::Effect;
use cts6_emulator::repl::handle_command;
use cts6_emulator::state::State;

const MS: u64 = 1_000_000;

fn state() -> State {
    State::with_date(MeetDate { utc_secs: 0, offset_secs: 0 })
}

/// Runs lines and returns what the last one logs.
fn run(s: &mut State, lines: &[&str]) -> Vec<String> {
    let mut log = Vec::new();
    for line in lines {
        let mut out = Vec::new();
        assert!(handle_command(s, line, 0, &mut out));
        log = out
            .into_iter()
            .filter_map(|e| match e {
                Effect::Log(t) => Some(t),
                _ => None,
            })
            .collect();
    }
    log
}

fn says(s: &mut State, line: &str) -> String {
    let log = run(s, &[line]);
    assert_eq!(log.len(), 1, "{line}");
    log[0].clone()
}

#[test]
fn lane_spreads() {
    assert_eq!(parse_lane_spread("1..10"), Some((1, 10)));
    assert_eq!(parse_lane_spread("2..8"), Some((2, 8)));
    assert_eq!(parse_lane_spread("1..1"), Some((1, 1)));
    assert_eq!(parse_lane_spread(" 3 .. 4 "), Some((3, 4)));
    assert_eq!(parse_lane_spread("+2..+3"), Some((2, 3)));
    for s in ["", "..", "1..", "..8", "0..8", "1..11", "5..4", "1.8", "1...8", "a..b", "1..2..3", "300..400"] {
        assert_eq!(parse_lane_spread(s), None, "{s}");
    }
}

#[test]
fn counters_are_set() {
    let mut s = state();
    assert_eq!(says(&mut s, "/event 12"), "event = 12");
    assert_eq!(says(&mut s, "/event 0"), "event = 1");
    assert_eq!(says(&mut s, "/heat 255"), "heat = 255");
    assert_eq!(says(&mut s, "/heat 0"), "heat = 1");
    assert_eq!(says(&mut s, " / race  40 "), "next_race_no = 40");
    assert_eq!(says(&mut s, "/race 0"), "next_race_no = 1");
    assert_eq!((s.current_event, s.current_heat, s.next_race_no), (1, 1, 1));
    for (line, usage) in [
        ("/event", "usage: /event N"),
        ("/event 65536", "usage: /event N"),
        ("/heat 256", "usage: /heat N"),
        ("/race x", "usage: /race N"),
        ("/dq", "usage: /dq L"),
        ("/dq a", "usage: /dq L"),
    ] {
        assert_eq!(says(&mut s, line), usage);
    }
}

#[test]
fn a_race_by_commands() {
    let mut s = state();
    assert!(says(&mut s, "").starts_with("race 1 started — event 1 heat 1 "));
    assert_eq!(run(&mut s, &["1 3 x"]), ["  lane 1 → split 1 @ 0.001", "  lane 3 → split 1 @ 0.001", "unknown input: x"]);
    assert_eq!(says(&mut s, "/dq 3"), "  lane 3 → DQ");
    assert_eq!(run(&mut s, &["9"]), ["(lane 9 outside active spread 1..=8)"]);
    assert_eq!(run(&mut s, &["300"]), ["unknown input: 300", "(nothing to do — try /help)"]);
    assert_eq!(
        says(&mut s, " / "),
        "race 1 finalized: event 1 heat 1 (2 lane(s), 0 interim split(s)) — bumped to next heat"
    );
    assert_eq!(says(&mut s, "/print"), "(no race in progress)");
}

#[test]
fn a_line_is_timed() {
    let mut s = state();
    let mut out = Vec::new();
    handle_command(&mut s, "   ", 7 * MS, &mut out);
    handle_command(&mut s, "2 2", 1_507 * MS, &mut out);
    assert_eq!(s.in_progress.as_ref().unwrap().lanes[1].touches_ms, [1_500, 1_501]);
}

#[test]
fn the_setup_is_locked_during_a_race() {
    let mut s = state();
    run(&mut s, &["/slot use 1", ""]);
    assert_eq!(says(&mut s, "/race 9"), "cannot change /race while a race is in progress (finalize with / first)");
    assert_eq!(says(&mut s, "/lanes 1..4"), "cannot change /lanes while a race is in progress (finalize with / first)");
    assert_eq!(says(&mut s, "/slot use 2"), "cannot change /slot while a race is in progress (finalize with / first)");
    assert_eq!(says(&mut s, "/slot save"), "cannot /slot save while a race is in progress (finalize with / first)");
    assert_eq!((s.next_race_no, s.lane_spread, s.selected_slot), (2, (1, 8), Some(1)));
    assert_eq!(says(&mut s, "/event 5"), "event = 5");
}

#[test]
fn lineups_are_edited() {
    let mut s = state();
    assert_eq!(run(&mut s, &["/lineup"]), ["working lineup (no slot selected)", "  (no events configured)"]);
    assert_eq!(says(&mut s, "/lineup add 100 f FL"), "added event 1: 100F FL (splits every 50 yd)");
    assert_eq!(says(&mut s, "/lineup add 200 X 7 25"), "added event 2: 200X FR-R (splits every 25 yd)");
    assert_eq!(says(&mut s, "/lineup add 50 M DV zz"), "added event 3: diving (splits every 50 yd)");
    run(&mut s, &["/event 2"]);
    assert_eq!(
        run(&mut s, &["/lineup show"]),
        [
            "working lineup (no slot selected)",
            "  event   1: 100F FL (splits/50yd, 2 touches)",
            "  event   2: 200X FR-R (splits/25yd, 8 touches) ←",
            "  event   3: diving (splits/50yd, 1 touch)",
        ]
    );
    assert_eq!(says(&mut s, "/lineup remove 4"), "event 4 out of range (lineup has 3 events)");
    assert_eq!(says(&mut s, "/lineup rm 0"), "event 0 out of range (lineup has 3 events)");
    assert_eq!(says(&mut s, "/lineup del 2"), "removed event 2: 200X FR-R");
    assert_eq!(says(&mut s, "/lineup delete 2"), "removed event 2: diving");
    assert_eq!(says(&mut s, "/lineup remove 2"), "event 2 out of range (lineup has 1 event)");
    assert_eq!(says(&mut s, "/lineup clear"), "lineup cleared");
    assert!(s.lineup.is_empty() && s.lineup_dirty);
    assert_eq!(says(&mut s, "/lineup remove"), "usage: /lineup remove N  (1-based event index)");
    assert_eq!(says(&mut s, "/lineup what"), "unknown lineup subcommand: what");
    let usage = "usage: /lineup add <distance> <M|F|X> <stroke> [split_yards]\n  stroke: 1/FR  2/BK  3/BR  4/FL  5/IM  6/MED-R  7/FR-R  DV";
    for line in ["/lineup add", "/lineup add x M FR", "/lineup add 50 Q FR", "/lineup add 50 M ZZ"] {
        assert_eq!(says(&mut s, line), usage);
    }
}

#[test]
fn preset_lineups() {
    let mut s = state();
    assert_eq!(says(&mut s, "/lineup preset hs"), "loaded preset lineup: 12 events");
    assert_eq!(s.lineup[0].label(), "200X MED-R");
    assert!(s.lineup_dirty);
    run(&mut s, &["/slot use 1"]);
    assert_eq!(says(&mut s, "/lineup preset ncaa13 F"), "loaded preset lineup: 13 events  [unsaved — /slot save]");
    assert_eq!(s.lineup[0].label(), "200F MED-R");
    assert_eq!(says(&mut s, "/lineup preset ncaa15 m"), "loaded preset lineup: 15 events  [unsaved — /slot save]");
    assert_eq!(says(&mut s, "/lineup preset ncaa16 q"), "loaded preset lineup: 16 events  [unsaved — /slot save]");
    assert_eq!(s.lineup[0].label(), "200X MED-R");
    let usage = "usage: /lineup preset <hs|ncaa13|ncaa15|ncaa16> [M|F|X]";
    assert_eq!(says(&mut s, "/lineup preset"), usage);
    assert_eq!(says(&mut s, "/lineup preset HS"), usage);
    assert_eq!(s.lineup.len(), 16);
}

#[test]
fn slots_by_commands() {
    let mut s = state();
    assert_eq!(says(&mut s, "/slot save"), "no slot selected — /slot use N first");
    assert_eq!(says(&mut s, "/slot rename a"), "no slot selected — /slot use N first");
    assert_eq!(says(&mut s, "/slot show"), "no slot selected — usage: /slot show <1..=8>");
    assert_eq!(says(&mut s, "/slot use 9"), "slot 9 out of range (1..=8)");
    assert_eq!(says(&mut s, "/slot use"), "usage: /slot use <1..=8>");
    assert_eq!(says(&mut s, "/slot load 2"), "selected slot 2: \"\" (0 events)");
    assert_eq!(says(&mut s, "/lineup add 50 M FR"), "added event 1: 50M FR (splits every 50 yd)  [unsaved — /slot save]");
    assert_eq!(says(&mut s, "/slot rename  Spring   Meet "), "slot 2 renamed to \"Spring Meet\"");
    assert_eq!(says(&mut s, "/slot rename"), "usage: /slot rename <new name>");
    assert_eq!(says(&mut s, "/slot save"), "saved working lineup to slot 2: \"Spring Meet\" (1 events)");
    run(&mut s, &["/lineup clear"]);
    assert_eq!(
        run(&mut s, &["/slot select 3"]),
        ["(discarding unsaved working-lineup edits from slot 2)", "selected slot 3: \"\" (0 events)"]
    );
    assert_eq!(says(&mut s, "/slot use 2"), "selected slot 2: \"Spring Meet\" (1 events)");
    assert_eq!(s.lineup.len(), 1);
    assert_eq!(
        run(&mut s, &["/slot show"]),
        ["slot 2: \"Spring Meet\" (1 event) ← selected", "  event   1: 50M FR (splits/50yd, 1 touch)"]
    );
    assert_eq!(run(&mut s, &["/slot 1"]), ["slot 1: \"\" (0 events)", "  (empty slot)"]);
    assert_eq!(says(&mut s, "/slot 0"), "slot 0 out of range (1..=8)");
    assert_eq!(says(&mut s, "/slot show 99"), "slot 99 out of range (1..=8)");
    assert_eq!(
        says(&mut s, "/slot huh"),
        "unknown slot subcommand: huh (try /slot | /slot N | /slot use N | /slot save | /slot rename <name>)"
    );
    assert_eq!(
        run(&mut s, &["/lineup"]),
        ["working lineup (from slot 2: \"Spring Meet\")", "  event   1: 50M FR (splits/50yd, 1 touch) ←"]
    );
    run(&mut s, &["/lineup clear"]);
    assert_eq!(
        run(&mut s, &["/lineup"]),
        ["working lineup (from slot 2: \"Spring Meet\") [unsaved edits]", "  (no events configured)"]
    );
}

#[test]
fn slots_are_listed() {
    let mut s = state();
    let list = run(&mut s, &["/slots"]);
    assert_eq!(list.len(), 9);
    assert_eq!(list[0], "  slot 1: \"\" (0 events)");
    assert_eq!(list[8], "(no slot selected — /slot N to load one)");
    run(&mut s, &["/slot use 2", "/lineup add 50 M FR", "/slot save"]);
    let list = run(&mut s, &["/slot list"]);
    assert_eq!(list.len(), 8);
    assert_eq!(list[1], "  slot 2: \"\" (1 event) ←");
    run(&mut s, &["/lineup clear"]);
    assert_eq!(
        run(&mut s, &["/slot"])[8],
        "(working lineup has unsaved edits — /slot save to commit)"
    );
}

#[test]
fn slot_names_are_cut_to_twenty_characters() {
    let mut s = state();
    run(&mut s, &["/slot use 1", "/slot rename abcdefghijklmnopqrstuvwxyz"]);
    assert_eq!(s.slots[0].name, "abcdefghijklmnopqrst");
    run(&mut s, &["/slot rename aéééééééééééééé"]);
    assert_eq!(s.slots[0].name, "aéééééééééééééé");
    assert_eq!(
        says(&mut s, "/slot rename ééééééééééééééééééééé"),
        "slot 1 renamed to \"éééééééééééééééééééé\""
    );
    assert_eq!(s.slots[0].name.chars().count(), 20);
}

#[test]
fn lane_spread_by_command() {
    let mut s = state();
    assert_eq!(says(&mut s, "/lanes"), "lane spread = 1..8");
    assert_eq!(says(&mut s, "/lanes 2..10"), "lane spread = 2..10");
    assert_eq!(s.lane_spread, (2, 10));
    assert_eq!(
        says(&mut s, "/lanes 0..4"),
        "usage: /lanes A..B  (1..=10, e.g. /lanes 1..10, /lanes 2..8, /lanes 1..1)"
    );
}

#[test]
fn races_and_status_are_listed() {
    let mut s = state();
    assert_eq!(says(&mut s, "/races"), "(no races stored)");
    run(&mut s, &["/race 12", "", "1 2 2", "/", "/race 3", "/event 2", "/heat 4", "", "/"]);
    assert_eq!(
        run(&mut s, &["/races"]),
        ["  race   3: event 2 heat 4 (0 lanes, 0 splits)", "  race  12: event 1 heat 1 (2 lanes, 1 splits)"]
    );
    assert_eq!(
        says(&mut s, "/status"),
        "event=2 heat=5 next_race_no=4 slot=(none) lanes=1..8 in_progress=false stored=2"
    );
    run(&mut s, &["/slot use 4", "/slot rename Cup", ""]);
    assert_eq!(
        says(&mut s, "/status"),
        "event=2 heat=5 next_race_no=5 slot=4 \"Cup\" lanes=1..8 in_progress=true stored=2"
    );
}

#[test]
fn help_quit_and_unknown_commands() {
    let mut s = state();
    assert_eq!(says(&mut s, "/help"), HELP_TEXT);
    assert_eq!(says(&mut s, "/?"), HELP_TEXT);
    assert!(HELP_TEXT.starts_with("cts6 emulator commands:\n\nmeet setup:\n/event N "));
    assert!(HELP_TEXT.contains("\n1 3 5                     batch — multiple touches at once\n"));
    assert_eq!(says(&mut s, "/Event 3"), "unknown command: /Event (try /help)");
    assert_eq!(run(&mut s, &["hello"]), ["unknown input: hello", "(nothing to do — try /help)"]);
    let mut out = Vec::new();
    assert!(!handle_command(&mut s, "/quit", 0, &mut out));
    assert!(!handle_command(&mut s, " /exit now", 0, &mut out));
    assert!(out.is_empty());
}

#[test]
fn lines_are_read_as_commands() {
    assert!(matches!(parse_command("\t\n"), Command::Start));
    assert!(matches!(parse_command("/"), Command::Finalize));
    assert!(matches!(parse_command("/ print "), Command::Finalize));
    assert!(matches!(parse_command("/print now"), Command::Other(_)));
    assert!(matches!(parse_command("/lanes 1..4 junk"), Command::Lanes(Some((1, 4)))));
    match parse_command("4") {
        Command::Touches(v) => assert_eq!(v.len(), 1),
        c => panic!("{c:?}"),
    }
}

#[test]
fn removing_undoes_adding() {
    let mut s = state();
    run(&mut s, &["/lineup preset hs"]);
    let before = s.lineup.clone();
    run(&mut s, &["/lineup add 25 X BK 25"]);
    assert_eq!(s.lineup[12].label(), "25X BK");
    run(&mut s, &["/lineup remove 13"]);
    assert_eq!(s.lineup, before);
}
