use cts6_emulator::app::{Focus, SlotBrowse, TuiApp, MAX_LOG};
use cts6_emulator::clock::MeetDate;
use cts6_emulator::keys::{event_accepted, handle_event, Key, KeyEvent};
use cts6_emulator::output::Effect;
use cts6_emulator::popups::{
    build_help_lines, build_lineup_lines, draw_help_popup, draw_lineup_popup, draw_results_popup,
    help_max_scroll, lineup_max_scroll, Popup,
};
use cts6_emulator::repl::handle_command;
use cts6_emulator::scoreboard::{draw_scoreboard, live_place_of};
use cts6_emulator::screen::{
    columns, max_scroll_of, popup, split, widest_line, Color, Line, Rect, Size, Style,
};
use cts6_emulator::slots::{draw_slots_popup, stored_max_scroll};
use cts6_emulator::state::State;
use cts6_emulator::tree::{build_tree_rows, draw_stored_events, TreeRow};
use cts6_emulator::tui::{
    cursor_has_place, cursor_position, divide, draw, draw_input, draw_log, draw_panes, scoreboard_height, Panes,
};

const MS: u64 = 1_000_000;

fn state() -> State {
    State::with_date(MeetDate { utc_secs: 0, offset_secs: 0 })
}

fn run_at(s: &mut State, line: &str, ms: u64) {
    let mut out = Vec::new();
    assert!(handle_command(s, line, ms * MS, &mut out));
}

fn run(s: &mut State, lines: &[&str]) {
    for line in lines {
        run_at(s, line, 0);
    }
}

fn plain(key: Key) -> KeyEvent {
    KeyEvent { key, pressed: true, control: false, alt: false, other_modifier: false }
}

fn control(c: char) -> KeyEvent {
    KeyEvent { key: Key::Char(c), pressed: true, control: true, alt: false, other_modifier: false }
}

fn press(a: &mut TuiApp, s: &mut State, ev: KeyEvent) -> Vec<Effect> {
    let mut out = Vec::new();
    assert!(event_accepted(a, s, ev));
    handle_event(a, s, ev, 24, 0, &mut out);
    out
}

fn keys(a: &mut TuiApp, s: &mut State, list: &[Key]) {
    for k in list {
        press(a, s, plain(*k));
    }
}

fn type_text(a: &mut TuiApp, s: &mut State, text: &str) {
    for c in text.chars() {
        press(a, s, plain(Key::Char(c)));
    }
}

fn enter(a: &mut TuiApp, s: &mut State, text: &str) {
    type_text(a, s, text);
    press(a, s, plain(Key::Enter));
}

fn line_text(l: &Line) -> String {
    l.spans.iter().map(|x| x.text.as_str()).collect()
}

fn texts(lines: &[Line]) -> Vec<String> {
    lines.iter().map(line_text).collect()
}

fn rect(x: u16, y: u16, width: u16, height: u16) -> Rect {
    Rect { x, y, width, height }
}

#[test]
fn a_fresh_interface() {
    let a = TuiApp::new();
    assert!(a.log.is_empty() && a.input.is_empty() && a.history.is_empty() && a.scratch.is_empty());
    assert_eq!((a.cursor, a.history_idx, a.focus), (0, None, Focus::Input));
    assert!(!a.quit && !a.show_help && !a.show_lineup && a.show_results.is_none());
    assert_eq!((a.tree_selected, a.tree_scroll, a.help_scroll, a.lineup_scroll), (0, 0, 0, 0));
    assert!(a.tree_expanded_events.is_empty() && a.tree_expanded_heats.is_empty());
}

#[test]
fn the_log_keeps_the_latest_lines() {
    let mut a = TuiApp::new();
    for i in 0..MAX_LOG + 3 {
        a.push_log(format!("line {i}"));
    }
    assert_eq!(a.log.len(), 2000);
    assert_eq!(a.log[0], "line 3");
    assert_eq!(a.log[1999], "line 2002");
}

#[test]
fn the_input_is_edited() {
    let (mut a, mut s) = (TuiApp::new(), state());
    type_text(&mut a, &mut s, "/evnt 3");
    assert_eq!((a.input.as_str(), a.cursor), ("/evnt 3", 7));
    keys(&mut a, &mut s, &[Key::Home, Key::Right, Key::Right, Key::Right]);
    assert_eq!(a.cursor, 3);
    type_text(&mut a, &mut s, "e");
    assert_eq!((a.input.as_str(), a.cursor), ("/event 3", 4));
    keys(&mut a, &mut s, &[Key::End, Key::Backspace]);
    type_text(&mut a, &mut s, "12");
    keys(&mut a, &mut s, &[Key::Left, Key::Delete]);
    assert_eq!((a.input.as_str(), a.cursor), ("/event 1", 8));
    keys(&mut a, &mut s, &[Key::Delete, Key::Right, Key::Home, Key::Backspace, Key::Left]);
    assert_eq!((a.input.as_str(), a.cursor), ("/event 1", 0));
}

#[test]
fn modified_characters_are_not_typed() {
    let (mut a, mut s) = (TuiApp::new(), state());
    press(&mut a, &mut s, control('x'));
    press(&mut a, &mut s, KeyEvent { alt: true, ..plain(Key::Char('x')) });
    assert!(a.input.is_empty());
    press(&mut a, &mut s, KeyEvent { other_modifier: true, ..plain(Key::Char('X')) });
    assert_eq!(a.input, "X");
    press(&mut a, &mut s, KeyEvent { other_modifier: true, ..control('c') });
    assert!(!a.quit);
    press(&mut a, &mut s, KeyEvent { pressed: false, ..plain(Key::Char('y')) });
    assert_eq!(a.input, "X");
    keys(&mut a, &mut s, &[Key::Other, Key::F(2), Key::PageUp]);
    assert_eq!(a.input, "X");
}

#[test]
fn edits_inside_a_character_are_not_accepted() {
    let (mut a, mut s) = (TuiApp::new(), state());
    type_text(&mut a, &mut s, "é");
    assert_eq!((a.input.len(), a.cursor), (2, 1));
    assert!(!event_accepted(&a, &s, plain(Key::Char('x'))));
    assert!(!event_accepted(&a, &s, plain(Key::Delete)));
    assert!(event_accepted(&a, &s, plain(Key::Left)));
    assert!(event_accepted(&a, &s, control('c')));
    press(&mut a, &mut s, plain(Key::Backspace));
    assert_eq!((a.input.as_str(), a.cursor), ("", 0));
}

#[test]
fn lines_are_entered() {
    let (mut a, mut s) = (TuiApp::new(), state());
    type_text(&mut a, &mut s, "/event 7");
    let out = press(&mut a, &mut s, plain(Key::Enter));
    assert!(matches!(&out[..], [Effect::Log(t)] if t == "event = 7"));
    assert_eq!(s.current_event, 7);
    assert_eq!((a.input.as_str(), a.cursor, a.history.len()), ("", 0, 1));
    enter(&mut a, &mut s, "/event 7");
    assert_eq!(a.history.len(), 1);
    enter(&mut a, &mut s, "/heat 2");
    assert_eq!(a.history, ["/event 7", "/heat 2"]);
    enter(&mut a, &mut s, "");
    assert!(s.in_progress.is_some());
    assert_eq!(a.history.len(), 2);
    enter(&mut a, &mut s, "/quit");
    assert!(a.quit);
}

#[test]
fn the_history_is_walked() {
    let (mut a, mut s) = (TuiApp::new(), state());
    keys(&mut a, &mut s, &[Key::Up, Key::Down]);
    assert_eq!(a.input, "");
    enter(&mut a, &mut s, "/event 1");
    enter(&mut a, &mut s, "/event 2");
    type_text(&mut a, &mut s, "/he");
    keys(&mut a, &mut s, &[Key::Up]);
    assert_eq!((a.input.as_str(), a.cursor, a.history_idx), ("/event 2", 8, Some(1)));
    keys(&mut a, &mut s, &[Key::Up, Key::Up]);
    assert_eq!((a.input.as_str(), a.history_idx), ("/event 1", Some(0)));
    keys(&mut a, &mut s, &[Key::Down]);
    assert_eq!((a.input.as_str(), a.history_idx), ("/event 2", Some(1)));
    keys(&mut a, &mut s, &[Key::Down]);
    assert_eq!((a.input.as_str(), a.cursor, a.history_idx), ("/he", 3, None));
    assert_eq!(a.scratch, "");
}

#[test]
fn digits_touch_lanes_during_a_race() {
    let (mut a, mut s) = (TuiApp::new(), state());
    run(&mut s, &["/lanes 1..10"]);
    type_text(&mut a, &mut s, "1");
    assert_eq!(a.input, "1");
    keys(&mut a, &mut s, &[Key::Backspace]);
    enter(&mut a, &mut s, "");
    let out = press(&mut a, &mut s, plain(Key::Char('0')));
    assert!(matches!(&out[..], [Effect::Beep, Effect::Log(t)] if t == "  lane 10 → split 1 @ 0.001"));
    press(&mut a, &mut s, plain(Key::Char('9')));
    assert_eq!(a.input, "");
    let ip = s.in_progress.as_ref().unwrap();
    assert_eq!((ip.lanes[9].touches_ms.len(), ip.lanes[8].touches_ms.len()), (1, 1));
    type_text(&mut a, &mut s, "/dq 9");
    assert_eq!(a.input, "/dq 9");
    assert_eq!(s.in_progress.as_ref().unwrap().lanes[8].touches_ms.len(), 1);
}

#[test]
fn the_program_is_left() {
    for ev in [control('c'), control('d'), plain(Key::Esc)] {
        let (mut a, mut s) = (TuiApp::new(), state());
        press(&mut a, &mut s, ev);
        assert!(a.quit);
    }
    for open in 0..5 {
        let (mut a, mut s) = (TuiApp::new(), state());
        match open {
            0 => a.show_help = true,
            1 => a.show_results = Some(1),
            2 => a.show_lineup = true,
            3 => a.show_slots = browse(1, true, 0),
            _ => a.focus = Focus::Tree,
        }
        press(&mut a, &mut s, control('d'));
        assert!(a.quit);
    }
}

#[test]
fn any_key_closes_the_help() {
    let (mut a, mut s) = (TuiApp::new(), state());
    enter(&mut a, &mut s, " /help ");
    assert!(a.show_help);
    assert_eq!(build_help_lines().len(), 40);
    assert_eq!(help_max_scroll(24), 20);
    assert_eq!(help_max_scroll(100), 0);
    for key in [
        Key::Char('x'),
        Key::Char('j'),
        Key::Char('k'),
        Key::Char(' '),
        Key::Char('5'),
        Key::F(1),
        Key::F(2),
        Key::Enter,
        Key::Tab,
        Key::Esc,
        Key::Backspace,
        Key::Delete,
        Key::Left,
        Key::Right,
        Key::Up,
        Key::Down,
        Key::Home,
        Key::End,
        Key::PageUp,
        Key::PageDown,
        Key::Other,
    ] {
        a.show_help = true;
        keys(&mut a, &mut s, &[key]);
        assert!(!a.show_help && a.help_scroll == 0 && a.input.is_empty());
        assert!(!a.quit && s.in_progress.is_none() && a.focus == Focus::Input);
    }
    keys(&mut a, &mut s, &[Key::F(1)]);
    assert!(a.show_help);
    let released = KeyEvent { pressed: false, ..plain(Key::Enter) };
    press(&mut a, &mut s, released);
    assert!(a.show_help);
    keys(&mut a, &mut s, &[Key::Enter]);
    assert!(!a.show_help && s.in_progress.is_none());
    enter(&mut a, &mut s, "/?");
    assert!(a.show_help);
}

#[test]
fn f1_opens_the_help_from_anywhere() {
    for open in 0..5 {
        let (mut a, mut s) = (TuiApp::new(), stored());
        match open {
            0 => keys(&mut a, &mut s, &[Key::Tab]),
            1 => keys(&mut a, &mut s, &[Key::Tab, Key::Enter, Key::Down, Key::Enter, Key::Down, Key::Enter]),
            2 => enter(&mut a, &mut s, "/lineup"),
            3 => enter(&mut a, &mut s, "/slot"),
            _ => type_text(&mut a, &mut s, "/ev"),
        }
        let focus = a.focus;
        assert_eq!(a.show_results.is_some(), open == 1);
        assert_eq!(a.show_lineup, open == 2);
        assert_eq!(a.show_slots.is_some(), open == 3);
        keys(&mut a, &mut s, &[Key::F(1)]);
        assert!(a.show_help && a.help_scroll == 0);
        assert!(a.show_results.is_none() && !a.show_lineup && a.show_slots.is_none());
        assert_eq!(a.focus, focus);
        keys(&mut a, &mut s, &[Key::Char('q')]);
        assert!(!a.show_help && !a.quit);
        assert_eq!(a.input, if open == 4 { "/ev" } else { "" });
    }
}

fn logged(out: Vec<Effect>) -> Vec<String> {
    out.into_iter()
        .map(|e| match e {
            Effect::Log(line) => line,
            e => panic!("{e:?}"),
        })
        .collect()
}

fn browse(slot: u8, viewing: bool, scroll: u16) -> Option<SlotBrowse> {
    Some(SlotBrowse { slot, viewing, scroll })
}

fn meets() -> State {
    let mut s = state();
    run(
        &mut s,
        &[
            "/slot use 3",
            "/slot rename Dual",
            "/lineup preset ncaa16",
            "/slot save",
            "/slot use 2",
            "/slot rename Cup",
            "/lineup add 50 M FR",
            "/slot save",
        ],
    );
    s
}

#[test]
fn slots_are_browsed_and_loaded() {
    let (mut a, mut s) = (TuiApp::new(), meets());
    enter(&mut a, &mut s, " /slot ");
    assert_eq!(a.show_slots, browse(2, false, 0));
    assert_eq!(a.history, [" /slot "]);
    keys(&mut a, &mut s, &[Key::Up, Key::Up, Key::Char('x'), Key::Tab]);
    assert_eq!((a.show_slots, a.input.as_str(), a.focus), (browse(1, false, 0), "", Focus::Input));
    keys(&mut a, &mut s, &[Key::Down, Key::Down, Key::Enter]);
    assert_eq!(a.show_slots, browse(3, true, 0));
    assert_eq!((s.selected_slot, s.lineup.len()), (Some(2), 1));
    assert_eq!(stored_max_scroll(&s, 3, 18), 5);
    keys(&mut a, &mut s, &[Key::Down, Key::Char('z')]);
    assert_eq!(a.show_slots, browse(3, true, 0));
    keys(&mut a, &mut s, &[Key::Backspace]);
    assert_eq!(a.show_slots, browse(3, false, 0));
    keys(&mut a, &mut s, &[Key::Enter]);
    assert_eq!(
        logged(press(&mut a, &mut s, plain(Key::Enter))),
        ["selected slot 3: \"Dual\" (16 events)"]
    );
    assert_eq!(a.show_slots, None);
    assert_eq!((s.selected_slot, s.lineup.len(), s.in_progress.is_some()), (Some(3), 16, false));
    enter(&mut a, &mut s, "/slot");
    for _ in 0..9 {
        keys(&mut a, &mut s, &[Key::Down]);
    }
    assert_eq!(a.show_slots, browse(8, false, 0));
    keys(&mut a, &mut s, &[Key::Enter, Key::Esc, Key::Esc]);
    assert_eq!((a.show_slots, a.quit, s.selected_slot), (None, false, Some(3)));
    enter(&mut a, &mut s, "/slot");
    press(&mut a, &mut s, control('c'));
    assert!(a.quit);
}

#[test]
fn a_stored_lineup_is_scrolled() {
    let (mut a, mut s) = (TuiApp::new(), meets());
    enter(&mut a, &mut s, "/slot");
    keys(&mut a, &mut s, &[Key::Down, Key::Enter]);
    let mut out = Vec::new();
    for (key, scroll) in [(Key::Down, 1), (Key::PageDown, 5), (Key::Up, 4), (Key::Home, 0), (Key::End, 5)] {
        handle_event(&mut a, &mut s, plain(key), 18, 0, &mut out);
        assert_eq!(a.show_slots, browse(3, true, scroll));
    }
    assert!(out.is_empty());
}

#[test]
fn no_slot_is_loaded_during_a_race() {
    let (mut a, mut s) = (TuiApp::new(), meets());
    run(&mut s, &[""]);
    enter(&mut a, &mut s, "/slot");
    keys(&mut a, &mut s, &[Key::Down, Key::Enter]);
    assert_eq!(
        logged(press(&mut a, &mut s, plain(Key::Enter))),
        ["cannot change /slot while a race is in progress (finalize with / first)"]
    );
    assert_eq!((a.show_slots, s.selected_slot), (None, Some(2)));
}

#[test]
fn the_slots_popup() {
    let s = meets();
    let list = draw_slots_popup(&s, browse(3, false, 0).unwrap(), rect(0, 0, 80, 24));
    assert_eq!(
        texts(&list.lines),
        [
            "   slot 1: \"\" (0 events)",
            "   slot 2: \"Cup\" (1 event) ← selected",
            " ▶ slot 3: \"Dual\" (16 events)",
            "   slot 4: \"\" (0 events)",
            "   slot 5: \"\" (0 events)",
            "   slot 6: \"\" (0 events)",
            "   slot 7: \"\" (0 events)",
            "   slot 8: \"\" (0 events)",
            "",
            "  ↑↓ navigate  Enter to view  Esc/Backspace to close",
        ]
    );
    assert_eq!((list.title.as_str(), list.scroll), (" sequence memory — Esc to close ", 0));
    assert_eq!((list.area.height, list.area.y), (12, 6));
    let low = draw_slots_popup(&s, browse(8, false, 0).unwrap(), rect(0, 0, 80, 10));
    assert_eq!((low.area.height, low.scroll), (8, 2));
    let view = draw_slots_popup(&s, browse(2, true, 0).unwrap(), rect(0, 0, 80, 24));
    assert_eq!(
        texts(&view.lines),
        [
            "slot 2: \"Cup\" (1 event) ← selected",
            "  event   1: 50M FR (splits/50yd, 1 touch)",
            "",
            "  ↑↓ PgUp/PgDn scroll  Enter to load  Esc/Backspace to go back",
        ]
    );
    assert_eq!((view.title.as_str(), view.scroll), (" sequence memory — Enter to load, Esc to go back ", 0));
    let part = draw_slots_popup(&s, browse(3, true, 9).unwrap(), rect(0, 0, 80, 18));
    assert_eq!(
        (part.title.as_str(), part.scroll),
        (" sequence memory [6/6]  ↑↓ PgUp/PgDn scroll  Enter to load  Esc to go back ", 5)
    );
    let mut a = TuiApp::new();
    assert!(draw(&s, &a, rect(0, 0, 80, 24), 0).unwrap().slots.is_none());
    a.show_slots = browse(3, false, 0);
    assert_eq!(draw(&s, &a, rect(0, 0, 80, 24), 0).unwrap().slots.unwrap().title, list.title);
}

#[test]
fn the_history_gives_the_input_back() {
    for k in 1..6 {
        let (mut a, mut s) = (TuiApp::new(), state());
        for line in ["/event 1", "/event 2", "/heat 3"] {
            enter(&mut a, &mut s, line);
        }
        type_text(&mut a, &mut s, "/he");
        keys(&mut a, &mut s, &[Key::Home]);
        for _ in 0..k {
            keys(&mut a, &mut s, &[Key::Up]);
        }
        assert_eq!(a.input, ["/heat 3", "/event 2", "/event 1", "/event 1", "/event 1"][k - 1]);
        for _ in 0..k {
            keys(&mut a, &mut s, &[Key::Down]);
        }
        assert_eq!((a.input.as_str(), a.cursor, a.history_idx), ("/he", 3, None));
        assert_eq!(a.history, ["/event 1", "/event 2", "/heat 3"]);
    }
}

#[test]
fn the_lineup_is_scrolled_and_closed() {
    let (mut a, mut s) = (TuiApp::new(), state());
    run(&mut s, &["/lineup preset ncaa16"]);
    enter(&mut a, &mut s, "/lineup show");
    assert!(a.show_lineup);
    assert_eq!(lineup_max_scroll(&s, 24), 2);
    assert_eq!(lineup_max_scroll(&s, 26), 0);
    keys(&mut a, &mut s, &[Key::Down, Key::Down, Key::Down]);
    assert_eq!(a.lineup_scroll, 2);
    keys(&mut a, &mut s, &[Key::Esc]);
    assert!(!a.show_lineup && a.lineup_scroll == 0 && !a.quit);
    enter(&mut a, &mut s, "/lineup");
    assert!(a.show_lineup);
    assert_eq!(a.history, ["/lineup show", "/lineup"]);
}

fn stored() -> State {
    let mut s = state();
    run(&mut s, &["", "1", "/", "/heat 1", "", "2", "/", "", "/", "/event 3", "/heat 1", "", "/"]);
    s
}

#[test]
fn the_tree_is_walked() {
    let (mut a, mut s) = (TuiApp::new(), stored());
    assert_eq!(
        build_tree_rows(&s, &a),
        [
            TreeRow::Event { event_no: 1, expanded: false, heat_count: 2, race_count: 3 },
            TreeRow::Event { event_no: 3, expanded: false, heat_count: 1, race_count: 1 },
        ]
    );
    a.tree_selected = 9;
    keys(&mut a, &mut s, &[Key::Tab]);
    assert_eq!((a.focus, a.tree_selected), (Focus::Tree, 1));
    keys(&mut a, &mut s, &[Key::Down]);
    assert_eq!(a.tree_selected, 1);
    keys(&mut a, &mut s, &[Key::Home, Key::Enter, Key::Down, Key::Right]);
    assert_eq!(
        build_tree_rows(&s, &a),
        [
            TreeRow::Event { event_no: 1, expanded: true, heat_count: 2, race_count: 3 },
            TreeRow::Heat { event_no: 1, heat: 1, expanded: true, race_count: 2 },
            TreeRow::Race { event_no: 1, heat: 1, race_no: 1 },
            TreeRow::Race { event_no: 1, heat: 1, race_no: 2 },
            TreeRow::Heat { event_no: 1, heat: 2, expanded: false, race_count: 1 },
            TreeRow::Event { event_no: 3, expanded: false, heat_count: 1, race_count: 1 },
        ]
    );
    keys(&mut a, &mut s, &[Key::Down, Key::Down, Key::Enter]);
    assert_eq!(a.show_results, Some(2));
    keys(&mut a, &mut s, &[Key::Char('x')]);
    assert_eq!((a.show_results, a.input.as_str(), a.focus), (None, "", Focus::Tree));
    keys(&mut a, &mut s, &[Key::Left]);
    assert_eq!(a.tree_selected, 1);
    assert_eq!(
        build_tree_rows(&s, &a)[1],
        TreeRow::Heat { event_no: 1, heat: 1, expanded: false, race_count: 2 }
    );
    keys(&mut a, &mut s, &[Key::Right, Key::Left, Key::Up, Key::Left]);
    assert_eq!(build_tree_rows(&s, &a).len(), 2);
    keys(&mut a, &mut s, &[Key::End]);
    assert_eq!(a.tree_selected, 1);
    keys(&mut a, &mut s, &[Key::Char('z'), Key::Esc]);
    assert_eq!((a.focus, a.quit), (Focus::Input, false));
    keys(&mut a, &mut s, &[Key::Tab, Key::Tab]);
    assert_eq!(a.focus, Focus::Input);
}

#[test]
fn an_empty_tree() {
    let (mut a, mut s) = (TuiApp::new(), state());
    a.tree_selected = 4;
    keys(&mut a, &mut s, &[Key::Tab]);
    assert_eq!(a.tree_selected, 0);
    keys(&mut a, &mut s, &[Key::Down, Key::End, Key::Enter, Key::Left]);
    assert_eq!(a.tree_selected, 0);
    assert_eq!(texts(&draw_stored_events(&s, &a, 10)), ["  (no stored races yet)"]);
}

#[test]
fn the_tree_pane() {
    let (mut a, mut s) = (TuiApp::new(), stored());
    run(&mut s, &["/lineup add 100 F FL"]);
    a.tree_expanded_events.insert(1);
    keys(&mut a, &mut s, &[Key::Tab, Key::Down, Key::Enter]);
    let lines = draw_stored_events(&s, &a, 20);
    assert_eq!(
        texts(&lines),
        [
            "   ▾ Event  1  100F FL  (2h/3r)",
            "    ▶ ▾ Heat  1  (2 races)",
            "         race #1   1st 0.001",
            "         race #2   1st 0.001",
            "      ▸ Heat  2  (1 race)",
            "   ▸ Event  3  event 3  (1h/1r)",
        ]
    );
    assert_eq!(lines[0].spans[0].style, Style::strong(Color::Cyan));
    assert_eq!(lines[1].spans[0].style, Style::color(Color::White).on(Color::DarkGray));
    assert_eq!(lines[2].spans[0].style, Style::color(Color::Gray));
    keys(&mut a, &mut s, &[Key::End]);
    assert_eq!(texts(&draw_stored_events(&s, &a, 5)).len(), 3);
    assert_eq!(texts(&draw_stored_events(&s, &a, 5))[2], " ▶ ▸ Event  3  event 3  (1h/1r)");
    assert_eq!(texts(&draw_stored_events(&s, &a, 0)), ["   ▾ Event  1  100F FL  (2h/3r)"]);
    a.tree_expanded_heats.insert(1 * 256 + 2);
    assert_eq!(texts(&draw_stored_events(&s, &a, 20))[5], "       ▶ race #3   1st --");
}

#[test]
fn the_idle_scoreboard() {
    let mut s = state();
    run(&mut s, &["/event 4", "/heat 2", "/race 9", "/lanes 2..7"]);
    let lines = draw_scoreboard(&s, 0);
    assert_eq!(
        texts(&lines),
        [
            "  idle    event 4    heat 2    next race 9    lanes 2..7",
            "",
            "  press <Enter> in the prompt to start a race",
            "  type 2..7 to record lane touches  ·  / to finalize  ·  /dq L to disqualify",
        ]
    );
    assert_eq!(lines[0].spans[1].style, Style::strong(Color::DarkGray));
}

#[test]
fn the_running_scoreboard() {
    let mut s = state();
    run(&mut s, &["/lineup add 100 F FL", "/lanes 1..5", ""]);
    run_at(&mut s, "1 2", 30_000);
    run_at(&mut s, "2", 61_000);
    run_at(&mut s, "/dq 3", 61_000);
    run_at(&mut s, "4", 61_000);
    run_at(&mut s, "4", 61_100);
    let lines = draw_scoreboard(&s, 61_249 * MS);
    assert_eq!(
        texts(&lines),
        [
            "  race 1    running time  1:01.249    100F FL  heat 1",
            "  ─────────────────────────────────────────────────────────────",
            "  Lane 1           30.000  (1 touch)    FINISH ARMED",
            "  Lane 2  1st    1:01.000  FINAL  (2 touches)",
            "  Lane 3              DQ",
            "  Lane 4  2nd    1:01.100  FINAL  (2 touches)",
            "  Lane 5               --    SPLIT ARMED (1/1)",
        ]
    );
    let bright = Style::strong(Color::Black).on(Color::Green);
    let dim = Style::color(Color::DarkGray).dimmed();
    let steady = Style::strong(Color::Green);
    for (ms, style) in [
        (61_000, bright), (61_249, bright), (61_250, dim), (61_500, bright), (61_750, dim),
        (62_000, bright), (62_250, dim), (62_499, dim), (62_500, steady), (99_000, steady),
    ] {
        assert_eq!(draw_scoreboard(&s, ms * MS)[3].spans[2].style, style, "{ms}");
    }
    let armed = |ms: u64| draw_scoreboard(&s, ms * MS)[2].spans.last().unwrap().style;
    assert_eq!(armed(61_000), Style::strong(Color::Black).on(Color::Red));
    assert_eq!(armed(61_500), Style::strong(Color::Red).dimmed());
    assert_eq!(lines[2].spans[2].style, steady);
}

#[test]
fn places_on_the_scoreboard() {
    let mut s = state();
    run(&mut s, &["/lineup add 50 F FL", "/lanes 1..10", ""]);
    for (lane, ms) in [("3", 20_000), ("9", 20_000), ("7", 19_000), ("1", 18_000)] {
        run_at(&mut s, lane, ms);
    }
    run(&mut s, &["/dq 1"]);
    let ip = s.in_progress.as_ref().unwrap();
    let places: Vec<Option<u8>> = (0..10).map(|i| live_place_of(ip, (1, 10), i)).collect();
    assert_eq!(places, [None, None, Some(2), None, None, None, Some(1), None, Some(3), None]);
    assert_eq!(live_place_of(ip, (1, 8), 8), None);
}

#[test]
fn the_scoreboard_of_an_unknown_event() {
    let mut s = state();
    run(&mut s, &["/event 9", ""]);
    let lines = texts(&draw_scoreboard(&s, 0));
    assert_eq!(lines[0], "  race 1    running time  0.000    event 9  heat 1");
    assert_eq!(lines[2], "  Lane 1               --    FINISH ARMED");
    run(&mut s, &["1"]);
    assert_eq!(texts(&draw_scoreboard(&s, 0))[2], "  Lane 1            0.001  (1 touch)");
}

#[test]
fn help_lines() {
    let lines = build_help_lines();
    let t = texts(&lines);
    assert_eq!(t[0], "cts6 emulator commands");
    assert_eq!(lines[0].spans[0].style, Style::strong(Color::White).with_underline());
    assert_eq!(t[1], "");
    assert_eq!(t[3], "  /event N               set active event");
    assert_eq!(t[7], "                         e.g. /lanes 1..10, 2..8, 1..1)");
    assert_eq!(lines[3].spans[1].style, Style::strong(Color::Cyan));
    assert_eq!(t[39], "  ←                      collapse (or jump to parent on a race)");
    assert_eq!(lines[39].spans[1].style, Style::strong(Color::Green));
    assert_eq!(lines[7].spans[3].style, Style::color(Color::Gray));
}

#[test]
fn the_help_popup() {
    let mut a = TuiApp::new();
    a.help_scroll = 3;
    let p = draw_help_popup(&a, rect(0, 0, 80, 24));
    assert_eq!(p.title, " help [4/21]  Esc to close ");
    assert_eq!(p.scroll, 3);
    assert_eq!((p.area.height, p.area.y), (22, 1));
    let widest = texts(&p.lines).iter().map(|l| l.chars().count()).max().unwrap() as u16;
    assert_eq!(p.area.width, widest + 4);
    let tall = draw_help_popup(&a, rect(0, 0, 200, 60));
    assert_eq!((tall.title.as_str(), tall.scroll), (" help — Esc/Enter to close ", 0));
    assert_eq!((tall.area.height, tall.area.y), (42, 9));
}

fn results(s: &State, race_no: u16) -> Popup {
    draw_results_popup(s, rect(0, 0, 100, 40), race_no).unwrap()
}

#[test]
fn the_results_popup() {
    let mut s = state();
    run(&mut s, &["/lineup add 100 F FL", "/lanes 1..10", ""]);
    run_at(&mut s, "10 4", 29_000);
    run_at(&mut s, "10", 62_000);
    run_at(&mut s, "4", 61_000);
    run_at(&mut s, "2", 20_000);
    run(&mut s, &["/dq 2", "/dq 6", "/"]);
    let p = results(&s, 1);
    assert_eq!(
        texts(&p.lines),
        [
            "  Race 1  Event 1  100F FL  Heat 1",
            "",
            "  Pl   Lane    Finish        Splits (cumulative)",
            "  ─────────────────────────────────────────────────────────────",
            "  1st  Lane 4    1:01.000  29.000",
            "  2nd  Lane10    1:02.000  29.000",
            "    —  Lane 2          DQ  (no splits)",
            "    —  Lane 6          DQ  (no splits)",
            "",
            "  Esc/Enter to close",
        ]
    );
    assert_eq!(p.title, " race 1 results — Esc/Enter to close ");
    assert_eq!(p.area, rect(16, 14, 67, 12));
    assert!(draw_results_popup(&s, rect(0, 0, 100, 40), 2).is_none());
}

#[test]
fn results_with_several_splits_and_with_none() {
    let mut s = state();
    run(&mut s, &[""]);
    for ms in [1_000, 2_000, 3_000] {
        run_at(&mut s, "5", ms);
    }
    run(&mut s, &["/", "", "/"]);
    assert_eq!(texts(&results(&s, 1).lines)[4], "  1st  Lane 5       3.000  1.000  2.000");
    assert_eq!(texts(&results(&s, 2).lines)[4], "  (no lane data recorded)");
}

#[test]
fn the_lineup_popup() {
    let (a, mut s) = (TuiApp::new(), state());
    assert_eq!(
        texts(&build_lineup_lines(&s)),
        [
            "  Event Lineup  (0 events)",
            "",
            "  (no lineup configured — try /lineup preset hs)",
            "",
            "  ↑↓ PgUp/PgDn scroll  Esc/Enter to close",
        ]
    );
    run(&mut s, &["/lineup add 100 F FL", "/lineup add 50 M FR", "/event 2"]);
    let lines = build_lineup_lines(&s);
    assert_eq!(
        texts(&lines)[4..6],
        [
            "      1  100F FL             50yd       2 touches",
            "  →   2  50M FR              50yd       1 touch ",
        ]
    );
    assert_eq!(lines[5].spans[1].style, Style::strong(Color::Yellow));
    let p = draw_lineup_popup(&s, &a, rect(0, 0, 80, 24));
    assert_eq!(p.title, " event lineup — Esc/Enter to close ");
    assert_eq!(p.area, rect(12, 7, 56, 10));
    let small = draw_lineup_popup(&s, &a, rect(0, 0, 10, 6));
    assert_eq!(small.title, " event lineup [1/4]  ↑↓ PgUp/PgDn scroll  Esc to close ");
    assert_eq!((small.area.width, small.area.height), (30, 7));
}

#[test]
fn popups_are_placed() {
    assert_eq!(popup(rect(0, 0, 80, 24), 20, 10, 30, 7), rect(25, 6, 30, 12));
    assert_eq!(popup(rect(5, 5, 40, 20), 100, 100, 30, 7), rect(6, 6, 38, 18));
    assert_eq!(popup(rect(0, 0, 0, 0), 0, 0, 20, 5), rect(0, 0, 20, 5));
    assert_eq!(popup(rect(0, 0, 65_535, 65_535), 65_535, 65_535, 20, 5), rect(1, 1, 65_533, 65_533));
    assert_eq!(max_scroll_of(40, 24, 5), 20);
    assert_eq!(max_scroll_of(40, 0, 5), 37);
    assert_eq!(max_scroll_of(0, 24, 5), 0);
}

#[test]
fn columns_follow_the_terminal_and_not_the_characters() {
    let mut l = Line::blank();
    assert_eq!(columns(&l), 0);
    l.put("ab", Style::plain());
    l.put("水", Style::plain());
    assert_eq!(columns(&l), 4);
    l.put("e\u{301}", Style::plain());
    assert_eq!(columns(&l), 5);
    let lines = vec![Line::single("abc", Style::plain()), l, Line::blank()];
    assert_eq!(widest_line(&lines), 5);
    assert_eq!(widest_line(&vec![]), 0);
}

#[test]
fn areas_are_split() {
    let parts = split(rect(2, 3, 50, 30), true, &vec![Size::Length(10), Size::Min(3), Size::Length(3)]);
    assert_eq!(parts, [rect(2, 3, 50, 10), rect(2, 13, 50, 17), rect(2, 30, 50, 3)]);
    let parts = split(rect(0, 0, 100, 10), false, &vec![Size::Min(40), Size::Length(42)]);
    assert_eq!(parts, [rect(0, 0, 58, 10), rect(58, 0, 42, 10)]);
    for h in 0..20u16 {
        let parts = split(rect(0, 0, 5, h), true, &vec![Size::Length(13), Size::Min(3), Size::Length(3)]);
        assert_eq!(parts.len(), 3);
        assert!(parts.iter().all(|p| p.x == 0 && p.width == 5));
    }
}

#[test]
fn the_screen_is_divided() {
    let mut s = state();
    assert_eq!(scoreboard_height(&s), 13);
    let p = divide(&s, rect(0, 0, 120, 40));
    assert_eq!(p.scoreboard, rect(0, 0, 78, 13));
    assert_eq!(p.stored, rect(78, 0, 42, 13));
    assert_eq!(p.log, rect(0, 13, 120, 24));
    assert_eq!(p.input, rect(0, 37, 120, 3));
    run(&mut s, &["/lanes 4..4"]);
    assert_eq!(scoreboard_height(&s), 7);
    run(&mut s, &["/lanes 1..10"]);
    assert_eq!(scoreboard_height(&s), 15);
}

#[test]
fn the_panes_lie_inside_the_screen() {
    let s = state();
    for width in (0..200).step_by(7).chain([65_535]) {
        for height in (0..60).step_by(3).chain([65_535]) {
            let p = divide(&s, rect(0, 0, width, height));
            for r in [p.scoreboard, p.stored, p.log, p.input] {
                assert!(r.x as u32 + r.width as u32 <= width as u32);
                assert!(r.y as u32 + r.height as u32 <= height as u32);
            }
            let q = divide(&s, rect(11, 5, width.min(65_000), height.min(65_000)));
            for r in [q.scoreboard, q.stored, q.log, q.input] {
                assert!(r.x >= 11 && r.x as u32 + r.width as u32 <= 11 + width as u32);
                assert!(r.y >= 5 && r.y as u32 + r.height as u32 <= 5 + height as u32);
            }
        }
    }
}

#[test]
fn the_log_pane() {
    let mut a = TuiApp::new();
    for line in ["one", "two\nthree", "", "four"] {
        a.push_log(line.to_string());
    }
    assert_eq!(texts(&draw_log(&a.log, 20)), ["one", "two", "three", "", "four"]);
    assert_eq!(texts(&draw_log(&a.log, 5)), ["three", "", "four"]);
    assert!(draw_log(&a.log, 2).is_empty());
    assert!(draw_log(&a.log, 0).is_empty());
}

#[test]
fn the_input_pane() {
    let (mut a, mut s) = (TuiApp::new(), state());
    type_text(&mut a, &mut s, "/heat");
    let area = rect(10, 5, 20, 3);
    let pane = draw_input(&a, area);
    assert_eq!(texts(&pane.lines), ["cts6> /heat"]);
    assert_eq!(pane.title, " input  [Tab→stored events  F1 help] ");
    assert_eq!(pane.border, Color::Cyan);
    assert_eq!(cursor_position(&a, area), Some((22, 6)));
    type_text(&mut a, &mut s, "0123456789");
    assert_eq!(cursor_position(&a, area), Some((28, 6)));
    assert!(!cursor_has_place(&a, rect(65_530, 0, 5, 3)));
    assert!(!cursor_has_place(&a, rect(0, 65_535, 5, 0)));
    a.focus = Focus::Tree;
    let pane = draw_input(&a, area);
    assert_eq!((pane.title.as_str(), pane.border), (" input  [Tab to focus] ", Color::DarkGray));
    assert_eq!(cursor_position(&a, area), None);
    assert!(cursor_has_place(&a, rect(65_530, 0, 5, 3)));
}

#[test]
fn the_whole_screen() {
    let (mut a, s) = (TuiApp::new(), stored());
    a.push_log("hello".to_string());
    let area = rect(0, 0, 120, 40);
    let drawn = draw(&s, &a, area, 0).unwrap();
    assert_eq!(drawn.scoreboard.title, " scoreboard ");
    assert_eq!(drawn.scoreboard.border, Color::Cyan);
    assert_eq!(drawn.stored.title, " stored events  [Tab to focus] ");
    assert_eq!(drawn.log.title, " log ");
    assert_eq!(drawn.log.text_style, Style::color(Color::Gray));
    assert_eq!(texts(&drawn.log.lines), ["hello"]);
    assert_eq!(drawn.cursor, Some((7, 38)));
    assert!(drawn.help.is_none() && drawn.results.is_none() && drawn.lineup.is_none());
    a.focus = Focus::Tree;
    a.show_help = true;
    a.show_results = Some(1);
    a.show_lineup = true;
    let p = Panes {
        scoreboard: rect(0, 0, 60, 13),
        stored: rect(60, 0, 60, 13),
        log: rect(0, 13, 120, 24),
        input: rect(0, 37, 120, 3),
    };
    let drawn = draw_panes(&s, &a, area, p, 0);
    assert_eq!(drawn.stored.title, " stored events  [↑↓ ←/→ collapse/expand  ⏎ open race  Tab→input] ");
    assert_eq!(drawn.stored.border, Color::Magenta);
    assert_eq!(drawn.cursor, None);
    assert!(drawn.help.is_some() && drawn.results.is_some() && drawn.lineup.is_some());
    a.show_results = Some(99);
    assert!(draw_panes(&s, &a, area, p, 0).results.is_none());
}

#[test]
fn the_scoreboard_agrees_with_the_result() {
    let mut s = state();
    run(&mut s, &["/lineup add 50 F FL", ""]);
    for (lane, ms) in [("3", 20_000), ("8", 20_000), ("7", 19_000), ("1", 18_000)] {
        run_at(&mut s, lane, ms);
    }
    run(&mut s, &["/dq 1"]);
    let ip = s.in_progress.as_ref().unwrap();
    let shown: Vec<Option<u8>> = (0..10).map(|i| live_place_of(ip, s.lane_spread, i)).collect();
    run(&mut s, &["/"]);
    let race = s.lookup_by_race(1).unwrap();
    for i in 0..10 {
        let place = race.lanes[i].as_ref().map(|r| r.place).filter(|p| *p > 0);
        assert_eq!(place, shown[i]);
    }
}
