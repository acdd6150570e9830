//! What a key does: to the interface, to the emulator's state, and what it
//! reports.

use vstd::prelude::*;
use vstd::string::*;

use crate::app::{Focus, SlotBrowse, TuiApp, TuiView};
use crate::command;
use crate::output;
use crate::output::{Effect, EffectView};
use crate::popups;
use crate::repl;
use crate::running;
use crate::screen;
use crate::slots;
use crate::state::{State, StateView, NUM_SLOTS};
use crate::text;
use crate::tree;
use crate::tree::TreeRow;

verus! {

broadcast use vstd::std_specs::hash::group_hash_axioms;

/// A key.
#[derive(Debug, Clone, Copy, PartialEq, Eq, Structural)]
pub enum Key {
    Char(char),
    F(u8),
    Enter,
    Tab,
    Esc,
    Backspace,
    Delete,
    Left,
    Right,
    Up,
    Down,
    Home,
    End,
    PageUp,
    PageDown,
    /// A key without a meaning here.
    Other,
}

/// A key event.
#[derive(Debug, Clone, Copy, PartialEq, Eq, Structural)]
pub struct KeyEvent {
    pub key: Key,
    /// Whether the key was pressed, not repeated or released.
    pub pressed: bool,
    pub control: bool,
    pub alt: bool,
    /// Whether any other modifier was held.
    pub other_modifier: bool,
}

impl KeyEvent {
    /// Ctrl-C or Ctrl-D.
    pub open spec fn interrupts(self) -> bool {
        (self.key == Key::Char('c') || self.key == Key::Char('d')) && self.control && !self.alt
            && !self.other_modifier
    }

    fn is_interrupt(&self) -> (r: bool)
        ensures
            r == self.interrupts(),
    {
        let letter: bool = match self.key {
            Key::Char(c) => c == 'c' || c == 'd',
            _ => false,
        };
        letter && self.control && !self.alt && !self.other_modifier
    }

    fn asks_help(&self) -> (r: bool)
        ensures
            r == (self.key == Key::F(1)),
    {
        match self.key {
            Key::F(n) => n == 1,
            _ => false,
        }
    }
}

/// Where a key moves a scrolled pop-up from line `scroll`; none for a key that
/// does not scroll.
pub open spec fn scrolled_to(key: Key, scroll: u16, limit: u16) -> Option<u16> {
    match key {
        Key::Down => Some(screen::min_int(scroll + 1, limit as int) as u16),
        Key::Up => Some(screen::max_int(scroll - 1, 0) as u16),
        Key::PageDown => Some(screen::min_int(scroll + 8, limit as int) as u16),
        Key::PageUp => Some(screen::max_int(scroll - 8, 0) as u16),
        Key::Home => Some(0u16),
        Key::End => Some(limit),
        Key::Char(c) => if c == 'j' {
            Some(screen::min_int(scroll + 1, limit as int) as u16)
        } else if c == 'k' {
            Some(screen::max_int(scroll - 1, 0) as u16)
        } else if c == ' ' {
            Some(screen::min_int(scroll + 8, limit as int) as u16)
        } else {
            None
        },
        _ => None,
    }
}

fn down_by(scroll: u16, n: u16, limit: u16) -> (r: u16)
    ensures
        r == screen::min_int(scroll + n, limit as int),
{
    let to: u16 = scroll.saturating_add(n);
    if to < limit {
        to
    } else {
        limit
    }
}

fn scroll_key(key: Key, scroll: u16, limit: u16) -> (r: Option<u16>)
    ensures
        r == scrolled_to(key, scroll, limit),
{
    match key {
        Key::Down | Key::Char('j') => Some(down_by(scroll, 1, limit)),
        Key::Up | Key::Char('k') => Some(scroll.saturating_sub(1)),
        Key::PageDown | Key::Char(' ') => Some(down_by(scroll, 8, limit)),
        Key::PageUp => Some(scroll.saturating_sub(8)),
        Key::Home => Some(0),
        Key::End => Some(limit),
        _ => None,
    }
}

/// Index of the first row from `i` on of the heat `k`.
pub open spec fn heat_row_from(rows: Seq<TreeRow>, k: (u16, u8), i: int) -> Option<int>
    decreases rows.len() - i,
{
    if i < 0 || i >= rows.len() {
        None
    } else if rows[i] matches TreeRow::Heat { event_no, heat, .. } && event_no == k.0 && heat
        == k.1 {
        Some(i)
    } else {
        heat_row_from(rows, k, i + 1)
    }
}

impl SlotBrowse {
    /// Where a key in the sequence-memory pop-up leads; none where it closes the
    /// pop-up. The lineup of the slot can be scrolled by `limit` lines.
    pub open spec fn keyed(self, key: Key, limit: u16) -> Option<SlotBrowse> {
        if self.viewing {
            match key {
                Key::Enter => None,
                Key::Esc | Key::Backspace => Some(
                    SlotBrowse { viewing: false, scroll: 0, ..self },
                ),
                _ => match scrolled_to(key, self.scroll, limit) {
                    Some(at) => Some(SlotBrowse { scroll: at, ..self }),
                    None => Some(self),
                },
            }
        } else {
            match key {
                Key::Up => Some(
                    SlotBrowse { slot: screen::max_int(self.slot - 1, 1) as u8, ..self },
                ),
                Key::Down => Some(
                    SlotBrowse {
                        slot: screen::min_int(self.slot + 1, NUM_SLOTS as int) as u8,
                        ..self
                    },
                ),
                Key::Enter => Some(SlotBrowse { viewing: true, scroll: 0, ..self }),
                Key::Esc | Key::Backspace => None,
                _ => Some(self),
            }
        }
    }
}

fn browse_key(b: SlotBrowse, key: Key, limit: u16) -> (r: Option<SlotBrowse>)
    requires
        1 <= b.slot <= NUM_SLOTS,
    ensures
        r == b.keyed(key, limit),
{
    if b.viewing {
        match key {
            Key::Enter => None,
            Key::Esc | Key::Backspace => Some(
                SlotBrowse { slot: b.slot, viewing: false, scroll: 0 },
            ),
            _ => match scroll_key(key, b.scroll, limit) {
                Some(at) => Some(SlotBrowse { slot: b.slot, viewing: true, scroll: at }),
                None => Some(b),
            },
        }
    } else {
        match key {
            Key::Up => {
                let slot: u8 = if b.slot > 1 {
                    b.slot - 1
                } else {
                    1
                };
                Some(SlotBrowse { slot, viewing: false, scroll: b.scroll })
            },
            Key::Down => {
                let slot: u8 = if (b.slot as usize) < NUM_SLOTS {
                    b.slot + 1
                } else {
                    b.slot
                };
                Some(SlotBrowse { slot, viewing: false, scroll: b.scroll })
            },
            Key::Enter => Some(SlotBrowse { slot: b.slot, viewing: true, scroll: 0 }),
            Key::Esc | Key::Backspace => None,
            _ => Some(b),
        }
    }
}

impl TuiView {
    /// The interface with the help open, and no other pop-up.
    pub open spec fn help_opened(self) -> TuiView {
        TuiView {
            show_help: true,
            help_scroll: 0,
            show_results: None,
            show_lineup: false,
            lineup_scroll: 0,
            show_slots: None,
            ..self
        }
    }

    /// A key while the lineup is open: it scrolls or closes it.
    pub open spec fn lineup_keyed(self, key: Key, limit: u16) -> TuiView {
        match scrolled_to(key, self.lineup_scroll, limit) {
            Some(at) => TuiView { lineup_scroll: at, ..self },
            None => TuiView { show_lineup: false, lineup_scroll: 0, ..self },
        }
    }

    /// Expands a row of the tree, or opens the results of a race.
    pub open spec fn row_opened(self, row: TreeRow) -> TuiView {
        match row {
            TreeRow::Event { event_no, .. } => TuiView {
                expanded_events: self.expanded_events.insert(event_no),
                ..self
            },
            TreeRow::Heat { event_no, heat, .. } => self.heat_expanded((event_no, heat)),
            TreeRow::Race { race_no, .. } => TuiView { show_results: Some(race_no), ..self },
        }
    }

    /// Collapses a row of the tree; for a race, its heat, which is selected.
    pub open spec fn row_closed(self, rows: Seq<TreeRow>, row: TreeRow) -> TuiView {
        match row {
            TreeRow::Event { event_no, .. } => TuiView {
                expanded_events: self.expanded_events.remove(event_no),
                ..self
            },
            TreeRow::Heat { event_no, heat, .. } => self.heat_collapsed((event_no, heat)),
            TreeRow::Race { event_no, heat, .. } => TuiView {
                tree_selected: match heat_row_from(rows, (event_no, heat), 0) {
                    Some(i) => i as usize,
                    None => self.tree_selected,
                },
                ..self.heat_collapsed((event_no, heat))
            },
        }
    }

    /// A key while the tree has the focus.
    pub open spec fn tree_keyed(self, rows: Seq<TreeRow>, key: Key) -> TuiView {
        let last = screen::max_int(rows.len() - 1, 0);
        match key {
            Key::Tab | Key::Esc => TuiView { focus: Focus::Input, ..self },
            Key::Up => TuiView {
                tree_selected: screen::max_int(self.tree_selected - 1, 0) as usize,
                ..self
            },
            Key::Down => if self.tree_selected < last {
                TuiView { tree_selected: (self.tree_selected + 1) as usize, ..self }
            } else {
                self
            },
            Key::Home => TuiView { tree_selected: 0, ..self },
            Key::End => TuiView { tree_selected: last as usize, ..self },
            Key::Right | Key::Enter => if self.tree_selected < rows.len() {
                self.row_opened(rows[self.tree_selected as int])
            } else {
                self
            },
            Key::Left => if self.tree_selected < rows.len() {
                self.row_closed(rows, rows[self.tree_selected as int])
            } else {
                self
            },
            _ => self,
        }
    }

    /// The interface with the tree focused and its selection on one of `n`
    /// rows.
    pub open spec fn tree_focused(self, n: int) -> TuiView {
        TuiView {
            focus: Focus::Tree,
            tree_selected: if n == 0 {
                0
            } else if self.tree_selected >= n {
                (n - 1) as usize
            } else {
                self.tree_selected
            },
            ..self
        }
    }

    /// The interface with another input, the cursor behind it.
    pub open spec fn showing(self, input: Seq<char>, history_idx: Option<usize>) -> TuiView {
        TuiView { input, cursor: text::byte_len(input) as usize, history_idx, ..self }
    }

    /// The line before the one shown, or the last one entered.
    pub open spec fn history_up(self) -> TuiView {
        if self.history.len() == 0 {
            self
        } else {
            match self.history_idx {
                None => (TuiView { scratch: self.input, ..self }).showing(
                    self.history.last(),
                    Some((self.history.len() - 1) as usize),
                ),
                Some(i) => {
                    let to = screen::max_int(i - 1, 0);
                    self.showing(self.history[to], Some(to as usize))
                },
            }
        }
    }

    /// The line after the one shown, or the input that was left for the
    /// history.
    pub open spec fn history_down(self) -> TuiView {
        match self.history_idx {
            None => self,
            Some(i) => if i + 1 >= self.history.len() {
                TuiView { scratch: Seq::empty(), ..self.showing(self.scratch, None) }
            } else {
                self.showing(self.history[i + 1], Some((i + 1) as usize))
            },
        }
    }

    /// The input without the character at byte `at`, and the cursor there.
    pub open spec fn removed_at(self, at: int) -> TuiView {
        TuiView {
            input: text::head_bytes(self.input, at) + text::tail_bytes(self.input, at).skip(1),
            cursor: at as usize,
            ..self
        }
    }

    /// The input with a character at the cursor, which moves on by one byte.
    pub open spec fn inserted(self, c: char) -> TuiView {
        TuiView {
            input: text::head_bytes(self.input, self.cursor as int) + seq![c] + text::tail_bytes(
                self.input,
                self.cursor as int,
            ),
            cursor: (self.cursor + 1) as usize,
            ..self
        }
    }

    /// The interface after the input was entered: it goes into the history
    /// unless it is blank or the same as the last line there.
    pub open spec fn entered(self) -> TuiView {
        TuiView {
            input: Seq::empty(),
            cursor: 0,
            history: if text::trimmed(self.input).len() > 0 && (self.history.len() == 0
                || self.history.last() != self.input) {
                self.history.push(self.input)
            } else {
                self.history
            },
            history_idx: None,
            scratch: Seq::empty(),
            ..self
        }
    }

    /// Whether the input asks for the help pop-up.
    pub open spec fn asks_help(self) -> bool {
        text::trimmed(self.input) == "/help"@ || text::trimmed(self.input) == "/?"@
    }

    /// Whether the input asks for the lineup pop-up.
    pub open spec fn asks_lineup(self) -> bool {
        text::trimmed(self.input) == "/lineup show"@ || text::trimmed(self.input) == "/lineup"@
    }

    /// Whether the input asks for the sequence-memory pop-up.
    pub open spec fn asks_slots(self) -> bool {
        text::trimmed(self.input) == "/slot"@
    }

    /// Whether the input asks for a pop-up.
    pub open spec fn asks_popup(self) -> bool {
        self.asks_help() || self.asks_lineup() || self.asks_slots()
    }

    /// The enter key in the input. The sequence-memory pop-up opens on the
    /// selected slot, or the first.
    pub open spec fn enter_keyed(self, s: StateView) -> TuiView {
        if self.asks_help() {
            TuiView { show_help: true, help_scroll: 0, ..self.entered() }
        } else if self.asks_lineup() {
            TuiView { show_lineup: true, lineup_scroll: 0, ..self.entered() }
        } else if self.asks_slots() {
            TuiView {
                show_slots: Some(
                    SlotBrowse {
                        slot: match s.selected_slot {
                            Some(n) => n,
                            None => 1,
                        },
                        viewing: false,
                        scroll: 0,
                    },
                ),
                ..self.entered()
            }
        } else if command::command_of(self.input) is Quit {
            TuiView { quit: true, ..self.entered() }
        } else {
            self.entered()
        }
    }

    /// The lane that a character typed into the empty input of a running race
    /// touches: a digit, 0 for lane 10.
    pub open spec fn digit_lane(self, s: StateView, c: char) -> Option<u8> {
        if self.input.len() == 0 && text::is_digit(c) && s.in_progress is Some {
            Some(
                if c == '0' {
                    10
                } else {
                    (c as u8 - 48) as u8
                },
            )
        } else {
            None
        }
    }

    /// A key in the input.
    pub open spec fn input_keyed(self, s: StateView, ev: KeyEvent) -> TuiView {
        match ev.key {
            Key::Esc => TuiView { quit: true, ..self },
            Key::Tab => self.tree_focused(tree::tree_rows(s, self).len() as int),
            Key::Enter => self.enter_keyed(s),
            Key::Backspace => if self.cursor > 0 {
                self.removed_at(self.cursor - 1)
            } else {
                self
            },
            Key::Delete => if self.cursor < text::byte_len(self.input) {
                self.removed_at(self.cursor as int)
            } else {
                self
            },
            Key::Left => if self.cursor > 0 {
                TuiView { cursor: (self.cursor - 1) as usize, ..self }
            } else {
                self
            },
            Key::Right => if self.cursor < text::byte_len(self.input) {
                TuiView { cursor: (self.cursor + 1) as usize, ..self }
            } else {
                self
            },
            Key::Home => TuiView { cursor: 0, ..self },
            Key::End => TuiView { cursor: text::byte_len(self.input) as usize, ..self },
            Key::Up => self.history_up(),
            Key::Down => self.history_down(),
            Key::Char(c) => if ev.control || ev.alt || self.digit_lane(s, c) is Some {
                self
            } else {
                self.inserted(c)
            },
            _ => self,
        }
    }

    /// Whether a pop-up is open.
    pub open spec fn modal(self) -> bool {
        self.show_help || self.show_results is Some || self.show_lineup || self.show_slots is Some
    }

    /// Whether an event is a key for the input.
    pub open spec fn reaches_input(self, ev: KeyEvent) -> bool {
        ev.pressed && !self.modal() && self.focus == Focus::Input && !ev.interrupts()
    }

    /// The interface after an event on a terminal of `term_h` rows.
    pub open spec fn keyed(self, s: StateView, ev: KeyEvent, term_h: u16) -> TuiView {
        if !ev.pressed {
            self
        } else if ev.interrupts() {
            TuiView { quit: true, ..self }
        } else if self.show_help {
            TuiView { show_help: false, help_scroll: 0, ..self }
        } else if ev.key == Key::F(1) {
            self.help_opened()
        } else if self.show_results is Some {
            TuiView { show_results: None, ..self }
        } else if self.show_lineup {
            self.lineup_keyed(
                ev.key,
                screen::max_scroll(
                    screen::cells(popups::lineup_lines(s).len() as int),
                    term_h,
                    7,
                ),
            )
        } else if self.show_slots is Some {
            let b = self.show_slots->0;
            TuiView {
                show_slots: b.keyed(ev.key, slots::stored_limit(s, b.slot, term_h)),
                ..self
            }
        } else if self.focus == Focus::Tree {
            self.tree_keyed(tree::tree_rows(s, self), ev.key)
        } else {
            self.input_keyed(s, ev)
        }
    }

    /// The line that an event runs as a command.
    pub open spec fn line_run(self, ev: KeyEvent) -> Option<Seq<char>> {
        if self.reaches_input(ev) && ev.key == Key::Enter && !self.asks_popup() {
            Some(self.input)
        } else {
            None
        }
    }

    /// The lane that an event touches.
    pub open spec fn lane_touched(self, s: StateView, ev: KeyEvent) -> Option<u8> {
        if self.reaches_input(ev) && !ev.control && !ev.alt {
            match ev.key {
                Key::Char(c) => self.digit_lane(s, c),
                _ => None,
            }
        } else {
            None
        }
    }

    /// The slot that an event loads from the sequence-memory pop-up.
    pub open spec fn slot_loaded(self, ev: KeyEvent) -> Option<u8> {
        if ev.pressed && ev.key == Key::Enter && !self.show_help && self.show_results is None
            && !self.show_lineup && self.show_slots is Some && self.show_slots->0.viewing {
            Some(self.show_slots->0.slot)
        } else {
            None
        }
    }

    /// Whether an event can be handled: the input is edited between characters
    /// only.
    pub open spec fn accepts(self, s: StateView, ev: KeyEvent) -> bool {
        self.reaches_input(ev) ==> match ev.key {
            Key::Backspace => self.cursor > 0 ==> text::at_boundary(self.input, self.cursor - 1),
            Key::Delete => self.cursor < text::byte_len(self.input) ==> text::at_boundary(
                self.input,
                self.cursor as int,
            ),
            Key::Char(c) => ev.control || ev.alt || self.digit_lane(s, c) is Some
                || text::at_boundary(self.input, self.cursor as int),
            _ => true,
        }
    }
}

impl StateView {
    /// The state after an event at `now_ns`.
    pub open spec fn keyed(self, a: TuiView, ev: KeyEvent, now_ns: u64) -> StateView {
        match (a.line_run(ev), a.lane_touched(self, ev), a.slot_loaded(ev)) {
            (Some(line), _, _) => self.ran(command::command_of(line), now_ns),
            (None, Some(lane), _) => self.touched(lane, now_ns),
            (None, None, Some(n)) => self.slot_used(n),
            (None, None, None) => self,
        }
    }

    /// What an event at `now_ns` reports.
    pub open spec fn keyed_effects(self, a: TuiView, ev: KeyEvent, now_ns: u64) -> Seq<EffectView> {
        match (a.line_run(ev), a.lane_touched(self, ev), a.slot_loaded(ev)) {
            (Some(line), _, _) => self.ran_effects(command::command_of(line), now_ns),
            (None, Some(lane), _) => self.touched_effects(lane, now_ns),
            (None, None, Some(n)) => self.slot_used_effects(n),
            (None, None, None) => Seq::empty(),
        }
    }
}

/// Index of the first row of the heat.
fn find_heat(rows: &Vec<TreeRow>, event_no: u16, heat: u8) -> (r: Option<usize>)
    ensures
        match r {
            Some(i) => heat_row_from(rows@, (event_no, heat), 0) == Some(i as int),
            None => heat_row_from(rows@, (event_no, heat), 0) is None,
        },
{
    let n: usize = rows.len();
    let mut i: usize = 0;
    while i < n
        invariant
            n == rows@.len(),
            i <= n,
            heat_row_from(rows@, (event_no, heat), 0) == heat_row_from(
                rows@,
                (event_no, heat),
                i as int,
            ),
        decreases n - i,
    {
        match rows[i] {
            TreeRow::Heat { event_no: e, heat: h, .. } => {
                if e == event_no && h == heat {
                    return Some(i);
                }
            },
            _ => {},
        }
        i = i + 1;
    }
    None
}

fn open_row(app: &mut TuiApp, row: TreeRow)
    ensures
        final(app)@ == old(app)@.row_opened(row),
{
    let ghost before = app@;
    match row {
        TreeRow::Event { event_no, .. } => {
            app.tree_expanded_events.insert(event_no);
            assert(app@ =~= before.row_opened(row));
        },
        TreeRow::Heat { event_no, heat, .. } => app.expand_heat(event_no, heat),
        TreeRow::Race { race_no, .. } => {
            app.show_results = Some(race_no);
            assert(app@ =~= before.row_opened(row));
        },
    }
}

fn close_row(app: &mut TuiApp, rows: &Vec<TreeRow>, row: TreeRow)
    ensures
        final(app)@ == old(app)@.row_closed(rows@, row),
{
    let ghost before = app@;
    match row {
        TreeRow::Event { event_no, .. } => {
            app.tree_expanded_events.remove(&event_no);
            assert(app@ =~= before.row_closed(rows@, row));
        },
        TreeRow::Heat { event_no, heat, .. } => app.collapse_heat(event_no, heat),
        TreeRow::Race { event_no, heat, .. } => {
            app.collapse_heat(event_no, heat);
            match find_heat(rows, event_no, heat) {
                Some(i) => {
                    app.tree_selected = i;
                },
                None => {},
            }
            assert(app@ =~= before.row_closed(rows@, row));
        },
    }
}

fn tree_key(app: &mut TuiApp, state: &State, key: Key)
    requires
        old(app)@.wf(),
        state.wf(),
    ensures
        final(app)@ == old(app)@.tree_keyed(tree::tree_rows(state@, old(app)@), key),
        final(app)@.wf(),
{
    let ghost before = app@;
    let rows: Vec<TreeRow> = tree::build_tree_rows(state, app);
    let last: usize = rows.len().saturating_sub(1);
    match key {
        Key::Tab | Key::Esc => {
            app.focus = Focus::Input;
        },
        Key::Up => {
            app.tree_selected = app.tree_selected.saturating_sub(1);
        },
        Key::Down => {
            if app.tree_selected < last {
                app.tree_selected = app.tree_selected + 1;
            }
        },
        Key::Home => {
            app.tree_selected = 0;
        },
        Key::End => {
            app.tree_selected = last;
        },
        Key::Right | Key::Enter => {
            if app.tree_selected < rows.len() {
                open_row(app, rows[app.tree_selected]);
            }
        },
        Key::Left => {
            if app.tree_selected < rows.len() {
                close_row(app, &rows, rows[app.tree_selected]);
            }
        },
        _ => {},
    }
    assert(app@ =~= before.tree_keyed(rows@, key));
}

fn show_line(app: &mut TuiApp, input: String, history_idx: Option<usize>)
    ensures
        final(app)@ == old(app)@.showing(input@, history_idx),
        final(app)@.cursor == text::byte_len(input@),
{
    let ghost before = app@;
    app.cursor = text::bytes_in(input.as_str());
    app.input = input;
    app.history_idx = history_idx;
    assert(app@ =~= before.showing(input@, history_idx));
}

fn go_up(app: &mut TuiApp)
    requires
        old(app)@.wf(),
    ensures
        final(app)@ == old(app)@.history_up(),
        final(app)@.wf(),
{
    let ghost before = app@;
    let n: usize = app.history.len();
    assert(before.history.len() == n);
    if n == 0 {
        return;
    }
    match app.history_idx {
        None => {
            app.scratch = app.input.clone();
            let line: String = app.history[n - 1].clone();
            assert(line@ == before.history.last());
            show_line(app, line, Some(n - 1));
        },
        Some(i) => {
            let to: usize = i.saturating_sub(1);
            let line: String = app.history[to].clone();
            assert(line@ == before.history[to as int]);
            show_line(app, line, Some(to));
        },
    }
    assert(app@ =~= before.history_up());
}

fn go_down(app: &mut TuiApp)
    requires
        old(app)@.wf(),
    ensures
        final(app)@ == old(app)@.history_down(),
        final(app)@.wf(),
{
    let ghost before = app@;
    let n: usize = app.history.len();
    assert(before.history.len() == n);
    match app.history_idx {
        None => {},
        Some(i) => {
            if i + 1 >= n {
                let line: String = app.scratch.clone();
                show_line(app, line, None);
                app.scratch = String::new();
                assert(app.scratch@ =~= Seq::<char>::empty());
            } else {
                let line: String = app.history[i + 1].clone();
                assert(line@ == before.history[i + 1]);
                show_line(app, line, Some(i + 1));
            }
        },
    }
    assert(app@ =~= before.history_down());
}

fn remove_at(app: &mut TuiApp, at: usize)
    requires
        old(app)@.wf(),
        text::at_boundary(old(app)@.input, at as int),
        at < text::byte_len(old(app)@.input),
    ensures
        final(app)@ == old(app)@.removed_at(at as int),
        final(app)@.wf(),
{
    let ghost before = app@;
    let (head, tail) = text::cut(app.input.as_str(), at);
    proof {
        text::law_cut_keeps_the_text(before.input, at as int);
        text::lemma_encode_concat(head@, tail@.skip(1));
    }
    let n: usize = tail.as_str().unicode_len();
    assert(n > 0) by {
        if tail@.len() == 0 {
            assert(vstd::utf8::encode_utf8(tail@) =~= Seq::<u8>::empty());
        }
    }
    let rest: &str = tail.as_str().substring_char(1, n);
    assert(rest@ =~= tail@.skip(1));
    let mut input: String = head;
    input.append(rest);
    app.input = input;
    app.cursor = at;
    assert(app@ =~= before.removed_at(at as int));
}

fn insert_char(app: &mut TuiApp, c: char)
    requires
        old(app)@.wf(),
        text::at_boundary(old(app)@.input, old(app)@.cursor as int),
    ensures
        final(app)@ == old(app)@.inserted(c),
        final(app)@.wf(),
{
    let ghost before = app@;
    let (head, tail) = text::cut(app.input.as_str(), app.cursor);
    proof {
        text::law_cut_keeps_the_text(before.input, before.cursor as int);
        text::lemma_encode_concat(head@, seq![c]);
        text::lemma_encode_concat(head@ + seq![c], tail@);
        text::lemma_char_bytes(c);
        assert(head@.push(c) =~= head@ + seq![c]);
    }
    let mut input: String = head;
    input.push(c);
    input.append(tail.as_str());
    let len: usize = text::bytes_in(input.as_str());
    app.input = input;
    app.cursor = app.cursor + 1;
    assert(app@ =~= before.inserted(c));
}

fn same_line(a: &str, b: &str) -> (r: bool)
    ensures
        r == (a@ == b@),
{
    let chars: Vec<char> = text::to_chars(a);
    text::same_text(chars.as_slice(), b)
}

fn enter(app: &mut TuiApp, state: &mut State, now_ns: u64, out: &mut Vec<Effect>)
    requires
        old(app)@.wf(),
        old(state).wf(),
    ensures
        final(app)@ == old(app)@.enter_keyed(old(state)@),
        final(app)@.wf(),
        final(state).wf(),
        old(app)@.asks_popup() ==> {
            &&& final(state)@ == old(state)@
            &&& output::effects(final(out)@) == output::effects(old(out)@)
        },
        !old(app)@.asks_popup() ==> {
            &&& final(state)@ == old(state)@.ran(command::command_of(old(app)@.input), now_ns)
            &&& output::effects(final(out)@) == output::effects(old(out)@) + old(
                state,
            )@.ran_effects(command::command_of(old(app)@.input), now_ns)
        },
{
    let ghost before = app@;
    let ghost s0 = state@;
    let line: String = app.input.clone();
    let chars: Vec<char> = text::to_chars(line.as_str());
    let t: Vec<char> = text::trim(chars.as_slice());
    app.input = String::new();
    app.cursor = 0;
    if t.len() > 0 {
        let n: usize = app.history.len();
        assert(before.history.len() == n);
        let repeated: bool = n > 0 && same_line(app.history[n - 1].as_str(), line.as_str());
        if !repeated {
            let ghost history = app.history@;
            app.history.push(line.clone());
            assert(text::texts(app.history@) =~= text::texts(history).push(line@));
        }
    }
    app.history_idx = None;
    app.scratch = String::new();
    assert(app.input@ =~= Seq::<char>::empty());
    assert(app@ =~= before.entered());
    if text::same_text(t.as_slice(), "/help") || text::same_text(t.as_slice(), "/?") {
        app.show_help = true;
        app.help_scroll = 0;
        assert(app@ =~= before.enter_keyed(s0));
        return;
    }
    if text::same_text(t.as_slice(), "/lineup show") || text::same_text(t.as_slice(), "/lineup") {
        app.show_lineup = true;
        app.lineup_scroll = 0;
        assert(app@ =~= before.enter_keyed(s0));
        return;
    }
    if text::same_text(t.as_slice(), "/slot") {
        let slot: u8 = match state.selected_slot {
            Some(n) => n,
            None => 1,
        };
        app.show_slots = Some(SlotBrowse { slot, viewing: false, scroll: 0 });
        assert(app@ =~= before.enter_keyed(s0));
        return;
    }
    let keep: bool = repl::handle_command(state, line.as_str(), now_ns, out);
    if !keep {
        app.quit = true;
    }
    assert(app@ =~= before.enter_keyed(s0));
}

fn digit_lane_of(app: &TuiApp, state: &State, c: char) -> (r: Option<u8>)
    ensures
        r == app@.digit_lane(state@, c),
{
    if app.input.as_str().is_empty() && '0' <= c && c <= '9' && state.in_progress.is_some() {
        let lane: u8 = if c == '0' {
            10
        } else {
            c as u8 - 48
        };
        Some(lane)
    } else {
        None
    }
}

fn input_key(app: &mut TuiApp, state: &mut State, ev: KeyEvent, now_ns: u64, out: &mut Vec<Effect>)
    requires
        old(app)@.wf(),
        old(state).wf(),
        old(app)@.reaches_input(ev),
        old(app)@.accepts(old(state)@, ev),
    ensures
        final(app)@ == old(app)@.input_keyed(old(state)@, ev),
        final(app)@.wf(),
        final(state).wf(),
        final(state)@ == old(state)@.keyed(old(app)@, ev, now_ns),
        output::effects(final(out)@) == output::effects(old(out)@) + old(state)@.keyed_effects(
            old(app)@,
            ev,
            now_ns,
        ),
{
    let ghost before = app@;
    let ghost s0 = state@;
    let ghost out0 = output::effects(out@);
    assert(out0 + Seq::<EffectView>::empty() =~= out0);
    match ev.key {
        Key::Esc => {
            app.quit = true;
            assert(app@ =~= before.input_keyed(s0, ev));
        },
        Key::Tab => {
            let n: usize = tree::build_tree_rows(state, app).len();
            app.focus = Focus::Tree;
            if n == 0 {
                app.tree_selected = 0;
            } else if app.tree_selected >= n {
                app.tree_selected = n - 1;
            }
            assert(app@ =~= before.input_keyed(s0, ev));
        },
        Key::Enter => enter(app, state, now_ns, out),
        Key::Backspace => {
            if app.cursor > 0 {
                remove_at(app, app.cursor - 1);
            }
        },
        Key::Delete => {
            if app.cursor < text::bytes_in(app.input.as_str()) {
                remove_at(app, app.cursor);
            }
        },
        Key::Left => {
            if app.cursor > 0 {
                app.cursor = app.cursor - 1;
                assert(app@ =~= before.input_keyed(s0, ev));
            }
        },
        Key::Right => {
            if app.cursor < text::bytes_in(app.input.as_str()) {
                app.cursor = app.cursor + 1;
                assert(app@ =~= before.input_keyed(s0, ev));
            }
        },
        Key::Home => {
            app.cursor = 0;
            assert(app@ =~= before.input_keyed(s0, ev));
        },
        Key::End => {
            app.cursor = text::bytes_in(app.input.as_str());
            assert(app@ =~= before.input_keyed(s0, ev));
        },
        Key::Up => go_up(app),
        Key::Down => go_down(app),
        Key::Char(c) => {
            if !ev.control && !ev.alt {
                match digit_lane_of(app, state, c) {
                    Some(lane) => running::touch_lane(state, lane, now_ns, out),
                    None => insert_char(app, c),
                }
            }
        },
        _ => {},
    }
}

/// Handles an event at `now_ns` on a terminal of `term_h` rows.
pub fn handle_event(
    app: &mut TuiApp,
    state: &mut State,
    ev: KeyEvent,
    term_h: u16,
    now_ns: u64,
    out: &mut Vec<Effect>,
)
    requires
        old(app)@.wf(),
        old(state).wf(),
        old(app)@.accepts(old(state)@, ev),
    ensures
        final(app)@ == old(app)@.keyed(old(state)@, ev, term_h),
        final(app)@.wf(),
        final(state).wf(),
        final(state)@ == old(state)@.keyed(old(app)@, ev, now_ns),
        output::effects(final(out)@) == output::effects(old(out)@) + old(state)@.keyed_effects(
            old(app)@,
            ev,
            now_ns,
        ),
{
    let ghost before = app@;
    let ghost s0 = state@;
    let ghost out0 = output::effects(out@);
    assert(out0 + Seq::<EffectView>::empty() =~= out0);
    if !ev.pressed {
        return;
    }
    if ev.is_interrupt() {
        app.quit = true;
        assert(app@ =~= before.keyed(s0, ev, term_h));
    } else if app.show_help {
        app.show_help = false;
        app.help_scroll = 0;
        assert(app@ =~= before.keyed(s0, ev, term_h));
    } else if ev.asks_help() {
        app.show_help = true;
        app.help_scroll = 0;
        app.show_results = None;
        app.show_lineup = false;
        app.lineup_scroll = 0;
        app.show_slots = None;
        assert(app@ =~= before.keyed(s0, ev, term_h));
    } else if app.show_results.is_some() {
        app.show_results = None;
        assert(app@ =~= before.keyed(s0, ev, term_h));
    } else if app.show_lineup {
        match scroll_key(ev.key, app.lineup_scroll, popups::lineup_max_scroll(state, term_h)) {
            Some(at) => {
                app.lineup_scroll = at;
            },
            None => {
                app.show_lineup = false;
                app.lineup_scroll = 0;
            },
        }
        assert(app@ =~= before.keyed(s0, ev, term_h));
    } else {
        match app.show_slots {
            Some(b) => {
                let limit: u16 = slots::stored_max_scroll(state, b.slot, term_h);
                app.show_slots = browse_key(b, ev.key, limit);
                assert(app@ =~= before.keyed(s0, ev, term_h));
                match ev.key {
                    Key::Enter => {
                        if b.viewing {
                            repl::slot_use(state, b.slot, out);
                        }
                    },
                    _ => {},
                }
            },
            None => match app.focus {
                Focus::Tree => tree_key(app, state, ev.key),
                Focus::Input => input_key(app, state, ev, now_ns, out),
            },
        }
    }
}

/// Whether an event can be handled.
pub fn event_accepted(app: &TuiApp, state: &State, ev: KeyEvent) -> (r: bool)
    requires
        app@.wf(),
    ensures
        r == app@.accepts(state@, ev),
{
    let typing: bool = match app.focus {
        Focus::Input => true,
        Focus::Tree => false,
    };
    if !ev.pressed || app.show_help || app.show_results.is_some() || app.show_lineup
        || app.show_slots.is_some() || !typing || ev.is_interrupt() {
        return true;
    }
    assert(app@.reaches_input(ev));
    match ev.key {
        Key::Backspace => app.cursor == 0 || text::is_boundary(
            app.input.as_str(),
            app.cursor - 1,
        ),
        Key::Delete => app.cursor >= text::bytes_in(app.input.as_str()) || text::is_boundary(
            app.input.as_str(),
            app.cursor,
        ),
        Key::Char(c) => ev.control || ev.alt || digit_lane_of(app, state, c).is_some()
            || text::is_boundary(app.input.as_str(), app.cursor),
        _ => true,
    }
}

/// Ctrl-C and Ctrl-D quit from anywhere and leave the emulator's state as it is.
pub proof fn law_interrupt_quits_from_anywhere(
    s: StateView,
    a: TuiView,
    ev: KeyEvent,
    term_h: u16,
    now_ns: u64,
)
    requires
        ev.pressed,
        ev.interrupts(),
    ensures
        a.keyed(s, ev, term_h).quit,
        s.keyed(a, ev, now_ns) == s,
        a.accepts(s, ev),
{
}

/// While a pop-up is open, or the tree has the focus, no key reaches the
/// emulator: its state stays as it is and nothing is reported. The one exception
/// is the key that loads a slot from the sequence-memory pop-up.
pub proof fn law_only_the_input_drives_the_emulator(
    s: StateView,
    a: TuiView,
    ev: KeyEvent,
    now_ns: u64,
)
    requires
        a.modal() || a.focus == Focus::Tree || !ev.pressed,
        a.slot_loaded(ev) is None,
    ensures
        s.keyed(a, ev, now_ns) == s,
        s.keyed_effects(a, ev, now_ns) == Seq::<EffectView>::empty(),
        a.accepts(s, ev),
{
}

/// F1 opens the help from anywhere, whichever pane has the focus and whichever
/// other pop-up is open, and leaves the emulator's state as it is.
pub proof fn law_f1_opens_the_help_from_anywhere(
    s: StateView,
    a: TuiView,
    ev: KeyEvent,
    term_h: u16,
    now_ns: u64,
)
    requires
        ev.pressed,
        ev.key == Key::F(1),
        !a.show_help,
    ensures
        a.accepts(s, ev),
        a.keyed(s, ev, term_h).show_help,
        a.keyed(s, ev, term_h) == a.help_opened(),
        !a.modal() ==> a.keyed(s, ev, term_h).focus == a.focus && a.keyed(s, ev, term_h).input
            == a.input,
        s.keyed(a, ev, now_ns) == s,
        s.keyed_effects(a, ev, now_ns) == Seq::<EffectView>::empty(),
{
}

/// Any key closes the help, but for the two that quit; it does nothing else.
pub proof fn law_any_key_closes_the_help(
    s: StateView,
    a: TuiView,
    ev: KeyEvent,
    term_h: u16,
    now_ns: u64,
)
    requires
        ev.pressed,
        !ev.interrupts(),
        a.show_help,
    ensures
        a.accepts(s, ev),
        a.keyed(s, ev, term_h) == (TuiView { show_help: false, help_scroll: 0, ..a }),
        s.keyed(a, ev, now_ns) == s,
        s.keyed_effects(a, ev, now_ns) == Seq::<EffectView>::empty(),
{
}

/// Any key closes the results pop-up, but for the two that quit; it does
/// nothing else, except that F1 opens the help.
pub proof fn law_any_key_closes_the_results(
    s: StateView,
    a: TuiView,
    ev: KeyEvent,
    term_h: u16,
    now_ns: u64,
)
    requires
        ev.pressed,
        !ev.interrupts(),
        !a.show_help,
        a.show_results is Some,
    ensures
        a.accepts(s, ev),
        a.keyed(s, ev, term_h).show_results is None,
        ev.key != Key::F(1) ==> a.keyed(s, ev, term_h) == (TuiView { show_results: None, ..a }),
        ev.key == Key::F(1) ==> a.keyed(s, ev, term_h) == a.help_opened(),
        s.keyed(a, ev, now_ns) == s,
        s.keyed_effects(a, ev, now_ns) == Seq::<EffectView>::empty(),
{
}

/// While the lineup is open, a key that does not scroll closes it, and one that
/// does keeps it open between its first line and its limit.
pub proof fn law_lineup_is_scrolled_or_closed(a: TuiView, key: Key, limit: u16)
    requires
        a.show_lineup,
        a.lineup_scroll <= limit,
    ensures
        scrolled_to(key, a.lineup_scroll, limit) is None ==> !a.lineup_keyed(
            key,
            limit,
        ).show_lineup,
        scrolled_to(key, a.lineup_scroll, limit) is Some ==> a.lineup_keyed(key, limit).show_lineup,
        a.lineup_keyed(key, limit).lineup_scroll <= limit,
{
}

/// In the list of slots the enter key shows the lineup of the slot that the
/// pop-up is on, and a second one loads it as `/slot use` does and closes the
/// pop-up.
pub proof fn law_enter_twice_loads_a_slot(
    s: StateView,
    a: TuiView,
    ev: KeyEvent,
    b: SlotBrowse,
    term_h: u16,
    now_ns: u64,
)
    requires
        ev.pressed,
        ev.key == Key::Enter,
        a.show_slots == Some(b),
        !b.viewing,
        !a.show_help,
        a.show_results is None,
        !a.show_lineup,
    ensures
        ({
            let viewed = a.keyed(s, ev, term_h);
            &&& viewed.show_slots == Some(SlotBrowse { viewing: true, scroll: 0, ..b })
            &&& s.keyed(a, ev, now_ns) == s
            &&& viewed.keyed(s, ev, term_h) == (TuiView { show_slots: None, ..a })
            &&& s.keyed(viewed, ev, now_ns) == s.slot_used(b.slot)
            &&& s.keyed_effects(viewed, ev, now_ns) == s.slot_used_effects(b.slot)
        }),
{
}

/// In the sequence-memory pop-up escape and backspace go back: from a slot's
/// lineup to the list, on the same slot, and from the list to no pop-up. No slot
/// is loaded.
pub proof fn law_escape_goes_back(
    s: StateView,
    a: TuiView,
    ev: KeyEvent,
    b: SlotBrowse,
    term_h: u16,
    now_ns: u64,
)
    requires
        ev.pressed,
        ev.key == Key::Esc || ev.key == Key::Backspace,
        a.show_slots == Some(b),
        !a.show_help,
        a.show_results is None,
        !a.show_lineup,
    ensures
        a.keyed(s, ev, term_h) == (TuiView {
            show_slots: if b.viewing {
                Some(SlotBrowse { viewing: false, scroll: 0, ..b })
            } else {
                None
            },
            ..a
        }),
        s.keyed(a, ev, now_ns) == s,
        s.keyed_effects(a, ev, now_ns) == Seq::<EffectView>::empty(),
{
}

/// Up and down walk the list of slots one by one and stop at its ends.
pub proof fn law_slots_are_walked(b: SlotBrowse, limit: u16)
    requires
        1 <= b.slot <= NUM_SLOTS,
        !b.viewing,
    ensures
        b.keyed(Key::Down, limit) == Some(
            if b.slot < NUM_SLOTS {
                SlotBrowse { slot: (b.slot + 1) as u8, ..b }
            } else {
                b
            },
        ),
        b.keyed(Key::Up, limit) == Some(
            if b.slot > 1 {
                SlotBrowse { slot: (b.slot - 1) as u8, ..b }
            } else {
                b
            },
        ),
{
}

/// The tab key moves the focus to the tree and back.
pub proof fn law_tab_moves_the_focus(s: StateView, a: TuiView, ev: KeyEvent, term_h: u16)
    requires
        a.wf(),
        ev.pressed,
        ev.key == Key::Tab,
        !a.modal(),
    ensures
        a.keyed(s, ev, term_h).focus != a.focus,
        a.keyed(s, ev, term_h).keyed(s, ev, term_h).focus == a.focus,
        a.keyed(s, ev, term_h).input == a.input,
{
}

/// Going up in the history from a new input shows the last line entered, and
/// going down again brings the input back.
pub proof fn law_history_returns_to_the_input(a: TuiView)
    requires
        a.wf(),
        a.history_idx is None,
        0 < a.history.len() <= usize::MAX,
    ensures
        a.history_up().input == a.history.last(),
        a.history_up().history_down().input == a.input,
        a.history_up().history_down().history_idx is None,
        a.history_up().history_down().history == a.history,
{
}

/// Going up in the history and down again from a line that is not its first one
/// shows that line again.
pub proof fn law_history_down_undoes_up(a: TuiView, i: usize)
    requires
        a.wf(),
        a.history_idx == Some(i),
        i > 0,
    ensures
        a.history_up().history_down().input == a.history[i as int],
        a.history_up().history_down().history_idx == Some(i),
{
}

impl TuiView {
    /// The interface after the same event `n` times.
    pub open spec fn keyed_times(self, s: StateView, ev: KeyEvent, term_h: u16, n: nat) -> TuiView
        decreases n,
    {
        if n == 0 {
            self
        } else {
            self.keyed_times(s, ev, term_h, (n - 1) as nat).keyed(s, ev, term_h)
        }
    }
}

/// Any number of presses of the up key in the input, and as many of the down key
/// after them, bring back the input that was being edited, with the cursor
/// behind it; the history stays. On the way up the lines entered are shown from
/// the last one on, and the first one from there on.
pub proof fn law_history_gives_the_input_back(
    s: StateView,
    a: TuiView,
    up: KeyEvent,
    down: KeyEvent,
    term_h: u16,
    k: nat,
)
    requires
        a.wf(),
        a.reaches_input(up),
        up.key == Key::Up,
        down.pressed,
        down.key == Key::Down,
        a.history_idx is None,
        0 < a.history.len() <= usize::MAX,
        k > 0,
    ensures
        ({
            let shown = a.keyed_times(s, up, term_h, k);
            let back = shown.keyed_times(s, down, term_h, k);
            &&& shown.input == a.history[screen::max_int(a.history.len() - k, 0)]
            &&& back.input == a.input
            &&& back.cursor == text::byte_len(a.input) as usize
            &&& back.history_idx is None
            &&& back.history == a.history
            &&& back == (TuiView { scratch: Seq::empty(), ..a.showing(a.input, None) })
        }),
{
    lemma_up_times(s, a, up, term_h, k);
    lemma_down_times(s, a, up, down, term_h, k, k);
}

/// The interface after `n` steps up, or down, in the history.
spec fn walked(a: TuiView, up: bool, n: nat) -> TuiView
    decreases n,
{
    if n == 0 {
        a
    } else if up {
        walked(a, up, (n - 1) as nat).history_up()
    } else {
        walked(a, up, (n - 1) as nat).history_down()
    }
}

/// The interface showing line `i` of the history, with its input put aside.
spec fn at_line(a: TuiView, i: int) -> TuiView {
    (TuiView { scratch: a.input, ..a }).showing(a.history[i], Some(i as usize))
}

proof fn lemma_keyed_times(
    s: StateView,
    a: TuiView,
    ev: KeyEvent,
    term_h: u16,
    up: bool,
    n: nat,
)
    requires
        a.reaches_input(ev),
        up ==> ev.key == Key::Up,
        !up ==> ev.key == Key::Down,
    ensures
        a.keyed_times(s, ev, term_h, n) == walked(a, up, n),
        walked(a, up, n).reaches_input(ev),
    decreases n,
{
    if n > 0 {
        let before = a.keyed_times(s, ev, term_h, (n - 1) as nat);
        lemma_keyed_times(s, a, ev, term_h, up, (n - 1) as nat);
        law_history_keys(s, before, ev, term_h);
    }
}

proof fn lemma_up_times(s: StateView, a: TuiView, up: KeyEvent, term_h: u16, k: nat)
    requires
        a.reaches_input(up),
        up.key == Key::Up,
        a.history_idx is None,
        0 < a.history.len() <= usize::MAX,
        k > 0,
    ensures
        a.keyed_times(s, up, term_h, k) == at_line(a, screen::max_int(a.history.len() - k, 0)),
{
    lemma_keyed_times(s, a, up, term_h, true, k);
    lemma_walked_up(a, k);
}

proof fn lemma_down_times(
    s: StateView,
    a: TuiView,
    up: KeyEvent,
    down: KeyEvent,
    term_h: u16,
    k: nat,
    n: nat,
)
    requires
        a.reaches_input(up),
        up.key == Key::Up,
        down.pressed,
        down.key == Key::Down,
        a.history_idx is None,
        0 < a.history.len() <= usize::MAX,
        k > 0,
    ensures
        ({
            let from = screen::max_int(a.history.len() - k, 0);
            a.keyed_times(s, up, term_h, k).keyed_times(s, down, term_h, n) == if from + n
                < a.history.len() {
                at_line(a, from + n)
            } else {
                TuiView { scratch: Seq::empty(), ..a.showing(a.input, None) }
            }
        }),
{
    let shown = a.keyed_times(s, up, term_h, k);
    lemma_keyed_times(s, a, up, term_h, true, k);
    lemma_up_times(s, a, up, term_h, k);
    assert(shown.reaches_input(down));
    lemma_keyed_times(s, shown, down, term_h, false, n);
    lemma_walked_down(a, k, n);
}

proof fn lemma_walked_up(a: TuiView, k: nat)
    requires
        a.history_idx is None,
        0 < a.history.len() <= usize::MAX,
        k > 0,
    ensures
        walked(a, true, k) == at_line(a, screen::max_int(a.history.len() - k, 0)),
    decreases k,
{
    if k == 1 {
        assert(walked(a, true, 0) == a);
    } else {
        lemma_walked_up(a, (k - 1) as nat);
    }
}

proof fn lemma_walked_down(a: TuiView, k: nat, n: nat)
    requires
        a.history_idx is None,
        0 < a.history.len() <= usize::MAX,
        k > 0,
    ensures
        ({
            let from = screen::max_int(a.history.len() - k, 0);
            walked(walked(a, true, k), false, n) == if from + n < a.history.len() {
                at_line(a, from + n)
            } else {
                TuiView { scratch: Seq::empty(), ..a.showing(a.input, None) }
            }
        }),
    decreases n,
{
    lemma_walked_up(a, k);
    if n > 0 {
        lemma_walked_down(a, k, (n - 1) as nat);
    }
}

/// Backspace undoes the typing of an ASCII character: input and cursor are what
/// they were.
pub proof fn law_backspace_undoes_typing(a: TuiView, c: char)
    requires
        a.wf(),
        text::at_boundary(a.input, a.cursor as int),
        (c as u32) < 128,
        a.cursor < usize::MAX,
    ensures
        text::at_boundary(a.inserted(c).input, a.inserted(c).cursor - 1),
        a.inserted(c).removed_at(a.inserted(c).cursor - 1) == a,
{
    let i = a.cursor as int;
    let head = text::head_bytes(a.input, i);
    let tail = text::tail_bytes(a.input, i);
    text::law_cut_keeps_the_text(a.input, i);
    text::law_parts_are_cut_apart(head, seq![c] + tail);
    assert(head + seq![c] + tail =~= head + (seq![c] + tail));
    assert((seq![c] + tail).skip(1) =~= tail);
    assert(a.inserted(c).removed_at(i) =~= a);
}

/// After an ASCII character was typed between characters, the cursor is between
/// characters again.
pub proof fn law_typing_keeps_the_cursor_between_characters(a: TuiView, c: char)
    requires
        a.wf(),
        text::at_boundary(a.input, a.cursor as int),
        (c as u32) < 128,
        a.cursor < usize::MAX,
    ensures
        text::at_boundary(a.inserted(c).input, a.inserted(c).cursor as int),
{
    let i = a.cursor as int;
    let head = text::head_bytes(a.input, i);
    let tail = text::tail_bytes(a.input, i);
    text::law_cut_keeps_the_text(a.input, i);
    text::lemma_encode_concat(head, seq![c]);
    text::lemma_char_bytes(c);
    text::law_parts_are_cut_apart(head + seq![c], tail);
}

/// In a running race a digit key in the empty input touches the lane with that
/// number, lane 10 for 0, at once; the input stays empty.
pub proof fn law_digit_touches_its_lane(
    s: StateView,
    a: TuiView,
    ev: KeyEvent,
    c: char,
    term_h: u16,
    now_ns: u64,
)
    requires
        s.wf(),
        a.wf(),
        s.in_progress is Some,
        a.input.len() == 0,
        text::is_digit(c),
        ev.key == Key::Char(c),
        !ev.control && !ev.alt,
        a.reaches_input(ev),
    ensures
        s.keyed(a, ev, now_ns) == s.touched(
            if c == '0' {
                10
            } else {
                (c as u8 - 48) as u8
            },
            now_ns,
        ),
        a.keyed(s, ev, term_h) == a,
{
}

/// The left key on a race of the tree collapses the race's heat and selects the
/// heat's row.
pub proof fn law_left_on_a_race_goes_to_its_heat(
    s: StateView,
    a: TuiView,
    k: (u16, u8),
)
    requires
        s.wf(),
        a.wf(),
        a.tree_selected < tree::tree_rows(s, a).len() <= usize::MAX,
        tree::is_race_of(tree::tree_rows(s, a)[a.tree_selected as int], k),
    ensures
        ({
            let after = a.tree_keyed(tree::tree_rows(s, a), Key::Left);
            &&& after.tree_selected < tree::tree_rows(s, after).len()
            &&& tree::tree_rows(s, after)[after.tree_selected as int] == tree::heat_row(
                s,
                after,
                k,
            )
            &&& !after.expanded_heats.contains(k)
        }),
{
    let rows = tree::tree_rows(s, a);
    let b = tree::buckets(s);
    tree::lemma_buckets(s);
    tree::lemma_rows_before(s, a, b, b.len(), k, a.tree_selected as int);
    let m = choose|m: int| 0 <= m < b.len() && #[trigger] b[m] == k;
    let after = a.tree_keyed(rows, Key::Left);
    let p = tree::heat_position(s, a, b, m);
    tree::lemma_heat_position(s, a, m);
    assert(rows[p] == tree::heat_row(s, a, k));
    lemma_heat_row_found(s, a, m);
    assert(after.tree_selected == p);
    tree::lemma_rows_elsewhere(s, a, after, b, m as nat, k);
    tree::lemma_heat_position(s, after, m);
}

proof fn lemma_first_heat_row(rows: Seq<TreeRow>, k: (u16, u8), i: int, p: int)
    requires
        0 <= i <= p < rows.len(),
        tree::is_heat(rows[p], k),
        forall|x: int| i <= x < p ==> !tree::is_heat(#[trigger] rows[x], k),
    ensures
        heat_row_from(rows, k, i) == Some(p),
    decreases p - i,
{
    if i < p {
        assert(!tree::is_heat(rows[i], k));
        lemma_first_heat_row(rows, k, i + 1, p);
    }
}

proof fn lemma_heat_row_found(s: StateView, a: TuiView, m: int)
    requires
        0 <= m < tree::buckets(s).len(),
        a.expanded_events.contains(tree::buckets(s)[m].0),
    ensures
        heat_row_from(tree::tree_rows(s, a), tree::buckets(s)[m], 0) == Some(
            tree::heat_position(s, a, tree::buckets(s), m),
        ),
{
    let b = tree::buckets(s);
    let k = b[m];
    let rows = tree::tree_rows(s, a);
    let p = tree::heat_position(s, a, b, m);
    tree::lemma_buckets(s);
    tree::lemma_heat_position(s, a, m);
    let before = tree::rows_before(s, a, b, m as nat);
    let upto = tree::rows_before(s, a, b, (m + 1) as nat);
    let own = tree::rows_at(s, a, b, m);
    assert(upto == before + own);
    tree::lemma_rows_grow(s, a, b, (m + 1) as nat, b.len());
    assert forall|x: int| 0 <= x < p implies !tree::is_heat(#[trigger] rows[x], k) by {
        assert(rows[x] == upto[x]);
        if x < before.len() {
            if tree::is_heat(before[x], k) {
                tree::lemma_rows_before(s, a, b, m as nat, k, x);
                let j = choose|j: int| 0 <= j < m && #[trigger] b[j] == k;
                assert(b[j] != b[m]);
            }
        } else {
            assert(own[x - before.len()] == tree::event_row(s, a, b, m));
        }
    }
    lemma_first_heat_row(rows, k, 0, p);
}

/// In an input of ASCII characters every key can be handled.
pub proof fn law_ascii_input_can_be_edited(s: StateView, a: TuiView, ev: KeyEvent)
    requires
        a.wf(),
        vstd::utf8::is_ascii_chars(a.input),
    ensures
        a.accepts(s, ev),
{
    lemma_ascii_boundary(a.input, a.cursor as int);
    if a.cursor > 0 {
        lemma_ascii_boundary(a.input, a.cursor - 1);
    }
}

proof fn lemma_ascii_boundary(s: Seq<char>, i: int)
    requires
        vstd::utf8::is_ascii_chars(s),
        0 <= i <= text::byte_len(s),
    ensures
        text::at_boundary(s, i),
{
    let b = vstd::utf8::encode_utf8(s);
    vstd::utf8::encode_utf8_valid_utf8(s);
    vstd::utf8::is_ascii_chars_encode_utf8(s);
    if i == b.len() {
        vstd::utf8::is_char_boundary_start_end_of_seq(b);
    } else {
        assert(b[i] == s[i] as u8);
        vstd::utf8::is_ascii_chars_nat_bound(s);
        vstd::utf8::is_char_boundary_iff_not_is_continuation_byte(b, i);
    }
}

/// The keys that scroll: down and j by a line, page down and the blank by eight,
/// and end to the limit, none beyond it; up and k by a line, page up by eight,
/// and home to the first line. No other key does.
pub proof fn law_scroll_keys(scroll: u16, limit: u16, c: char)
    requires
        scroll <= limit,
    ensures
        scrolled_to(Key::Down, scroll, limit) == Some(
            if scroll < limit {
                (scroll + 1) as u16
            } else {
                limit
            },
        ),
        scrolled_to(Key::PageDown, scroll, limit) == Some(
            if scroll + 8 < limit {
                (scroll + 8) as u16
            } else {
                limit
            },
        ),
        scrolled_to(Key::Up, scroll, limit) == Some(
            if scroll > 0 {
                (scroll - 1) as u16
            } else {
                0
            },
        ),
        scrolled_to(Key::PageUp, scroll, limit) == Some(
            if scroll > 8 {
                (scroll - 8) as u16
            } else {
                0
            },
        ),
        scrolled_to(Key::Home, scroll, limit) == Some(0u16),
        scrolled_to(Key::End, scroll, limit) == Some(limit),
        scrolled_to(Key::Char('j'), scroll, limit) == scrolled_to(Key::Down, scroll, limit),
        scrolled_to(Key::Char('k'), scroll, limit) == scrolled_to(Key::Up, scroll, limit),
        scrolled_to(Key::Char(' '), scroll, limit) == scrolled_to(Key::PageDown, scroll, limit),
        c != 'j' && c != 'k' && c != ' ' ==> scrolled_to(Key::Char(c), scroll, limit) is None,
        scrolled_to(Key::Enter, scroll, limit) is None,
        scrolled_to(Key::Esc, scroll, limit) is None,
        scrolled_to(Key::Tab, scroll, limit) is None,
        scrolled_to(Key::Backspace, scroll, limit) is None,
        scrolled_to(Key::Delete, scroll, limit) is None,
        scrolled_to(Key::Left, scroll, limit) is None,
        scrolled_to(Key::Right, scroll, limit) is None,
        scrolled_to(Key::Other, scroll, limit) is None,
{
}

/// While the lineup is open, a key scrolls it or closes it, and changes nothing
/// else.
pub proof fn law_lineup_takes_the_keys(
    s: StateView,
    a: TuiView,
    ev: KeyEvent,
    term_h: u16,
    now_ns: u64,
)
    requires
        ev.pressed,
        !ev.interrupts(),
        ev.key != Key::F(1),
        a.show_lineup,
        !a.show_help,
        a.show_results is None,
    ensures
        ({
            let limit = screen::max_scroll(
                screen::cells(popups::lineup_lines(s).len() as int),
                term_h,
                7,
            );
            &&& scrolled_to(ev.key, a.lineup_scroll, limit) matches Some(at) ==> a.keyed(
                s,
                ev,
                term_h,
            ) == (TuiView { lineup_scroll: at, ..a })
            &&& scrolled_to(ev.key, a.lineup_scroll, limit) is None ==> a.keyed(s, ev, term_h) == (
            TuiView { show_lineup: false, lineup_scroll: 0, ..a })
            &&& s.keyed(a, ev, now_ns) == s
        }),
{
}

/// A key that is not pressed, but repeated or released, does nothing.
pub proof fn law_only_presses_count(
    s: StateView,
    a: TuiView,
    ev: KeyEvent,
    term_h: u16,
    now_ns: u64,
)
    requires
        !ev.pressed,
    ensures
        a.keyed(s, ev, term_h) == a,
        s.keyed(a, ev, now_ns) == s,
        s.keyed_effects(a, ev, now_ns).len() == 0,
{
}

/// With the focus on the tree, up and down move the selection by a row, home
/// and end to the first and the last row, and tab and escape give the focus
/// back; nothing goes beyond the rows, and no other key but enter and the side
/// arrows does anything.
pub proof fn law_tree_keys_move_the_selection(
    s: StateView,
    a: TuiView,
    ev: KeyEvent,
    term_h: u16,
    c: char,
)
    requires
        ev.pressed,
        !ev.interrupts(),
        ev.key != Key::F(1),
        !a.modal(),
        a.focus == Focus::Tree,
        tree::tree_rows(s, a).len() <= usize::MAX,
    ensures
        ({
            let t = a.keyed(s, ev, term_h);
            let n = tree::tree_rows(s, a).len() as int;
            let at = a.tree_selected as int;
            &&& ev.key == Key::Tab || ev.key == Key::Esc ==> t == (TuiView {
                focus: Focus::Input,
                ..a
            })
            &&& ev.key == Key::Up && at > 0 ==> t == (TuiView {
                tree_selected: (at - 1) as usize,
                ..a
            })
            &&& ev.key == Key::Up && at == 0 ==> t == a
            &&& ev.key == Key::Down && at + 1 < n ==> t == (TuiView {
                tree_selected: (at + 1) as usize,
                ..a
            })
            &&& ev.key == Key::Down && at + 1 >= n ==> t == a
            &&& ev.key == Key::Home ==> t == (TuiView { tree_selected: 0, ..a })
            &&& ev.key == Key::End && n > 0 ==> t == (TuiView {
                tree_selected: (n - 1) as usize,
                ..a
            })
            &&& ev.key == Key::End && n == 0 ==> t == (TuiView { tree_selected: 0, ..a })
            &&& ev.key == Key::Char(c) || ev.key == Key::Backspace || ev.key == Key::Delete
                || ev.key == Key::PageUp || ev.key == Key::PageDown || ev.key == Key::Other ==> t
                == a
        }),
{
}

/// With the focus on the tree, right and enter expand the selected event or
/// heat, or open the results of the selected race, and left collapses the
/// selected event or heat.
pub proof fn law_tree_keys_open_and_close(s: StateView, a: TuiView, ev: KeyEvent, term_h: u16)
    requires
        ev.pressed,
        !a.modal(),
        a.focus == Focus::Tree,
        a.tree_selected < tree::tree_rows(s, a).len(),
    ensures
        ({
            let t = a.keyed(s, ev, term_h);
            let row = tree::tree_rows(s, a)[a.tree_selected as int];
            let opens = ev.key == Key::Right || ev.key == Key::Enter;
            &&& opens ==> match row {
                TreeRow::Event { event_no, .. } => t == (TuiView {
                    expanded_events: a.expanded_events.insert(event_no),
                    ..a
                }),
                TreeRow::Heat { event_no, heat, .. } => t == (TuiView {
                    expanded_heats: a.expanded_heats.insert((event_no, heat)),
                    ..a
                }),
                TreeRow::Race { race_no, .. } => t == (TuiView { show_results: Some(race_no), ..a }),
            }
            &&& ev.key == Key::Left ==> match row {
                TreeRow::Event { event_no, .. } => t == (TuiView {
                    expanded_events: a.expanded_events.remove(event_no),
                    ..a
                }),
                TreeRow::Heat { event_no, heat, .. } => t == (TuiView {
                    expanded_heats: a.expanded_heats.remove((event_no, heat)),
                    ..a
                }),
                TreeRow::Race { event_no, heat, .. } => t == (TuiView {
                    expanded_heats: a.expanded_heats.remove((event_no, heat)),
                    tree_selected: t.tree_selected,
                    ..a
                }),
            }
        }),
{
}

/// The tab key gives the focus to the tree and keeps its selection on a row.
pub proof fn law_tab_selects_a_row(s: StateView, a: TuiView, ev: KeyEvent, term_h: u16)
    requires
        a.reaches_input(ev),
        ev.key == Key::Tab,
        tree::tree_rows(s, a).len() <= usize::MAX,
    ensures
        ({
            let t = a.keyed(s, ev, term_h);
            let n = tree::tree_rows(s, a).len() as int;
            &&& t == (TuiView { focus: Focus::Tree, tree_selected: t.tree_selected, ..a })
            &&& a.tree_selected < n ==> t.tree_selected == a.tree_selected
            &&& 0 < n <= a.tree_selected ==> t.tree_selected == n - 1
            &&& n == 0 ==> t.tree_selected == 0
        }),
{
}

/// In the input, left and right move the cursor by a byte, home and end to the
/// ends, none beyond them, and escape quits; nothing else changes, and the keys
/// without a meaning change nothing.
pub proof fn law_cursor_keys(s: StateView, a: TuiView, ev: KeyEvent, term_h: u16)
    requires
        a.wf(),
        a.reaches_input(ev),
        ev.key != Key::F(1),
        text::byte_len(a.input) <= usize::MAX,
    ensures
        ({
            let t = a.keyed(s, ev, term_h);
            let n = text::byte_len(a.input) as int;
            &&& ev.key == Key::Left ==> t == (TuiView {
                cursor: if a.cursor > 0 {
                    (a.cursor - 1) as usize
                } else {
                    0
                },
                ..a
            })
            &&& ev.key == Key::Right ==> t == (TuiView {
                cursor: if a.cursor < n {
                    (a.cursor + 1) as usize
                } else {
                    a.cursor
                },
                ..a
            })
            &&& ev.key == Key::Home ==> t == (TuiView { cursor: 0, ..a })
            &&& ev.key == Key::End ==> t == (TuiView { cursor: n as usize, ..a })
            &&& ev.key == Key::Esc ==> t == (TuiView { quit: true, ..a })
            &&& ev.key == Key::PageUp || ev.key == Key::PageDown || ev.key == Key::Other || (
            ev.key is F) ==> t == a
            &&& ev.key == Key::Backspace && a.cursor == 0 ==> t == a
            &&& ev.key == Key::Delete && a.cursor == n ==> t == a
            &&& ev.key is Char && (ev.control || ev.alt) ==> t == a
        }),
{
}

proof fn lemma_ascii_cut(s: Seq<char>, i: int)
    requires
        vstd::utf8::is_ascii_chars(s),
        0 <= i <= s.len(),
    ensures
        text::byte_len(s) == s.len(),
        text::head_bytes(s, i) == s.take(i),
        text::tail_bytes(s, i) == s.skip(i),
{
    vstd::utf8::is_ascii_chars_encode_utf8(s);
    assert forall|j: int| 0 <= j < s.take(i).len() implies s.take(i)[j] == s[j] by {}
    assert(vstd::utf8::is_ascii_chars(s.take(i)));
    vstd::utf8::is_ascii_chars_encode_utf8(s.take(i));
    text::law_parts_are_cut_apart(s.take(i), s.skip(i));
    assert(s.take(i) + s.skip(i) =~= s);
}

/// In an input of ASCII characters, a character that is typed is put in at the
/// cursor, which moves behind it; backspace takes out the character before the
/// cursor and delete the one behind it. Nothing else changes.
pub proof fn law_editing_keys(s: StateView, a: TuiView, ev: KeyEvent, c: char, term_h: u16)
    requires
        a.wf(),
        a.reaches_input(ev),
        vstd::utf8::is_ascii_chars(a.input),
        a.input.len() < usize::MAX,
    ensures
        ({
            let t = a.keyed(s, ev, term_h);
            let i = a.cursor as int;
            let n = a.input.len() as int;
            &&& ev.key == Key::Char(c) && !ev.control && !ev.alt && !(n == 0 && 48 <= c as int <= 57
                && s.in_progress is Some) ==> t == (TuiView {
                input: a.input.take(i) + seq![c] + a.input.skip(i),
                cursor: (i + 1) as usize,
                ..a
            })
            &&& ev.key == Key::Backspace && i > 0 ==> t == (TuiView {
                input: a.input.take(i - 1) + a.input.skip(i),
                cursor: (i - 1) as usize,
                ..a
            })
            &&& ev.key == Key::Delete && i < n ==> t == (TuiView {
                input: a.input.take(i) + a.input.skip(i + 1),
                ..a
            })
        }),
{
    vstd::utf8::is_ascii_chars_encode_utf8(a.input);
    let i = a.cursor as int;
    lemma_ascii_cut(a.input, i);
    if i > 0 {
        lemma_ascii_cut(a.input, i - 1);
        assert(a.input.skip(i - 1).skip(1) =~= a.input.skip(i));
    }
    if i < a.input.len() {
        assert(a.input.skip(i).skip(1) =~= a.input.skip(i + 1));
    }
}

/// The enter key clears the input and puts the line into the history, unless it
/// is blank or the line entered last. The lines that ask for a pop-up open it;
/// any other line is run as a command, and one that quits ends the program.
pub proof fn law_enter_runs_the_line(
    s: StateView,
    a: TuiView,
    ev: KeyEvent,
    term_h: u16,
    now_ns: u64,
)
    requires
        a.reaches_input(ev),
        ev.key == Key::Enter,
    ensures
        ({
            let t = a.keyed(s, ev, term_h);
            let line = text::trimmed(a.input);
            let help = line == "/help"@ || line == "/?"@;
            let lineup = line == "/lineup"@ || line == "/lineup show"@;
            let slots = line == "/slot"@;
            &&& t.input.len() == 0 && t.cursor == 0 && t.history_idx is None && t.scratch.len() == 0
            &&& line.len() == 0 ==> t.history == a.history
            &&& line.len() > 0 && a.history.len() > 0 && a.history.last() == a.input ==> t.history
                == a.history
            &&& line.len() > 0 && (a.history.len() == 0 || a.history.last() != a.input)
                ==> t.history == a.history.push(a.input)
            &&& t.show_help == help
            &&& t.show_lineup == (lineup && !help)
            &&& t.show_slots is Some == (slots && !help && !lineup)
            &&& slots && !help && !lineup ==> t.show_slots == Some(
                SlotBrowse {
                    slot: if s.selected_slot is Some {
                        s.selected_slot->0
                    } else {
                        1
                    },
                    viewing: false,
                    scroll: 0,
                },
            )
            &&& help || lineup || slots ==> s.keyed(a, ev, now_ns) == s && s.keyed_effects(
                a,
                ev,
                now_ns,
            ).len() == 0 && t.quit == a.quit
            &&& !help && !lineup && !slots ==> {
                &&& s.keyed(a, ev, now_ns) == s.ran(command::command_of(a.input), now_ns)
                &&& s.keyed_effects(a, ev, now_ns) == s.ran_effects(
                    command::command_of(a.input),
                    now_ns,
                )
                &&& t.quit == (a.quit || command::command_of(a.input) is Quit)
            }
            &&& t.log == a.log && t.focus == a.focus && t.tree_selected == a.tree_selected
                && t.expanded_events == a.expanded_events && t.expanded_heats == a.expanded_heats
                && t.show_results == a.show_results && t.tree_scroll == a.tree_scroll
        }),
{
}

/// Only the enter key, and a digit in a running race, reach the emulator from
/// the input.
pub proof fn law_other_input_keys_change_no_state(
    s: StateView,
    a: TuiView,
    ev: KeyEvent,
    now_ns: u64,
)
    requires
        a.reaches_input(ev),
        ev.key != Key::Enter,
        ev.key matches Key::Char(c) ==> !(48 <= c as int <= 57) || a.input.len() > 0
            || s.in_progress is None || ev.control || ev.alt,
    ensures
        s.keyed(a, ev, now_ns) == s,
        s.keyed_effects(a, ev, now_ns).len() == 0,
{
}

/// Up in the history shows the line entered before the one shown, from the last
/// one on, and stays on the first; down shows the line after it, and behind the
/// last one the input that was being edited. The cursor goes behind the line.
pub proof fn law_history_walk(a: TuiView)
    requires
        a.wf(),
        a.history.len() <= usize::MAX,
    ensures
        ({
            let up = a.history_up();
            let down = a.history_down();
            let n = a.history.len() as int;
            &&& n == 0 ==> up == a
            &&& n > 0 && a.history_idx is None ==> up == (TuiView {
                scratch: a.input,
                input: a.history[n - 1],
                cursor: text::byte_len(a.history[n - 1]) as usize,
                history_idx: Some((n - 1) as usize),
                ..a
            })
            &&& a.history_idx matches Some(i) ==> up == (TuiView {
                input: a.history[if i > 0 {
                    i - 1
                } else {
                    0
                }],
                cursor: text::byte_len(
                    a.history[if i > 0 {
                        i - 1
                    } else {
                        0
                    }],
                ) as usize,
                history_idx: Some(
                    if i > 0 {
                        (i - 1) as usize
                    } else {
                        0
                    },
                ),
                ..a
            })
            &&& a.history_idx is None ==> down == a
            &&& a.history_idx matches Some(i) ==> {
                &&& i + 1 < n ==> down == (TuiView {
                    input: a.history[i + 1],
                    cursor: text::byte_len(a.history[i + 1]) as usize,
                    history_idx: Some((i + 1) as usize),
                    ..a
                })
                &&& i + 1 == n ==> down == (TuiView {
                    input: a.scratch,
                    cursor: text::byte_len(a.scratch) as usize,
                    scratch: Seq::empty(),
                    history_idx: None,
                    ..a
                })
            }
        }),
{
}

/// The keys of the input that walk the history are up and down.
pub proof fn law_history_keys(s: StateView, a: TuiView, ev: KeyEvent, term_h: u16)
    requires
        a.reaches_input(ev),
    ensures
        ev.key == Key::Up ==> a.keyed(s, ev, term_h) == a.history_up(),
        ev.key == Key::Down ==> a.keyed(s, ev, term_h) == a.history_down(),
{
}

/// In a stored lineup of the sequence-memory pop-up the scroll keys scroll, and
/// in the list only up, down, enter, escape and backspace do anything; every
/// other key is ignored.
pub proof fn law_other_keys_in_the_slots(b: SlotBrowse, key: Key, limit: u16)
    requires
        key != Key::Enter,
        key != Key::Esc,
        key != Key::Backspace,
    ensures
        b.viewing ==> b.keyed(key, limit) == Some(
            match scrolled_to(key, b.scroll, limit) {
                Some(at) => SlotBrowse { scroll: at, ..b },
                None => b,
            },
        ),
        !b.viewing && key != Key::Up && key != Key::Down ==> b.keyed(key, limit) == Some(b),
{
}

/// Ctrl-C and Ctrl-D interrupt, with no other modifier, and no other key does.
pub proof fn law_interrupts(ev: KeyEvent)
    ensures
        ev.interrupts() <==> (ev.key == Key::Char('c') || ev.key == Key::Char('d')) && ev.control
            && !ev.alt && !ev.other_modifier,
{
}

/// Every event can be handled, except a key that would edit the input in the
/// middle of a character: backspace behind one of its bytes, delete before one,
/// and a character typed there.
pub proof fn law_accepted_events(s: StateView, a: TuiView, ev: KeyEvent)
    ensures
        !a.reaches_input(ev) ==> a.accepts(s, ev),
        ev.key != Key::Backspace && ev.key != Key::Delete && !(ev.key is Char) ==> a.accepts(s, ev),
        ev.key == Key::Backspace && (a.cursor == 0 || text::at_boundary(a.input, a.cursor - 1))
            ==> a.accepts(s, ev),
        ev.key == Key::Delete && (a.cursor >= text::byte_len(a.input) || text::at_boundary(
            a.input,
            a.cursor as int,
        )) ==> a.accepts(s, ev),
        ev.key is Char && (ev.control || ev.alt || text::at_boundary(a.input, a.cursor as int))
            ==> a.accepts(s, ev),
{
}

/// The keys reach the input while it has the focus and no pop-up is open.
pub proof fn law_keys_reach_the_input(a: TuiView, ev: KeyEvent)
    ensures
        a.reaches_input(ev) <==> ev.pressed && !ev.interrupts() && a.focus == Focus::Input
            && !a.show_help && a.show_results is None && !a.show_lineup && a.show_slots is None,
{
}

/// While the sequence-memory pop-up is open it takes the keys, and only the key
/// that loads a slot does anything else.
pub proof fn law_slots_take_the_keys(
    s: StateView,
    a: TuiView,
    ev: KeyEvent,
    b: SlotBrowse,
    term_h: u16,
    now_ns: u64,
)
    requires
        ev.pressed,
        !ev.interrupts(),
        ev.key != Key::F(1),
        a.show_slots == Some(b),
        !a.show_help,
        a.show_results is None,
        !a.show_lineup,
    ensures
        a.keyed(s, ev, term_h) == (TuiView {
            show_slots: b.keyed(
                ev.key,
                screen::max_scroll(
                    screen::cells(slots::stored_lines(s, b.slot).len() as int),
                    term_h,
                    7,
                ),
            ),
            ..a
        }),
        s.keyed(a, ev, now_ns) == (if b.viewing && ev.key == Key::Enter {
            s.slot_used(b.slot)
        } else {
            s
        }),
{
}

/// Ctrl-C and Ctrl-D set the mark to quit and change nothing else.
pub proof fn law_interrupt_only_quits(s: StateView, a: TuiView, ev: KeyEvent, term_h: u16)
    requires
        ev.pressed,
        ev.interrupts(),
    ensures
        a.keyed(s, ev, term_h) == (TuiView { quit: true, ..a }),
{
}

/// F1 opens the help at its first line, closes any other pop-up, and changes
/// nothing else.
pub proof fn law_f1_closes_the_other_popups(a: TuiView)
    ensures
        a.help_opened() == (TuiView {
            show_help: true,
            help_scroll: 0,
            show_results: None,
            show_lineup: false,
            lineup_scroll: 0,
            show_slots: None,
            ..a
        }),
{
}

} // verus!
