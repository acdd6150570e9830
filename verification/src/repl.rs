//! The command line: what each command does to the state and what it reports.

use vstd::prelude::*;
use vstd::string::*;

use crate::command;
use crate::command::{Command, CommandView, Input, InputView, Preset};
use crate::event::{EventDef, Gender};
use crate::lineups;
use crate::listing;
use crate::notation;
use crate::order;
use crate::output;
use crate::output::{Effect, EffectView};
use crate::race::MAX_LANES;
use crate::running;
use crate::state::{Slot, SlotView, State, StateView, NUM_SLOTS};
use crate::text;

verus! {

/// Longest slot name in characters.
pub const NAME_CHARS: usize = 20;

/// A slot name cut to its longest allowed length.
pub open spec fn clipped_name(name: Seq<char>) -> Seq<char> {
    if name.len() > NAME_CHARS {
        name.take(NAME_CHARS as int)
    } else {
        name
    }
}

/// The lineup of a preset.
pub open spec fn preset_events(p: Preset, g: Gender) -> Seq<EventDef> {
    match p {
        Preset::HighSchool => lineups::high_school_events(g),
        Preset::Ncaa13 => lineups::ncaa_13_events(g),
        Preset::Ncaa15 => lineups::ncaa_15_events(g),
        Preset::Ncaa16 => lineups::ncaa_16_events(g),
    }
}

fn preset_lineup(p: Preset, g: Gender) -> (r: Vec<EventDef>)
    ensures
        r@ == preset_events(p, g),
{
    match p {
        Preset::HighSchool => lineups::high_school_lineup_gender(g),
        Preset::Ncaa13 => lineups::ncaa_13_event(g),
        Preset::Ncaa15 => lineups::ncaa_15_event(g),
        Preset::Ncaa16 => lineups::ncaa_16_event(g),
    }
}

/// A slot number in range.
pub open spec fn slot_in_range(n: u8) -> bool {
    1 <= n <= NUM_SLOTS
}

pub open spec fn msg_slot_range(n: u8) -> Seq<char> {
    "slot "@ + text::dec(n as nat) + " out of range (1..="@ + text::dec(NUM_SLOTS as nat) + ")"@
}

fn slot_range_message(n: u8) -> (r: String)
    ensures
        r@ == msg_slot_range(n),
{
    let mut s: String = String::from_str("slot ");
    text::put_dec(&mut s, n as u64);
    s.append(" out of range (1..=");
    text::put_dec(&mut s, NUM_SLOTS as u64);
    s.append(")");
    s
}

/// A slot as it is named when it is loaded or saved.
pub open spec fn slot_words(n: u8, slot: SlotView) -> Seq<char> {
    text::dec(n as nat) + ": \""@ + slot.name + "\" ("@ + text::dec(slot.lineup.len())
        + " events)"@
}

fn slot_words_of(n: u8, slot: &Slot) -> (r: String)
    ensures
        r@ == slot_words(n, slot@),
{
    let mut s: String = text::dec_string(n as u64);
    s.append(": \"");
    s.append(slot.name.as_str());
    s.append("\" (");
    text::put_dec(&mut s, slot.lineup.len() as u64);
    s.append(" events)");
    s
}

pub open spec fn at_least_one(n: int) -> int {
    if n < 1 {
        1
    } else {
        n
    }
}

impl StateView {
    /// The state with another working lineup, which no slot has yet.
    pub open spec fn with_lineup(self, lineup: Seq<EventDef>) -> StateView {
        StateView { lineup, lineup_dirty: true, ..self }
    }

    /// The state after `/slot use n`.
    pub open spec fn slot_used(self, n: u8) -> StateView {
        if self.in_progress is Some || !slot_in_range(n) {
            self
        } else {
            self.slot_selected(n)
        }
    }

    /// What `/slot use n` reports.
    pub open spec fn slot_used_effects(self, n: u8) -> Seq<EffectView> {
        if self.in_progress is Some {
            output::log1(
                "cannot change /slot while a race is in progress (finalize with / first)"@,
            )
        } else if !slot_in_range(n) {
            output::log1(msg_slot_range(n))
        } else {
            (if self.lineup_dirty && self.selected_slot is Some && self.selected_slot != Some(n) {
                output::log1(
                    "(discarding unsaved working-lineup edits from slot "@ + text::dec(
                        self.selected_slot->0 as nat,
                    ) + ")"@,
                )
            } else {
                Seq::empty()
            }) + output::log1("selected slot "@ + slot_words(n, self.slots[n - 1]))
        }
    }

    /// The state after `/slot save`.
    pub open spec fn slot_kept(self) -> StateView {
        if self.in_progress is Some {
            self
        } else {
            self.slot_saved()
        }
    }

    /// What `/slot save` reports.
    pub open spec fn slot_kept_effects(self) -> Seq<EffectView> {
        output::log1(
            if self.in_progress is Some {
                "cannot /slot save while a race is in progress (finalize with / first)"@
            } else {
                match self.selected_slot {
                    Some(n) => "saved working lineup to slot "@ + slot_words(
                        n,
                        self.slot_saved().slots[n - 1],
                    ),
                    None => "no slot selected — /slot use N first"@,
                }
            },
        )
    }

    /// The state after `/slot rename`.
    pub open spec fn slot_renamed(self, name: Option<Seq<char>>) -> StateView {
        match (self.selected_slot, name) {
            (Some(n), Some(name)) => StateView {
                slots: self.slots.update(
                    n - 1,
                    SlotView { name: clipped_name(name), ..self.slots[n - 1] },
                ),
                ..self
            },
            _ => self,
        }
    }

    /// What `/slot rename` reports.
    pub open spec fn slot_renamed_effects(self, name: Option<Seq<char>>) -> Seq<EffectView> {
        output::log1(
            match (self.selected_slot, name) {
                (None, _) => "no slot selected — /slot use N first"@,
                (Some(_), None) => "usage: /slot rename <new name>"@,
                (Some(n), Some(name)) => "slot "@ + text::dec(n as nat) + " renamed to \""@
                    + clipped_name(name) + "\""@,
            },
        )
    }

    /// What showing slot `n` reports.
    pub open spec fn slot_shown_effects(self, n: u8) -> Seq<EffectView> {
        if slot_in_range(n) {
            output::logs(listing::slot_lineup_rows(self, n))
        } else {
            output::log1(msg_slot_range(n))
        }
    }

    /// The state after one word of a touch line.
    pub open spec fn input_taken(self, input: InputView, now_ns: u64) -> StateView {
        match input {
            InputView::Lane(lane) => self.touched(lane, now_ns),
            InputView::Other(_) => self,
        }
    }

    /// What one word of a touch line reports.
    pub open spec fn input_effects(self, input: InputView, now_ns: u64) -> Seq<EffectView> {
        match input {
            InputView::Lane(lane) => self.touched_effects(lane, now_ns),
            InputView::Other(w) => output::log1("unknown input: "@ + w),
        }
    }

    /// The state after the words of a touch line, one after the other.
    pub open spec fn inputs_taken(self, inputs: Seq<InputView>, now_ns: u64) -> StateView
        decreases inputs.len(),
    {
        if inputs.len() == 0 {
            self
        } else {
            self.inputs_taken(inputs.drop_last(), now_ns).input_taken(inputs.last(), now_ns)
        }
    }

    /// What the words of a touch line report.
    pub open spec fn inputs_effects(self, inputs: Seq<InputView>, now_ns: u64) -> Seq<EffectView>
        decreases inputs.len(),
    {
        if inputs.len() == 0 {
            Seq::empty()
        } else {
            self.inputs_effects(inputs.drop_last(), now_ns) + self.inputs_taken(
                inputs.drop_last(),
                now_ns,
            ).input_effects(inputs.last(), now_ns)
        }
    }

    /// The state after a command at `now_ns`.
    pub open spec fn ran(self, c: CommandView, now_ns: u64) -> StateView {
        match c {
            CommandView::Start => self.started(now_ns),
            CommandView::Finalize => self.finalized(),
            CommandView::Event(Some(n)) => StateView {
                current_event: at_least_one(n as int) as u16,
                ..self
            },
            CommandView::Heat(Some(n)) => StateView {
                current_heat: at_least_one(n as int) as u8,
                ..self
            },
            CommandView::Race(Some(n)) => if self.in_progress is Some {
                self
            } else {
                StateView { next_race_no: at_least_one(n as int) as u16, ..self }
            },
            CommandView::Dq(Some(lane)) => self.disqualified(lane),
            CommandView::LineupPreset(Some(p), g) => self.with_lineup(preset_events(p, g)),
            CommandView::LineupAdd(Some(e)) => self.with_lineup(self.lineup.push(e)),
            CommandView::LineupRemove(Some(n)) => if n == 0 || n > self.lineup.len() {
                self
            } else {
                self.with_lineup(self.lineup.remove(n - 1))
            },
            CommandView::LineupClear => self.with_lineup(Seq::empty()),
            CommandView::SlotSave => self.slot_kept(),
            CommandView::SlotRename(name) => self.slot_renamed(name),
            CommandView::SlotUse(Some(n)) => self.slot_used(n),
            CommandView::Lanes(Some(spread)) => if self.in_progress is Some {
                self
            } else {
                StateView { lane_spread: spread, ..self }
            },
            CommandView::Touches(inputs) => self.inputs_taken(inputs, now_ns),
            _ => self,
        }
    }

    /// What a `/lineup` command reports.
    pub open spec fn lineup_effects(self, c: CommandView) -> Seq<EffectView> {
        match c {
            CommandView::LineupShow => output::logs(listing::lineup_rows(self)),
            CommandView::LineupPreset(Some(p), g) => output::log1(
                "loaded preset lineup: "@ + text::dec(preset_events(p, g).len()) + " events"@
                    + listing::dirty_hint_text(self.ran(c, 0)),
            ),
            CommandView::LineupPreset(None, _) => output::log1(
                "usage: /lineup preset <hs|ncaa13|ncaa15|ncaa16> [M|F|X]"@,
            ),
            CommandView::LineupAdd(Some(e)) => output::log1(
                "added event "@ + text::dec(self.lineup.len() + 1) + ": "@ + e.label_text()
                    + " (splits every "@ + text::dec(e.split_yards as nat) + " yd)"@
                    + listing::dirty_hint_text(self.ran(c, 0)),
            ),
            CommandView::LineupAdd(None) => output::log1(
                "usage: /lineup add <distance> <M|F|X> <stroke> [split_yards]\n  stroke: 1/FR  2/BK  3/BR  4/FL  5/IM  6/MED-R  7/FR-R  DV"@,
            ),
            CommandView::LineupRemove(Some(n)) => output::log1(
                if n == 0 || n > self.lineup.len() {
                    "event "@ + text::dec(n as nat) + " out of range (lineup has "@ + text::dec(
                        self.lineup.len(),
                    ) + " event"@ + notation::plural_text(self.lineup.len() as int, ""@, "s"@)
                        + ")"@
                } else {
                    "removed event "@ + text::dec(n as nat) + ": "@ + self.lineup[n
                        - 1].label_text() + listing::dirty_hint_text(self.ran(c, 0))
                },
            ),
            CommandView::LineupRemove(None) => output::log1(
                "usage: /lineup remove N  (1-based event index)"@,
            ),
            CommandView::LineupClear => output::log1(
                "lineup cleared"@ + listing::dirty_hint_text(self.ran(c, 0)),
            ),
            CommandView::LineupOther(w) => output::log1("unknown lineup subcommand: "@ + w),
            _ => Seq::empty(),
        }
    }

    /// What a `/slot` command reports.
    pub open spec fn slot_effects(self, c: CommandView) -> Seq<EffectView> {
        match c {
            CommandView::SlotList => output::logs(listing::slot_rows(self)),
            CommandView::SlotShow(arg) => match (arg, self.selected_slot) {
                (Some(n), _) => self.slot_shown_effects(n),
                (None, Some(n)) => self.slot_shown_effects(n),
                (None, None) => output::log1(
                    "no slot selected — usage: /slot show <1..="@ + text::dec(NUM_SLOTS as nat)
                        + ">"@,
                ),
            },
            CommandView::SlotSave => self.slot_kept_effects(),
            CommandView::SlotRename(name) => self.slot_renamed_effects(name),
            CommandView::SlotUse(Some(n)) => self.slot_used_effects(n),
            CommandView::SlotUse(None) => output::log1(
                "usage: /slot use <1..="@ + text::dec(NUM_SLOTS as nat) + ">"@,
            ),
            CommandView::SlotNumber(n) => self.slot_shown_effects(n),
            CommandView::SlotOther(w) => output::log1(
                "unknown slot subcommand: "@ + w
                    + " (try /slot | /slot N | /slot use N | /slot save | /slot rename <name>)"@,
            ),
            _ => Seq::empty(),
        }
    }

    /// What a command at `now_ns` reports.
    pub open spec fn ran_effects(self, c: CommandView, now_ns: u64) -> Seq<EffectView> {
        match c {
            CommandView::Start => self.started_effects(),
            CommandView::Finalize => self.finalized_effects(),
            CommandView::Event(Some(n)) => output::log1(
                "event = "@ + text::dec(at_least_one(n as int) as nat),
            ),
            CommandView::Event(None) => output::log1("usage: /event N"@),
            CommandView::Heat(Some(n)) => output::log1(
                "heat = "@ + text::dec(at_least_one(n as int) as nat),
            ),
            CommandView::Heat(None) => output::log1("usage: /heat N"@),
            CommandView::Race(arg) => output::log1(
                if self.in_progress is Some {
                    "cannot change /race while a race is in progress (finalize with / first)"@
                } else {
                    match arg {
                        Some(n) => "next_race_no = "@ + text::dec(at_least_one(n as int) as nat),
                        None => "usage: /race N"@,
                    }
                },
            ),
            CommandView::Dq(Some(lane)) => self.disqualified_effects(lane),
            CommandView::Dq(None) => output::log1("usage: /dq L"@),
            CommandView::Races => output::logs(listing::race_rows(self)),
            CommandView::LanesShow => output::log1(
                "lane spread = "@ + text::dec(self.lane_spread.0 as nat) + ".."@ + text::dec(
                    self.lane_spread.1 as nat,
                ),
            ),
            CommandView::Lanes(Some(spread)) => output::log1(
                if self.in_progress is Some {
                    "cannot change /lanes while a race is in progress (finalize with / first)"@
                } else {
                    "lane spread = "@ + text::dec(spread.0 as nat) + ".."@ + text::dec(
                        spread.1 as nat,
                    )
                },
            ),
            CommandView::Lanes(None) => output::log1(
                "usage: /lanes A..B  (1..="@ + text::dec(MAX_LANES as nat)
                    + ", e.g. /lanes 1..10, /lanes 2..8, /lanes 1..1)"@,
            ),
            CommandView::Status => output::log1(listing::status_text(self)),
            CommandView::Help => output::log1(listing::HELP_TEXT@),
            CommandView::Quit => Seq::empty(),
            CommandView::Other(w) => output::log1("unknown command: /"@ + w + " (try /help)"@),
            CommandView::Touches(inputs) => self.inputs_effects(inputs, now_ns) + if exists|i: int|
                0 <= i < inputs.len() && #[trigger] inputs[i] is Lane {
                Seq::empty()
            } else {
                output::log1("(nothing to do — try /help)"@)
            },
            CommandView::SlotList
            | CommandView::SlotShow(_)
            | CommandView::SlotSave
            | CommandView::SlotRename(_)
            | CommandView::SlotUse(_)
            | CommandView::SlotNumber(_)
            | CommandView::SlotOther(_) => self.slot_effects(c),
            _ => self.lineup_effects(c),
        }
    }
}

/// Loads slot `n`'s lineup, unless a race is in progress.
pub fn slot_use(state: &mut State, n: u8, out: &mut Vec<Effect>)
    requires
        old(state).wf(),
    ensures
        final(state).wf(),
        final(state)@ == old(state)@.slot_used(n),
        output::effects(final(out)@) == output::effects(old(out)@) + old(state)@.slot_used_effects(
            n,
        ),
{
    let ghost before = state@;
    let ghost out0 = output::effects(out@);
    if state.in_progress.is_some() {
        output::say(
            out,
            String::from_str(
                "cannot change /slot while a race is in progress (finalize with / first)",
            ),
        );
        return;
    }
    if !(1 <= n && n as usize <= NUM_SLOTS) {
        output::say(out, slot_range_message(n));
        return;
    }
    if state.lineup_dirty {
        match state.selected_slot {
            Some(k) => {
                if k != n {
                    let mut s: String = String::from_str(
                        "(discarding unsaved working-lineup edits from slot ",
                    );
                    text::put_dec(&mut s, k as u64);
                    s.append(")");
                    output::say(out, s);
                }
            },
            None => {},
        }
    }
    state.select_slot(n);
    let mut s: String = String::from_str("selected slot ");
    let words: String = slot_words_of(n, &state.slots[n as usize - 1]);
    s.append(words.as_str());
    assert(state@.slots[n - 1] == before.slots[n - 1]);
    output::say(out, s);
    assert(output::effects(out@) =~= out0 + before.slot_used_effects(n));
}

fn show_slot(state: &State, n: u8, out: &mut Vec<Effect>)
    requires
        state.wf(),
    ensures
        output::effects(final(out)@) == output::effects(old(out)@) + state@.slot_shown_effects(n),
{
    if 1 <= n && n as usize <= NUM_SLOTS {
        listing::print_slot_lineup(state, n, out);
    } else {
        output::say(out, slot_range_message(n));
    }
}

fn save_slot(state: &mut State, out: &mut Vec<Effect>)
    requires
        old(state).wf(),
    ensures
        final(state).wf(),
        final(state)@ == old(state)@.slot_kept(),
        output::effects(final(out)@) == output::effects(old(out)@)
            + old(state)@.slot_kept_effects(),
{
    if state.in_progress.is_some() {
        output::say(
            out,
            String::from_str("cannot /slot save while a race is in progress (finalize with / first)"),
        );
        return;
    }
    match state.save_to_selected_slot() {
        Some(n) => {
            let mut s: String = String::from_str("saved working lineup to slot ");
            let words: String = slot_words_of(n, &state.slots[n as usize - 1]);
            assert(state@.slots[n - 1] == state.slots@[n - 1]@);
            s.append(words.as_str());
            output::say(out, s);
        },
        None => {
            output::say(out, String::from_str("no slot selected — /slot use N first"));
        },
    }
}

fn rename_slot(state: &mut State, name: Option<String>, out: &mut Vec<Effect>)
    requires
        old(state).wf(),
    ensures
        final(state).wf(),
        final(state)@ == old(state)@.slot_renamed(command::opt_text(name)),
        output::effects(final(out)@) == output::effects(old(out)@)
            + old(state)@.slot_renamed_effects(command::opt_text(name)),
{
    let ghost before = state@;
    let ghost asked = command::opt_text(name);
    match state.selected_slot {
        None => {
            output::say(out, String::from_str("no slot selected — /slot use N first"));
        },
        Some(n) => match name {
            None => {
                output::say(out, String::from_str("usage: /slot rename <new name>"));
            },
            Some(full) => {
                let clipped: String = if full.as_str().unicode_len() > NAME_CHARS {
                    String::from_str(full.as_str().substring_char(0, NAME_CHARS))
                } else {
                    full
                };
                assert(clipped@ =~= clipped_name(asked->0));
                let mut s: String = String::from_str("slot ");
                text::put_dec(&mut s, n as u64);
                s.append(" renamed to \"");
                s.append(clipped.as_str());
                s.append("\"");
                output::say(out, s);
                let slot: &mut Slot = &mut state.slots[n as usize - 1];
                slot.name = clipped;
                assert(state@.slots =~= before.slot_renamed(asked).slots);
                assert(state@ =~= before.slot_renamed(asked));
            },
        },
    }
}

/// Runs a `/slot` command.
pub fn handle_slot_command(state: &mut State, c: Command, out: &mut Vec<Effect>)
    requires
        old(state).wf(),
        c@ is SlotList || c@ is SlotShow || c@ is SlotSave || c@ is SlotRename || c@ is SlotUse
            || c@ is SlotNumber || c@ is SlotOther,
    ensures
        final(state).wf(),
        final(state)@ == old(state)@.ran(c@, 0),
        output::effects(final(out)@) == output::effects(old(out)@) + old(state)@.slot_effects(c@),
{
    match c {
        Command::SlotList => listing::print_slots(state, out),
        Command::SlotShow(arg) => {
            let target: Option<u8> = match arg {
                Some(n) => Some(n),
                None => state.selected_slot,
            };
            match target {
                Some(n) => show_slot(state, n, out),
                None => {
                    let mut s: String = String::from_str("no slot selected — usage: /slot show <1..=");
                    text::put_dec(&mut s, NUM_SLOTS as u64);
                    s.append(">");
                    output::say(out, s);
                },
            }
        },
        Command::SlotSave => save_slot(state, out),
        Command::SlotRename(name) => rename_slot(state, name, out),
        Command::SlotUse(Some(n)) => slot_use(state, n, out),
        Command::SlotUse(None) => {
            let mut s: String = String::from_str("usage: /slot use <1..=");
            text::put_dec(&mut s, NUM_SLOTS as u64);
            s.append(">");
            output::say(out, s);
        },
        Command::SlotNumber(n) => show_slot(state, n, out),
        Command::SlotOther(w) => {
            let mut s: String = String::from_str("unknown slot subcommand: ");
            s.append(w.as_str());
            s.append(" (try /slot | /slot N | /slot use N | /slot save | /slot rename <name>)");
            output::say(out, s);
        },
        _ => {
            assert(false);
        },
    }
}

/// Runs a `/lineup` command.
pub fn handle_lineup_command(state: &mut State, c: Command, out: &mut Vec<Effect>)
    requires
        old(state).wf(),
        c@ is LineupShow || c@ is LineupPreset || c@ is LineupAdd || c@ is LineupRemove
            || c@ is LineupClear || c@ is LineupOther,
    ensures
        final(state).wf(),
        final(state)@ == old(state)@.ran(c@, 0),
        output::effects(final(out)@) == output::effects(old(out)@) + old(state)@.lineup_effects(
            c@,
        ),
{
    let ghost before = state@;
    match c {
        Command::LineupShow => listing::print_lineup(state, out),
        Command::LineupPreset(Some(p), g) => {
            state.lineup = preset_lineup(p, g);
            state.lineup_dirty = true;
            assert(state@ =~= before.ran(c@, 0));
            let mut s: String = String::from_str("loaded preset lineup: ");
            text::put_dec(&mut s, state.lineup.len() as u64);
            s.append(" events");
            s.append(listing::dirty_hint(state));
            output::say(out, s);
        },
        Command::LineupPreset(None, _) => {
            output::say(
                out,
                String::from_str("usage: /lineup preset <hs|ncaa13|ncaa15|ncaa16> [M|F|X]"),
            );
        },
        Command::LineupAdd(Some(e)) => {
            state.lineup.push(e);
            state.lineup_dirty = true;
            assert(state@ =~= before.ran(c@, 0));
            let mut s: String = String::from_str("added event ");
            text::put_dec(&mut s, state.lineup.len() as u64);
            s.append(": ");
            let label: String = e.label();
            s.append(label.as_str());
            s.append(" (splits every ");
            text::put_dec(&mut s, e.split_yards as u64);
            s.append(" yd)");
            s.append(listing::dirty_hint(state));
            output::say(out, s);
        },
        Command::LineupAdd(None) => {
            output::say(
                out,
                String::from_str(
                    "usage: /lineup add <distance> <M|F|X> <stroke> [split_yards]\n  stroke: 1/FR  2/BK  3/BR  4/FL  5/IM  6/MED-R  7/FR-R  DV",
                ),
            );
        },
        Command::LineupRemove(Some(n)) => {
            if n == 0 || n > state.lineup.len() {
                let mut s: String = String::from_str("event ");
                text::put_dec(&mut s, n as u64);
                s.append(" out of range (lineup has ");
                text::put_dec(&mut s, state.lineup.len() as u64);
                s.append(" event");
                s.append(notation::plural(state.lineup.len(), "", "s"));
                s.append(")");
                output::say(out, s);
            } else {
                let removed: EventDef = state.lineup.remove(n - 1);
                state.lineup_dirty = true;
                assert(state@ =~= before.ran(c@, 0));
                let mut s: String = String::from_str("removed event ");
                text::put_dec(&mut s, n as u64);
                s.append(": ");
                let label: String = removed.label();
                s.append(label.as_str());
                s.append(listing::dirty_hint(state));
                output::say(out, s);
            }
        },
        Command::LineupRemove(None) => {
            output::say(out, String::from_str("usage: /lineup remove N  (1-based event index)"));
        },
        Command::LineupClear => {
            state.lineup.clear();
            state.lineup_dirty = true;
            assert(state@ =~= before.ran(c@, 0));
            let mut s: String = String::from_str("lineup cleared");
            s.append(listing::dirty_hint(state));
            output::say(out, s);
        },
        Command::LineupOther(w) => {
            let mut s: String = String::from_str("unknown lineup subcommand: ");
            s.append(w.as_str());
            output::say(out, s);
        },
        _ => {
            assert(false);
        },
    }
}

/// Takes the words of a touch line.
pub fn handle_touches(state: &mut State, inputs: &Vec<Input>, now_ns: u64, out: &mut Vec<Effect>)
    requires
        old(state).wf(),
    ensures
        final(state).wf(),
        final(state)@ == old(state)@.inputs_taken(command::inputs_view(inputs@), now_ns),
        output::effects(final(out)@) == output::effects(old(out)@) + old(state)@.ran_effects(
            CommandView::Touches(command::inputs_view(inputs@)),
            now_ns,
        ),
{
    let ghost before = state@;
    let ghost out0 = output::effects(out@);
    let ghost all = command::inputs_view(inputs@);
    let n: usize = inputs.len();
    let mut any: bool = false;
    let mut i: usize = 0;
    assert(out0 + before.inputs_effects(all.take(0), now_ns) =~= out0);
    while i < n
        invariant
            state.wf(),
            n == inputs@.len(),
            all == command::inputs_view(inputs@),
            i <= n,
            state@ == before.inputs_taken(all.take(i as int), now_ns),
            output::effects(out@) == out0 + before.inputs_effects(all.take(i as int), now_ns),
            any <==> exists|j: int| 0 <= j < i && #[trigger] all[j] is Lane,
        decreases n - i,
    {
        let ghost here = state@;
        assert(all[i as int] == inputs@[i as int]@);
        assert(all.take(i + 1).drop_last() =~= all.take(i as int));
        assert(all.take(i + 1).last() == all[i as int]);
        match &inputs[i] {
            Input::Lane(lane) => {
                running::touch_lane(state, *lane, now_ns, out);
                any = true;
                assert(all[i as int] is Lane);
            },
            Input::Other(w) => {
                let mut s: String = String::from_str("unknown input: ");
                s.append(w.as_str());
                output::say(out, s);
            },
        }
        assert(output::effects(out@) =~= out0 + before.inputs_effects(all.take(i + 1), now_ns));
        i = i + 1;
    }
    assert(all.take(n as int) =~= all);
    if !any {
        output::say(out, String::from_str("(nothing to do — try /help)"));
    }
    assert(output::effects(out@) =~= out0 + before.ran_effects(CommandView::Touches(all), now_ns));
}

/// Runs a command at `now_ns`. Returns whether the emulator goes on.
pub fn run_command(state: &mut State, c: Command, now_ns: u64, out: &mut Vec<Effect>) -> (keep:
    bool)
    requires
        old(state).wf(),
        c@ matches CommandView::Lanes(Some(spread)) ==> 1 <= spread.0 <= spread.1 <= MAX_LANES,
    ensures
        final(state).wf(),
        final(state)@ == old(state)@.ran(c@, now_ns),
        output::effects(final(out)@) == output::effects(old(out)@) + old(state)@.ran_effects(
            c@,
            now_ns,
        ),
        keep == !(c@ is Quit),
{
    let ghost before = state@;
    let ghost out0 = output::effects(out@);
    match c {
        Command::Start => running::start_race(state, now_ns, out),
        Command::Finalize => running::finalize_race(state, out),
        Command::Event(Some(n)) => {
            state.current_event = if n < 1 {
                1
            } else {
                n
            };
            assert(state@ =~= before.ran(c@, now_ns));
            let mut s: String = String::from_str("event = ");
            text::put_dec(&mut s, state.current_event as u64);
            output::say(out, s);
        },
        Command::Event(None) => output::say(out, String::from_str("usage: /event N")),
        Command::Heat(Some(n)) => {
            state.current_heat = if n < 1 {
                1
            } else {
                n
            };
            assert(state@ =~= before.ran(c@, now_ns));
            let mut s: String = String::from_str("heat = ");
            text::put_dec(&mut s, state.current_heat as u64);
            output::say(out, s);
        },
        Command::Heat(None) => output::say(out, String::from_str("usage: /heat N")),
        Command::Race(arg) => {
            if state.in_progress.is_some() {
                output::say(
                    out,
                    String::from_str(
                        "cannot change /race while a race is in progress (finalize with / first)",
                    ),
                );
            } else {
                match arg {
                    Some(n) => {
                        state.next_race_no = if n < 1 {
                            1
                        } else {
                            n
                        };
                        assert(state@ =~= before.ran(c@, now_ns));
                        let mut s: String = String::from_str("next_race_no = ");
                        text::put_dec(&mut s, state.next_race_no as u64);
                        output::say(out, s);
                    },
                    None => output::say(out, String::from_str("usage: /race N")),
                }
            }
        },
        Command::Dq(Some(lane)) => running::dq_lane(state, lane, out),
        Command::Dq(None) => output::say(out, String::from_str("usage: /dq L")),
        Command::Races => listing::print_races(state, out),
        Command::LanesShow => {
            let mut s: String = String::from_str("lane spread = ");
            text::put_dec(&mut s, state.lane_spread.0 as u64);
            s.append("..");
            text::put_dec(&mut s, state.lane_spread.1 as u64);
            output::say(out, s);
        },
        Command::Lanes(Some((lo, hi))) => {
            if state.in_progress.is_some() {
                output::say(
                    out,
                    String::from_str(
                        "cannot change /lanes while a race is in progress (finalize with / first)",
                    ),
                );
            } else {
                state.lane_spread = (lo, hi);
                assert(state@ =~= before.ran(c@, now_ns));
                let mut s: String = String::from_str("lane spread = ");
                text::put_dec(&mut s, lo as u64);
                s.append("..");
                text::put_dec(&mut s, hi as u64);
                output::say(out, s);
            }
        },
        Command::Lanes(None) => {
            let mut s: String = String::from_str("usage: /lanes A..B  (1..=");
            text::put_dec(&mut s, MAX_LANES as u64);
            s.append(", e.g. /lanes 1..10, /lanes 2..8, /lanes 1..1)");
            output::say(out, s);
        },
        Command::Status => {
            let s: String = listing::status_line(state);
            output::say(out, s);
        },
        Command::Help => listing::print_help(out),
        Command::Quit => {
            assert(output::effects(out@) =~= out0 + before.ran_effects(c@, now_ns));
            return false;
        },
        Command::Other(w) => {
            let mut s: String = String::from_str("unknown command: /");
            s.append(w.as_str());
            s.append(" (try /help)");
            output::say(out, s);
        },
        Command::Touches(inputs) => handle_touches(state, &inputs, now_ns, out),
        Command::SlotList
        | Command::SlotShow(_)
        | Command::SlotSave
        | Command::SlotRename(_)
        | Command::SlotUse(_)
        | Command::SlotNumber(_)
        | Command::SlotOther(_) => handle_slot_command(state, c, out),
        Command::LineupShow
        | Command::LineupPreset(..)
        | Command::LineupAdd(_)
        | Command::LineupRemove(_)
        | Command::LineupClear
        | Command::LineupOther(_) => handle_lineup_command(state, c, out),
    }
    true
}

/// Runs a line of the operator at `now_ns`. Returns whether the emulator goes
/// on.
pub fn handle_command(state: &mut State, line: &str, now_ns: u64, out: &mut Vec<Effect>) -> (keep:
    bool)
    requires
        old(state).wf(),
    ensures
        final(state).wf(),
        final(state)@ == old(state)@.ran(command::command_of(line@), now_ns),
        output::effects(final(out)@) == output::effects(old(out)@) + old(state)@.ran_effects(
            command::command_of(line@),
            now_ns,
        ),
        keep == !(command::command_of(line@) is Quit),
{
    let c: Command = command::parse_command(line);
    run_command(state, c, now_ns, out)
}

/// While a race is in progress the race counter, the lane spread and the slots
/// cannot be changed: `/race`, `/lanes`, `/slot use` and `/slot save` leave the
/// state as it is.
pub proof fn law_running_race_locks_the_setup(s: StateView, c: CommandView, now_ns: u64)
    requires
        s.wf(),
        s.in_progress is Some,
        c is Race || c is Lanes || c is SlotUse || c is SlotSave,
    ensures
        s.ran(c, now_ns) == s,
{
}

/// The commands that only show something leave the state as it is.
pub proof fn law_inspection_changes_nothing(s: StateView, c: CommandView, now_ns: u64)
    requires
        s.wf(),
        c is LineupShow || c is SlotList || c is SlotShow || c is SlotNumber || c is Races
            || c is LanesShow || c is Status || c is Help || c is Quit || c is Other
            || c is LineupOther || c is SlotOther,
    ensures
        s.ran(c, now_ns) == s,
{
}

/// Every line but one that ends the emulator reports something.
pub proof fn law_every_command_answers(s: StateView, c: CommandView, now_ns: u64)
    requires
        s.wf(),
        !(c is Quit),
    ensures
        s.ran_effects(c, now_ns).len() > 0,
{
    match c {
        CommandView::Touches(inputs) => {
            if exists|i: int| 0 <= i < inputs.len() && #[trigger] inputs[i] is Lane {
                lemma_inputs_report(s, inputs, now_ns);
            }
        },
        CommandView::Races => {
            if s.races.dom().len() != 0 {
                lemma_race_rows(s);
            }
        },
        _ => {},
    }
}

proof fn lemma_inputs_report(s: StateView, inputs: Seq<InputView>, now_ns: u64)
    requires
        inputs.len() > 0,
    ensures
        s.inputs_effects(inputs, now_ns).len() > 0,
{
    let here = s.inputs_taken(inputs.drop_last(), now_ns);
    assert(here.input_effects(inputs.last(), now_ns).len() > 0);
}

proof fn lemma_race_rows(s: StateView)
    requires
        s.races.dom().len() != 0,
    ensures
        listing::race_rows(s).len() > 0,
{
    let p = |x: int| s.races.contains_key(x as u16);
    let id = s.races.dom().choose();
    assert(s.races.dom().contains(id)) by {
        if forall|x: u16| !s.races.dom().contains(x) {
            assert(s.races.dom() =~= Set::empty());
        }
    }
    order::lemma_ascending(p, 0x1_0000);
    assert(p(id as int));
    assert(listing::race_numbers(s).contains(id as int));
}

/// Removing the event that was just added restores the lineup.
pub proof fn law_remove_undoes_add(s: StateView, e: EventDef, now_ns: u64)
    requires
        s.wf(),
        s.lineup.len() < usize::MAX,
    ensures
        s.ran(CommandView::LineupAdd(Some(e)), now_ns).ran(
            CommandView::LineupRemove(Some((s.lineup.len() + 1) as usize)),
            now_ns,
        ).lineup == s.lineup,
{
    assert(s.lineup.push(e).remove(s.lineup.len() as int) =~= s.lineup);
}

/// An event that is added is the one that its number names from then on.
pub proof fn law_added_event_has_the_last_number(s: StateView, e: EventDef, now_ns: u64)
    requires
        s.wf(),
        s.lineup.len() < u16::MAX,
    ensures
        s.ran(CommandView::LineupAdd(Some(e)), now_ns).event_def((s.lineup.len() + 1) as u16)
            == Some(e),
{
}

/// A saved working lineup comes back when its slot is used again, whatever was
/// done to the working lineup in between.
pub proof fn law_saved_slot_is_used_again(s: StateView, edited: Seq<EventDef>, n: u8)
    requires
        s.wf(),
        s.in_progress is None,
        s.selected_slot == Some(n),
    ensures
        s.slot_kept().with_lineup(edited).slot_used(n).lineup == s.lineup,
        !s.slot_kept().with_lineup(edited).slot_used(n).lineup_dirty,
{
}

/// A slot that is renamed keeps its lineup and has the given name from then on,
/// if that has no more characters than a name may have; the other slots stay.
pub proof fn law_renamed_slot_has_the_name(s: StateView, name: Seq<char>, n: u8)
    requires
        s.wf(),
        s.selected_slot == Some(n),
    ensures
        name.len() <= NAME_CHARS ==> s.slot_renamed(Some(name)).slots[n - 1].name == name,
        s.slot_renamed(Some(name)).slots[n - 1].name.len() <= NAME_CHARS,
        s.slot_renamed(Some(name)).slots[n - 1].name.is_prefix_of(name),
        s.slot_renamed(Some(name)).slots[n - 1].lineup == s.slots[n - 1].lineup,
        forall|i: int|
            0 <= i < s.slots.len() && i != n - 1 ==> #[trigger] s.slot_renamed(Some(name)).slots[i]
                == s.slots[i],
{
}

/// `/event`, `/heat` and `/race` set their number, 1 for 0; the race number
/// only while no race is in progress. `/lanes` sets the lanes in use, likewise.
/// Nothing else changes.
pub proof fn law_numbers_are_set(s: StateView, n: u16, k: u8, spread: (u8, u8), now_ns: u64)
    ensures
        s.ran(CommandView::Event(Some(n)), now_ns) == (StateView {
            current_event: if n == 0 {
                1
            } else {
                n
            },
            ..s
        }),
        s.ran(CommandView::Heat(Some(k)), now_ns) == (StateView {
            current_heat: if k == 0 {
                1
            } else {
                k
            },
            ..s
        }),
        s.in_progress is None ==> s.ran(CommandView::Race(Some(n)), now_ns) == (StateView {
            next_race_no: if n == 0 {
                1
            } else {
                n
            },
            ..s
        }),
        s.in_progress is None ==> s.ran(CommandView::Lanes(Some(spread)), now_ns) == (StateView {
            lane_spread: spread,
            ..s
        }),
{
}

/// A command without the argument that it needs changes nothing.
pub proof fn law_incomplete_commands_change_nothing(s: StateView, g: Gender, now_ns: u64)
    ensures
        s.ran(CommandView::Event(None), now_ns) == s,
        s.ran(CommandView::Heat(None), now_ns) == s,
        s.ran(CommandView::Race(None), now_ns) == s,
        s.ran(CommandView::Dq(None), now_ns) == s,
        s.ran(CommandView::Lanes(None), now_ns) == s,
        s.ran(CommandView::LineupAdd(None), now_ns) == s,
        s.ran(CommandView::LineupRemove(None), now_ns) == s,
        s.ran(CommandView::LineupPreset(None, g), now_ns) == s,
        s.ran(CommandView::SlotUse(None), now_ns) == s,
        s.ran(CommandView::SlotRename(None), now_ns) == s,
{
}

/// A blank line starts a race, `/` finalizes it, `/dq` disqualifies the lane,
/// and a touch line touches its lanes one after the other, in order.
pub proof fn law_race_commands(s: StateView, lane: u8, more: Seq<InputView>, now_ns: u64)
    ensures
        s.ran(CommandView::Start, now_ns) == s.started(now_ns),
        s.ran(CommandView::Finalize, now_ns) == s.finalized(),
        s.ran(CommandView::Dq(Some(lane)), now_ns) == s.disqualified(lane),
        s.ran(CommandView::Touches(seq![InputView::Lane(lane)]), now_ns) == s.touched(lane, now_ns),
        s.ran(CommandView::Touches(Seq::empty()), now_ns) == s,
        s.ran(CommandView::Touches(more.push(InputView::Lane(lane))), now_ns) == s.ran(
            CommandView::Touches(more),
            now_ns,
        ).touched(lane, now_ns),
{
    let one = seq![InputView::Lane(lane)];
    assert(one.drop_last() =~= Seq::<InputView>::empty());
    assert(s.inputs_taken(one.drop_last(), now_ns) == s);
    assert(more.push(InputView::Lane(lane)).drop_last() =~= more);
}

/// A word of a touch line that is no lane number changes nothing.
pub proof fn law_other_words_touch_nothing(
    s: StateView,
    w: Seq<char>,
    more: Seq<InputView>,
    now_ns: u64,
)
    ensures
        s.ran(CommandView::Touches(more.push(InputView::Other(w))), now_ns) == s.ran(
            CommandView::Touches(more),
            now_ns,
        ),
{
    assert(more.push(InputView::Other(w)).drop_last() =~= more);
}

/// The words of a touch line are reported one after the other, each as if it
/// stood alone, and a line without lane numbers has one more line.
pub proof fn law_touch_line_is_reported(s: StateView, more: Seq<InputView>, x: InputView, now_ns: u64)
    ensures
        ({
            let before = s.ran(CommandView::Touches(more), now_ns);
            let line = CommandView::Touches(more.push(x));
            let last = match x {
                InputView::Lane(lane) => before.touched_effects(lane, now_ns),
                InputView::Other(w) => seq![EffectView::Log("unknown input: "@ + w)],
            };
            &&& x is Lane ==> s.ran_effects(line, now_ns) == s.inputs_effects(more, now_ns) + last
            &&& x is Other && (exists|i: int| 0 <= i < more.len() && #[trigger] more[i] is Lane)
                ==> s.ran_effects(line, now_ns) == s.inputs_effects(more, now_ns) + last
            &&& (forall|i: int| 0 <= i < more.len() ==> #[trigger] more[i] is Other)
                && x is Other ==> s.ran_effects(line, now_ns) == s.inputs_effects(more, now_ns)
                + last + seq![EffectView::Log("(nothing to do — try /help)"@)]
        }),
{
    let all = more.push(x);
    assert(all.drop_last() =~= more);
    assert(all[more.len() as int] == x);
    let none = Seq::<EffectView>::empty();
    let e = s.inputs_effects(all, now_ns);
    assert(e + none =~= e);
    if x is Other && exists|i: int| 0 <= i < more.len() && #[trigger] more[i] is Lane {
        let i = choose|i: int| 0 <= i < more.len() && #[trigger] more[i] is Lane;
        assert(all[i] is Lane);
    }
    if (forall|i: int| 0 <= i < more.len() ==> #[trigger] more[i] is Other) && x is Other {
        assert forall|i: int| 0 <= i < all.len() implies !(#[trigger] all[i] is Lane) by {
            if i < more.len() {
                assert(more[i] is Other);
            }
        }
    }
}

/// `/lineup add` puts its event behind the others, `/lineup remove` takes out
/// the event with its number and moves those behind it up, `/lineup clear` takes
/// out all, and a preset takes the place of all. The lineup then has edits that
/// no slot has; nothing else changes.
pub proof fn law_lineup_is_edited(s: StateView, e: EventDef, n: usize, i: int, now_ns: u64)
    requires
        s.lineup.len() <= usize::MAX,
    ensures
        ({
            let t = s.ran(CommandView::LineupAdd(Some(e)), now_ns);
            &&& t.lineup.len() == s.lineup.len() + 1
            &&& t.lineup[s.lineup.len() as int] == e
            &&& 0 <= i < s.lineup.len() ==> t.lineup[i] == s.lineup[i]
            &&& t == (StateView { lineup: t.lineup, lineup_dirty: true, ..s })
        }),
        n == 0 || n > s.lineup.len() ==> s.ran(CommandView::LineupRemove(Some(n)), now_ns) == s,
        1 <= n <= s.lineup.len() ==> ({
            let t = s.ran(CommandView::LineupRemove(Some(n)), now_ns);
            &&& t.lineup.len() == s.lineup.len() - 1
            &&& 0 <= i < n - 1 ==> t.lineup[i] == s.lineup[i]
            &&& n - 1 <= i < t.lineup.len() ==> t.lineup[i] == s.lineup[i + 1]
            &&& t == (StateView { lineup: t.lineup, lineup_dirty: true, ..s })
        }),
        ({
            let t = s.ran(CommandView::LineupClear, now_ns);
            t.lineup.len() == 0 && t == (StateView { lineup: t.lineup, lineup_dirty: true, ..s })
        }),
{
}

/// A preset takes the place of the lineup: the high-school program of 12 events
/// or one of the three college programs of 13, 15 and 16, each for the given
/// gender.
pub proof fn law_preset_replaces_the_lineup(s: StateView, g: Gender, now_ns: u64)
    ensures
        ({
            let hs = s.ran(CommandView::LineupPreset(Some(Preset::HighSchool), g), now_ns);
            let n13 = s.ran(CommandView::LineupPreset(Some(Preset::Ncaa13), g), now_ns);
            let n15 = s.ran(CommandView::LineupPreset(Some(Preset::Ncaa15), g), now_ns);
            let n16 = s.ran(CommandView::LineupPreset(Some(Preset::Ncaa16), g), now_ns);
            &&& hs == (StateView {
                lineup: lineups::high_school_events(g),
                lineup_dirty: true,
                ..s
            }) && hs.lineup.len() == 12
            &&& n13 == (StateView { lineup: lineups::ncaa_13_events(g), lineup_dirty: true, ..s })
                && n13.lineup.len() == 13
            &&& n15 == (StateView { lineup: lineups::ncaa_15_events(g), lineup_dirty: true, ..s })
                && n15.lineup.len() == 15
            &&& n16 == (StateView { lineup: lineups::ncaa_16_events(g), lineup_dirty: true, ..s })
                && n16.lineup.len() == 16
        }),
{
}

/// `/slot use` loads a slot from 1 to 8, and `/slot save` saves to the selected
/// one, while no race is in progress; `/slot rename` names the selected slot,
/// also then, with the first 20 characters of the name. Without a selected slot,
/// saving and renaming change nothing.
pub proof fn law_slot_commands_work(s: StateView, n: u8, name: Seq<char>, i: int, now_ns: u64)
    requires
        s.wf(),
    ensures
        s.in_progress is None && 1 <= n <= 8 ==> s.ran(CommandView::SlotUse(Some(n)), now_ns)
            == s.slot_selected(n),
        n == 0 || n > 8 ==> s.ran(CommandView::SlotUse(Some(n)), now_ns) == s,
        s.in_progress is None ==> s.ran(CommandView::SlotSave, now_ns) == s.slot_saved(),
        s.selected_slot is None ==> s.ran(CommandView::SlotSave, now_ns) == s && s.ran(
            CommandView::SlotRename(Some(name)),
            now_ns,
        ) == s,
        s.selected_slot is Some ==> ({
            let at = s.selected_slot->0 - 1;
            let t = s.ran(CommandView::SlotRename(Some(name)), now_ns);
            &&& t.slots.len() == 8
            &&& t.slots[at].name.len() == (if name.len() > 20 {
                20
            } else {
                name.len()
            })
            &&& t.slots[at].name == name.take(t.slots[at].name.len() as int)
            &&& t.slots[at].lineup == s.slots[at].lineup
            &&& 0 <= i < 8 && i != at ==> t.slots[i] == s.slots[i]
            &&& t == (StateView { slots: t.slots, ..s })
        }),
{
    assert(name.take(name.len() as int) =~= name);
}

/// What is reported of the numbers that are set is what they are set to.
pub proof fn law_set_numbers_are_reported(s: StateView, n: u16, k: u8, now_ns: u64)
    ensures
        s.ran_effects(CommandView::Event(Some(n)), now_ns) == seq![
            EffectView::Log(
                "event = "@ + text::dec(
                    s.ran(CommandView::Event(Some(n)), now_ns).current_event as nat,
                ),
            ),
        ],
        s.ran_effects(CommandView::Heat(Some(k)), now_ns) == seq![
            EffectView::Log(
                "heat = "@ + text::dec(
                    s.ran(CommandView::Heat(Some(k)), now_ns).current_heat as nat,
                ),
            ),
        ],
        s.in_progress is None ==> s.ran_effects(CommandView::Race(Some(n)), now_ns) == seq![
            EffectView::Log(
                "next_race_no = "@ + text::dec(
                    s.ran(CommandView::Race(Some(n)), now_ns).next_race_no as nat,
                ),
            ),
        ],
        s.in_progress is None ==> s.ran_effects(CommandView::Lanes(Some((k, k))), now_ns) == s.ran(
            CommandView::Lanes(Some((k, k))),
            now_ns,
        ).ran_effects(CommandView::LanesShow, now_ns),
        s.ran_effects(CommandView::LanesShow, now_ns) == seq![
            EffectView::Log(
                "lane spread = "@ + text::dec(s.lane_spread.0 as nat) + ".."@ + text::dec(
                    s.lane_spread.1 as nat,
                ),
            ),
        ],
{
}

/// What is reported of an event that is added or removed is its number in the
/// lineup and its label, with a reminder where a slot is selected.
pub proof fn law_lineup_edits_are_reported(s: StateView, e: EventDef, n: usize, now_ns: u64)
    ensures
        ({
            let hint = if s.selected_slot is Some {
                "  [unsaved — /slot save]"@
            } else {
                ""@
            };
            &&& s.ran_effects(CommandView::LineupAdd(Some(e)), now_ns) == seq![
                EffectView::Log(
                    "added event "@ + text::dec(s.lineup.len() + 1) + ": "@ + e.label_text()
                        + " (splits every "@ + text::dec(e.split_yards as nat) + " yd)"@ + hint,
                ),
            ]
            &&& 1 <= n <= s.lineup.len() ==> s.ran_effects(
                CommandView::LineupRemove(Some(n)),
                now_ns,
            ) == seq![
                EffectView::Log(
                    "removed event "@ + text::dec(n as nat) + ": "@ + s.lineup[n - 1].label_text()
                        + hint,
                ),
            ]
            &&& s.ran_effects(CommandView::LineupClear, now_ns) == seq![
                EffectView::Log("lineup cleared"@ + hint),
            ]
        }),
{
}

/// What is reported of a slot that is loaded or saved is its number, its name
/// and how many events it has; before loading, that unsaved edits of another
/// slot's lineup are given up.
pub proof fn law_slot_commands_are_reported(s: StateView, n: u8, now_ns: u64)
    requires
        s.wf(),
        s.in_progress is None,
        1 <= n <= 8,
    ensures
        ({
            let e = s.ran_effects(CommandView::SlotUse(Some(n)), now_ns);
            let slot = s.slots[n - 1];
            let last = EffectView::Log(
                "selected slot "@ + (text::dec(n as nat) + ": \""@ + slot.name + "\" ("@ + text::dec(
                    slot.lineup.len(),
                ) + " events)"@),
            );
            let given_up = s.lineup_dirty && s.selected_slot is Some && s.selected_slot != Some(n);
            &&& given_up ==> e.len() == 2 && e[1] == last && e[0] == EffectView::Log(
                "(discarding unsaved working-lineup edits from slot "@ + text::dec(
                    s.selected_slot->0 as nat,
                ) + ")"@,
            )
            &&& !given_up ==> e.len() == 1 && e[0] == last
        }),
        s.selected_slot == Some(n) ==> s.ran_effects(CommandView::SlotSave, now_ns) == seq![
            EffectView::Log(
                "saved working lineup to slot "@ + (text::dec(n as nat) + ": \""@ + s.slots[n
                    - 1].name + "\" ("@ + text::dec(s.lineup.len()) + " events)"@),
            ),
        ],
{
}

/// What a command that is refused, incomplete or unknown logs.
pub proof fn law_refused_commands_are_reported(
    s: StateView,
    n: u8,
    k: usize,
    w: Seq<char>,
    g: Gender,
    now_ns: u64,
)
    requires
        s.wf(),
    ensures
        s.ran_effects(CommandView::Event(None), now_ns) == seq![EffectView::Log("usage: /event N"@)],
        s.ran_effects(CommandView::Heat(None), now_ns) == seq![EffectView::Log("usage: /heat N"@)],
        s.ran_effects(CommandView::Dq(None), now_ns) == seq![EffectView::Log("usage: /dq L"@)],
        s.in_progress is None ==> s.ran_effects(CommandView::Race(None), now_ns) == seq![
            EffectView::Log("usage: /race N"@),
        ],
        s.in_progress is Some ==> s.ran_effects(CommandView::Race(Some(1)), now_ns) == seq![
            EffectView::Log(
                "cannot change /race while a race is in progress (finalize with / first)"@,
            ),
        ],
        s.in_progress is Some ==> s.ran_effects(CommandView::Lanes(Some((n, n))), now_ns) == seq![
            EffectView::Log(
                "cannot change /lanes while a race is in progress (finalize with / first)"@,
            ),
        ],
        s.in_progress is Some ==> s.ran_effects(CommandView::SlotUse(Some(n)), now_ns) == seq![
            EffectView::Log(
                "cannot change /slot while a race is in progress (finalize with / first)"@,
            ),
        ],
        s.in_progress is Some ==> s.ran_effects(CommandView::SlotSave, now_ns) == seq![
            EffectView::Log(
                "cannot /slot save while a race is in progress (finalize with / first)"@,
            ),
        ],
        s.in_progress is None && s.selected_slot is None ==> s.ran_effects(
            CommandView::SlotSave,
            now_ns,
        ) == seq![EffectView::Log("no slot selected — /slot use N first"@)],
        s.selected_slot is None ==> s.ran_effects(CommandView::SlotRename(Some(w)), now_ns) == seq![
            EffectView::Log("no slot selected — /slot use N first"@),
        ],
        s.selected_slot is Some ==> s.ran_effects(CommandView::SlotRename(None), now_ns) == seq![
            EffectView::Log("usage: /slot rename <new name>"@),
        ],
        k == 0 || k > s.lineup.len() ==> s.ran_effects(CommandView::LineupRemove(Some(k)), now_ns)
            == seq![
            EffectView::Log(
                "event "@ + text::dec(k as nat) + " out of range (lineup has "@ + text::dec(
                    s.lineup.len(),
                ) + " event"@ + (if s.lineup.len() == 1 {
                    ""@
                } else {
                    "s"@
                }) + ")"@,
            ),
        ],
        s.ran_effects(CommandView::LineupRemove(None), now_ns) == seq![
            EffectView::Log("usage: /lineup remove N  (1-based event index)"@),
        ],
        s.ran_effects(CommandView::LineupPreset(None, g), now_ns) == seq![
            EffectView::Log("usage: /lineup preset <hs|ncaa13|ncaa15|ncaa16> [M|F|X]"@),
        ],
        s.ran_effects(CommandView::LineupOther(w), now_ns) == seq![
            EffectView::Log("unknown lineup subcommand: "@ + w),
        ],
        s.ran_effects(CommandView::Other(w), now_ns) == seq![
            EffectView::Log("unknown command: /"@ + w + " (try /help)"@),
        ],
        s.ran_effects(CommandView::SlotOther(w), now_ns) == seq![
            EffectView::Log(
                "unknown slot subcommand: "@ + w
                    + " (try /slot | /slot N | /slot use N | /slot save | /slot rename <name>)"@,
            ),
        ],
{
}

/// A slot number outside 1 to 8 is reported as such; the commands that need one
/// and have none say what they take.
pub proof fn law_slot_numbers_are_checked(s: StateView, n: u8, now_ns: u64)
    requires
        s.wf(),
        n == 0 || n > 8,
    ensures
        ({
            let message = seq![
                EffectView::Log("slot "@ + text::dec(n as nat) + " out of range (1..="@ + "8"@ + ")"@),
            ];
            &&& s.in_progress is None ==> s.ran_effects(CommandView::SlotUse(Some(n)), now_ns)
                == message
            &&& s.ran_effects(CommandView::SlotNumber(n), now_ns) == message
            &&& s.ran_effects(CommandView::SlotShow(Some(n)), now_ns) == message
            &&& s.ran_effects(CommandView::SlotUse(None), now_ns) == seq![
                EffectView::Log("usage: /slot use <1..="@ + "8"@ + ">"@),
            ]
            &&& s.selected_slot is None ==> s.ran_effects(CommandView::SlotShow(None), now_ns)
                == seq![
                EffectView::Log("no slot selected — usage: /slot show <1..="@ + "8"@ + ">"@),
            ]
            &&& s.ran_effects(CommandView::Lanes(None), now_ns) == seq![
                EffectView::Log(
                    "usage: /lanes A..B  (1..="@ + "10"@
                        + ", e.g. /lanes 1..10, /lanes 2..8, /lanes 1..1)"@,
                ),
            ]
        }),
{
    reveal_strlit("8");
    reveal_strlit("10");
    text::law_decimal_notation(8);
    text::law_decimal_notation(10);
    text::law_decimal_notation(1);
    assert(text::dec(8) =~= "8"@);
    assert(text::dec(10) =~= "10"@);
}

/// What a listing command logs is its listing, line by line; a slot is shown by
/// its number, or the selected one without.
pub proof fn law_listings_are_logged(s: StateView, n: u8, now_ns: u64)
    requires
        s.wf(),
        1 <= n <= 8,
    ensures
        s.ran_effects(CommandView::LineupShow, now_ns) == output::logs(listing::lineup_rows(s)),
        s.ran_effects(CommandView::SlotList, now_ns) == output::logs(listing::slot_rows(s)),
        s.ran_effects(CommandView::Races, now_ns) == output::logs(listing::race_rows(s)),
        s.ran_effects(CommandView::SlotNumber(n), now_ns) == output::logs(
            listing::slot_lineup_rows(s, n),
        ),
        s.ran_effects(CommandView::SlotShow(Some(n)), now_ns) == output::logs(
            listing::slot_lineup_rows(s, n),
        ),
        s.selected_slot == Some(n) ==> s.ran_effects(CommandView::SlotShow(None), now_ns)
            == output::logs(listing::slot_lineup_rows(s, n)),
        s.ran_effects(CommandView::Status, now_ns) == seq![
            EffectView::Log(listing::status_text(s)),
        ],
        s.ran_effects(CommandView::Help, now_ns) == seq![EffectView::Log(listing::HELP_TEXT@)],
        s.ran_effects(CommandView::Quit, now_ns).len() == 0,
{
}

/// What is logged of a preset that is loaded is how many events it has, and of a
/// slot that is renamed its number and its new name.
pub proof fn law_presets_and_names_are_reported(
    s: StateView,
    p: Preset,
    g: Gender,
    name: Seq<char>,
    now_ns: u64,
)
    requires
        s.wf(),
    ensures
        s.ran_effects(CommandView::LineupPreset(Some(p), g), now_ns) == seq![
            EffectView::Log(
                "loaded preset lineup: "@ + text::dec(
                    s.ran(CommandView::LineupPreset(Some(p), g), now_ns).lineup.len(),
                ) + " events"@ + (if s.selected_slot is Some {
                    "  [unsaved — /slot save]"@
                } else {
                    ""@
                }),
            ),
        ],
        s.selected_slot matches Some(n) ==> s.ran_effects(
            CommandView::SlotRename(Some(name)),
            now_ns,
        ) == seq![
            EffectView::Log(
                "slot "@ + text::dec(n as nat) + " renamed to \""@ + s.ran(
                    CommandView::SlotRename(Some(name)),
                    now_ns,
                ).slots[n - 1].name + "\""@,
            ),
        ],
{
}

} // verus!
