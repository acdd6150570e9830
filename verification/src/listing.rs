//! What the operator is shown on request: lineups, slots, stored races, the
//! status line and the help text.

use vstd::prelude::*;
use vstd::string::*;

use crate::event::EventDef;
use crate::notation;
use crate::order;
use crate::output;
use crate::output::Effect;
use crate::race::RaceView;
use crate::running;
use crate::state::{Slot, SlotView, State, StateView, NUM_SLOTS};
use crate::text;

verus! {

/// Reminder shown behind a lineup edit that the selected slot does not have
/// yet.
pub open spec fn dirty_hint_text(s: StateView) -> Seq<char> {
    if s.selected_slot is Some && s.lineup_dirty {
        "  [unsaved — /slot save]"@
    } else {
        ""@
    }
}

pub fn dirty_hint(state: &State) -> (r: &'static str)
    ensures
        r@ == dirty_hint_text(state@),
{
    if state.selected_slot.is_some() && state.lineup_dirty {
        "  [unsaved — /slot save]"
    } else {
        ""
    }
}

/// One event of a lineup.
pub open spec fn event_row(num: int, e: EventDef) -> Seq<char> {
    "  event "@ + text::pad_left(text::dec(num as nat), 3) + ": "@ + e.label_text() + " (splits/"@
        + text::dec(e.split_yards as nat) + "yd, "@ + text::dec(e.segments()) + " touch"@
        + notation::plural_text(e.segments() as int, ""@, "es"@) + ")"@
}

fn event_line(num: usize, e: &EventDef) -> (r: String)
    ensures
        r@ == event_row(num as int, *e),
{
    let segs: u16 = e.total_segments();
    let mut s: String = String::from_str("  event ");
    text::put_dec_left(&mut s, num as u64, 3);
    s.append(": ");
    let label: String = e.label();
    s.append(label.as_str());
    s.append(" (splits/");
    text::put_dec(&mut s, e.split_yards as u64);
    s.append("yd, ");
    text::put_dec(&mut s, segs as u64);
    s.append(" touch");
    s.append(notation::plural(segs as usize, "", "es"));
    s.append(")");
    s
}

/// The events of a lineup, one per line; the event with number `marked` has an
/// arrow.
pub open spec fn event_rows(lineup: Seq<EventDef>, marked: int) -> Seq<Seq<char>> {
    Seq::new(
        lineup.len(),
        |i: int|
            event_row(i + 1, lineup[i]) + if i + 1 == marked {
                " ←"@
            } else {
                ""@
            },
    )
}

fn put_event_lines(lines: &mut Vec<String>, lineup: &Vec<EventDef>, marked: usize)
    ensures
        text::texts(final(lines)@) == text::texts(old(lines)@) + event_rows(
            lineup@,
            marked as int,
        ),
{
    let ghost before = text::texts(lines@);
    let ghost all = event_rows(lineup@, marked as int);
    let n: usize = lineup.len();
    let mut i: usize = 0;
    assert(before + all.take(0) =~= before);
    while i < n
        invariant
            n == lineup@.len(),
            all == event_rows(lineup@, marked as int),
            i <= n,
            text::texts(lines@) == before + all.take(i as int),
        decreases n - i,
    {
        let mut s: String = event_line(i + 1, &lineup[i]);
        s.append(
            if i + 1 == marked {
                " ←"
            } else {
                ""
            },
        );
        assert(s@ == all[i as int]);
        text::put_line(lines, s);
        i = i + 1;
        assert((before + all.take(i - 1)).push(all[i - 1]) =~= before + all.take(i as int));
    }
    assert(all.take(n as int) =~= all);
}

/// A slot's name and size.
pub open spec fn slot_summary(slot: SlotView) -> Seq<char> {
    "\""@ + slot.name + "\" ("@ + text::dec(slot.lineup.len()) + " event"@ + notation::plural_text(
        slot.lineup.len() as int,
        ""@,
        "s"@,
    ) + ")"@
}

fn slot_summary_of(slot: &Slot) -> (r: String)
    ensures
        r@ == slot_summary(slot@),
{
    let mut s: String = String::from_str("\"");
    s.append(slot.name.as_str());
    s.append("\" (");
    text::put_dec(&mut s, slot.lineup.len() as u64);
    s.append(" event");
    s.append(notation::plural(slot.lineup.len(), "", "s"));
    s.append(")");
    s
}

/// The slots, one per line; the selected one has an arrow. Then what is to be
/// done about the working lineup.
pub open spec fn slot_rows(s: StateView) -> Seq<Seq<char>> {
    Seq::new(
        s.slots.len(),
        |i: int|
            "  slot "@ + text::dec((i + 1) as nat) + ": "@ + slot_summary(s.slots[i]) + if
                s.selected_slot == Some((i + 1) as u8) {
                " ←"@
            } else {
                ""@
            },
    ) + if s.selected_slot is None {
        seq!["(no slot selected — /slot N to load one)"@]
    } else if s.lineup_dirty {
        seq!["(working lineup has unsaved edits — /slot save to commit)"@]
    } else {
        Seq::empty()
    }
}

/// Lists the slots.
pub fn print_slots(state: &State, out: &mut Vec<Effect>)
    requires
        state.wf(),
    ensures
        output::effects(final(out)@) == output::effects(old(out)@) + output::logs(
            slot_rows(state@),
        ),
{
    let ghost all = slot_rows(state@);
    let mut lines: Vec<String> = Vec::new();
    let mut i: usize = 0;
    assert(text::texts(lines@) =~= all.take(0));
    while i < NUM_SLOTS
        invariant
            state.wf(),
            all == slot_rows(state@),
            i <= NUM_SLOTS,
            text::texts(lines@) == all.take(i as int),
        decreases NUM_SLOTS - i,
    {
        let num: u8 = i as u8 + 1;
        let mut s: String = String::from_str("  slot ");
        text::put_dec(&mut s, num as u64);
        s.append(": ");
        let summary: String = slot_summary_of(&state.slots[i]);
        s.append(summary.as_str());
        let selected: bool = match state.selected_slot {
            Some(n) => n == num,
            None => false,
        };
        s.append(
            if selected {
                " ←"
            } else {
                ""
            },
        );
        assert(s@ == all[i as int]);
        text::put_line(&mut lines, s);
        i = i + 1;
        assert(all.take(i - 1).push(all[i - 1]) =~= all.take(i as int));
    }
    if state.selected_slot.is_none() {
        text::put_line(&mut lines, String::from_str("(no slot selected — /slot N to load one)"));
    } else if state.lineup_dirty {
        text::put_line(
            &mut lines,
            String::from_str("(working lineup has unsaved edits — /slot save to commit)"),
        );
    }
    assert(text::texts(lines@) =~= all);
    output::say_all(out, &lines);
}

/// Slot `n` in a line, with an arrow at the selected one.
pub open spec fn slot_heading(s: StateView, n: u8) -> Seq<char> {
    "slot "@ + text::dec(n as nat) + ": "@ + slot_summary(s.slots[n - 1]) + if s.selected_slot
        == Some(n) {
        " ← selected"@
    } else {
        ""@
    }
}

/// Writes slot `n` in a line.
pub fn slot_heading_of(state: &State, n: u8) -> (r: String)
    requires
        state.wf(),
        1 <= n <= NUM_SLOTS,
    ensures
        r@ == slot_heading(state@, n),
{
    let mut s: String = String::from_str("slot ");
    text::put_dec(&mut s, n as u64);
    s.append(": ");
    let summary: String = slot_summary_of(&state.slots[n as usize - 1]);
    s.append(summary.as_str());
    let selected: bool = match state.selected_slot {
        Some(k) => k == n,
        None => false,
    };
    s.append(
        if selected {
            " ← selected"
        } else {
            ""
        },
    );
    s
}

/// The stored contents of slot `n`, not the working lineup.
pub open spec fn slot_lineup_rows(s: StateView, n: u8) -> Seq<Seq<char>> {
    let slot = s.slots[n - 1];
    seq![slot_heading(s, n)] + if slot.lineup.len() == 0 {
        seq!["  (empty slot)"@]
    } else {
        event_rows(slot.lineup, 0)
    }
}

/// The lines that list the lineup stored in slot `n`.
pub fn slot_lineup_lines(state: &State, n: u8) -> (r: Vec<String>)
    requires
        state.wf(),
        1 <= n <= NUM_SLOTS,
    ensures
        text::texts(r@) == slot_lineup_rows(state@, n),
{
    let slot: &Slot = &state.slots[n as usize - 1];
    let mut lines: Vec<String> = Vec::new();
    text::put_line(&mut lines, slot_heading_of(state, n));
    if slot.lineup.len() == 0 {
        text::put_line(&mut lines, String::from_str("  (empty slot)"));
    } else {
        put_event_lines(&mut lines, &slot.lineup, 0);
    }
    assert(text::texts(lines@) =~= slot_lineup_rows(state@, n));
    lines
}

/// Lists the lineup stored in slot `n`.
pub fn print_slot_lineup(state: &State, n: u8, out: &mut Vec<Effect>)
    requires
        state.wf(),
        1 <= n <= NUM_SLOTS,
    ensures
        output::effects(final(out)@) == output::effects(old(out)@) + output::logs(
            slot_lineup_rows(state@, n),
        ),
{
    let lines: Vec<String> = slot_lineup_lines(state, n);
    output::say_all(out, &lines);
}

/// The working lineup, with an arrow at the current event.
pub open spec fn lineup_rows(s: StateView) -> Seq<Seq<char>> {
    seq![
        match s.selected_slot {
            Some(n) => "working lineup (from slot "@ + text::dec(n as nat) + ": \""@ + s.slots[n
                - 1].name + "\")"@ + if s.lineup_dirty {
                " [unsaved edits]"@
            } else {
                ""@
            },
            None => "working lineup (no slot selected)"@,
        },
    ] + if s.lineup.len() == 0 {
        seq!["  (no events configured)"@]
    } else {
        event_rows(s.lineup, s.current_event as int)
    }
}

/// Lists the working lineup.
pub fn print_lineup(state: &State, out: &mut Vec<Effect>)
    requires
        state.wf(),
    ensures
        output::effects(final(out)@) == output::effects(old(out)@) + output::logs(
            lineup_rows(state@),
        ),
{
    let mut lines: Vec<String> = Vec::new();
    match state.selected_slot {
        Some(n) => {
            let mut s: String = String::from_str("working lineup (from slot ");
            text::put_dec(&mut s, n as u64);
            s.append(": \"");
            s.append(state.slots[n as usize - 1].name.as_str());
            s.append("\")");
            s.append(
                if state.lineup_dirty {
                    " [unsaved edits]"
                } else {
                    ""
                },
            );
            text::put_line(&mut lines, s);
        },
        None => {
            text::put_line(&mut lines, String::from_str("working lineup (no slot selected)"));
        },
    }
    if state.lineup.len() == 0 {
        text::put_line(&mut lines, String::from_str("  (no events configured)"));
    } else {
        put_event_lines(&mut lines, &state.lineup, state.current_event as usize);
    }
    assert(text::texts(lines@) =~= lineup_rows(state@));
    output::say_all(out, &lines);
}

/// One stored race.
pub open spec fn race_row(r: RaceView) -> Seq<char> {
    "  race "@ + text::pad_left(text::dec(r.id as nat), 3) + ": event "@ + text::dec(r.event as nat)
        + " heat "@ + text::dec(r.heat as nat) + " ("@ + text::dec(
        running::row_count(r.lanes, r.lanes.len()),
    ) + " lanes, "@ + text::dec(r.splits_count as nat) + " splits)"@
}

/// The numbers of the stored races, ascending.
pub open spec fn race_numbers(s: StateView) -> Seq<int> {
    order::ascending(|x: int| s.races.contains_key(x as u16), 0x1_0000)
}

/// The stored races in the order of their numbers.
pub open spec fn race_rows(s: StateView) -> Seq<Seq<char>> {
    if s.races.dom().len() == 0 {
        seq!["(no races stored)"@]
    } else {
        race_numbers(s).map_values(|id: int| race_row(s.races[id as u16]))
    }
}

/// Number of stored races.
fn stored_races(state: &State) -> (r: usize)
    ensures
        r == state@.races.dom().len(),
{
    assert(state@.races.dom() =~= state.races@.dom());
    state.races.len()
}

/// Lists the stored races.
pub fn print_races(state: &State, out: &mut Vec<Effect>)
    requires
        state.wf(),
    ensures
        output::effects(final(out)@) == output::effects(old(out)@) + output::logs(
            race_rows(state@),
        ),
{
    let ghost all = race_rows(state@);
    let mut lines: Vec<String> = Vec::new();
    if stored_races(state) == 0 {
        text::put_line(&mut lines, String::from_str("(no races stored)"));
        assert(text::texts(lines@) =~= all);
    } else {
        let ids: Vec<u16> = order::sorted_keys16(&state.races);
        proof {
            let p = |x: int| state.races@.contains_key(x as u16);
            let q = |x: int| state@.races.contains_key(x as u16);
            assert(p =~= q);
        }
        assert(order::ints16(ids@) == race_numbers(state@));
        let n: usize = ids.len();
        let mut i: usize = 0;
        assert(text::texts(lines@) =~= all.take(0));
        while i < n
            invariant
                state.wf(),
                n == ids@.len(),
                order::ints16(ids@) == race_numbers(state@),
                all == race_numbers(state@).map_values(|id: int| race_row(state@.races[id as u16])),
                i <= n,
                text::texts(lines@) == all.take(i as int),
            decreases n - i,
        {
            let id: u16 = ids[i];
            assert(race_numbers(state@)[i as int] == id as int);
            proof {
                order::lemma_ascending(|x: int| state@.races.contains_key(x as u16), 0x1_0000);
            }
            assert(state@.races.contains_key(id));
            match state.races.get(&id) {
                Some(r) => {
                    let mut s: String = String::from_str("  race ");
                    text::put_dec_left(&mut s, r.id as u64, 3);
                    s.append(": event ");
                    text::put_dec(&mut s, r.event as u64);
                    s.append(" heat ");
                    text::put_dec(&mut s, r.heat as u64);
                    s.append(" (");
                    text::put_dec(&mut s, running::count_rows(r));
                    s.append(" lanes, ");
                    text::put_dec(&mut s, r.splits_count as u64);
                    s.append(" splits)");
                    assert(s@ == all[i as int]);
                    text::put_line(&mut lines, s);
                },
                None => {
                    assert(false);
                },
            }
            i = i + 1;
            assert(all.take(i - 1).push(all[i - 1]) =~= all.take(i as int));
        }
        assert(all.len() == n);
        assert(all.take(n as int) =~= all);
    }
    output::say_all(out, &lines);
}

/// The status line.
pub open spec fn status_text(s: StateView) -> Seq<char> {
    "event="@ + text::dec(s.current_event as nat) + " heat="@ + text::dec(s.current_heat as nat)
        + " next_race_no="@ + text::dec(s.next_race_no as nat) + " slot="@ + (
    match s.selected_slot {
        Some(n) => text::dec(n as nat) + " \""@ + s.slots[n - 1].name + "\""@,
        None => "(none)"@,
    }) + " lanes="@ + text::dec(s.lane_spread.0 as nat) + ".."@ + text::dec(
        s.lane_spread.1 as nat,
    ) + " in_progress="@ + if s.in_progress is Some {
        "true"@
    } else {
        "false"@
    } + " stored="@ + text::dec(s.races.dom().len())
}

pub fn status_line(state: &State) -> (r: String)
    requires
        state.wf(),
    ensures
        r@ == status_text(state@),
{
    let mut s: String = String::from_str("event=");
    text::put_dec(&mut s, state.current_event as u64);
    s.append(" heat=");
    text::put_dec(&mut s, state.current_heat as u64);
    s.append(" next_race_no=");
    text::put_dec(&mut s, state.next_race_no as u64);
    s.append(" slot=");
    let slot: String = match state.selected_slot {
        Some(n) => {
            let mut t: String = text::dec_string(n as u64);
            t.append(" \"");
            t.append(state.slots[n as usize - 1].name.as_str());
            t.append("\"");
            t
        },
        None => String::from_str("(none)"),
    };
    s.append(slot.as_str());
    s.append(" lanes=");
    text::put_dec(&mut s, state.lane_spread.0 as u64);
    s.append("..");
    text::put_dec(&mut s, state.lane_spread.1 as u64);
    s.append(" in_progress=");
    s.append(
        if state.in_progress.is_some() {
            "true"
        } else {
            "false"
        },
    );
    s.append(" stored=");
    text::put_dec(&mut s, stored_races(state) as u64);
    s
}

/// Help text of the command language.
pub const HELP_TEXT: &'static str = "cts6 emulator commands:\n\
     \n\
     meet setup:\n\
       /event N                  set active event\n\
       /heat  N                  set active heat\n\
       /race  N                  set next race number (resume mid-meet)\n\
       /lanes A..B               set active lane spread (1..=10,\n\
                                   e.g. /lanes 1..10, 2..8, 1..1)\n\
       /slot                     open sequence-memory popup (TUI):\n\
                                   ↑↓ navigate, Enter to view a slot's\n\
                                   lineup, then Enter to load it,\n\
                                   Esc/Backspace to go back\n\
       /slot N                   show slot N's stored event lineup\n\
       /slot use N               load slot N's lineup into the working\n\
                                   copy (1..=8) for editing/use\n\
       /slot save                save the working lineup back to the\n\
                                   selected slot's memory\n\
       /slot rename <name>       rename the selected slot (≤20 chars)\n\
       /lineup show              list the working-copy events\n\
       /lineup add D G S [Y]     add event to working copy\n\
                                   (distance, M|F|X, stroke 1/FR 2/BK\n\
                                   3/BR 4/FL 5/IM 6/MED-R 7/FR-R DV,\n\
                                   optional split-yds)\n\
       /lineup remove N          delete event N from working copy\n\
       /lineup clear             empty the working-copy events\n\
     \n\
     running a race:\n\
       <enter>                   start the race (timestamp 0.000)\n\
       N (in spread)             touch lane N — each touch is a split\n\
                                   (1st = split 1, 2nd = split 2, …)\n\
       1 3 5                     batch — multiple touches at once\n\
       /dq L                     mark lane L as DQ\n\
       / | /print                finalize: last touch per lane = finish,\n\
                                   earlier touches = cumulative splits;\n\
                                   places assigned by ascending finish.\n\
                                   Heat auto-bumps by 1.\n\
     \n\
     inspection:\n\
       /races                    list stored races\n\
       /status                   show current state\n\
       /help                     this message (popup; Esc/Enter to close)\n\
       /quit                     exit\n\
     \n\
     stored events tree (right pane):\n\
       Tab                       focus the tree (Tab/Esc returns to input)\n\
       ↑ ↓ Home End              navigate rows\n\
       → / Enter                 expand event/heat\n\
       ←                         collapse (or jump to parent on a race)";

/// Shows the help text.
pub fn print_help(out: &mut Vec<Effect>)
    ensures
        output::effects(final(out)@) == output::effects(old(out)@) + output::log1(HELP_TEXT@),
{
    output::say(out, String::from_str(HELP_TEXT));
}

/// An event of a lineup is listed with its number, its label, its split and the
/// touches that it takes; the current event of the working lineup has an arrow,
/// and the events of a slot have none.
pub proof fn law_events_are_listed(s: StateView, n: u8, i: int)
    requires
        s.wf(),
        1 <= n <= 8,
    ensures
        0 <= i < s.lineup.len() ==> ({
            let e = s.lineup[i];
            &&& lineup_rows(s).len() == s.lineup.len() + 1
            &&& lineup_rows(s)[i + 1] == "  event "@ + text::pad_left(
                text::dec((i + 1) as nat),
                3,
            ) + ": "@ + e.label_text() + " (splits/"@ + text::dec(e.split_yards as nat) + "yd, "@
                + text::dec(e.segments()) + " touch"@ + (if e.segments() == 1 {
                ""@
            } else {
                "es"@
            }) + ")"@ + (if i + 1 == s.current_event {
                " ←"@
            } else {
                ""@
            })
        }),
        0 <= i < s.slots[n - 1].lineup.len() ==> ({
            let e = s.slots[n - 1].lineup[i];
            &&& slot_lineup_rows(s, n).len() == s.slots[n - 1].lineup.len() + 1
            &&& slot_lineup_rows(s, n)[i + 1] == "  event "@ + text::pad_left(
                text::dec((i + 1) as nat),
                3,
            ) + ": "@ + e.label_text() + " (splits/"@ + text::dec(e.split_yards as nat) + "yd, "@
                + text::dec(e.segments()) + " touch"@ + (if e.segments() == 1 {
                ""@
            } else {
                "es"@
            }) + ")"@ + ""@
        }),
        s.lineup.len() == 0 ==> lineup_rows(s).len() == 2 && lineup_rows(s)[1]
            == "  (no events configured)"@,
        s.slots[n - 1].lineup.len() == 0 ==> slot_lineup_rows(s, n).len() == 2 && slot_lineup_rows(
            s,
            n,
        )[1] == "  (empty slot)"@,
{
}

/// Above its events, the working lineup is listed with the slot that it is from
/// and whether it has unsaved edits, and a slot with its number, its name, how
/// many events it has and whether it is selected.
pub proof fn law_lineups_have_a_heading(s: StateView, n: u8)
    requires
        s.wf(),
        1 <= n <= 8,
    ensures
        s.selected_slot is None ==> lineup_rows(s)[0] == "working lineup (no slot selected)"@,
        s.selected_slot == Some(n) ==> lineup_rows(s)[0] == "working lineup (from slot "@
            + text::dec(n as nat) + ": \""@ + s.slots[n - 1].name + "\")"@ + (if s.lineup_dirty {
            " [unsaved edits]"@
        } else {
            ""@
        }),
        slot_lineup_rows(s, n)[0] == "slot "@ + text::dec(n as nat) + ": "@ + ("\""@ + s.slots[n
            - 1].name + "\" ("@ + text::dec(s.slots[n - 1].lineup.len()) + " event"@ + (
        if s.slots[n - 1].lineup.len() == 1 {
            ""@
        } else {
            "s"@
        }) + ")"@) + (if s.selected_slot == Some(n) {
            " ← selected"@
        } else {
            ""@
        }),
{
}

/// The eight slots are listed in order, with their names and how many events
/// they have, an arrow at the selected one; behind them stands what is to be
/// done where no slot is selected or edits are not saved.
pub proof fn law_slots_are_listed(s: StateView, i: int)
    requires
        s.wf(),
    ensures
        slot_rows(s).len() == (if s.selected_slot is None || s.lineup_dirty {
            9int
        } else {
            8
        }),
        0 <= i < 8 ==> slot_rows(s)[i] == "  slot "@ + text::dec((i + 1) as nat) + ": "@ + ("\""@
            + s.slots[i].name + "\" ("@ + text::dec(s.slots[i].lineup.len()) + " event"@ + (
        if s.slots[i].lineup.len() == 1 {
            ""@
        } else {
            "s"@
        }) + ")"@) + (if s.selected_slot == Some((i + 1) as u8) {
            " ←"@
        } else {
            ""@
        }),
        s.selected_slot is None ==> slot_rows(s)[8] == "(no slot selected — /slot N to load one)"@,
        s.selected_slot is Some && s.lineup_dirty ==> slot_rows(s)[8]
            == "(working lineup has unsaved edits — /slot save to commit)"@,
{
}

/// The stored races are listed in the order of their numbers, each once, with
/// number, event and heat, how many lanes have a row and how many splits there
/// are.
pub proof fn law_races_are_listed(s: StateView, i: int, id: u16)
    requires
        s.wf(),
        s.races.dom().len() > 0,
    ensures
        race_rows(s).len() == race_numbers(s).len(),
        0 <= i < race_rows(s).len() ==> ({
            let n = race_numbers(s)[i];
            let r = s.races[n as u16];
            &&& 0 <= n < 65_536 && s.races.contains_key(n as u16)
            &&& race_rows(s)[i] == "  race "@ + text::pad_left(text::dec(r.id as nat), 3)
                + ": event "@ + text::dec(r.event as nat) + " heat "@ + text::dec(r.heat as nat)
                + " ("@ + text::dec(running::row_count(r.lanes, 10)) + " lanes, "@ + text::dec(
                r.splits_count as nat,
            ) + " splits)"@
        }),
        0 < i < race_rows(s).len() ==> race_numbers(s)[i - 1] < race_numbers(s)[i],
        s.races.contains_key(id) ==> race_numbers(s).contains(id as int),
{
    let p = |x: int| s.races.contains_key(x as u16);
    order::lemma_ascending(p, 0x1_0000);
    if 0 <= i < race_rows(s).len() {
        let n = race_numbers(s)[i];
        assert(p(n));
        assert(s.races[n as u16].wf());
    }
    if s.races.contains_key(id) {
        assert(p(id as int));
    }
}

/// The status line says event, heat and next race number, the selected slot, the
/// lanes in use, whether a race is in progress and how many are stored.
pub proof fn law_status_line(s: StateView)
    requires
        s.wf(),
    ensures
        ({
            let slot = if s.selected_slot is Some {
                text::dec(s.selected_slot->0 as nat) + " \""@ + s.slots[s.selected_slot->0
                    - 1].name + "\""@
            } else {
                "(none)"@
            };
            let running = if s.in_progress is Some {
                "true"@
            } else {
                "false"@
            };
            status_text(s) == "event="@ + text::dec(s.current_event as nat) + " heat="@ + text::dec(
                s.current_heat as nat,
            ) + " next_race_no="@ + text::dec(s.next_race_no as nat) + " slot="@ + slot
                + " lanes="@ + text::dec(s.lane_spread.0 as nat) + ".."@ + text::dec(
                s.lane_spread.1 as nat,
            ) + " in_progress="@ + running + " stored="@ + text::dec(s.races.dom().len())
        }),
{
}

/// The reminder behind a lineup edit stands where a slot is selected and its
/// edits are not saved.
pub proof fn law_reminder(s: StateView)
    ensures
        s.selected_slot is Some && s.lineup_dirty ==> dirty_hint_text(s)
            == "  [unsaved — /slot save]"@,
        s.selected_slot is None || !s.lineup_dirty ==> dirty_hint_text(s) == ""@,
{
}

} // verus!
