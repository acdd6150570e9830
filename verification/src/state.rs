//! The emulator's run-time model: lineup, sequence-memory slots, race in
//! progress, finalized races, navigation cursors and the buffered meet
//! download.

use std::collections::BTreeMap;

use vstd::prelude::*;
use vstd::string::*;

use crate::clock;
use crate::clock::MeetDate;
use crate::event;
use crate::event::{EventDef, Gender, Stroke};
use crate::output;
use crate::output::{Effect, EffectView};
use crate::race::{InProgress, InProgressView, Race, RaceView, MAX_LANES};
use crate::text;

verus! {

/// Sequence-memory slots of the console.
pub const NUM_SLOTS: usize = 8;

/// One sequence-memory slot: a named, stored lineup.
#[derive(Debug)]
pub struct Slot {
    pub name: String,
    pub lineup: Vec<EventDef>,
}

/// What a [`Slot`] holds.
#[verifier::ext_equal]
pub struct SlotView {
    pub name: Seq<char>,
    pub lineup: Seq<EventDef>,
}

impl View for Slot {
    type V = SlotView;

    open spec fn view(&self) -> SlotView {
        SlotView { name: self.name@, lineup: self.lineup@ }
    }
}

/// Navigation position within the history of one `(event, heat)`.
///
/// With N races stored, indices 0 to N-1:
///
/// * latest goes to `At(N-1)`;
/// * next goes from `At(i)` to `At(i+1)`, or to `PastEnd` at the last race;
///   from `PastEnd` and `PastStart` it goes to `At(0)`;
/// * previous goes from `At(i)` to `At(i-1)`, or to `PastStart` at the first
///   race; from `PastStart` and `PastEnd` it goes to `At(N-1)`.
///
/// Off either end nothing is returned.
#[derive(Debug, Clone, Copy, PartialEq, Eq, Structural)]
pub enum Cursor {
    At(usize),
    PastEnd,
    PastStart,
}

/// One event record of a meet download.
#[derive(Debug, Clone, Copy, PartialEq, Eq, Structural)]
pub struct LoadedEvent {
    pub event_num: u16,
    pub distance: u16,
    /// Index into the downloaded gender labels.
    pub gender_idx: u8,
    /// Index into the downloaded stroke labels.
    pub stroke_idx: u8,
    pub is_relay: bool,
}

/// Accumulator for an in-progress meet download: the label tables and event
/// records received so far.
#[derive(Debug)]
pub struct LoadingMeet {
    pub slot: u8,
    pub name: String,
    pub genders: Vec<String>,
    pub ages: Vec<String>,
    pub strokes: Vec<String>,
    pub rounds: Vec<String>,
    /// Populated event records, in arrival order.
    pub events: Vec<LoadedEvent>,
}

/// What a [`LoadingMeet`] holds.
#[verifier::ext_equal]
pub struct LoadingView {
    pub slot: u8,
    pub name: Seq<char>,
    pub genders: Seq<Seq<char>>,
    pub ages: Seq<Seq<char>>,
    pub strokes: Seq<Seq<char>>,
    pub rounds: Seq<Seq<char>>,
    pub events: Seq<LoadedEvent>,
}

impl View for LoadingMeet {
    type V = LoadingView;

    open spec fn view(&self) -> LoadingView {
        LoadingView {
            slot: self.slot,
            name: self.name@,
            genders: text::texts(self.genders@),
            ages: text::texts(self.ages@),
            strokes: text::texts(self.strokes@),
            rounds: text::texts(self.rounds@),
            events: self.events@,
        }
    }
}

impl LoadingView {
    /// A download of which only slot and name are known.
    pub open spec fn begun(slot: u8, name: Seq<char>) -> LoadingView {
        LoadingView {
            slot,
            name,
            genders: Seq::empty(),
            ages: Seq::empty(),
            strokes: Seq::empty(),
            rounds: Seq::empty(),
            events: Seq::empty(),
        }
    }
}

impl LoadingMeet {
    /// A download of which only slot and name are known.
    pub fn begin(slot: u8, name: String) -> (r: LoadingMeet)
        ensures
            r@ == LoadingView::begun(slot, name@),
    {
        let r: LoadingMeet = LoadingMeet {
            slot,
            name,
            genders: Vec::new(),
            ages: Vec::new(),
            strokes: Vec::new(),
            rounds: Vec::new(),
            events: Vec::new(),
        };
        assert(r@ =~= LoadingView::begun(slot, name@));
        r
    }
}

/// The emulator's whole state.
#[derive(Debug)]
pub struct State {
    pub current_event: u16,
    pub current_heat: u8,
    /// Race counter: the number of the next race.
    pub next_race_no: u16,
    /// Working event lineup. Index 0 is event 1.
    pub lineup: Vec<EventDef>,
    /// The race in progress, if any.
    pub in_progress: Option<InProgress>,
    /// All finalized races by race number.
    pub races: BTreeMap<u16, Race>,
    /// Race numbers of each `(event, heat)`, oldest first, under
    /// [`bucket_key`].
    pub history: BTreeMap<u32, Vec<u16>>,
    /// Navigation cursor of each `(event, heat)`, under [`bucket_key`].
    pub cursor: BTreeMap<u32, Cursor>,
    /// Inclusive range of the lanes in use.
    pub lane_spread: (u8, u8),
    /// Meet download in flight.
    pub loading: Option<LoadingMeet>,
    /// Sequence memory.
    pub slots: Vec<Slot>,
    /// Slot, from 1, that the working lineup belongs to.
    pub selected_slot: Option<u8>,
    /// Whether the working lineup was edited since it was loaded or saved.
    pub lineup_dirty: bool,
    /// Date reported by the meet-status frame.
    pub meet_date: MeetDate,
}

/// What a [`State`] holds.
#[verifier::ext_equal]
pub struct StateView {
    pub current_event: u16,
    pub current_heat: u8,
    pub next_race_no: u16,
    pub lineup: Seq<EventDef>,
    pub in_progress: Option<InProgressView>,
    pub races: Map<u16, RaceView>,
    pub history: Map<(u16, u8), Seq<u16>>,
    pub cursor: Map<(u16, u8), Cursor>,
    pub lane_spread: (u8, u8),
    pub loading: Option<LoadingView>,
    pub slots: Seq<SlotView>,
    pub selected_slot: Option<u8>,
    pub lineup_dirty: bool,
    pub meet_date: MeetDate,
}

/// The number under which the entries of `(event, heat)` are kept; in the
/// order of event and then heat.
pub open spec fn key_of(k: (u16, u8)) -> u32 {
    (k.0 * 256 + k.1) as u32
}

pub fn bucket_key(event: u16, heat: u8) -> (r: u32)
    ensures
        r == key_of((event, heat)),
{
    event as u32 * 256 + heat as u32
}

/// Race results by number.
pub open spec fn races_view(m: Map<u16, Race>) -> Map<u16, RaceView> {
    Map::new(|k: u16| m.contains_key(k), |k: u16| m[k]@)
}

/// Race numbers by event and heat.
pub open spec fn history_view(m: Map<u32, Vec<u16>>) -> Map<(u16, u8), Seq<u16>> {
    Map::new(|k: (u16, u8)| m.contains_key(key_of(k)), |k: (u16, u8)| m[key_of(k)]@)
}

/// Cursors by event and heat.
pub open spec fn cursor_view(m: Map<u32, Cursor>) -> Map<(u16, u8), Cursor> {
    Map::new(|k: (u16, u8)| m.contains_key(key_of(k)), |k: (u16, u8)| m[key_of(k)])
}

/// What the slots hold.
pub open spec fn slots_view(v: Seq<Slot>) -> Seq<SlotView> {
    Seq::new(v.len(), |i: int| v[i]@)
}

/// What an optional running race holds.
pub open spec fn in_progress_view(v: Option<InProgress>) -> Option<InProgressView> {
    match v {
        Some(ip) => Some(ip@),
        None => None,
    }
}

/// What an optional download holds.
pub open spec fn loading_view(v: Option<LoadingMeet>) -> Option<LoadingView> {
    match v {
        Some(l) => Some(l@),
        None => None,
    }
}

impl View for State {
    type V = StateView;

    open spec fn view(&self) -> StateView {
        StateView {
            current_event: self.current_event,
            current_heat: self.current_heat,
            next_race_no: self.next_race_no,
            lineup: self.lineup@,
            in_progress: in_progress_view(self.in_progress),
            races: races_view(self.races@),
            history: history_view(self.history@),
            cursor: cursor_view(self.cursor@),
            lane_spread: self.lane_spread,
            loading: loading_view(self.loading),
            slots: slots_view(self.slots@),
            selected_slot: self.selected_slot,
            lineup_dirty: self.lineup_dirty,
            meet_date: self.meet_date,
        }
    }
}

impl StateView {
    /// What holds of every state the emulator reaches.
    pub open spec fn wf(self) -> bool {
        &&& self.current_event >= 1
        &&& self.current_heat >= 1
        &&& 1 <= self.lane_spread.0 <= self.lane_spread.1 <= MAX_LANES
        &&& self.in_progress matches Some(ip) ==> ip.wf()
        &&& forall|id: u16| #[trigger]
            self.races.contains_key(id) ==> self.races[id].wf() && self.races[id].id == id
        &&& forall|k: (u16, u8)| #[trigger]
            self.history.contains_key(k) ==> k.0 >= 1 && self.bucket_ok(k)
        &&& forall|k: (u16, u8)| #[trigger] self.cursor.contains_key(k) ==> self.cursor_ok(k)
        &&& self.slots.len() == NUM_SLOTS
        &&& self.selected_slot matches Some(n) ==> 1 <= n <= NUM_SLOTS
        &&& self.meet_date.wf()
    }

    /// A history bucket is not empty and names stored races only.
    pub open spec fn bucket_ok(self, k: (u16, u8)) -> bool {
        &&& 0 < self.history[k].len() <= usize::MAX
        &&& forall|i: int|
            0 <= i < self.history[k].len() ==> self.races.contains_key(#[trigger] self.history[k][i])
    }

    /// A cursor belongs to a bucket and, if it is at a race, lies inside it.
    pub open spec fn cursor_ok(self, k: (u16, u8)) -> bool {
        &&& self.history.contains_key(k)
        &&& self.cursor[k] matches Cursor::At(i) ==> i < self.history[k].len()
    }

    /// The stored race `id`.
    pub open spec fn race(self, id: u16) -> Option<RaceView> {
        if self.races.contains_key(id) {
            Some(self.races[id])
        } else {
            None
        }
    }

    /// The event definition of event number `event`.
    pub open spec fn event_def(self, event: u16) -> Option<EventDef> {
        if 1 <= event <= self.lineup.len() {
            Some(self.lineup[event - 1])
        } else {
            None
        }
    }

    /// The state after asking for the latest race of `k`, and what is
    /// returned.
    pub open spec fn latest(self, k: (u16, u8)) -> (StateView, Option<RaceView>) {
        if !self.history.contains_key(k) {
            (self, None)
        } else {
            let n = self.history[k].len();
            (
                StateView { cursor: self.cursor.insert(k, Cursor::At((n - 1) as usize)), ..self },
                self.race(self.history[k].last()),
            )
        }
    }

    /// The state with the cursor of `k` moved to `to`, and the race there.
    pub open spec fn moved(self, k: (u16, u8), to: Cursor) -> (StateView, Option<RaceView>) {
        (
            StateView { cursor: self.cursor.insert(k, to), ..self },
            match to {
                Cursor::At(i) => self.race(self.history[k][i as int]),
                _ => None,
            },
        )
    }

    /// The state after asking for the race before the cursor of `k`, and what
    /// is returned.
    pub open spec fn previous(self, k: (u16, u8)) -> (StateView, Option<RaceView>) {
        if !self.history.contains_key(k) || !self.cursor.contains_key(k) {
            (self, None)
        } else {
            self.moved(
                k,
                match self.cursor[k] {
                    Cursor::At(i) => if i == 0 {
                        Cursor::PastStart
                    } else {
                        Cursor::At((i - 1) as usize)
                    },
                    _ => Cursor::At((self.history[k].len() - 1) as usize),
                },
            )
        }
    }

    /// The state after asking for the race after the cursor of `k`, and what
    /// is returned.
    pub open spec fn next(self, k: (u16, u8)) -> (StateView, Option<RaceView>) {
        if !self.history.contains_key(k) || !self.cursor.contains_key(k) {
            (self, None)
        } else {
            self.moved(
                k,
                match self.cursor[k] {
                    Cursor::At(i) => if i + 1 >= self.history[k].len() {
                        Cursor::PastEnd
                    } else {
                        Cursor::At((i + 1) as usize)
                    },
                    _ => Cursor::At(0),
                },
            )
        }
    }

    /// The state with slot `n` selected: its lineup becomes the working
    /// lineup.
    pub open spec fn slot_selected(self, n: u8) -> StateView {
        StateView {
            selected_slot: Some(n),
            lineup: self.slots[n - 1].lineup,
            lineup_dirty: false,
            ..self
        }
    }

    /// The state with the working lineup stored in the selected slot.
    pub open spec fn slot_saved(self) -> StateView {
        match self.selected_slot {
            Some(n) => StateView {
                slots: self.slots.update(
                    n - 1,
                    SlotView { lineup: self.lineup, ..self.slots[n - 1] },
                ),
                lineup_dirty: false,
                ..self
            },
            None => self,
        }
    }
}

/// Keys of different event and heat differ.
pub proof fn lemma_key_injective(a: (u16, u8), b: (u16, u8))
    ensures
        key_of(a) == key_of(b) ==> a == b,
        key_of(a) < 0x100_0000,
{
}

/// What a history insertion does to its view.
pub proof fn lemma_history_insert(m: Map<u32, Vec<u16>>, k: (u16, u8), v: Vec<u16>)
    ensures
        history_view(m.insert(key_of(k), v)) == history_view(m).insert(k, v@),
{
    assert forall|j: (u16, u8)| key_of(j) == key_of(k) implies j == k by {
        lemma_key_injective(j, k);
    }
    assert(history_view(m.insert(key_of(k), v)) =~= history_view(m).insert(k, v@));
}

/// What a cursor insertion does to its view.
pub proof fn lemma_cursor_insert(m: Map<u32, Cursor>, k: (u16, u8), c: Cursor)
    ensures
        cursor_view(m.insert(key_of(k), c)) == cursor_view(m).insert(k, c),
{
    assert forall|j: (u16, u8)| key_of(j) == key_of(k) implies j == k by {
        lemma_key_injective(j, k);
    }
    assert(cursor_view(m.insert(key_of(k), c)) =~= cursor_view(m).insert(k, c));
}

/// What a cursor removal does to its view.
pub proof fn lemma_cursor_remove(m: Map<u32, Cursor>, k: (u16, u8))
    ensures
        cursor_view(m.remove(key_of(k))) == cursor_view(m).remove(k),
{
    assert forall|j: (u16, u8)| key_of(j) == key_of(k) implies j == k by {
        lemma_key_injective(j, k);
    }
    assert(cursor_view(m.remove(key_of(k))) =~= cursor_view(m).remove(k));
}

impl State {
    /// The state is well formed, and history entries are kept under keys of
    /// an event and a heat only.
    pub open spec fn wf(&self) -> bool {
        &&& self@.wf()
        &&& forall|k: u32| #[trigger] self.history@.contains_key(k) ==> k < 0x100_0000
    }

    pub fn lookup_latest(&mut self, event: u16, heat: u8) -> (r: Option<&Race>)
        requires
            old(self).wf(),
        ensures
            final(self).wf(),
            final(self)@ == old(self)@.latest((event, heat)).0,
            match r {
                Some(race) => old(self)@.latest((event, heat)).1 == Some(race@),
                None => old(self)@.latest((event, heat)).1 is None,
            },
    {
        let key: u32 = bucket_key(event, heat);
        let ghost k = (event, heat);
        let ghost before = self@;
        let (last, at) = match self.history.get(&key) {
            None => {
                assert(!before.history.contains_key(k));
                return None;
            },
            Some(ids) => {
                assert(before.history.contains_key(k));
                assert(before.bucket_ok(k));
                let n: usize = ids.len();
                (ids[n - 1], n - 1)
            },
        };
        let ghost cursors = self.cursor@;
        self.cursor.insert(key, Cursor::At(at));
        proof {
            lemma_cursor_insert(cursors, k, Cursor::At(at));
            assert(self@ =~= before.latest(k).0);
        }
        self.races.get(&last)
    }

    pub fn lookup_previous(&mut self, event: u16, heat: u8) -> (r: Option<&Race>)
        requires
            old(self).wf(),
        ensures
            final(self).wf(),
            final(self)@ == old(self)@.previous((event, heat)).0,
            match r {
                Some(race) => old(self)@.previous((event, heat)).1 == Some(race@),
                None => old(self)@.previous((event, heat)).1 is None,
            },
    {
        let key: u32 = bucket_key(event, heat);
        let ghost k = (event, heat);
        let ghost before = self@;
        let cur: Cursor = match self.cursor.get(&key) {
            None => {
                assert(!before.cursor.contains_key(k));
                return None;
            },
            Some(c) => *c,
        };
        assert(before.cursor.contains_key(k));
        assert(before.cursor_ok(k));
        let (next_cur, picked): (Cursor, Option<u16>) = match self.history.get(&key) {
            None => {
                assert(false);
                return None;
            },
            Some(ids) => {
                assert(before.bucket_ok(k));
                let last_idx: usize = ids.len() - 1;
                match cur {
                    Cursor::At(i) => if i == 0 {
                        (Cursor::PastStart, None)
                    } else {
                        (Cursor::At(i - 1), Some(ids[i - 1]))
                    },
                    Cursor::PastEnd | Cursor::PastStart => (
                        Cursor::At(last_idx),
                        Some(ids[last_idx]),
                    ),
                }
            },
        };
        let ghost cursors = self.cursor@;
        self.cursor.insert(key, next_cur);
        proof {
            lemma_cursor_insert(cursors, k, next_cur);
            assert(self@ =~= before.previous(k).0);
        }
        match picked {
            Some(id) => self.races.get(&id),
            None => None,
        }
    }

    pub fn lookup_next(&mut self, event: u16, heat: u8) -> (r: Option<&Race>)
        requires
            old(self).wf(),
        ensures
            final(self).wf(),
            final(self)@ == old(self)@.next((event, heat)).0,
            match r {
                Some(race) => old(self)@.next((event, heat)).1 == Some(race@),
                None => old(self)@.next((event, heat)).1 is None,
            },
    {
        let key: u32 = bucket_key(event, heat);
        let ghost k = (event, heat);
        let ghost before = self@;
        let cur: Cursor = match self.cursor.get(&key) {
            None => {
                assert(!before.cursor.contains_key(k));
                return None;
            },
            Some(c) => *c,
        };
        assert(before.cursor.contains_key(k));
        assert(before.cursor_ok(k));
        let (next_cur, picked): (Cursor, Option<u16>) = match self.history.get(&key) {
            None => {
                assert(false);
                return None;
            },
            Some(ids) => {
                assert(before.bucket_ok(k));
                let last_idx: usize = ids.len() - 1;
                match cur {
                    Cursor::At(i) => if i >= last_idx {
                        (Cursor::PastEnd, None)
                    } else {
                        (Cursor::At(i + 1), Some(ids[i + 1]))
                    },
                    Cursor::PastEnd | Cursor::PastStart => (Cursor::At(0), Some(ids[0])),
                }
            },
        };
        let ghost cursors = self.cursor@;
        self.cursor.insert(key, next_cur);
        proof {
            lemma_cursor_insert(cursors, k, next_cur);
            assert(self@ =~= before.next(k).0);
        }
        match picked {
            Some(id) => self.races.get(&id),
            None => None,
        }
    }

    pub fn lookup_by_race(&self, race_no: u16) -> (r: Option<&Race>)
        ensures
            match r {
                Some(race) => self@.race(race_no) == Some(race@),
                None => self@.race(race_no) is None,
            },
    {
        self.races.get(&race_no)
    }

    /// The event definition of event number `event`.
    pub fn event_def(&self, event: u16) -> (r: Option<EventDef>)
        ensures
            r == self@.event_def(event),
    {
        let i: usize = event as usize;
        if 1 <= i && i <= self.lineup.len() {
            Some(self.lineup[i - 1])
        } else {
            None
        }
    }

    /// A fresh state with the given meet date.
    pub fn with_date(meet_date: MeetDate) -> (r: State)
        requires
            meet_date.wf(),
        ensures
            r.wf(),
            r@ == initial_state(meet_date),
    {
        let mut slots: Vec<Slot> = Vec::new();
        while slots.len() < NUM_SLOTS
            invariant
                slots@.len() <= NUM_SLOTS,
                forall|i: int| 0 <= i < slots@.len() ==> #[trigger] slots@[i]@ == empty_slot(),
            decreases NUM_SLOTS - slots@.len(),
        {
            let slot: Slot = Slot { name: String::new(), lineup: Vec::new() };
            assert(slot@ =~= empty_slot());
            slots.push(slot);
        }
        let r: State = State {
            current_event: 1,
            current_heat: 1,
            next_race_no: 1,
            lineup: Vec::new(),
            in_progress: None,
            races: BTreeMap::new(),
            history: BTreeMap::new(),
            cursor: BTreeMap::new(),
            lane_spread: (1, 8),
            loading: None,
            slots,
            selected_slot: None,
            lineup_dirty: false,
            meet_date,
        };
        assert(r@ =~= initial_state(meet_date));
        r
    }

    /// The state at start-up: nothing stored, event 1, heat 1, race 1, lanes 1
    /// to 8; the meet date is the current moment.
    pub fn new() -> (r: State)
        ensures
            r.wf(),
            r@ == initial_state(r.meet_date),
            r.meet_date.utc_secs >= 0,
    {
        State::with_date(clock::local_now())
    }

    /// Loads slot `n`'s lineup as the working lineup.
    pub fn select_slot(&mut self, n: u8)
        requires
            old(self).wf(),
            1 <= n <= NUM_SLOTS,
        ensures
            final(self).wf(),
            final(self)@ == old(self)@.slot_selected(n),
    {
        let ghost before = self@;
        self.selected_slot = Some(n);
        self.lineup = copy_lineup(&self.slots[n as usize - 1].lineup);
        self.lineup_dirty = false;
        assert(self@ =~= before.slot_selected(n));
    }

    /// Stores the working lineup in the selected slot and returns the slot's
    /// number; `None` if no slot is selected.
    pub fn save_to_selected_slot(&mut self) -> (r: Option<u8>)
        requires
            old(self).wf(),
        ensures
            final(self).wf(),
            r == old(self)@.selected_slot,
            final(self)@ == old(self)@.slot_saved(),
    {
        let ghost before = self@;
        match self.selected_slot {
            None => None,
            Some(n) => {
                let i: usize = n as usize - 1;
                let lineup: Vec<EventDef> = copy_lineup(&self.lineup);
                let name: String = self.slots[i].name.clone();
                self.slots.set(i, Slot { name, lineup });
                self.lineup_dirty = false;
                assert(self@.slots =~= before.slot_saved().slots);
                assert(self@ =~= before.slot_saved());
                Some(n)
            },
        }
    }

    /// Commits the buffered meet download into the working lineup and ends the
    /// download. Sparse event numbers are padded with placeholders; an empty
    /// download leaves the lineup untouched.
    pub fn apply_loading_meet(&mut self, out: &mut Vec<Effect>)
        requires
            old(self).wf(),
        ensures
            final(self).wf(),
            final(self)@ == old(self)@.meet_applied(),
            output::effects(final(out)@) == output::effects(old(out)@)
                + old(self)@.meet_applied_effects(),
    {
        let ghost before = self@;
        let ghost out0 = output::effects(out@);
        match self.loading.take() {
            None => {
                assert(self@ =~= before);
                assert(output::effects(out@) =~= out0 + before.meet_applied_effects());
            },
            Some(loading) => {
                let mut line: String = String::from_str("[meet-load] slot ");
                text::put_dec(&mut line, loading.slot as u64);
                line.append(" \"");
                line.append(loading.name.as_str());
                if loading.events.len() == 0 {
                    line.append("\": finalize with no events; lineup left untouched");
                    output::say(out, line);
                    assert(self@ =~= before.meet_applied());
                } else {
                    let lineup: Vec<EventDef> = lineup_from(&loading);
                    line.append("\": committed ");
                    text::put_dec(&mut line, loading.events.len() as u64);
                    line.append(" events (lineup size ");
                    text::put_dec(&mut line, lineup.len() as u64);
                    line.append(")");
                    output::say(out, line);
                    self.lineup = lineup;
                    assert(self@ =~= before.meet_applied());
                }
            },
        }
    }
}

/// A slot nothing is stored in.
pub open spec fn empty_slot() -> SlotView {
    SlotView { name: Seq::empty(), lineup: Seq::empty() }
}

/// The state at start-up.
pub open spec fn initial_state(meet_date: MeetDate) -> StateView {
    StateView {
        current_event: 1,
        current_heat: 1,
        next_race_no: 1,
        lineup: Seq::empty(),
        in_progress: None,
        races: Map::empty(),
        history: Map::empty(),
        cursor: Map::empty(),
        lane_spread: (1, 8),
        loading: None,
        slots: Seq::new(NUM_SLOTS as nat, |i: int| empty_slot()),
        selected_slot: None,
        lineup_dirty: false,
        meet_date,
    }
}

/// A copy of a lineup.
pub fn copy_lineup(v: &Vec<EventDef>) -> (r: Vec<EventDef>)
    ensures
        r@ == v@,
{
    let n: usize = v.len();
    let mut out: Vec<EventDef> = Vec::new();
    let mut i: usize = 0;
    while i < n
        invariant
            n == v@.len(),
            i <= n,
            out@ == v@.take(i as int),
        decreases n - i,
    {
        out.push(v[i]);
        i = i + 1;
        assert(out@ =~= v@.take(i as int));
    }
    assert(out@ =~= v@);
    out
}

/// What a lineup holds at an event number that no record named.
pub open spec fn placeholder_event() -> EventDef {
    EventDef { distance: 0, gender: Gender::Mixed, stroke: Stroke::Free, split_yards: 50 }
}

/// The event that a downloaded record defines: its labels are looked up in the
/// downloaded tables, with `Mixed` and the empty label for an index outside
/// them.
pub open spec fn loaded_event(l: LoadingView, e: LoadedEvent) -> EventDef {
    EventDef {
        distance: e.distance,
        gender: if e.gender_idx < l.genders.len() {
            event::label_gender(l.genders[e.gender_idx as int])
        } else {
            Gender::Mixed
        },
        stroke: event::label_stroke(
            if e.stroke_idx < l.strokes.len() {
                l.strokes[e.stroke_idx as int]
            } else {
                Seq::empty()
            },
            e.is_relay,
        ),
        split_yards: 50,
    }
}

/// The largest event number among the records.
pub open spec fn max_event_num(events: Seq<LoadedEvent>) -> nat
    decreases events.len(),
{
    if events.len() == 0 {
        0
    } else {
        let rest = max_event_num(events.drop_last());
        if events.last().event_num > rest {
            events.last().event_num as nat
        } else {
            rest
        }
    }
}

/// The last record with event number `num`.
pub open spec fn last_record(events: Seq<LoadedEvent>, num: int) -> Option<LoadedEvent>
    decreases events.len(),
{
    if events.len() == 0 {
        None
    } else if events.last().event_num == num {
        Some(events.last())
    } else {
        last_record(events.drop_last(), num)
    }
}

/// Event number `num` as the first records define it.
pub open spec fn event_after(l: LoadingView, events: Seq<LoadedEvent>, num: int) -> EventDef {
    match last_record(events, num) {
        Some(e) => loaded_event(l, e),
        None => placeholder_event(),
    }
}

/// The lineup that a download defines: one event for every number up to the
/// largest one; of several records with one number the last counts.
pub open spec fn loaded_lineup(l: LoadingView) -> Seq<EventDef> {
    Seq::new(max_event_num(l.events), |i: int| event_after(l, l.events, i + 1))
}

proof fn lemma_max_event_num(events: Seq<LoadedEvent>, i: int)
    requires
        0 <= i < events.len(),
    ensures
        events[i].event_num <= max_event_num(events) <= u16::MAX,
    decreases events.len(),
{
    if i < events.len() - 1 {
        lemma_max_event_num(events.drop_last(), i);
    } else if events.len() > 1 {
        lemma_max_event_num(events.drop_last(), 0);
    } else {
        assert(max_event_num(events.drop_last()) == 0);
    }
}

/// The event that a downloaded record defines.
fn event_from(l: &LoadingMeet, e: LoadedEvent) -> (r: EventDef)
    ensures
        r == loaded_event(l@, e),
{
    let g: usize = e.gender_idx as usize;
    let gender: Gender = if g < l.genders.len() {
        event::label_to_gender(l.genders[g].as_str())
    } else {
        Gender::Mixed
    };
    let k: usize = e.stroke_idx as usize;
    let stroke: Stroke = if k < l.strokes.len() {
        event::label_to_stroke(l.strokes[k].as_str(), e.is_relay)
    } else {
        let none: String = String::new();
        event::label_to_stroke(none.as_str(), e.is_relay)
    };
    EventDef { distance: e.distance, gender, stroke, split_yards: 50 }
}

/// The lineup that a download defines.
fn lineup_from(l: &LoadingMeet) -> (r: Vec<EventDef>)
    requires
        l.events@.len() > 0,
    ensures
        r@ == loaded_lineup(l@),
{
    let n: usize = l.events.len();
    let mut max: u16 = 0;
    let mut i: usize = 0;
    assert(l.events@.take(0) =~= Seq::<LoadedEvent>::empty());
    while i < n
        invariant
            n == l.events@.len(),
            i <= n,
            max == max_event_num(l.events@.take(i as int)),
        decreases n - i,
    {
        assert(l.events@.take(i + 1).drop_last() =~= l.events@.take(i as int));
        if l.events[i].event_num > max {
            max = l.events[i].event_num;
        }
        i = i + 1;
    }
    assert(l.events@.take(n as int) =~= l.events@);
    let mut lineup: Vec<EventDef> = Vec::new();
    while lineup.len() < max as usize
        invariant
            lineup@.len() <= max,
            forall|j: int| 0 <= j < lineup@.len() ==> #[trigger] lineup@[j] == placeholder_event(),
        decreases max - lineup@.len(),
    {
        lineup.push(
            EventDef { distance: 0, gender: Gender::Mixed, stroke: Stroke::Free, split_yards: 50 },
        );
    }
    i = 0;
    while i < n
        invariant
            n == l.events@.len(),
            i <= n,
            max == max_event_num(l.events@),
            lineup@.len() == max,
            forall|j: int|
                0 <= j < max ==> #[trigger] lineup@[j] == event_after(
                    l@,
                    l.events@.take(i as int),
                    j + 1,
                ),
        decreases n - i,
    {
        let e: LoadedEvent = l.events[i];
        let ghost before = lineup@;
        proof {
            lemma_max_event_num(l.events@, i as int);
            assert(l.events@.take(i + 1).drop_last() =~= l.events@.take(i as int));
        }
        if e.event_num != 0 {
            let def: EventDef = event_from(l, e);
            lineup.set(e.event_num as usize - 1, def);
        }
        i = i + 1;
        assert forall|j: int| 0 <= j < max implies #[trigger] lineup@[j] == event_after(
            l@,
            l.events@.take(i as int),
            j + 1,
        ) by {
            assert(before[j] == event_after(l@, l.events@.take(i - 1), j + 1));
        }
    }
    assert(lineup@ =~= loaded_lineup(l@));
    lineup
}

impl StateView {
    /// The state after a download is committed.
    pub open spec fn meet_applied(self) -> StateView {
        match self.loading {
            None => self,
            Some(l) => StateView {
                loading: None,
                lineup: if l.events.len() == 0 {
                    self.lineup
                } else {
                    loaded_lineup(l)
                },
                ..self
            },
        }
    }

    /// What committing a download reports.
    pub open spec fn meet_applied_effects(self) -> Seq<EffectView> {
        match self.loading {
            None => Seq::empty(),
            Some(l) => output::log1(
                if l.events.len() == 0 {
                    "[meet-load] slot "@ + text::dec(l.slot as nat) + " \""@ + l.name
                        + "\": finalize with no events; lineup left untouched"@
                } else {
                    "[meet-load] slot "@ + text::dec(l.slot as nat) + " \""@ + l.name
                        + "\": committed "@ + text::dec(l.events.len()) + " events (lineup size "@
                        + text::dec(loaded_lineup(l).len()) + ")"@
                },
            ),
        }
    }

    /// Every race in a history bucket belongs to the bucket's event and heat.
    pub open spec fn filed(self) -> bool {
        forall|k: (u16, u8), i: int|
            #![trigger self.history[k][i]]
            self.history.contains_key(k) && 0 <= i < self.history[k].len() ==> {
                &&& self.races[self.history[k][i]].event == k.0
                &&& self.races[self.history[k][i]].heat == k.1
            }
    }

    /// Position of the cursor of `k` on a ring of all its races, in order,
    /// and one place off the ends.
    pub open spec fn ring_position(self, k: (u16, u8)) -> int {
        match self.cursor[k] {
            Cursor::At(i) => i as int,
            _ => self.history[k].len() as int,
        }
    }
}

/// Asking for the latest race of an event and heat that has any returns the
/// newest one and puts the cursor on it.
pub proof fn law_latest_is_newest(s: StateView, k: (u16, u8))
    requires
        s.wf(),
        s.history.contains_key(k),
    ensures
        s.latest(k).1 == Some(s.races[s.history[k].last()]),
        s.latest(k).0.ring_position(k) == s.history[k].len() - 1,
        s.latest(k).0.wf(),
{
    assert(s.bucket_ok(k));
    let t = s.latest(k).0;
    assert forall|j: (u16, u8)| #[trigger] t.cursor.contains_key(j) implies t.cursor_ok(j) by {
        if j != k {
            assert(s.cursor.contains_key(j) && s.cursor_ok(j));
        }
    }
    assert forall|j: (u16, u8)| #[trigger] t.history.contains_key(j) implies j.0 >= 1
        && t.bucket_ok(j) by {
        assert(s.history.contains_key(j) && s.bucket_ok(j));
    }
}

/// Next and previous walk one step on a ring of the stored races and one place
/// off the ends: every press moves, past the newest race the walk wraps to the
/// oldest one, and before the oldest to the newest.
pub proof fn law_navigation_is_a_ring(s: StateView, k: (u16, u8))
    requires
        s.wf(),
        s.cursor.contains_key(k),
    ensures
        s.next(k).0.ring_position(k) == (s.ring_position(k) + 1) % (s.history[k].len() as int + 1),
        s.previous(k).0.ring_position(k) == (s.ring_position(k) + s.history[k].len()) % (
        s.history[k].len() as int + 1),
{
    assert(s.cursor_ok(k));
    assert(s.bucket_ok(k));
    let n = s.history[k].len() as int;
    let p = s.ring_position(k);
    assert(0 <= p <= n);
    if p == n {
        assert((p + 1) % (n + 1) == 0) by (nonlinear_arith)
            requires
                p == n,
                n > 0,
        ;
    } else {
        assert((p + 1) % (n + 1) == p + 1) by (nonlinear_arith)
            requires
                0 <= p < n,
        ;
    }
    if p == 0 {
        assert((p + n) % (n + 1) == n) by (nonlinear_arith)
            requires
                p == 0,
                n > 0,
        ;
    } else {
        assert((p + n) % (n + 1) == p - 1) by (nonlinear_arith)
            requires
                0 < p <= n,
        ;
    }
}

/// On the ring, a press returns the race it lands on, and nothing off the
/// ends.
pub proof fn law_navigation_returns_the_race_it_lands_on(s: StateView, k: (u16, u8))
    requires
        s.wf(),
        s.cursor.contains_key(k),
    ensures
        s.next(k).1 == (if s.next(k).0.ring_position(k) == s.history[k].len() {
            None::<RaceView>
        } else {
            Some(s.races[s.history[k][s.next(k).0.ring_position(k)]])
        }),
        s.previous(k).1 == (if s.previous(k).0.ring_position(k) == s.history[k].len() {
            None::<RaceView>
        } else {
            Some(s.races[s.history[k][s.previous(k).0.ring_position(k)]])
        }),
{
    assert(s.cursor_ok(k));
    assert(s.bucket_ok(k));
}

/// From a race, previous undoes next and next undoes previous: the cursor is
/// back on the race, also where the first press went off an end.
pub proof fn law_previous_undoes_next(s: StateView, k: (u16, u8), i: usize)
    requires
        s.wf(),
        s.cursor.contains_key(k),
        s.cursor[k] == Cursor::At(i),
    ensures
        s.next(k).0.previous(k).0 == s,
        s.next(k).0.previous(k).1 == Some(s.races[s.history[k][i as int]]),
        s.previous(k).0.next(k).0 == s,
        s.previous(k).0.next(k).1 == Some(s.races[s.history[k][i as int]]),
{
    assert(s.cursor_ok(k));
    assert(s.bucket_ok(k));
    assert(s.next(k).0.previous(k).0.cursor =~= s.cursor);
    assert(s.previous(k).0.next(k).0.cursor =~= s.cursor);
    assert(s.next(k).0.previous(k).0 =~= s);
    assert(s.previous(k).0.next(k).0 =~= s);
}

/// Looking up races moves no cursor but that of the event and heat asked for,
/// and changes nothing else.
pub proof fn law_lookup_moves_one_cursor(s: StateView, k: (u16, u8), j: (u16, u8))
    requires
        j != k,
    ensures
        s.latest(k).0 == (StateView { cursor: s.latest(k).0.cursor, ..s }),
        s.previous(k).0 == (StateView { cursor: s.previous(k).0.cursor, ..s }),
        s.next(k).0 == (StateView { cursor: s.next(k).0.cursor, ..s }),
        s.latest(k).0.cursor.contains_key(j) == s.cursor.contains_key(j),
        s.latest(k).0.cursor[j] == s.cursor[j],
        s.previous(k).0.cursor.contains_key(j) == s.cursor.contains_key(j),
        s.previous(k).0.cursor[j] == s.cursor[j],
        s.next(k).0.cursor.contains_key(j) == s.cursor.contains_key(j),
        s.next(k).0.cursor[j] == s.cursor[j],
{
}

/// While every race is filed under its own event and heat, a lookup returns
/// races of the event and heat asked for only.
pub proof fn law_lookup_returns_own_races(s: StateView, k: (u16, u8))
    requires
        s.wf(),
        s.filed(),
    ensures
        s.latest(k).1 matches Some(r) ==> r.event == k.0 && r.heat == k.1,
        s.previous(k).1 matches Some(r) ==> r.event == k.0 && r.heat == k.1,
        s.next(k).1 matches Some(r) ==> r.event == k.0 && r.heat == k.1,
{
    if s.history.contains_key(k) {
        assert(s.bucket_ok(k));
        let last = s.history[k].len() - 1;
        assert(s.races[s.history[k][last]].event == k.0);
        if s.cursor.contains_key(k) {
            assert(s.cursor_ok(k));
            if s.next(k).1 is Some {
                let i = s.next(k).0.ring_position(k);
                assert(s.races[s.history[k][i]].event == k.0);
            }
            if s.previous(k).1 is Some {
                let i = s.previous(k).0.ring_position(k);
                assert(s.races[s.history[k][i]].event == k.0);
            }
        }
    }
}

/// A race looked up by its number has that number.
pub proof fn law_lookup_by_race_returns_that_race(s: StateView, id: u16)
    requires
        s.wf(),
    ensures
        s.race(id) matches Some(r) ==> r.id == id,
{
}

/// Loading the slot that the working lineup was just saved to gives the
/// working lineup back.
pub proof fn law_saved_lineup_loads_back(s: StateView, n: u8)
    requires
        s.wf(),
        s.selected_slot == Some(n),
    ensures
        s.slot_saved().slot_selected(n).lineup == s.lineup,
        s.slot_saved().slot_selected(n) == s.slot_saved(),
        forall|i: int|
            0 <= i < NUM_SLOTS && i != n - 1 ==> #[trigger] s.slot_saved().slots[i] == s.slots[i],
{
    assert(s.slot_saved().slot_selected(n) =~= s.slot_saved());
}

/// A committed download defines exactly the events its records name: a number
/// outside the records is a placeholder, and the last record of a number
/// decides what the event is.
pub proof fn law_committed_download_defines_the_lineup(l: LoadingView, i: int)
    requires
        0 <= i < l.events.len(),
        l.events[i].event_num >= 1,
        forall|j: int| i < j < l.events.len() ==> #[trigger] l.events[j].event_num
            != l.events[i].event_num,
    ensures
        l.events[i].event_num <= loaded_lineup(l).len(),
        loaded_lineup(l)[l.events[i].event_num - 1] == loaded_event(l, l.events[i]),
{
    lemma_max_event_num(l.events, i);
    lemma_last_record(l.events, i);
}

proof fn lemma_last_record(events: Seq<LoadedEvent>, i: int)
    requires
        0 <= i < events.len(),
        forall|j: int| i < j < events.len() ==> #[trigger] events[j].event_num
            != events[i].event_num,
    ensures
        last_record(events, events[i].event_num as int) == Some(events[i]),
    decreases events.len(),
{
    if i < events.len() - 1 {
        let rest = events.drop_last();
        assert forall|j: int| i < j < rest.len() implies #[trigger] rest[j].event_num
            != rest[i].event_num by {
            assert(events[j].event_num != events[i].event_num);
        }
        assert(events[events.len() - 1].event_num != events[i].event_num);
        lemma_last_record(rest, i);
    }
}

/// A new emulator has nothing stored, is at event 1, heat 1 and race 1, uses the
/// lanes 1 to 8, and has eight empty slots, none of them selected.
pub proof fn law_new_state_is_empty(meet_date: MeetDate, i: int)
    ensures
        ({
            let s = initial_state(meet_date);
            &&& s.current_event == 1 && s.current_heat == 1 && s.next_race_no == 1
            &&& s.lineup.len() == 0 && s.in_progress is None && s.loading is None
            &&& s.races == Map::<u16, RaceView>::empty()
            &&& s.history == Map::<(u16, u8), Seq<u16>>::empty()
            &&& s.cursor == Map::<(u16, u8), Cursor>::empty()
            &&& s.lane_spread == (1u8, 8u8)
            &&& s.slots.len() == 8
            &&& 0 <= i < 8 ==> s.slots[i].name.len() == 0 && s.slots[i].lineup.len() == 0
            &&& s.selected_slot is None && !s.lineup_dirty
            &&& s.meet_date == meet_date
        }),
{
}

/// Event number `event` is the entry of the lineup at that place, counted from
/// one, and there is none beyond the lineup.
pub proof fn law_events_are_counted_from_one(s: StateView, event: u16)
    ensures
        1 <= event <= s.lineup.len() ==> s.event_def(event) == Some(s.lineup[event - 1]),
        event == 0 || event > s.lineup.len() ==> s.event_def(event) is None,
{
}

/// A committed download has as many events as the largest event number of its
/// records. An event that no record names is a placeholder without a distance.
/// Of several records for one event the last counts: it gives the distance, and
/// by its indices the labels that give gender and stroke; the labels that it has
/// no entry for give mixed and, as an empty label, freestyle. Every split is 50
/// yards.
pub proof fn law_committed_events(l: LoadingView, num: int, i: int)
    ensures
        forall|j: int| 0 <= j < l.events.len() ==> (#[trigger] l.events[j]).event_num
            <= loaded_lineup(l).len(),
        loaded_lineup(l).len() > 0 ==> exists|j: int|
            0 <= j < l.events.len() && (#[trigger] l.events[j]).event_num == loaded_lineup(l).len(),
        1 <= num <= loaded_lineup(l).len() && (forall|j: int|
            0 <= j < l.events.len() ==> (#[trigger] l.events[j]).event_num != num) ==> loaded_lineup(
            l,
        )[num - 1] == (EventDef {
            distance: 0,
            gender: Gender::Mixed,
            stroke: Stroke::Free,
            split_yards: 50,
        }),
        0 <= i < l.events.len() && l.events[i].event_num == num && num >= 1 && (forall|j: int|
            i < j < l.events.len() ==> (#[trigger] l.events[j]).event_num != num) ==> ({
            let e = l.events[i];
            let def = loaded_lineup(l)[num - 1];
            &&& def.distance == e.distance
            &&& def.split_yards == 50
            &&& def.gender == (if e.gender_idx < l.genders.len() {
                event::label_gender(l.genders[e.gender_idx as int])
            } else {
                Gender::Mixed
            })
            &&& e.stroke_idx < l.strokes.len() ==> def.stroke == event::label_stroke(
                l.strokes[e.stroke_idx as int],
                e.is_relay,
            )
            &&& e.stroke_idx >= l.strokes.len() && !e.is_relay ==> def.stroke == Stroke::Free
            &&& e.stroke_idx >= l.strokes.len() && e.is_relay ==> def.stroke
                == Stroke::FreestyleRelay
        }),
{
    assert forall|j: int| 0 <= j < l.events.len() implies (#[trigger] l.events[j]).event_num
        <= loaded_lineup(l).len() by {
        lemma_max_event_num(l.events, j);
    }
    lemma_max_event_attained(l.events);
    if forall|j: int| 0 <= j < l.events.len() ==> (#[trigger] l.events[j]).event_num != num {
        lemma_no_record(l.events, num);
    }
    if 0 <= i < l.events.len() && l.events[i].event_num == num && num >= 1 && (forall|j: int|
        i < j < l.events.len() ==> (#[trigger] l.events[j]).event_num != num) {
        lemma_max_event_num(l.events, i);
        lemma_last_record(l.events, i);
        event::law_relay_label(Seq::empty());
        event::law_stroke_label(Seq::empty());
        reveal_strlit("medley");
        reveal_strlit("fly");
        reveal_strlit("butter");
        reveal_strlit("back");
        reveal_strlit("breast");
        reveal_strlit("im");
        reveal_strlit("div");
    }
}

/// A downloaded relay record is committed as a medley relay just where its
/// stroke label has "medley" in it, in any case and whatever stands around it,
/// and as a freestyle relay otherwise; no other record is committed as a relay.
pub proof fn law_committed_relays(l: LoadingView, i: int)
    requires
        0 <= i < l.events.len(),
        l.events[i].event_num >= 1,
        forall|j: int| i < j < l.events.len() ==> (#[trigger] l.events[j]).event_num
            != l.events[i].event_num,
        l.events[i].stroke_idx < l.strokes.len(),
    ensures
        ({
            let e = l.events[i];
            let stroke = loaded_lineup(l)[e.event_num - 1].stroke;
            let medley = event::mentions(l.strokes[e.stroke_idx as int], "medley"@);
            &&& e.is_relay && medley <==> stroke == Stroke::MedleyRelay
            &&& e.is_relay && !medley <==> stroke == Stroke::FreestyleRelay
        }),
{
    let e = l.events[i];
    law_committed_events(l, e.event_num as int, i);
    event::law_relay_label(l.strokes[e.stroke_idx as int]);
}

proof fn lemma_max_event_attained(events: Seq<LoadedEvent>)
    ensures
        max_event_num(events) > 0 ==> exists|j: int|
            0 <= j < events.len() && (#[trigger] events[j]).event_num == max_event_num(events),
    decreases events.len(),
{
    if events.len() > 0 {
        let rest = events.drop_last();
        lemma_max_event_attained(rest);
        if events.last().event_num > max_event_num(rest) {
            assert(events[events.len() - 1].event_num == max_event_num(events));
        } else if max_event_num(events) > 0 {
            let j = choose|j: int|
                0 <= j < rest.len() && (#[trigger] rest[j]).event_num == max_event_num(rest);
            assert(events[j].event_num == max_event_num(events));
        }
    }
}

proof fn lemma_no_record(events: Seq<LoadedEvent>, num: int)
    requires
        forall|j: int| 0 <= j < events.len() ==> (#[trigger] events[j]).event_num != num,
    ensures
        last_record(events, num) is None,
    decreases events.len(),
{
    if events.len() > 0 {
        assert(events[events.len() - 1].event_num != num);
        assert forall|j: int| 0 <= j < events.drop_last().len() implies (
        #[trigger] events.drop_last()[j]).event_num != num by {
            assert(events[j].event_num != num);
        }
        lemma_no_record(events.drop_last(), num);
    }
}

/// Committing a download ends it and puts its events in place of the lineup,
/// unless it has no records; without a download nothing happens.
pub proof fn law_commit_replaces_the_lineup(s: StateView)
    ensures
        s.loading is None ==> s.meet_applied() == s,
        s.meet_applied().loading is None,
        s.loading is Some && s.loading->0.events.len() == 0 ==> s.meet_applied().lineup == s.lineup,
        s.loading is Some && s.loading->0.events.len() > 0 ==> s.meet_applied().lineup
            == loaded_lineup(s.loading->0),
        s.meet_applied() == (StateView {
            loading: None,
            lineup: s.meet_applied().lineup,
            ..s
        }),
{
    assert(s.meet_applied() =~= (StateView { loading: None, lineup: s.meet_applied().lineup, ..s }));
}

/// The race before and the race after are found from the race that was reported
/// last; before a first query for the latest race, and for an event and heat
/// without races, nothing is found and nothing changes.
pub proof fn law_walking_needs_a_start(s: StateView, k: (u16, u8))
    ensures
        !s.history.contains_key(k) ==> s.latest(k).1 is None && s.latest(k).0 == s,
        !s.history.contains_key(k) || !s.cursor.contains_key(k) ==> {
            &&& s.previous(k).1 is None && s.previous(k).0 == s
            &&& s.next(k).1 is None && s.next(k).0 == s
        },
{
}

/// From the race at place `i` of its event and heat, next and previous go one
/// place on, or off the end; from off an end, next goes to the oldest race and
/// previous to the newest. The race that is landed on is returned.
pub proof fn law_walk_goes_race_by_race(s: StateView, k: (u16, u8))
    requires
        s.wf(),
        s.cursor.contains_key(k),
    ensures
        ({
            let ids = s.history[k];
            let n = ids.len() as int;
            match s.cursor[k] {
                Cursor::At(i) => {
                    &&& i + 1 < n ==> s.next(k).1 == Some(s.races[ids[i + 1]])
                        && s.next(k).0.cursor[k] == Cursor::At((i + 1) as usize)
                    &&& i + 1 == n ==> s.next(k).1 is None && s.next(k).0.cursor[k]
                        == Cursor::PastEnd
                    &&& i > 0 ==> s.previous(k).1 == Some(s.races[ids[i - 1]])
                        && s.previous(k).0.cursor[k] == Cursor::At((i - 1) as usize)
                    &&& i == 0 ==> s.previous(k).1 is None && s.previous(k).0.cursor[k]
                        == Cursor::PastStart
                },
                _ => {
                    &&& s.next(k).1 == Some(s.races[ids[0]])
                    &&& s.next(k).0.cursor[k] == Cursor::At(0)
                    &&& s.previous(k).1 == Some(s.races[ids[n - 1]])
                    &&& s.previous(k).0.cursor[k] == Cursor::At((n - 1) as usize)
                },
            }
        }),
{
    assert(s.cursor_ok(k));
    assert(s.bucket_ok(k));
    let n = s.history[k].len() as int;
    assert(s.races.contains_key(s.history[k][0]));
    assert(s.races.contains_key(s.history[k][n - 1]));
    match s.cursor[k] {
        Cursor::At(i) => {
            if i + 1 < n {
                assert(s.races.contains_key(s.history[k][i + 1]));
            }
            if i > 0 {
                assert(s.races.contains_key(s.history[k][i - 1]));
            }
        },
        _ => {},
    }
}

/// The latest race of an event and heat is the last one filed there, and the
/// walk starts from it.
pub proof fn law_latest_is_the_last_filed(s: StateView, k: (u16, u8))
    requires
        s.wf(),
        s.history.contains_key(k),
    ensures
        s.latest(k).1 == Some(s.races[s.history[k][s.history[k].len() - 1]]),
        s.latest(k).0.cursor.contains_key(k),
        s.latest(k).0.cursor[k] == Cursor::At((s.history[k].len() - 1) as usize),
{
    assert(s.bucket_ok(k));
    assert(s.races.contains_key(s.history[k][s.history[k].len() - 1]));
}

/// Loading a slot makes its lineup the working lineup; saving stores the working
/// lineup in the selected slot, whose name stays. Nothing else changes, and the
/// working lineup has then no unsaved edits.
pub proof fn law_slots_load_and_save(s: StateView, n: u8, i: int)
    requires
        s.wf(),
        1 <= n <= 8,
    ensures
        ({
            let t = s.slot_selected(n);
            &&& t.selected_slot == Some(n)
            &&& t.lineup == s.slots[n - 1].lineup
            &&& !t.lineup_dirty
            &&& t == (StateView {
                selected_slot: t.selected_slot,
                lineup: t.lineup,
                lineup_dirty: false,
                ..s
            })
        }),
        s.selected_slot is None ==> s.slot_saved() == s,
        s.selected_slot == Some(n) ==> ({
            let t = s.slot_saved();
            &&& t.slots.len() == 8
            &&& t.slots[n - 1].lineup == s.lineup
            &&& t.slots[n - 1].name == s.slots[n - 1].name
            &&& 0 <= i < 8 && i != n - 1 ==> t.slots[i] == s.slots[i]
            &&& !t.lineup_dirty
            &&& t == (StateView { slots: t.slots, lineup_dirty: false, ..s })
        }),
{
}

/// What is logged when a download is committed: its slot and name, how many
/// records it had and how long the lineup is, or that it had none.
pub proof fn law_commit_is_reported(s: StateView)
    ensures
        s.loading is None ==> s.meet_applied_effects().len() == 0,
        s.loading matches Some(l) ==> ({
            let head = "[meet-load] slot "@ + text::dec(l.slot as nat) + " \""@ + l.name;
            &&& l.events.len() == 0 ==> s.meet_applied_effects() == seq![
                EffectView::Log(head + "\": finalize with no events; lineup left untouched"@),
            ]
            &&& l.events.len() > 0 ==> s.meet_applied_effects() == seq![
                EffectView::Log(
                    head + "\": committed "@ + text::dec(l.events.len())
                        + " events (lineup size "@ + text::dec(s.meet_applied().lineup.len())
                        + ")"@,
                ),
            ]
        }),
{
}

/// What the state holds is what its fields hold; history and cursors are kept by
/// event and heat.
pub proof fn law_state_view(s: State, k: (u16, u8), id: u16, i: int)
    ensures
        s@.current_event == s.current_event && s@.current_heat == s.current_heat
            && s@.next_race_no == s.next_race_no,
        s@.lineup == s.lineup@ && s@.lane_spread == s.lane_spread,
        s@.selected_slot == s.selected_slot && s@.lineup_dirty == s.lineup_dirty && s@.meet_date
            == s.meet_date,
        s.in_progress is None ==> s@.in_progress is None,
        s.in_progress matches Some(ip) ==> s@.in_progress == Some(ip@),
        s.loading is None ==> s@.loading is None,
        s.loading matches Some(l) ==> s@.loading == Some(l@),
        s@.races.contains_key(id) == s.races@.contains_key(id),
        s.races@.contains_key(id) ==> s@.races[id] == s.races@[id]@,
        s@.history.contains_key(k) == s.history@.contains_key((k.0 * 256 + k.1) as u32),
        s@.history.contains_key(k) ==> s@.history[k] == s.history@[(k.0 * 256 + k.1) as u32]@,
        s@.cursor.contains_key(k) == s.cursor@.contains_key((k.0 * 256 + k.1) as u32),
        s@.cursor.contains_key(k) ==> s@.cursor[k] == s.cursor@[(k.0 * 256 + k.1) as u32],
        s@.slots.len() == s.slots@.len(),
        0 <= i < s.slots@.len() ==> s@.slots[i].name == s.slots@[i].name@ && s@.slots[i].lineup
            == s.slots@[i].lineup@,
{
}

/// What a download holds is what its fields hold.
pub proof fn law_download_view(l: LoadingMeet)
    ensures
        l@.slot == l.slot && l@.name == l.name@ && l@.events == l.events@,
        l@.genders == text::texts(l.genders@) && l@.ages == text::texts(l.ages@),
        l@.strokes == text::texts(l.strokes@) && l@.rounds == text::texts(l.rounds@),
{
}

} // verus!
