//! The terminal interface's own state: log, input line, pop-ups and the tree
//! of stored events.

use std::collections::{HashSet, VecDeque};

use vstd::prelude::*;

use crate::state;
use crate::text;

verus! {

broadcast use vstd::std_specs::hash::group_hash_axioms;

/// Log lines that are kept.
pub const MAX_LOG: usize = 2000;

/// The pane that keys go to.
#[derive(Debug, Clone, Copy, PartialEq, Eq, Structural)]
pub enum Focus {
    Input,
    Tree,
}

/// Where the sequence-memory pop-up is: the slot it is on, and whether it shows
/// that slot's lineup or the list of slots.
#[derive(Debug, Clone, Copy, PartialEq, Eq, Structural)]
pub struct SlotBrowse {
    /// A slot number, from 1.
    pub slot: u8,
    pub viewing: bool,
    /// Lines of the lineup that are scrolled off the top.
    pub scroll: u16,
}

/// The state of the terminal interface.
#[derive(Debug)]
pub struct TuiApp {
    /// The latest log lines, oldest first.
    pub log: VecDeque<String>,
    pub input: String,
    /// Byte position of the cursor in the input.
    pub cursor: usize,
    /// Lines entered so far.
    pub history: Vec<String>,
    /// Which of them the input shows.
    pub history_idx: Option<usize>,
    /// The input that was left for a line of the history.
    pub scratch: String,
    pub quit: bool,
    pub show_help: bool,
    pub help_scroll: u16,
    /// Race whose results are shown.
    pub show_results: Option<u16>,
    pub show_lineup: bool,
    pub lineup_scroll: u16,
    /// The sequence-memory pop-up, where it is open.
    pub show_slots: Option<SlotBrowse>,
    pub focus: Focus,
    pub tree_expanded_events: HashSet<u16>,
    /// Expanded heats, under [`state::bucket_key`].
    pub tree_expanded_heats: HashSet<u32>,
    pub tree_selected: usize,
    pub tree_scroll: usize,
}

/// What a [`TuiApp`] holds.
#[verifier::ext_equal]
pub struct TuiView {
    pub log: Seq<Seq<char>>,
    pub input: Seq<char>,
    pub cursor: usize,
    pub history: Seq<Seq<char>>,
    pub history_idx: Option<usize>,
    pub scratch: Seq<char>,
    pub quit: bool,
    pub show_help: bool,
    pub help_scroll: u16,
    pub show_results: Option<u16>,
    pub show_lineup: bool,
    pub lineup_scroll: u16,
    pub show_slots: Option<SlotBrowse>,
    pub focus: Focus,
    pub expanded_events: Set<u16>,
    pub expanded_heats: Set<(u16, u8)>,
    pub tree_selected: usize,
    pub tree_scroll: usize,
}

/// Heats by event and heat number.
pub open spec fn heats_view(s: Set<u32>) -> Set<(u16, u8)> {
    Set::new(|k: (u16, u8)| s.contains(state::key_of(k)))
}

impl View for TuiApp {
    type V = TuiView;

    open spec fn view(&self) -> TuiView {
        TuiView {
            log: text::texts(self.log@),
            input: self.input@,
            cursor: self.cursor,
            history: text::texts(self.history@),
            history_idx: self.history_idx,
            scratch: self.scratch@,
            quit: self.quit,
            show_help: self.show_help,
            help_scroll: self.help_scroll,
            show_results: self.show_results,
            show_lineup: self.show_lineup,
            lineup_scroll: self.lineup_scroll,
            show_slots: self.show_slots,
            focus: self.focus,
            expanded_events: self.tree_expanded_events@,
            expanded_heats: heats_view(self.tree_expanded_heats@),
            tree_selected: self.tree_selected,
            tree_scroll: self.tree_scroll,
        }
    }
}

impl TuiView {
    /// What holds of every state the interface reaches: the log is bounded, the
    /// cursor lies in the input, the input shows a line that the history has,
    /// the sequence-memory pop-up is on a slot, and the tree is scrolled by its
    /// selection only.
    pub open spec fn wf(self) -> bool {
        &&& self.log.len() <= MAX_LOG
        &&& self.cursor <= text::byte_len(self.input)
        &&& self.history_idx matches Some(i) ==> i < self.history.len()
        &&& self.show_slots matches Some(b) ==> 1 <= b.slot <= state::NUM_SLOTS
        &&& self.tree_scroll == 0
    }

    /// The state after a line was logged: the oldest line makes room for it.
    pub open spec fn logged(self, line: Seq<char>) -> TuiView {
        TuiView {
            log: if self.log.len() >= MAX_LOG {
                self.log.skip(1).push(line)
            } else {
                self.log.push(line)
            },
            ..self
        }
    }

    /// The state with a heat expanded.
    pub open spec fn heat_expanded(self, k: (u16, u8)) -> TuiView {
        TuiView { expanded_heats: self.expanded_heats.insert(k), ..self }
    }

    /// The state with a heat collapsed.
    pub open spec fn heat_collapsed(self, k: (u16, u8)) -> TuiView {
        TuiView { expanded_heats: self.expanded_heats.remove(k), ..self }
    }
}

/// The interface at start-up.
pub open spec fn initial_view() -> TuiView {
    TuiView {
        log: Seq::empty(),
        input: Seq::empty(),
        cursor: 0,
        history: Seq::empty(),
        history_idx: None,
        scratch: Seq::empty(),
        quit: false,
        show_help: false,
        help_scroll: 0,
        show_results: None,
        show_lineup: false,
        lineup_scroll: 0,
        show_slots: None,
        focus: Focus::Input,
        expanded_events: Set::empty(),
        expanded_heats: Set::empty(),
        tree_selected: 0,
        tree_scroll: 0,
    }
}

impl TuiApp {
    /// The interface at start-up.
    pub fn new() -> (r: TuiApp)
        ensures
            r@ == initial_view(),
            r@.wf(),
    {
        let r: TuiApp = TuiApp {
            log: VecDeque::with_capacity(MAX_LOG),
            input: String::new(),
            cursor: 0,
            history: Vec::new(),
            history_idx: None,
            scratch: String::new(),
            quit: false,
            show_help: false,
            help_scroll: 0,
            show_results: None,
            show_lineup: false,
            lineup_scroll: 0,
            show_slots: None,
            focus: Focus::Input,
            tree_expanded_events: HashSet::new(),
            tree_expanded_heats: HashSet::new(),
            tree_selected: 0,
            tree_scroll: 0,
        };
        assert(r@.input =~= Seq::<char>::empty());
        assert(r@ =~= initial_view());
        r
    }

    /// Adds a log line.
    pub fn push_log(&mut self, line: String)
        requires
            old(self)@.wf(),
        ensures
            final(self)@ == old(self)@.logged(line@),
            final(self)@.wf(),
    {
        let ghost before = self@;
        if self.log.len() >= MAX_LOG {
            self.log.pop_front();
        }
        self.log.push_back(line);
        assert(self@.log =~= before.logged(line@).log);
        assert(self@ =~= before.logged(line@));
    }

    /// Expands a heat in the tree.
    pub fn expand_heat(&mut self, event_no: u16, heat: u8)
        ensures
            final(self)@ == old(self)@.heat_expanded((event_no, heat)),
    {
        let ghost before = self@;
        let ghost k = (event_no, heat);
        let ghost heats = self.tree_expanded_heats@;
        self.tree_expanded_heats.insert(state::bucket_key(event_no, heat));
        proof {
            assert forall|j: (u16, u8)| state::key_of(j) == state::key_of(k) implies j == k by {
                state::lemma_key_injective(j, k);
            }
            assert(heats_view(heats.insert(state::key_of(k))) =~= heats_view(heats).insert(k));
            assert(self@ =~= before.heat_expanded(k));
        }
    }

    /// Collapses a heat in the tree.
    pub fn collapse_heat(&mut self, event_no: u16, heat: u8)
        ensures
            final(self)@ == old(self)@.heat_collapsed((event_no, heat)),
    {
        let ghost before = self@;
        let ghost k = (event_no, heat);
        let ghost heats = self.tree_expanded_heats@;
        self.tree_expanded_heats.remove(&state::bucket_key(event_no, heat));
        proof {
            assert forall|j: (u16, u8)| state::key_of(j) == state::key_of(k) implies j == k by {
                state::lemma_key_injective(j, k);
            }
            assert(heats_view(heats.remove(state::key_of(k))) =~= heats_view(heats).remove(k));
            assert(self@ =~= before.heat_collapsed(k));
        }
    }

    pub fn event_expanded(&self, event_no: u16) -> (r: bool)
        ensures
            r == self@.expanded_events.contains(event_no),
    {
        self.tree_expanded_events.contains(&event_no)
    }

    pub fn heat_is_expanded(&self, event_no: u16, heat: u8) -> (r: bool)
        ensures
            r == self@.expanded_heats.contains((event_no, heat)),
    {
        self.tree_expanded_heats.contains(&state::bucket_key(event_no, heat))
    }
}

/// The log keeps the latest lines: a line that is logged is the last one, and
/// at most the oldest one is dropped for it.
pub proof fn law_log_keeps_the_latest(a: TuiView, line: Seq<char>)
    requires
        a.wf(),
    ensures
        a.logged(line).wf(),
        a.logged(line).log.last() == line,
        a.log.len() < MAX_LOG ==> a.logged(line).log.drop_last() == a.log,
        a.log.len() == MAX_LOG ==> a.logged(line).log.drop_last() == a.log.skip(1),
{
    assert(a.log.push(line).drop_last() =~= a.log);
    assert(a.log.skip(1).push(line).drop_last() =~= a.log.skip(1));
}

/// A new interface has an empty log, input and history, no pop-up open, nothing
/// expanded, and the focus on the input.
pub proof fn law_new_interface_is_empty()
    ensures
        ({
            let a = initial_view();
            &&& a.log.len() == 0 && a.input.len() == 0 && a.cursor == 0
            &&& a.history.len() == 0 && a.history_idx is None && a.scratch.len() == 0
            &&& !a.quit && !a.show_help && a.help_scroll == 0
            &&& a.show_results is None && !a.show_lineup && a.lineup_scroll == 0
            &&& a.show_slots is None && a.focus == Focus::Input
            &&& a.expanded_events == Set::<u16>::empty()
            &&& a.expanded_heats == Set::<(u16, u8)>::empty()
            &&& a.tree_selected == 0 && a.tree_scroll == 0
        }),
{
}

/// The log keeps its last 2000 lines.
pub proof fn law_log_keeps_two_thousand_lines(a: TuiView, line: Seq<char>, i: int)
    ensures
        ({
            let t = a.logged(line);
            let n = a.log.len() as int;
            &&& n < 2000 ==> t.log == a.log.push(line)
            &&& n >= 2000 ==> t.log.len() == n && t.log[n - 1] == line
            &&& n >= 2000 && 0 <= i < n - 1 ==> t.log[i] == a.log[i + 1]
            &&& t == (TuiView { log: t.log, ..a })
        }),
{
}

/// What the interface holds is what its fields hold; expanded heats are kept by
/// event and heat.
pub proof fn law_interface_view(a: TuiApp, k: (u16, u8))
    ensures
        a@.log == text::texts(a.log@) && a@.input == a.input@ && a@.cursor == a.cursor,
        a@.history == text::texts(a.history@) && a@.history_idx == a.history_idx && a@.scratch
            == a.scratch@,
        a@.quit == a.quit && a@.show_help == a.show_help && a@.help_scroll == a.help_scroll,
        a@.show_results == a.show_results && a@.show_lineup == a.show_lineup && a@.lineup_scroll
            == a.lineup_scroll,
        a@.show_slots == a.show_slots && a@.focus == a.focus,
        a@.expanded_events == a.tree_expanded_events@,
        a@.expanded_heats.contains(k) == a.tree_expanded_heats@.contains((k.0 * 256 + k.1) as u32),
        a@.tree_selected == a.tree_selected && a@.tree_scroll == a.tree_scroll,
{
}

} // verus!
