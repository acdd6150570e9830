//! The command language: what a line typed by the operator means.

use vstd::prelude::*;
use vstd::string::*;

use crate::event;
use crate::event::{EventDef, Gender, Stroke};
use crate::race::MAX_LANES;
use crate::text;

verus! {

/// A preset lineup.
#[derive(Debug, Clone, Copy, PartialEq, Eq, Structural)]
pub enum Preset {
    HighSchool,
    Ncaa13,
    Ncaa15,
    Ncaa16,
}

/// One word of a line of lane touches.
#[derive(Debug)]
pub enum Input {
    /// A lane number.
    Lane(u8),
    /// A word that is not one.
    Other(String),
}

/// What an [`Input`] holds.
pub enum InputView {
    Lane(u8),
    Other(Seq<char>),
}

impl View for Input {
    type V = InputView;

    open spec fn view(&self) -> InputView {
        match self {
            Input::Lane(n) => InputView::Lane(*n),
            Input::Other(s) => InputView::Other(s@),
        }
    }
}

/// What a list of words holds.
pub open spec fn inputs_view(v: Seq<Input>) -> Seq<InputView> {
    Seq::new(v.len(), |i: int| v[i]@)
}

/// A command. An argument that is missing or cannot be read is `None`.
#[derive(Debug)]
pub enum Command {
    /// Empty line: start a race.
    Start,
    /// `/` or `/print`.
    Finalize,
    Event(Option<u16>),
    Heat(Option<u8>),
    Race(Option<u16>),
    Dq(Option<u8>),
    LineupShow,
    /// `/lineup preset P [G]`.
    LineupPreset(Option<Preset>, Gender),
    /// `/lineup add D G S [Y]`.
    LineupAdd(Option<EventDef>),
    /// `/lineup remove N`.
    LineupRemove(Option<usize>),
    LineupClear,
    /// An unknown `/lineup` subcommand.
    LineupOther(String),
    SlotList,
    /// `/slot show [N]`.
    SlotShow(Option<u8>),
    SlotSave,
    /// `/slot rename NAME`.
    SlotRename(Option<String>),
    /// `/slot use N`.
    SlotUse(Option<u8>),
    /// `/slot N`.
    SlotNumber(u8),
    /// An unknown `/slot` subcommand.
    SlotOther(String),
    Races,
    LanesShow,
    /// `/lanes A..B`.
    Lanes(Option<(u8, u8)>),
    Status,
    Help,
    Quit,
    /// An unknown command.
    Other(String),
    /// Lane touches.
    Touches(Vec<Input>),
}

/// What a [`Command`] holds.
pub enum CommandView {
    Start,
    Finalize,
    Event(Option<u16>),
    Heat(Option<u8>),
    Race(Option<u16>),
    Dq(Option<u8>),
    LineupShow,
    LineupPreset(Option<Preset>, Gender),
    LineupAdd(Option<EventDef>),
    LineupRemove(Option<usize>),
    LineupClear,
    LineupOther(Seq<char>),
    SlotList,
    SlotShow(Option<u8>),
    SlotSave,
    SlotRename(Option<Seq<char>>),
    SlotUse(Option<u8>),
    SlotNumber(u8),
    SlotOther(Seq<char>),
    Races,
    LanesShow,
    Lanes(Option<(u8, u8)>),
    Status,
    Help,
    Quit,
    Other(Seq<char>),
    Touches(Seq<InputView>),
}

/// What an optional text holds.
pub open spec fn opt_text(s: Option<String>) -> Option<Seq<char>> {
    match s {
        Some(t) => Some(t@),
        None => None,
    }
}

impl View for Command {
    type V = CommandView;

    open spec fn view(&self) -> CommandView {
        match self {
            Command::Start => CommandView::Start,
            Command::Finalize => CommandView::Finalize,
            Command::Event(n) => CommandView::Event(*n),
            Command::Heat(n) => CommandView::Heat(*n),
            Command::Race(n) => CommandView::Race(*n),
            Command::Dq(n) => CommandView::Dq(*n),
            Command::LineupShow => CommandView::LineupShow,
            Command::LineupPreset(p, g) => CommandView::LineupPreset(*p, *g),
            Command::LineupAdd(e) => CommandView::LineupAdd(*e),
            Command::LineupRemove(n) => CommandView::LineupRemove(*n),
            Command::LineupClear => CommandView::LineupClear,
            Command::LineupOther(s) => CommandView::LineupOther(s@),
            Command::SlotList => CommandView::SlotList,
            Command::SlotShow(n) => CommandView::SlotShow(*n),
            Command::SlotSave => CommandView::SlotSave,
            Command::SlotRename(s) => CommandView::SlotRename(opt_text(*s)),
            Command::SlotUse(n) => CommandView::SlotUse(*n),
            Command::SlotNumber(n) => CommandView::SlotNumber(*n),
            Command::SlotOther(s) => CommandView::SlotOther(s@),
            Command::Races => CommandView::Races,
            Command::LanesShow => CommandView::LanesShow,
            Command::Lanes(p) => CommandView::Lanes(*p),
            Command::Status => CommandView::Status,
            Command::Help => CommandView::Help,
            Command::Quit => CommandView::Quit,
            Command::Other(s) => CommandView::Other(s@),
            Command::Touches(v) => CommandView::Touches(inputs_view(v@)),
        }
    }
}

/// Word `i` of a command.
pub open spec fn arg(ws: Seq<Seq<char>>, i: int) -> Option<Seq<char>> {
    if 0 <= i < ws.len() {
        Some(ws[i])
    } else {
        None
    }
}

/// Word `i` of a command as a `u8`.
pub open spec fn arg_u8(ws: Seq<Seq<char>>, i: int) -> Option<u8> {
    match arg(ws, i) {
        Some(w) => text::u8_of(w),
        None => None,
    }
}

/// Word `i` of a command as a `u16`.
pub open spec fn arg_u16(ws: Seq<Seq<char>>, i: int) -> Option<u16> {
    match arg(ws, i) {
        Some(w) => text::u16_of(w),
        None => None,
    }
}

/// Word `i` of a command as a `usize`.
pub open spec fn arg_usize(ws: Seq<Seq<char>>, i: int) -> Option<usize> {
    match arg(ws, i) {
        Some(w) => text::usize_of(w),
        None => None,
    }
}

/// Word `i` of a command as a gender.
pub open spec fn arg_gender(ws: Seq<Seq<char>>, i: int) -> Option<Gender> {
    match arg(ws, i) {
        Some(w) => event::gender_of(w),
        None => None,
    }
}

/// Word `i` of a command as a stroke.
pub open spec fn arg_stroke(ws: Seq<Seq<char>>, i: int) -> Option<Stroke> {
    match arg(ws, i) {
        Some(w) => event::stroke_of(w),
        None => None,
    }
}

/// Index of the first `..`.
pub open spec fn first_dots(s: Seq<char>) -> Option<nat>
    decreases s.len(),
{
    if s.len() < 2 {
        None
    } else if s[0] == '.' && s[1] == '.' {
        Some(0)
    } else {
        match first_dots(s.skip(1)) {
            Some(i) => Some(i + 1),
            None => None,
        }
    }
}

/// The lane spread that `s` spells: two lane numbers around the first `..`, the
/// first not above the second, both from 1 to the number of lanes.
pub open spec fn spread_of(s: Seq<char>) -> Option<(u8, u8)> {
    match first_dots(s) {
        None => None,
        Some(i) => {
            let lo = text::u8_of(text::trimmed(s.take(i as int)));
            let hi = text::u8_of(text::trimmed(s.skip(i as int + 2)));
            if lo is Some && hi is Some && 1 <= lo->0 <= hi->0 <= MAX_LANES {
                Some((lo->0, hi->0))
            } else {
                None
            }
        },
    }
}

/// The preset that a word names.
pub open spec fn preset_of(w: Seq<char>) -> Option<Preset> {
    if w == "hs"@ {
        Some(Preset::HighSchool)
    } else if w == "ncaa13"@ {
        Some(Preset::Ncaa13)
    } else if w == "ncaa15"@ {
        Some(Preset::Ncaa15)
    } else if w == "ncaa16"@ {
        Some(Preset::Ncaa16)
    } else {
        None
    }
}

/// The event that `/lineup add D G S [Y]` defines: a split every 50 yards
/// unless `Y` is given.
pub open spec fn event_to_add(ws: Seq<Seq<char>>) -> Option<EventDef> {
    let distance = arg_u16(ws, 2);
    let gender = arg_gender(ws, 3);
    let stroke = arg_stroke(ws, 4);
    if distance is Some && gender is Some && stroke is Some {
        Some(
            EventDef {
                distance: distance->0,
                gender: gender->0,
                stroke: stroke->0,
                split_yards: match arg_u16(ws, 5) {
                    Some(y) => y,
                    None => 50u16,
                },
            },
        )
    } else {
        None
    }
}

/// What `/lineup ...` means.
pub open spec fn lineup_command(ws: Seq<Seq<char>>) -> CommandView {
    match arg(ws, 1) {
        None => CommandView::LineupShow,
        Some(sub) => if sub == "show"@ {
            CommandView::LineupShow
        } else if sub == "preset"@ {
            CommandView::LineupPreset(
                match arg(ws, 2) {
                    Some(w) => preset_of(w),
                    None => None,
                },
                match arg_gender(ws, 3) {
                    Some(g) => g,
                    None => Gender::Mixed,
                },
            )
        } else if sub == "add"@ {
            CommandView::LineupAdd(event_to_add(ws))
        } else if sub == "remove"@ || sub == "rm"@ || sub == "del"@ || sub == "delete"@ {
            CommandView::LineupRemove(arg_usize(ws, 2))
        } else if sub == "clear"@ {
            CommandView::LineupClear
        } else {
            CommandView::LineupOther(sub)
        },
    }
}

/// What `/slot ...` means.
pub open spec fn slot_command(ws: Seq<Seq<char>>) -> CommandView {
    match arg(ws, 1) {
        None => CommandView::SlotList,
        Some(sub) => if sub == "list"@ {
            CommandView::SlotList
        } else if sub == "show"@ {
            CommandView::SlotShow(arg_u8(ws, 2))
        } else if sub == "save"@ {
            CommandView::SlotSave
        } else if sub == "rename"@ {
            CommandView::SlotRename(
                if ws.len() <= 2 {
                    None
                } else {
                    Some(text::joined(ws.skip(2)))
                },
            )
        } else if sub == "use"@ || sub == "select"@ || sub == "load"@ {
            CommandView::SlotUse(arg_u8(ws, 2))
        } else {
            match text::u8_of(sub) {
                Some(n) => CommandView::SlotNumber(n),
                None => CommandView::SlotOther(sub),
            }
        },
    }
}

/// What the words behind a slash mean.
pub open spec fn words_command(ws: Seq<Seq<char>>) -> CommandView {
    let head = match arg(ws, 0) {
        Some(w) => w,
        None => Seq::empty(),
    };
    if head == "event"@ {
        CommandView::Event(arg_u16(ws, 1))
    } else if head == "heat"@ {
        CommandView::Heat(arg_u8(ws, 1))
    } else if head == "race"@ {
        CommandView::Race(arg_u16(ws, 1))
    } else if head == "dq"@ {
        CommandView::Dq(arg_u8(ws, 1))
    } else if head == "lineup"@ {
        lineup_command(ws)
    } else if head == "slot"@ || head == "slots"@ {
        slot_command(ws)
    } else if head == "races"@ {
        CommandView::Races
    } else if head == "lanes"@ {
        match arg(ws, 1) {
            None => CommandView::LanesShow,
            Some(w) => CommandView::Lanes(spread_of(w)),
        }
    } else if head == "status"@ {
        CommandView::Status
    } else if head == "help"@ || head == "?"@ {
        CommandView::Help
    } else if head == "quit"@ || head == "exit"@ {
        CommandView::Quit
    } else {
        CommandView::Other(head)
    }
}

/// What a word of a touch line means.
pub open spec fn input_of(w: Seq<char>) -> InputView {
    match text::u8_of(w) {
        Some(n) => InputView::Lane(n),
        None => InputView::Other(w),
    }
}

/// What a line means: nothing starts a race, a slash introduces a command, and
/// anything else is lane touches.
pub open spec fn command_of(line: Seq<char>) -> CommandView {
    let t = text::trimmed(line);
    if t.len() == 0 {
        CommandView::Start
    } else if t[0] == '/' {
        let c = text::trimmed(t.skip(1));
        if c.len() == 0 || c == "print"@ {
            CommandView::Finalize
        } else {
            words_command(text::words(c))
        }
    } else {
        CommandView::Touches(text::words(t).map_values(|w: Seq<char>| input_of(w)))
    }
}

/// Reads a lane spread from characters.
pub fn spread_from_chars(s: &[char]) -> (r: Option<(u8, u8)>)
    ensures
        r == spread_of(s@),
{
    let n: usize = s.len();
    let mut i: usize = 0;
    assert(s@.skip(0) =~= s@);
    while i < n && n - i > 1 && !(s[i] == '.' && s[i + 1] == '.')
        invariant
            n == s@.len(),
            i <= n,
            first_dots(s@) == (match first_dots(s@.skip(i as int)) {
                Some(k) => Some(k + i as nat),
                None => None,
            }),
        decreases n - i,
    {
        assert(s@.skip(i as int).skip(1) =~= s@.skip(i + 1));
        i = i + 1;
    }
    if n - i <= 1 {
        assert(s@.skip(i as int).len() < 2);
        return None;
    }
    assert(first_dots(s@) == Some(i as nat));
    let a: Vec<char> = text::slice_chars(s, 0, i);
    let b: Vec<char> = text::slice_chars(s, i + 2, n);
    assert(a@ =~= s@.take(i as int));
    assert(b@ =~= s@.skip(i + 2));
    let a: Vec<char> = text::trim(a.as_slice());
    let b: Vec<char> = text::trim(b.as_slice());
    match (text::parse_u8(a.as_slice()), text::parse_u8(b.as_slice())) {
        (Some(lo), Some(hi)) => if lo < 1 || hi < 1 || lo as usize > MAX_LANES || hi as usize
            > MAX_LANES || lo > hi {
            None
        } else {
            Some((lo, hi))
        },
        _ => None,
    }
}

/// Parse a lane spread like "1..10", "2..8", "1..1" into an inclusive
/// `(low, high)` pair.
pub fn parse_lane_spread(s: &str) -> (r: Option<(u8, u8)>)
    ensures
        r == spread_of(s@),
{
    let chars: Vec<char> = text::to_chars(s);
    spread_from_chars(chars.as_slice())
}

fn get_u8(ws: &Vec<Vec<char>>, i: usize) -> (r: Option<u8>)
    ensures
        r == arg_u8(text::char_lists(ws@), i as int),
{
    if i < ws.len() {
        text::parse_u8(ws[i].as_slice())
    } else {
        None
    }
}

fn get_u16(ws: &Vec<Vec<char>>, i: usize) -> (r: Option<u16>)
    ensures
        r == arg_u16(text::char_lists(ws@), i as int),
{
    if i < ws.len() {
        text::parse_u16(ws[i].as_slice())
    } else {
        None
    }
}

fn get_usize(ws: &Vec<Vec<char>>, i: usize) -> (r: Option<usize>)
    ensures
        r == arg_usize(text::char_lists(ws@), i as int),
{
    if i < ws.len() {
        text::parse_usize(ws[i].as_slice())
    } else {
        None
    }
}

fn get_gender(ws: &Vec<Vec<char>>, i: usize) -> (r: Option<Gender>)
    ensures
        r == arg_gender(text::char_lists(ws@), i as int),
{
    if i < ws.len() {
        event::gender_from_chars(ws[i].as_slice())
    } else {
        None
    }
}

fn get_stroke(ws: &Vec<Vec<char>>, i: usize) -> (r: Option<Stroke>)
    ensures
        r == arg_stroke(text::char_lists(ws@), i as int),
{
    if i < ws.len() {
        event::stroke_from_chars(ws[i].as_slice())
    } else {
        None
    }
}

fn preset_from(w: &[char]) -> (r: Option<Preset>)
    ensures
        r == preset_of(w@),
{
    if text::same_text(w, "hs") {
        Some(Preset::HighSchool)
    } else if text::same_text(w, "ncaa13") {
        Some(Preset::Ncaa13)
    } else if text::same_text(w, "ncaa15") {
        Some(Preset::Ncaa15)
    } else if text::same_text(w, "ncaa16") {
        Some(Preset::Ncaa16)
    } else {
        None
    }
}

fn parse_lineup(ws: &Vec<Vec<char>>) -> (r: Command)
    ensures
        r@ == lineup_command(text::char_lists(ws@)),
{
    if ws.len() < 2 {
        return Command::LineupShow;
    }
    let sub: &[char] = ws[1].as_slice();
    if text::same_text(sub, "show") {
        Command::LineupShow
    } else if text::same_text(sub, "preset") {
        let preset: Option<Preset> = if 2 < ws.len() {
            preset_from(ws[2].as_slice())
        } else {
            None
        };
        let gender: Gender = match get_gender(ws, 3) {
            Some(g) => g,
            None => Gender::Mixed,
        };
        Command::LineupPreset(preset, gender)
    } else if text::same_text(sub, "add") {
        let split_yards: u16 = match get_u16(ws, 5) {
            Some(y) => y,
            None => 50,
        };
        match (get_u16(ws, 2), get_gender(ws, 3), get_stroke(ws, 4)) {
            (Some(distance), Some(gender), Some(stroke)) => Command::LineupAdd(
                Some(EventDef { distance, gender, stroke, split_yards }),
            ),
            _ => Command::LineupAdd(None),
        }
    } else if text::same_text(sub, "remove") || text::same_text(sub, "rm") || text::same_text(
        sub,
        "del",
    ) || text::same_text(sub, "delete") {
        Command::LineupRemove(get_usize(ws, 2))
    } else if text::same_text(sub, "clear") {
        Command::LineupClear
    } else {
        Command::LineupOther(text::from_chars(sub))
    }
}

fn parse_slot(ws: &Vec<Vec<char>>) -> (r: Command)
    ensures
        r@ == slot_command(text::char_lists(ws@)),
{
    if ws.len() < 2 {
        return Command::SlotList;
    }
    let sub: &[char] = ws[1].as_slice();
    if text::same_text(sub, "list") {
        Command::SlotList
    } else if text::same_text(sub, "show") {
        Command::SlotShow(get_u8(ws, 2))
    } else if text::same_text(sub, "save") {
        Command::SlotSave
    } else if text::same_text(sub, "rename") {
        if ws.len() <= 2 {
            Command::SlotRename(None)
        } else {
            Command::SlotRename(Some(text::join_words(ws, 2)))
        }
    } else if text::same_text(sub, "use") || text::same_text(sub, "select") || text::same_text(
        sub,
        "load",
    ) {
        Command::SlotUse(get_u8(ws, 2))
    } else {
        match text::parse_u8(sub) {
            Some(n) => Command::SlotNumber(n),
            None => Command::SlotOther(text::from_chars(sub)),
        }
    }
}

fn parse_words(ws: &Vec<Vec<char>>) -> (r: Command)
    ensures
        r@ == words_command(text::char_lists(ws@)),
{
    let none: Vec<char> = Vec::new();
    let head: &[char] = if ws.len() > 0 {
        ws[0].as_slice()
    } else {
        none.as_slice()
    };
    assert(none@ =~= Seq::<char>::empty());
    if text::same_text(head, "event") {
        Command::Event(get_u16(ws, 1))
    } else if text::same_text(head, "heat") {
        Command::Heat(get_u8(ws, 1))
    } else if text::same_text(head, "race") {
        Command::Race(get_u16(ws, 1))
    } else if text::same_text(head, "dq") {
        Command::Dq(get_u8(ws, 1))
    } else if text::same_text(head, "lineup") {
        parse_lineup(ws)
    } else if text::same_text(head, "slot") || text::same_text(head, "slots") {
        parse_slot(ws)
    } else if text::same_text(head, "races") {
        Command::Races
    } else if text::same_text(head, "lanes") {
        if ws.len() < 2 {
            Command::LanesShow
        } else {
            Command::Lanes(spread_from_chars(ws[1].as_slice()))
        }
    } else if text::same_text(head, "status") {
        Command::Status
    } else if text::same_text(head, "help") || text::same_text(head, "?") {
        Command::Help
    } else if text::same_text(head, "quit") || text::same_text(head, "exit") {
        Command::Quit
    } else {
        Command::Other(text::from_chars(head))
    }
}

/// Reads a line.
pub fn parse_command(line: &str) -> (r: Command)
    ensures
        r@ == command_of(line@),
{
    let chars: Vec<char> = text::to_chars(line);
    let t: Vec<char> = text::trim(chars.as_slice());
    if t.len() == 0 {
        return Command::Start;
    }
    if t[0] == '/' {
        let rest: Vec<char> = text::slice_chars(t.as_slice(), 1, t.len());
        assert(rest@ =~= t@.skip(1));
        let c: Vec<char> = text::trim(rest.as_slice());
        if c.len() == 0 || text::same_text(c.as_slice(), "print") {
            return Command::Finalize;
        }
        let ws: Vec<Vec<char>> = text::split_words(c.as_slice());
        return parse_words(&ws);
    }
    let ws: Vec<Vec<char>> = text::split_words(t.as_slice());
    let ghost all = text::words(t@).map_values(|w: Seq<char>| input_of(w));
    let n: usize = ws.len();
    let mut out: Vec<Input> = Vec::new();
    let mut i: usize = 0;
    while i < n
        invariant
            n == ws@.len(),
            text::char_lists(ws@) == text::words(t@),
            all == text::words(t@).map_values(|w: Seq<char>| input_of(w)),
            i <= n,
            inputs_view(out@) == all.take(i as int),
        decreases n - i,
    {
        let w: &[char] = ws[i].as_slice();
        assert(w@ == text::char_lists(ws@)[i as int]);
        let item: Input = match text::parse_u8(w) {
            Some(k) => Input::Lane(k),
            None => Input::Other(text::from_chars(w)),
        };
        assert(item@ == all[i as int]);
        let ghost before = out@;
        out.push(item);
        i = i + 1;
        assert(inputs_view(out@) =~= inputs_view(before).push(item@));
        assert(all.take(i as int) =~= all.take(i - 1).push(all[i - 1]));
    }
    assert(text::char_lists(ws@).len() == n);
    assert(all.take(n as int) =~= all);
    Command::Touches(out)
}

/// The first `..` behind a text without dots.
proof fn lemma_first_dots(a: Seq<char>, b: Seq<char>)
    requires
        forall|i: int| 0 <= i < a.len() ==> #[trigger] a[i] != '.',
    ensures
        first_dots(a + seq!['.', '.'] + b) == Some(a.len()),
    decreases a.len(),
{
    let s = a + seq!['.', '.'] + b;
    if a.len() == 0 {
        assert(s[0] == '.' && s[1] == '.');
    } else {
        assert(s[0] == a[0]);
        assert forall|i: int| 0 <= i < a.skip(1).len() implies #[trigger] a.skip(1)[i] != '.' by {
            assert(a.skip(1)[i] == a[i + 1]);
        }
        lemma_first_dots(a.skip(1), b);
        assert(s.skip(1) =~= a.skip(1) + seq!['.', '.'] + b);
    }
}

/// A lane spread written as two numbers around `..` is read back.
pub proof fn law_lane_spread_reads_back(lo: u8, hi: u8)
    requires
        1 <= lo <= hi <= MAX_LANES,
    ensures
        spread_of(text::dec(lo as nat) + ".."@ + text::dec(hi as nat)) == Some((lo, hi)),
{
    let a = text::dec(lo as nat);
    let b = text::dec(hi as nat);
    let s = a + ".."@ + b;
    reveal_strlit("..");
    assert(".."@ =~= seq!['.', '.']);
    text::lemma_dec_digits(lo as nat);
    text::lemma_dec_digits(hi as nat);
    lemma_first_dots(a, b);
    assert(s.take(a.len() as int) =~= a);
    assert(s.skip(a.len() as int + 2) =~= b);
    text::lemma_one_word(a);
    text::lemma_one_word(b);
    text::law_number_reads_dec(lo as nat, u8::MAX as nat);
    text::law_number_reads_dec(hi as nat, u8::MAX as nat);
}

/// A line that holds one number up to 255 touches the lane with that number.
pub proof fn law_lane_number_is_a_touch(lane: u8)
    ensures
        command_of(text::dec(lane as nat)) == CommandView::Touches(seq![InputView::Lane(lane)]),
{
    let s = text::dec(lane as nat);
    text::lemma_dec_digits(lane as nat);
    assert(text::is_digit(s[0]));
    text::lemma_one_word(s);
    text::law_number_reads_dec(lane as nat, u8::MAX as nat);
    assert(seq![s].map_values(|w: Seq<char>| input_of(w)) =~= seq![InputView::Lane(lane)]);
}

/// A blank line starts a race, and a slash alone finalizes it.
pub proof fn law_shortest_commands(blank: Seq<char>)
    requires
        forall|i: int| 0 <= i < blank.len() ==> text::is_space(#[trigger] blank[i]),
    ensures
        command_of(blank) == CommandView::Start,
        command_of(seq!['/'] + blank) == CommandView::Finalize,
{
    lemma_blank(blank);
    let s = seq!['/'] + blank;
    assert(!text::is_space(s[0]));
    assert(text::trim_start(s) == s);
    lemma_slash_blank(blank);
    assert(seq!['/'].skip(1) =~= Seq::<char>::empty());
    lemma_blank(Seq::<char>::empty());
}

proof fn lemma_blank(blank: Seq<char>)
    requires
        forall|i: int| 0 <= i < blank.len() ==> text::is_space(#[trigger] blank[i]),
    ensures
        text::trim_start(blank).len() == 0,
        text::trimmed(blank).len() == 0,
    decreases blank.len(),
{
    if blank.len() > 0 {
        assert(text::is_space(blank[0]));
        assert forall|i: int| 0 <= i < blank.skip(1).len() implies text::is_space(
            #[trigger] blank.skip(1)[i],
        ) by {
            assert(blank.skip(1)[i] == blank[i + 1]);
        }
        lemma_blank(blank.skip(1));
    }
}

proof fn lemma_slash_blank(blank: Seq<char>)
    requires
        forall|i: int| 0 <= i < blank.len() ==> text::is_space(#[trigger] blank[i]),
    ensures
        text::trim_end(seq!['/'] + blank) == seq!['/'],
    decreases blank.len(),
{
    let s = seq!['/'] + blank;
    if blank.len() > 0 {
        assert(s.last() == blank.last());
        assert(text::is_space(blank[blank.len() - 1]));
        assert(s.drop_last() =~= seq!['/'] + blank.drop_last());
        lemma_slash_blank(blank.drop_last());
    } else {
        assert(s =~= seq!['/']);
    }
}

/// A line that begins with a slash is a command made of the words behind it.
proof fn lemma_slash_line(c: Seq<char>)
    requires
        c.len() > 0,
        !text::is_space(c[0]),
        !text::is_space(c.last()),
        c != "print"@,
    ensures
        command_of(seq!['/'] + c) == words_command(text::words(c)),
{
    let line = seq!['/'] + c;
    assert(line[0] == '/');
    assert(line.last() == c.last());
    assert(text::trim_start(line) == line);
    assert(text::trim_end(line) == line);
    assert(line.skip(1) =~= c);
    assert(text::trim_start(c) == c);
    assert(text::trim_end(c) == c);
}

/// The literals that commands begin with.
proof fn lemma_heads()
    ensures
        text::one_word("event"@),
        text::one_word("heat"@),
        text::one_word("race"@),
        text::one_word("dq"@),
        text::one_word("lineup"@),
        text::one_word("slot"@),
        text::one_word("slots"@),
        text::one_word("races"@),
        text::one_word("lanes"@),
        text::one_word("status"@),
        text::one_word("help"@),
        text::one_word("?"@),
        text::one_word("quit"@),
        text::one_word("exit"@),
        text::one_word("print"@),
        "?"@ == seq!['?'],
        "event"@[0] == 'e' && "event"@.len() == 5,
        "heat"@[0] == 'h' && "heat"@.len() == 4 && "heat"@[2] == 'a',
        "race"@[0] == 'r' && "race"@.len() == 4,
        "dq"@[0] == 'd' && "dq"@.len() == 2,
        "lineup"@[0] == 'l' && "lineup"@.len() == 6,
        "slot"@[0] == 's' && "slot"@.len() == 4,
        "slots"@[0] == 's' && "slots"@.len() == 5,
        "races"@[0] == 'r' && "races"@.len() == 5,
        "lanes"@[0] == 'l' && "lanes"@.len() == 5,
        "status"@[0] == 's' && "status"@.len() == 6,
        "help"@[0] == 'h' && "help"@.len() == 4 && "help"@[2] == 'l',
        "quit"@[0] == 'q' && "quit"@.len() == 4,
        "exit"@[0] == 'e' && "exit"@.len() == 4,
        "print"@[0] == 'p' && "print"@.len() == 5,
{
    reveal_strlit("event");
    reveal_strlit("heat");
    reveal_strlit("race");
    reveal_strlit("dq");
    reveal_strlit("lineup");
    reveal_strlit("slot");
    reveal_strlit("slots");
    reveal_strlit("races");
    reveal_strlit("lanes");
    reveal_strlit("status");
    reveal_strlit("help");
    reveal_strlit("?");
    reveal_strlit("quit");
    reveal_strlit("exit");
    reveal_strlit("print");
    assert("?"@ =~= seq!['?']);
}

/// The words of a head and its arguments.
proof fn lemma_two_words(a: Seq<char>, b: Seq<char>)
    requires
        text::one_word(a),
        text::one_word(b),
    ensures
        text::words(a + seq![' '] + b) == seq![a, b],
{
    text::law_white_space_parts_words(a, ' ', b);
    text::lemma_one_word(a);
    text::lemma_one_word(b);
    assert(seq![a] + seq![b] =~= seq![a, b]);
}

proof fn lemma_three_words(a: Seq<char>, b: Seq<char>, c: Seq<char>)
    requires
        text::one_word(a),
        text::one_word(b),
        text::one_word(c),
    ensures
        text::words(a + seq![' '] + b + seq![' '] + c) == seq![a, b, c],
{
    lemma_two_words(a, b);
    text::law_white_space_parts_words(a + seq![' '] + b, ' ', c);
    text::lemma_one_word(c);
    assert(seq![a, b] + seq![c] =~= seq![a, b, c]);
}

proof fn lemma_dec_word(n: nat)
    ensures
        text::one_word(text::dec(n)),
{
    text::lemma_dec_digits(n);
    assert forall|i: int| 0 <= i < text::dec(n).len() implies !text::is_space(
        #[trigger] text::dec(n)[i],
    ) by {
        assert(text::is_digit(text::dec(n)[i]));
    }
}

/// `/event`, `/heat`, `/race` and `/dq` with a number set, or disqualify, that
/// number.
pub proof fn law_numbered_commands(n: u16, k: u8)
    ensures
        command_of("/event "@ + text::dec(n as nat)) == CommandView::Event(Some(n)),
        command_of("/race "@ + text::dec(n as nat)) == CommandView::Race(Some(n)),
        command_of("/heat "@ + text::dec(k as nat)) == CommandView::Heat(Some(k)),
        command_of("/dq "@ + text::dec(k as nat)) == CommandView::Dq(Some(k)),
        n > 255 ==> command_of("/heat "@ + text::dec(n as nat)) == CommandView::Heat(None),
        n > 255 ==> command_of("/dq "@ + text::dec(n as nat)) == CommandView::Dq(None),
{
    lemma_dec_word(n as nat);
    lemma_dec_word(k as nat);
    law_argument_commands(text::dec(n as nat));
    law_argument_commands(text::dec(k as nat));
    text::law_number_reads_dec(n as nat, 65_535);
    text::law_number_reads_dec(k as nat, 255);
    text::lemma_dec_digits(n as nat);
    assert(text::is_digit(text::dec(n as nat)[0]));
}

/// The word behind `/event` and `/race` is read as a number up to 65535, that
/// behind `/heat` and `/dq` as one up to 255, and that behind `/lanes` as a
/// spread of lanes.
pub proof fn law_argument_commands(w: Seq<char>)
    requires
        text::one_word(w),
    ensures
        command_of("/event "@ + w) == CommandView::Event(text::u16_of(w)),
        command_of("/race "@ + w) == CommandView::Race(text::u16_of(w)),
        command_of("/heat "@ + w) == CommandView::Heat(text::u8_of(w)),
        command_of("/dq "@ + w) == CommandView::Dq(text::u8_of(w)),
        command_of("/lanes "@ + w) == CommandView::Lanes(spread_of(w)),
{
    lemma_heads();
    reveal_strlit("/event ");
    reveal_strlit("/race ");
    reveal_strlit("/heat ");
    reveal_strlit("/dq ");
    reveal_strlit("/lanes ");
    reveal_strlit("event");
    reveal_strlit("race");
    reveal_strlit("heat");
    reveal_strlit("dq");
    reveal_strlit("lanes");
    lemma_headed("event"@, w);
    lemma_headed("race"@, w);
    lemma_headed("heat"@, w);
    lemma_headed("dq"@, w);
    lemma_headed("lanes"@, w);
    assert("/event "@ + w =~= seq!['/'] + ("event"@ + seq![' '] + w));
    assert("/race "@ + w =~= seq!['/'] + ("race"@ + seq![' '] + w));
    assert("/heat "@ + w =~= seq!['/'] + ("heat"@ + seq![' '] + w));
    assert("/dq "@ + w =~= seq!['/'] + ("dq"@ + seq![' '] + w));
    assert("/lanes "@ + w =~= seq!['/'] + ("lanes"@ + seq![' '] + w));
}

proof fn lemma_headed(head: Seq<char>, w: Seq<char>)
    requires
        text::one_word(head),
        text::one_word(w),
    ensures
        command_of(seq!['/'] + (head + seq![' '] + w)) == words_command(seq![head, w]),
{
    let c = head + seq![' '] + w;
    lemma_two_words(head, w);
    reveal_strlit("print");
    assert(!text::is_space(head[0]) && !text::is_space(w[w.len() - 1]));
    assert(c[0] == head[0] && c.last() == w.last());
    assert(c[head.len() as int] == ' ');
    assert forall|i: int| 0 <= i < "print"@.len() implies "print"@[i] != ' ' by {}
    lemma_slash_line(c);
}

proof fn lemma_headed_twice(head: Seq<char>, sub: Seq<char>, w: Seq<char>)
    requires
        text::one_word(head),
        text::one_word(sub),
        text::one_word(w),
    ensures
        command_of(seq!['/'] + (head + seq![' '] + sub + seq![' '] + w)) == words_command(
            seq![head, sub, w],
        ),
{
    let c = head + seq![' '] + sub + seq![' '] + w;
    lemma_three_words(head, sub, w);
    reveal_strlit("print");
    assert(!text::is_space(head[0]) && !text::is_space(w[w.len() - 1]));
    assert(c[0] == head[0] && c.last() == w.last());
    assert(c[head.len() as int] == ' ');
    assert forall|i: int| 0 <= i < "print"@.len() implies "print"@[i] != ' ' by {}
    lemma_slash_line(c);
}

/// A word that is no number is no argument for `/event`, `/heat`, `/race` and
/// `/dq`, and neither is none at all.
pub proof fn law_missing_numbers(w: Seq<char>)
    requires
        text::one_word(w),
        !(48 <= w.last() as int <= 57),
    ensures
        command_of("/event "@ + w) == CommandView::Event(None),
        command_of("/race "@ + w) == CommandView::Race(None),
        command_of("/heat "@ + w) == CommandView::Heat(None),
        command_of("/dq "@ + w) == CommandView::Dq(None),
        command_of("/event"@) == CommandView::Event(None),
        command_of("/race"@) == CommandView::Race(None),
        command_of("/heat"@) == CommandView::Heat(None),
        command_of("/dq"@) == CommandView::Dq(None),
{
    law_argument_commands(w);
    let last = w.len() - 1;
    text::law_other_characters_are_no_number(w, last, 255);
    text::law_other_characters_are_no_number(w, last, 65_535);
    if last == 0 && w[0] == '+' {
        assert(w =~= seq!['+']);
    }
    lemma_heads();
    reveal_strlit("/event");
    reveal_strlit("/race");
    reveal_strlit("/heat");
    reveal_strlit("/dq");
    reveal_strlit("event");
    reveal_strlit("race");
    reveal_strlit("heat");
    reveal_strlit("dq");
    lemma_bare("event"@);
    lemma_bare("race"@);
    lemma_bare("heat"@);
    lemma_bare("dq"@);
    assert("/event"@ =~= seq!['/'] + "event"@);
    assert("/race"@ =~= seq!['/'] + "race"@);
    assert("/heat"@ =~= seq!['/'] + "heat"@);
    assert("/dq"@ =~= seq!['/'] + "dq"@);
}

proof fn lemma_bare(head: Seq<char>)
    requires
        text::one_word(head),
        head != "print"@,
    ensures
        command_of(seq!['/'] + head) == words_command(seq![head]),
{
    text::lemma_one_word(head);
    assert(!text::is_space(head[0]) && !text::is_space(head[head.len() - 1]));
    lemma_slash_line(head);
}

proof fn lemma_bare_lists()
    ensures
        command_of("/lineup"@) == CommandView::LineupShow,
        command_of("/slot"@) == CommandView::SlotList,
        command_of("/slots"@) == CommandView::SlotList,
{
    lemma_heads();
    reveal_strlit("/lineup");
    reveal_strlit("lineup");
    lemma_bare("lineup"@);
    assert("/lineup"@ =~= seq!['/'] + "lineup"@);
    reveal_strlit("/slot");
    reveal_strlit("slot");
    lemma_bare("slot"@);
    assert("/slot"@ =~= seq!['/'] + "slot"@);
    reveal_strlit("/slots");
    reveal_strlit("slots");
    lemma_bare("slots"@);
    assert("/slots"@ =~= seq!['/'] + "slots"@);
}

proof fn lemma_bare_views()
    ensures
        command_of("/races"@) == CommandView::Races,
        command_of("/lanes"@) == CommandView::LanesShow,
        command_of("/status"@) == CommandView::Status,
{
    lemma_heads();
    reveal_strlit("/races");
    reveal_strlit("races");
    lemma_bare("races"@);
    assert("/races"@ =~= seq!['/'] + "races"@);
    reveal_strlit("/lanes");
    reveal_strlit("lanes");
    lemma_bare("lanes"@);
    assert("/lanes"@ =~= seq!['/'] + "lanes"@);
    reveal_strlit("/status");
    reveal_strlit("status");
    lemma_bare("status"@);
    assert("/status"@ =~= seq!['/'] + "status"@);
}

proof fn lemma_bare_helps()
    ensures
        command_of("/help"@) == CommandView::Help,
        command_of("/?"@) == CommandView::Help,
{
    lemma_heads();
    reveal_strlit("/help");
    reveal_strlit("help");
    lemma_bare("help"@);
    assert("/help"@ =~= seq!['/'] + "help"@);
    reveal_strlit("/?");
    reveal_strlit("?");
    lemma_bare("?"@);
    assert("/?"@ =~= seq!['/'] + "?"@);
}

proof fn lemma_bare_ends()
    ensures
        command_of("/quit"@) == CommandView::Quit,
        command_of("/exit"@) == CommandView::Quit,
{
    lemma_heads();
    reveal_strlit("/quit");
    reveal_strlit("quit");
    lemma_bare("quit"@);
    assert("/quit"@ =~= seq!['/'] + "quit"@);
    reveal_strlit("/exit");
    reveal_strlit("exit");
    lemma_bare("exit"@);
    assert("/exit"@ =~= seq!['/'] + "exit"@);
}

/// The commands without arguments.
pub proof fn law_bare_commands()
    ensures
        command_of("/"@) == CommandView::Finalize,
        command_of("/print"@) == CommandView::Finalize,
        command_of("/lineup"@) == CommandView::LineupShow,
        command_of("/slot"@) == CommandView::SlotList,
        command_of("/slots"@) == CommandView::SlotList,
        command_of("/races"@) == CommandView::Races,
        command_of("/lanes"@) == CommandView::LanesShow,
        command_of("/status"@) == CommandView::Status,
        command_of("/help"@) == CommandView::Help,
        command_of("/?"@) == CommandView::Help,
        command_of("/quit"@) == CommandView::Quit,
        command_of("/exit"@) == CommandView::Quit,
{
    lemma_bare_lists();
    lemma_bare_views();
    lemma_bare_helps();
    lemma_bare_ends();
    law_shortest_commands(Seq::empty());
    reveal_strlit("/");
    assert("/"@ =~= seq!['/'] + Seq::<char>::empty());
    reveal_strlit("/print");
    reveal_strlit("print");
    let p = "/print"@;
    assert(p =~= seq!['/'] + "print"@);
    assert(p.skip(1) =~= "print"@);
    assert(text::trim_start(p) == p && text::trim_end(p) == p);
    assert("print"@[4] == 't');
    assert(text::trim_start("print"@) == "print"@ && text::trim_end("print"@) == "print"@);
}

/// A word behind a slash that no command begins with is reported as unknown.
pub proof fn law_unknown_commands(w: Seq<char>)
    requires
        text::one_word(w),
        !is_head(w),
    ensures
        command_of(seq!['/'] + w) == CommandView::Other(w),
{
    lemma_bare(w);
}

/// White space before and behind a line does not matter.
pub proof fn law_outer_blanks_do_not_matter(a: Seq<char>, line: Seq<char>, b: Seq<char>)
    requires
        forall|i: int| 0 <= i < a.len() ==> text::is_space(#[trigger] a[i]),
        forall|i: int| 0 <= i < b.len() ==> text::is_space(#[trigger] b[i]),
    ensures
        command_of(a + line + b) == command_of(line),
{
    text::law_outer_white_space_is_trimmed(a, line, b);
}

/// Whether a word is one that a command begins with.
pub open spec fn is_head(w: Seq<char>) -> bool {
    w == "event"@ || w == "heat"@ || w == "race"@ || w == "dq"@ || w == "lineup"@ || w == "slot"@
        || w == "slots"@ || w == "races"@ || w == "lanes"@ || w == "status"@ || w == "help"@ || w
        == "?"@ || w == "quit"@ || w == "exit"@ || w == "print"@
}

/// A command with one more word at its end.
proof fn lemma_line_grows(c: Seq<char>, ws: Seq<Seq<char>>, w: Seq<char>)
    requires
        text::words(c) == ws,
        c.len() > 0,
        !text::is_space(c[0]),
        text::one_word(w),
    ensures
        text::words(c + seq![' '] + w) == ws.push(w),
        command_of(seq!['/'] + (c + seq![' '] + w)) == words_command(ws.push(w)),
{
    let d = c + seq![' '] + w;
    text::law_white_space_parts_words(c, ' ', w);
    text::lemma_one_word(w);
    assert(ws + seq![w] =~= ws.push(w));
    reveal_strlit("print");
    assert(!text::is_space(w[w.len() - 1]));
    assert(d[0] == c[0] && d.last() == w.last());
    assert(d[c.len() as int] == ' ');
    assert forall|i: int| 0 <= i < "print"@.len() implies "print"@[i] != ' ' by {}
    lemma_slash_line(d);
}

proof fn lemma_lineup_subs()
    ensures
        text::one_word("show"@) && "show"@.len() == 4 && "show"@[0] == 's',
        text::one_word("preset"@) && "preset"@.len() == 6 && "preset"@[0] == 'p',
        text::one_word("add"@) && "add"@.len() == 3 && "add"@[0] == 'a',
        text::one_word("remove"@) && "remove"@.len() == 6 && "remove"@[0] == 'r',
        text::one_word("rm"@) && "rm"@.len() == 2 && "rm"@[0] == 'r',
        text::one_word("del"@) && "del"@.len() == 3 && "del"@[0] == 'd',
        text::one_word("delete"@) && "delete"@.len() == 6 && "delete"@[0] == 'd',
        text::one_word("clear"@) && "clear"@.len() == 5 && "clear"@[0] == 'c',
{
    reveal_strlit("show");
    reveal_strlit("preset");
    reveal_strlit("add");
    reveal_strlit("remove");
    reveal_strlit("rm");
    reveal_strlit("del");
    reveal_strlit("delete");
    reveal_strlit("clear");
}

proof fn lemma_slot_subs()
    ensures
        text::one_word("list"@) && "list"@.len() == 4 && "list"@[0] == 'l' && "list"@[1] == 'i',
        text::one_word("show"@) && "show"@.len() == 4 && "show"@[0] == 's' && "show"@[1] == 'h',
        text::one_word("save"@) && "save"@.len() == 4 && "save"@[0] == 's' && "save"@[1] == 'a',
        text::one_word("rename"@) && "rename"@.len() == 6 && "rename"@[0] == 'r',
        text::one_word("use"@) && "use"@.len() == 3 && "use"@[0] == 'u',
        text::one_word("select"@) && "select"@.len() == 6 && "select"@[0] == 's',
        text::one_word("load"@) && "load"@.len() == 4 && "load"@[0] == 'l' && "load"@[1] == 'o',
{
    reveal_strlit("list");
    reveal_strlit("show");
    reveal_strlit("save");
    reveal_strlit("rename");
    reveal_strlit("use");
    reveal_strlit("select");
    reveal_strlit("load");
}

proof fn lemma_lineup_line(sub: Seq<char>)
    requires
        text::one_word(sub),
    ensures
        text::words("lineup"@ + seq![' '] + sub) == seq!["lineup"@, sub],
        command_of(seq!['/'] + ("lineup"@ + seq![' '] + sub)) == lineup_command(
            seq!["lineup"@, sub],
        ),
{
    lemma_heads();
    lemma_two_words("lineup"@, sub);
    lemma_headed("lineup"@, sub);
}

proof fn lemma_add_words(d: Seq<char>, g: Seq<char>, c: Seq<char>, y: Seq<char>)
    requires
        text::one_word(d),
        text::one_word(g),
        text::one_word(c),
        text::one_word(y),
    ensures
        command_of("/lineup add "@ + d + " "@ + g + " "@ + c) == CommandView::LineupAdd(
            event_to_add(seq!["lineup"@, "add"@, d, g, c]),
        ),
        command_of("/lineup add "@ + d + " "@ + g + " "@ + c + " "@ + y) == CommandView::LineupAdd(
            event_to_add(seq!["lineup"@, "add"@, d, g, c, y]),
        ),
        command_of("/lineup add "@ + d + " "@ + g) == CommandView::LineupAdd(None),
        command_of("/lineup add "@ + d) == CommandView::LineupAdd(None),
{
    lemma_heads();
    lemma_lineup_subs();
    reveal_strlit(" ");
    assert(" "@ =~= seq![' ']);
    let l1 = "lineup"@ + seq![' '] + "add"@;
    let w1 = seq!["lineup"@, "add"@];
    lemma_lineup_line("add"@);
    assert(l1[0] == "lineup"@[0]);
    assert("/lineup add "@ =~= seq!['/'] + l1 + seq![' ']) by {
        reveal_strlit("/lineup add ");
        reveal_strlit("lineup");
        reveal_strlit("add");
    }
    let l2 = l1 + seq![' '] + d;
    let w2 = seq!["lineup"@, "add"@, d];
    lemma_line_grows(l1, w1, d);
    assert(w1.push(d) =~= w2);
    assert(l2[0] == l1[0]);
    assert("/lineup add "@ + d =~= seq!['/'] + l2);
    let l3 = l2 + seq![' '] + g;
    let w3 = seq!["lineup"@, "add"@, d, g];
    lemma_line_grows(l2, w2, g);
    assert(w2.push(g) =~= w3);
    assert(l3[0] == l1[0]);
    assert("/lineup add "@ + d + " "@ + g =~= seq!['/'] + l3);
    let l4 = l3 + seq![' '] + c;
    let w4 = seq!["lineup"@, "add"@, d, g, c];
    lemma_line_grows(l3, w3, c);
    assert(w3.push(c) =~= w4);
    assert(l4[0] == l1[0]);
    assert("/lineup add "@ + d + " "@ + g + " "@ + c =~= seq!['/'] + l4);
    let l5 = l4 + seq![' '] + y;
    let w5 = seq!["lineup"@, "add"@, d, g, c, y];
    lemma_line_grows(l4, w4, y);
    assert(w4.push(y) =~= w5);
    assert("/lineup add "@ + d + " "@ + g + " "@ + c + " "@ + y =~= seq!['/'] + l5);
}

/// `/lineup add` with a distance, a gender and a stroke adds the event with
/// those and a split every 50 yards; with a number behind them, a split every so
/// many yards.
pub proof fn law_lineup_add(
    distance: u16,
    g: Seq<char>,
    gender: Gender,
    c: Seq<char>,
    stroke: Stroke,
    split_yards: u16,
)
    requires
        text::one_word(g),
        event::gender_of(g) == Some(gender),
        text::one_word(c),
        event::stroke_of(c) == Some(stroke),
    ensures
        command_of("/lineup add "@ + text::dec(distance as nat) + " "@ + g + " "@ + c)
            == CommandView::LineupAdd(
            Some(EventDef { distance, gender, stroke, split_yards: 50 }),
        ),
        command_of(
            "/lineup add "@ + text::dec(distance as nat) + " "@ + g + " "@ + c + " "@ + text::dec(
                split_yards as nat,
            ),
        ) == CommandView::LineupAdd(Some(EventDef { distance, gender, stroke, split_yards })),
{
    lemma_dec_word(distance as nat);
    lemma_dec_word(split_yards as nat);
    lemma_add_words(text::dec(distance as nat), g, c, text::dec(split_yards as nat));
    text::law_number_reads_dec(distance as nat, 65_535);
    text::law_number_reads_dec(split_yards as nat, 65_535);
}

/// `/lineup add` adds nothing where the distance is no number up to 65535, or
/// the gender or the stroke is no word for one, or one of the three is missing.
/// A fourth word that is no such number leaves the split at 50 yards.
pub proof fn law_lineup_add_needs_its_arguments(
    d: Seq<char>,
    g: Seq<char>,
    c: Seq<char>,
    y: Seq<char>,
)
    requires
        text::one_word(d),
        text::one_word(g),
        text::one_word(c),
        text::one_word(y),
    ensures
        text::number(d, 65_535) is None || event::gender_of(g) is None || event::stroke_of(c) is None
            ==> command_of("/lineup add "@ + d + " "@ + g + " "@ + c) == CommandView::LineupAdd(
            None,
        ),
        text::number(y, 65_535) is None ==> command_of(
            "/lineup add "@ + d + " "@ + g + " "@ + c + " "@ + y,
        ) == command_of("/lineup add "@ + d + " "@ + g + " "@ + c),
        command_of("/lineup add "@ + d + " "@ + g) == CommandView::LineupAdd(None),
        command_of("/lineup add "@ + d) == CommandView::LineupAdd(None),
{
    lemma_add_words(d, g, c, y);
    let w4 = seq!["lineup"@, "add"@, d, g, c];
    let w5 = seq!["lineup"@, "add"@, d, g, c, y];
    assert(w4[2] == w5[2] && w4[3] == w5[3] && w4[4] == w5[4]);
    assert(arg_u16(w5, 5) is None || text::number(y, 65_535) is Some);
}

/// `/lineup preset` with one of its four names loads that preset, for the gender
/// behind the name, or for mixed without one.
pub proof fn law_lineup_preset(w: Seq<char>, g: Seq<char>)
    requires
        text::one_word(w),
        text::one_word(g),
    ensures
        ({
            let preset = if w == "hs"@ {
                Some(Preset::HighSchool)
            } else if w == "ncaa13"@ {
                Some(Preset::Ncaa13)
            } else if w == "ncaa15"@ {
                Some(Preset::Ncaa15)
            } else if w == "ncaa16"@ {
                Some(Preset::Ncaa16)
            } else {
                None
            };
            &&& command_of("/lineup preset "@ + w) == CommandView::LineupPreset(
                preset,
                Gender::Mixed,
            )
            &&& command_of("/lineup preset "@ + w + " "@ + g) == CommandView::LineupPreset(
                preset,
                match event::gender_of(g) {
                    Some(gender) => gender,
                    None => Gender::Mixed,
                },
            )
        }),
{
    lemma_heads();
    lemma_lineup_subs();
    reveal_strlit(" ");
    assert(" "@ =~= seq![' ']);
    let l1 = "lineup"@ + seq![' '] + "preset"@;
    let w1 = seq!["lineup"@, "preset"@];
    lemma_lineup_line("preset"@);
    assert(l1[0] == "lineup"@[0]);
    assert("/lineup preset "@ =~= seq!['/'] + l1 + seq![' ']) by {
        reveal_strlit("/lineup preset ");
        reveal_strlit("lineup");
        reveal_strlit("preset");
    }
    let l2 = l1 + seq![' '] + w;
    let w2 = seq!["lineup"@, "preset"@, w];
    lemma_line_grows(l1, w1, w);
    assert(w1.push(w) =~= w2);
    assert(l2[0] == l1[0]);
    assert("/lineup preset "@ + w =~= seq!['/'] + l2);
    let l3 = l2 + seq![' '] + g;
    let w3 = seq!["lineup"@, "preset"@, w, g];
    lemma_line_grows(l2, w2, g);
    assert(w2.push(g) =~= w3);
    assert("/lineup preset "@ + w + " "@ + g =~= seq!['/'] + l3);
}

/// `/lineup remove`, or one of its short forms, with a number removes the event
/// with that number; `show` and `clear` take nothing, and any other word is
/// unknown.
pub proof fn law_lineup_edits(n: usize, w: Seq<char>)
    requires
        text::one_word(w),
        w != "show"@ && w != "preset"@ && w != "add"@ && w != "remove"@ && w != "rm"@ && w != "del"@
            && w != "delete"@ && w != "clear"@,
    ensures
        command_of("/lineup remove "@ + text::dec(n as nat)) == CommandView::LineupRemove(Some(n)),
        command_of("/lineup rm "@ + text::dec(n as nat)) == CommandView::LineupRemove(Some(n)),
        command_of("/lineup del "@ + text::dec(n as nat)) == CommandView::LineupRemove(Some(n)),
        command_of("/lineup delete "@ + text::dec(n as nat)) == CommandView::LineupRemove(Some(n)),
        command_of("/lineup show"@) == CommandView::LineupShow,
        command_of("/lineup clear"@) == CommandView::LineupClear,
        command_of("/lineup "@ + w) == CommandView::LineupOther(w),
{
    lemma_heads();
    lemma_lineup_subs();
    lemma_dec_word(n as nat);
    text::law_number_reads_dec(n as nat, usize::MAX as nat);
    lemma_remove_line("remove"@, n);
    lemma_remove_line("rm"@, n);
    lemma_remove_line("del"@, n);
    lemma_remove_line("delete"@, n);
    lemma_lineup_line("show"@);
    lemma_lineup_line("clear"@);
    lemma_lineup_line(w);
    lemma_lineup_literals();
    assert("/lineup remove "@ + text::dec(n as nat) =~= seq!['/'] + ("lineup"@ + seq![' ']
        + "remove"@ + seq![' '] + text::dec(n as nat)));
    assert("/lineup rm "@ + text::dec(n as nat) =~= seq!['/'] + ("lineup"@ + seq![' '] + "rm"@
        + seq![' '] + text::dec(n as nat)));
    assert("/lineup del "@ + text::dec(n as nat) =~= seq!['/'] + ("lineup"@ + seq![' '] + "del"@
        + seq![' '] + text::dec(n as nat)));
    assert("/lineup delete "@ + text::dec(n as nat) =~= seq!['/'] + ("lineup"@ + seq![' ']
        + "delete"@ + seq![' '] + text::dec(n as nat)));
    assert("/lineup "@ + w =~= seq!['/'] + ("lineup"@ + seq![' '] + w));
}

proof fn lemma_remove_line(sub: Seq<char>, n: usize)
    requires
        sub == "remove"@ || sub == "rm"@ || sub == "del"@ || sub == "delete"@,
    ensures
        command_of(seq!['/'] + ("lineup"@ + seq![' '] + sub + seq![' '] + text::dec(n as nat)))
            == CommandView::LineupRemove(Some(n)),
{
    lemma_heads();
    lemma_lineup_subs();
    lemma_dec_word(n as nat);
    text::law_number_reads_dec(n as nat, usize::MAX as nat);
    lemma_headed_twice("lineup"@, sub, text::dec(n as nat));
}

proof fn lemma_lineup_literals()
    ensures
        "/lineup remove "@ == seq!['/'] + ("lineup"@ + seq![' '] + "remove"@ + seq![' ']),
        "/lineup rm "@ == seq!['/'] + ("lineup"@ + seq![' '] + "rm"@ + seq![' ']),
        "/lineup del "@ == seq!['/'] + ("lineup"@ + seq![' '] + "del"@ + seq![' ']),
        "/lineup delete "@ == seq!['/'] + ("lineup"@ + seq![' '] + "delete"@ + seq![' ']),
        "/lineup show"@ == seq!['/'] + ("lineup"@ + seq![' '] + "show"@),
        "/lineup clear"@ == seq!['/'] + ("lineup"@ + seq![' '] + "clear"@),
        "/lineup "@ == seq!['/'] + ("lineup"@ + seq![' ']),
{
    reveal_strlit("lineup");
    reveal_strlit("remove");
    reveal_strlit("rm");
    reveal_strlit("del");
    reveal_strlit("delete");
    reveal_strlit("show");
    reveal_strlit("clear");
    reveal_strlit("/lineup remove ");
    reveal_strlit("/lineup rm ");
    reveal_strlit("/lineup del ");
    reveal_strlit("/lineup delete ");
    reveal_strlit("/lineup show");
    reveal_strlit("/lineup clear");
    reveal_strlit("/lineup ");
    assert("/lineup remove "@ =~= seq!['/'] + ("lineup"@ + seq![' '] + "remove"@ + seq![' ']));
    assert("/lineup rm "@ =~= seq!['/'] + ("lineup"@ + seq![' '] + "rm"@ + seq![' ']));
    assert("/lineup del "@ =~= seq!['/'] + ("lineup"@ + seq![' '] + "del"@ + seq![' ']));
    assert("/lineup delete "@ =~= seq!['/'] + ("lineup"@ + seq![' '] + "delete"@ + seq![' ']));
    assert("/lineup show"@ =~= seq!['/'] + ("lineup"@ + seq![' '] + "show"@));
    assert("/lineup clear"@ =~= seq!['/'] + ("lineup"@ + seq![' '] + "clear"@));
    assert("/lineup "@ =~= seq!['/'] + ("lineup"@ + seq![' ']));
}

proof fn lemma_slot_line(sub: Seq<char>, w: Seq<char>)
    requires
        text::one_word(sub),
        text::one_word(w),
    ensures
        command_of(seq!['/'] + ("slot"@ + seq![' '] + sub)) == slot_command(seq!["slot"@, sub]),
        command_of(seq!['/'] + ("slot"@ + seq![' '] + sub + seq![' '] + w)) == slot_command(
            seq!["slot"@, sub, w],
        ),
{
    lemma_heads();
    lemma_headed("slot"@, sub);
    lemma_headed_twice("slot"@, sub, w);
}

proof fn lemma_slot_literals()
    ensures
        "/slot use "@ == seq!['/'] + ("slot"@ + seq![' '] + "use"@ + seq![' ']),
        "/slot select "@ == seq!['/'] + ("slot"@ + seq![' '] + "select"@ + seq![' ']),
        "/slot load "@ == seq!['/'] + ("slot"@ + seq![' '] + "load"@ + seq![' ']),
        "/slot show "@ == seq!['/'] + ("slot"@ + seq![' '] + "show"@ + seq![' ']),
        "/slot show"@ == seq!['/'] + ("slot"@ + seq![' '] + "show"@),
        "/slot save"@ == seq!['/'] + ("slot"@ + seq![' '] + "save"@),
        "/slot list"@ == seq!['/'] + ("slot"@ + seq![' '] + "list"@),
        "/slot rename"@ == seq!['/'] + ("slot"@ + seq![' '] + "rename"@),
        "/slot rename "@ == seq!['/'] + ("slot"@ + seq![' '] + "rename"@ + seq![' ']),
        "/slot "@ == seq!['/'] + ("slot"@ + seq![' ']),
{
    reveal_strlit("slot");
    reveal_strlit("use");
    reveal_strlit("select");
    reveal_strlit("load");
    reveal_strlit("show");
    reveal_strlit("save");
    reveal_strlit("list");
    reveal_strlit("rename");
    reveal_strlit("/slot use ");
    reveal_strlit("/slot select ");
    reveal_strlit("/slot load ");
    reveal_strlit("/slot show ");
    reveal_strlit("/slot show");
    reveal_strlit("/slot save");
    reveal_strlit("/slot list");
    reveal_strlit("/slot rename");
    reveal_strlit("/slot rename ");
    reveal_strlit("/slot ");
    assert("/slot use "@ =~= seq!['/'] + ("slot"@ + seq![' '] + "use"@ + seq![' ']));
    assert("/slot select "@ =~= seq!['/'] + ("slot"@ + seq![' '] + "select"@ + seq![' ']));
    assert("/slot load "@ =~= seq!['/'] + ("slot"@ + seq![' '] + "load"@ + seq![' ']));
    assert("/slot show "@ =~= seq!['/'] + ("slot"@ + seq![' '] + "show"@ + seq![' ']));
    assert("/slot show"@ =~= seq!['/'] + ("slot"@ + seq![' '] + "show"@));
    assert("/slot save"@ =~= seq!['/'] + ("slot"@ + seq![' '] + "save"@));
    assert("/slot list"@ =~= seq!['/'] + ("slot"@ + seq![' '] + "list"@));
    assert("/slot rename"@ =~= seq!['/'] + ("slot"@ + seq![' '] + "rename"@));
    assert("/slot rename "@ =~= seq!['/'] + ("slot"@ + seq![' '] + "rename"@ + seq![' ']));
    assert("/slot "@ =~= seq!['/'] + ("slot"@ + seq![' ']));
}

/// `/slot` with a number shows that slot, with `use`, `select` or `load` in
/// between it loads it, and `show` shows it; `save` and `list` take nothing.
pub proof fn law_slot_commands(n: u8)
    ensures
        command_of("/slot "@ + text::dec(n as nat)) == CommandView::SlotNumber(n),
        command_of("/slot use "@ + text::dec(n as nat)) == CommandView::SlotUse(Some(n)),
        command_of("/slot select "@ + text::dec(n as nat)) == CommandView::SlotUse(Some(n)),
        command_of("/slot load "@ + text::dec(n as nat)) == CommandView::SlotUse(Some(n)),
        command_of("/slot show "@ + text::dec(n as nat)) == CommandView::SlotShow(Some(n)),
        command_of("/slot show"@) == CommandView::SlotShow(None),
        command_of("/slot save"@) == CommandView::SlotSave,
        command_of("/slot list"@) == CommandView::SlotList,
        command_of("/slot rename"@) == CommandView::SlotRename(None),
{
    lemma_slot_subs();
    lemma_slot_literals();
    lemma_slot_numbered("/slot use "@, "use"@, n);
    lemma_slot_numbered("/slot select "@, "select"@, n);
    lemma_slot_numbered("/slot load "@, "load"@, n);
    lemma_slot_numbered("/slot show "@, "show"@, n);
    lemma_slot_bare();
    lemma_slot_word(n);
    assert("/slot "@ + text::dec(n as nat) =~= seq!['/'] + ("slot"@ + seq![' '] + text::dec(
        n as nat,
    )));
}

proof fn lemma_slot_numbered(head: Seq<char>, sub: Seq<char>, n: u8)
    requires
        sub == "use"@ || sub == "select"@ || sub == "load"@ || sub == "show"@,
        head == seq!['/'] + ("slot"@ + seq![' '] + sub + seq![' ']),
    ensures
        command_of(head + text::dec(n as nat)) == (if sub == "show"@ {
            CommandView::SlotShow(Some(n))
        } else {
            CommandView::SlotUse(Some(n))
        }),
{
    let w = text::dec(n as nat);
    lemma_slot_subs();
    lemma_dec_word(n as nat);
    text::law_number_reads_dec(n as nat, 255);
    lemma_slot_line(sub, w);
    assert(head + w =~= seq!['/'] + ("slot"@ + seq![' '] + sub + seq![' '] + w));
}

proof fn lemma_slot_word(n: u8)
    ensures
        command_of(seq!['/'] + ("slot"@ + seq![' '] + text::dec(n as nat)))
            == CommandView::SlotNumber(n),
{
    let w = text::dec(n as nat);
    lemma_slot_subs();
    lemma_dec_word(n as nat);
    text::law_number_reads_dec(n as nat, 255);
    text::lemma_dec_digits(n as nat);
    assert(text::is_digit(w[0]));
    lemma_slot_line(w, w);
}

proof fn lemma_slot_bare()
    ensures
        command_of(seq!['/'] + ("slot"@ + seq![' '] + "show"@)) == CommandView::SlotShow(None),
        command_of(seq!['/'] + ("slot"@ + seq![' '] + "save"@)) == CommandView::SlotSave,
        command_of(seq!['/'] + ("slot"@ + seq![' '] + "list"@)) == CommandView::SlotList,
        command_of(seq!['/'] + ("slot"@ + seq![' '] + "rename"@)) == CommandView::SlotRename(None),
{
    lemma_slot_subs();
    lemma_slot_line("show"@, "show"@);
    lemma_slot_line("save"@, "save"@);
    lemma_slot_line("list"@, "list"@);
    lemma_slot_line("rename"@, "rename"@);
}

/// `/slot rename` takes all the words behind it, with one blank between two of
/// them.
pub proof fn law_slot_rename_takes_all_words(name: Seq<char>, more: Seq<char>)
    requires
        text::one_word(name),
        more.len() > 0,
        !text::is_space(more.last()),
    ensures
        command_of("/slot rename "@ + name) == CommandView::SlotRename(Some(name)),
        command_of("/slot rename "@ + name + " "@ + more) == CommandView::SlotRename(
            Some(text::joined(seq![name] + text::words(more))),
        ),
{
    lemma_heads();
    lemma_slot_subs();
    lemma_slot_literals();
    reveal_strlit(" ");
    assert(" "@ =~= seq![' ']);
    lemma_slot_line("rename"@, name);
    assert("/slot rename "@ + name =~= seq!['/'] + ("slot"@ + seq![' '] + "rename"@ + seq![' ']
        + name));
    let ws = seq!["slot"@, "rename"@, name];
    assert(ws.skip(2) =~= seq![name]);
    let c = "slot"@ + seq![' '] + "rename"@ + seq![' '] + name;
    lemma_three_words("slot"@, "rename"@, name);
    text::law_white_space_parts_words(c, ' ', more);
    let d = c + seq![' '] + more;
    let all = ws + text::words(more);
    reveal_strlit("print");
    assert(d[0] == "slot"@[0] && d.last() == more.last());
    assert(d.len() > 5);
    lemma_slash_line(d);
    assert("/slot rename "@ + name + " "@ + more =~= seq!['/'] + d);
    assert(all[0] == "slot"@ && all[1] == "rename"@);
    assert(all.skip(2) =~= seq![name] + text::words(more));
}

/// `/lanes` takes two numbers around two dots, the first not above the second,
/// both from 1 to 10.
pub proof fn law_lanes_command(lo: u8, hi: u8)
    ensures
        command_of("/lanes "@ + (text::dec(lo as nat) + ".."@ + text::dec(hi as nat)))
            == CommandView::Lanes(
            if 1 <= lo <= hi <= 10 {
                Some((lo, hi))
            } else {
                None
            },
        ),
{
    let a = text::dec(lo as nat);
    let b = text::dec(hi as nat);
    let s = a + ".."@ + b;
    reveal_strlit("..");
    assert(".."@ =~= seq!['.', '.']);
    text::lemma_dec_digits(lo as nat);
    text::lemma_dec_digits(hi as nat);
    lemma_first_dots(a, b);
    assert(s.take(a.len() as int) =~= a);
    assert(s.skip(a.len() as int + 2) =~= b);
    text::lemma_one_word(a);
    text::lemma_one_word(b);
    text::law_number_reads_dec(lo as nat, 255);
    text::law_number_reads_dec(hi as nat, 255);
    assert(text::one_word(s)) by {
        lemma_dec_word(lo as nat);
        lemma_dec_word(hi as nat);
        assert forall|i: int| 0 <= i < s.len() implies !text::is_space(#[trigger] s[i]) by {
            if i < a.len() {
                assert(s[i] == a[i]);
            } else if i >= a.len() + 2 {
                assert(s[i] == b[i - a.len() - 2]);
            }
        }
    }
    law_argument_commands(s);
}

/// A lane spread without two dots in a row is none.
pub proof fn law_spread_needs_dots(s: Seq<char>)
    requires
        forall|i: int| 0 <= i < s.len() - 1 ==> !(#[trigger] s[i] == '.' && s[i + 1] == '.'),
    ensures
        spread_of(s) is None,
{
    lemma_no_dots(s);
}

proof fn lemma_no_dots(s: Seq<char>)
    requires
        forall|i: int| 0 <= i < s.len() - 1 ==> !(#[trigger] s[i] == '.' && s[i + 1] == '.'),
    ensures
        first_dots(s) is None,
    decreases s.len(),
{
    if s.len() >= 2 {
        assert(!(s[0] == '.' && s[1] == '.'));
        assert forall|i: int| 0 <= i < s.skip(1).len() - 1 implies !(#[trigger] s.skip(1)[i] == '.'
            && s.skip(1)[i + 1] == '.') by {
            assert(!(s[i + 1] == '.' && s[(i + 1) + 1] == '.'));
        }
        lemma_no_dots(s.skip(1));
    }
}

/// A line that does not begin with a slash touches one lane for each of its
/// words, in order: the lane with that number, where the word is a number up to
/// 255, and none otherwise.
pub proof fn law_touch_line(line: Seq<char>, i: int)
    requires
        line.len() > 0,
        line[0] != '/',
        !text::is_space(line[0]),
        !text::is_space(line.last()),
    ensures
        command_of(line) matches CommandView::Touches(inputs) && inputs.len() == text::words(
            line,
        ).len() && (0 <= i < inputs.len() ==> match text::number(text::words(line)[i], 255) {
            Some(n) => inputs[i] == InputView::Lane(n as u8),
            None => inputs[i] == InputView::Other(text::words(line)[i]),
        }),
{
    assert(text::trim_start(line) == line);
    assert(text::trim_end(line) == line);
}

/// Several lane numbers in a line touch these lanes in the order in which they
/// are written.
pub proof fn law_batch_is_read_in_order(a: u8, b: u8, c: u8)
    ensures
        command_of(
            text::dec(a as nat) + " "@ + text::dec(b as nat) + " "@ + text::dec(c as nat),
        ) == CommandView::Touches(
            seq![InputView::Lane(a), InputView::Lane(b), InputView::Lane(c)],
        ),
{
    let x = text::dec(a as nat);
    let y = text::dec(b as nat);
    let z = text::dec(c as nat);
    let line = x + " "@ + y + " "@ + z;
    reveal_strlit(" ");
    assert(" "@ =~= seq![' ']);
    lemma_dec_word(a as nat);
    lemma_dec_word(b as nat);
    lemma_dec_word(c as nat);
    text::lemma_dec_digits(a as nat);
    assert(text::is_digit(x[0]));
    lemma_three_words(x, y, z);
    assert(line =~= x + seq![' '] + y + seq![' '] + z);
    assert(line[0] == x[0]);
    assert(line.last() == z[z.len() - 1]);
    text::law_number_reads_dec(a as nat, 255);
    text::law_number_reads_dec(b as nat, 255);
    text::law_number_reads_dec(c as nat, 255);
    assert(text::trim_start(line) == line);
    assert(text::trim_end(line) == line);
    assert(seq![x, y, z].map_values(|w: Seq<char>| input_of(w)) =~= seq![
        InputView::Lane(a),
        InputView::Lane(b),
        InputView::Lane(c),
    ]);
}

/// Only the words of a command count, not the white space between them: two
/// commands of the same words are the same command.
pub proof fn law_only_the_words_count(c: Seq<char>, d: Seq<char>)
    requires
        c.len() > 0 && !text::is_space(c[0]) && !text::is_space(c.last()) && c != "print"@,
        d.len() > 0 && !text::is_space(d[0]) && !text::is_space(d.last()) && d != "print"@,
        text::words(c) == text::words(d),
    ensures
        command_of(seq!['/'] + c) == command_of(seq!['/'] + d),
{
    lemma_slash_line(c);
    lemma_slash_line(d);
}

/// Words beyond those that a command takes do not matter.
pub proof fn law_further_words_do_not_matter(w: Seq<char>, more: Seq<char>)
    requires
        text::one_word(w),
        more.len() > 0,
        !text::is_space(more.last()),
    ensures
        command_of("/event "@ + w + " "@ + more) == command_of("/event "@ + w),
        command_of("/race "@ + w + " "@ + more) == command_of("/race "@ + w),
        command_of("/heat "@ + w + " "@ + more) == command_of("/heat "@ + w),
        command_of("/dq "@ + w + " "@ + more) == command_of("/dq "@ + w),
        command_of("/lanes "@ + w + " "@ + more) == command_of("/lanes "@ + w),
{
    lemma_number_literals();
    lemma_further_words("/event "@, "event"@, w, more);
    lemma_further_words("/race "@, "race"@, w, more);
    lemma_further_words("/heat "@, "heat"@, w, more);
    lemma_further_words("/dq "@, "dq"@, w, more);
    lemma_further_words("/lanes "@, "lanes"@, w, more);
}

proof fn lemma_number_literals()
    ensures
        "/event "@ == seq!['/'] + ("event"@ + seq![' ']),
        "/race "@ == seq!['/'] + ("race"@ + seq![' ']),
        "/heat "@ == seq!['/'] + ("heat"@ + seq![' ']),
        "/dq "@ == seq!['/'] + ("dq"@ + seq![' ']),
        "/lanes "@ == seq!['/'] + ("lanes"@ + seq![' ']),
{
    reveal_strlit("/event ");
    reveal_strlit("/race ");
    reveal_strlit("/heat ");
    reveal_strlit("/dq ");
    reveal_strlit("/lanes ");
    reveal_strlit("event");
    reveal_strlit("race");
    reveal_strlit("heat");
    reveal_strlit("dq");
    reveal_strlit("lanes");
    assert("/event "@ =~= seq!['/'] + ("event"@ + seq![' ']));
    assert("/race "@ =~= seq!['/'] + ("race"@ + seq![' ']));
    assert("/heat "@ =~= seq!['/'] + ("heat"@ + seq![' ']));
    assert("/dq "@ =~= seq!['/'] + ("dq"@ + seq![' ']));
    assert("/lanes "@ =~= seq!['/'] + ("lanes"@ + seq![' ']));
}

proof fn lemma_further_words(line: Seq<char>, head: Seq<char>, w: Seq<char>, more: Seq<char>)
    requires
        head == "event"@ || head == "race"@ || head == "heat"@ || head == "dq"@ || head
            == "lanes"@,
        line == seq!['/'] + (head + seq![' ']),
        text::one_word(w),
        more.len() > 0,
        !text::is_space(more.last()),
    ensures
        command_of(line + w + " "@ + more) == command_of(line + w),
{
    lemma_heads();
    reveal_strlit(" ");
    assert(line + w =~= seq!['/'] + (head + seq![' '] + w));
    assert(line + w + " "@ + more =~= seq!['/'] + (head + seq![' '] + w + seq![' '] + more));
    lemma_headed(head, w);
    lemma_more_words(head, w, more);
    let two = seq![head, w];
    assert(two[0] == head && two[1] == w);
}

proof fn lemma_more_words(head: Seq<char>, w: Seq<char>, more: Seq<char>)
    requires
        text::one_word(head),
        text::one_word(w),
        more.len() > 0,
        !text::is_space(more.last()),
    ensures
        command_of(seq!['/'] + (head + seq![' '] + w + seq![' '] + more)) == words_command(
            seq![head, w] + text::words(more),
        ),
        (seq![head, w] + text::words(more))[0] == head,
        (seq![head, w] + text::words(more))[1] == w,
        (seq![head, w] + text::words(more)).len() >= 2,
{
    let c = head + seq![' '] + w;
    let d = c + seq![' '] + more;
    lemma_two_words(head, w);
    text::law_white_space_parts_words(c, ' ', more);
    reveal_strlit("print");
    assert(!text::is_space(head[0]));
    assert(d[0] == head[0] && d.last() == more.last());
    assert(d[head.len() as int] == ' ');
    assert forall|i: int| 0 <= i < "print"@.len() implies "print"@[i] != ' ' by {}
    lemma_slash_line(d);
}

/// A word behind `/slot` that is neither one of its own nor a number up to 255
/// is unknown, and a word behind `/slot use` that is no such number is none.
pub proof fn law_other_slot_words(w: Seq<char>)
    requires
        text::one_word(w),
        text::number(w, 255) is None,
    ensures
        w != "list"@ && w != "show"@ && w != "save"@ && w != "rename"@ && w != "use"@ && w
            != "select"@ && w != "load"@ ==> command_of("/slot "@ + w) == CommandView::SlotOther(w),
        command_of("/slot use "@ + w) == CommandView::SlotUse(None),
{
    lemma_slot_subs();
    lemma_slot_literals();
    lemma_slot_line(w, w);
    lemma_slot_line("use"@, w);
    assert("/slot "@ + w =~= seq!['/'] + ("slot"@ + seq![' '] + w));
    assert("/slot use "@ + w =~= seq!['/'] + ("slot"@ + seq![' '] + "use"@ + seq![' '] + w));
}

/// White space around the two numbers of a lane spread does not matter.
pub proof fn law_spread_ignores_blanks(
    lo: u8,
    hi: u8,
    a: Seq<char>,
    b: Seq<char>,
    c: Seq<char>,
    d: Seq<char>,
)
    requires
        forall|i: int| 0 <= i < a.len() ==> text::is_space(#[trigger] a[i]),
        forall|i: int| 0 <= i < b.len() ==> text::is_space(#[trigger] b[i]),
        forall|i: int| 0 <= i < c.len() ==> text::is_space(#[trigger] c[i]),
        forall|i: int| 0 <= i < d.len() ==> text::is_space(#[trigger] d[i]),
    ensures
        spread_of((a + text::dec(lo as nat) + b) + ".."@ + (c + text::dec(hi as nat) + d)) == (
        if 1 <= lo <= hi <= 10 {
            Some((lo, hi))
        } else {
            None
        }),
{
    let x = a + text::dec(lo as nat) + b;
    let y = c + text::dec(hi as nat) + d;
    let s = x + ".."@ + y;
    reveal_strlit("..");
    assert(".."@ =~= seq!['.', '.']);
    text::lemma_dec_digits(lo as nat);
    text::lemma_dec_digits(hi as nat);
    assert forall|i: int| 0 <= i < x.len() implies #[trigger] x[i] != '.' by {
        let m = text::dec(lo as nat).len() as int;
        if i < a.len() {
            assert(x[i] == a[i]);
        } else if i < a.len() + m {
            assert(text::is_digit(text::dec(lo as nat)[i - a.len()]));
        } else {
            assert(x[i] == b[i - a.len() - m]);
        }
    }
    lemma_first_dots(x, y);
    assert(s.take(x.len() as int) =~= x);
    assert(s.skip(x.len() as int + 2) =~= y);
    text::law_outer_white_space_is_trimmed(a, text::dec(lo as nat), b);
    text::law_outer_white_space_is_trimmed(c, text::dec(hi as nat), d);
    lemma_dec_word(lo as nat);
    lemma_dec_word(hi as nat);
    text::lemma_one_word(text::dec(lo as nat));
    text::lemma_one_word(text::dec(hi as nat));
    text::law_number_reads_dec(lo as nat, 255);
    text::law_number_reads_dec(hi as nat, 255);
}

/// What a command holds is what its fields hold.
pub proof fn law_command_view(c: Command)
    ensures
        match c {
            Command::Start => c@ is Start,
            Command::Finalize => c@ is Finalize,
            Command::Event(n) => c@ == CommandView::Event(n),
            Command::Heat(n) => c@ == CommandView::Heat(n),
            Command::Race(n) => c@ == CommandView::Race(n),
            Command::Dq(n) => c@ == CommandView::Dq(n),
            Command::LineupShow => c@ is LineupShow,
            Command::LineupPreset(p, g) => c@ == CommandView::LineupPreset(p, g),
            Command::LineupAdd(e) => c@ == CommandView::LineupAdd(e),
            Command::LineupRemove(n) => c@ == CommandView::LineupRemove(n),
            Command::LineupClear => c@ is LineupClear,
            Command::LineupOther(w) => c@ == CommandView::LineupOther(w@),
            Command::SlotList => c@ is SlotList,
            Command::SlotShow(n) => c@ == CommandView::SlotShow(n),
            Command::SlotSave => c@ is SlotSave,
            Command::SlotRename(None) => c@ == CommandView::SlotRename(None),
            Command::SlotRename(Some(w)) => c@ == CommandView::SlotRename(Some(w@)),
            Command::SlotUse(n) => c@ == CommandView::SlotUse(n),
            Command::SlotNumber(n) => c@ == CommandView::SlotNumber(n),
            Command::SlotOther(w) => c@ == CommandView::SlotOther(w@),
            Command::Races => c@ is Races,
            Command::LanesShow => c@ is LanesShow,
            Command::Lanes(p) => c@ == CommandView::Lanes(p),
            Command::Status => c@ is Status,
            Command::Help => c@ is Help,
            Command::Quit => c@ is Quit,
            Command::Other(w) => c@ == CommandView::Other(w@),
            Command::Touches(v) => c@ matches CommandView::Touches(ins) && ins.len() == v@.len()
                && forall|i: int| 0 <= i < v@.len() ==> #[trigger] ins[i] == v@[i]@,
        },
{
}

} // verus!
