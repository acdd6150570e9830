//! Preset event lineups loaded by `/lineup preset <name>`.

use vstd::prelude::*;

use crate::event::{EventDef, Gender, Stroke};

verus! {

/// A swimming event with a split every 50 yards.
pub open spec fn swim(distance: u16, stroke: Stroke, gender: Gender) -> EventDef {
    EventDef { distance, gender, stroke, split_yards: 50 }
}

/// A diving event.
pub open spec fn dive(gender: Gender) -> EventDef {
    EventDef { distance: 0, gender, stroke: Stroke::Diving, split_yards: 0 }
}

fn mk(distance: u16, stroke: Stroke, gender: Gender) -> (r: EventDef)
    ensures
        r == swim(distance, stroke, gender),
{
    EventDef { distance, gender, stroke, split_yards: 50 }
}

fn diving(gender: Gender) -> (r: EventDef)
    ensures
        r == dive(gender),
{
    EventDef { distance: 0, gender, stroke: Stroke::Diving, split_yards: 0 }
}

/// The standard NFHS high-school dual-meet program.
pub open spec fn high_school_events(g: Gender) -> Seq<EventDef> {
    seq![
        swim(200, Stroke::MedleyRelay, g),
        swim(200, Stroke::Free, g),
        swim(200, Stroke::Im, g),
        swim(50, Stroke::Free, g),
        dive(g),
        swim(100, Stroke::Fly, g),
        swim(100, Stroke::Free, g),
        swim(500, Stroke::Free, g),
        swim(200, Stroke::FreestyleRelay, g),
        swim(100, Stroke::Back, g),
        swim(100, Stroke::Breast, g),
        swim(400, Stroke::FreestyleRelay, g),
    ]
}

/// Standard NFHS high-school dual-meet event order (12 events), all with the
/// given gender. Splits default to 50 yd.
pub fn high_school_lineup_gender(gender: Gender) -> (r: Vec<EventDef>)
    ensures
        r@ == high_school_events(gender),
        r@.len() == 12,
{
    vec![
        mk(200, Stroke::MedleyRelay, gender),
        mk(200, Stroke::Free, gender),
        mk(200, Stroke::Im, gender),
        mk(50, Stroke::Free, gender),
        diving(gender),
        mk(100, Stroke::Fly, gender),
        mk(100, Stroke::Free, gender),
        mk(500, Stroke::Free, gender),
        mk(200, Stroke::FreestyleRelay, gender),
        mk(100, Stroke::Back, gender),
        mk(100, Stroke::Breast, gender),
        mk(400, Stroke::FreestyleRelay, gender),
    ]
}

/// A program with every event but diving swum twice in a row, girls and then
/// boys; diving stays mixed and is held once.
pub open spec fn coed(program: Seq<EventDef>) -> Seq<EventDef>
    decreases program.len(),
{
    if program.len() == 0 {
        Seq::empty()
    } else {
        let e = program.last();
        let rest = coed(program.drop_last());
        if e.stroke == Stroke::Diving {
            rest.push(EventDef { gender: Gender::Mixed, ..e })
        } else {
            rest.push(EventDef { gender: Gender::Female, ..e }).push(
                EventDef { gender: Gender::Male, ..e },
            )
        }
    }
}

/// The standard NFHS program run girls-then-boys for every event.
pub open spec fn coed_high_school_events() -> Seq<EventDef> {
    seq![
        swim(200, Stroke::MedleyRelay, Gender::Female),
        swim(200, Stroke::MedleyRelay, Gender::Male),
        swim(200, Stroke::Free, Gender::Female),
        swim(200, Stroke::Free, Gender::Male),
        swim(200, Stroke::Im, Gender::Female),
        swim(200, Stroke::Im, Gender::Male),
        swim(50, Stroke::Free, Gender::Female),
        swim(50, Stroke::Free, Gender::Male),
        dive(Gender::Mixed),
        swim(100, Stroke::Fly, Gender::Female),
        swim(100, Stroke::Fly, Gender::Male),
        swim(100, Stroke::Free, Gender::Female),
        swim(100, Stroke::Free, Gender::Male),
        swim(500, Stroke::Free, Gender::Female),
        swim(500, Stroke::Free, Gender::Male),
        swim(200, Stroke::FreestyleRelay, Gender::Female),
        swim(200, Stroke::FreestyleRelay, Gender::Male),
        swim(100, Stroke::Back, Gender::Female),
        swim(100, Stroke::Back, Gender::Male),
        swim(100, Stroke::Breast, Gender::Female),
        swim(100, Stroke::Breast, Gender::Male),
        swim(400, Stroke::FreestyleRelay, Gender::Female),
        swim(400, Stroke::FreestyleRelay, Gender::Male),
    ]
}

/// Coed high-school dual-meet order: the standard 12-event NFHS program run
/// girls-then-boys for every event (diving stays mixed).
pub fn coed_high_school_lineup() -> (r: Vec<EventDef>)
    ensures
        r@ == coed_high_school_events(),
{
    vec![
        mk(200, Stroke::MedleyRelay, Gender::Female),
        mk(200, Stroke::MedleyRelay, Gender::Male),
        mk(200, Stroke::Free, Gender::Female),
        mk(200, Stroke::Free, Gender::Male),
        mk(200, Stroke::Im, Gender::Female),
        mk(200, Stroke::Im, Gender::Male),
        mk(50, Stroke::Free, Gender::Female),
        mk(50, Stroke::Free, Gender::Male),
        diving(Gender::Mixed),
        mk(100, Stroke::Fly, Gender::Female),
        mk(100, Stroke::Fly, Gender::Male),
        mk(100, Stroke::Free, Gender::Female),
        mk(100, Stroke::Free, Gender::Male),
        mk(500, Stroke::Free, Gender::Female),
        mk(500, Stroke::Free, Gender::Male),
        mk(200, Stroke::FreestyleRelay, Gender::Female),
        mk(200, Stroke::FreestyleRelay, Gender::Male),
        mk(100, Stroke::Back, Gender::Female),
        mk(100, Stroke::Back, Gender::Male),
        mk(100, Stroke::Breast, Gender::Female),
        mk(100, Stroke::Breast, Gender::Male),
        mk(400, Stroke::FreestyleRelay, Gender::Female),
        mk(400, Stroke::FreestyleRelay, Gender::Male),
    ]
}

/// The coed program is the single-gender high-school program, whatever its
/// gender, with each swimming event run for girls and then for boys and one
/// mixed diving event.
pub proof fn law_coed_is_high_school_twice(g: Gender)
    ensures
        coed_high_school_events() == coed(high_school_events(g)),
{
    let p = high_school_events(g);
    assert(p.take(12) =~= p);
    assert(p.take(0) =~= Seq::<EventDef>::empty());
    assert forall|k: int| 0 <= k < 12 implies #[trigger] p.take(k + 1).drop_last() == p.take(k)
        && p.take(k + 1).last() == p[k] by {
        assert(p.take(k + 1).drop_last() =~= p.take(k));
    }
    reveal_with_fuel(coed, 14);
    assert(coed_high_school_events() =~= coed(p));
}

/// The console's 13-event NCAA program.
pub open spec fn ncaa_13_events(g: Gender) -> Seq<EventDef> {
    seq![
        swim(200, Stroke::MedleyRelay, g),
        swim(1000, Stroke::Free, g),
        swim(200, Stroke::Free, g),
        swim(50, Stroke::Free, g),
        swim(200, Stroke::Im, g),
        dive(g),
        swim(100, Stroke::Fly, g),
        swim(100, Stroke::Free, g),
        swim(100, Stroke::Back, g),
        swim(500, Stroke::Free, g),
        dive(g),
        swim(100, Stroke::Breast, g),
        swim(200, Stroke::FreestyleRelay, g),
    ]
}

pub fn ncaa_13_event(gender: Gender) -> (r: Vec<EventDef>)
    ensures
        r@ == ncaa_13_events(gender),
        r@.len() == 13,
{
    vec![
        mk(200, Stroke::MedleyRelay, gender),
        mk(1000, Stroke::Free, gender),
        mk(200, Stroke::Free, gender),
        mk(50, Stroke::Free, gender),
        mk(200, Stroke::Im, gender),
        diving(gender),
        mk(100, Stroke::Fly, gender),
        mk(100, Stroke::Free, gender),
        mk(100, Stroke::Back, gender),
        mk(500, Stroke::Free, gender),
        diving(gender),
        mk(100, Stroke::Breast, gender),
        mk(200, Stroke::FreestyleRelay, gender),
    ]
}

/// The console's 15-event NCAA program.
pub open spec fn ncaa_15_events(g: Gender) -> Seq<EventDef> {
    seq![
        swim(100, Stroke::Back, g),
        swim(100, Stroke::Breast, g),
        swim(100, Stroke::Fly, g),
        swim(1000, Stroke::Free, g),
        swim(200, Stroke::Free, g),
        swim(50, Stroke::Free, g),
        swim(200, Stroke::MedleyRelay, g),
        dive(g),
        swim(200, Stroke::Fly, g),
        swim(100, Stroke::Free, g),
        swim(200, Stroke::Back, g),
        swim(500, Stroke::Free, g),
        dive(g),
        swim(200, Stroke::Breast, g),
        swim(200, Stroke::FreestyleRelay, g),
    ]
}

pub fn ncaa_15_event(gender: Gender) -> (r: Vec<EventDef>)
    ensures
        r@ == ncaa_15_events(gender),
        r@.len() == 15,
{
    vec![
        mk(100, Stroke::Back, gender),
        mk(100, Stroke::Breast, gender),
        mk(100, Stroke::Fly, gender),
        mk(1000, Stroke::Free, gender),
        mk(200, Stroke::Free, gender),
        mk(50, Stroke::Free, gender),
        mk(200, Stroke::MedleyRelay, gender),
        diving(gender),
        mk(200, Stroke::Fly, gender),
        mk(100, Stroke::Free, gender),
        mk(200, Stroke::Back, gender),
        mk(500, Stroke::Free, gender),
        diving(gender),
        mk(200, Stroke::Breast, gender),
        mk(200, Stroke::FreestyleRelay, gender),
    ]
}

/// The console's 16-event NCAA program.
pub open spec fn ncaa_16_events(g: Gender) -> Seq<EventDef> {
    seq![
        swim(200, Stroke::MedleyRelay, g),
        swim(1000, Stroke::Free, g),
        swim(200, Stroke::Free, g),
        swim(100, Stroke::Back, g),
        swim(100, Stroke::Breast, g),
        swim(200, Stroke::Fly, g),
        swim(50, Stroke::Free, g),
        dive(g),
        swim(100, Stroke::Free, g),
        swim(200, Stroke::Back, g),
        swim(200, Stroke::Breast, g),
        swim(500, Stroke::Free, g),
        swim(100, Stroke::Fly, g),
        dive(g),
        swim(200, Stroke::Im, g),
        swim(200, Stroke::FreestyleRelay, g),
    ]
}

pub fn ncaa_16_event(gender: Gender) -> (r: Vec<EventDef>)
    ensures
        r@ == ncaa_16_events(gender),
        r@.len() == 16,
{
    vec![
        mk(200, Stroke::MedleyRelay, gender),
        mk(1000, Stroke::Free, gender),
        mk(200, Stroke::Free, gender),
        mk(100, Stroke::Back, gender),
        mk(100, Stroke::Breast, gender),
        mk(200, Stroke::Fly, gender),
        mk(50, Stroke::Free, gender),
        diving(gender),
        mk(100, Stroke::Free, gender),
        mk(200, Stroke::Back, gender),
        mk(200, Stroke::Breast, gender),
        mk(500, Stroke::Free, gender),
        mk(100, Stroke::Fly, gender),
        diving(gender),
        mk(200, Stroke::Im, gender),
        mk(200, Stroke::FreestyleRelay, gender),
    ]
}

/// The high-school program: distances and strokes in order, all for the given gender;
/// a split every 50 yards, and none for diving.
pub proof fn law_high_school_program(g: Gender, i: int)
    requires
        0 <= i < 12,
    ensures
        ({
            let e = high_school_events(g)[i];
            let distances = seq![200int, 200, 200, 50, 0, 100, 100, 500, 200, 100, 100, 400];
            let strokes = seq![
                Stroke::MedleyRelay,
                Stroke::Free,
                Stroke::Im,
                Stroke::Free,
                Stroke::Diving,
                Stroke::Fly,
                Stroke::Free,
                Stroke::Free,
                Stroke::FreestyleRelay,
                Stroke::Back,
                Stroke::Breast,
                Stroke::FreestyleRelay,
            ];
            &&& high_school_events(g).len() == 12
            &&& e.gender == g
            &&& e.distance == distances[i]
            &&& e.stroke == strokes[i]
            &&& e.stroke == Stroke::Diving ==> e.split_yards == 0
            &&& e.stroke != Stroke::Diving ==> e.split_yards == 50
        }),
{
}

/// The college program of 13 events: distances and strokes in order, all for the given gender;
/// a split every 50 yards, and none for diving.
pub proof fn law_ncaa_13_program(g: Gender, i: int)
    requires
        0 <= i < 13,
    ensures
        ({
            let e = ncaa_13_events(g)[i];
            let distances = seq![200int, 1000, 200, 50, 200, 0, 100, 100, 100, 500, 0, 100, 200];
            let strokes = seq![
                Stroke::MedleyRelay,
                Stroke::Free,
                Stroke::Free,
                Stroke::Free,
                Stroke::Im,
                Stroke::Diving,
                Stroke::Fly,
                Stroke::Free,
                Stroke::Back,
                Stroke::Free,
                Stroke::Diving,
                Stroke::Breast,
                Stroke::FreestyleRelay,
            ];
            &&& ncaa_13_events(g).len() == 13
            &&& e.gender == g
            &&& e.distance == distances[i]
            &&& e.stroke == strokes[i]
            &&& e.stroke == Stroke::Diving ==> e.split_yards == 0
            &&& e.stroke != Stroke::Diving ==> e.split_yards == 50
        }),
{
}

/// The college program of 15 events: distances and strokes in order, all for the given gender;
/// a split every 50 yards, and none for diving.
pub proof fn law_ncaa_15_program(g: Gender, i: int)
    requires
        0 <= i < 15,
    ensures
        ({
            let e = ncaa_15_events(g)[i];
            let distances = seq![100int, 100, 100, 1000, 200, 50, 200, 0, 200, 100, 200, 500, 0, 200, 200];
            let strokes = seq![
                Stroke::Back,
                Stroke::Breast,
                Stroke::Fly,
                Stroke::Free,
                Stroke::Free,
                Stroke::Free,
                Stroke::MedleyRelay,
                Stroke::Diving,
                Stroke::Fly,
                Stroke::Free,
                Stroke::Back,
                Stroke::Free,
                Stroke::Diving,
                Stroke::Breast,
                Stroke::FreestyleRelay,
            ];
            &&& ncaa_15_events(g).len() == 15
            &&& e.gender == g
            &&& e.distance == distances[i]
            &&& e.stroke == strokes[i]
            &&& e.stroke == Stroke::Diving ==> e.split_yards == 0
            &&& e.stroke != Stroke::Diving ==> e.split_yards == 50
        }),
{
}

/// The college program of 16 events: distances and strokes in order, all for the given gender;
/// a split every 50 yards, and none for diving.
pub proof fn law_ncaa_16_program(g: Gender, i: int)
    requires
        0 <= i < 16,
    ensures
        ({
            let e = ncaa_16_events(g)[i];
            let distances = seq![200int, 1000, 200, 100, 100, 200, 50, 0, 100, 200, 200, 500, 100, 0, 200, 200];
            let strokes = seq![
                Stroke::MedleyRelay,
                Stroke::Free,
                Stroke::Free,
                Stroke::Back,
                Stroke::Breast,
                Stroke::Fly,
                Stroke::Free,
                Stroke::Diving,
                Stroke::Free,
                Stroke::Back,
                Stroke::Breast,
                Stroke::Free,
                Stroke::Fly,
                Stroke::Diving,
                Stroke::Im,
                Stroke::FreestyleRelay,
            ];
            &&& ncaa_16_events(g).len() == 16
            &&& e.gender == g
            &&& e.distance == distances[i]
            &&& e.stroke == strokes[i]
            &&& e.stroke == Stroke::Diving ==> e.split_yards == 0
            &&& e.stroke != Stroke::Diving ==> e.split_yards == 50
        }),
{
}

/// In the coed program events 1 to 8 and 10 to 23 are, two by two, the events of
/// the high-school program for girls and for boys; event 9 is mixed diving.
pub proof fn law_coed_program(i: int)
    requires
        0 <= i < 23,
    ensures
        coed_high_school_events().len() == 23,
        i < 8 ==> coed_high_school_events()[i] == high_school_events(
            if i % 2 == 0 {
                Gender::Female
            } else {
                Gender::Male
            },
        )[i / 2],
        i == 8 ==> coed_high_school_events()[i] == high_school_events(Gender::Mixed)[4],
        i > 8 ==> coed_high_school_events()[i] == high_school_events(
            if i % 2 == 1 {
                Gender::Female
            } else {
                Gender::Male
            },
        )[(i + 1) / 2],
{
}

} // verus!
