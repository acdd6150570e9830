use cts6_emulator::event::{
    label_to_gender, label_to_stroke, parse_gender, parse_stroke, EventDef, Gender, Stroke,
};
use cts6_emulator::lineups;

fn def(distance: u16, gender: Gender, stroke: Stroke, split_yards: u16) -> EventDef {
    EventDef { distance, gender, stroke, split_yards }
}

#[test]
fn genders_are_read_in_any_case() {
    for s in ["M", "m", "boys", "MEN"] {
        assert_eq!(parse_gender(s), Some(Gender::Male));
    }
    for s in ["F", "girls", "Women", "w"] {
        assert_eq!(parse_gender(s), Some(Gender::Female));
    }
    for s in ["x", "Mixed"] {
        assert_eq!(parse_gender(s), Some(Gender::Mixed));
    }
    for s in ["", "man", " M", "mens"] {
        assert_eq!(parse_gender(s), None);
    }
}

#[test]
fn bare_fr_is_freestyle() {
    assert_eq!(parse_stroke("FR"), Some(Stroke::Free));
    assert_eq!(parse_stroke("fr"), Some(Stroke::Free));
    assert_eq!(parse_stroke("FR-R"), Some(Stroke::FreestyleRelay));
    assert_eq!(parse_stroke("7"), Some(Stroke::FreestyleRelay));
    assert_eq!(parse_stroke("FREE-RELAY"), Some(Stroke::FreestyleRelay));
    assert_eq!(parse_stroke("freestyle-relay"), Some(Stroke::FreestyleRelay));
}

#[test]
fn strokes_are_read_in_every_form() {
    let table = [
        (Stroke::Free, vec!["1", "FR", "FREE", "FREESTYLE"]),
        (Stroke::Back, vec!["2", "BK", "BACK", "BACKSTROKE"]),
        (Stroke::Breast, vec!["3", "BR", "BREAST", "BREASTSTROKE"]),
        (Stroke::Fly, vec!["4", "FL", "FLY", "BUTTERFLY"]),
        (Stroke::Im, vec!["5", "IM", "MEDLEY"]),
        (Stroke::MedleyRelay, vec!["6", "MED-R", "MEDLEY-RELAY", "MEDLEYRELAY", "MR"]),
        (
            Stroke::FreestyleRelay,
            vec!["7", "FR-R", "FREE-RELAY", "FREERELAY", "FREESTYLE-RELAY", "FREESTYLERELAY"],
        ),
        (Stroke::Diving, vec!["DV", "DIVE", "DIVING"]),
    ];
    for (stroke, forms) in table {
        for form in forms {
            assert_eq!(parse_stroke(form), Some(stroke));
            assert_eq!(parse_stroke(&form.to_lowercase()), Some(stroke));
            assert_eq!(parse_stroke(&format!("  {form}\t")), Some(stroke));
        }
        assert_eq!(parse_stroke(stroke.code()), Some(stroke));
        if let Some(n) = stroke.numeric() {
            assert_eq!(parse_stroke(&n.to_string()), Some(stroke));
        }
    }
    for s in ["", "8", "0", "FRR", "swim"] {
        assert_eq!(parse_stroke(s), None);
    }
    assert_eq!(Stroke::Diving.numeric(), None);
    assert_eq!(Stroke::FreestyleRelay.numeric(), Some(7));
}

#[test]
fn events_are_labelled() {
    assert_eq!(def(200, Gender::Female, Stroke::MedleyRelay, 50).label(), "200F MED-R");
    assert_eq!(def(50, Gender::Male, Stroke::Free, 25).label(), "50M FR");
    assert_eq!(def(100, Gender::Mixed, Stroke::Fly, 50).label(), "100X FL");
    assert_eq!(def(0, Gender::Male, Stroke::Diving, 50).label(), "diving");
}

#[test]
fn events_expect_touches() {
    assert_eq!(def(500, Gender::Male, Stroke::Free, 50).total_segments(), 10);
    assert_eq!(def(100, Gender::Male, Stroke::Free, 25).total_segments(), 4);
    assert_eq!(def(25, Gender::Male, Stroke::Free, 50).total_segments(), 1);
    assert_eq!(def(0, Gender::Male, Stroke::Free, 50).total_segments(), 1);
    assert_eq!(def(100, Gender::Male, Stroke::Free, 0).total_segments(), 1);
    assert_eq!(def(100, Gender::Male, Stroke::Diving, 25).total_segments(), 1);
}

#[test]
fn labels_of_a_download_are_matched() {
    for s in ["Womens", " girls", "F", "g"] {
        assert_eq!(label_to_gender(s), Gender::Female);
    }
    for s in ["Mens", "boys", "Mixed"] {
        assert_eq!(label_to_gender(s), Gender::Male);
    }
    for s in ["", "Open", "X"] {
        assert_eq!(label_to_gender(s), Gender::Mixed);
    }
    assert_eq!(label_to_stroke("Freestyle", false), Stroke::Free);
    assert_eq!(label_to_stroke("Butterfly", false), Stroke::Fly);
    assert_eq!(label_to_stroke("Backstroke", false), Stroke::Back);
    assert_eq!(label_to_stroke("BREASTSTROKE", false), Stroke::Breast);
    assert_eq!(label_to_stroke("Medley", false), Stroke::Im);
    assert_eq!(label_to_stroke("IM", false), Stroke::Im);
    assert_eq!(label_to_stroke("Diving", false), Stroke::Diving);
    assert_eq!(label_to_stroke("", false), Stroke::Free);
    assert_eq!(label_to_stroke("Medley", true), Stroke::MedleyRelay);
    assert_eq!(label_to_stroke("Relay", true), Stroke::FreestyleRelay);
}

#[test]
fn high_school_lineup() {
    let l = lineups::high_school_lineup_gender(Gender::Female);
    let labels: Vec<String> = l.iter().map(|e| e.label()).collect();
    assert_eq!(
        labels,
        [
            "200F MED-R", "200F FR", "200F IM", "50F FR", "diving", "100F FL", "100F FR",
            "500F FR", "200F FR-R", "100F BK", "100F BR", "400F FR-R",
        ]
    );
    assert!(l.iter().all(|e| e.gender == Gender::Female));
}

#[test]
fn coed_lineup_runs_every_event_twice_but_diving() {
    let coed = lineups::coed_high_school_lineup();
    let mut expected = Vec::new();
    for e in lineups::high_school_lineup_gender(Gender::Mixed) {
        if e.stroke == Stroke::Diving {
            expected.push(e);
        } else {
            expected.push(EventDef { gender: Gender::Female, ..e });
            expected.push(EventDef { gender: Gender::Male, ..e });
        }
    }
    assert_eq!(coed.len(), 23);
    assert_eq!(coed, expected);
    assert_eq!(coed[8], def(0, Gender::Mixed, Stroke::Diving, 0));
}

#[test]
fn college_lineups() {
    let labels = |l: Vec<EventDef>| -> Vec<String> { l.iter().map(|e| e.label()).collect() };
    assert_eq!(
        labels(lineups::ncaa_13_event(Gender::Male)),
        [
            "200M MED-R", "1000M FR", "200M FR", "50M FR", "200M IM", "diving", "100M FL",
            "100M FR", "100M BK", "500M FR", "diving", "100M BR", "200M FR-R",
        ]
    );
    assert_eq!(
        labels(lineups::ncaa_15_event(Gender::Female)),
        [
            "100F BK", "100F BR", "100F FL", "1000F FR", "200F FR", "50F FR", "200F MED-R",
            "diving", "200F FL", "100F FR", "200F BK", "500F FR", "diving", "200F BR",
            "200F FR-R",
        ]
    );
    assert_eq!(
        labels(lineups::ncaa_16_event(Gender::Mixed)),
        [
            "200X MED-R", "1000X FR", "200X FR", "100X BK", "100X BR", "200X FL", "50X FR",
            "diving", "100X FR", "200X BK", "200X BR", "500X FR", "100X FL", "diving", "200X IM",
            "200X FR-R",
        ]
    );
    for e in lineups::ncaa_16_event(Gender::Male) {
        assert_eq!(e.gender, Gender::Male);
        assert_eq!(e.split_yards, if e.stroke == Stroke::Diving { 0 } else { 50 });
    }
}
