//! Events of a meet: gender, stroke, distance, and how they are written.

use vstd::prelude::*;
use vstd::string::*;

use crate::text;

verus! {

#[derive(Debug, Clone, Copy, PartialEq, Eq, Structural)]
pub enum Gender {
    Male,
    Female,
    Mixed,
}

#[derive(Debug, Clone, Copy, PartialEq, Eq, Structural)]
pub enum Stroke {
    Free,
    Back,
    Breast,
    Fly,
    Im,
    MedleyRelay,
    FreestyleRelay,
    Diving,
}

impl Gender {
    /// One-letter form used in event labels.
    pub open spec fn letter_text(self) -> Seq<char> {
        match self {
            Gender::Male => "M"@,
            Gender::Female => "F"@,
            Gender::Mixed => "X"@,
        }
    }

    pub fn letter(self) -> (r: &'static str)
        ensures
            r@ == self.letter_text(),
    {
        match self {
            Gender::Male => "M",
            Gender::Female => "F",
            Gender::Mixed => "X",
        }
    }
}

impl Stroke {
    /// Short text code of the stroke table.
    pub open spec fn code_text(self) -> Seq<char> {
        match self {
            Stroke::Free => "FR"@,
            Stroke::Back => "BK"@,
            Stroke::Breast => "BR"@,
            Stroke::Fly => "FL"@,
            Stroke::Im => "IM"@,
            Stroke::MedleyRelay => "MED-R"@,
            Stroke::FreestyleRelay => "FR-R"@,
            Stroke::Diving => "DV"@,
        }
    }

    /// Short text code of the stroke table. Relay codes end in `-R`, so `FR`
    /// (freestyle) is never confused with `FR-R` (free relay).
    pub fn code(self) -> (r: &'static str)
        ensures
            r@ == self.code_text(),
    {
        match self {
            Stroke::Free => "FR",
            Stroke::Back => "BK",
            Stroke::Breast => "BR",
            Stroke::Fly => "FL",
            Stroke::Im => "IM",
            Stroke::MedleyRelay => "MED-R",
            Stroke::FreestyleRelay => "FR-R",
            Stroke::Diving => "DV",
        }
    }

    /// Numeric code of the stroke table; diving has none.
    pub open spec fn numeric_code(self) -> Option<u8> {
        match self {
            Stroke::Free => Some(1u8),
            Stroke::Back => Some(2u8),
            Stroke::Breast => Some(3u8),
            Stroke::Fly => Some(4u8),
            Stroke::Im => Some(5u8),
            Stroke::MedleyRelay => Some(6u8),
            Stroke::FreestyleRelay => Some(7u8),
            Stroke::Diving => None,
        }
    }

    /// Numeric stroke code as it appears on the wire (1 to 7). Diving has no
    /// assigned number.
    pub fn numeric(self) -> (r: Option<u8>)
        ensures
            r == self.numeric_code(),
    {
        match self {
            Stroke::Free => Some(1),
            Stroke::Back => Some(2),
            Stroke::Breast => Some(3),
            Stroke::Fly => Some(4),
            Stroke::Im => Some(5),
            Stroke::MedleyRelay => Some(6),
            Stroke::FreestyleRelay => Some(7),
            Stroke::Diving => None,
        }
    }
}

/// One event of the lineup.
#[derive(Debug, Clone, Copy, PartialEq, Eq, Structural)]
pub struct EventDef {
    pub distance: u16,
    pub gender: Gender,
    pub stroke: Stroke,
    /// Yards per split segment. Ignored for diving.
    pub split_yards: u16,
}

impl EventDef {
    /// `diving`, or distance, gender letter and stroke code.
    pub open spec fn label_text(self) -> Seq<char> {
        if self.stroke == Stroke::Diving {
            "diving"@
        } else {
            text::dec(self.distance as nat) + self.gender.letter_text() + " "@ + self.stroke.code_text()
        }
    }

    pub fn label(&self) -> (r: String)
        ensures
            r@ == self.label_text(),
    {
        if self.stroke == Stroke::Diving {
            return String::from_str("diving");
        }
        let mut s: String = text::dec_string(self.distance as u64);
        s.append(self.gender.letter());
        s.append(" ");
        s.append(self.stroke.code());
        s
    }

    /// Touches a lane needs to complete the event: one for each whole split
    /// segment of the distance, and at least one.
    pub open spec fn segments(self) -> nat {
        if self.stroke == Stroke::Diving || self.split_yards == 0 || self.distance
            < self.split_yards {
            1
        } else {
            self.distance as nat / self.split_yards as nat
        }
    }

    /// Number of touchpad presses expected per lane to complete the race.
    /// Diving and zero-distance events collapse to a single touch.
    pub fn total_segments(&self) -> (r: u16)
        ensures
            r == self.segments(),
            r >= 1,
    {
        if self.stroke == Stroke::Diving || self.distance == 0 || self.split_yards == 0 {
            return 1;
        }
        let n: u16 = self.distance / self.split_yards;
        proof {
            let d = self.distance as int;
            let y = self.split_yards as int;
            assert(d < y ==> d / y == 0) by (nonlinear_arith)
                requires
                    0 <= d,
                    0 < y,
            ;
            assert(d >= y ==> d / y >= 1) by (nonlinear_arith)
                requires
                    0 <= d,
                    0 < y,
            ;
        }
        if n < 1 {
            1
        } else {
            n
        }
    }
}

/// Gender spelled by `u`, which is in upper case.
pub open spec fn gender_word(u: Seq<char>) -> Option<Gender> {
    if u == "M"@ || u == "BOYS"@ || u == "MEN"@ {
        Some(Gender::Male)
    } else if u == "F"@ || u == "GIRLS"@ || u == "WOMEN"@ || u == "W"@ {
        Some(Gender::Female)
    } else if u == "X"@ || u == "MIXED"@ {
        Some(Gender::Mixed)
    } else {
        None
    }
}

/// Gender that an operator's word names.
pub open spec fn gender_of(s: Seq<char>) -> Option<Gender> {
    gender_word(text::upper(s))
}

pub fn gender_from_chars(s: &[char]) -> (r: Option<Gender>)
    ensures
        r == gender_of(s@),
{
    let u: Vec<char> = text::to_upper(s);
    let u: &[char] = u.as_slice();
    if text::same_text(u, "M") || text::same_text(u, "BOYS") || text::same_text(u, "MEN") {
        Some(Gender::Male)
    } else if text::same_text(u, "F") || text::same_text(u, "GIRLS") || text::same_text(u, "WOMEN") || text::same_text(
        u,
        "W",
    ) {
        Some(Gender::Female)
    } else if text::same_text(u, "X") || text::same_text(u, "MIXED") {
        Some(Gender::Mixed)
    } else {
        None
    }
}

/// Reads a gender word, in any case.
pub fn parse_gender(s: &str) -> (r: Option<Gender>)
    ensures
        r == gender_of(s@),
{
    let chars: Vec<char> = text::to_chars(s);
    gender_from_chars(chars.as_slice())
}

/// Stroke spelled by `u`, which is in upper case: the numeric code, the short
/// code or a longer alias.
pub open spec fn stroke_word(u: Seq<char>) -> Option<Stroke> {
    if u == "1"@ || u == "FR"@ || u == "FREE"@ || u == "FREESTYLE"@ {
        Some(Stroke::Free)
    } else if u == "2"@ || u == "BK"@ || u == "BACK"@ || u == "BACKSTROKE"@ {
        Some(Stroke::Back)
    } else if u == "3"@ || u == "BR"@ || u == "BREAST"@ || u == "BREASTSTROKE"@ {
        Some(Stroke::Breast)
    } else if u == "4"@ || u == "FL"@ || u == "FLY"@ || u == "BUTTERFLY"@ {
        Some(Stroke::Fly)
    } else if u == "5"@ || u == "IM"@ || u == "MEDLEY"@ {
        Some(Stroke::Im)
    } else if u == "6"@ || u == "MED-R"@ || u == "MEDLEY-RELAY"@ || u == "MEDLEYRELAY"@ || u
        == "MR"@ {
        Some(Stroke::MedleyRelay)
    } else if u == "7"@ || u == "FR-R"@ || u == "FREE-RELAY"@ || u == "FREERELAY"@ || u
        == "FREESTYLE-RELAY"@ || u == "FREESTYLERELAY"@ {
        Some(Stroke::FreestyleRelay)
    } else if u == "DV"@ || u == "DIVE"@ || u == "DIVING"@ {
        Some(Stroke::Diving)
    } else {
        None
    }
}

/// Stroke that an operator's word names.
pub open spec fn stroke_of(s: Seq<char>) -> Option<Stroke> {
    stroke_word(text::upper(text::trimmed(s)))
}

pub fn stroke_from_chars(s: &[char]) -> (r: Option<Stroke>)
    ensures
        r == stroke_of(s@),
{
    let t: Vec<char> = text::trim(s);
    let u: Vec<char> = text::to_upper(t.as_slice());
    let u: &[char] = u.as_slice();
    if text::same_text(u, "1") || text::same_text(u, "FR") || text::same_text(u, "FREE") || text::same_text(
        u,
        "FREESTYLE",
    ) {
        Some(Stroke::Free)
    } else if text::same_text(u, "2") || text::same_text(u, "BK") || text::same_text(u, "BACK") || text::same_text(
        u,
        "BACKSTROKE",
    ) {
        Some(Stroke::Back)
    } else if text::same_text(u, "3") || text::same_text(u, "BR") || text::same_text(u, "BREAST") || text::same_text(
        u,
        "BREASTSTROKE",
    ) {
        Some(Stroke::Breast)
    } else if text::same_text(u, "4") || text::same_text(u, "FL") || text::same_text(u, "FLY") || text::same_text(
        u,
        "BUTTERFLY",
    ) {
        Some(Stroke::Fly)
    } else if text::same_text(u, "5") || text::same_text(u, "IM") || text::same_text(u, "MEDLEY") {
        Some(Stroke::Im)
    } else if text::same_text(u, "6") || text::same_text(u, "MED-R") || text::same_text(u, "MEDLEY-RELAY")
        || text::same_text(u, "MEDLEYRELAY") || text::same_text(u, "MR") {
        Some(Stroke::MedleyRelay)
    } else if text::same_text(u, "7") || text::same_text(u, "FR-R") || text::same_text(u, "FREE-RELAY") || text::same_text(
        u,
        "FREERELAY",
    ) || text::same_text(u, "FREESTYLE-RELAY") || text::same_text(u, "FREESTYLERELAY") {
        Some(Stroke::FreestyleRelay)
    } else if text::same_text(u, "DV") || text::same_text(u, "DIVE") || text::same_text(u, "DIVING") {
        Some(Stroke::Diving)
    } else {
        None
    }
}

/// Accepts the numeric codes (1 to 7), the short codes and longer English
/// aliases, in any case. Bare `FR` always means freestyle; free relay must be
/// spelled `FR-R` (or `7` / `FREE-RELAY` / `FREESTYLE-RELAY`).
pub fn parse_stroke(s: &str) -> (r: Option<Stroke>)
    ensures
        r == stroke_of(s@),
{
    let chars: Vec<char> = text::to_chars(s);
    stroke_from_chars(chars.as_slice())
}

/// Whether `s` begins with the character `c`.
pub open spec fn begins_with(s: Seq<char>, c: char) -> bool {
    s.len() > 0 && s[0] == c
}

fn begins(s: &[char], c: char) -> (r: bool)
    ensures
        r == begins_with(s@, c),
{
    s.len() > 0 && s[0] == c
}

/// Gender that a downloaded gender label stands for.
pub open spec fn label_gender(label: Seq<char>) -> Gender {
    let l = text::lower(text::trimmed(label));
    if begins_with(l, 'w') || begins_with(l, 'g') || begins_with(l, 'f') {
        Gender::Female
    } else if begins_with(l, 'm') || begins_with(l, 'b') {
        Gender::Male
    } else {
        Gender::Mixed
    }
}

/// Map a gender-table label ("Mens", "Womens", "Boys", "Girls", ...) onto
/// [`Gender`]. Falls back to [`Gender::Mixed`].
pub fn label_to_gender(label: &str) -> (r: Gender)
    ensures
        r == label_gender(label@),
{
    let chars: Vec<char> = text::to_chars(label);
    let t: Vec<char> = text::trim(chars.as_slice());
    let l: Vec<char> = text::to_lower(t.as_slice());
    let l: &[char] = l.as_slice();
    if begins(l, 'w') || begins(l, 'g') || begins(l, 'f') {
        Gender::Female
    } else if begins(l, 'm') || begins(l, 'b') {
        Gender::Male
    } else {
        Gender::Mixed
    }
}

/// Stroke that a downloaded stroke label stands for.
pub open spec fn label_stroke(label: Seq<char>, is_relay: bool) -> Stroke {
    let l = text::lower(text::trimmed(label));
    if is_relay {
        if text::contains_text(l, "medley"@) {
            Stroke::MedleyRelay
        } else {
            Stroke::FreestyleRelay
        }
    } else if text::contains_text(l, "fly"@) || text::contains_text(l, "butter"@) {
        Stroke::Fly
    } else if text::contains_text(l, "back"@) {
        Stroke::Back
    } else if text::contains_text(l, "breast"@) {
        Stroke::Breast
    } else if text::contains_text(l, "im"@) || text::contains_text(l, "medley"@) {
        Stroke::Im
    } else if text::contains_text(l, "div"@) {
        Stroke::Diving
    } else {
        Stroke::Free
    }
}

/// Map a stroke-table label ("Freestyle", "Backstroke", "Medley", ...) onto
/// [`Stroke`]. The relay marker of the event record picks one of the relays.
pub fn label_to_stroke(label: &str, is_relay: bool) -> (r: Stroke)
    ensures
        r == label_stroke(label@, is_relay),
{
    let chars: Vec<char> = text::to_chars(label);
    let t: Vec<char> = text::trim(chars.as_slice());
    let l: Vec<char> = text::to_lower(t.as_slice());
    let l: &[char] = l.as_slice();
    if is_relay {
        if text::has_text(l, "medley") {
            return Stroke::MedleyRelay;
        }
        return Stroke::FreestyleRelay;
    }
    if text::has_text(l, "fly") || text::has_text(l, "butter") {
        Stroke::Fly
    } else if text::has_text(l, "back") {
        Stroke::Back
    } else if text::has_text(l, "breast") {
        Stroke::Breast
    } else if text::has_text(l, "im") || text::has_text(l, "medley") {
        Stroke::Im
    } else if text::has_text(l, "div") {
        Stroke::Diving
    } else {
        Stroke::Free
    }
}

proof fn lemma_upper_keeps_space(c: char)
    ensures
        text::is_space(text::upper_char(c)) == text::is_space(c),
{
}

proof fn lemma_upper_trim_start(s: Seq<char>)
    ensures
        text::upper(text::trim_start(s)) == text::trim_start(text::upper(s)),
    decreases s.len(),
{
    if s.len() > 0 {
        lemma_upper_keeps_space(s[0]);
        assert(text::upper(s)[0] == text::upper_char(s[0]));
        if text::is_space(s[0]) {
            lemma_upper_trim_start(s.skip(1));
            assert(text::upper(s.skip(1)) =~= text::upper(s).skip(1));
        }
    }
}

proof fn lemma_upper_trim_end(s: Seq<char>)
    ensures
        text::upper(text::trim_end(s)) == text::trim_end(text::upper(s)),
    decreases s.len(),
{
    if s.len() > 0 {
        lemma_upper_keeps_space(s.last());
        assert(text::upper(s).last() == text::upper_char(s.last()));
        if text::is_space(s.last()) {
            lemma_upper_trim_end(s.drop_last());
            assert(text::upper(s.drop_last()) =~= text::upper(s).drop_last());
        }
    }
}

/// Gender and stroke words are read without regard to case: two words that
/// differ only in the case of their ASCII letters name the same gender and the
/// same stroke.
pub proof fn law_words_ignore_case(s: Seq<char>, t: Seq<char>)
    requires
        text::upper(s) == text::upper(t),
    ensures
        gender_of(s) == gender_of(t),
        stroke_of(s) == stroke_of(t),
{
    lemma_upper_trim_start(s);
    lemma_upper_trim_end(text::trim_start(s));
    lemma_upper_trim_start(t);
    lemma_upper_trim_end(text::trim_start(t));
}

proof fn lemma_code_stays(s: Seq<char>)
    requires
        forall|i: int| 0 <= i < s.len() ==> !text::is_space(#[trigger] s[i]) && text::upper_char(s[i]) == s[i],
    ensures
        text::upper(text::trimmed(s)) == s,
{
    assert(text::trim_start(s) == s);
    assert(text::trim_end(s) == s);
    assert(text::upper(s) =~= s);
}

/// The code a stroke is written with is read back as that stroke. So no two
/// strokes share a code, and bare `FR` is freestyle, never free relay.
pub proof fn law_stroke_code_reads_back(stroke: Stroke)
    ensures
        stroke_of(stroke.code_text()) == Some(stroke),
{
    reveal_strlit("FR");
    reveal_strlit("BK");
    reveal_strlit("BR");
    reveal_strlit("FL");
    reveal_strlit("IM");
    reveal_strlit("MED-R");
    reveal_strlit("FR-R");
    reveal_strlit("DV");
    reveal_strlit("1");
    reveal_strlit("2");
    reveal_strlit("3");
    reveal_strlit("4");
    reveal_strlit("5");
    reveal_strlit("6");
    reveal_strlit("7");
    reveal_strlit("FREE");
    reveal_strlit("FREESTYLE");
    reveal_strlit("BACK");
    reveal_strlit("BACKSTROKE");
    reveal_strlit("BREAST");
    reveal_strlit("BREASTSTROKE");
    reveal_strlit("FLY");
    reveal_strlit("BUTTERFLY");
    reveal_strlit("MEDLEY");
    reveal_strlit("MEDLEY-RELAY");
    reveal_strlit("MEDLEYRELAY");
    reveal_strlit("MR");
    reveal_strlit("FREE-RELAY");
    reveal_strlit("FREERELAY");
    reveal_strlit("FREESTYLE-RELAY");
    reveal_strlit("FREESTYLERELAY");
    reveal_strlit("DIVE");
    reveal_strlit("DIVING");
    lemma_code_stays(stroke.code_text());
    let u = stroke.code_text();
    assert(u.len() == 2 || u.len() == 4 || u.len() == 5);
    assert("FR"@[1] == 'R' && "BK"@[1] == 'K' && "BR"@[0] == 'B' && "BR"@[1] == 'R');
    assert("FL"@[1] == 'L' && "IM"@[0] == 'I' && "MR"@[0] == 'M' && "DV"@[0] == 'D');
    assert("MED-R"@.len() == 5 && "FR-R"@.len() == 4);
    assert("FR-R"@[1] == 'R' && "FREE"@[2] == 'E' && "FR-R"@[2] == '-');
    assert("BACK"@[0] == 'B' && "DIVE"@[0] == 'D' && "FR-R"@[0] == 'F');
}

/// The number of a stroke, written in decimal, is read back as that stroke.
pub proof fn law_stroke_number_reads_back(stroke: Stroke)
    requires
        stroke.numeric_code() is Some,
    ensures
        stroke_of(text::dec(stroke.numeric_code()->0 as nat)) == Some(stroke),
{
    reveal_strlit("1");
    reveal_strlit("2");
    reveal_strlit("3");
    reveal_strlit("4");
    reveal_strlit("5");
    reveal_strlit("6");
    reveal_strlit("7");
    reveal_strlit("FR");
    reveal_strlit("FREE");
    reveal_strlit("FREESTYLE");
    reveal_strlit("BK");
    reveal_strlit("BACK");
    reveal_strlit("BACKSTROKE");
    reveal_strlit("BR");
    reveal_strlit("BREAST");
    reveal_strlit("BREASTSTROKE");
    reveal_strlit("FL");
    reveal_strlit("FLY");
    reveal_strlit("BUTTERFLY");
    reveal_strlit("IM");
    reveal_strlit("MEDLEY");
    reveal_strlit("MED-R");
    reveal_strlit("MEDLEY-RELAY");
    reveal_strlit("MEDLEYRELAY");
    reveal_strlit("MR");
    let n = stroke.numeric_code()->0 as nat;
    lemma_code_stays(text::dec(n));
    assert(n == 1 ==> text::dec(n) =~= "1"@);
    assert(n == 2 ==> text::dec(n) =~= "2"@);
    assert(n == 3 ==> text::dec(n) =~= "3"@);
    assert(n == 4 ==> text::dec(n) =~= "4"@);
    assert(n == 5 ==> text::dec(n) =~= "5"@);
    assert(n == 6 ==> text::dec(n) =~= "6"@);
    assert(n == 7 ==> text::dec(n) =~= "7"@);
    assert("1"@[0] == '1' && "2"@[0] == '2' && "3"@[0] == '3' && "4"@[0] == '4' && "5"@[0] == '5'
        && "6"@[0] == '6' && "7"@[0] == '7');
}

/// Whether the characters of `s` from `at` on spell `word`, which is in lower
/// case, each in upper or lower case.
pub open spec fn spells_at(s: Seq<char>, at: int, word: Seq<char>) -> bool {
    &&& 0 <= at
    &&& at + word.len() <= s.len()
    &&& forall|j: int|
        0 <= j < word.len() ==> #[trigger] s[at + j] == word[j] || s[at + j] as int + 32
            == word[j] as int
}

/// Whether `s` has `word`, which is in lower case, among its characters, in
/// upper or lower case, whatever stands before and behind it.
pub open spec fn mentions(s: Seq<char>, word: Seq<char>) -> bool {
    exists|at: int| spells_at(s, at, word)
}

/// Whether `word` is made of lower-case letters.
pub open spec fn lower_word(word: Seq<char>) -> bool {
    &&& word.len() > 0
    &&& forall|j: int| 0 <= j < word.len() ==> 'a' <= #[trigger] word[j] && word[j] <= 'z'
}

proof fn lemma_lower_spells(s: Seq<char>, at: int, word: Seq<char>)
    requires
        lower_word(word),
        0 <= at,
        at + word.len() <= s.len(),
    ensures
        spells_at(s, at, word) <==> text::lower(s).subrange(at, at + word.len()) == word,
{
    let part = text::lower(s).subrange(at, at + word.len());
    if spells_at(s, at, word) {
        assert forall|j: int| 0 <= j < word.len() implies part[j] == word[j] by {
            assert('a' <= word[j] && word[j] <= 'z');
            assert(s[at + j] == word[j] || s[at + j] as int + 32 == word[j] as int);
            assert(part[j] == text::lower_char(s[at + j]));
        }
        assert(part =~= word);
    }
    if part == word {
        assert forall|j: int| 0 <= j < word.len() implies #[trigger] s[at + j] == word[j]
            || s[at + j] as int + 32 == word[j] as int by {
            assert(part[j] == text::lower_char(s[at + j]));
        }
    }
}

/// A label without its outer white space has a word of letters just where the
/// label has it.
proof fn lemma_trimmed_mentions(s: Seq<char>, word: Seq<char>)
    requires
        lower_word(word),
    ensures
        mentions(s, word) <==> text::contains_text(text::lower(text::trimmed(s)), word),
{
    let a = text::trim_start(s);
    let t = text::trimmed(s);
    text::lemma_trim_start_part(s);
    text::lemma_trim_end_part(a);
    let cut = s.len() - a.len();
    assert forall|i: int| 0 <= i < t.len() implies t[i] == s[cut + i] by {}
    if mentions(s, word) {
        let at = choose|at: int| spells_at(s, at, word);
        assert forall|j: int| 0 <= j < word.len() implies !text::is_space(#[trigger] s[at + j]) by {
            assert('a' <= word[j] && word[j] <= 'z');
        }
        assert(!text::is_space(s[at + 0]));
        assert(!text::is_space(s[at + (word.len() - 1)]));
        assert(at >= cut);
        assert(at - cut + word.len() <= t.len()) by {
            if at - cut + word.len() > t.len() {
                let i = at - cut + word.len() - 1;
                assert(a[i] == s[cut + i]);
                assert(text::is_space(a[i]));
            }
        }
        assert forall|j: int| 0 <= j < word.len() implies #[trigger] t[at - cut + j] == word[j]
            || t[at - cut + j] as int + 32 == word[j] as int by {
            assert(s[at + j] == t[at - cut + j]);
        }
        lemma_lower_spells(t, at - cut, word);
        assert(text::lower(t).subrange(at - cut, at - cut + word.len()) == word);
    }
    if text::contains_text(text::lower(t), word) {
        let at = choose|at: int|
            0 <= at <= text::lower(t).len() - word.len() && #[trigger] text::lower(t).subrange(
                at,
                at + word.len(),
            ) == word;
        lemma_lower_spells(t, at, word);
        assert forall|j: int| 0 <= j < word.len() implies #[trigger] s[at + cut + j] == word[j]
            || s[at + cut + j] as int + 32 == word[j] as int by {
            assert(t[at + j] == s[at + cut + j]);
        }
        assert(spells_at(s, at + cut, word));
    }
}

proof fn lemma_stroke_label_words()
    ensures
        lower_word("medley"@),
        lower_word("fly"@),
        lower_word("butter"@),
        lower_word("back"@),
        lower_word("breast"@),
        lower_word("im"@),
        lower_word("div"@),
{
    reveal_strlit("medley");
    reveal_strlit("fly");
    reveal_strlit("butter");
    reveal_strlit("back");
    reveal_strlit("breast");
    reveal_strlit("im");
    reveal_strlit("div");
}

/// A downloaded relay is a medley relay just where its stroke label has
/// "medley" in it, in any case and whatever stands around it, and a freestyle
/// relay otherwise.
pub proof fn law_relay_label(label: Seq<char>)
    ensures
        mentions(label, "medley"@) ==> label_stroke(label, true) == Stroke::MedleyRelay,
        !mentions(label, "medley"@) ==> label_stroke(label, true) == Stroke::FreestyleRelay,
{
    lemma_stroke_label_words();
    lemma_trimmed_mentions(label, "medley"@);
}

/// A downloaded event that is no relay has the stroke whose name its label has
/// in it, in any case and whatever stands around it: of several, the first of
/// fly or butter, back, breast, im or medley, and div. Without one it is
/// freestyle.
pub proof fn law_stroke_label(label: Seq<char>)
    ensures
        ({
            let stroke = label_stroke(label, false);
            let fly = mentions(label, "fly"@) || mentions(label, "butter"@);
            let back = mentions(label, "back"@);
            let breast = mentions(label, "breast"@);
            let im = mentions(label, "im"@) || mentions(label, "medley"@);
            let diving = mentions(label, "div"@);
            &&& stroke == Stroke::Fly <==> fly
            &&& stroke == Stroke::Back <==> back && !fly
            &&& stroke == Stroke::Breast <==> breast && !fly && !back
            &&& stroke == Stroke::Im <==> im && !fly && !back && !breast
            &&& stroke == Stroke::Diving <==> diving && !fly && !back && !breast && !im
            &&& stroke == Stroke::Free <==> !fly && !back && !breast && !im && !diving
        }),
{
    lemma_stroke_label_words();
    lemma_trimmed_mentions(label, "medley"@);
    lemma_trimmed_mentions(label, "fly"@);
    lemma_trimmed_mentions(label, "butter"@);
    lemma_trimmed_mentions(label, "back"@);
    lemma_trimmed_mentions(label, "breast"@);
    lemma_trimmed_mentions(label, "im"@);
    lemma_trimmed_mentions(label, "div"@);
}

/// A downloaded gender label stands for the gender that its first character,
/// white space left aside, is the initial of: women, girls and female, men and
/// boys; any other label for mixed.
pub proof fn law_gender_label(label: Seq<char>, at: int)
    requires
        0 <= at < label.len(),
        forall|i: int| 0 <= i < at ==> text::is_space(#[trigger] label[i]),
        !text::is_space(label[at]),
    ensures
        ({
            let c = label[at];
            let female = c == 'w' || c == 'W' || c == 'g' || c == 'G' || c == 'f' || c == 'F';
            let male = c == 'm' || c == 'M' || c == 'b' || c == 'B';
            &&& label_gender(label) == Gender::Female <==> female
            &&& label_gender(label) == Gender::Male <==> male
            &&& label_gender(label) == Gender::Mixed <==> !female && !male
        }),
{
    let a = text::trim_start(label);
    let t = text::trimmed(label);
    text::lemma_trim_start_part(label);
    text::lemma_trim_end_part(a);
    text::lemma_trim_start_len(label);
    assert(label.len() - a.len() <= at) by {
        if label.len() - a.len() > at {
            assert(text::is_space(label[at]));
        }
    }
    assert(a.len() > 0);
    assert(a[0] == label[label.len() - a.len()]);
    assert(label.len() - a.len() == at);
    assert(t.len() > 0) by {
        if t.len() == 0 {
            assert(text::is_space(a[0]));
        }
    }
    assert(t[0] == a[0]);
    assert(text::lower(t)[0] == text::lower_char(label[at]));
}

/// A blank gender label stands for mixed.
pub proof fn law_blank_gender_label(label: Seq<char>)
    requires
        forall|i: int| 0 <= i < label.len() ==> text::is_space(#[trigger] label[i]),
    ensures
        label_gender(label) == Gender::Mixed,
{
    text::lemma_trim_start_part(label);
    text::lemma_trim_end_part(text::trim_start(label));
    text::lemma_trim_start_len(label);
    let a = text::trim_start(label);
    if a.len() > 0 {
        assert(a[0] == label[label.len() - a.len()]);
    }
}

/// Diving, an event without a distance and one without split segments take one
/// touch; any other event takes one for each whole split segment that its
/// distance holds, and at least one.
pub proof fn law_touches_cover_the_distance(e: EventDef)
    ensures
        e.stroke == Stroke::Diving || e.distance == 0 || e.split_yards == 0 ==> e.segments() == 1,
        e.stroke != Stroke::Diving && e.split_yards > 0 && e.distance >= e.split_yards
            ==> e.segments() * e.split_yards <= e.distance < e.segments() * e.split_yards
            + e.split_yards,
        e.distance < e.split_yards ==> e.segments() == 1,
        e.segments() >= 1,
{
    if e.stroke != Stroke::Diving && e.split_yards > 0 && e.distance >= e.split_yards {
        let d = e.distance as int;
        let y = e.split_yards as int;
        vstd::arithmetic::div_mod::lemma_fundamental_div_mod(d, y);
        vstd::arithmetic::div_mod::lemma_mod_bound(d, y);
        assert(y * (d / y) == (d / y) * y) by (nonlinear_arith);
        assert(d / y >= 1) by (nonlinear_arith)
            requires
                d >= y,
                y > 0,
        ;
    }
}

/// Whether `w` is the upper-case word `u` in any mix of upper and lower case.
pub open spec fn in_any_case(w: Seq<char>, u: Seq<char>) -> bool {
    &&& w.len() == u.len()
    &&& forall|j: int|
        0 <= j < u.len() ==> #[trigger] w[j] == u[j] || (65 <= u[j] as int <= 90 && w[j] as int
            == u[j] as int + 32)
}

/// Whether `u` has no lower-case letters.
pub open spec fn upper_word(u: Seq<char>) -> bool {
    forall|j: int| 0 <= j < u.len() ==> !(97 <= #[trigger] u[j] as int <= 122)
}

proof fn lemma_in_any_case(w: Seq<char>, u: Seq<char>)
    requires
        upper_word(u),
    ensures
        in_any_case(w, u) <==> text::upper(w) == u,
{
    if in_any_case(w, u) {
        assert forall|j: int| 0 <= j < u.len() implies text::upper(w)[j] == u[j] by {
            assert(!(97 <= u[j] as int <= 122));
            assert(w[j] == u[j] || (65 <= u[j] as int <= 90 && w[j] as int == u[j] as int + 32));
        }
        assert(text::upper(w) =~= u);
    }
    if text::upper(w) == u {
        assert forall|j: int| 0 <= j < u.len() implies #[trigger] w[j] == u[j] || (65 <= u[j] as int
            <= 90 && w[j] as int == u[j] as int + 32) by {
            assert(text::upper(w)[j] == u[j]);
        }
    }
}

/// The words for a gender, in any case: M, boys and men; F, W, girls and women;
/// X and mixed. No other word names one.
pub proof fn law_gender_words(w: Seq<char>)
    ensures
        ({
            let male = in_any_case(w, "M"@) || in_any_case(w, "BOYS"@) || in_any_case(w, "MEN"@);
            let female = in_any_case(w, "F"@) || in_any_case(w, "W"@) || in_any_case(w, "GIRLS"@)
                || in_any_case(w, "WOMEN"@);
            let mixed = in_any_case(w, "X"@) || in_any_case(w, "MIXED"@);
            &&& gender_of(w) == Some(Gender::Male) <==> male
            &&& gender_of(w) == Some(Gender::Female) <==> female
            &&& gender_of(w) == Some(Gender::Mixed) <==> mixed
        }),
{
    reveal_strlit("M");
    reveal_strlit("BOYS");
    reveal_strlit("MEN");
    reveal_strlit("F");
    reveal_strlit("W");
    reveal_strlit("GIRLS");
    reveal_strlit("WOMEN");
    reveal_strlit("X");
    reveal_strlit("MIXED");
    lemma_in_any_case(w, "M"@);
    lemma_in_any_case(w, "BOYS"@);
    lemma_in_any_case(w, "MEN"@);
    lemma_in_any_case(w, "F"@);
    lemma_in_any_case(w, "W"@);
    lemma_in_any_case(w, "GIRLS"@);
    lemma_in_any_case(w, "WOMEN"@);
    lemma_in_any_case(w, "X"@);
    lemma_in_any_case(w, "MIXED"@);
    assert("M"@[0] == 'M' && "F"@[0] == 'F' && "W"@[0] == 'W' && "X"@[0] == 'X');
    assert("GIRLS"@[0] == 'G' && "WOMEN"@[0] == 'W' && "MIXED"@[0] == 'M');
}

/// The words for a stroke, in any case: its number, its code and its names.
/// Bare FR is freestyle, and no other word names a stroke.
pub proof fn law_stroke_words(w: Seq<char>)
    requires
        text::one_word(w),
    ensures
        ({
            let free = in_any_case(w, "1"@) || in_any_case(w, "FR"@) || in_any_case(w, "FREE"@)
                || in_any_case(w, "FREESTYLE"@);
            let back = in_any_case(w, "2"@) || in_any_case(w, "BK"@) || in_any_case(w, "BACK"@)
                || in_any_case(w, "BACKSTROKE"@);
            let breast = in_any_case(w, "3"@) || in_any_case(w, "BR"@) || in_any_case(w, "BREAST"@)
                || in_any_case(w, "BREASTSTROKE"@);
            let fly = in_any_case(w, "4"@) || in_any_case(w, "FL"@) || in_any_case(w, "FLY"@)
                || in_any_case(w, "BUTTERFLY"@);
            let im = in_any_case(w, "5"@) || in_any_case(w, "IM"@) || in_any_case(w, "MEDLEY"@);
            let medley_relay = in_any_case(w, "6"@) || in_any_case(w, "MED-R"@) || in_any_case(
                w,
                "MEDLEY-RELAY"@,
            ) || in_any_case(w, "MEDLEYRELAY"@) || in_any_case(w, "MR"@);
            let free_relay = in_any_case(w, "7"@) || in_any_case(w, "FR-R"@) || in_any_case(
                w,
                "FREE-RELAY"@,
            ) || in_any_case(w, "FREERELAY"@) || in_any_case(w, "FREESTYLE-RELAY"@) || in_any_case(
                w,
                "FREESTYLERELAY"@,
            );
            let diving = in_any_case(w, "DV"@) || in_any_case(w, "DIVE"@) || in_any_case(
                w,
                "DIVING"@,
            );
            &&& free ==> stroke_of(w) == Some(Stroke::Free)
            &&& back && !free ==> stroke_of(w) == Some(Stroke::Back)
            &&& breast && !free && !back ==> stroke_of(w) == Some(Stroke::Breast)
            &&& fly && !free && !back && !breast ==> stroke_of(w) == Some(Stroke::Fly)
            &&& im && !free && !back && !breast && !fly ==> stroke_of(w) == Some(Stroke::Im)
            &&& medley_relay && !free && !back && !breast && !fly && !im ==> stroke_of(w) == Some(
                Stroke::MedleyRelay,
            )
            &&& free_relay && !free && !back && !breast && !fly && !im && !medley_relay
                ==> stroke_of(w) == Some(Stroke::FreestyleRelay)
            &&& diving && !free && !back && !breast && !fly && !im && !medley_relay && !free_relay
                ==> stroke_of(w) == Some(Stroke::Diving)
            &&& !free && !back && !breast && !fly && !im && !medley_relay && !free_relay && !diving
                ==> stroke_of(w) is None
        }),
{
    text::lemma_one_word(w);
    reveal_strlit("1");
    lemma_in_any_case(w, "1"@);
    reveal_strlit("FR");
    lemma_in_any_case(w, "FR"@);
    reveal_strlit("FREE");
    lemma_in_any_case(w, "FREE"@);
    reveal_strlit("FREESTYLE");
    lemma_in_any_case(w, "FREESTYLE"@);
    reveal_strlit("2");
    lemma_in_any_case(w, "2"@);
    reveal_strlit("BK");
    lemma_in_any_case(w, "BK"@);
    reveal_strlit("BACK");
    lemma_in_any_case(w, "BACK"@);
    reveal_strlit("BACKSTROKE");
    lemma_in_any_case(w, "BACKSTROKE"@);
    reveal_strlit("3");
    lemma_in_any_case(w, "3"@);
    reveal_strlit("BR");
    lemma_in_any_case(w, "BR"@);
    reveal_strlit("BREAST");
    lemma_in_any_case(w, "BREAST"@);
    reveal_strlit("BREASTSTROKE");
    lemma_in_any_case(w, "BREASTSTROKE"@);
    reveal_strlit("4");
    lemma_in_any_case(w, "4"@);
    reveal_strlit("FL");
    lemma_in_any_case(w, "FL"@);
    reveal_strlit("FLY");
    lemma_in_any_case(w, "FLY"@);
    reveal_strlit("BUTTERFLY");
    lemma_in_any_case(w, "BUTTERFLY"@);
    reveal_strlit("5");
    lemma_in_any_case(w, "5"@);
    reveal_strlit("IM");
    lemma_in_any_case(w, "IM"@);
    reveal_strlit("MEDLEY");
    lemma_in_any_case(w, "MEDLEY"@);
    reveal_strlit("6");
    lemma_in_any_case(w, "6"@);
    reveal_strlit("MED-R");
    lemma_in_any_case(w, "MED-R"@);
    reveal_strlit("MEDLEY-RELAY");
    lemma_in_any_case(w, "MEDLEY-RELAY"@);
    reveal_strlit("MEDLEYRELAY");
    lemma_in_any_case(w, "MEDLEYRELAY"@);
    reveal_strlit("MR");
    lemma_in_any_case(w, "MR"@);
    reveal_strlit("7");
    lemma_in_any_case(w, "7"@);
    reveal_strlit("FR-R");
    lemma_in_any_case(w, "FR-R"@);
    reveal_strlit("FREE-RELAY");
    lemma_in_any_case(w, "FREE-RELAY"@);
    reveal_strlit("FREERELAY");
    lemma_in_any_case(w, "FREERELAY"@);
    reveal_strlit("FREESTYLE-RELAY");
    lemma_in_any_case(w, "FREESTYLE-RELAY"@);
    reveal_strlit("FREESTYLERELAY");
    lemma_in_any_case(w, "FREESTYLERELAY"@);
    reveal_strlit("DV");
    lemma_in_any_case(w, "DV"@);
    reveal_strlit("DIVE");
    lemma_in_any_case(w, "DIVE"@);
    reveal_strlit("DIVING");
    lemma_in_any_case(w, "DIVING"@);
}

/// An event is shown as its distance, the letter of its gender and the code of
/// its stroke; diving is shown as such.
pub proof fn law_event_labels(e: EventDef)
    ensures
        e.stroke == Stroke::Diving ==> e.label_text() == "diving"@,
        e.stroke != Stroke::Diving ==> e.label_text() == text::dec(e.distance as nat)
            + e.gender.letter_text() + " "@ + e.stroke.code_text(),
        Gender::Male.letter_text() == "M"@,
        Gender::Female.letter_text() == "F"@,
        Gender::Mixed.letter_text() == "X"@,
        Stroke::Free.code_text() == "FR"@,
        Stroke::Back.code_text() == "BK"@,
        Stroke::Breast.code_text() == "BR"@,
        Stroke::Fly.code_text() == "FL"@,
        Stroke::Im.code_text() == "IM"@,
        Stroke::MedleyRelay.code_text() == "MED-R"@,
        Stroke::FreestyleRelay.code_text() == "FR-R"@,
        Stroke::Diving.code_text() == "DV"@,
{
}

} // verus!
