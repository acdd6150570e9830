//! How times, places and counts are written.

use vstd::prelude::*;
use vstd::string::*;

use crate::text;

verus! {

/// A number below 100 in two digits.
pub open spec fn two_digits(n: nat) -> Seq<char> {
    seq![text::digit_char(n / 10), text::digit_char(n % 10)]
}

/// A number below 1000 in three digits.
pub open spec fn three_digits(n: nat) -> Seq<char> {
    seq![text::digit_char(n / 100), text::digit_char(n / 10 % 10), text::digit_char(n % 10)]
}

/// A time: minutes and seconds with milliseconds, or seconds alone below a
/// minute.
pub open spec fn time_text(ms: u32) -> Seq<char> {
    let mins = (ms / 60_000) as nat;
    let secs = (ms % 60_000 / 1000) as nat;
    let millis = (ms % 1000) as nat;
    if mins > 0 {
        text::dec(mins) + ":"@ + two_digits(secs) + "."@ + three_digits(millis)
    } else {
        text::dec(secs) + "."@ + three_digits(millis)
    }
}

fn put_two_digits(s: &mut String, n: u32)
    requires
        n < 100,
    ensures
        final(s)@ == old(s)@ + two_digits(n as nat),
{
    let ghost before = s@;
    s.push((48u8 + (n / 10) as u8) as char);
    s.push((48u8 + (n % 10) as u8) as char);
    assert(s@ =~= before + two_digits(n as nat));
}

fn put_three_digits(s: &mut String, n: u32)
    requires
        n < 1000,
    ensures
        final(s)@ == old(s)@ + three_digits(n as nat),
{
    let ghost before = s@;
    s.push((48u8 + (n / 100) as u8) as char);
    s.push((48u8 + (n / 10 % 10) as u8) as char);
    s.push((48u8 + (n % 10) as u8) as char);
    assert(s@ =~= before + three_digits(n as nat));
}

/// Writes a time in milliseconds as `m:ss.mmm`, or `s.mmm` below a minute.
pub fn fmt_time(ms: u32) -> (r: String)
    ensures
        r@ == time_text(ms),
{
    let mins: u32 = ms / 60_000;
    let rem: u32 = ms % 60_000;
    let secs: u32 = rem / 1000;
    let millis: u32 = rem % 1000;
    assert(millis == ms % 1000);
    if mins > 0 {
        let mut s: String = text::dec_string(mins as u64);
        s.append(":");
        put_two_digits(&mut s, secs);
        s.append(".");
        put_three_digits(&mut s, millis);
        s
    } else {
        let mut s: String = text::dec_string(secs as u64);
        s.append(".");
        put_three_digits(&mut s, millis);
        s
    }
}

/// A place: 1st, 2nd, 3rd, and `th` behind every other number.
pub open spec fn place_text(place: u8) -> Seq<char> {
    if place == 1 {
        "1st"@
    } else if place == 2 {
        "2nd"@
    } else if place == 3 {
        "3rd"@
    } else {
        text::dec(place as nat) + "th"@
    }
}

/// Compact place label: "1st", "2nd", "3rd", "4th"...
pub fn place_label(place: u8) -> (r: String)
    ensures
        r@ == place_text(place),
{
    match place {
        1 => String::from_str("1st"),
        2 => String::from_str("2nd"),
        3 => String::from_str("3rd"),
        n => {
            let mut s: String = text::dec_string(n as u64);
            s.append("th");
            s
        },
    }
}

/// `one` for a count of 1, `many` for any other.
pub open spec fn plural_text(n: int, one: Seq<char>, many: Seq<char>) -> Seq<char> {
    if n == 1 {
        one
    } else {
        many
    }
}

/// `one` for a count of 1, `many` for any other.
pub fn plural(n: usize, one: &'static str, many: &'static str) -> (r: &'static str)
    ensures
        r@ == plural_text(n as int, one@, many@),
{
    if n == 1 {
        one
    } else {
        many
    }
}

/// A time ends in a dot and its milliseconds in three digits. Before the dot
/// stand its whole seconds, below a minute, and otherwise its whole minutes, a
/// colon and the seconds of the minute in two digits.
pub proof fn law_time_is_written_to_the_millisecond(ms: u32)
    ensures
        ({
            let t = time_text(ms);
            let n = t.len() as int;
            &&& n >= 5
            &&& t[n - 4] == '.'
            &&& 100 * (t[n - 3] as int - 48) + 10 * (t[n - 2] as int - 48) + (t[n - 1] as int - 48)
                == ms % 1000
            &&& 48 <= t[n - 3] as int <= 57 && 48 <= t[n - 2] as int <= 57 && 48 <= t[n - 1] as int
                <= 57
            &&& ms < 60_000 ==> t.take(n - 4) == text::dec((ms / 1000) as nat)
            &&& ms >= 60_000 ==> {
                &&& n >= 8
                &&& t[n - 7] == ':'
                &&& 10 * (t[n - 6] as int - 48) + (t[n - 5] as int - 48) == ms / 1000 % 60
                &&& 48 <= t[n - 6] as int <= 57 && 48 <= t[n - 5] as int <= 57
                &&& t.take(n - 7) == text::dec((ms / 60_000) as nat)
            }
        }),
{
    let t = time_text(ms);
    let n = t.len() as int;
    reveal_strlit(".");
    reveal_strlit(":");
    text::law_decimal_notation((ms % 60_000 / 1000) as nat);
    text::law_decimal_notation((ms / 60_000) as nat);
    assert((48 + ms % 1000 / 100) as char as int == 48 + ms % 1000 / 100);
    assert(t[n - 3] == three_digits((ms % 1000) as nat)[0]);
    assert(t[n - 2] == three_digits((ms % 1000) as nat)[1]);
    assert(t[n - 1] == three_digits((ms % 1000) as nat)[2]);
    if ms < 60_000 {
        assert(t.take(n - 4) =~= text::dec((ms / 1000) as nat));
    } else {
        assert(t.take(n - 7) =~= text::dec((ms / 60_000) as nat));
        assert(ms % 60_000 / 1000 == ms / 1000 % 60);
        assert(t[n - 6] == two_digits((ms % 60_000 / 1000) as nat)[0]);
        assert(t[n - 5] == two_digits((ms % 60_000 / 1000) as nat)[1]);
    }
}

/// A place is its number and two letters: st, nd and rd behind 1, 2 and 3, and
/// th behind any other.
pub proof fn law_place_is_its_number_with_letters(place: u8)
    ensures
        ({
            let t = place_text(place);
            let n = t.len() as int;
            &&& n >= 3
            &&& t.take(n - 2) == text::dec(place as nat)
            &&& t[n - 2] == (if place == 1 {
                's'
            } else if place == 2 {
                'n'
            } else if place == 3 {
                'r'
            } else {
                't'
            })
            &&& t[n - 1] == (if place == 1 {
                't'
            } else if place == 2 || place == 3 {
                'd'
            } else {
                'h'
            })
        }),
{
    reveal_strlit("1st");
    reveal_strlit("2nd");
    reveal_strlit("3rd");
    reveal_strlit("th");
    text::law_decimal_notation(place as nat);
    let t = place_text(place);
    let n = t.len() as int;
    assert(t.take(n - 2) =~= text::dec(place as nat));
}

/// The form for one is taken for a count of 1 only.
pub proof fn law_plural(n: int, one: Seq<char>, many: Seq<char>)
    ensures
        n == 1 ==> plural_text(n, one, many) == one,
        n != 1 ==> plural_text(n, one, many) == many,
{
}

} // verus!
