//! Text as sequences of characters: building log and screen text, and
//! reading the words and numbers an operator types.

use vstd::prelude::*;
use vstd::string::*;
use vstd::utf8::*;

verus! {

/// `String::push` appends the given character to the end of the string.
pub assume_specification[ String::push ](s: &mut String, c: char)
    ensures
        final(s)@ == old(s)@.push(c),
;

/// The decimal digit `d` as a character.
pub open spec fn digit_char(d: nat) -> char {
    (48 + d) as char
}

/// `n` in decimal, without leading zeros.
pub open spec fn dec(n: nat) -> Seq<char>
    decreases n,
{
    if n < 10 {
        seq![digit_char(n)]
    } else {
        dec(n / 10).push(digit_char(n % 10))
    }
}

/// Appends `n` in decimal.
pub fn put_dec(s: &mut String, n: u64)
    ensures
        final(s)@ == old(s)@ + dec(n as nat),
    decreases n,
{
    let ghost before = s@;
    if n < 10 {
        let c: char = (48u8 + n as u8) as char;
        s.push(c);
        assert(s@ =~= before + dec(n as nat));
    } else {
        put_dec(s, n / 10);
        let d: u64 = n % 10;
        let c: char = (48u8 + d as u8) as char;
        s.push(c);
        assert(s@ =~= before + dec(n as nat));
    }
}

/// The characters of a string.
pub fn to_chars(s: &str) -> (r: Vec<char>)
    ensures
        r@ == s@,
{
    let mut out: Vec<char> = Vec::new();
    for c in it: s.chars()
        invariant
            out@ == it.seq().take(it.index()),
            it.seq() == s@,
    {
        out.push(c);
        assert(out@ =~= it.seq().take(it.index() + 1));
    }
    assert(out@ =~= s@);
    out
}

/// A string holding the given characters.
pub fn from_chars(chars: &[char]) -> (r: String)
    ensures
        r@ == chars@,
{
    let mut out: String = String::new();
    let n: usize = chars.len();
    let mut i: usize = 0;
    while i < n
        invariant
            n == chars@.len(),
            i <= n,
            out@ == chars@.take(i as int),
        decreases n - i,
    {
        out.push(chars[i]);
        i = i + 1;
        assert(out@ =~= chars@.take(i as int));
    }
    assert(out@ =~= chars@);
    out
}

/// Lower-case ASCII letters become upper case; other characters stay.
pub open spec fn upper_char(c: char) -> char {
    if 'a' <= c && c <= 'z' {
        (c as u32 - 32) as char
    } else {
        c
    }
}

pub fn to_upper_char(c: char) -> (r: char)
    ensures
        r == upper_char(c),
{
    if 'a' <= c && c <= 'z' {
        (c as u8 - 32) as char
    } else {
        c
    }
}

/// Upper-case ASCII letters become lower case; other characters stay.
pub open spec fn lower_char(c: char) -> char {
    if 'A' <= c && c <= 'Z' {
        (c as u32 + 32) as char
    } else {
        c
    }
}

pub fn to_lower_char(c: char) -> (r: char)
    ensures
        r == lower_char(c),
{
    if 'A' <= c && c <= 'Z' {
        (c as u8 + 32) as char
    } else {
        c
    }
}

/// `s` with its ASCII letters in upper case.
pub open spec fn upper(s: Seq<char>) -> Seq<char> {
    Seq::new(s.len(), |i: int| upper_char(s[i]))
}

/// `s` with its ASCII letters in lower case.
pub open spec fn lower(s: Seq<char>) -> Seq<char> {
    Seq::new(s.len(), |i: int| lower_char(s[i]))
}

pub fn to_upper(s: &[char]) -> (r: Vec<char>)
    ensures
        r@ == upper(s@),
{
    let mut out: Vec<char> = Vec::new();
    let n: usize = s.len();
    let mut i: usize = 0;
    while i < n
        invariant
            n == s@.len(),
            i <= n,
            out@ == upper(s@).take(i as int),
        decreases n - i,
    {
        out.push(to_upper_char(s[i]));
        i = i + 1;
        assert(out@ =~= upper(s@).take(i as int));
    }
    assert(out@ =~= upper(s@));
    out
}

pub fn to_lower(s: &[char]) -> (r: Vec<char>)
    ensures
        r@ == lower(s@),
{
    let mut out: Vec<char> = Vec::new();
    let n: usize = s.len();
    let mut i: usize = 0;
    while i < n
        invariant
            n == s@.len(),
            i <= n,
            out@ == lower(s@).take(i as int),
        decreases n - i,
    {
        out.push(to_lower_char(s[i]));
        i = i + 1;
        assert(out@ =~= lower(s@).take(i as int));
    }
    assert(out@ =~= lower(s@));
    out
}

/// The characters with the Unicode `White_Space` property.
pub open spec fn is_space(c: char) -> bool {
    let u = c as u32;
    ||| 0x09 <= u <= 0x0D
    ||| u == 0x20
    ||| u == 0x85
    ||| u == 0xA0
    ||| u == 0x1680
    ||| 0x2000 <= u <= 0x200A
    ||| u == 0x2028
    ||| u == 0x2029
    ||| u == 0x202F
    ||| u == 0x205F
    ||| u == 0x3000
}

pub fn space(c: char) -> (r: bool)
    ensures
        r == is_space(c),
{
    let u: u32 = c as u32;
    (0x09 <= u && u <= 0x0D) || u == 0x20 || u == 0x85 || u == 0xA0 || u == 0x1680 || (0x2000 <= u
        && u <= 0x200A) || u == 0x2028 || u == 0x2029 || u == 0x202F || u == 0x205F || u == 0x3000
}

/// `s` without its leading white space.
pub open spec fn trim_start(s: Seq<char>) -> Seq<char>
    decreases s.len(),
{
    if s.len() > 0 && is_space(s[0]) {
        trim_start(s.skip(1))
    } else {
        s
    }
}

/// `s` without its trailing white space.
pub open spec fn trim_end(s: Seq<char>) -> Seq<char>
    decreases s.len(),
{
    if s.len() > 0 && is_space(s.last()) {
        trim_end(s.drop_last())
    } else {
        s
    }
}

/// `s` without its leading and trailing white space.
pub open spec fn trimmed(s: Seq<char>) -> Seq<char> {
    trim_end(trim_start(s))
}

/// The number of characters before the first white space.
pub open spec fn word_len(s: Seq<char>) -> nat
    decreases s.len(),
{
    if s.len() > 0 && !is_space(s[0]) {
        1 + word_len(s.skip(1))
    } else {
        0
    }
}

pub proof fn lemma_word_len(s: Seq<char>)
    ensures
        word_len(s) <= s.len(),
        s.len() > 0 && !is_space(s[0]) ==> word_len(s) > 0,
    decreases s.len(),
{
    if s.len() > 0 && !is_space(s[0]) {
        lemma_word_len(s.skip(1));
    }
}

pub proof fn lemma_trim_start_len(s: Seq<char>)
    ensures
        trim_start(s).len() <= s.len(),
        trim_start(s).len() > 0 ==> !is_space(trim_start(s)[0]),
    decreases s.len(),
{
    if s.len() > 0 && is_space(s[0]) {
        lemma_trim_start_len(s.skip(1));
    }
}

/// The words of `s`: the longest runs of characters without white space,
/// in order.
pub open spec fn words(s: Seq<char>) -> Seq<Seq<char>>
    decreases s.len(),
    via words_decreases
{
    let t = trim_start(s);
    if t.len() == 0 {
        Seq::empty()
    } else {
        seq![t.take(word_len(t) as int)] + words(t.skip(word_len(t) as int))
    }
}

#[via_fn]
proof fn words_decreases(s: Seq<char>) {
    lemma_trim_start_len(s);
    lemma_word_len(trim_start(s));
}

/// Index of the first character at or after `from` that is not white space.
fn skip_space(s: &[char], from: usize) -> (r: usize)
    requires
        from <= s@.len(),
    ensures
        from <= r <= s@.len(),
        s@.skip(r as int) == trim_start(s@.skip(from as int)),
{
    let n: usize = s.len();
    let mut i: usize = from;
    while i < n && space(s[i])
        invariant
            n == s@.len(),
            from <= i <= n,
            trim_start(s@.skip(i as int)) == trim_start(s@.skip(from as int)),
        decreases n - i,
    {
        assert(s@.skip(i as int).skip(1) =~= s@.skip(i + 1));
        i = i + 1;
    }
    i
}

/// Index of the first white space at or after `from`.
fn skip_word(s: &[char], from: usize) -> (r: usize)
    requires
        from <= s@.len(),
    ensures
        r == from + word_len(s@.skip(from as int)),
        r <= s@.len(),
{
    let n: usize = s.len();
    let mut i: usize = from;
    while i < n && !space(s[i])
        invariant
            n == s@.len(),
            from <= i <= n,
            word_len(s@.skip(from as int)) == (i - from) + word_len(s@.skip(i as int)),
        decreases n - i,
    {
        assert(s@.skip(i as int).skip(1) =~= s@.skip(i + 1));
        i = i + 1;
    }
    i
}

/// The characters `from..to` of `s`.
pub fn slice_chars(s: &[char], from: usize, to: usize) -> (r: Vec<char>)
    requires
        from <= to <= s@.len(),
    ensures
        r@ == s@.subrange(from as int, to as int),
{
    let mut out: Vec<char> = Vec::new();
    let mut i: usize = from;
    while i < to
        invariant
            from <= i <= to <= s@.len(),
            out@ == s@.subrange(from as int, i as int),
        decreases to - i,
    {
        out.push(s[i]);
        i = i + 1;
        assert(out@ =~= s@.subrange(from as int, i as int));
    }
    out
}

/// `s` without its leading and trailing white space.
pub fn trim(s: &[char]) -> (r: Vec<char>)
    ensures
        r@ == trimmed(s@),
{
    assert(s@.skip(0) =~= s@);
    let from: usize = skip_space(s, 0);
    let ghost t = trim_start(s@);
    let mut to: usize = s.len();
    assert(t =~= s@.subrange(from as int, to as int));
    while from < to && space(s[to - 1])
        invariant
            from <= to <= s@.len(),
            trimmed(s@) == trim_end(s@.subrange(from as int, to as int)),
        decreases to,
    {
        assert(s@.subrange(from as int, to as int).drop_last() =~= s@.subrange(
            from as int,
            to - 1,
        ));
        to = to - 1;
    }
    slice_chars(s, from, to)
}

/// The character sequences that a list of words stands for.
pub open spec fn char_lists(v: Seq<Vec<char>>) -> Seq<Seq<char>> {
    Seq::new(v.len(), |i: int| v[i]@)
}

/// The words of `s`.
pub fn split_words(s: &[char]) -> (r: Vec<Vec<char>>)
    ensures
        char_lists(r@) == words(s@),
{
    let mut out: Vec<Vec<char>> = Vec::new();
    let n: usize = s.len();
    let mut i: usize = 0;
    assert(s@.skip(0) =~= s@);
    assert(char_lists(out@) + words(s@) =~= words(s@));
    loop
        invariant
            n == s@.len(),
            i <= n,
            char_lists(out@) + words(s@.skip(i as int)) == words(s@),
        ensures
            char_lists(out@) == words(s@),
        decreases n - i,
    {
        let a: usize = skip_space(s, i);
        proof {
            lemma_trim_start_len(s@.skip(i as int));
        }
        if a >= n {
            assert(words(s@.skip(i as int)) =~= Seq::<Seq<char>>::empty());
            assert(char_lists(out@) =~= words(s@));
            break;
        }
        let b: usize = skip_word(s, a);
        proof {
            lemma_word_len(s@.skip(a as int));
        }
        let w: Vec<char> = slice_chars(s, a, b);
        let ghost t = s@.skip(a as int);
        let ghost before = out@;
        assert(w@ =~= t.take(word_len(t) as int));
        assert(t.skip(word_len(t) as int) =~= s@.skip(b as int));
        out.push(w);
        assert(char_lists(out@) =~= char_lists(before) + seq![t.take(word_len(t) as int)]);
        assert(words(s@.skip(i as int)) == seq![t.take(word_len(t) as int)] + words(
            s@.skip(b as int),
        ));
        assert(char_lists(out@) + words(s@.skip(b as int)) =~= char_lists(before) + words(
            s@.skip(i as int),
        ));
        i = b;
    }
    out
}

/// Whether the characters are those of `t`.
pub fn same_text(s: &[char], t: &str) -> (r: bool)
    ensures
        r == (s@ == t@),
{
    let u: Vec<char> = to_chars(t);
    same_chars(s, u.as_slice())
}

/// Whether two character slices are equal.
pub fn same_chars(s: &[char], t: &[char]) -> (r: bool)
    ensures
        r == (s@ == t@),
{
    let n: usize = s.len();
    if n != t.len() {
        return false;
    }
    let mut i: usize = 0;
    while i < n
        invariant
            n == s@.len(),
            n == t@.len(),
            i <= n,
            forall|j: int| 0 <= j < i ==> s@[j] == t@[j],
        decreases n - i,
    {
        if s[i] != t[i] {
            return false;
        }
        i = i + 1;
    }
    assert(s@ =~= t@);
    true
}

/// Whether `sub` occurs in `s`.
pub open spec fn contains_text(s: Seq<char>, sub: Seq<char>) -> bool {
    exists|i: int|
        0 <= i <= s.len() - sub.len() && #[trigger] s.subrange(i, i + sub.len()) == sub
}

/// Whether `sub` occurs in `s`.
pub fn has_text(s: &[char], sub: &str) -> (r: bool)
    ensures
        r == contains_text(s@, sub@),
{
    let u: Vec<char> = to_chars(sub);
    let n: usize = s.len();
    let m: usize = u.len();
    if m > n {
        return false;
    }
    let mut i: usize = 0;
    while i <= n - m
        invariant
            n == s@.len(),
            m == u@.len(),
            m <= n,
            u@ == sub@,
            i <= n - m + 1,
            forall|k: int| 0 <= k < i ==> #[trigger] s@.subrange(k, k + m) != sub@,
        decreases n - m + 1 - i,
    {
        let w: Vec<char> = slice_chars(s, i, i + m);
        if same_chars(w.as_slice(), u.as_slice()) {
            assert(s@.subrange(i as int, i + m) == sub@);
            return true;
        }
        if i == n - m {
            assert forall|k: int| 0 <= k <= n - m implies #[trigger] s@.subrange(k, k + m)
                != sub@ by {}
            return false;
        }
        i = i + 1;
    }
    false
}

pub open spec fn is_digit(c: char) -> bool {
    '0' <= c && c <= '9'
}

/// Value of a run of decimal digits.
pub open spec fn digits_value(s: Seq<char>) -> nat
    decreases s.len(),
{
    if s.len() == 0 {
        0
    } else {
        digits_value(s.drop_last()) * 10 + (s.last() as u32 - 48) as nat
    }
}

pub open spec fn all_digits(s: Seq<char>) -> bool {
    s.len() > 0 && forall|i: int| 0 <= i < s.len() ==> is_digit(#[trigger] s[i])
}

/// The unsigned number that `s` spells, at most `max`: one or more decimal
/// digits, after an optional `+`.
pub open spec fn number(s: Seq<char>, max: nat) -> Option<nat> {
    let d = if s.len() > 0 && s[0] == '+' {
        s.skip(1)
    } else {
        s
    };
    if all_digits(d) && digits_value(d) <= max {
        Some(digits_value(d))
    } else {
        None
    }
}

proof fn lemma_digits_value_prefix(s: Seq<char>, k: int)
    requires
        0 <= k <= s.len(),
        forall|i: int| 0 <= i < s.len() ==> is_digit(#[trigger] s[i]),
    ensures
        digits_value(s.take(k)) <= digits_value(s),
    decreases s.len() - k,
{
    if k < s.len() {
        lemma_digits_value_prefix(s, k + 1);
        assert(s.take(k + 1).drop_last() =~= s.take(k));
        assert(is_digit(s[k]));
    } else {
        assert(s.take(k) =~= s);
    }
}

/// Reads an unsigned number of at most `max`.
pub fn parse_number(s: &[char], max: u64) -> (r: Option<u64>)
    ensures
        match r {
            Some(v) => number(s@, max as nat) == Some(v as nat),
            None => number(s@, max as nat) is None,
        },
{
    let n: usize = s.len();
    let start: usize = if n > 0 && s[0] == '+' {
        1
    } else {
        0
    };
    let ghost d = s@.skip(start as int);
    assert(start == 0 ==> d =~= s@);
    if start == n {
        return None;
    }
    let mut acc: u64 = 0;
    let mut i: usize = start;
    while i < n
        invariant
            n == s@.len(),
            start <= i <= n,
            start < n,
            d == s@.skip(start as int),
            d == (if s@.len() > 0 && s@[0] == '+' {
                s@.skip(1)
            } else {
                s@
            }),
            forall|j: int| 0 <= j < i - start ==> is_digit(#[trigger] d[j]),
            acc as nat == digits_value(d.take(i - start)),
            acc <= max,
        decreases n - i,
    {
        let c: char = s[i];
        assert(c == d[i - start]);
        if !('0' <= c && c <= '9') {
            assert(!all_digits(d));
            return None;
        }
        let v: u64 = (c as u32 - 48) as u64;
        assert(d.take(i - start + 1).drop_last() =~= d.take(i - start));
        let ghost next = digits_value(d.take(i - start + 1));
        assert(next == acc as nat * 10 + v);
        if acc > (u64::MAX - v) / 10 || acc * 10 + v > max {
            assert(next > max);
            assert(number(s@, max as nat) is None) by {
                if all_digits(d) {
                    lemma_digits_value_prefix(d, i - start + 1);
                }
            }
            return None;
        }
        acc = acc * 10 + v;
        i = i + 1;
    }
    assert(d.take(n - start) =~= d);
    Some(acc)
}

/// The `u8` that `s` spells.
pub open spec fn u8_of(s: Seq<char>) -> Option<u8> {
    match number(s, u8::MAX as nat) {
        Some(v) => Some(v as u8),
        None => None,
    }
}

pub fn parse_u8(s: &[char]) -> (r: Option<u8>)
    ensures
        r == u8_of(s@),
{
    match parse_number(s, u8::MAX as u64) {
        Some(v) => Some(v as u8),
        None => None,
    }
}

/// The `u16` that `s` spells.
pub open spec fn u16_of(s: Seq<char>) -> Option<u16> {
    match number(s, u16::MAX as nat) {
        Some(v) => Some(v as u16),
        None => None,
    }
}

pub fn parse_u16(s: &[char]) -> (r: Option<u16>)
    ensures
        r == u16_of(s@),
{
    match parse_number(s, u16::MAX as u64) {
        Some(v) => Some(v as u16),
        None => None,
    }
}

/// The `usize` that `s` spells.
pub open spec fn usize_of(s: Seq<char>) -> Option<usize> {
    match number(s, usize::MAX as nat) {
        Some(v) => Some(v as usize),
        None => None,
    }
}

pub fn parse_usize(s: &[char]) -> (r: Option<usize>)
    ensures
        r == usize_of(s@),
{
    match parse_number(s, usize::MAX as u64) {
        Some(v) => Some(v as usize),
        None => None,
    }
}

/// `n` copies of `c`.
pub open spec fn repeated(c: char, n: int) -> Seq<char> {
    Seq::new(
        if n > 0 {
            n as nat
        } else {
            0
        },
        |i: int| c,
    )
}

/// `s` behind enough blanks to fill `width` characters.
pub open spec fn pad_left(s: Seq<char>, width: int) -> Seq<char> {
    repeated(' ', width - s.len()) + s
}

/// `s` followed by enough blanks to fill `width` characters.
pub open spec fn pad_right(s: Seq<char>, width: int) -> Seq<char> {
    s + repeated(' ', width - s.len())
}

/// Appends `n` copies of `c`.
pub fn put_repeated(s: &mut String, c: char, n: usize)
    ensures
        final(s)@ == old(s)@ + repeated(c, n as int),
{
    let ghost before = s@;
    let mut i: usize = 0;
    assert(s@ =~= before + repeated(c, 0));
    while i < n
        invariant
            i <= n,
            s@ == before + repeated(c, i as int),
        decreases n - i,
    {
        s.push(c);
        i = i + 1;
        assert(s@ =~= before + repeated(c, i as int));
    }
}

/// Appends `t` behind enough blanks to fill `width` characters.
pub fn put_pad_left(s: &mut String, t: &str, width: usize)
    ensures
        final(s)@ == old(s)@ + pad_left(t@, width as int),
{
    let ghost before = s@;
    let n: usize = t.unicode_len();
    if n < width {
        put_repeated(s, ' ', width - n);
    }
    s.append(t);
    assert(s@ =~= before + pad_left(t@, width as int));
}

/// Appends `t` and enough blanks to fill `width` characters.
pub fn put_pad_right(s: &mut String, t: &str, width: usize)
    ensures
        final(s)@ == old(s)@ + pad_right(t@, width as int),
{
    let ghost before = s@;
    let n: usize = t.unicode_len();
    s.append(t);
    if n < width {
        put_repeated(s, ' ', width - n);
    }
    assert(s@ =~= before + pad_right(t@, width as int));
}

/// `n` in decimal.
pub fn dec_string(n: u64) -> (r: String)
    ensures
        r@ == dec(n as nat),
{
    let mut s: String = String::new();
    put_dec(&mut s, n);
    assert(s@ =~= dec(n as nat));
    s
}

/// Appends `n` in decimal behind enough blanks to fill `width` characters.
pub fn put_dec_left(s: &mut String, n: u64, width: usize)
    ensures
        final(s)@ == old(s)@ + pad_left(dec(n as nat), width as int),
{
    let t: String = dec_string(n);
    put_pad_left(s, t.as_str(), width);
}

/// The words joined by single blanks.
pub open spec fn joined(ws: Seq<Seq<char>>) -> Seq<char>
    decreases ws.len(),
{
    if ws.len() == 0 {
        Seq::empty()
    } else if ws.len() == 1 {
        ws[0]
    } else {
        joined(ws.drop_last()) + " "@ + ws.last()
    }
}

/// The words from index `from` on, joined by single blanks.
pub fn join_words(ws: &Vec<Vec<char>>, from: usize) -> (r: String)
    requires
        from <= ws@.len(),
    ensures
        r@ == joined(char_lists(ws@).skip(from as int)),
{
    let ghost all = char_lists(ws@).skip(from as int);
    let n: usize = ws.len();
    let mut out: String = String::new();
    let mut i: usize = from;
    assert(all.take(0) =~= Seq::<Seq<char>>::empty());
    while i < n
        invariant
            n == ws@.len(),
            from <= i <= n,
            all == char_lists(ws@).skip(from as int),
            out@ == joined(all.take(i - from)),
        decreases n - i,
    {
        let ghost k = i - from;
        assert(all.take(k + 1).drop_last() =~= all.take(k));
        assert(all.take(k + 1).last() == ws@[i as int]@);
        let w: String = from_chars(ws[i].as_slice());
        if i > from {
            out.append(" ");
            out.append(w.as_str());
        } else {
            out = w;
        }
        i = i + 1;
    }
    assert(all.take(n - from) =~= all);
    out
}

/// What a list of texts holds.
pub open spec fn texts(v: Seq<String>) -> Seq<Seq<char>> {
    Seq::new(v.len(), |i: int| v[i]@)
}

/// What adding one text to a list does.
pub proof fn lemma_texts_push(v: Seq<String>, s: String)
    ensures
        texts(v.push(s)) == texts(v).push(s@),
{
    assert(texts(v.push(s)) =~= texts(v).push(s@));
}

/// Adds one text to a list.
pub fn put_line(v: &mut Vec<String>, s: String)
    ensures
        texts(final(v)@) == texts(old(v)@).push(s@),
{
    proof {
        lemma_texts_push(v@, s);
    }
    v.push(s);
}

/// Number of characters before the first line break.
pub open spec fn line_len(s: Seq<char>) -> nat
    decreases s.len(),
{
    if s.len() > 0 && s[0] != '\n' {
        1 + line_len(s.skip(1))
    } else {
        0
    }
}

proof fn lemma_line_len(s: Seq<char>)
    ensures
        line_len(s) <= s.len(),
    decreases s.len(),
{
    if s.len() > 0 && s[0] != '\n' {
        lemma_line_len(s.skip(1));
    }
}

/// The parts of a text between its line breaks.
pub open spec fn line_parts(s: Seq<char>) -> Seq<Seq<char>>
    decreases s.len(),
{
    if line_len(s) >= s.len() {
        seq![s]
    } else {
        seq![s.take(line_len(s) as int)] + line_parts(s.skip(line_len(s) as int + 1))
    }
}

/// Adds the parts of a text between its line breaks to a list.
pub fn put_line_parts(parts: &mut Vec<String>, s: &str)
    ensures
        texts(final(parts)@) == texts(old(parts)@) + line_parts(s@),
{
    let chars: Vec<char> = to_chars(s);
    let ghost before = texts(parts@);
    let n: usize = chars.len();
    let mut from: usize = 0;
    let mut i: usize = 0;
    assert(chars@.skip(0) =~= chars@);
    assert(before + (Seq::<Seq<char>>::empty() + line_parts(chars@)) =~= before + line_parts(
        chars@,
    ));
    while i < n
        invariant
            n == chars@.len(),
            from <= i <= n,
            line_len(chars@.skip(from as int)) == (i - from) + line_len(chars@.skip(i as int)),
            before + line_parts(chars@) == texts(parts@) + line_parts(chars@.skip(from as int)),
        decreases n - i,
    {
        let ghost rest = chars@.skip(from as int);
        let ghost here = chars@.skip(i as int);
        if chars[i] == '\n' {
            assert(line_len(here) == 0);
            let part: Vec<char> = slice_chars(chars.as_slice(), from, i);
            assert(part@ =~= rest.take(i - from));
            assert(rest.skip(i - from + 1) =~= chars@.skip(i + 1));
            let ghost held = texts(parts@);
            put_line(parts, from_chars(part.as_slice()));
            assert(held + line_parts(rest) =~= held.push(part@) + line_parts(chars@.skip(i + 1)));
            i = i + 1;
            from = i;
        } else {
            assert(here.skip(1) =~= chars@.skip(i + 1));
            i = i + 1;
        }
    }
    assert(chars@.skip(n as int).len() == 0);
    let last: Vec<char> = slice_chars(chars.as_slice(), from, n);
    assert(last@ =~= chars@.skip(from as int));
    let ghost held = texts(parts@);
    put_line(parts, from_chars(last.as_slice()));
    assert(held + line_parts(last@) =~= held.push(last@));
}

/// Whether a text holds no white space.
pub open spec fn one_word(s: Seq<char>) -> bool {
    s.len() > 0 && forall|i: int| 0 <= i < s.len() ==> !is_space(#[trigger] s[i])
}

/// The length of the first word of a text that is one.
proof fn lemma_word_len_one(s: Seq<char>)
    requires
        forall|i: int| 0 <= i < s.len() ==> !is_space(#[trigger] s[i]),
    ensures
        word_len(s) == s.len(),
    decreases s.len(),
{
    if s.len() > 0 {
        assert forall|i: int| 0 <= i < s.skip(1).len() implies !is_space(#[trigger] s.skip(1)[i]) by {
            assert(s.skip(1)[i] == s[i + 1]);
        }
        lemma_word_len_one(s.skip(1));
    }
}

/// A text without white space is its own trimmed text and its only word.
pub proof fn lemma_one_word(s: Seq<char>)
    requires
        one_word(s),
    ensures
        trimmed(s) == s,
        words(s) == seq![s],
{
    lemma_word_len_one(s);
    assert(!is_space(s[0]));
    assert(trim_start(s) == s);
    let rest = s.skip(word_len(s) as int);
    assert(rest.len() == 0);
    assert(trim_start(rest).len() == 0);
    assert(words(rest) =~= Seq::<Seq<char>>::empty());
    assert(s.take(word_len(s) as int) =~= s);
    assert(words(s) =~= seq![s]);
}

/// Length of a text in bytes.
pub open spec fn byte_len(s: Seq<char>) -> nat {
    encode_utf8(s).len()
}

/// Whether byte `i` of a text is the first of a character, or its end.
pub open spec fn at_boundary(s: Seq<char>, i: int) -> bool {
    is_char_boundary(encode_utf8(s), i)
}

/// The first `i` bytes of a text.
pub open spec fn head_bytes(s: Seq<char>, i: int) -> Seq<char> {
    decode_utf8(encode_utf8(s).take(i))
}

/// What follows the first `i` bytes of a text.
pub open spec fn tail_bytes(s: Seq<char>, i: int) -> Seq<char> {
    decode_utf8(encode_utf8(s).skip(i))
}

pub fn bytes_in(s: &str) -> (r: usize)
    ensures
        r == byte_len(s@),
{
    s.as_bytes().len()
}

pub fn is_boundary(s: &str, i: usize) -> (r: bool)
    ensures
        r == at_boundary(s@, i as int),
{
    s.is_char_boundary(i)
}

/// Cuts a text after `i` bytes.
pub fn cut(s: &str, i: usize) -> (r: (String, String))
    requires
        at_boundary(s@, i as int),
    ensures
        r.0@ == head_bytes(s@, i as int),
        r.1@ == tail_bytes(s@, i as int),
{
    let (a, b) = s.split_at(i);
    proof {
        lemma_boundary_in_text(s@, i as int);
        encode_utf8_decode_utf8(a@);
        encode_utf8_decode_utf8(b@);
        assert(encode_utf8(s@).take(i as int) =~= encode_utf8(a@));
        assert(encode_utf8(s@).skip(i as int) =~= encode_utf8(b@));
    }
    (String::from_str(a), String::from_str(b))
}

proof fn lemma_boundary_in_bytes(b: Seq<u8>, i: int)
    requires
        valid_utf8(b),
        is_char_boundary(b, i),
    ensures
        0 <= i <= b.len(),
    decreases b.len(),
{
}

/// A boundary lies in the text.
pub proof fn lemma_boundary_in_text(s: Seq<char>, i: int)
    requires
        at_boundary(s, i),
    ensures
        0 <= i <= byte_len(s),
{
    encode_utf8_valid_utf8(s);
    lemma_boundary_in_bytes(encode_utf8(s), i);
}

/// The two parts of a text that is cut at a boundary make up the text, and
/// have the lengths at which it was cut.
pub proof fn law_cut_keeps_the_text(s: Seq<char>, i: int)
    requires
        at_boundary(s, i),
    ensures
        head_bytes(s, i) + tail_bytes(s, i) == s,
        byte_len(head_bytes(s, i)) == i,
        byte_len(tail_bytes(s, i)) == byte_len(s) - i,
{
    let b = encode_utf8(s);
    encode_utf8_valid_utf8(s);
    lemma_boundary_in_text(s, i);
    encode_utf8_decode_utf8(s);
    assert(b.take(i) =~= b.subrange(0, i));
    assert(b.skip(i) =~= b.subrange(i, b.len() as int));
    valid_utf8_split(b, i);
    decode_utf8_split(b, i);
    decode_utf8_encode_utf8(b.subrange(0, i));
    decode_utf8_encode_utf8(b.subrange(i, b.len() as int));
}

/// The bytes of two texts in a row.
pub proof fn lemma_encode_concat(a: Seq<char>, b: Seq<char>)
    ensures
        encode_utf8(a + b) == encode_utf8(a) + encode_utf8(b),
    decreases a.len(),
{
    if a.len() == 0 {
        assert(a + b =~= b);
        assert(encode_utf8(a) =~= Seq::<u8>::empty());
        assert(encode_utf8(a) + encode_utf8(b) =~= encode_utf8(b));
    } else {
        assert((a + b)[0] == a[0]);
        assert((a + b).drop_first() =~= a.drop_first() + b);
        lemma_encode_concat(a.drop_first(), b);
        assert(encode_utf8(a + b) =~= encode_utf8(a) + encode_utf8(b));
    }
}

/// A character takes at least one byte, an ASCII character just one.
pub proof fn lemma_char_bytes(c: char)
    ensures
        byte_len(seq![c]) >= 1,
        (c as u32) < 128 ==> byte_len(seq![c]) == 1,
{
    let s = seq![c];
    assert(s.drop_first() =~= Seq::<char>::empty());
    assert(encode_utf8(s.drop_first()) =~= Seq::<u8>::empty());
    char_is_scalar(c);
}

/// The end of the first part of a text is a boundary, and the text is cut there
/// into its parts.
pub proof fn law_parts_are_cut_apart(a: Seq<char>, b: Seq<char>)
    ensures
        at_boundary(a + b, byte_len(a) as int),
        head_bytes(a + b, byte_len(a) as int) == a,
        tail_bytes(a + b, byte_len(a) as int) == b,
{
    lemma_encode_concat(a, b);
    let e = encode_utf8(a) + encode_utf8(b);
    let i = byte_len(a) as int;
    assert(e.take(i) =~= encode_utf8(a));
    assert(e.skip(i) =~= encode_utf8(b));
    encode_utf8_decode_utf8(a);
    encode_utf8_decode_utf8(b);
    encode_utf8_valid_utf8(a + b);
    encode_utf8_valid_utf8(b);
    if encode_utf8(b).len() == 0 {
        assert(e =~= encode_utf8(a));
        is_char_boundary_start_end_of_seq(e);
    } else {
        assert(e[i] == encode_utf8(b)[0]);
        is_char_boundary_start_end_of_seq(encode_utf8(b));
        is_char_boundary_iff_not_is_continuation_byte(encode_utf8(b), 0);
        is_char_boundary_iff_not_is_continuation_byte(e, i);
    }
}

/// A number written in decimal is read back as the same number.
pub proof fn law_number_reads_dec(n: nat, max: nat)
    requires
        n <= max,
    ensures
        number(dec(n), max) == Some(n),
{
    lemma_dec_digits(n);
    assert(is_digit(dec(n)[0]));
}

pub proof fn lemma_dec_digits(n: nat)
    ensures
        all_digits(dec(n)),
        digits_value(dec(n)) == n,
    decreases n,
{
    if n < 10 {
        assert(dec(n).drop_last() =~= Seq::<char>::empty());
        assert(digits_value(dec(n).drop_last()) == 0);
        assert(dec(n).last() as u32 == 48 + n);
    } else {
        lemma_dec_digits(n / 10);
        assert(dec(n).drop_last() =~= dec(n / 10));
        assert(dec(n).last() as u32 == 48 + n % 10);
        assert forall|i: int| 0 <= i < dec(n).len() implies is_digit(#[trigger] dec(n)[i]) by {
            if i < dec(n / 10).len() {
                assert(dec(n)[i] == dec(n / 10)[i]);
            }
        }
    }
}

/// Decimal notation: a number below ten is one digit, and a larger one is its
/// tenth, rounded down, followed by the digit of its ones.
pub proof fn law_decimal_notation(n: nat)
    ensures
        n < 10 ==> dec(n).len() == 1,
        dec(n).len() > 0,
        dec(n).last() as int == 48 + n % 10,
        n >= 10 ==> dec(n).drop_last() == dec(n / 10),
{
    if n >= 10 {
        assert(dec(n).drop_last() =~= dec(n / 10));
    }
}

/// White space of the ASCII range is the blank, the tab, the line breaks and
/// the two feeds; beyond it, the spaces and separators of Unicode.
pub proof fn law_white_space(c: char)
    ensures
        (c as int) < 128 ==> (is_space(c) <==> c == ' ' || 9 <= c as int <= 13),
        128 <= c as int ==> (is_space(c) <==> c as int == 0x85 || c as int == 0xA0 || c as int
            == 0x1680 || 0x2000 <= c as int <= 0x200A || c as int == 0x2028 || c as int == 0x2029
            || c as int == 0x202F || c as int == 0x205F || c as int == 0x3000),
{
}

/// Changing the case moves the 26 letters of the ASCII range by 32 and leaves
/// every other character, and the length, as they are.
pub proof fn law_case_of_letters(s: Seq<char>, i: int)
    requires
        0 <= i < s.len(),
    ensures
        upper(s).len() == s.len(),
        lower(s).len() == s.len(),
        97 <= s[i] as int <= 122 ==> upper(s)[i] as int == s[i] as int - 32 && lower(s)[i] == s[i],
        65 <= s[i] as int <= 90 ==> lower(s)[i] as int == s[i] as int + 32 && upper(s)[i] == s[i],
        !(97 <= s[i] as int <= 122) && !(65 <= s[i] as int <= 90) ==> upper(s)[i] == s[i]
            && lower(s)[i] == s[i],
{
}

/// A text without its outer white space is a part of the text with nothing but
/// white space before and behind it, and has none at its own ends.
pub proof fn law_trimmed_text(s: Seq<char>) -> (r: (int, int))
    ensures
        0 <= r.0 <= r.1 <= s.len(),
        trimmed(s) == s.subrange(r.0, r.1),
        forall|i: int| 0 <= i < r.0 ==> is_space(#[trigger] s[i]),
        forall|i: int| r.1 <= i < s.len() ==> is_space(#[trigger] s[i]),
        r.0 < r.1 ==> !is_space(s[r.0]) && !is_space(s[r.1 - 1]),
{
    let a = trim_start(s);
    let from = s.len() - a.len();
    let to = from + trimmed(s).len();
    lemma_trim_start_part(s);
    lemma_trim_end_part(a);
    lemma_trim_start_len(s);
    lemma_trim_end_last(a);
    assert(trimmed(s) =~= s.subrange(from, to));
    assert forall|i: int| to <= i < s.len() implies is_space(#[trigger] s[i]) by {
        assert(s[i] == a[i - from]);
    }
    (from, to)
}

pub proof fn lemma_trim_start_part(s: Seq<char>)
    ensures
        trim_start(s).len() <= s.len(),
        trim_start(s) == s.skip(s.len() - trim_start(s).len()),
        forall|i: int| 0 <= i < s.len() - trim_start(s).len() ==> is_space(#[trigger] s[i]),
    decreases s.len(),
{
    let n = s.len() - trim_start(s).len();
    if s.len() > 0 && is_space(s[0]) {
        let rest = s.skip(1);
        lemma_trim_start_part(rest);
        assert(trim_start(s) =~= s.skip(n));
        assert forall|i: int| 0 <= i < n implies is_space(#[trigger] s[i]) by {
            if i > 0 {
                assert(is_space(rest[i - 1]));
            }
        }
    } else {
        assert(s.skip(0) =~= s);
    }
}

pub proof fn lemma_trim_end_part(s: Seq<char>)
    ensures
        trim_end(s).len() <= s.len(),
        trim_end(s) == s.take(trim_end(s).len() as int),
        forall|i: int| trim_end(s).len() <= i < s.len() ==> is_space(#[trigger] s[i]),
    decreases s.len(),
{
    let n = trim_end(s).len();
    if s.len() > 0 && is_space(s.last()) {
        let rest = s.drop_last();
        lemma_trim_end_part(rest);
        assert(trim_end(s) =~= s.take(n as int));
        assert forall|i: int| n <= i < s.len() implies is_space(#[trigger] s[i]) by {
            if i < s.len() - 1 {
                assert(is_space(rest[i]));
            }
        }
    } else {
        assert(s.take(s.len() as int) =~= s);
    }
}

proof fn lemma_trim_end_last(s: Seq<char>)
    ensures
        trim_end(s).len() > 0 ==> !is_space(trim_end(s).last()),
    decreases s.len(),
{
    if s.len() > 0 && is_space(s.last()) {
        lemma_trim_end_last(s.drop_last());
    }
}

proof fn lemma_word_len_before_space(a: Seq<char>, c: char, b: Seq<char>)
    requires
        is_space(c),
    ensures
        word_len(a + seq![c] + b) == word_len(a),
    decreases a.len(),
{
    let s = a + seq![c] + b;
    if a.len() > 0 {
        assert(s[0] == a[0]);
        assert(s.skip(1) =~= a.skip(1) + seq![c] + b);
        lemma_word_len_before_space(a.skip(1), c, b);
    } else {
        assert(s[0] == c);
    }
}

/// The words of two texts with white space between them are the words of the
/// first and then those of the second.
pub proof fn law_white_space_parts_words(a: Seq<char>, c: char, b: Seq<char>)
    requires
        is_space(c),
    ensures
        words(a + seq![c] + b) == words(a) + words(b),
    decreases a.len(),
{
    let s = a + seq![c] + b;
    if a.len() == 0 {
        assert(s[0] == c);
        assert(s.skip(1) =~= b);
        assert(trim_start(s) == trim_start(b));
        assert(words(s) == words(b));
        assert(words(a) =~= Seq::<Seq<char>>::empty());
        assert(words(a) + words(b) =~= words(b));
    } else if is_space(a[0]) {
        assert(s[0] == a[0]);
        assert(s.skip(1) =~= a.skip(1) + seq![c] + b);
        law_white_space_parts_words(a.skip(1), c, b);
        assert(trim_start(s) == trim_start(s.skip(1)));
        assert(words(s) == words(s.skip(1)));
        assert(trim_start(a) == trim_start(a.skip(1)));
        assert(words(a) == words(a.skip(1)));
    } else {
        assert(s[0] == a[0]);
        let n = word_len(a) as int;
        lemma_word_len(a);
        lemma_word_len_before_space(a, c, b);
        assert(s.take(n) =~= a.take(n));
        assert(s.skip(n) =~= a.skip(n) + seq![c] + b);
        law_white_space_parts_words(a.skip(n), c, b);
        assert(words(s) =~= seq![a.take(n)] + (words(a.skip(n)) + words(b)));
        assert(words(s) =~= words(a) + words(b));
    }
}

/// A text without white space is one word, and white space alone is none.
pub proof fn law_unbroken_text_is_one_word(s: Seq<char>)
    ensures
        s.len() > 0 && (forall|i: int| 0 <= i < s.len() ==> !is_space(#[trigger] s[i])) ==> words(s)
            == seq![s],
        (forall|i: int| 0 <= i < s.len() ==> is_space(#[trigger] s[i])) ==> words(s).len() == 0,
{
    if one_word(s) {
        lemma_one_word(s);
    }
    if forall|i: int| 0 <= i < s.len() ==> is_space(#[trigger] s[i]) {
        lemma_trim_start_len(s);
        lemma_trim_start_part(s);
        let t = trim_start(s);
        if t.len() > 0 {
            assert(t[0] == s[s.len() - t.len()]);
        }
    }
}

/// A number is read digit by digit: behind a number that is read, one more digit
/// multiplies it by ten and adds the digit. A single digit is itself, a plus in
/// front of digits does not matter, and no number is read above its bound.
pub proof fn law_digits_are_read(s: Seq<char>, c: char, max: nat)
    requires
        48 <= c as int <= 57,
    ensures
        number(seq![c], max) == (if c as int - 48 <= max {
            Some((c as int - 48) as nat)
        } else {
            None
        }),
        s.len() > 0 ==> match number(s, max) {
            Some(n) => number(s.push(c), max) == (if n * 10 + (c as int - 48) <= max {
                Some((n * 10 + (c as int - 48)) as nat)
            } else {
                None
            }),
            None => number(s.push(c), max) is Some ==> s == seq!['+'],
        },
        number(s, max) matches Some(n) ==> n <= max,
        s.len() > 0 && s[0] != '+' ==> number(seq!['+'] + s, max) == number(s, max),
{
    let one = seq![c];
    assert(one.drop_last() =~= Seq::<char>::empty());
    assert(digits_value(one.drop_last()) == 0);
    assert(digits_value(one) == c as int - 48);
    assert(is_digit(c));
    if s.len() > 0 {
        let plus = s[0] == '+';
        let d = if plus {
            s.skip(1)
        } else {
            s
        };
        let t = s.push(c);
        let e = if plus {
            t.skip(1)
        } else {
            t
        };
        assert(e =~= d.push(c));
        assert(e.drop_last() =~= d);
        assert(e.last() == c);
        assert(digits_value(e) == digits_value(d) * 10 + (c as int - 48));
        if d.len() > 0 {
            assert(all_digits(e) <==> all_digits(d)) by {
                if all_digits(e) {
                    assert forall|i: int| 0 <= i < d.len() implies is_digit(#[trigger] d[i]) by {
                        assert(e[i] == d[i]);
                    }
                }
                if all_digits(d) {
                    assert forall|i: int| 0 <= i < e.len() implies is_digit(#[trigger] e[i]) by {
                        if i < d.len() {
                            assert(d[i] == e[i]);
                        }
                    }
                }
            }
        } else {
            assert(s =~= seq!['+']);
        }
        let p = seq!['+'] + s;
        assert(p.skip(1) =~= s);
    }
}

/// A text with a character that is no digit is no number, except for a plus in
/// front; nor is the empty text, or a plus alone.
pub proof fn law_other_characters_are_no_number(s: Seq<char>, i: int, max: nat)
    ensures
        0 <= i < s.len() && !(48 <= s[i] as int <= 57) && !(i == 0 && s[0] == '+') ==> number(s, max)
            is None,
        s.len() == 0 || s == seq!['+'] ==> number(s, max) is None,
{
    if 0 <= i < s.len() && !(48 <= s[i] as int <= 57) && !(i == 0 && s[0] == '+') {
        assert(!is_digit(s[i]));
        if s[0] == '+' {
            assert(s.skip(1)[i - 1] == s[i]);
        }
    }
    if s == seq!['+'] {
        assert(s.skip(1).len() == 0);
    }
}

/// Numbers for a byte, two bytes and a word are read up to their largest values.
pub proof fn law_number_bounds(s: Seq<char>)
    ensures
        u8_of(s) is Some <==> number(s, 255) is Some,
        u8_of(s) matches Some(n) ==> number(s, 255) == Some(n as nat),
        u16_of(s) is Some <==> number(s, 65_535) is Some,
        u16_of(s) matches Some(n) ==> number(s, 65_535) == Some(n as nat),
        usize_of(s) is Some <==> number(s, usize::MAX as nat) is Some,
        usize_of(s) matches Some(n) ==> number(s, usize::MAX as nat) == Some(n as nat),
{
}

/// A text that is padded to a width ends, or begins, with the text, is filled
/// with blanks, and is no longer than the width or the text.
pub proof fn law_padding_fills_with_blanks(s: Seq<char>, width: int, i: int)
    ensures
        pad_left(s, width).len() == (if width > s.len() {
            width
        } else {
            s.len() as int
        }),
        pad_right(s, width).len() == pad_left(s, width).len(),
        pad_left(s, width).skip(pad_left(s, width).len() - s.len()) == s,
        pad_right(s, width).take(s.len() as int) == s,
        0 <= i < pad_left(s, width).len() - s.len() ==> pad_left(s, width)[i] == ' ',
        s.len() <= i < pad_right(s, width).len() ==> pad_right(s, width)[i] == ' ',
{
    assert(pad_left(s, width).skip(pad_left(s, width).len() - s.len()) =~= s);
    assert(pad_right(s, width).take(s.len() as int) =~= s);
}

/// Joining words puts one blank between two of them.
pub proof fn law_joined_words(ws: Seq<Seq<char>>, w: Seq<char>)
    ensures
        joined(seq![w]) == w,
        ws.len() > 0 ==> joined(ws.push(w)) == joined(ws) + seq![' '] + w,
{
    reveal_strlit(" ");
    assert(" "@ =~= seq![' ']);
    if ws.len() > 0 {
        assert(ws.push(w).drop_last() =~= ws);
    }
}

/// A text without a line break is one part, and a line break parts a text into
/// what stands before it and the parts behind it.
pub proof fn law_line_breaks_part_texts(a: Seq<char>, b: Seq<char>)
    requires
        forall|i: int| 0 <= i < a.len() ==> #[trigger] a[i] != '\n',
    ensures
        line_parts(a) == seq![a],
        line_parts(a + seq!['\n'] + b) == seq![a] + line_parts(b),
{
    lemma_line_len_unbroken(a, Seq::empty());
    assert(a + Seq::<char>::empty() =~= a);
    let s = a + seq!['\n'] + b;
    lemma_line_len_unbroken(a, seq!['\n'] + b);
    assert(a + (seq!['\n'] + b) =~= s);
    assert((seq!['\n'] + b)[0] == '\n');
    assert(line_len(s) == a.len());
    assert(s.take(a.len() as int) =~= a);
    assert(s.skip(a.len() as int + 1) =~= b);
}

proof fn lemma_line_len_unbroken(a: Seq<char>, b: Seq<char>)
    requires
        forall|i: int| 0 <= i < a.len() ==> #[trigger] a[i] != '\n',
    ensures
        line_len(a + b) == a.len() + line_len(b),
    decreases a.len(),
{
    if a.len() > 0 {
        assert((a + b)[0] == a[0]);
        assert((a + b).skip(1) =~= a.skip(1) + b);
        assert forall|i: int| 0 <= i < a.skip(1).len() implies #[trigger] a.skip(1)[i] != '\n' by {
            assert(a.skip(1)[i] == a[i + 1]);
        }
        lemma_line_len_unbroken(a.skip(1), b);
    } else {
        assert(a + b =~= b);
    }
}

/// White space that is added before and behind a text is trimmed away.
pub proof fn law_outer_white_space_is_trimmed(a: Seq<char>, s: Seq<char>, b: Seq<char>)
    requires
        forall|i: int| 0 <= i < a.len() ==> is_space(#[trigger] a[i]),
        forall|i: int| 0 <= i < b.len() ==> is_space(#[trigger] b[i]),
    ensures
        trimmed(a + s + b) == trimmed(s),
{
    lemma_trim_start_added(a, s + b);
    assert(a + s + b =~= a + (s + b));
    lemma_trim_end_of_trim_start(s, b);
}

proof fn lemma_trim_start_added(a: Seq<char>, s: Seq<char>)
    requires
        forall|i: int| 0 <= i < a.len() ==> is_space(#[trigger] a[i]),
    ensures
        trim_start(a + s) == trim_start(s),
    decreases a.len(),
{
    if a.len() > 0 {
        assert((a + s)[0] == a[0]);
        assert((a + s).skip(1) =~= a.skip(1) + s);
        assert forall|i: int| 0 <= i < a.skip(1).len() implies is_space(#[trigger] a.skip(1)[i]) by {
            assert(a.skip(1)[i] == a[i + 1]);
        }
        lemma_trim_start_added(a.skip(1), s);
    } else {
        assert(a + s =~= s);
    }
}

proof fn lemma_trim_end_added(s: Seq<char>, b: Seq<char>)
    requires
        forall|i: int| 0 <= i < b.len() ==> is_space(#[trigger] b[i]),
    ensures
        trim_end(s + b) == trim_end(s),
    decreases b.len(),
{
    if b.len() > 0 {
        assert((s + b).last() == b[b.len() - 1]);
        assert((s + b).drop_last() =~= s + b.drop_last());
        lemma_trim_end_added(s, b.drop_last());
    } else {
        assert(s + b =~= s);
    }
}

proof fn lemma_trim_end_of_trim_start(s: Seq<char>, b: Seq<char>)
    requires
        forall|i: int| 0 <= i < b.len() ==> is_space(#[trigger] b[i]),
    ensures
        trim_end(trim_start(s + b)) == trim_end(trim_start(s)),
    decreases s.len(),
{
    if s.len() == 0 {
        assert(s + b =~= b);
        lemma_trim_start_part(b);
        lemma_trim_start_len(b);
        let t = trim_start(b);
        if t.len() > 0 {
            assert(t[0] == b[b.len() - t.len()]);
        }
        assert(t =~= Seq::<char>::empty());
        assert(trim_start(s) =~= Seq::<char>::empty());
    } else if is_space(s[0]) {
        assert((s + b)[0] == s[0]);
        assert((s + b).skip(1) =~= s.skip(1) + b);
        lemma_trim_end_of_trim_start(s.skip(1), b);
    } else {
        assert((s + b)[0] == s[0]);
        lemma_trim_end_added(s, b);
    }
}

/// What lists of texts and of words hold is what their entries hold, in order.
pub proof fn law_text_lists(v: Seq<String>, w: Seq<Vec<char>>, i: int)
    ensures
        texts(v).len() == v.len() && char_lists(w).len() == w.len(),
        0 <= i < v.len() ==> texts(v)[i] == v[i]@,
        0 <= i < w.len() ==> char_lists(w)[i] == w[i]@,
{
}

} // verus!
