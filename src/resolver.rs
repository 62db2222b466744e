//! Resolution of a weekday prefix and a 12-hour clock text into a local
//! date and time.

use chrono::Datelike;
use vstd::prelude::*;

use crate::digits::{chars_of, digit_value, digits_value, is_digit};

verus! {

/// Why a weekday or a time of day could not be resolved.
#[derive(Clone, Copy, Debug, PartialEq, Eq, Structural)]
pub enum TimeError {
    /// The weekday prefix is longer than three characters, the time of day
    /// does not follow the clock pattern, or the resolved moment does not
    /// exist in the local time zone.
    InvalidInput,
    /// No day of the scanned window has a matching weekday name.
    NoMatch,
}

/// A calendar day, counted as chrono counts days from the common era:
/// 0001-01-01 (a Monday) is day 1.
#[derive(Clone, Copy, Debug, PartialEq, Eq, Structural)]
pub struct Date {
    pub days_from_ce: i32,
}

/// A time of day as typed on a 12-hour clock, with twelve hours added for
/// PM. The hour is not folded back: `12PM` gives hour 24.
#[derive(Clone, Copy, Debug, PartialEq, Eq, Structural)]
pub struct TimeOfDay {
    pub hour: u8,
    pub minute: u8,
}

/// A local date with a time of day, before any time zone is applied.
#[derive(Clone, Copy, Debug, PartialEq, Eq, Structural)]
pub struct LocalDateTime {
    pub date: Date,
    pub time: TimeOfDay,
}

/// Number of days scanned forward, the starting day included.
pub const SCAN_DAYS: u32 = 10;

/// The longest weekday prefix accepted.
pub const MAX_PREFIX_LEN: usize = 3;

/// Day of the week of day `days`: 0 for Monday up to 6 for Sunday.
pub open spec fn weekday_of(days: int) -> int {
    (days + 6) % 7
}

/// Lowercase three-letter name of weekday `w` (0 is Monday).
pub open spec fn weekday_name(w: int) -> Seq<char> {
    if w == 0 {
        seq!['m', 'o', 'n']
    } else if w == 1 {
        seq!['t', 'u', 'e']
    } else if w == 2 {
        seq!['w', 'e', 'd']
    } else if w == 3 {
        seq!['t', 'h', 'u']
    } else if w == 4 {
        seq!['f', 'r', 'i']
    } else if w == 5 {
        seq!['s', 'a', 't']
    } else {
        seq!['s', 'u', 'n']
    }
}

/// ASCII lowercase of one character; every other character is kept.
pub open spec fn ascii_lower(c: char) -> char {
    if 'A' <= c && c <= 'Z' {
        ((c as u8) + 32) as u8 as char
    } else {
        c
    }
}

/// ASCII lowercase of a text.
pub open spec fn lower(s: Seq<char>) -> Seq<char> {
    s.map_values(|c: char| ascii_lower(c))
}

/// Whether `p` is a prefix of `s`.
pub open spec fn is_prefix(p: Seq<char>, s: Seq<char>) -> bool {
    p.len() <= s.len() && s.subrange(0, p.len() as int) == p
}

/// Whether day `days` has a weekday whose lowercase name starts with the
/// lowercase of `needle`.
pub open spec fn day_matches(needle: Seq<char>, days: int) -> bool {
    is_prefix(lower(needle), weekday_name(weekday_of(days)))
}

/// Whether `needle` is the start of some weekday name, ignoring ASCII case.
pub open spec fn names_a_weekday(needle: Seq<char>) -> bool {
    exists|w: int| 0 <= w < 7 && is_prefix(lower(needle), #[trigger] weekday_name(w))
}

/// Whether day `start + k` is one of the scanned days that a date can hold.
pub open spec fn in_window(start: int, k: int) -> bool {
    0 <= k < SCAN_DAYS && start + k <= i32::MAX
}

/// Characters that the clock pattern skips as white space: the Unicode
/// `White_Space` property.
pub open spec fn is_space(c: char) -> bool {
    let u = c as u32;
    (0x09 <= u && u <= 0x0d) || u == 0x20 || u == 0x85 || u == 0xa0 || u == 0x1680 || (0x2000
        <= u && u <= 0x200a) || u == 0x2028 || u == 0x2029 || u == 0x202f || u == 0x205f || u
        == 0x3000
}

/// Length of the run of white space that starts `s`.
pub open spec fn space_run(s: Seq<char>) -> nat
    decreases s.len(),
{
    if s.len() > 0 && is_space(s[0]) {
        1 + space_run(s.drop_first())
    } else {
        0
    }
}

/// `s` without its leading white space.
pub open spec fn trim_start(s: Seq<char>) -> Seq<char> {
    s.subrange(space_run(s) as int, s.len() as int)
}

/// Length of the hour field at the start of `t`: two digits when the first
/// is 0 or 1 and a digit follows, else one digit, else none.
pub open spec fn hour_len(t: Seq<char>) -> int {
    if t.len() >= 2 && (t[0] == '0' || t[0] == '1') && is_digit(t[1]) {
        2
    } else if t.len() >= 1 && is_digit(t[0]) {
        1
    } else {
        0
    }
}

/// Whether `u` starts with a minute field: a colon, a digit from 0 to 5 and
/// one more digit.
pub open spec fn has_minutes(u: Seq<char>) -> bool {
    u.len() >= 3 && u[0] == ':' && '0' <= u[1] && u[1] <= '5' && is_digit(u[2])
}

/// Whether `c` opens the AM/PM marker.
pub open spec fn is_marker(c: char) -> bool {
    c == 'A' || c == 'a' || c == 'P' || c == 'p'
}

/// The time of day that a text denotes, if it follows the clock pattern:
/// optional leading white space, an hour of one or two digits (two only
/// when the first is 0 or 1), optionally `:` and two minute digits, optional
/// white space, then a marker starting with `A`/`a` or `P`/`p`. Anything may
/// follow the marker. Twelve hours are added when the marker starts with `P`
/// or `p`; missing minutes are 0.
pub open spec fn parse_time_spec(s: Seq<char>) -> Option<(int, int)> {
    let t = trim_start(s);
    let h = hour_len(t);
    let u = t.subrange(h, t.len() as int);
    let m: int = if has_minutes(u) { 3 } else { 0 };
    let v = trim_start(u.subrange(m, u.len() as int));
    if h == 0 || v.len() == 0 || !is_marker(v[0]) {
        None
    } else {
        let hour = digits_value(t.subrange(0, h)) + if v[0] == 'P' || v[0] == 'p' { 12int } else { 0int };
        let minute: int = if m == 3 { digits_value(u.subrange(1, 3)) as int } else { 0 };
        Some((hour, minute))
    }
}

/// Offset of the first scanned day, from `start + k` on, whose weekday
/// matches `needle`.
pub open spec fn first_match_from(needle: Seq<char>, start: int, k: int) -> Option<int>
    decreases SCAN_DAYS - k,
{
    if k < 0 || !in_window(start, k) {
        None
    } else if day_matches(needle, start + k) {
        Some(k)
    } else {
        first_match_from(needle, start, k + 1)
    }
}

/// The day that a weekday prefix resolves to from `start`: the first day of
/// the ten-day window, `start` included, whose lowercase weekday name starts
/// with the lowercase prefix.
pub open spec fn next_day_spec(needle: Seq<char>, start: Date) -> Result<Date, TimeError> {
    if needle.len() > MAX_PREFIX_LEN {
        Err(TimeError::InvalidInput)
    } else {
        match first_match_from(needle, start.days_from_ce as int, 0) {
            Some(k) => Ok(Date { days_from_ce: (start.days_from_ce + k) as i32 }),
            None => Err(TimeError::NoMatch),
        }
    }
}

proof fn lemma_first_match_is(needle: Seq<char>, start: int, j: int, k: int)
    requires
        0 <= j <= k,
        in_window(start, k),
        day_matches(needle, start + k),
        forall|i: int| j <= i < k ==> !day_matches(needle, #[trigger] (start + i)),
    ensures
        first_match_from(needle, start, j) == Some(k),
    decreases k - j,
{
    if j < k {
        assert(!day_matches(needle, start + j));
        lemma_first_match_is(needle, start, j + 1, k);
    }
}

proof fn lemma_first_match_none(needle: Seq<char>, start: int, j: int)
    requires
        0 <= j,
        forall|i: int| j <= i && in_window(start, i) ==> !day_matches(needle, #[trigger] (start + i)),
    ensures
        first_match_from(needle, start, j) is None,
    decreases SCAN_DAYS - j,
{
    if in_window(start, j) {
        assert(!day_matches(needle, start + j));
        lemma_first_match_none(needle, start, j + 1);
    }
}

proof fn lemma_first_match_sound(needle: Seq<char>, start: int, j: int)
    ensures
        first_match_from(needle, start, j) matches Some(k) ==> {
            &&& j <= k
            &&& in_window(start, k)
            &&& day_matches(needle, start + k)
        },
    decreases SCAN_DAYS - j,
{
    if j >= 0 && in_window(start, j) && !day_matches(needle, start + j) {
        lemma_first_match_sound(needle, start, j + 1);
    }
}

proof fn lemma_first_match_found(needle: Seq<char>, start: int, j: int, k: int)
    requires
        0 <= j <= k,
        in_window(start, k),
        day_matches(needle, start + k),
    ensures
        (first_match_from(needle, start, j) matches Some(f) && f <= k),
    decreases k - j,
{
    if j < k && !day_matches(needle, start + j) {
        lemma_first_match_found(needle, start, j + 1, k);
    }
}

/// A resolved day lies in the window of ten days that starts at `start`, and
/// its lowercase weekday name starts with the lowercase prefix. When the
/// prefix is the start of a weekday name (and the week from `start` fits in
/// a `Date`), a day is always found, at most six days ahead.
pub proof fn lemma_next_day_in_window(needle: Seq<char>, start: Date)
    ensures
        next_day_spec(needle, start) matches Ok(d) ==> {
            &&& start.days_from_ce <= d.days_from_ce
            &&& d.days_from_ce - start.days_from_ce < SCAN_DAYS
            &&& is_prefix(lower(needle), weekday_name(weekday_of(d.days_from_ce as int)))
        },
        needle.len() <= MAX_PREFIX_LEN && names_a_weekday(needle) && start.days_from_ce + 6
            <= i32::MAX ==> (next_day_spec(needle, start) matches Ok(d) && d.days_from_ce
            - start.days_from_ce <= 6),
{
    let s = start.days_from_ce as int;
    lemma_first_match_sound(needle, s, 0);
    if needle.len() <= MAX_PREFIX_LEN && names_a_weekday(needle) && s + 6 <= i32::MAX {
        let w = choose|w: int| 0 <= w < 7 && is_prefix(lower(needle), #[trigger] weekday_name(w));
        let k = (w - weekday_of(s)) % 7;
        assert(weekday_of(s + k) == w) by {
            assert(0 <= k < 7);
            assert(((s + k) + 6) % 7 == w) by (nonlinear_arith)
                requires
                    k == (w - (s + 6) % 7) % 7,
                    0 <= w < 7,
            ;
        }
        lemma_first_match_found(needle, s, 0, k);
    }
}

/// From any Tuesday, `mon` resolves six days ahead; from any Monday, to
/// that same day.
pub proof fn lemma_monday_from_tuesday_or_monday(start: Date)
    requires
        start.days_from_ce + 6 <= i32::MAX,
    ensures
        weekday_of(start.days_from_ce as int) == 1 ==> next_day_spec(seq!['m', 'o', 'n'], start)
            == Ok::<Date, TimeError>(Date { days_from_ce: (start.days_from_ce + 6) as i32 }),
        weekday_of(start.days_from_ce as int) == 0 ==> next_day_spec(seq!['m', 'o', 'n'], start)
            == Ok::<Date, TimeError>(start),
{
    let n = seq!['m', 'o', 'n'];
    let s = start.days_from_ce as int;
    assert(lower(n) =~= n);
    assert forall|w: int| 0 < w < 7 implies !is_prefix(n, #[trigger] weekday_name(w)) by {
        assert(weekday_name(w).subrange(0, 3)[0] != n[0]);
    }
    assert(is_prefix(n, weekday_name(0))) by {
        assert(weekday_name(0).subrange(0, 3) =~= n);
    }
    if weekday_of(s) == 1 {
        assert forall|i: int| 0 <= i < 6 implies !day_matches(n, #[trigger] (s + i)) by {
            assert(weekday_of(s + i) == 1 + i);
        }
        assert(weekday_of(s + 6) == 0);
        lemma_first_match_is(n, s, 0, 6);
    }
    if weekday_of(s) == 0 {
        lemma_first_match_is(n, s, 0, 0);
    }
}

impl Date {
    /// The day after this one, unless this is the last day a `Date` holds.
    pub fn succ(&self) -> (r: Option<Date>)
        ensures
            r is Some <==> self.days_from_ce < i32::MAX,
            r matches Some(d) ==> d.days_from_ce == self.days_from_ce + 1,
    {
        if self.days_from_ce < i32::MAX {
            Some(Date { days_from_ce: self.days_from_ce + 1 })
        } else {
            None
        }
    }

    /// Day of the week: 0 for Monday up to 6 for Sunday.
    pub fn weekday(&self) -> (r: u8)
        ensures
            r as int == weekday_of(self.days_from_ce as int),
    {
        // Shifting by a multiple of seven keeps the weekday and makes the
        // day number non-negative, where `%` agrees with the Euclidean one.
        let shifted: i64 = self.days_from_ce as i64 + 7 * 306783379;
        let w: i64 = (shifted + 6) % 7;
        assert(w == (self.days_from_ce + 6) % 7) by (nonlinear_arith)
            requires
                shifted == self.days_from_ce + 7 * 306783379,
                shifted >= 0,
                w == (shifted + 6) % 7,
        ;
        w as u8
    }
}

fn lower_char(c: char) -> (r: char)
    ensures
        r == ascii_lower(c),
{
    if 'A' <= c && c <= 'Z' {
        ((c as u8) + 32) as char
    } else {
        c
    }
}

fn weekday_name_chars(w: u8) -> (r: Vec<char>)
    requires
        w < 7,
    ensures
        r@ == weekday_name(w as int),
{
    let r = if w == 0 {
        vec!['m', 'o', 'n']
    } else if w == 1 {
        vec!['t', 'u', 'e']
    } else if w == 2 {
        vec!['w', 'e', 'd']
    } else if w == 3 {
        vec!['t', 'h', 'u']
    } else if w == 4 {
        vec!['f', 'r', 'i']
    } else if w == 5 {
        vec!['s', 'a', 't']
    } else {
        vec!['s', 'u', 'n']
    };
    assert(r@ =~= weekday_name(w as int));
    r
}

/// Whether the weekday of `day` matches the already lowercased prefix.
fn day_matches_lowered(lowered: &Vec<char>, day: Date) -> (r: bool)
    requires
        lowered@.len() <= MAX_PREFIX_LEN,
    ensures
        r == is_prefix(lowered@, weekday_name(weekday_of(day.days_from_ce as int))),
{
    let name = weekday_name_chars(day.weekday());
    let mut i: usize = 0;
    while i < lowered.len()
        invariant
            lowered@.len() <= 3,
            name@ == weekday_name(weekday_of(day.days_from_ce as int)),
            name@.len() == 3,
            i <= lowered@.len(),
            name@.subrange(0, i as int) == lowered@.subrange(0, i as int),
        decreases lowered@.len() - i,
    {
        if name[i] != lowered[i] {
            let ghost head = name@.subrange(0, lowered@.len() as int);
            assert(head[i as int] != lowered@[i as int]);
            assert(head != lowered@);
            return false;
        }
        i = i + 1;
        assert(name@.subrange(0, i as int) =~= lowered@.subrange(0, i as int));
    }
    assert(lowered@.subrange(0, i as int) =~= lowered@);
    true
}

/// Finds the first day, from `start` on and at most ten days ahead, whose
/// lowercase weekday name starts with the lowercase of `needle`.
pub fn get_next_day_from(needle: &str, start: Date) -> (r: Result<Date, TimeError>)
    ensures
        r == next_day_spec(needle@, start),
{
    let chars = chars_of(needle);
    if chars.len() > MAX_PREFIX_LEN {
        return Err(TimeError::InvalidInput);
    }
    let mut lowered: Vec<char> = Vec::new();
    let mut i: usize = 0;
    while i < chars.len()
        invariant
            chars@ == needle@,
            i <= chars@.len(),
            lowered@ == lower(chars@.subrange(0, i as int)),
        decreases chars@.len() - i,
    {
        lowered.push(lower_char(chars[i]));
        i = i + 1;
        assert(lowered@ =~= lower(chars@.subrange(0, i as int)));
    }
    assert(chars@.subrange(0, i as int) =~= chars@);
    let mut candidate = start;
    let mut k: u32 = 0;
    while k < SCAN_DAYS
        invariant
            lowered@ == lower(needle@),
            lowered@.len() <= MAX_PREFIX_LEN,
            k <= SCAN_DAYS,
            candidate.days_from_ce == start.days_from_ce + k,
            forall|j: int| 0 <= j < k ==> !day_matches(needle@, #[trigger] (start.days_from_ce + j)),
        decreases SCAN_DAYS - k,
    {
        if day_matches_lowered(&lowered, candidate) {
            proof {
                lemma_first_match_is(needle@, start.days_from_ce as int, 0, k as int);
            }
            return Ok(candidate);
        }
        match candidate.succ() {
            Some(next) => {
                candidate = next;
            },
            None => {
                proof {
                    lemma_first_match_none(needle@, start.days_from_ce as int, 0);
                }
                return Err(TimeError::NoMatch);
            },
        }
        k = k + 1;
    }
    proof {
        lemma_first_match_none(needle@, start.days_from_ce as int, 0);
    }
    Err(TimeError::NoMatch)
}

proof fn lemma_one_digit(s: Seq<char>)
    requires
        s.len() == 1,
    ensures
        digits_value(s) == digit_value(s[0]),
{
    reveal_with_fuel(digits_value, 2);
    assert(s.drop_last() =~= Seq::<char>::empty());
}

proof fn lemma_two_digits(s: Seq<char>)
    requires
        s.len() == 2,
    ensures
        digits_value(s) == digit_value(s[0]) * 10 + digit_value(s[1]),
{
    reveal_with_fuel(digits_value, 3);
    assert(s.drop_last() =~= seq![s[0]]);
    assert(seq![s[0]].drop_last() =~= Seq::<char>::empty());
}

fn is_space_char(c: char) -> (r: bool)
    ensures
        r == is_space(c),
{
    let u = c as u32;
    (0x09 <= u && u <= 0x0d) || u == 0x20 || u == 0x85 || u == 0xa0 || u == 0x1680 || (0x2000
        <= u && u <= 0x200a) || u == 0x2028 || u == 0x2029 || u == 0x202f || u == 0x205f || u
        == 0x3000
}

fn is_digit_char(c: char) -> (r: bool)
    ensures
        r == is_digit(c),
{
    '0' <= c && c <= '9'
}

/// Index of the first character at or after `from` that is not white space.
fn skip_spaces(s: &Vec<char>, from: usize) -> (r: usize)
    requires
        from <= s@.len(),
    ensures
        from <= r <= s@.len(),
        trim_start(s@.subrange(from as int, s@.len() as int)) == s@.subrange(r as int, s@.len() as int),
{
    let mut i = from;
    while i < s.len() && is_space_char(s[i])
        invariant
            from <= i <= s@.len(),
            space_run(s@.subrange(from as int, s@.len() as int)) == (i - from) + space_run(
                s@.subrange(i as int, s@.len() as int),
            ),
        decreases s@.len() - i,
    {
        assert(s@.subrange(i as int, s@.len() as int).drop_first() =~= s@.subrange(
            i + 1,
            s@.len() as int,
        ));
        i = i + 1;
    }
    let ghost whole = s@.subrange(from as int, s@.len() as int);
    assert(space_run(s@.subrange(i as int, s@.len() as int)) == 0);
    assert(whole.subrange(i - from, whole.len() as int) =~= s@.subrange(i as int, s@.len() as int));
    i
}

/// Reads a time of day written on a 12-hour clock (`7:30PM`, `7AM`,
/// ` 12 pm`), adding twelve hours for PM without folding 12 back to 0.
#[verifier::rlimit(50)]
pub fn parse_time_of_day(tod: &str) -> (r: Result<TimeOfDay, TimeError>)
    ensures
        r is Ok <==> parse_time_spec(tod@) is Some,
        r matches Ok(t) ==> parse_time_spec(tod@) == Some((t.hour as int, t.minute as int)),
        r matches Err(e) ==> e == TimeError::InvalidInput,
{
    let s = chars_of(tod);
    let n = s.len();
    let a = skip_spaces(&s, 0);
    let ghost t = trim_start(s@);
    assert(s@.subrange(0, n as int) =~= s@);
    let h: usize = if n - a >= 2 && (s[a] == '0' || s[a] == '1') && is_digit_char(s[a + 1]) {
        2
    } else if n - a >= 1 && is_digit_char(s[a]) {
        1
    } else {
        0
    };
    assert(h == hour_len(t));
    if h == 0 {
        return Err(TimeError::InvalidInput);
    }
    let b = a + h;
    let ghost u = t.subrange(h as int, t.len() as int);
    assert(u =~= s@.subrange(b as int, n as int));
    let m: usize = if n - b >= 3 && s[b] == ':' && '0' <= s[b + 1] && s[b + 1] <= '5'
        && is_digit_char(s[b + 2]) {
        3
    } else {
        0
    };
    assert((m == 3) == has_minutes(u));
    let c = skip_spaces(&s, b + m);
    assert(u.subrange(m as int, u.len() as int) =~= s@.subrange((b + m) as int, n as int));
    let ghost v = trim_start(u.subrange(m as int, u.len() as int));
    if c >= n {
        return Err(TimeError::InvalidInput);
    }
    let marker = s[c];
    assert(v[0] == marker);
    if !(marker == 'A' || marker == 'a' || marker == 'P' || marker == 'p') {
        return Err(TimeError::InvalidInput);
    }
    let first: u8 = (s[a] as u32 - 48) as u8;
    let mut hour: u8 = if h == 2 {
        first * 10 + (s[a + 1] as u32 - 48) as u8
    } else {
        first
    };
    proof {
        let hs = t.subrange(0, h as int);
        if h == 2 {
            lemma_two_digits(hs);
        } else {
            lemma_one_digit(hs);
        }
    }
    if marker == 'P' || marker == 'p' {
        hour = hour + 12;
    }
    let minute: u8 = if m == 3 {
        (s[b + 1] as u32 - 48) as u8 * 10 + (s[b + 2] as u32 - 48) as u8
    } else {
        0
    };
    proof {
        if m == 3 {
            lemma_two_digits(u.subrange(1, 3));
        }
    }
    Ok(TimeOfDay { hour, minute })
}

/// What a weekday prefix and a time of day resolve to from `reference`:
/// the weekday is checked first, then the time of day.
pub open spec fn resolve_spec(day_of_week: Seq<char>, time_of_day: Seq<char>, reference: Date) -> Result<
    LocalDateTime,
    TimeError,
> {
    match next_day_spec(day_of_week, reference) {
        Err(e) => Err(e),
        Ok(d) => match parse_time_spec(time_of_day) {
            None => Err(TimeError::InvalidInput),
            Some((h, m)) => Ok(LocalDateTime { date: d, time: TimeOfDay { hour: h as u8, minute: m as u8 } }),
        },
    }
}

/// Resolves a weekday prefix and a time of day into the first matching local
/// date and time from `reference` on.
pub fn resolve(day_of_week: &str, time_of_day: &str, reference: Date) -> (r: Result<
    LocalDateTime,
    TimeError,
>)
    ensures
        r == resolve_spec(day_of_week@, time_of_day@, reference),
{
    let date = get_next_day_from(day_of_week, reference);
    match date {
        Err(e) => Err(e),
        Ok(d) => match parse_time_of_day(time_of_day) {
            Err(e) => Err(e),
            Ok(t) => Ok(LocalDateTime { date: d, time: t }),
        },
    }
}

/// Relies on chrono::Local::now: today's date in the machine's time zone,
/// counted as `NaiveDate::num_days_from_ce` counts it.
#[verifier::external_body]
pub(crate) fn local_today() -> (r: Date) {
    Date { days_from_ce: chrono::Local::now().date_naive().num_days_from_ce() }
}

/// Relies on chrono::Utc::now: the current time in whole seconds since the
/// Unix epoch.
#[verifier::external_body]
pub(crate) fn utc_now() -> (r: i64) {
    chrono::Utc::now().timestamp()
}

/// Relies on chrono's `NaiveDate::and_hms_opt` and
/// `NaiveDateTime::and_local_timezone(Local)`: the Unix timestamp of a local
/// date and time when the machine's time zone gives it exactly one. chrono
/// refuses an hour from 24 on or a minute from 60 on.
#[verifier::external_body]
pub(crate) fn local_timestamp(dt: LocalDateTime) -> (r: Option<i64>)
    ensures
        dt.time.hour >= 24 || dt.time.minute >= 60 ==> r is None,
{
    let date = chrono::NaiveDate::from_num_days_from_ce_opt(dt.date.days_from_ce)?;
    let naive = date.and_hms_opt(dt.time.hour as u32, dt.time.minute as u32, 0)?;
    naive.and_local_timezone(chrono::Local).single().map(|t| t.timestamp())
}

/// Finds the first day from today's local date on whose weekday matches
/// `needle`.
pub fn get_next_day(needle: &str) -> (r: Result<Date, TimeError>)
    ensures
        exists|today: Date| r == next_day_spec(needle@, today),
{
    let today = local_today();
    get_next_day_from(needle, today)
}

} // verus!
