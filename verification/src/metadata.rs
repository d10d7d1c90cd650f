//! Camera identity, capture time and white-balance evidence read from RAW
//! metadata.

use vstd::prelude::*;
use crate::path::views;
use crate::raw::decimal_value;
use crate::text::{ascii_lower_seq, string_of, to_ascii_lower, char_is_ascii_digit, chars_of, is_ascii_digit, split_fields, split_text, split_words, trim_padding, trim_padding_exec, Sep};

verus! {

/// A rational number exactly as stored in the file.
#[derive(PartialEq, Eq, Structural, Clone, Copy, Debug)]
pub struct RawRational {
    pub num: u32,
    pub denom: u32,
}

/// White-balance evidence recorded by the camera; it is never converted to a
/// colour temperature.
#[derive(Clone, Copy, Debug)]
pub struct RawWhiteBalanceEvidence {
    pub as_shot_neutral: Option<[RawRational; 3]>,
    pub as_shot_white_xy: Option<[RawRational; 2]>,
}

impl RawWhiteBalanceEvidence {
    pub fn is_empty(&self) -> (res: bool)
        ensures
            res == (self.as_shot_neutral is None && self.as_shot_white_xy is None),
    {
        self.as_shot_neutral.is_none() && self.as_shot_white_xy.is_none()
    }
}

/// What the metadata of one RAW file tells about it.
pub struct RawMetadataEvidence {
    pub camera_id: Option<String>,
    pub capture_time_ms: Option<i64>,
    pub white_balance: Option<RawWhiteBalanceEvidence>,
}

impl Default for RawMetadataEvidence {
    fn default() -> (res: Self)
        ensures
            res.camera_id is None,
            res.capture_time_ms is None,
            res.white_balance is None,
    {
        RawMetadataEvidence { camera_id: None, capture_time_ms: None, white_balance: None }
    }
}

// ----- numbers -----

pub open spec fn all_digits(s: Seq<char>) -> bool {
    forall|j: int| 0 <= j < s.len() ==> is_ascii_digit(s[j])
}

/// The digits of an unsigned number, after an optional `+`.
pub open spec fn unsigned_digits(s: Seq<char>) -> Seq<char> {
    if s.len() > 0 && s[0] == '+' {
        s.subrange(1, s.len() as int)
    } else {
        s
    }
}

/// `str::parse::<u32>`: an optional `+` and at least one digit, in range.
pub open spec fn parsed_u32(s: Seq<char>) -> Option<u32> {
    let d = unsigned_digits(s);
    if d.len() > 0 && all_digits(d) && decimal_value(d) <= u32::MAX {
        Some(decimal_value(d) as u32)
    } else {
        None
    }
}

/// `str::parse::<i32>`: an optional `+` or `-` and at least one digit, in range.
pub open spec fn parsed_i32(s: Seq<char>) -> Option<i32> {
    if s.len() > 0 && s[0] == '-' {
        let d = s.subrange(1, s.len() as int);
        if d.len() > 0 && all_digits(d) && decimal_value(d) <= 0x8000_0000 {
            Some((0 - decimal_value(d)) as i32)
        } else {
            None
        }
    } else {
        let d = unsigned_digits(s);
        if d.len() > 0 && all_digits(d) && decimal_value(d) <= i32::MAX {
            Some(decimal_value(d) as i32)
        } else {
            None
        }
    }
}

fn digits_value(s: &[char], start: usize) -> (res: Option<u64>)
    requires
        start <= s@.len(),
    ensures
        match res {
            None => s@.len() == start || !all_digits(s@.subrange(start as int, s@.len() as int))
                || decimal_value(s@.subrange(start as int, s@.len() as int)) > u64::MAX,
            Some(v) => s@.len() > start && all_digits(s@.subrange(start as int, s@.len() as int))
                && v == decimal_value(s@.subrange(start as int, s@.len() as int)),
        },
{
    let ghost d = s@.subrange(start as int, s@.len() as int);
    if start == s.len() {
        return None;
    }
    let mut i = start;
    while i < s.len()
        invariant
            start <= i <= s@.len(),
            d == s@.subrange(start as int, s@.len() as int),
            forall|j: int| start <= j < i ==> is_ascii_digit(s@[j]),
        decreases s@.len() - i,
    {
        if !char_is_ascii_digit(s[i]) {
            assert(d[i - start] == s@[i as int]);
            return None;
        }
        i += 1;
    }
    assert(all_digits(d)) by {
        assert forall|j: int| 0 <= j < d.len() implies is_ascii_digit(d[j]) by {
            assert(d[j] == s@[start + j]);
        }
    }
    crate::raw::parse_decimal(s, start, s.len())
}

fn parse_u32(s: &[char]) -> (res: Option<u32>)
    ensures
        res == parsed_u32(s@),
{
    let start: usize = if s.len() > 0 && s[0] == '+' { 1 } else { 0 };
    assert(s@.subrange(start as int, s@.len() as int) =~= unsigned_digits(s@));
    match digits_value(s, start) {
        None => None,
        Some(v) => {
            if v <= 0xFFFF_FFFF {
                Some(v as u32)
            } else {
                None
            }
        },
    }
}

fn parse_i32(s: &[char]) -> (res: Option<i32>)
    ensures
        res == parsed_i32(s@),
{
    if s.len() > 0 && s[0] == '-' {
        match digits_value(s, 1) {
            None => None,
            Some(v) => {
                if v <= 0x8000_0000 {
                    let w: i64 = 0 - (v as i64);
                    Some(w as i32)
                } else {
                    None
                }
            },
        }
    } else {
        let start: usize = if s.len() > 0 && s[0] == '+' { 1 } else { 0 };
        assert(s@.subrange(start as int, s@.len() as int) =~= unsigned_digits(s@));
        match digits_value(s, start) {
            None => None,
            Some(v) => {
                if v <= 0x7FFF_FFFF {
                    Some(v as i32)
                } else {
                    None
                }
            },
        }
    }
}

// ----- calendar -----

pub open spec fn leap_year(year: int) -> bool {
    (year % 4 == 0 && year % 100 != 0) || year % 400 == 0
}

pub open spec fn month_days(year: int, month: int) -> int {
    if month == 1 || month == 3 || month == 5 || month == 7 || month == 8 || month == 10
        || month == 12 {
        31
    } else if month == 4 || month == 6 || month == 9 || month == 11 {
        30
    } else if month == 2 {
        if leap_year(year) { 29 } else { 28 }
    } else {
        0
    }
}

proof fn lemma_divisible_by_magnitude(a: int, m: int)
    requires
        m > 0,
    ensures
        ((-a) % m == 0) == (a % m == 0),
{
    if a % m == 0 {
        let q = a / m;
        assert(a == m * q) by (nonlinear_arith)
            requires
                a % m == 0,
                q == a / m,
                m > 0,
        ;
        assert(-a == m * (-q)) by (nonlinear_arith)
            requires
                a == m * q,
        ;
        vstd::arithmetic::div_mod::lemma_mod_multiples_basic(-q, m);
        assert((-q) * m == m * (-q)) by (nonlinear_arith);
    }
    if (-a) % m == 0 {
        let q = (-a) / m;
        assert(-a == m * q) by (nonlinear_arith)
            requires
                (-a) % m == 0,
                q == (-a) / m,
                m > 0,
        ;
        assert(a == m * (-q)) by (nonlinear_arith)
            requires
                -a == m * q,
        ;
        vstd::arithmetic::div_mod::lemma_mod_multiples_basic(-q, m);
        assert((-q) * m == m * (-q)) by (nonlinear_arith);
    }
}

fn is_leap_year(year: i32) -> (res: bool)
    ensures
        res == leap_year(year as int),
{
    let a: u32 = if year < 0 { (-(year as i64)) as u32 } else { year as u32 };
    proof {
        lemma_divisible_by_magnitude(year as int, 4);
        lemma_divisible_by_magnitude(year as int, 100);
        lemma_divisible_by_magnitude(year as int, 400);
    }
    (a % 4 == 0 && a % 100 != 0) || a % 400 == 0
}

fn days_in_month(year: i32, month: u32) -> (res: u32)
    ensures
        res == month_days(year as int, month as int),
{
    match month {
        1 | 3 | 5 | 7 | 8 | 10 | 12 => 31,
        4 | 6 | 9 | 11 => 30,
        2 => if is_leap_year(year) { 29 } else { 28 },
        _ => 0,
    }
}

/// Days from 1970-01-01 to the given proleptic Gregorian date (negative before
/// it), by the era-of-400-years method.
pub open spec fn civil_days(year: int, month: int, day: int) -> int {
    let adjusted = year - (if month <= 2 { 1int } else { 0int });
    let era = adjusted / 400;
    let year_of_era = adjusted - era * 400;
    let shifted_month = month + (if month > 2 { -3int } else { 9int });
    let day_of_year = (153 * shifted_month + 2) / 5 + day - 1;
    let day_of_era = year_of_era * 365 + year_of_era / 4 - year_of_era / 100 + day_of_year;
    era * 146_097 + day_of_era - 719_468
}

/// The day count fits the 32-bit arithmetic the calendar conversion uses.
pub open spec fn civil_fits(year: int, month: int, day: int) -> bool {
    year < 1 || civil_days(year, month, day) + 719_468 <= i32::MAX
}

fn days_from_civil(year: i32, month: u32, day: u32) -> (res: Option<i64>)
    requires
        1 <= month <= 12,
        1 <= day <= 31,
        civil_fits(year as int, month as int, day as int),
    ensures
        match res {
            None => year < 1,
            Some(d) => year >= 1 && d == civil_days(year as int, month as int, day as int),
        },
{
    if year < 1 {
        return None;
    }
    let adjusted_year: i32 = year - if month <= 2 { 1 } else { 0 };
    let era: i32 = adjusted_year / 400;
    let year_of_era: i32 = adjusted_year - era * 400;
    let m: i32 = month as i32;
    let shifted_month: i32 = m + if month > 2 { -3 } else { 9 };
    let d: i32 = day as i32;
    let day_of_year: i32 = (153 * shifted_month + 2) / 5 + d - 1;
    assert(0 <= year_of_era < 400);
    assert(0 <= day_of_year <= 367) by (nonlinear_arith)
        requires
            0 <= shifted_month <= 11,
            1 <= d <= 31,
            day_of_year == (153 * shifted_month + 2) / 5 + d - 1,
    ;
    assert(0 <= year_of_era * 365 <= 400 * 365) by (nonlinear_arith)
        requires
            0 <= year_of_era < 400,
    ;
    let day_of_era: i32 = year_of_era * 365 + year_of_era / 4 - year_of_era / 100 + day_of_year;
    assert(era >= 0);
    assert(era * 146_097 + day_of_era <= i32::MAX);
    assert(0 <= era * 146_097) by (nonlinear_arith)
        requires
            era >= 0,
    ;
    let total: i32 = era * 146_097 + day_of_era - 719_468;
    Some(total as i64)
}

// ----- timestamps -----

/// The words of an EXIF timestamp, after padding is trimmed.
pub open spec fn stamp_words(value: Seq<char>) -> Seq<Seq<char>> {
    split_words(trim_padding(value), Sep::Space)
}

/// The six numeric fields of a well-shaped `YYYY:MM:DD HH:MM:SS` timestamp.
pub open spec fn stamp_numbers(value: Seq<char>) -> Option<(i32, u32, u32, u32, u32, u32)> {
    let w = stamp_words(value);
    if w.len() != 2 {
        None
    } else {
        let date = split_fields(w[0], Sep::Colon);
        let time = split_fields(w[1], Sep::Colon);
        if date.len() != 3 || time.len() != 3 {
            None
        } else {
            match (parsed_i32(date[0]), parsed_u32(date[1]), parsed_u32(date[2]),
                parsed_u32(time[0]), parsed_u32(time[1]), parsed_u32(time[2])) {
                (Some(y), Some(mo), Some(d), Some(h), Some(mi), Some(s)) => Some((y, mo, d, h, mi, s)),
                _ => None,
            }
        }
    }
}

/// The fields name a real calendar date and a wall-clock time; a leap second
/// (60) is accepted.
pub open spec fn stamp_valid(n: (i32, u32, u32, u32, u32, u32)) -> bool {
    &&& 1 <= n.1 <= 12
    &&& 1 <= n.2 <= month_days(n.0 as int, n.1 as int)
    &&& n.3 <= 23
    &&& n.4 <= 59
    &&& n.5 <= 60
}

/// Seconds since the epoch for a valid stamp; a leap second counts as 59.
pub open spec fn stamp_seconds(n: (i32, u32, u32, u32, u32, u32)) -> int {
    civil_days(n.0 as int, n.1 as int, n.2 as int) * 86_400 + n.3 * 3_600 + n.4 * 60
        + (if n.5 > 59 { 59 } else { n.5 as int })
}

/// The millisecond timeline coordinate of an EXIF local timestamp.
///
/// The naive local wall-clock time is mapped onto an epoch-shaped scale only to
/// order photos within a shoot; it does not claim UTC.
pub open spec fn exif_timestamp_ms(value: Seq<char>) -> Option<i64> {
    match stamp_numbers(value) {
        None => None,
        Some(n) => {
            if stamp_valid(n) && n.0 >= 1 && i64::MIN <= stamp_seconds(n) * 1000 <= i64::MAX {
                Some((stamp_seconds(n) * 1000) as i64)
            } else {
                None
            }
        },
    }
}

/// The timestamp names a date so far in the future that the 32-bit day
/// arithmetic cannot hold it.
pub open spec fn stamp_overflows(value: Seq<char>) -> bool {
    match stamp_numbers(value) {
        None => false,
        Some(n) => stamp_valid(n) && !civil_fits(n.0 as int, n.1 as int, n.2 as int),
    }
}

fn stamp_fields(value: &[char]) -> (res: Option<(i32, u32, u32, u32, u32, u32)>)
    ensures
        res == stamp_numbers(value@),
{
    let trimmed = trim_padding_exec(value);
    let words = split_text(&trimmed, &Sep::Space, true);
    if words.len() != 2 {
        return None;
    }
    let date = split_text(&words[0], &Sep::Colon, false);
    let time = split_text(&words[1], &Sep::Colon, false);
    if date.len() != 3 || time.len() != 3 {
        return None;
    }
    let y = parse_i32(&date[0]);
    let mo = parse_u32(&date[1]);
    let d = parse_u32(&date[2]);
    let h = parse_u32(&time[0]);
    let mi = parse_u32(&time[1]);
    let s = parse_u32(&time[2]);
    match (y, mo, d, h, mi, s) {
        (Some(y), Some(mo), Some(d), Some(h), Some(mi), Some(s)) => Some((y, mo, d, h, mi, s)),
        _ => None,
    }
}

/// Whether `value` names a date beyond the range of the day arithmetic.
pub fn exif_timestamp_overflows(value: &str) -> (res: bool)
    ensures
        res == stamp_overflows(value@),
{
    let chars = chars_of(value);
    match stamp_fields(&chars) {
        None => false,
        Some((y, mo, d, h, mi, s)) => {
            if !(1 <= mo && mo <= 12) || d == 0 || d > days_in_month(y, mo) || h > 23 || mi > 59
                || s > 60 {
                return false;
            }
            if y < 1 {
                return false;
            }
            let big = civil_days_wide(y, mo, d);
            !(big + 719_468 <= 0x7FFF_FFFF)
        },
    }
}

fn civil_days_wide(year: i32, month: u32, day: u32) -> (res: i64)
    requires
        1 <= month <= 12,
        1 <= day <= 31,
        year >= 1,
    ensures
        res == civil_days(year as int, month as int, day as int),
{
    let adjusted_year: i64 = year as i64 - if month <= 2 { 1 } else { 0 };
    let era: i64 = adjusted_year / 400;
    let year_of_era: i64 = adjusted_year - era * 400;
    let m: i64 = month as i64;
    let shifted_month: i64 = m + if month > 2 { -3 } else { 9 };
    let d: i64 = day as i64;
    let day_of_year: i64 = (153 * shifted_month + 2) / 5 + d - 1;
    assert(0 <= era * 146_097 <= 0x8000_0000 * 146_097) by (nonlinear_arith)
        requires
            0 <= era <= 0x8000_0000,
    ;
    assert(0 <= year_of_era * 365 <= 400 * 365) by (nonlinear_arith)
        requires
            0 <= year_of_era < 400,
    ;
    let day_of_era: i64 = year_of_era * 365 + year_of_era / 4 - year_of_era / 100 + day_of_year;
    era * 146_097 + day_of_era - 719_468
}

/// Parses an EXIF `YYYY:MM:DD HH:MM:SS` local timestamp into a millisecond
/// timeline coordinate.
pub fn parse_exif_datetime_ms(value: &str) -> (res: Option<i64>)
    requires
        !stamp_overflows(value@),
    ensures
        res == exif_timestamp_ms(value@),
{
    let chars = chars_of(value);
    let (y, mo, d, h, mi, s) = match stamp_fields(&chars) {
        None => return None,
        Some(n) => n,
    };
    if !(1 <= mo && mo <= 12) || d == 0 || d > days_in_month(y, mo) || h > 23 || mi > 59 || s > 60 {
        return None;
    }
    let days = match days_from_civil(y, mo, d) {
        None => return None,
        Some(v) => v,
    };
    let second: i64 = if s > 59 { 59 } else { s as i64 };
    assert(-1_000_000 <= days <= 0x7FFF_FFFF);
    let seconds: i64 = days * 86_400 + (h as i64) * 3_600 + (mi as i64) * 60 + second;
    seconds.checked_mul(1_000)
}

// ----- camera identity -----

pub open spec fn is_prefix(a: Seq<char>, b: Seq<char>) -> bool {
    a.len() <= b.len() && b.subrange(0, a.len() as int) == a
}

/// The camera identity from make and model; a model that already starts with
/// the make (ignoring ASCII case) is not prefixed with it again.
pub open spec fn camera_id_of(make: Option<Seq<char>>, model: Option<Seq<char>>) -> Option<Seq<char>> {
    match (make, model) {
        (Some(a), Some(b)) => if is_prefix(ascii_lower_seq(a), ascii_lower_seq(b)) {
            Some(b)
        } else {
            Some(a + seq![' '] + b)
        },
        (Some(a), None) => Some(a),
        (None, Some(b)) => Some(b),
        (None, None) => None,
    }
}

fn starts_with(b: &[char], a: &[char]) -> (res: bool)
    ensures
        res == is_prefix(a@, b@),
{
    if a.len() > b.len() {
        return false;
    }
    let mut i: usize = 0;
    while i < a.len()
        invariant
            a@.len() <= b@.len(),
            i <= a@.len(),
            forall|j: int| 0 <= j < i ==> a@[j] == b@[j],
        decreases a@.len() - i,
    {
        if a[i] != b[i] {
            assert(b@.subrange(0, a@.len() as int)[i as int] != a@[i as int]);
            return false;
        }
        i += 1;
    }
    assert(b@.subrange(0, a@.len() as int) =~= a@);
    true
}

fn append_chars(out: &mut Vec<char>, more: &[char])
    ensures
        final(out)@ == old(out)@ + more@,
{
    let mut i: usize = 0;
    let ghost start = out@;
    while i < more.len()
        invariant
            i <= more@.len(),
            out@ == start + more@.subrange(0, i as int),
        decreases more@.len() - i,
    {
        out.push(more[i]);
        i += 1;
        assert(out@ =~= start + more@.subrange(0, i as int));
    }
    assert(more@.subrange(0, more@.len() as int) =~= more@);
}

pub open spec fn opt_text(o: Option<&str>) -> Option<Seq<char>> {
    match o {
        Some(t) => Some(t@),
        None => None,
    }
}

/// Combines the camera make and model into one camera identity.
pub fn combine_camera_id(make: Option<&str>, model: Option<&str>) -> (res: Option<String>)
    ensures
        match res {
            None => camera_id_of(opt_text(make), opt_text(model)) is None,
            Some(r) => camera_id_of(opt_text(make), opt_text(model)) == Some(r@),
        },
{
    match (make, model) {
        (Some(a), Some(b)) => {
            let ac = chars_of(a);
            let bc = chars_of(b);
            let al = to_ascii_lower(&ac);
            let bl = to_ascii_lower(&bc);
            if starts_with(&bl, &al) {
                Some(string_of(&bc))
            } else {
                let mut out = ac;
                out.push(' ');
                append_chars(&mut out, &bc);
                Some(string_of(&out))
            }
        },
        (Some(a), None) => Some(string_of(&chars_of(a))),
        (None, Some(b)) => Some(string_of(&chars_of(b))),
        (None, None) => None,
    }
}

/// Words joined by single spaces.
pub open spec fn join_words(ws: Seq<Seq<char>>) -> Seq<char>
    decreases ws.len(),
{
    if ws.len() == 0 {
        seq![]
    } else if ws.len() == 1 {
        ws[0]
    } else {
        join_words(ws.drop_last()) + seq![' '] + ws.last()
    }
}

/// Text with NUL and white space trimmed from the ends and every inner run of
/// white space collapsed to one space.
pub open spec fn normalized_text(s: Seq<char>) -> Seq<char> {
    join_words(split_words(trim_padding(s), Sep::Space))
}

pub fn normalize_text(value: &str) -> (res: String)
    ensures
        res@ == normalized_text(value@),
{
    let chars = chars_of(value);
    let trimmed = trim_padding_exec(&chars);
    let words = split_text(&trimmed, &Sep::Space, true);
    let ghost ws = views(words@);
    let mut out: Vec<char> = Vec::new();
    let mut i: usize = 0;
    while i < words.len()
        invariant
            i <= words@.len(),
            ws == views(words@),
            out@ == join_words(ws.take(i as int)),
        decreases words@.len() - i,
    {
        let ghost prev = ws.take(i as int);
        assert(ws.take(i + 1).drop_last() =~= prev);
        if i > 0 {
            out.push(' ');
        }
        append_chars(&mut out, &words[i]);
        i += 1;
        assert(ws.take(i as int).last() == words@[i - 1]@);
        if i == 1 {
            assert(out@ =~= join_words(ws.take(i as int)));
        } else {
            assert(out@ =~= join_words(ws.take(i as int)));
        }
    }
    assert(ws.take(words@.len() as int) =~= ws);
    string_of(&out)
}

// ----- white balance -----

pub open spec fn usable_rationals(v: Seq<RawRational>, n: nat) -> bool {
    v.len() == n && forall|j: int| 0 <= j < v.len() ==> v[j].denom != 0
}

fn rationals_usable(v: &[RawRational], n: usize) -> (res: bool)
    ensures
        res == usable_rationals(v@, n as nat),
{
    if v.len() != n {
        return false;
    }
    let mut i: usize = 0;
    while i < v.len()
        invariant
            i <= v@.len(),
            forall|j: int| 0 <= j < i ==> v@[j].denom != 0,
        decreases v@.len() - i,
    {
        if v[i].denom == 0 {
            return false;
        }
        i += 1;
    }
    true
}

/// Exactly three rationals, none with a zero denominator.
pub fn rational_triple(values: &[RawRational]) -> (res: Option<[RawRational; 3]>)
    ensures
        match res {
            None => !usable_rationals(values@, 3),
            Some(a) => usable_rationals(values@, 3) && a@ == values@,
        },
{
    if !rationals_usable(values, 3) {
        return None;
    }
    let a = [values[0], values[1], values[2]];
    assert(a@ =~= values@);
    Some(a)
}

/// Exactly two rationals, none with a zero denominator.
pub fn rational_pair(values: &[RawRational]) -> (res: Option<[RawRational; 2]>)
    ensures
        match res {
            None => !usable_rationals(values@, 2),
            Some(a) => usable_rationals(values@, 2) && a@ == values@,
        },
{
    if !rationals_usable(values, 2) {
        return None;
    }
    let a = [values[0], values[1]];
    assert(a@ =~= values@);
    Some(a)
}

// ----- reading the metadata of a RAW file -----

/// The first ASCII value of the primary-image EXIF field `tag` (in the Exif
/// IFD when `in_exif_ifd`, else in the TIFF IFD) of the file `bytes`, as text.
pub uninterp spec fn exif_text_of(bytes: Seq<u8>, in_exif_ifd: bool, tag: u16) -> Option<Seq<char>>;

/// The rational values (numerator, denominator) of the primary-image TIFF
/// field `tag` of the file `bytes`.
pub uninterp spec fn exif_rationals_of(bytes: Seq<u8>, tag: u16) -> Option<Seq<(u32, u32)>>;

/// Reads one text field of the EXIF data of a file.
///
/// Calls `exif::Reader::read_from_container` on the bytes and
/// `exif::Exif::get_field` for the primary image, and decodes the field's
/// first ASCII value (invalid UTF-8 replaced). `None` when the container or
/// the field cannot be read, or the field is not ASCII. What it returns is
/// named, not stated: it depends on the bytes and the field alone.
#[verifier::external_body]
fn exif_text(bytes: &[u8], in_exif_ifd: bool, tag: u16) -> (res: Option<String>)
    ensures
        match res {
            Some(t) => exif_text_of(bytes@, in_exif_ifd, tag) == Some(t@),
            None => exif_text_of(bytes@, in_exif_ifd, tag) is None,
        },
{
    let context = if in_exif_ifd { exif::Context::Exif } else { exif::Context::Tiff };
    let exif = exif::Reader::new().read_from_container(&mut std::io::Cursor::new(bytes)).ok()?;
    match &exif.get_field(exif::Tag(context, tag), exif::In::PRIMARY)?.value {
        exif::Value::Ascii(values) => values.first().map(|v| String::from_utf8_lossy(v).into_owned()),
        _ => None,
    }
}

/// Reads one rational field of the TIFF IFD of a file's EXIF data.
///
/// Calls `exif::Reader::read_from_container` on the bytes and
/// `exif::Exif::get_field` for the primary image; `None` when the container
/// or the field cannot be read or the field is not RATIONAL. What it returns
/// is named, not stated.
#[verifier::external_body]
fn exif_rationals(bytes: &[u8], tag: u16) -> (res: Option<Vec<(u32, u32)>>)
    ensures
        match res {
            Some(v) => exif_rationals_of(bytes@, tag) == Some(v@),
            None => exif_rationals_of(bytes@, tag) is None,
        },
{
    let exif = exif::Reader::new().read_from_container(&mut std::io::Cursor::new(bytes)).ok()?;
    match &exif.get_field(exif::Tag(exif::Context::Tiff, tag), exif::In::PRIMARY)?.value {
        exif::Value::Rational(values) => Some(values.iter().map(|r| (r.num, r.denom)).collect()),
        _ => None,
    }
}

/// A text field as the metadata keeps it: normalized, and absent when empty.
pub open spec fn present_text(t: Option<Seq<char>>) -> Option<Seq<char>> {
    match t {
        Some(s) => if normalized_text(s).len() > 0 { Some(normalized_text(s)) } else { None },
        None => None,
    }
}

pub open spec fn opt_timestamp(t: Option<Seq<char>>) -> Option<i64> {
    match t {
        Some(v) => exif_timestamp_ms(v),
        None => None,
    }
}

/// The capture time: the original date-time when it parses, else the
/// file's date-time.
pub open spec fn capture_time_of(original: Option<Seq<char>>, modified: Option<Seq<char>>) -> Option<i64> {
    match opt_timestamp(original) {
        Some(t) => Some(t),
        None => opt_timestamp(modified),
    }
}

/// Reading the timestamps never needs a date beyond the day arithmetic: the
/// original one is readable, and so is the other one whenever it is needed.
pub open spec fn timestamps_readable(original: Option<Seq<char>>, modified: Option<Seq<char>>) -> bool {
    &&& original matches Some(v) ==> !stamp_overflows(v)
    &&& opt_timestamp(original) is None ==> (modified matches Some(v) ==> !stamp_overflows(v))
}

pub open spec fn as_rationals(v: Seq<(u32, u32)>) -> Seq<RawRational> {
    v.map_values(|p: (u32, u32)| RawRational { num: p.0, denom: p.1 })
}

/// A rational field of `n` values, kept only when it has exactly `n` values
/// and no zero denominator.
pub open spec fn exact_rationals(v: Option<Seq<(u32, u32)>>, n: nat) -> Option<Seq<RawRational>> {
    match v {
        Some(s) => if usable_rationals(as_rationals(s), n) { Some(as_rationals(s)) } else { None },
        None => None,
    }
}

pub open spec fn opt_seq<const N: usize>(a: Option<[RawRational; N]>) -> Option<Seq<RawRational>> {
    match a {
        Some(x) => Some(x@),
        None => None,
    }
}

pub open spec fn opt_str(o: Option<&str>) -> Option<Seq<char>> {
    match o {
        Some(t) => Some(t@),
        None => None,
    }
}

pub open spec fn opt_pairs(o: Option<&[(u32, u32)]>) -> Option<Seq<(u32, u32)>> {
    match o {
        Some(v) => Some(v@),
        None => None,
    }
}

/// The metadata evidence of a RAW file from its EXIF fields: the camera
/// identity from make and model, the capture time, and the white balance the
/// camera recorded when it is usable (never turned into a temperature).
pub open spec fn evidence_of(
    make: Option<Seq<char>>,
    model: Option<Seq<char>>,
    original: Option<Seq<char>>,
    modified: Option<Seq<char>>,
    neutral: Option<Seq<(u32, u32)>>,
    white_xy: Option<Seq<(u32, u32)>>,
    e: RawMetadataEvidence,
) -> bool {
    &&& match e.camera_id {
        Some(c) => camera_id_of(present_text(make), present_text(model)) == Some(c@),
        None => camera_id_of(present_text(make), present_text(model)) is None,
    }
    &&& e.capture_time_ms == capture_time_of(original, modified)
    &&& match e.white_balance {
        Some(wb) => opt_seq(wb.as_shot_neutral) == exact_rationals(neutral, 3)
            && opt_seq(wb.as_shot_white_xy) == exact_rationals(white_xy, 2)
            && (wb.as_shot_neutral is Some || wb.as_shot_white_xy is Some),
        None => exact_rationals(neutral, 3) is None && exact_rationals(white_xy, 2) is None,
    }
}

fn present(t: Option<&str>) -> (res: Option<String>)
    ensures
        match res {
            Some(s) => present_text(opt_str(t)) == Some(s@),
            None => present_text(opt_str(t)) is None,
        },
{
    match t {
        None => None,
        Some(v) => {
            let n = normalize_text(v);
            if n.as_str().is_empty() {
                None
            } else {
                Some(n)
            }
        },
    }
}

fn rationals_from(v: &[(u32, u32)]) -> (res: Vec<RawRational>)
    ensures
        res@ == as_rationals(v@),
{
    let mut out: Vec<RawRational> = Vec::new();
    let mut i: usize = 0;
    while i < v.len()
        invariant
            i <= v@.len(),
            out@ == as_rationals(v@).subrange(0, i as int),
        decreases v@.len() - i,
    {
        out.push(RawRational { num: v[i].0, denom: v[i].1 });
        i += 1;
        assert(out@ =~= as_rationals(v@).subrange(0, i as int));
    }
    assert(as_rationals(v@).subrange(0, v@.len() as int) =~= as_rationals(v@));
    out
}

/// Builds the metadata evidence of a RAW file from the EXIF fields read from
/// it (see `evidence_of`).
pub fn evidence_from_fields(
    make: Option<&str>,
    model: Option<&str>,
    date_time_original: Option<&str>,
    date_time: Option<&str>,
    as_shot_neutral: Option<&[(u32, u32)]>,
    as_shot_white_xy: Option<&[(u32, u32)]>,
) -> (res: RawMetadataEvidence)
    requires
        timestamps_readable(opt_str(date_time_original), opt_str(date_time)),
    ensures
        evidence_of(opt_str(make), opt_str(model), opt_str(date_time_original), opt_str(date_time),
            opt_pairs(as_shot_neutral), opt_pairs(as_shot_white_xy), res),
{
    let make = present(make);
    let model = present(model);
    let camera_id = match (&make, &model) {
        (Some(a), Some(b)) => combine_camera_id(Some(a.as_str()), Some(b.as_str())),
        (Some(a), None) => combine_camera_id(Some(a.as_str()), None),
        (None, Some(b)) => combine_camera_id(None, Some(b.as_str())),
        (None, None) => combine_camera_id(None, None),
    };
    let original = match date_time_original {
        Some(v) => parse_exif_datetime_ms(v),
        None => None,
    };
    let capture_time_ms = match original {
        Some(t) => Some(t),
        None => match date_time {
            Some(v) => parse_exif_datetime_ms(v),
            None => None,
        },
    };
    let neutral = match as_shot_neutral {
        Some(v) => rational_triple(&rationals_from(v)),
        None => None,
    };
    let white_xy = match as_shot_white_xy {
        Some(v) => rational_pair(&rationals_from(v)),
        None => None,
    };
    let wb = RawWhiteBalanceEvidence { as_shot_neutral: neutral, as_shot_white_xy: white_xy };
    let white_balance = if wb.is_empty() { None } else { Some(wb) };
    RawMetadataEvidence { camera_id, capture_time_ms, white_balance }
}

pub open spec fn file_evidence(bytes: Seq<u8>, e: RawMetadataEvidence) -> bool {
    evidence_of(
        exif_text_of(bytes, false, 0x10f),
        exif_text_of(bytes, false, 0x110),
        exif_text_of(bytes, true, 0x9003),
        exif_text_of(bytes, false, 0x132),
        exif_rationals_of(bytes, 0xc628),
        exif_rationals_of(bytes, 0xc629),
        e,
    )
}

/// The metadata evidence of a RAW file from its bytes: make, model, the two
/// date-times, and the as-shot neutral and white point of its EXIF data. A
/// file without readable EXIF gives empty evidence. `None` only when a
/// timestamp names a date beyond the day arithmetic.
pub fn raw_metadata_from_bytes(bytes: &[u8]) -> (res: Option<RawMetadataEvidence>)
    ensures
        match res {
            Some(e) => file_evidence(bytes@, e),
            None => !timestamps_readable(exif_text_of(bytes@, true, 0x9003), exif_text_of(bytes@, false, 0x132)),
        },
{
    let make = exif_text(bytes, false, 0x10f);
    let model = exif_text(bytes, false, 0x110);
    let original = exif_text(bytes, true, 0x9003);
    let modified = exif_text(bytes, false, 0x132);
    let neutral = exif_rationals(bytes, 0xc628);
    let white_xy = exif_rationals(bytes, 0xc629);
    let original_ok = match &original {
        Some(v) => !exif_timestamp_overflows(v.as_str()),
        None => true,
    };
    if !original_ok {
        return None;
    }
    let original_time = match &original {
        Some(v) => parse_exif_datetime_ms(v.as_str()),
        None => None,
    };
    if original_time.is_none() {
        let modified_ok = match &modified {
            Some(v) => !exif_timestamp_overflows(v.as_str()),
            None => true,
        };
        if !modified_ok {
            return None;
        }
    }
    let e = evidence_from_fields(
        match &make { Some(v) => Some(v.as_str()), None => None },
        match &model { Some(v) => Some(v.as_str()), None => None },
        match &original { Some(v) => Some(v.as_str()), None => None },
        match &modified { Some(v) => Some(v.as_str()), None => None },
        match &neutral { Some(v) => Some(v.as_slice()), None => None },
        match &white_xy { Some(v) => Some(v.as_slice()), None => None },
    );
    Some(e)
}

} // verus!
