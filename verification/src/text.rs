//! Character-level helpers shared by the parsers and path planners.

use vstd::prelude::*;

verus! {

/// The characters of `s`, in order.
pub fn chars_of(s: &str) -> (res: Vec<char>)
    ensures
        res@ == s@,
{
    let mut out: Vec<char> = Vec::new();
    for c in it: s.chars()
        invariant
            out@ == it.seq().take(it.index() as int),
    {
        out.push(c);
    }
    proof {
        broadcast use vstd::string::axiom_spec_iter;
        assert(out@ =~= s@);
    }
    out
}

/// A string holding exactly the characters of `chars`.
///
/// Calls std's `FromIterator<&char>` for `String`, which appends each
/// character in order.
#[verifier::external_body]
pub(crate) fn string_of(chars: &[char]) -> (res: String)
    ensures
        res@ == chars@,
{
    String::from_iter(chars)
}

pub open spec fn is_ascii_digit(c: char) -> bool {
    '0' <= c <= '9'
}

pub open spec fn is_ascii_upper(c: char) -> bool {
    'A' <= c <= 'Z'
}

pub open spec fn ascii_lower(c: char) -> char {
    if is_ascii_upper(c) {
        ((c as u32) + 32) as char
    } else {
        c
    }
}

pub open spec fn ascii_lower_seq(s: Seq<char>) -> Seq<char> {
    Seq::new(s.len(), |i: int| ascii_lower(s[i]))
}

pub fn char_is_ascii_digit(c: char) -> (res: bool)
    ensures
        res == is_ascii_digit(c),
{
    '0' <= c && c <= '9'
}

pub fn char_to_ascii_lower(c: char) -> (res: char)
    ensures
        res == ascii_lower(c),
{
    if 'A' <= c && c <= 'Z' {
        let v: u8 = (c as u8) + 32;
        v as char
    } else {
        c
    }
}

pub fn to_ascii_lower(s: &[char]) -> (res: Vec<char>)
    ensures
        res@ == ascii_lower_seq(s@),
{
    let mut out: Vec<char> = Vec::new();
    let mut i: usize = 0;
    while i < s.len()
        invariant
            i <= s@.len(),
            out@ == ascii_lower_seq(s@.take(i as int)),
        decreases s@.len() - i,
    {
        out.push(char_to_ascii_lower(s[i]));
        i += 1;
        assert(out@ =~= ascii_lower_seq(s@.take(i as int)));
    }
    assert(s@.take(s@.len() as int) =~= s@);
    out
}

/// Unicode white space, as `char::is_whitespace` defines it (the
/// `White_Space` property).
pub open spec fn is_white_space(c: char) -> bool {
    let v = c as u32;
    (0x09 <= v <= 0x0D) || v == 0x20 || v == 0x85 || v == 0xA0 || v == 0x1680
        || (0x2000 <= v <= 0x200A) || v == 0x2028 || v == 0x2029 || v == 0x202F
        || v == 0x205F || v == 0x3000
}

pub fn char_is_white_space(c: char) -> (res: bool)
    ensures
        res == is_white_space(c),
{
    let v = c as u32;
    (0x09 <= v && v <= 0x0D) || v == 0x20 || v == 0x85 || v == 0xA0 || v == 0x1680
        || (0x2000 <= v && v <= 0x200A) || v == 0x2028 || v == 0x2029 || v == 0x202F
        || v == 0x205F || v == 0x3000
}

/// Which characters separate the fields of a text.
pub enum Sep {
    /// The single character `:`.
    Colon,
    /// Any white space.
    Space,
}

pub open spec fn is_sep(k: Sep, c: char) -> bool {
    match k {
        Sep::Colon => c == ':',
        Sep::Space => is_white_space(c),
    }
}

fn char_is_sep(k: &Sep, c: char) -> (res: bool)
    ensures
        res == is_sep(*k, c),
{
    match k {
        Sep::Colon => c == ':',
        Sep::Space => char_is_white_space(c),
    }
}

/// Index of the last separator in `s`, or -1.
pub open spec fn last_sep_of(s: Seq<char>, k: Sep) -> int
    decreases s.len(),
{
    if s.len() == 0 {
        -1
    } else if is_sep(k, s.last()) {
        s.len() - 1
    } else {
        last_sep_of(s.drop_last(), k)
    }
}

pub proof fn lemma_last_sep_of(s: Seq<char>, k: Sep)
    ensures
        -1 <= last_sep_of(s, k) < s.len(),
        last_sep_of(s, k) >= 0 ==> is_sep(k, s[last_sep_of(s, k)]),
        forall|j: int| last_sep_of(s, k) < j < s.len() ==> !is_sep(k, s[j]),
    decreases s.len(),
{
    if s.len() > 0 && !is_sep(k, s.last()) {
        lemma_last_sep_of(s.drop_last(), k);
        assert forall|j: int| last_sep_of(s, k) < j < s.len() implies !is_sep(k, s[j]) by {
            if j < s.len() - 1 {
                assert(s[j] == s.drop_last()[j]);
            }
        }
    }
}

proof fn lemma_last_sep_of_is(s: Seq<char>, k: Sep, i: int)
    requires
        -1 <= i < s.len(),
        i >= 0 ==> is_sep(k, s[i]),
        forall|j: int| i < j < s.len() ==> !is_sep(k, s[j]),
    ensures
        last_sep_of(s, k) == i,
{
    lemma_last_sep_of(s, k);
    let l = last_sep_of(s, k);
    if l > i {
        assert(!is_sep(k, s[l]));
    } else if l < i {
        assert(!is_sep(k, s[i]));
    }
}

/// The fields of `s` between separators, empty fields kept (as `str::split`).
pub open spec fn split_fields(s: Seq<char>, k: Sep) -> Seq<Seq<char>>
    decreases s.len(),
{
    let j = last_sep_of(s, k);
    if j < 0 {
        seq![s]
    } else {
        proof {
            lemma_last_sep_of(s, k);
        }
        split_fields(s.subrange(0, j), k).push(s.subrange(j + 1, s.len() as int))
    }
}

/// The non-empty runs of `s` between separators (as `str::split_whitespace`).
pub open spec fn split_words(s: Seq<char>, k: Sep) -> Seq<Seq<char>>
    decreases s.len(),
{
    if s.len() == 0 {
        seq![]
    } else {
        let j = last_sep_of(s, k);
        let seg = s.subrange(j + 1, s.len() as int);
        if j < 0 {
            seq![seg]
        } else {
            proof {
                lemma_last_sep_of(s, k);
            }
            let rest = split_words(s.subrange(0, j), k);
            if seg.len() == 0 {
                rest
            } else {
                rest.push(seg)
            }
        }
    }
}

fn find_last_sep(s: &[char], end: usize, k: &Sep) -> (res: Option<usize>)
    requires
        end <= s@.len(),
    ensures
        match res {
            None => last_sep_of(s@.subrange(0, end as int), *k) == -1,
            Some(j) => j < end && last_sep_of(s@.subrange(0, end as int), *k) == j,
        },
{
    let ghost t = s@.subrange(0, end as int);
    let mut i = end;
    while i > 0
        invariant
            i <= end <= s@.len(),
            t == s@.subrange(0, end as int),
            forall|j: int| i <= j < end ==> !is_sep(*k, t[j]),
        decreases i,
    {
        if char_is_sep(k, s[i - 1]) {
            proof {
                lemma_last_sep_of_is(t, *k, i - 1);
            }
            return Some(i - 1);
        }
        i -= 1;
    }
    proof {
        lemma_last_sep_of_is(t, *k, -1);
    }
    None
}

fn copy_chars(p: &[char], start: usize, end: usize) -> (res: Vec<char>)
    requires
        start <= end <= p@.len(),
    ensures
        res@ == p@.subrange(start as int, end as int),
{
    crate::path::copy_range(p, start, end)
}

fn fields_upto(s: &[char], end: usize, k: &Sep, drop_empty: bool) -> (res: Vec<Vec<char>>)
    requires
        end <= s@.len(),
    ensures
        crate::path::views(res@) == if drop_empty {
            split_words(s@.subrange(0, end as int), *k)
        } else {
            split_fields(s@.subrange(0, end as int), *k)
        },
    decreases end,
{
    let ghost t = s@.subrange(0, end as int);
    let j = find_last_sep(s, end, k);
    match j {
        None => {
            let seg = copy_chars(s, 0, end);
            let mut v: Vec<Vec<char>> = Vec::new();
            if drop_empty && end == 0 {
                assert(crate::path::views(v@) =~= split_words(t, *k));
                return v;
            }
            assert(t.subrange(0, t.len() as int) =~= t);
            v.push(seg);
            assert(crate::path::views(v@) =~= seq![t]);
            v
        },
        Some(j) => {
            let mut v = fields_upto(s, j, k, drop_empty);
            let seg = copy_chars(s, j + 1, end);
            assert(t.subrange(0, j as int) =~= s@.subrange(0, j as int));
            assert(seg@ =~= t.subrange(j + 1, t.len() as int));
            if drop_empty && j + 1 == end {
                return v;
            }
            let ghost before = crate::path::views(v@);
            v.push(seg);
            assert(crate::path::views(v@) =~= before.push(seg@));
            v
        },
    }
}

/// Splits `s` at separators; with `drop_empty`, empty fields are left out.
pub fn split_text(s: &[char], k: &Sep, drop_empty: bool) -> (res: Vec<Vec<char>>)
    ensures
        crate::path::views(res@) == if drop_empty {
            split_words(s@, *k)
        } else {
            split_fields(s@, *k)
        },
{
    assert(s@.subrange(0, s@.len() as int) =~= s@);
    fields_upto(s, s.len(), k, drop_empty)
}

/// A character that `trim_matches` removes from either end of EXIF text:
/// NUL or white space.
pub open spec fn is_padding(c: char) -> bool {
    c == '\0' || is_white_space(c)
}

/// `s` without its leading and trailing padding.
pub open spec fn trim_padding(s: Seq<char>) -> Seq<char> {
    let a = first_unpadded(s);
    let b = last_unpadded(s);
    if a > b { seq![] } else { s.subrange(a, b + 1) }
}

/// Index of the first character that is not padding (or `s.len()`).
pub open spec fn first_unpadded(s: Seq<char>) -> int
    decreases s.len(),
{
    if s.len() == 0 {
        0
    } else if is_padding(s[0]) {
        1 + first_unpadded(s.subrange(1, s.len() as int))
    } else {
        0
    }
}

/// Index of the last character that is not padding (or -1).
pub open spec fn last_unpadded(s: Seq<char>) -> int
    decreases s.len(),
{
    if s.len() == 0 {
        -1
    } else if is_padding(s.last()) {
        last_unpadded(s.drop_last())
    } else {
        s.len() - 1
    }
}

proof fn lemma_first_unpadded_is(s: Seq<char>, i: int)
    requires
        0 <= i <= s.len(),
        forall|j: int| 0 <= j < i ==> is_padding(s[j]),
        i < s.len() ==> !is_padding(s[i]),
    ensures
        first_unpadded(s) == i,
    decreases s.len(),
{
    if i > 0 {
        let t = s.subrange(1, s.len() as int);
        assert forall|j: int| 0 <= j < i - 1 implies is_padding(t[j]) by {
            assert(t[j] == s[j + 1]);
        }
        if i - 1 < t.len() {
            assert(t[i - 1] == s[i]);
        }
        lemma_first_unpadded_is(t, i - 1);
    }
}

proof fn lemma_last_unpadded_is(s: Seq<char>, i: int)
    requires
        -1 <= i < s.len(),
        forall|j: int| i < j < s.len() ==> is_padding(s[j]),
        i >= 0 ==> !is_padding(s[i]),
    ensures
        last_unpadded(s) == i,
    decreases s.len(),
{
    if i < s.len() - 1 {
        let t = s.drop_last();
        assert forall|j: int| i < j < t.len() implies is_padding(t[j]) by {
            assert(t[j] == s[j]);
        }
        if i >= 0 {
            assert(t[i] == s[i]);
        }
        lemma_last_unpadded_is(t, i);
    }
}

pub fn char_is_padding(c: char) -> (res: bool)
    ensures
        res == is_padding(c),
{
    c == '\0' || char_is_white_space(c)
}

/// Removes NUL and white space from both ends.
pub fn trim_padding_exec(s: &[char]) -> (res: Vec<char>)
    ensures
        res@ == trim_padding(s@),
{
    let mut a: usize = 0;
    while a < s.len() && char_is_padding(s[a])
        invariant
            a <= s@.len(),
            forall|j: int| 0 <= j < a ==> is_padding(s@[j]),
        decreases s@.len() - a,
    {
        a += 1;
    }
    proof {
        lemma_first_unpadded_is(s@, a as int);
    }
    let mut b: usize = s.len();
    while b > 0 && char_is_padding(s[b - 1])
        invariant
            b <= s@.len(),
            forall|j: int| b <= j < s@.len() ==> is_padding(s@[j]),
        decreases b,
    {
        b -= 1;
    }
    proof {
        lemma_last_unpadded_is(s@, b - 1);
    }
    if a >= b {
        Vec::new()
    } else {
        copy_chars(s, a, b)
    }
}

} // verus!
