//! RAW file recognition, sequence numbers and the RAW asset record.

use vstd::prelude::*;
use crate::ids::fresh_id;
use crate::path::{extension, file_name, file_stem, file_name_of, split_name};
use crate::text::{ascii_lower_seq, chars_of, char_is_ascii_digit, is_ascii_digit, string_of, to_ascii_lower};
use crate::path::views;

verus! {

/// The lower-case extensions recognised as camera RAW files.
pub open spec fn raw_extensions() -> Seq<Seq<char>> {
    seq![
        seq!['3', 'f', 'r'], seq!['a', 'r', 'w'], seq!['c', 'r', '2'], seq!['c', 'r', '3'],
        seq!['d', 'n', 'g'], seq!['i', 'i', 'q'], seq!['n', 'e', 'f'], seq!['n', 'r', 'w'],
        seq!['o', 'r', 'f'], seq!['p', 'e', 'f'], seq!['r', 'a', 'f'], seq!['r', 'w', '2'],
        seq!['s', 'r', '2'], seq!['s', 'r', 'f'],
    ]
}

fn raw_extension_table() -> (res: Vec<Vec<char>>)
    ensures
        views(res@) == raw_extensions(),
{
    let res = vec![
        vec!['3', 'f', 'r'], vec!['a', 'r', 'w'], vec!['c', 'r', '2'], vec!['c', 'r', '3'],
        vec!['d', 'n', 'g'], vec!['i', 'i', 'q'], vec!['n', 'e', 'f'], vec!['n', 'r', 'w'],
        vec!['o', 'r', 'f'], vec!['p', 'e', 'f'], vec!['r', 'a', 'f'], vec!['r', 'w', '2'],
        vec!['s', 'r', '2'], vec!['s', 'r', 'f'],
    ];
    assert(views(res@) =~= raw_extensions());
    res
}

/// A path names a RAW file: its extension, compared without case, is one of
/// the RAW extensions.
pub open spec fn is_raw_path(p: Seq<char>) -> bool {
    match extension(p) {
        Some(e) => raw_extensions().contains(ascii_lower_seq(e)),
        None => false,
    }
}

fn ext_in_table(e: &[char]) -> (res: bool)
    ensures
        res == raw_extensions().contains(e@),
{
    let table = raw_extension_table();
    let mut i: usize = 0;
    while i < table.len()
        invariant
            i <= table@.len(),
            views(table@) == raw_extensions(),
            forall|j: int| 0 <= j < i ==> raw_extensions()[j] != e@,
        decreases table@.len() - i,
    {
        if crate::path::chars_equal(&table[i], e) {
            assert(raw_extensions()[i as int] == e@);
            return true;
        }
        i += 1;
    }
    assert(!raw_extensions().contains(e@)) by {
        if raw_extensions().contains(e@) {
            let j = choose|j: int| 0 <= j < raw_extensions().len() && raw_extensions()[j] == e@;
            assert(raw_extensions()[j] != e@);
        }
    }
    false
}

fn is_raw_chars(p: &[char]) -> (res: bool)
    ensures
        res == is_raw_path(p@),
{
    match file_name_of(p) {
        None => false,
        Some(name) => {
            let (_, ext) = split_name(&name);
            match ext {
                None => false,
                Some(e) => {
                    let lower = to_ascii_lower(&e);
                    ext_in_table(&lower)
                },
            }
        },
    }
}

/// Whether `path` names a camera RAW file, judged by its extension.
pub fn is_supported_raw(path: &str) -> (res: bool)
    ensures
        res == is_raw_path(path@),
{
    let p = chars_of(path);
    is_raw_chars(&p)
}

/// Number of ASCII digits that end `s`.
pub open spec fn trailing_digits(s: Seq<char>) -> nat
    decreases s.len(),
{
    if s.len() > 0 && is_ascii_digit(s.last()) {
        1 + trailing_digits(s.drop_last())
    } else {
        0
    }
}

pub open spec fn digit_value(c: char) -> nat {
    ((c as u32) - ('0' as u32)) as nat
}

/// The decimal value of a run of ASCII digits.
pub open spec fn decimal_value(s: Seq<char>) -> nat
    decreases s.len(),
{
    if s.len() == 0 {
        0
    } else {
        decimal_value(s.drop_last()) * 10 + digit_value(s.last())
    }
}

/// The sequence number carried by a file name: the decimal value of the digits
/// that end its stem, when there are any and the value fits in 64 bits.
pub open spec fn sequence_number_of(filename: Seq<char>) -> Option<u64> {
    match file_stem(filename) {
        None => None,
        Some(stem) => {
            let n = trailing_digits(stem);
            let v = decimal_value(stem.subrange(stem.len() - n, stem.len() as int));
            if n == 0 || v > u64::MAX {
                None
            } else {
                Some(v as u64)
            }
        },
    }
}

proof fn lemma_trailing_digits(s: Seq<char>)
    ensures
        trailing_digits(s) <= s.len(),
        forall|j: int| s.len() - trailing_digits(s) <= j < s.len() ==> is_ascii_digit(s[j]),
        trailing_digits(s) < s.len() ==> !is_ascii_digit(s[s.len() - trailing_digits(s) - 1]),
    decreases s.len(),
{
    if s.len() > 0 && is_ascii_digit(s.last()) {
        lemma_trailing_digits(s.drop_last());
        assert forall|j: int| s.len() - trailing_digits(s) <= j < s.len() implies is_ascii_digit(s[j]) by {
            if j < s.len() - 1 {
                assert(s[j] == s.drop_last()[j]);
            }
        }
        if trailing_digits(s) < s.len() {
            assert(s[s.len() - trailing_digits(s) - 1] == s.drop_last()[s.drop_last().len() - trailing_digits(s.drop_last()) - 1]);
        }
    }
}

pub(crate) proof fn lemma_trailing_digits_is(s: Seq<char>, n: int)
    requires
        0 <= n <= s.len(),
        forall|j: int| s.len() - n <= j < s.len() ==> is_ascii_digit(s[j]),
        n < s.len() ==> !is_ascii_digit(s[s.len() - n - 1]),
    ensures
        trailing_digits(s) == n,
    decreases s.len(),
{
    if n > 0 {
        let t = s.drop_last();
        assert forall|j: int| t.len() - (n - 1) <= j < t.len() implies is_ascii_digit(t[j]) by {
            assert(t[j] == s[j]);
        }
        if n - 1 < t.len() {
            assert(t[t.len() - (n - 1) - 1] == s[s.len() - n - 1]);
        }
        lemma_trailing_digits_is(t, n - 1);
    }
}

proof fn lemma_decimal_monotone(s: Seq<char>, k: int)
    requires
        0 <= k <= s.len(),
    ensures
        decimal_value(s.subrange(0, k)) <= decimal_value(s),
    decreases s.len() - k,
{
    if k < s.len() {
        lemma_decimal_monotone(s, k + 1);
        assert(s.subrange(0, k + 1).drop_last() =~= s.subrange(0, k));
    } else {
        assert(s.subrange(0, k) =~= s);
    }
}

/// The value of the digits `s[start..end]`, or `None` when it exceeds 64 bits.
pub(crate) fn parse_decimal(s: &[char], start: usize, end: usize) -> (res: Option<u64>)
    requires
        start <= end <= s@.len(),
        forall|j: int| start <= j < end ==> is_ascii_digit(s@[j]),
    ensures
        match res {
            None => decimal_value(s@.subrange(start as int, end as int)) > u64::MAX,
            Some(v) => v == decimal_value(s@.subrange(start as int, end as int)),
        },
{
    let ghost d = s@.subrange(start as int, end as int);
    let mut value: u64 = 0;
    let mut i = start;
    assert(d.subrange(0, 0) =~= Seq::<char>::empty());
    while i < end
        invariant
            start <= i <= end <= s@.len(),
            d == s@.subrange(start as int, end as int),
            forall|j: int| start <= j < end ==> is_ascii_digit(s@[j]),
            value == decimal_value(d.subrange(0, i - start)),
        decreases end - i,
    {
        let c = s[i];
        let digit: u64 = ((c as u32) - ('0' as u32)) as u64;
        assert(d.subrange(0, i - start + 1).drop_last() =~= d.subrange(0, i - start));
        assert(d.subrange(0, i - start + 1).last() == c);
        match value.checked_mul(10) {
            None => {
                proof { lemma_decimal_monotone(d, i - start + 1); }
                return None;
            },
            Some(m) => match m.checked_add(digit) {
                None => {
                    proof { lemma_decimal_monotone(d, i - start + 1); }
                    return None;
                },
                Some(v) => {
                    value = v;
                },
            },
        }
        i += 1;
    }
    assert(d.subrange(0, end - start) =~= d);
    Some(value)
}

/// The sequence number at the end of a file name's stem, e.g. 1042 for
/// `DSC_1042.ARW`.
pub fn extract_sequence_number(filename: &str) -> (res: Option<u64>)
    ensures
        res == sequence_number_of(filename@),
{
    let p = chars_of(filename);
    let name = match file_name_of(&p) {
        None => return None,
        Some(n) => n,
    };
    let (stem, _) = split_name(&name);
    let mut start = stem.len();
    while start > 0 && char_is_ascii_digit(stem[start - 1])
        invariant
            start <= stem@.len(),
            forall|j: int| start <= j < stem@.len() ==> is_ascii_digit(stem@[j]),
        decreases start,
    {
        start -= 1;
    }
    proof {
        lemma_trailing_digits_is(stem@, stem@.len() - start);
    }
    if start == stem.len() {
        return None;
    }
    parse_decimal(&stem, start, stem.len())
}

/// One imported RAW file.
pub struct RawAsset {
    pub id: u128,
    pub source_path: String,
    pub filename: String,
    pub extension: String,
    pub camera_id: Option<String>,
    pub capture_time_ms: Option<i64>,
    pub file_time_ms: Option<i64>,
    pub sequence_number: Option<u64>,
}

impl Clone for RawAsset {
    fn clone(&self) -> (res: Self)
        ensures
            res == *self,
    {
        RawAsset {
            id: self.id,
            source_path: self.source_path.clone(),
            filename: self.filename.clone(),
            extension: self.extension.clone(),
            camera_id: match &self.camera_id {
                Some(c) => Some(c.clone()),
                None => None,
            },
            capture_time_ms: self.capture_time_ms,
            file_time_ms: self.file_time_ms,
            sequence_number: self.sequence_number,
        }
    }
}

/// The time that orders an asset on the shoot timeline: the capture time when
/// known, else the file time.
pub open spec fn effective_time(a: RawAsset) -> Option<i64> {
    match a.capture_time_ms {
        Some(t) => Some(t),
        None => a.file_time_ms,
    }
}

impl RawAsset {
    pub fn effective_time_ms(&self) -> (res: Option<i64>)
        ensures
            res == effective_time(*self),
    {
        match self.capture_time_ms {
            Some(t) => Some(t),
            None => self.file_time_ms,
        }
    }
}

/// A file offered for import, with its modification time when the file system
/// reported one.
pub struct ScannedPath {
    pub path: String,
    pub modified_ms: Option<i64>,
}

/// The outcome of sorting offered files into RAW assets and skipped files.
pub struct RawImportScan {
    pub assets: Vec<RawAsset>,
    pub skipped_non_raw: Vec<String>,
}

pub open spec fn raw_entries(e: Seq<ScannedPath>) -> Seq<ScannedPath> {
    e.filter(|x: ScannedPath| is_raw_path(x.path@))
}

pub open spec fn other_entries(e: Seq<ScannedPath>) -> Seq<ScannedPath> {
    e.filter(|x: ScannedPath| !is_raw_path(x.path@))
}

/// `a` is the asset record made from the RAW file `e`.
pub open spec fn asset_from_entry(a: RawAsset, e: ScannedPath) -> bool {
    &&& a.source_path@ == e.path@
    &&& Some(a.filename@) == file_name(e.path@)
    &&& extension(e.path@) is Some && a.extension@ == ascii_lower_seq(extension(e.path@)->0)
    &&& a.camera_id is None
    &&& a.capture_time_ms is None
    &&& a.file_time_ms == e.modified_ms
    &&& a.sequence_number == sequence_number_of(a.filename@)
}

fn asset_for_entry(e: &ScannedPath) -> (res: Option<RawAsset>)
    ensures
        match res {
            None => !is_raw_path(e.path@),
            Some(a) => is_raw_path(e.path@) && asset_from_entry(a, *e),
        },
{
    let p = chars_of(e.path.as_str());
    let name = match file_name_of(&p) {
        None => return None,
        Some(n) => n,
    };
    let (_, ext) = split_name(&name);
    let ext = match ext {
        None => return None,
        Some(x) => x,
    };
    let lower = to_ascii_lower(&ext);
    if !ext_in_table(&lower) {
        return None;
    }
    let filename = string_of(&name);
    let sequence_number = extract_sequence_number(filename.as_str());
    Some(RawAsset {
        id: fresh_id(),
        source_path: e.path.clone(),
        filename,
        extension: string_of(&lower),
        camera_id: None,
        capture_time_ms: None,
        file_time_ms: e.modified_ms,
        sequence_number,
    })
}

/// Sorts offered files into RAW assets, in offer order and each with a fresh
/// identifier, and the paths of the files that are not RAW.
pub fn scan_raw_paths(entries: Vec<ScannedPath>) -> (res: RawImportScan)
    ensures
        res.assets@.len() == raw_entries(entries@).len(),
        forall|i: int| 0 <= i < res.assets@.len()
            ==> asset_from_entry(#[trigger] res.assets@[i], raw_entries(entries@)[i]),
        res.skipped_non_raw@.len() == other_entries(entries@).len(),
        forall|i: int| 0 <= i < res.skipped_non_raw@.len()
            ==> (#[trigger] res.skipped_non_raw@[i])@ == other_entries(entries@)[i].path@,
{
    let mut assets: Vec<RawAsset> = Vec::new();
    let mut skipped: Vec<String> = Vec::new();
    let mut i: usize = 0;
    while i < entries.len()
        invariant
            i <= entries@.len(),
            assets@.len() == raw_entries(entries@.take(i as int)).len(),
            forall|j: int| 0 <= j < assets@.len()
                ==> asset_from_entry(#[trigger] assets@[j], raw_entries(entries@.take(i as int))[j]),
            skipped@.len() == other_entries(entries@.take(i as int)).len(),
            forall|j: int| 0 <= j < skipped@.len()
                ==> (#[trigger] skipped@[j])@ == other_entries(entries@.take(i as int))[j].path@,
        decreases entries@.len() - i,
    {
        let ghost before = entries@.take(i as int);
        let ghost after = entries@.take(i + 1);
        assert(after.drop_last() =~= before);
        assert(after.last() == entries@[i as int]);
        proof {
            reveal_with_fuel(Seq::filter, 1);
        }
        match asset_for_entry(&entries[i]) {
            Some(a) => {
                assets.push(a);
                assert(other_entries(after) == other_entries(before));
            },
            None => {
                skipped.push(entries[i].path.clone());
                assert(raw_entries(after) == raw_entries(before));
            },
        }
        i += 1;
    }
    assert(entries@.take(entries@.len() as int) =~= entries@);
    RawImportScan { assets, skipped_non_raw: skipped }
}

} // verus!
