//! Initial moment grouping: RAW assets are put on one shoot timeline and split
//! into runs of photos taken together (a burst, a bracket, a short scene).

use vstd::prelude::*;
use crate::ids::fresh_id;
use crate::path::{file_name_of, file_stem, split_name};
use crate::raw::{effective_time, trailing_digits, RawAsset};
use crate::text::{ascii_lower_seq, char_is_ascii_digit, chars_of, is_ascii_digit, to_ascii_lower};

verus! {

#[derive(PartialEq, Eq, Structural, Clone, Copy, Debug)]
pub enum PhotoGroupKind {
    Moment,
    Similar,
    Manual,
}

/// Why the photos of a group were put together.
#[derive(PartialEq, Eq, Structural, Clone, Copy, Debug)]
pub enum GroupingBasis {
    Time,
    TimeAndSequence,
    SequenceFallback,
    SemanticSimilarity,
    Singleton,
}

pub struct PhotoGroup {
    pub id: u128,
    pub kind: PhotoGroupKind,
    pub basis: GroupingBasis,
    pub asset_ids: Vec<u128>,
    pub manual_locked: bool,
}

impl Clone for PhotoGroup {
    fn clone(&self) -> (res: Self)
        ensures
            res.id == self.id,
            res.kind == self.kind,
            res.basis == self.basis,
            res.asset_ids@ == self.asset_ids@,
            res.manual_locked == self.manual_locked,
    {
        PhotoGroup {
            id: self.id,
            kind: self.kind,
            basis: self.basis,
            asset_ids: self.asset_ids.clone(),
            manual_locked: self.manual_locked,
        }
    }
}

/// Gaps that still count as one moment.
#[derive(PartialEq, Eq, Structural, Clone, Copy, Debug)]
pub struct InitialGroupingConfig {
    pub short_gap_ms: i64,
    pub max_gap_ms: i64,
    pub max_sequence_gap: u64,
}

impl Default for InitialGroupingConfig {
    fn default() -> (res: Self)
        ensures
            res.short_gap_ms == 1_500,
            res.max_gap_ms == 4_000,
            res.max_sequence_gap == 1,
    {
        InitialGroupingConfig { short_gap_ms: 1_500, max_gap_ms: 4_000, max_sequence_gap: 1 }
    }
}

// ----- the timeline order -----

pub open spec fn int_order(x: int, y: int) -> int {
    if x < y {
        -1
    } else if x > y {
        1
    } else {
        0
    }
}

/// Lexicographic comparison by code point (the order of `String`s).
pub open spec fn text_order(x: Seq<char>, y: Seq<char>) -> int
    decreases x.len(),
{
    if x.len() == 0 {
        if y.len() == 0 { 0 } else { -1 }
    } else if y.len() == 0 {
        1
    } else if x[0] != y[0] {
        int_order(x[0] as int, y[0] as int)
    } else {
        text_order(x.subrange(1, x.len() as int), y.subrange(1, y.len() as int))
    }
}

pub proof fn lemma_text_order_antisym(x: Seq<char>, y: Seq<char>)
    ensures
        text_order(x, y) == -text_order(y, x),
        text_order(x, y) == 0 ==> x == y,
    decreases x.len(),
{
    if x.len() > 0 && y.len() > 0 && x[0] == y[0] {
        lemma_text_order_antisym(x.subrange(1, x.len() as int), y.subrange(1, y.len() as int));
        if text_order(x, y) == 0 {
            assert(x =~= seq![x[0]] + x.subrange(1, x.len() as int));
            assert(y =~= seq![y[0]] + y.subrange(1, y.len() as int));
        }
    } else if x.len() > 0 && y.len() > 0 {
        assert((x[0] as int) != (y[0] as int));
    } else if x.len() == 0 && y.len() == 0 {
        assert(x =~= y);
    }
}

pub proof fn lemma_text_order_trans(x: Seq<char>, y: Seq<char>, z: Seq<char>)
    requires
        text_order(x, y) <= 0,
        text_order(y, z) <= 0,
    ensures
        text_order(x, z) <= 0,
    decreases x.len(),
{
    if x.len() > 0 && y.len() > 0 && z.len() > 0 && x[0] == y[0] && y[0] == z[0] {
        lemma_text_order_trans(
            x.subrange(1, x.len() as int),
            y.subrange(1, y.len() as int),
            z.subrange(1, z.len() as int),
        );
    } else if x.len() > 0 && y.len() > 0 && z.len() > 0 {
        assert((x[0] as int) <= (y[0] as int) && (y[0] as int) <= (z[0] as int));
        if x[0] == z[0] {
            assert((x[0] as int) == (z[0] as int));
            assert(x[0] == y[0]);
        }
    }
}

/// Assets with a known time come first, then by time, by sequence number (a
/// missing number first), by file name.
pub open spec fn time_rank(a: RawAsset) -> int {
    if effective_time(a) is Some { 0 } else { 1 }
}

pub open spec fn time_value(a: RawAsset) -> int {
    match effective_time(a) {
        Some(t) => t as int,
        None => 0,
    }
}

pub open spec fn sequence_rank(a: RawAsset) -> int {
    match a.sequence_number {
        Some(v) => v as int,
        None => -1,
    }
}

pub open spec fn asset_order(a: RawAsset, b: RawAsset) -> int {
    let c1 = int_order(time_rank(a), time_rank(b));
    let c2 = int_order(time_value(a), time_value(b));
    let c3 = int_order(sequence_rank(a), sequence_rank(b));
    if c1 != 0 {
        c1
    } else if c2 != 0 {
        c2
    } else if c3 != 0 {
        c3
    } else {
        text_order(a.filename@, b.filename@)
    }
}

pub proof fn lemma_asset_order_antisym(a: RawAsset, b: RawAsset)
    ensures
        asset_order(a, b) == -asset_order(b, a),
{
    lemma_text_order_antisym(a.filename@, b.filename@);
}

pub proof fn lemma_asset_order_trans(a: RawAsset, b: RawAsset, c: RawAsset)
    requires
        asset_order(a, b) <= 0,
        asset_order(b, c) <= 0,
    ensures
        asset_order(a, c) <= 0,
{
    if int_order(time_rank(a), time_rank(b)) == 0 && int_order(time_value(a), time_value(b)) == 0
        && int_order(sequence_rank(a), sequence_rank(b)) == 0 && int_order(time_rank(b), time_rank(c))
        == 0 && int_order(time_value(b), time_value(c)) == 0 && int_order(sequence_rank(b), sequence_rank(c))
        == 0 {
        lemma_text_order_trans(a.filename@, b.filename@, c.filename@);
    }
}

pub proof fn lemma_asset_order_strict(a: RawAsset, b: RawAsset, c: RawAsset)
    ensures
        asset_order(a, b) < 0 && asset_order(b, c) <= 0 ==> asset_order(a, c) < 0,
        asset_order(a, b) <= 0 && asset_order(b, c) < 0 ==> asset_order(a, c) < 0,
{
    lemma_asset_order_antisym(a, b);
    lemma_asset_order_antisym(b, c);
    lemma_asset_order_antisym(a, c);
    if asset_order(a, b) < 0 && asset_order(b, c) <= 0 && asset_order(a, c) >= 0 {
        lemma_asset_order_trans(b, c, a);
    }
    if asset_order(a, b) <= 0 && asset_order(b, c) < 0 && asset_order(a, c) >= 0 {
        lemma_asset_order_trans(c, a, b);
    }
}

/// Asset `i` comes before asset `j` on the timeline; equal keys keep input
/// order.
pub open spec fn before_in_timeline(assets: Seq<RawAsset>, i: int, j: int) -> bool {
    asset_order(assets[i], assets[j]) < 0 || (asset_order(assets[i], assets[j]) == 0 && i < j)
}

/// `ord` lists every asset index once, in timeline order (a stable sort).
pub open spec fn is_timeline_order(assets: Seq<RawAsset>, ord: Seq<usize>) -> bool {
    &&& ord.len() == assets.len()
    &&& forall|k: int| 0 <= k < ord.len() ==> ord[k] < assets.len()
    &&& forall|k: int, l: int|
        0 <= k < l < ord.len() ==> before_in_timeline(assets, ord[k] as int, ord[l] as int)
}

fn text_order_exec(x: &[char], y: &[char]) -> (res: i8)
    ensures
        res as int == text_order(x@, y@),
{
    let mut i: usize = 0;
    assert(x@.subrange(0, x@.len() as int) =~= x@);
    assert(y@.subrange(0, y@.len() as int) =~= y@);
    while i < x.len() && i < y.len() && x[i] == y[i]
        invariant
            i <= x@.len(),
            i <= y@.len(),
            text_order(x@, y@) == text_order(x@.subrange(i as int, x@.len() as int), y@.subrange(i as int, y@.len() as int)),
        decreases x@.len() - i,
    {
        let ghost xs = x@.subrange(i as int, x@.len() as int);
        let ghost ys = y@.subrange(i as int, y@.len() as int);
        assert(xs.subrange(1, xs.len() as int) =~= x@.subrange(i + 1, x@.len() as int));
        assert(ys.subrange(1, ys.len() as int) =~= y@.subrange(i + 1, y@.len() as int));
        assert(xs[0] == x@[i as int] && ys[0] == y@[i as int]);
        i += 1;
    }
    let ghost xs = x@.subrange(i as int, x@.len() as int);
    let ghost ys = y@.subrange(i as int, y@.len() as int);
    assert(xs.len() == x@.len() - i && ys.len() == y@.len() - i);
    if i == x.len() {
        if i == y.len() { 0 } else { -1 }
    } else if i == y.len() {
        1
    } else {
        assert(xs[0] == x@[i as int] && ys[0] == y@[i as int]);
        if x[i] < y[i] { -1 } else { 1 }
    }
}

fn int_order_exec(x: i128, y: i128) -> (res: i8)
    ensures
        res as int == int_order(x as int, y as int),
{
    if x < y { -1 } else if x > y { 1 } else { 0 }
}

fn asset_order_exec(a: &RawAsset, an: &[char], b: &RawAsset, bn: &[char]) -> (res: i8)
    requires
        an@ == a.filename@,
        bn@ == b.filename@,
    ensures
        res as int == asset_order(*a, *b),
{
    let ta = a.effective_time_ms();
    let tb = b.effective_time_ms();
    let ra: i128 = if ta.is_some() { 0 } else { 1 };
    let rb: i128 = if tb.is_some() { 0 } else { 1 };
    let va: i128 = match ta { Some(t) => t as i128, None => 0 };
    let vb: i128 = match tb { Some(t) => t as i128, None => 0 };
    let sa: i128 = match a.sequence_number { Some(v) => v as i128, None => -1 };
    let sb: i128 = match b.sequence_number { Some(v) => v as i128, None => -1 };
    let c1 = int_order_exec(ra, rb);
    if c1 != 0 {
        return c1;
    }
    let c2 = int_order_exec(va, vb);
    if c2 != 0 {
        return c2;
    }
    let c3 = int_order_exec(sa, sb);
    if c3 != 0 {
        return c3;
    }
    text_order_exec(an, bn)
}

fn filename_chars(assets: &[RawAsset]) -> (res: Vec<Vec<char>>)
    ensures
        res@.len() == assets@.len(),
        forall|k: int| 0 <= k < res@.len() ==> (#[trigger] res@[k])@ == assets@[k].filename@,
{
    let mut out: Vec<Vec<char>> = Vec::new();
    let mut i: usize = 0;
    while i < assets.len()
        invariant
            i <= assets@.len(),
            out@.len() == i,
            forall|k: int| 0 <= k < i ==> (#[trigger] out@[k])@ == assets@[k].filename@,
        decreases assets@.len() - i,
    {
        out.push(chars_of(assets[i].filename.as_str()));
        i += 1;
    }
    out
}

fn timeline_order_with(assets: &[RawAsset], names: &Vec<Vec<char>>) -> (ord: Vec<usize>)
    requires
        names@.len() == assets@.len(),
        forall|k: int| 0 <= k < names@.len() ==> (#[trigger] names@[k])@ == assets@[k].filename@,
    ensures
        is_timeline_order(assets@, ord@),
{
    let ghost a = assets@;
    let mut ord: Vec<usize> = Vec::new();
    let mut i: usize = 0;
    while i < assets.len()
        invariant
            i <= assets@.len(),
            a == assets@,
            names@.len() == assets@.len(),
            forall|k: int| 0 <= k < names@.len() ==> (#[trigger] names@[k])@ == assets@[k].filename@,
            ord@.len() == i,
            forall|k: int| 0 <= k < ord@.len() ==> ord@[k] < i,
            forall|k: int, l: int|
                0 <= k < l < ord@.len() ==> before_in_timeline(a, ord@[k] as int, ord@[l] as int),
        decreases assets@.len() - i,
    {
        let mut pos: usize = 0;
        while pos < ord.len()
            && asset_order_exec(&assets[ord[pos]], &names[ord[pos]], &assets[i], &names[i]) <= 0
            invariant
                pos <= ord@.len(),
                i < assets@.len(),
                a == assets@,
                names@.len() == assets@.len(),
                forall|k: int| 0 <= k < names@.len() ==> (#[trigger] names@[k])@ == assets@[k].filename@,
                forall|k: int| 0 <= k < ord@.len() ==> ord@[k] < i,
                forall|k: int| 0 <= k < pos ==> asset_order(a[ord@[k] as int], a[i as int]) <= 0,
            decreases ord@.len() - pos,
        {
            pos += 1;
        }
        let ghost old_ord = ord@;
        proof {
            if pos < old_ord.len() {
                lemma_asset_order_antisym(a[old_ord[pos as int] as int], a[i as int]);
            }
        }
        ord.insert(pos, i);
        proof {
            assert forall|k: int, l: int| 0 <= k < l < ord@.len() implies before_in_timeline(
                a,
                ord@[k] as int,
                ord@[l] as int,
            ) by {
                if l < pos {
                    assert(ord@[k] == old_ord[k] && ord@[l] == old_ord[l]);
                } else if l == pos {
                    assert(ord@[k] == old_ord[k]);
                    assert(ord@[l] == i);
                } else if k == pos {
                    assert(ord@[l] == old_ord[l - 1]);
                    let first = old_ord[pos as int];
                    if l - 1 > pos {
                        assert(before_in_timeline(a, first as int, old_ord[l - 1] as int));
                    }
                    lemma_asset_order_strict(a[i as int], a[first as int], a[old_ord[l - 1] as int]);
                } else if k < pos {
                    assert(ord@[k] == old_ord[k] && ord@[l] == old_ord[l - 1]);
                } else {
                    assert(ord@[k] == old_ord[k - 1] && ord@[l] == old_ord[l - 1]);
                }
            }
        }
        i += 1;
    }
    ord
}

/// Indices of `assets` in timeline order.
pub fn timeline_order(assets: &[RawAsset]) -> (ord: Vec<usize>)
    ensures
        is_timeline_order(assets@, ord@),
{
    let names = filename_chars(assets);
    timeline_order_with(assets, &names)
}

// ----- joining neighbours -----

/// Both photos name a camera, and not the same one.
pub open spec fn camera_conflict(a: RawAsset, b: RawAsset) -> bool {
    match (a.camera_id, b.camera_id) {
        (Some(x), Some(y)) => x@ != y@,
        _ => false,
    }
}

pub open spec fn sequence_close(a: RawAsset, b: RawAsset, max_gap: u64) -> bool {
    match (a.sequence_number, b.sequence_number) {
        (Some(x), Some(y)) => (if x >= y { x - y } else { y - x }) <= max_gap,
        _ => false,
    }
}

/// A file name's stem without its trailing digits, in lower case (`IMG_` for
/// `IMG_1042.CR3`).
pub open spec fn sequence_prefix(filename: Seq<char>) -> Seq<char> {
    let stem = match file_stem(filename) {
        Some(st) => st,
        None => filename,
    };
    ascii_lower_seq(stem.subrange(0, stem.len() - trailing_digits(stem)))
}

pub open spec fn saturated(v: int) -> int {
    if v > i64::MAX {
        i64::MAX as int
    } else if v < i64::MIN {
        i64::MIN as int
    } else {
        v
    }
}

pub open spec fn abs(v: int) -> int {
    if v < 0 { -v } else { v }
}

/// Whether, and on what basis, photo `next` continues the moment of `prev`.
pub open spec fn join_basis(prev: RawAsset, next: RawAsset, cfg: InitialGroupingConfig) -> Option<GroupingBasis> {
    if camera_conflict(prev, next) {
        None
    } else {
        let sequence_match = sequence_close(prev, next, cfg.max_sequence_gap);
        let prefix_match = sequence_prefix(prev.filename@) == sequence_prefix(next.filename@);
        match (effective_time(prev), effective_time(next)) {
            (Some(l), Some(r)) => {
                let gap = abs(saturated(r - l));
                if gap <= cfg.short_gap_ms {
                    Some(if sequence_match { GroupingBasis::TimeAndSequence } else { GroupingBasis::Time })
                } else if gap <= cfg.max_gap_ms && sequence_match && prefix_match {
                    Some(GroupingBasis::TimeAndSequence)
                } else {
                    None
                }
            },
            _ => if sequence_match && prefix_match {
                Some(GroupingBasis::SequenceFallback)
            } else {
                None
            },
        }
    }
}

/// Only two known, different cameras keep neighbours apart. When either
/// photo's camera is unknown, whether and how the two join is what it would
/// be with no camera on either side; photos of one camera, or with an
/// unknown camera, taken within the short gap always join; photos of two
/// known, different cameras never join; and photos taken further apart than
/// both gaps (a gap that fits in 64 bits) never join.
pub proof fn only_known_different_cameras_separate(prev: RawAsset, next: RawAsset, cfg: InitialGroupingConfig)
    ensures
        prev.camera_id is None || next.camera_id is None ==> join_basis(prev, next, cfg)
            == join_basis(RawAsset { camera_id: None, ..prev }, RawAsset { camera_id: None, ..next }, cfg),
        (prev.camera_id is None || next.camera_id is None || prev.camera_id->0@ == next.camera_id->0@)
            && effective_time(prev) is Some && effective_time(next) is Some
            && -cfg.short_gap_ms <= effective_time(next)->0 - effective_time(prev)->0 <= cfg.short_gap_ms
            ==> join_basis(prev, next, cfg) is Some,
        prev.camera_id is Some && next.camera_id is Some && prev.camera_id->0@ != next.camera_id->0@
            ==> join_basis(prev, next, cfg) is None,
        effective_time(prev) is Some && effective_time(next) is Some
            && abs(effective_time(next)->0 - effective_time(prev)->0) > cfg.max_gap_ms
            && abs(effective_time(next)->0 - effective_time(prev)->0) > cfg.short_gap_ms
            && abs(effective_time(next)->0 - effective_time(prev)->0) <= i64::MAX
            ==> join_basis(prev, next, cfg) is None,
{
}

/// The basis of a growing group after one more photo joins it.
pub open spec fn merged_basis(current: GroupingBasis, next: GroupingBasis) -> GroupingBasis {
    match (current, next) {
        (_, GroupingBasis::TimeAndSequence) => GroupingBasis::TimeAndSequence,
        (GroupingBasis::Singleton, b) => b,
        (GroupingBasis::SequenceFallback, GroupingBasis::Time) => GroupingBasis::Time,
        (b, _) => b,
    }
}

fn merge_basis(current: GroupingBasis, next: GroupingBasis) -> (res: GroupingBasis)
    ensures
        res == merged_basis(current, next),
{
    match (current, next) {
        (_, GroupingBasis::TimeAndSequence) => GroupingBasis::TimeAndSequence,
        (GroupingBasis::Singleton, b) => b,
        (GroupingBasis::SequenceFallback, GroupingBasis::Time) => GroupingBasis::Time,
        (b, _) => b,
    }
}

fn sequence_prefix_exec(filename: &[char]) -> (res: Vec<char>)
    ensures
        res@ == sequence_prefix(filename@),
{
    let stem = match file_name_of(filename) {
        Some(name) => split_name(&name).0,
        None => crate::path::copy_range(filename, 0, filename.len()),
    };
    assert(filename@.subrange(0, filename@.len() as int) =~= filename@);
    let mut end = stem.len();
    while end > 0 && char_is_ascii_digit(stem[end - 1])
        invariant
            end <= stem@.len(),
            forall|j: int| end <= j < stem@.len() ==> is_ascii_digit(stem@[j]),
        decreases end,
    {
        end -= 1;
    }
    proof {
        crate::raw::lemma_trailing_digits_is(stem@, stem@.len() - end);
    }
    let kept = crate::path::copy_range(&stem, 0, end);
    to_ascii_lower(&kept)
}

fn camera_conflicts(a: &RawAsset, b: &RawAsset) -> (res: bool)
    ensures
        res == camera_conflict(*a, *b),
{
    match (&a.camera_id, &b.camera_id) {
        (Some(x), Some(y)) => !x.eq(y),
        _ => false,
    }
}

fn sequence_is_close(a: &RawAsset, b: &RawAsset, max_gap: u64) -> (res: bool)
    ensures
        res == sequence_close(*a, *b, max_gap),
{
    match (a.sequence_number, b.sequence_number) {
        (Some(x), Some(y)) => (if x >= y { x - y } else { y - x }) <= max_gap,
        _ => false,
    }
}

fn should_join(prev: &RawAsset, prev_name: &[char], next: &RawAsset, next_name: &[char], cfg: InitialGroupingConfig) -> (res: Option<GroupingBasis>)
    requires
        prev_name@ == prev.filename@,
        next_name@ == next.filename@,
        (effective_time(*prev) is Some && effective_time(*next) is Some)
            ==> saturated(effective_time(*next)->0 - effective_time(*prev)->0) != i64::MIN,
    ensures
        res == join_basis(*prev, *next, cfg),
{
    if camera_conflicts(prev, next) {
        return None;
    }
    let sequence_match = sequence_is_close(prev, next, cfg.max_sequence_gap);
    let prefix_match = crate::path::chars_equal(&sequence_prefix_exec(prev_name), &sequence_prefix_exec(next_name));
    match (prev.effective_time_ms(), next.effective_time_ms()) {
        (Some(left), Some(right)) => {
            let wide: i128 = right as i128 - left as i128;
            let diff: i64 = if wide > 0x7FFF_FFFF_FFFF_FFFF {
                0x7FFF_FFFF_FFFF_FFFF
            } else if wide < -0x8000_0000_0000_0000 {
                -0x8000_0000_0000_0000
            } else {
                wide as i64
            };
            let gap: i64 = if diff < 0 { -diff } else { diff };
            if gap <= cfg.short_gap_ms {
                return Some(if sequence_match { GroupingBasis::TimeAndSequence } else { GroupingBasis::Time });
            }
            if gap <= cfg.max_gap_ms && sequence_match && prefix_match {
                return Some(GroupingBasis::TimeAndSequence);
            }
            None
        },
        _ => {
            if sequence_match && prefix_match {
                Some(GroupingBasis::SequenceFallback)
            } else {
                None
            }
        },
    }
}

// ----- moments -----

/// The moments of a timeline: photos are taken in order, and each one either
/// joins the moment of the photo before it or starts a new one.
pub open spec fn moment_segments(s: Seq<RawAsset>, cfg: InitialGroupingConfig) -> Seq<(Seq<RawAsset>, GroupingBasis)>
    decreases s.len(),
{
    if s.len() == 0 {
        seq![]
    } else if s.len() == 1 {
        seq![(seq![s[0]], GroupingBasis::Singleton)]
    } else {
        let prev = moment_segments(s.drop_last(), cfg);
        let open = prev.last();
        match join_basis(s[s.len() - 2], s.last(), cfg) {
            Some(b) => prev.update(prev.len() - 1, (open.0.push(s.last()), merged_basis(open.1, b))),
            None => prev.push((seq![s.last()], GroupingBasis::Singleton)),
        }
    }
}

/// All photos of the segments, in order.
pub open spec fn flatten(segs: Seq<(Seq<RawAsset>, GroupingBasis)>) -> Seq<RawAsset>
    decreases segs.len(),
{
    if segs.len() == 0 {
        seq![]
    } else {
        flatten(segs.drop_last()) + segs.last().0
    }
}

pub open spec fn ids_of(s: Seq<RawAsset>) -> Seq<u128> {
    Seq::new(s.len(), |k: int| s[k].id)
}

/// The assets in the order `ord` lists them.
pub open spec fn in_order(assets: Seq<RawAsset>, ord: Seq<usize>) -> Seq<RawAsset> {
    Seq::new(ord.len(), |k: int| assets[ord[k] as int])
}

/// The segmentation is the split of the timeline into maximal runs of
/// photos that each join the one before.
pub open spec fn maximal_runs(s: Seq<RawAsset>, segs: Seq<(Seq<RawAsset>, GroupingBasis)>, cfg: InitialGroupingConfig) -> bool {
    &&& flatten(segs) == s
    &&& forall|g: int| 0 <= g < segs.len() ==> (#[trigger] segs[g]).0.len() > 0
    &&& forall|g: int, k: int| 0 <= g < segs.len() && 1 <= k < segs[g].0.len()
        ==> (#[trigger] join_basis(segs[g].0[k - 1], segs[g].0[k], cfg)) is Some
    &&& forall|g: int| 1 <= g < segs.len()
        ==> (#[trigger] join_basis(segs[g - 1].0.last(), segs[g].0[0], cfg)) is None
    &&& forall|g: int| 0 <= g < segs.len()
        ==> ((#[trigger] segs[g]).1 == GroupingBasis::Singleton <==> segs[g].0.len() == 1)
}

proof fn lemma_join_not_singleton(prev: RawAsset, next: RawAsset, cfg: InitialGroupingConfig)
    ensures
        join_basis(prev, next, cfg) != Some(GroupingBasis::Singleton),
{
}

/// Law: the moments of a timeline are exactly its maximal runs of joined
/// neighbours. Every photo is in one moment, in timeline order; no moment is
/// empty; within a moment each photo joins the one before it; a photo that
/// starts a moment does not join the photo before it; and a moment is marked
/// Singleton exactly when it holds one photo.
pub proof fn moments_are_maximal_runs(s: Seq<RawAsset>, cfg: InitialGroupingConfig)
    ensures
        maximal_runs(s, moment_segments(s, cfg), cfg),
        s.len() == 0 <==> moment_segments(s, cfg).len() == 0,
    decreases s.len(),
{
    let segs = moment_segments(s, cfg);
    if s.len() == 0 {
        assert(flatten(segs) =~= s);
    } else if s.len() == 1 {
        assert(flatten(segs.drop_last()) =~= Seq::<RawAsset>::empty());
        assert(flatten(segs) =~= s);
    } else {
        let t = s.drop_last();
        let prev = moment_segments(t, cfg);
        moments_are_maximal_runs(t, cfg);
        let open = prev.last();
        assert(flatten(prev) == t);
        assert(flatten(prev) =~= flatten(prev.drop_last()) + open.0);
        assert(open.0.last() == t.last()) by {
            assert(open.0.len() > 0);
            assert(flatten(prev).last() == open.0.last());
        }
        assert(t.last() == s[s.len() - 2]);
        match join_basis(s[s.len() - 2], s.last(), cfg) {
            Some(b) => {
                lemma_join_not_singleton(s[s.len() - 2], s.last(), cfg);
                assert(segs.drop_last() =~= prev.drop_last());
                assert(flatten(segs) =~= flatten(prev.drop_last()) + open.0.push(s.last()));
                assert(flatten(prev.drop_last()) + open.0.push(s.last()) =~= (flatten(prev.drop_last()) + open.0).push(s.last()));
                assert(s =~= t.push(s.last()));
                assert(flatten(segs) =~= s);
                assert forall|g: int, k: int| 0 <= g < segs.len() && 1 <= k < segs[g].0.len()
                    implies (#[trigger] join_basis(segs[g].0[k - 1], segs[g].0[k], cfg)) is Some by {
                    if g == segs.len() - 1 && k == segs[g].0.len() - 1 {
                        assert(segs[g].0[k - 1] == open.0.last());
                    } else if g == segs.len() - 1 {
                        assert(segs[g].0[k - 1] == open.0[k - 1] && segs[g].0[k] == open.0[k]);
                    } else {
                        assert(segs[g] == prev[g]);
                    }
                }
                assert forall|g: int| 1 <= g < segs.len()
                    implies (#[trigger] join_basis(segs[g - 1].0.last(), segs[g].0[0], cfg)) is None by {
                    assert(segs[g - 1] == prev[g - 1]);
                    if g == segs.len() - 1 {
                        assert(segs[g].0[0] == open.0[0]);
                    } else {
                        assert(segs[g] == prev[g]);
                    }
                }
                assert forall|g: int| 0 <= g < segs.len()
                    implies ((#[trigger] segs[g]).1 == GroupingBasis::Singleton <==> segs[g].0.len() == 1) by {
                    if g < segs.len() - 1 {
                        assert(segs[g] == prev[g]);
                    }
                }
            },
            None => {
                assert(segs.drop_last() =~= prev);
                assert(flatten(segs) =~= s);
                assert forall|g: int, k: int| 0 <= g < segs.len() && 1 <= k < segs[g].0.len()
                    implies (#[trigger] join_basis(segs[g].0[k - 1], segs[g].0[k], cfg)) is Some by {
                    assert(segs[g] == prev[g]);
                }
                assert forall|g: int| 1 <= g < segs.len()
                    implies (#[trigger] join_basis(segs[g - 1].0.last(), segs[g].0[0], cfg)) is None by {
                    assert(segs[g - 1] == prev[g - 1]);
                    if g < segs.len() - 1 {
                        assert(segs[g] == prev[g]);
                    }
                }
                assert forall|g: int| 0 <= g < segs.len()
                    implies ((#[trigger] segs[g]).1 == GroupingBasis::Singleton <==> segs[g].0.len() == 1) by {
                    if g < segs.len() - 1 {
                        assert(segs[g] == prev[g]);
                    }
                }
            },
        }
    }
}

/// `group` is the persisted form of the moment `seg`.
pub open spec fn group_matches(group: PhotoGroup, seg: (Seq<RawAsset>, GroupingBasis)) -> bool {
    &&& group.asset_ids@ == ids_of(seg.0)
    &&& group.basis == seg.1
    &&& group.kind == PhotoGroupKind::Moment
    &&& !group.manual_locked
}

fn build_group(items: Vec<u128>, basis: GroupingBasis) -> (res: PhotoGroup)
    ensures
        res.asset_ids@ == items@,
        res.basis == (if items@.len() == 1 { GroupingBasis::Singleton } else { basis }),
        res.kind == PhotoGroupKind::Moment,
        !res.manual_locked,
{
    let basis = if items.len() == 1 { GroupingBasis::Singleton } else { basis };
    PhotoGroup { id: fresh_id(), kind: PhotoGroupKind::Moment, basis, asset_ids: items, manual_locked: false }
}

proof fn lemma_timeline_neighbours(assets: Seq<RawAsset>, ord: Seq<usize>, k: int)
    requires
        is_timeline_order(assets, ord),
        1 <= k < ord.len(),
    ensures
        ({
            let p = assets[ord[k - 1] as int];
            let n = assets[ord[k] as int];
            (effective_time(p) is Some && effective_time(n) is Some)
                ==> effective_time(p)->0 <= effective_time(n)->0
        }),
{
    assert(before_in_timeline(assets, ord[k - 1] as int, ord[k] as int));
}

/// The photo ids of `groups`, group after group.
pub open spec fn all_group_ids(groups: Seq<PhotoGroup>) -> Seq<u128>
    decreases groups.len(),
{
    if groups.len() == 0 {
        seq![]
    } else {
        all_group_ids(groups.drop_last()) + groups.last().asset_ids@
    }
}

proof fn lemma_group_ids(groups: Seq<PhotoGroup>, segs: Seq<(Seq<RawAsset>, GroupingBasis)>)
    requires
        groups.len() == segs.len(),
        forall|g: int| 0 <= g < groups.len() ==> group_matches(#[trigger] groups[g], segs[g]),
    ensures
        all_group_ids(groups) == ids_of(flatten(segs)),
    decreases groups.len(),
{
    if groups.len() > 0 {
        let gd = groups.drop_last();
        let sd = segs.drop_last();
        assert forall|g: int| 0 <= g < gd.len() implies group_matches(#[trigger] gd[g], sd[g]) by {
            assert(gd[g] == groups[g] && sd[g] == segs[g]);
        }
        lemma_group_ids(gd, sd);
        assert(group_matches(groups[groups.len() - 1], segs[segs.len() - 1]));
        assert(ids_of(flatten(segs)) =~= ids_of(flatten(sd)) + ids_of(segs.last().0));
    }
}

/// Law: the moments of an import partition it. There is a timeline order
/// listing every photo once whose ids, taken group after group, are exactly
/// the groups' members; there are no groups exactly when there are no
/// photos; every group is a non-empty, unlocked Moment, marked Singleton
/// exactly when it holds one photo; and two neighbours within a group never
/// name two different cameras.
pub proof fn moments_partition_the_import(assets: Seq<RawAsset>, cfg: InitialGroupingConfig, groups: Seq<PhotoGroup>, ord: Seq<usize>)
    requires
        is_timeline_order(assets, ord),
        moment_segments(in_order(assets, ord), cfg).len() == groups.len(),
        forall|g: int| 0 <= g < groups.len()
            ==> group_matches(#[trigger] groups[g], moment_segments(in_order(assets, ord), cfg)[g]),
    ensures
        forall|k: int, l: int| 0 <= k < l < ord.len() ==> #[trigger] ord[k] != #[trigger] ord[l],
        all_group_ids(groups) == ids_of(in_order(assets, ord)),
        assets.len() == 0 <==> groups.len() == 0,
        forall|g: int| 0 <= g < groups.len() ==> {
            &&& (#[trigger] groups[g]).asset_ids@.len() > 0
            &&& groups[g].kind == PhotoGroupKind::Moment
            &&& !groups[g].manual_locked
            &&& (groups[g].basis == GroupingBasis::Singleton <==> groups[g].asset_ids@.len() == 1)
        },
        forall|g: int, k: int| 0 <= g < groups.len()
            && 1 <= k < moment_segments(in_order(assets, ord), cfg)[g].0.len()
            ==> !camera_conflict(moment_segments(in_order(assets, ord), cfg)[g].0[k - 1],
                #[trigger] moment_segments(in_order(assets, ord), cfg)[g].0[k]),
{
    let t = in_order(assets, ord);
    let segs = moment_segments(t, cfg);
    moments_are_maximal_runs(t, cfg);
    assert forall|k: int, l: int| 0 <= k < l < ord.len() implies #[trigger] ord[k] != #[trigger] ord[l] by {
        assert(before_in_timeline(assets, ord[k] as int, ord[l] as int));
        lemma_asset_order_antisym(assets[ord[k] as int], assets[ord[k] as int]);
    }
    lemma_group_ids(groups, segs);
    assert forall|g: int| 0 <= g < groups.len() implies {
        &&& (#[trigger] groups[g]).asset_ids@.len() > 0
        &&& groups[g].kind == PhotoGroupKind::Moment
        &&& !groups[g].manual_locked
        &&& (groups[g].basis == GroupingBasis::Singleton <==> groups[g].asset_ids@.len() == 1)
    } by {
        assert(group_matches(groups[g], segs[g]));
        assert(segs[g].0.len() > 0);
    }
    assert forall|g: int, k: int| 0 <= g < groups.len() && 1 <= k < segs[g].0.len()
        implies !camera_conflict(segs[g].0[k - 1], #[trigger] segs[g].0[k]) by {
        assert(join_basis(segs[g].0[k - 1], segs[g].0[k], cfg) is Some);
    }
}

/// Groups RAW assets into moments: they are put in timeline order and split
/// between neighbours that do not join (see `join_basis`). Each group gets a
/// fresh identifier.
pub fn initial_group_raw_assets(assets: &[RawAsset], config: InitialGroupingConfig) -> (groups: Vec<PhotoGroup>)
    ensures
        exists|ord: Seq<usize>| {
            &&& is_timeline_order(assets@, ord)
            &&& #[trigger] moment_segments(in_order(assets@, ord), config).len() == groups@.len()
            &&& forall|g: int| 0 <= g < groups@.len()
                ==> group_matches(#[trigger] groups@[g], moment_segments(in_order(assets@, ord), config)[g])
        },
{
    let mut groups: Vec<PhotoGroup> = Vec::new();
    let names = filename_chars(assets);
    let ord = timeline_order_with(assets, &names);
    let ghost a = assets@;
    let ghost s = in_order(a, ord@);
    if assets.len() == 0 {
        assert(moment_segments(s, config).len() == 0);
        return groups;
    }
    let first = ord[0];
    let mut current: Vec<u128> = Vec::new();
    current.push(assets[first].id);
    let mut basis = GroupingBasis::Singleton;
    let mut prev = first;
    let mut k: usize = 1;
    assert(s.take(1) =~= seq![s[0]]);
    assert(ids_of(seq![s[0]]) =~= current@);
    while k < ord.len()
        invariant
            1 <= k <= ord@.len(),
            ord@.len() == assets@.len(),
            a == assets@,
            s == in_order(a, ord@),
            is_timeline_order(a, ord@),
            names@.len() == assets@.len(),
            forall|j: int| 0 <= j < names@.len() ==> (#[trigger] names@[j])@ == assets@[j].filename@,
            prev == ord@[k - 1],
            moment_segments(s.take(k as int), config).len() == groups@.len() + 1,
            forall|g: int| 0 <= g < groups@.len()
                ==> group_matches(#[trigger] groups@[g], moment_segments(s.take(k as int), config)[g]),
            current@ == ids_of(moment_segments(s.take(k as int), config).last().0),
            basis == moment_segments(s.take(k as int), config).last().1,
        decreases ord@.len() - k,
    {
        let next = ord[k];
        proof {
            lemma_timeline_neighbours(a, ord@, k as int);
        }
        let joined = should_join(&assets[prev], &names[prev], &assets[next], &names[next], config);
        let ghost before = moment_segments(s.take(k as int), config);
        let ghost t = s.take(k + 1);
        assert(t.drop_last() =~= s.take(k as int));
        assert(t[t.len() - 2] == a[prev as int] && t.last() == a[next as int]);
        match joined {
            Some(b) => {
                current.push(assets[next].id);
                basis = merge_basis(basis, b);
                assert(moment_segments(t, config) == before.update(before.len() - 1, (before.last().0.push(t.last()), merged_basis(before.last().1, b))));
                assert(ids_of(before.last().0.push(t.last())) =~= current@);
                assert forall|g: int| 0 <= g < groups@.len() implies group_matches(#[trigger] groups@[g], moment_segments(t, config)[g]) by {
                    assert(moment_segments(t, config)[g] == before[g]);
                }
            },
            None => {
                proof {
                    moments_are_maximal_runs(s.take(k as int), config);
                }
                let ghost closing = before.last();
                let group = build_group(current, basis);
                groups.push(group);
                current = Vec::new();
                current.push(assets[next].id);
                basis = GroupingBasis::Singleton;
                assert(moment_segments(t, config) == before.push((seq![t.last()], GroupingBasis::Singleton)));
                assert(ids_of(seq![t.last()]) =~= current@);
                assert forall|g: int| 0 <= g < groups@.len() implies group_matches(#[trigger] groups@[g], moment_segments(t, config)[g]) by {
                    assert(moment_segments(t, config)[g] == before[g]);
                    if g == groups@.len() - 1 {
                        assert(before[g] == closing);
                    }
                }
            },
        }
        prev = next;
        k += 1;
    }
    proof {
        moments_are_maximal_runs(s, config);
        assert(s.take(ord@.len() as int) =~= s);
    }
    let ghost closing = moment_segments(s, config).last();
    let group = build_group(current, basis);
    groups.push(group);
    assert forall|g: int| 0 <= g < groups@.len() implies group_matches(#[trigger] groups@[g], moment_segments(in_order(assets@, ord@), config)[g]) by {
        if g == groups@.len() - 1 {
            assert(moment_segments(s, config)[g] == closing);
        }
    }
    assert(moment_segments(in_order(assets@, ord@), config).len() == groups@.len());
    groups
}

} // verus!
