//! Exposure brackets (AEB/HDR source frames) inside a photo group. Whether a
//! run of frames forms a bracket is decided from exposure and embedding
//! evidence outside the library; here the group is scanned for brackets and
//! split into bracket sources and ordinary frames.

use vstd::prelude::*;

verus! {

#[derive(PartialEq, Eq, Structural, Clone, Copy, Debug)]
pub enum ExposureBracketRole {
    Under,
    Base,
    Over,
}

/// The bracket lengths tried at each position, longest first.
pub open spec fn window_size(k: int) -> nat {
    if k == 0 {
        9
    } else if k == 1 {
        7
    } else if k == 2 {
        5
    } else {
        3
    }
}

/// Whether the frames `start..start + window_size(k)` form a bracket; `fits`
/// holds, for each start, the answers for lengths 9, 7, 5 and 3.
pub open spec fn fits_at(fits: Seq<(bool, bool, bool, bool)>, start: int, k: int) -> bool {
    let f = fits[start];
    if k == 0 {
        f.0
    } else if k == 1 {
        f.1
    } else if k == 2 {
        f.2
    } else {
        f.3
    }
}

/// The longest bracket (from the `k`-th length on) that starts at `start`
/// and ends within the `n` frames.
pub open spec fn first_fit(n: nat, fits: Seq<(bool, bool, bool, bool)>, start: nat, k: int) -> Option<nat>
    decreases 4 - k,
{
    if k < 0 || k >= 4 {
        None
    } else if start + window_size(k) <= n && fits_at(fits, start as int, k) {
        Some(window_size(k))
    } else {
        first_fit(n, fits, start, k + 1)
    }
}

pub proof fn lemma_first_fit(n: nat, fits: Seq<(bool, bool, bool, bool)>, start: nat, k: int)
    requires
        0 <= k,
    ensures
        first_fit(n, fits, start, k) matches Some(sz) ==> 3 <= sz && start + sz <= n
            && exists|j: int| k <= j < 4 && window_size(j) == sz && #[trigger] fits_at(fits, start as int, j),
    decreases 4 - k,
{
    if k < 4 && !(start + window_size(k) <= n && fits_at(fits, start as int, k)) {
        lemma_first_fit(n, fits, start, k + 1);
    }
}

/// The brackets found from `start` on: at each position the longest bracket
/// that fits is taken and the scan continues after it; otherwise it moves one
/// frame on. Each bracket is `(first frame, length)`.
pub open spec fn bracket_windows(n: nat, fits: Seq<(bool, bool, bool, bool)>, start: nat) -> Seq<(nat, nat)>
    decreases n - start,
{
    if start + 3 > n {
        seq![]
    } else {
        match first_fit(n, fits, start, 0) {
            Some(sz) => {
                proof {
                    lemma_first_fit(n, fits, start, 0);
                }
                seq![(start, sz)] + bracket_windows(n, fits, start + sz)
            },
            None => bracket_windows(n, fits, start + 1),
        }
    }
}

/// The brackets lie in order, do not overlap, stay within the frames, and
/// each one was reported as a bracket.
pub open spec fn windows_well_formed(n: nat, fits: Seq<(bool, bool, bool, bool)>, start: nat, w: Seq<(nat, nat)>) -> bool {
    &&& forall|i: int| 0 <= i < w.len() ==> start <= (#[trigger] w[i]).0 && w[i].0 + w[i].1 <= n
        && exists|k: int| 0 <= k < 4 && window_size(k) == w[i].1 && fits_at(fits, w[i].0 as int, k)
    &&& forall|i: int, j: int| 0 <= i < j < w.len() ==> (#[trigger] w[i]).0 + w[i].1 <= (#[trigger] w[j]).0
}

/// Brackets found by the scan never overlap and each was reported as one.
pub proof fn brackets_are_disjoint(n: nat, fits: Seq<(bool, bool, bool, bool)>, start: nat)
    ensures
        windows_well_formed(n, fits, start, bracket_windows(n, fits, start)),
    decreases n - start,
{
    if start + 3 <= n {
        lemma_first_fit(n, fits, start, 0);
        match first_fit(n, fits, start, 0) {
            Some(sz) => {
                brackets_are_disjoint(n, fits, start + sz);
                let rest = bracket_windows(n, fits, start + sz);
                let w = bracket_windows(n, fits, start);
                assert(w == seq![(start, sz)] + rest);
                assert forall|i: int| 0 <= i < w.len() implies start <= (#[trigger] w[i]).0 && w[i].0 + w[i].1 <= n
                    && exists|k: int| 0 <= k < 4 && window_size(k) == w[i].1 && fits_at(fits, w[i].0 as int, k) by {
                    if i > 0 {
                        assert(w[i] == rest[i - 1]);
                    }
                }
                assert forall|i: int, j: int| 0 <= i < j < w.len() implies (#[trigger] w[i]).0 + w[i].1 <= (#[trigger] w[j]).0 by {
                    assert(w[j] == rest[j - 1]);
                    if i > 0 {
                        assert(w[i] == rest[i - 1]);
                    }
                }
            },
            None => {
                brackets_are_disjoint(n, fits, start + 1);
            },
        }
    }
}

fn fits_exec(f: (bool, bool, bool, bool), k: usize) -> (res: bool)
    ensures
        res == (if k == 0 { f.0 } else if k == 1 { f.1 } else if k == 2 { f.2 } else { f.3 }),
{
    if k == 0 {
        f.0
    } else if k == 1 {
        f.1
    } else if k == 2 {
        f.2
    } else {
        f.3
    }
}

fn size_exec(k: usize) -> (res: usize)
    ensures
        res == window_size(k as int),
{
    if k == 0 {
        9
    } else if k == 1 {
        7
    } else if k == 2 {
        5
    } else {
        3
    }
}

/// Scans a group of `fits@.len()` frames for exposure brackets, as
/// `bracket_windows` describes.
pub fn find_bracket_windows(fits: &Vec<(bool, bool, bool, bool)>) -> (res: Vec<(usize, usize)>)
    ensures
        res@.len() == bracket_windows(fits@.len(), fits@, 0).len(),
        forall|i: int| 0 <= i < res@.len() ==> (#[trigger] res@[i]).0 == bracket_windows(fits@.len(), fits@, 0)[i].0
            && res@[i].1 == bracket_windows(fits@.len(), fits@, 0)[i].1,
{
    let n = fits.len();
    let ghost target = bracket_windows(n as nat, fits@, 0);
    let mut out: Vec<(usize, usize)> = Vec::new();
    let mut start: usize = 0;
    while n - start >= 3
        invariant
            n == fits@.len(),
            start <= n,
            out@.len() + bracket_windows(n as nat, fits@, start as nat).len() == target.len(),
            forall|i: int| 0 <= i < out@.len() ==> (#[trigger] out@[i]).0 == target[i].0 && out@[i].1 == target[i].1,
            forall|i: int| 0 <= i < bracket_windows(n as nat, fits@, start as nat).len()
                ==> #[trigger] bracket_windows(n as nat, fits@, start as nat)[i] == target[out@.len() + i],
        decreases n - start,
    {
        let ghost rest = bracket_windows(n as nat, fits@, start as nat);
        let mut k: usize = 0;
        let mut matched: Option<usize> = None;
        while k < 4
            invariant
                k <= 4,
                start + 3 <= n == fits@.len(),
                matched is None ==> first_fit(n as nat, fits@, start as nat, 0) == first_fit(n as nat, fits@, start as nat, k as int),
                matched matches Some(sz) ==> first_fit(n as nat, fits@, start as nat, 0) == Some(sz as nat),
            decreases 4 - k,
        {
            if matched.is_none() {
                let sz = size_exec(k);
                if sz <= n - start && fits_exec(fits[start], k) {
                    matched = Some(sz);
                }
            }
            k += 1;
        }
        match matched {
            Some(sz) => {
                proof {
                    lemma_first_fit(n as nat, fits@, start as nat, 0);
                    assert(rest == seq![(start as nat, sz as nat)] + bracket_windows(n as nat, fits@, (start + sz) as nat));
                    assert(rest[0] == (start as nat, sz as nat));
                }
                out.push((start, sz));
                start = start + sz;
                proof {
                    let next = bracket_windows(n as nat, fits@, start as nat);
                    assert forall|i: int| 0 <= i < next.len() implies #[trigger] next[i] == target[out@.len() + i] by {
                        assert(next[i] == rest[i + 1]);
                    }
                }
            },
            None => {
                start = start + 1;
            },
        }
    }
    out
}

/// The frames of a group that are bracket sources, in group order.
pub open spec fn bracket_sources(asset_ids: Seq<u128>, source_ids: Seq<u128>) -> Seq<u128> {
    asset_ids.filter(|a: u128| source_ids.contains(a))
}

/// The ordinary frames of a group, in group order.
pub open spec fn standard_frames(asset_ids: Seq<u128>, source_ids: Seq<u128>) -> Seq<u128> {
    asset_ids.filter(|a: u128| !source_ids.contains(a))
}

/// Splits a group's frames into bracket sources (members of a detected
/// bracket) and ordinary frames that continue through the standard recipe
/// path; both keep the group order.
pub fn split_bracket_sources(asset_ids: &[u128], source_ids: &[u128]) -> (res: (Vec<u128>, Vec<u128>))
    ensures
        res.0@ == bracket_sources(asset_ids@, source_ids@),
        res.1@ == standard_frames(asset_ids@, source_ids@),
{
    let mut sources: Vec<u128> = Vec::new();
    let mut standard: Vec<u128> = Vec::new();
    let mut i: usize = 0;
    while i < asset_ids.len()
        invariant
            i <= asset_ids@.len(),
            sources@ == bracket_sources(asset_ids@.take(i as int), source_ids@),
            standard@ == standard_frames(asset_ids@.take(i as int), source_ids@),
        decreases asset_ids@.len() - i,
    {
        proof {
            reveal_with_fuel(Seq::filter, 1);
            assert(asset_ids@.take(i + 1).drop_last() =~= asset_ids@.take(i as int));
        }
        let id = asset_ids[i];
        if crate::ids::id_listed(source_ids, id) {
            sources.push(id);
        } else {
            standard.push(id);
        }
        i += 1;
    }
    assert(asset_ids@.take(asset_ids@.len() as int) =~= asset_ids@);
    (sources, standard)
}

} // verus!
