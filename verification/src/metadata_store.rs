//! Stored RAW metadata evidence, one record per asset.

use vstd::prelude::*;
use crate::metadata::RawMetadataEvidence;

verus! {

pub struct AssetMetadataEvidence {
    pub asset_id: u128,
    pub evidence: RawMetadataEvidence,
}

pub enum RawMetadataStoreError {
    Sqlite(String),
    Io(String),
    Json(String),
}

/// The metadata evidence kept in the database at `path`.
pub struct RawMetadataStore {
    path: String,
}

impl RawMetadataStore {
    pub closed spec fn location(&self) -> Seq<char> {
        self.path@
    }

    /// The store kept at `path`; opening the database is the caller's part.
    pub fn at(path: String) -> (res: Self)
        ensures
            res.location() == path@,
    {
        RawMetadataStore { path }
    }

    pub fn path(&self) -> (res: &str)
        ensures
            res@ == self.location(),
    {
        self.path.as_str()
    }
}

impl Clone for RawMetadataStore {
    fn clone(&self) -> (res: Self)
        ensures
            res.location() == self.location(),
    {
        RawMetadataStore { path: self.path.clone() }
    }
}

pub open spec fn text_view(o: Option<String>) -> Option<Seq<char>> {
    match o {
        Some(t) => Some(t@),
        None => None,
    }
}

pub open spec fn either<T>(first: Option<T>, second: Option<T>) -> Option<T> {
    match first {
        Some(v) => Some(v),
        None => second,
    }
}

/// What is stored after a scan: each field takes what the scan found, and
/// keeps what was stored when the scan found nothing.
pub fn merged_evidence(scanned: &RawMetadataEvidence, stored: Option<RawMetadataEvidence>) -> (res: RawMetadataEvidence)
    ensures
        match stored {
            None => text_view(res.camera_id) == text_view(scanned.camera_id)
                && res.capture_time_ms == scanned.capture_time_ms
                && res.white_balance == scanned.white_balance,
            Some(old) => text_view(res.camera_id) == either(text_view(scanned.camera_id), text_view(old.camera_id))
                && res.capture_time_ms == either(scanned.capture_time_ms, old.capture_time_ms)
                && res.white_balance == either(scanned.white_balance, old.white_balance),
        },
{
    let camera_id = match &scanned.camera_id {
        Some(c) => Some(c.clone()),
        None => match &stored {
            Some(old) => match &old.camera_id {
                Some(c) => Some(c.clone()),
                None => None,
            },
            None => None,
        },
    };
    let capture_time_ms = match scanned.capture_time_ms {
        Some(t) => Some(t),
        None => match &stored {
            Some(old) => old.capture_time_ms,
            None => None,
        },
    };
    let white_balance = match scanned.white_balance {
        Some(w) => Some(w),
        None => match &stored {
            Some(old) => old.white_balance,
            None => None,
        },
    };
    RawMetadataEvidence { camera_id, capture_time_ms, white_balance }
}

/// A rescan never erases recorded white balance, capture time or camera.
pub proof fn rescan_keeps_evidence(scanned: RawMetadataEvidence, old: RawMetadataEvidence, res: RawMetadataEvidence)
    requires
        text_view(res.camera_id) == either(text_view(scanned.camera_id), text_view(old.camera_id)),
        res.capture_time_ms == either(scanned.capture_time_ms, old.capture_time_ms),
        res.white_balance == either(scanned.white_balance, old.white_balance),
    ensures
        old.white_balance is Some ==> res.white_balance is Some,
        old.capture_time_ms is Some ==> res.capture_time_ms is Some,
        old.camera_id is Some ==> res.camera_id is Some,
{
}

} // verus!
