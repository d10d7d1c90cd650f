//! Export checkpoints: one reservation per (batch, item), its status, how many
//! times it was started, and how an interrupted export is recovered. The
//! database itself lives outside the library; what is decided here is what a
//! checkpoint becomes after each event.

use vstd::prelude::*;
use crate::export::{
    collision_safe_output, probe_answers, probe_found, export_plan_result, plan_export,
    planned_output, recipe_problem, ExportPlanError, ExportRecipe,
};
use crate::path::{is_parent_of, replace_extension, same_path, with_extension};
use crate::ids::hex_text;
use crate::text::{chars_of, string_of};

verus! {

#[derive(PartialEq, Eq, Structural, Clone, Copy, Debug)]
pub enum ExportStatus {
    Pending,
    Running,
    Failed,
    Done,
    Skipped,
}

pub struct ExportCheckpoint {
    pub batch_id: u128,
    pub item_id: u128,
    pub output_path: String,
    pub recipe_fingerprint: String,
    pub status: ExportStatus,
    pub attempts: u32,
    pub last_error: Option<String>,
}

impl Clone for ExportCheckpoint {
    fn clone(&self) -> (res: Self)
        ensures
            res == *self,
    {
        ExportCheckpoint {
            batch_id: self.batch_id,
            item_id: self.item_id,
            output_path: self.output_path.clone(),
            recipe_fingerprint: self.recipe_fingerprint.clone(),
            status: self.status,
            attempts: self.attempts,
            last_error: match &self.last_error {
                Some(e) => Some(e.clone()),
                None => None,
            },
        }
    }
}

pub enum ExportStoreError {
    Sqlite(String),
    Io(String),
    Json(String),
    Uuid(String),
    Plan(ExportPlanError),
    InvalidStatus(String),
}

/// The export checkpoint database at `path`.
pub struct ExportStore {
    path: String,
}

impl Clone for ExportStore {
    fn clone(&self) -> (res: Self)
        ensures
            res.location() == self.location(),
    {
        ExportStore { path: self.path.clone() }
    }
}

impl ExportStore {
    pub closed spec fn location(&self) -> Seq<char> {
        self.path@
    }

    /// The store kept at `path`; opening the database is the caller's part.
    pub fn at(path: String) -> (res: Self)
        ensures
            res.location() == path@,
    {
        ExportStore { path }
    }

    pub fn path(&self) -> (res: &str)
        ensures
            res@ == self.location(),
    {
        self.path.as_str()
    }
}

// ----- status names as stored -----

pub open spec fn status_text(s: ExportStatus) -> Seq<char> {
    match s {
        ExportStatus::Pending => seq!['P', 'E', 'N', 'D', 'I', 'N', 'G'],
        ExportStatus::Running => seq!['R', 'U', 'N', 'N', 'I', 'N', 'G'],
        ExportStatus::Failed => seq!['F', 'A', 'I', 'L', 'E', 'D'],
        ExportStatus::Done => seq!['D', 'O', 'N', 'E'],
        ExportStatus::Skipped => seq!['S', 'K', 'I', 'P', 'P', 'E', 'D'],
    }
}

/// The status a stored name stands for.
pub open spec fn status_named(t: Seq<char>) -> Option<ExportStatus> {
    if t == status_text(ExportStatus::Pending) {
        Some(ExportStatus::Pending)
    } else if t == status_text(ExportStatus::Running) {
        Some(ExportStatus::Running)
    } else if t == status_text(ExportStatus::Failed) {
        Some(ExportStatus::Failed)
    } else if t == status_text(ExportStatus::Done) {
        Some(ExportStatus::Done)
    } else if t == status_text(ExportStatus::Skipped) {
        Some(ExportStatus::Skipped)
    } else {
        None
    }
}

/// A stored status reads back as the status that was written.
pub proof fn status_round_trip(s: ExportStatus)
    ensures
        status_named(status_text(s)) == Some(s),
{
    let t = status_text(s);
    assert(t[0] == status_text(s)[0]);
    match s {
        ExportStatus::Pending => {},
        ExportStatus::Running => {
            assert(t[0] != status_text(ExportStatus::Pending)[0]);
        },
        ExportStatus::Failed => {
            assert(t[0] != status_text(ExportStatus::Pending)[0]);
            assert(t[0] != status_text(ExportStatus::Running)[0]);
        },
        ExportStatus::Done => {
            assert(t.len() != status_text(ExportStatus::Pending).len());
            assert(t.len() != status_text(ExportStatus::Running).len());
            assert(t.len() != status_text(ExportStatus::Failed).len());
        },
        ExportStatus::Skipped => {
            assert(t[0] != status_text(ExportStatus::Pending)[0]);
            assert(t[0] != status_text(ExportStatus::Running)[0]);
            assert(t[0] != status_text(ExportStatus::Failed)[0]);
            assert(t.len() != status_text(ExportStatus::Done).len());
        },
    }
}

/// The name under which a status is stored.
pub fn status_to_db(status: ExportStatus) -> (res: &'static str)
    ensures
        res@ == status_text(status),
{
    match status {
        ExportStatus::Pending => {
            proof {
                reveal_strlit("PENDING");
            }
            "PENDING"
        },
        ExportStatus::Running => {
            proof {
                reveal_strlit("RUNNING");
            }
            "RUNNING"
        },
        ExportStatus::Failed => {
            proof {
                reveal_strlit("FAILED");
            }
            "FAILED"
        },
        ExportStatus::Done => {
            proof {
                reveal_strlit("DONE");
            }
            "DONE"
        },
        ExportStatus::Skipped => {
            proof {
                reveal_strlit("SKIPPED");
            }
            "SKIPPED"
        },
    }
}

fn names_status(text: &Vec<char>, status: ExportStatus) -> (res: bool)
    ensures
        res == (text@ == status_text(status)),
{
    let name = chars_of(status_to_db(status));
    crate::path::chars_equal(text, &name)
}

/// Reads a stored status name; an unknown name is an error that carries it.
pub fn status_from_db(value: &str) -> (res: Result<ExportStatus, ExportStoreError>)
    ensures
        match status_named(value@) {
            Some(s) => res == Ok::<ExportStatus, ExportStoreError>(s),
            None => res matches Err(ExportStoreError::InvalidStatus(t)) && t@ == value@,
        },
{
    let t = chars_of(value);
    if names_status(&t, ExportStatus::Pending) {
        Ok(ExportStatus::Pending)
    } else if names_status(&t, ExportStatus::Running) {
        Ok(ExportStatus::Running)
    } else if names_status(&t, ExportStatus::Failed) {
        Ok(ExportStatus::Failed)
    } else if names_status(&t, ExportStatus::Done) {
        Ok(ExportStatus::Done)
    } else if names_status(&t, ExportStatus::Skipped) {
        Ok(ExportStatus::Skipped)
    } else {
        Err(ExportStoreError::InvalidStatus(value.to_owned()))
    }
}

// ----- recipe fingerprint -----

/// 64-bit FNV-1a over `bytes`.
pub open spec fn fnv1a(bytes: Seq<u8>) -> u64
    decreases bytes.len(),
{
    if bytes.len() == 0 {
        0xcbf29ce484222325u64
    } else {
        vstd::wrapping::u64_specs::wrapping_mul(
            fnv1a(bytes.drop_last()) ^ (bytes.last() as u64),
            0x100000001b3u64,
        )
    }
}

/// The fingerprint text of a byte string: its FNV-1a hash as 16 hex digits.
pub open spec fn fingerprint_text(bytes: Seq<u8>) -> Seq<char> {
    hex_text(fnv1a(bytes) as nat, 16)
}

fn hex_chars(n: u64, width: u32) -> (res: Vec<char>)
    ensures
        res@ == hex_text(n as nat, width as nat),
    decreases width,
{
    if width == 0 {
        let v: Vec<char> = Vec::new();
        assert(v@ =~= hex_text(n as nat, 0));
        v
    } else {
        let mut v = hex_chars(n / 16, width - 1);
        let d: u64 = n % 16;
        let c: char = if d < 10 {
            ((48u64 + d) as u8) as char
        } else {
            ((87u64 + d) as u8) as char
        };
        assert(c == crate::ids::hex_digit(d as int));
        v.push(c);
        v
    }
}

/// FNV-1a of `bytes`, written as 16 lowercase hexadecimal digits. It is a
/// cache and invalidation key, not a security hash.
pub fn stable_fingerprint(bytes: &[u8]) -> (res: String)
    ensures
        res@ == fingerprint_text(bytes@),
{
    let mut hash: u64 = 0xcbf29ce484222325;
    let mut i: usize = 0;
    assert(bytes@.subrange(0, 0) =~= Seq::<u8>::empty());
    while i < bytes.len()
        invariant
            i <= bytes@.len(),
            hash == fnv1a(bytes@.subrange(0, i as int)),
        decreases bytes@.len() - i,
    {
        let b: u64 = bytes[i] as u64;
        hash = (hash ^ b).wrapping_mul(0x100000001b3);
        i += 1;
        assert(bytes@.subrange(0, i as int).drop_last() =~= bytes@.subrange(0, i - 1));
    }
    assert(bytes@.subrange(0, bytes@.len() as int) =~= bytes@);
    string_of(&hex_chars(hash, 16))
}

/// Checks a recipe and computes the fingerprint of its stored form
/// `recipe_json`.
pub fn recipe_fingerprint(recipe: &ExportRecipe, recipe_json: &[u8]) -> (res: Result<String, ExportStoreError>)
    ensures
        match recipe_problem(*recipe) {
            Some(m) => res matches Err(ExportStoreError::Plan(ExportPlanError::InvalidRecipe(t))) && t@ == m,
            None => res matches Ok(f) && f@ == fingerprint_text(recipe_json@),
        },
{
    match recipe.validate() {
        Err(e) => Err(ExportStoreError::Plan(e)),
        Ok(()) => Ok(stable_fingerprint(recipe_json)),
    }
}

/// Whether setting a recipe with `fingerprint` drops the batch's export
/// checkpoints: exactly when an earlier recipe with another fingerprint was set.
pub fn recipe_change_invalidates(previous: Option<&str>, fingerprint: &str) -> (res: bool)
    ensures
        res == (previous matches Some(p) && p@ != fingerprint@),
{
    match previous {
        None => false,
        Some(p) => !crate::path::chars_equal(&chars_of(p), &chars_of(fingerprint)),
    }
}

// ----- checkpoint lifecycle -----

/// The reservation of a checkpoint: which item it exports, where and with
/// which recipe. No status change touches it.
pub open spec fn same_reservation(a: ExportCheckpoint, b: ExportCheckpoint) -> bool {
    &&& a.batch_id == b.batch_id
    &&& a.item_id == b.item_id
    &&& a.output_path@ == b.output_path@
    &&& a.recipe_fingerprint@ == b.recipe_fingerprint@
}

pub open spec fn started_checkpoint(c: ExportCheckpoint, r: ExportCheckpoint) -> bool {
    same_reservation(r, c) && r.status == ExportStatus::Running && r.attempts == c.attempts + 1
        && r.last_error is None
}

pub open spec fn failed_checkpoint(c: ExportCheckpoint, error: Seq<char>, r: ExportCheckpoint) -> bool {
    &&& same_reservation(r, c)
    &&& r.status == ExportStatus::Failed
    &&& r.attempts == c.attempts
    &&& r.last_error matches Some(e) && e@ == error
}

pub open spec fn done_checkpoint(c: ExportCheckpoint, r: ExportCheckpoint) -> bool {
    same_reservation(r, c) && r.status == ExportStatus::Done && r.attempts == c.attempts
        && r.last_error is None
}

/// After an abnormal exit a running export is finished when its final output
/// is complete, and otherwise returned to pending with its reservation.
pub open spec fn recovered_checkpoint(c: ExportCheckpoint, output_complete: bool, r: ExportCheckpoint) -> bool {
    same_reservation(r, c) && r.attempts == c.attempts && r.last_error is None
        && r.status == (if output_complete { ExportStatus::Done } else { ExportStatus::Pending })
}

/// What recovering one interrupted export does: the checkpoint it becomes and
/// the files to remove (the partial output always, the final output when it
/// is incomplete).
pub struct InterruptedRecovery {
    pub checkpoint: ExportCheckpoint,
    pub remove_partial: String,
    pub remove_output: Option<String>,
}

/// The temporary file an export renders into before the final rename.
pub open spec fn partial_output(output: Seq<char>) -> Seq<char> {
    with_extension(output, seq!['p', 'a', 'r', 't', 'i', 'a', 'l'])
}

/// The temporary path for `output`: its extension replaced by `partial`.
pub fn partial_output_path(output: &str) -> (res: String)
    ensures
        res@ == partial_output(output@),
{
    let ext = vec!['p', 'a', 'r', 't', 'i', 'a', 'l'];
    assert(ext@ =~= seq!['p', 'a', 'r', 't', 'i', 'a', 'l']);
    string_of(&replace_extension(&chars_of(output), &ext))
}

fn copy_checkpoint(c: &ExportCheckpoint, status: ExportStatus, attempts: u32, last_error: Option<String>) -> (res: ExportCheckpoint)
    ensures
        same_reservation(res, *c),
        res.status == status,
        res.attempts == attempts,
        res.last_error == last_error,
{
    ExportCheckpoint {
        batch_id: c.batch_id,
        item_id: c.item_id,
        output_path: c.output_path.clone(),
        recipe_fingerprint: c.recipe_fingerprint.clone(),
        status,
        attempts,
        last_error,
    }
}

impl ExportCheckpoint {
    /// The checkpoint once its export starts: running, one more attempt, the
    /// last error cleared.
    pub fn running(&self) -> (res: Self)
        requires
            self.attempts < u32::MAX,
        ensures
            started_checkpoint(*self, res),
    {
        copy_checkpoint(self, ExportStatus::Running, self.attempts + 1, None)
    }

    /// The checkpoint once its export failed with `error`.
    pub fn failed(&self, error: String) -> (res: Self)
        ensures
            failed_checkpoint(*self, error@, res),
    {
        copy_checkpoint(self, ExportStatus::Failed, self.attempts, Some(error))
    }

    /// The checkpoint once its export finished.
    pub fn done(&self) -> (res: Self)
        ensures
            done_checkpoint(*self, res),
    {
        copy_checkpoint(self, ExportStatus::Done, self.attempts, None)
    }

    /// What recovering this interrupted export does, given whether its final
    /// output is complete (non-empty).
    pub fn recovery(&self, output_complete: bool) -> (res: InterruptedRecovery)
        ensures
            recovered_checkpoint(*self, output_complete, res.checkpoint),
            res.remove_partial@ == partial_output(self.output_path@),
            match res.remove_output {
                Some(o) => !output_complete && o@ == self.output_path@,
                None => output_complete,
            },
    {
        let status = if output_complete { ExportStatus::Done } else { ExportStatus::Pending };
        let remove_output = if output_complete { None } else { Some(self.output_path.clone()) };
        InterruptedRecovery {
            checkpoint: copy_checkpoint(self, status, self.attempts, None),
            remove_partial: partial_output_path(self.output_path.as_str()),
            remove_output,
        }
    }
}

/// Retrying is driven by status alone: a start, a failure, a finish and a
/// recovery each keep the reservation (item, output path, recipe), so a
/// resumed export writes where the first attempt was meant to.
pub proof fn lifecycle_keeps_reservation(c: ExportCheckpoint, r1: ExportCheckpoint, e: Seq<char>, r2: ExportCheckpoint, r3: ExportCheckpoint, complete: bool, r4: ExportCheckpoint)
    requires
        started_checkpoint(c, r1),
        failed_checkpoint(r1, e, r2),
        started_checkpoint(r2, r3),
        recovered_checkpoint(r3, complete, r4),
    ensures
        same_reservation(r4, c),
        r4.attempts == c.attempts + 2,
        r4.status != ExportStatus::Running,
{
}

/// Recovery never leaves a checkpoint running and never changes how many
/// times it was started.
pub proof fn recovery_settles(c: ExportCheckpoint, complete: bool, r: ExportCheckpoint)
    requires
        recovered_checkpoint(c, complete, r),
    ensures
        r.status != ExportStatus::Running,
        r.attempts == c.attempts,
        same_reservation(r, c),
{
}

// ----- reservations -----

pub open spec fn no_recipe_text() -> Seq<char> {
    "no active export recipe"@
}

pub open spec fn no_free_name_text() -> Seq<char> {
    "no free output name"@
}

/// A new reservation for an item: no active recipe, or a plan that fails, is
/// an error; otherwise, for the answers the file system gave, a pending
/// checkpoint with no attempts at the first output path reported free (the
/// planned path, then its numbered alternatives), or an I/O error when every
/// one was reported taken.
pub open spec fn reservation_result(
    batch_id: u128,
    item_id: u128,
    source: Seq<char>,
    active: Option<(ExportRecipe, String)>,
    res: Result<ExportCheckpoint, ExportStoreError>,
) -> bool {
    match active {
        None => res matches Err(ExportStoreError::Plan(ExportPlanError::InvalidRecipe(t))) && t@ == no_recipe_text(),
        Some((recipe, fingerprint)) => {
            let ok_plan = recipe_problem(recipe) is None && !is_parent_of(recipe.destination@, source)
                && !same_path(planned_output(source, recipe), source);
            if !ok_plan {
                res matches Err(ExportStoreError::Plan(e)) && export_plan_result(source, recipe, Err(e))
            } else {
                exists|answers: Seq<bool>| probe_answers(answers)
                    && match #[trigger] probe_found(planned_output(source, recipe), answers) {
                        None => res matches Err(ExportStoreError::Io(t)) && t@ == no_free_name_text(),
                        Some(o) => res matches Ok(c) && c.batch_id == batch_id && c.item_id == item_id
                            && c.recipe_fingerprint@ == fingerprint@ && c.status == ExportStatus::Pending
                            && c.attempts == 0 && c.last_error is None && c.output_path@ == o,
                    }
            }
        },
    }
}

/// Reserves an output for an item that has no checkpoint yet, under the
/// batch's active recipe and its fingerprint.
pub fn new_reservation(batch_id: u128, item_id: u128, source: &str, active: Option<(ExportRecipe, String)>) -> (res: Result<ExportCheckpoint, ExportStoreError>)
    ensures
        reservation_result(batch_id, item_id, source@, active, res),
{
    let (recipe, fingerprint) = match active {
        None => return Err(ExportStoreError::Plan(ExportPlanError::InvalidRecipe("no active export recipe".to_owned()))),
        Some(a) => a,
    };
    let plan = match plan_export(source, &recipe) {
        Err(e) => return Err(ExportStoreError::Plan(e)),
        Ok(p) => p,
    };
    let output_path = match collision_safe_output(plan.output.as_str()) {
        None => return Err(ExportStoreError::Io("no free output name".to_owned())),
        Some(o) => o,
    };
    Ok(ExportCheckpoint {
        batch_id,
        item_id,
        output_path,
        recipe_fingerprint: fingerprint,
        status: ExportStatus::Pending,
        attempts: 0,
        last_error: None,
    })
}

/// The checkpoint to use for an item: the one it already has, which keeps
/// its reservation across retries, or a new reservation.
pub fn reserve_checkpoint(batch_id: u128, item_id: u128, source: &str, existing: Option<ExportCheckpoint>, active: Option<(ExportRecipe, String)>) -> (res: Result<ExportCheckpoint, ExportStoreError>)
    ensures
        match existing {
            Some(c) => res == Ok::<ExportCheckpoint, ExportStoreError>(c),
            None => reservation_result(batch_id, item_id, source@, active, res),
        },
{
    match existing {
        Some(c) => Ok(c),
        None => new_reservation(batch_id, item_id, source, active),
    }
}

} // verus!
