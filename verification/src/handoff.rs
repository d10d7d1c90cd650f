//! Handing a RAW over to Lightroom as a 16-bit ProPhoto TIFF master: the
//! preset and where the master goes. The master never lands inside the
//! source directory and never takes a name that is already in use.

use vstd::prelude::*;
use crate::export::{decimal_chars, decimal_text};
use crate::ids::fresh_id;
use crate::path::{probe_step, ProbeStep, concat, file_stem, join, join_name, parent_of, parent_text, path_exists, same_or_below, same_or_below_exec, file_name_of, split_name};
use crate::raw::RawAsset;
use crate::text::{chars_of, string_of};

verus! {

#[derive(PartialEq, Eq, Structural, Clone, Copy, Debug)]
pub enum HandoffFormat {
    Tiff,
}

#[derive(PartialEq, Eq, Structural, Clone, Copy, Debug)]
pub enum HandoffColorSpace {
    ProPhotoRgb,
}

#[derive(PartialEq, Eq, Structural, Clone, Copy, Debug)]
pub enum TiffCompression {
    Zip,
}

pub struct LightroomHandoffPreset {
    pub name: String,
    pub format: HandoffFormat,
    pub bit_depth: u8,
    pub color_space: HandoffColorSpace,
    pub compression: TiffCompression,
    pub full_resolution: bool,
    pub preserve_metadata: bool,
    pub output_sharpening: bool,
}

impl Clone for LightroomHandoffPreset {
    fn clone(&self) -> (res: Self)
        ensures
            res == *self,
    {
        LightroomHandoffPreset {
            name: self.name.clone(),
            format: self.format,
            bit_depth: self.bit_depth,
            color_space: self.color_space,
            compression: self.compression,
            full_resolution: self.full_resolution,
            preserve_metadata: self.preserve_metadata,
            output_sharpening: self.output_sharpening,
        }
    }
}

impl Default for LightroomHandoffPreset {
    /// The Lightroom master: a full-resolution 16-bit ProPhoto RGB TIFF with
    /// ZIP compression, metadata kept and no output sharpening.
    fn default() -> (res: Self)
        ensures
            res.name@ == "Lightroom Master"@,
            res.format == HandoffFormat::Tiff,
            res.bit_depth == 16,
            res.color_space == HandoffColorSpace::ProPhotoRgb,
            res.compression == TiffCompression::Zip,
            res.full_resolution,
            res.preserve_metadata,
            !res.output_sharpening,
    {
        LightroomHandoffPreset {
            name: "Lightroom Master".to_owned(),
            format: HandoffFormat::Tiff,
            bit_depth: 16,
            color_space: HandoffColorSpace::ProPhotoRgb,
            compression: TiffCompression::Zip,
            full_resolution: true,
            preserve_metadata: true,
            output_sharpening: false,
        }
    }
}

pub struct LightroomHandoffPlan {
    pub id: u128,
    pub asset_id: u128,
    pub source_path: String,
    pub output_path: String,
    pub preset: LightroomHandoffPreset,
}

pub enum HandoffError {
    /// The source RAW path has no parent directory; the text is the path.
    MissingSourceParent(String),
    /// The handoff directory is the source directory or lies below it.
    OutputInsideSource,
    /// The source RAW path has no usable file stem; the text is the path.
    MissingFileStem(String),
    /// Every numbered master name in the handoff directory is taken.
    NoFreeOutputName,
}

/// The Lightroom handoff records kept in the database at `path`.
pub struct HandoffStore {
    path: String,
}

impl HandoffStore {
    pub closed spec fn location(&self) -> Seq<char> {
        self.path@
    }

    /// The store kept at `path`; opening the database is the caller's part.
    pub fn at(path: String) -> (res: Self)
        ensures
            res.location() == path@,
    {
        HandoffStore { path }
    }

    pub fn path(&self) -> (res: &str)
        ensures
            res@ == self.location(),
    {
        self.path.as_str()
    }
}

impl Clone for HandoffStore {
    fn clone(&self) -> (res: Self)
        ensures
            res.location() == self.location(),
    {
        HandoffStore { path: self.path.clone() }
    }
}

pub open spec fn pc_suffix() -> Seq<char> {
    seq!['-', 'P', 'C']
}

pub open spec fn tif_suffix() -> Seq<char> {
    seq!['.', 't', 'i', 'f']
}

/// The master's file name: `stem-PC.tif` first, then `stem-PC-2.tif`,
/// `stem-PC-3.tif`, ...
pub open spec fn master_name(stem: Seq<char>, index: nat) -> Seq<char> {
    if index < 2 {
        stem + pc_suffix() + tif_suffix()
    } else {
        stem + pc_suffix() + seq!['-'] + decimal_text(index) + tif_suffix()
    }
}

fn master_name_chars(stem: &[char], index: u32) -> (res: Vec<char>)
    ensures
        res@ == master_name(stem@, index as nat),
{
    let pc = vec!['-', 'P', 'C'];
    let tif = vec!['.', 't', 'i', 'f'];
    assert(pc@ =~= pc_suffix());
    assert(tif@ =~= tif_suffix());
    let base = concat(stem, &pc);
    if index < 2 {
        concat(&base, &tif)
    } else {
        let mut dashed = base;
        dashed.push('-');
        assert(dashed@ == stem@ + pc_suffix() + seq!['-']);
        concat(&concat(&dashed, &decimal_chars(index)), &tif)
    }
}

/// The file system's answers to a search for a free master name (`true`:
/// taken), one per index tried from 1: every index but the last was taken,
/// and the last one too only when all 32-bit indexes were tried.
pub open spec fn master_probes(answers: Seq<bool>) -> bool {
    &&& 0 < answers.len() <= u32::MAX
    &&& forall|k: int| 0 <= k < answers.len() - 1 ==> #[trigger] answers[k]
    &&& answers.last() ==> answers.len() == u32::MAX
}

/// Where such a search ends: the master path of the last index tried when
/// it was free, else nothing.
pub open spec fn master_found(root: Seq<char>, stem: Seq<char>, answers: Seq<bool>) -> Option<Seq<char>> {
    if answers.last() { None } else { Some(join(root, master_name(stem, answers.len()))) }
}

/// The first master path for `stem` in `root` that nothing occupies when it
/// is looked at; `None` only when every 32-bit index is taken. What the file
/// system answers is not stated; the contract says what follows from its
/// answers, whatever they are.
fn next_available_path(root: &[char], stem: &[char]) -> (res: Option<Vec<char>>)
    ensures
        exists|answers: Seq<bool>| master_probes(answers) && #[trigger] master_found(root@, stem@, answers) == match res {
            Some(o) => Some(o@),
            None => None::<Seq<char>>,
        },
{
    let mut index: u32 = 1;
    let ghost mut answers: Seq<bool> = Seq::empty();
    loop
        invariant
            1 <= index,
            answers.len() == index - 1,
            forall|k: int| 0 <= k < answers.len() ==> #[trigger] answers[k],
        decreases u32::MAX - index,
    {
        let candidate = join_name(root, &master_name_chars(stem, index));
        assert(candidate@ == join(root@, master_name(stem@, index as nat)));
        let taken = path_exists(string_of(&candidate).as_str());
        let ghost before = answers;
        proof {
            answers = before.push(taken);
            assert forall|k: int| 0 <= k < answers.len() - 1 implies #[trigger] answers[k] by {
                assert(answers[k] == before[k]);
            }
        }
        match probe_step(index, taken) {
            ProbeStep::Take => {
                assert(master_probes(answers));
                assert(master_found(root@, stem@, answers) == Some(candidate@));
                return Some(candidate);
            },
            ProbeStep::GiveUp => {
                assert(master_probes(answers));
                assert(master_found(root@, stem@, answers) == None::<Seq<char>>);
                return None;
            },
            ProbeStep::Next(m) => index = m,
        }
    }
}

/// How planning a handoff of the RAW at `source` into `root` ends: no parent
/// directory, a handoff directory inside the source directory, or no usable
/// stem are errors; otherwise, for the answers the file system gave, a plan
/// for the first master path reported free (or, when every numbered name was
/// reported taken, `NoFreeOutputName`).
pub open spec fn handoff_result(asset: RawAsset, root: Seq<char>, preset: LightroomHandoffPreset, res: Result<LightroomHandoffPlan, HandoffError>) -> bool {
    let source = asset.source_path@;
    match parent_text(source) {
        None => res matches Err(HandoffError::MissingSourceParent(t)) && t@ == source,
        Some(parent) => if same_or_below(root, parent) {
            res matches Err(HandoffError::OutputInsideSource)
        } else {
            match file_stem(source) {
                Some(stem) if stem.len() > 0 => exists|answers: Seq<bool>| master_probes(answers)
                    && match #[trigger] master_found(root, stem, answers) {
                        None => res matches Err(HandoffError::NoFreeOutputName),
                        Some(o) => res matches Ok(plan) && plan.asset_id == asset.id && plan.source_path@ == source
                            && plan.preset == preset && plan.output_path@ == o,
                    },
                _ => res matches Err(HandoffError::MissingFileStem(t)) && t@ == source,
            }
        },
    }
}

/// Plans the Lightroom master for `asset` in `output_root` under a fresh id.
pub fn plan_lightroom_handoff(asset: &RawAsset, output_root: &str, preset: LightroomHandoffPreset) -> (res: Result<LightroomHandoffPlan, HandoffError>)
    ensures
        handoff_result(*asset, output_root@, preset, res),
{
    let source = chars_of(asset.source_path.as_str());
    let parent = match parent_of(&source) {
        None => return Err(HandoffError::MissingSourceParent(asset.source_path.clone())),
        Some(p) => p,
    };
    let root = chars_of(output_root);
    if same_or_below_exec(&root, &parent) {
        return Err(HandoffError::OutputInsideSource);
    }
    let stem = match file_name_of(&source) {
        None => return Err(HandoffError::MissingFileStem(asset.source_path.clone())),
        Some(name) => split_name(&name).0,
    };
    if stem.len() == 0 {
        return Err(HandoffError::MissingFileStem(asset.source_path.clone()));
    }
    let output = match next_available_path(&root, &stem) {
        None => return Err(HandoffError::NoFreeOutputName),
        Some(o) => o,
    };
    Ok(LightroomHandoffPlan {
        id: fresh_id(),
        asset_id: asset.id,
        source_path: asset.source_path.clone(),
        output_path: string_of(&output),
        preset,
    })
}

} // verus!
