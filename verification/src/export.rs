//! Export recipes and planning of derivative file names. A RAW source is never
//! a destination: exports go to another directory and never overwrite.

use vstd::prelude::*;
use crate::path::{path_exists, probe_step, ProbeStep, concat, extension, file_name_of, file_stem, join, join_name, parent_of, parent_text, same_path, same_path_exec, split_name, is_parent_of};
use crate::text::{chars_of, string_of};

verus! {

#[derive(PartialEq, Eq, Structural, Clone, Copy, Debug)]
pub enum ExportFormat {
    Jpeg,
    Tiff,
}

#[derive(PartialEq, Eq, Structural, Clone, Copy, Debug)]
pub enum ExportColorSpace {
    Srgb,
    DisplayP3,
    AdobeRgb,
    ProPhotoRgb,
}

#[derive(PartialEq, Eq, Structural, Clone, Copy, Debug)]
pub struct ResizeRecipe {
    pub long_edge_px: u32,
    pub allow_upscale: bool,
}

pub struct ExportRecipe {
    pub format: ExportFormat,
    pub jpeg_quality: Option<u8>,
    pub tiff_bit_depth: Option<u8>,
    pub color_space: ExportColorSpace,
    pub resize: Option<ResizeRecipe>,
    pub preserve_metadata: bool,
    pub destination: String,
    pub qa_approved_only: bool,
}

impl Clone for ExportRecipe {
    fn clone(&self) -> (res: Self)
        ensures
            res == *self,
    {
        ExportRecipe {
            format: self.format,
            jpeg_quality: self.jpeg_quality,
            tiff_bit_depth: self.tiff_bit_depth,
            color_space: self.color_space,
            resize: self.resize,
            preserve_metadata: self.preserve_metadata,
            destination: self.destination.clone(),
            qa_approved_only: self.qa_approved_only,
        }
    }
}

pub struct ExportPlan {
    pub source: String,
    pub output: String,
    pub recipe: ExportRecipe,
}

pub enum ExportPlanError {
    /// The destination is the source RAW's own directory.
    SourceDirectoryDestination,
    /// The planned output is the source RAW itself.
    SourceCollision,
    /// The recipe is unusable; the text says why.
    InvalidRecipe(String),
}

/// What is wrong with a recipe, if anything: the first problem found.
pub open spec fn recipe_problem(r: ExportRecipe) -> Option<Seq<char>> {
    let format_problem = match r.format {
        ExportFormat::Jpeg => match r.jpeg_quality {
            None => Some("JPEG quality is required"@),
            Some(q) => if 1 <= q <= 100 { None } else { Some("JPEG quality must be between 1 and 100"@) },
        },
        ExportFormat::Tiff => if r.tiff_bit_depth == Some(8u8) || r.tiff_bit_depth == Some(16u8) {
            None
        } else {
            Some("TIFF bit depth must be 8 or 16"@)
        },
    };
    match format_problem {
        Some(m) => Some(m),
        None => match r.resize {
            Some(rs) => if rs.long_edge_px == 0 { Some("resize long edge must be greater than zero"@) } else { None },
            None => None,
        },
    }
}

pub open spec fn invalid_with(res: Result<(), ExportPlanError>, problem: Option<Seq<char>>) -> bool {
    match problem {
        None => res is Ok,
        Some(m) => res matches Err(ExportPlanError::InvalidRecipe(t)) && t@ == m,
    }
}

impl ExportRecipe {
    /// Checks the format settings and the resize edge.
    pub fn validate(&self) -> (res: Result<(), ExportPlanError>)
        ensures
            invalid_with(res, recipe_problem(*self)),
    {
        match self.format {
            ExportFormat::Jpeg => {
                match self.jpeg_quality {
                    None => return Err(ExportPlanError::InvalidRecipe("JPEG quality is required".to_owned())),
                    Some(q) => {
                        if !(1 <= q && q <= 100) {
                            return Err(ExportPlanError::InvalidRecipe("JPEG quality must be between 1 and 100".to_owned()));
                        }
                    },
                }
            },
            ExportFormat::Tiff => {
                if !(self.tiff_bit_depth == Some(8u8) || self.tiff_bit_depth == Some(16u8)) {
                    return Err(ExportPlanError::InvalidRecipe("TIFF bit depth must be 8 or 16".to_owned()));
                }
            },
        }
        match self.resize {
            Some(rs) => {
                if rs.long_edge_px == 0 {
                    return Err(ExportPlanError::InvalidRecipe("resize long edge must be greater than zero".to_owned()));
                }
            },
            None => {},
        }
        Ok(())
    }
}

pub open spec fn photo_text() -> Seq<char> {
    seq!['p', 'h', 'o', 't', 'o']
}

pub open spec fn format_extension(f: ExportFormat) -> Seq<char> {
    match f {
        ExportFormat::Jpeg => seq!['j', 'p', 'g'],
        ExportFormat::Tiff => seq!['t', 'i', 'f'],
    }
}

/// The stem a derivative is named after: the source's stem, or `photo`.
pub open spec fn stem_or_photo(p: Seq<char>) -> Seq<char> {
    match file_stem(p) {
        Some(st) => st,
        None => photo_text(),
    }
}

/// The derivative path a recipe plans for a source.
pub open spec fn planned_output(source: Seq<char>, r: ExportRecipe) -> Seq<char> {
    join(r.destination@, stem_or_photo(source) + seq!['.'] + format_extension(r.format))
}

/// `plan_export` succeeds exactly for a valid recipe whose destination is not
/// the source's directory and whose planned output is not the source itself.
pub open spec fn export_plan_result(source: Seq<char>, r: ExportRecipe, res: Result<ExportPlan, ExportPlanError>) -> bool {
    match recipe_problem(r) {
        Some(m) => res matches Err(ExportPlanError::InvalidRecipe(t)) && t@ == m,
        None => if is_parent_of(r.destination@, source) {
            res matches Err(ExportPlanError::SourceDirectoryDestination)
        } else if same_path(planned_output(source, r), source) {
            res matches Err(ExportPlanError::SourceCollision)
        } else {
            res matches Ok(plan) && plan.source@ == source && plan.output@ == planned_output(source, r)
                && plan.recipe == r
        },
    }
}

fn stem_or_photo_exec(p: &[char]) -> (res: Vec<char>)
    ensures
        res@ == stem_or_photo(p@),
{
    match file_name_of(p) {
        Some(name) => split_name(&name).0,
        None => {
            let v = vec!['p', 'h', 'o', 't', 'o'];
            assert(v@ =~= photo_text());
            v
        },
    }
}

fn extension_chars(f: ExportFormat) -> (res: Vec<char>)
    ensures
        res@ == format_extension(f),
{
    let v = match f {
        ExportFormat::Jpeg => vec!['j', 'p', 'g'],
        ExportFormat::Tiff => vec!['t', 'i', 'f'],
    };
    assert(v@ =~= format_extension(f));
    v
}

/// Plans a derivative path without touching the source or the file system;
/// an existing file at the planned path is left for the executor, which must
/// not overwrite it.
pub fn plan_export(source: &str, recipe: &ExportRecipe) -> (res: Result<ExportPlan, ExportPlanError>)
    ensures
        export_plan_result(source@, *recipe, res),
{
    match recipe.validate() {
        Err(e) => return Err(e),
        Ok(()) => {},
    }
    let src = chars_of(source);
    let dest = chars_of(recipe.destination.as_str());
    match parent_of(&src) {
        Some(parent) => {
            if same_path_exec(&parent, &dest) {
                return Err(ExportPlanError::SourceDirectoryDestination);
            }
            assert(!is_parent_of(recipe.destination@, source@));
        },
        None => {
            assert(!is_parent_of(recipe.destination@, source@));
        },
    }
    let stem = stem_or_photo_exec(&src);
    let mut name = stem;
    name.push('.');
    assert(name@ == stem_or_photo(source@) + seq!['.']);
    let name = concat(&name, &extension_chars(recipe.format));
    let output = join_name(&dest, &name);
    assert(output@ == planned_output(source@, *recipe));
    if same_path_exec(&output, &src) {
        return Err(ExportPlanError::SourceCollision);
    }
    let plan = ExportPlan { source: string_of(&src), output: string_of(&output), recipe: recipe.clone() };
    Ok(plan)
}

// ----- collision-safe naming -----

pub open spec fn digit_char(d: int) -> char {
    (('0' as int) + d) as char
}

/// Decimal digits of `n`, most significant first.
pub open spec fn decimal_text(n: nat) -> Seq<char>
    decreases n,
{
    if n < 10 {
        seq![digit_char(n as int)]
    } else {
        decimal_text(n / 10).push(digit_char((n % 10) as int))
    }
}

pub fn decimal_chars(n: u32) -> (res: Vec<char>)
    ensures
        res@ == decimal_text(n as nat),
    decreases n,
{
    let d: u32 = n % 10;
    let c: char = ((48u32 + d) as u8) as char;
    assert(c == digit_char(d as int));
    if n < 10 {
        let v = vec![c];
        assert(v@ =~= decimal_text(n as nat));
        v
    } else {
        let mut v = decimal_chars(n / 10);
        v.push(c);
        v
    }
}

/// The directory part used to name alternatives: the parent, or empty.
pub open spec fn parent_or_empty(p: Seq<char>) -> Seq<char> {
    match parent_text(p) {
        Some(d) => d,
        None => seq![],
    }
}

/// The `suffix`-th alternative name for a taken path: `stem-suffix.ext` in the
/// same directory.
pub open spec fn collision_candidate(planned: Seq<char>, suffix: nat) -> Seq<char> {
    let base = stem_or_photo(planned) + seq!['-'] + decimal_text(suffix);
    let name = match extension(planned) {
        Some(e) => base + seq!['.'] + e,
        None => base,
    };
    join(parent_or_empty(planned), name)
}

/// The alternative path named `stem-suffix.ext` next to `planned`.
pub fn collision_candidate_path(planned: &str, suffix: u32) -> (res: String)
    ensures
        res@ == collision_candidate(planned@, suffix as nat),
{
    let p = chars_of(planned);
    let parent = match parent_of(&p) {
        Some(d) => d,
        None => Vec::new(),
    };
    let mut base = stem_or_photo_exec(&p);
    base.push('-');
    let base = concat(&base, &decimal_chars(suffix));
    let ext = match file_name_of(&p) {
        Some(name) => split_name(&name).1,
        None => None,
    };
    let name = match ext {
        Some(e) => {
            let mut b = base;
            b.push('.');
            concat(&b, &e)
        },
        None => base,
    };
    string_of(&join_name(&parent, &name))
}

/// The name tried at probe `n` of the search for a free name: `planned`
/// first, then its alternatives `stem-n.ext`.
pub open spec fn probe_name(planned: Seq<char>, n: nat) -> Seq<char> {
    if n == 0 { planned } else { collision_candidate(planned, n) }
}

/// The file system's answers to a search for a free name (`true`: the
/// probe is taken), one per probe made: every probe but the last was taken,
/// and the last one too only when all 2^32 probes were made.
pub open spec fn probe_answers(answers: Seq<bool>) -> bool {
    &&& 0 < answers.len() <= u32::MAX + 1
    &&& forall|k: int| 0 <= k < answers.len() - 1 ==> #[trigger] answers[k]
    &&& answers.last() ==> answers.len() == u32::MAX + 1
}

/// Where such a search ends: the name of the last probe when it was free,
/// else nothing.
pub open spec fn probe_found(planned: Seq<char>, answers: Seq<bool>) -> Option<Seq<char>> {
    if answers.last() { None } else { Some(probe_name(planned, (answers.len() - 1) as nat)) }
}

/// Finds an unused derivative name: `planned` when nothing is there, else the
/// first free `stem-N.ext` with N = 1, 2, ... It never names an existing file
/// at the time it looks. What the file system answers is not stated; the
/// contract says what follows from its answers, whatever they are: the first
/// probe reported free is the result, and `None` comes only when every
/// 32-bit suffix was reported taken.
pub fn collision_safe_output(planned: &str) -> (res: Option<String>)
    ensures
        exists|answers: Seq<bool>| probe_answers(answers) && #[trigger] probe_found(planned@, answers) == match res {
            Some(o) => Some(o@),
            None => None::<Seq<char>>,
        },
{
    let mut n: u32 = 0;
    let ghost mut answers: Seq<bool> = Seq::empty();
    loop
        invariant
            answers.len() == n,
            forall|k: int| 0 <= k < answers.len() ==> #[trigger] answers[k],
        decreases u32::MAX - n,
    {
        let candidate = if n == 0 { planned.to_owned() } else { collision_candidate_path(planned, n) };
        let taken = path_exists(candidate.as_str());
        let ghost before = answers;
        proof {
            answers = before.push(taken);
            assert forall|k: int| 0 <= k < answers.len() - 1 implies #[trigger] answers[k] by {
                assert(answers[k] == before[k]);
            }
        }
        match probe_step(n, taken) {
            ProbeStep::Take => {
                assert(probe_answers(answers));
                assert(probe_found(planned@, answers) == Some(candidate@));
                return Some(candidate);
            },
            ProbeStep::GiveUp => {
                assert(probe_answers(answers));
                assert(probe_found(planned@, answers) == None::<Seq<char>>);
                return None;
            },
            ProbeStep::Next(m) => n = m,
        }
    }
}

} // verus!
