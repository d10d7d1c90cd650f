//! Preview artifacts: where a preview is cached and whether a stored preview
//! is current for a source fingerprint and revision.

use vstd::prelude::*;
use crate::ids::{id_text, id_text_of};
use crate::path::{concat, join, join_name};
use crate::text::{chars_of, string_of};

verus! {

#[derive(PartialEq, Eq, Structural, Clone, Copy, Debug)]
pub enum PreviewSource {
    EmbeddedRawPreview,
    RenderedRawPreview,
}

pub struct PreviewArtifact {
    pub asset_id: u128,
    pub source_fingerprint: String,
    pub revision: String,
    pub cache_path: String,
    pub mime_type: String,
    pub width: u32,
    pub height: u32,
    pub source: PreviewSource,
}

pub enum PreviewStoreError {
    Sqlite(String),
    Io(String),
    Json(String),
}

/// The preview records kept in the database at `path`.
pub struct PreviewStore {
    path: String,
}

impl PreviewStore {
    pub closed spec fn location(&self) -> Seq<char> {
        self.path@
    }

    /// The store kept at `path`; opening the database is the caller's part.
    pub fn at(path: String) -> (res: Self)
        ensures
            res.location() == path@,
    {
        PreviewStore { path }
    }

    pub fn path(&self) -> (res: &str)
        ensures
            res@ == self.location(),
    {
        self.path.as_str()
    }
}

impl Clone for PreviewStore {
    fn clone(&self) -> (res: Self)
        ensures
            res.location() == self.location(),
    {
        PreviewStore { path: self.path.clone() }
    }
}

/// A stored preview is current when it exists and was made from the same
/// source fingerprint at the same revision.
pub open spec fn preview_current(stored: Option<PreviewArtifact>, fingerprint: Seq<char>, revision: Seq<char>) -> bool {
    stored matches Some(a) && a.source_fingerprint@ == fingerprint && a.revision@ == revision
}

pub fn is_current_preview(stored: &Option<PreviewArtifact>, source_fingerprint: &str, revision: &str) -> (res: bool)
    ensures
        res == preview_current(*stored, source_fingerprint@, revision@),
{
    match stored {
        None => false,
        Some(a) => crate::path::chars_equal(&chars_of(a.source_fingerprint.as_str()), &chars_of(source_fingerprint))
            && crate::path::chars_equal(&chars_of(a.revision.as_str()), &chars_of(revision)),
    }
}

pub open spec fn file_safe(c: char) -> bool {
    ('a' <= c <= 'z') || ('A' <= c <= 'Z') || ('0' <= c <= '9') || c == '-' || c == '_'
}

/// A revision made safe for a file name: ASCII letters, digits, `-` and `_`
/// are kept, every other character becomes `_`.
pub open spec fn safe_revision(revision: Seq<char>) -> Seq<char> {
    Seq::new(revision.len(), |i: int| if file_safe(revision[i]) { revision[i] } else { '_' })
}

fn safe_revision_chars(revision: &[char]) -> (res: Vec<char>)
    ensures
        res@ == safe_revision(revision@),
{
    let mut out: Vec<char> = Vec::new();
    let mut i: usize = 0;
    while i < revision.len()
        invariant
            i <= revision@.len(),
            out@ == safe_revision(revision@).subrange(0, i as int),
        decreases revision@.len() - i,
    {
        let c = revision[i];
        let keep = ('a' <= c && c <= 'z') || ('A' <= c && c <= 'Z') || ('0' <= c && c <= '9') || c == '-' || c == '_';
        if keep {
            out.push(c);
        } else {
            out.push('_');
        }
        i += 1;
        assert(out@ =~= safe_revision(revision@).subrange(0, i as int));
    }
    assert(safe_revision(revision@).subrange(0, revision@.len() as int) =~= safe_revision(revision@));
    out
}

pub open spec fn previews_dir() -> Seq<char> {
    seq!['p', 'r', 'e', 'v', 'i', 'e', 'w', 's']
}

/// `root/previews/<asset id>-<safe revision>.jpg`.
pub open spec fn preview_path(root: Seq<char>, asset_id: u128, revision: Seq<char>) -> Seq<char> {
    join(join(root, previews_dir()),
        id_text_of(asset_id) + seq!['-'] + safe_revision(revision) + seq!['.', 'j', 'p', 'g'])
}

pub fn preview_cache_path(cache_root: &str, asset_id: u128, revision: &str) -> (res: String)
    ensures
        res@ == preview_path(cache_root@, asset_id, revision@),
{
    let dir_name = vec!['p', 'r', 'e', 'v', 'i', 'e', 'w', 's'];
    assert(dir_name@ =~= previews_dir());
    let dir = join_name(&chars_of(cache_root), &dir_name);
    let mut name = chars_of(id_text(asset_id).as_str());
    name.push('-');
    let name = concat(&name, &safe_revision_chars(&chars_of(revision)));
    let jpg = vec!['.', 'j', 'p', 'g'];
    assert(jpg@ =~= seq!['.', 'j', 'p', 'g']);
    let name = concat(&name, &jpg);
    string_of(&join_name(&dir, &name))
}

} // verus!
