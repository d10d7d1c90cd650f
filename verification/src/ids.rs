//! Identifiers of assets, groups, batches and items. They are held as the
//! 128-bit value of a UUID and written in its hyphenated lowercase form.

use vstd::prelude::*;

verus! {

/// A freshly generated random (version 4) identifier.
///
/// Calls `uuid::Uuid::new_v4`; nothing is promised about the value, which
/// comes from the operating system's random source.
#[verifier::external_body]
pub(crate) fn fresh_id() -> u128 {
    uuid::Uuid::new_v4().as_u128()
}

pub open spec fn hex_digit(d: int) -> char {
    if d < 10 {
        (('0' as int) + d) as char
    } else {
        (('a' as int) + d - 10) as char
    }
}

/// The last `width` lowercase hexadecimal digits of `n`, most significant
/// first, zero-padded.
pub open spec fn hex_text(n: nat, width: nat) -> Seq<char>
    decreases width,
{
    if width == 0 {
        seq![]
    } else {
        hex_text(n / 16, (width - 1) as nat).push(hex_digit((n % 16) as int))
    }
}

/// The hyphenated form of an identifier: its 32 hexadecimal digits grouped
/// 8-4-4-4-12.
pub open spec fn id_text_of(id: u128) -> Seq<char> {
    let h = hex_text(id as nat, 32);
    h.subrange(0, 8) + seq!['-'] + h.subrange(8, 12) + seq!['-'] + h.subrange(12, 16) + seq!['-']
        + h.subrange(16, 20) + seq!['-'] + h.subrange(20, 32)
}

/// The identifier written as a UUID.
///
/// Calls `uuid::Uuid::from_u128` and its `Display`, which writes the 16 bytes
/// of the value, most significant first, as lowercase hexadecimal digits
/// grouped 8-4-4-4-12 with hyphens.
#[verifier::external_body]
pub(crate) fn id_text(id: u128) -> (res: String)
    ensures
        res@ == id_text_of(id),
{
    uuid::Uuid::from_u128(id).to_string()
}

/// Whether `id` occurs in `ids`.
pub fn id_listed(ids: &[u128], id: u128) -> (res: bool)
    ensures
        res == ids@.contains(id),
{
    let mut i: usize = 0;
    while i < ids.len()
        invariant
            i <= ids@.len(),
            forall|j: int| 0 <= j < i ==> ids@[j] != id,
        decreases ids@.len() - i,
    {
        if ids[i] == id {
            assert(ids@[i as int] == id);
            return true;
        }
        i += 1;
    }
    false
}

} // verus!
