//! Edit previews: a lightweight rendering of a recipe on an extracted RAW
//! preview, done outside the library. Only its failures are named here.

use vstd::prelude::*;

verus! {

pub enum EditPreviewError {
    Decode(String),
    Write(String),
}

} // verus!
