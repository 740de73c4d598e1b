//! File-system paths as values: std's `Path` and `PathBuf` carried through
//! the library, and the one operation it performs on them.

use vstd::prelude::*;
use std::path::{Path, PathBuf};

verus! {

#[verifier::external_type_specification]
#[verifier::external_body]
pub struct ExPathBuf(PathBuf);

#[verifier::external_type_specification]
#[verifier::external_body]
pub struct ExPath(Path);

/// The path that `base` joined with the relative path `name` gives.
pub uninterp spec fn joined_path(base: &Path, name: Seq<char>) -> PathBuf;

/// `Path::join` of std. Claimed: the path it returns depends on `base` and
/// `name` alone, and is named [`joined_path`]; nothing more is stated of it.
#[verifier::external_body]
pub(crate) fn path_join(base: &Path, name: &str) -> (r: PathBuf)
    ensures
        r == joined_path(base, name@),
{
    base.join(name)
}

} // verus!
