//! The text printed for `--version`.
use vstd::prelude::*;
use crate::text::concat;

verus! {

/// `{version} (commit: {commit}, built at: {built})`.
pub open spec fn version_text(version: Seq<char>, commit: Seq<char>, built: Seq<char>) -> Seq<char> {
    version + " (commit: "@ + commit + ", built at: "@ + built + ")"@
}

/// The full version line, from the package version and the commit and
/// build time recorded at build time.
pub fn version_string(version: &str, commit: &str, built: &str) -> (res: String)
    ensures
        res@ == version_text(version@, commit@, built@),
{
    let a = concat(version, " (commit: ");
    let b = concat(a.as_str(), commit);
    let c = concat(b.as_str(), ", built at: ");
    let d = concat(c.as_str(), built);
    concat(d.as_str(), ")")
}

} // verus!
