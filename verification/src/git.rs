//! The data the git-mirror endpoints serve, and the rule that turns a
//! reference name into a branch name.  Talking to the version-control library
//! itself is the caller's business.

use vstd::prelude::*;

use crate::location::str_eq;

verus! {

/// One branch of the mirrored repository.
#[derive(Clone, Debug)]
pub struct BranchInfo {
    pub name: String,
    pub commit_hash: String,
    pub time: i64,
    pub message: Vec<String>,
}

/// The branch listing: the default branch, if one is known, and all remote
/// branches.
#[derive(Clone, Debug)]
pub struct BranchResponse {
    pub default_branch: Option<String>,
    pub branches: Vec<BranchInfo>,
}

/// The prefix a remote reference name carries in front of its branch name.
pub open spec fn spec_origin_prefix() -> Seq<char> {
    "refs/remotes/origin/"@
}

/// The branch name of a reference: the name with the remote prefix removed,
/// or the name itself where the prefix is absent.
pub fn get_branch_name(reference: &str) -> (r: String)
    ensures
        if reference@.len() >= spec_origin_prefix().len() && reference@.subrange(
            0,
            spec_origin_prefix().len() as int,
        ) == spec_origin_prefix() {
            r@ == reference@.skip(spec_origin_prefix().len() as int)
        } else {
            r@ == reference@
        },
{
    let prefix = "refs/remotes/origin/";
    let plen = prefix.unicode_len();
    let n = reference.unicode_len();
    if n >= plen && str_eq(reference.substring_char(0, plen), prefix) {
        reference.substring_char(plen, n).to_owned()
    } else {
        reference.to_owned()
    }
}

} // verus!
