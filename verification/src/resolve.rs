//! The input resolver: a free-form subject string becomes exactly one
//! review subject, or the resolution fails with an explicit message.

use vstd::prelude::*;

use crate::models::InputType;
use crate::strutil::str_eq;

verus! {

/// The message reported when no subject form matches.
pub open spec fn unresolvable_message(input: Seq<char>) -> Seq<char> {
    "Unable to parse input: "@ + input + ". Please provide: commit hash, file path, or 'diff'"@
}

/// Resolve a free-form subject string, told whether it names an existing
/// filesystem path and whether the repository resolves it as a revision.
/// The first matching form wins: the literal `"diff"` means the working
/// tree, then an existing path means a plain file, then a revision means a
/// commit. A file literally named `diff` is therefore unreachable here;
/// that tie-break is deliberate.
pub fn resolve_input(input: &str, path_exists: bool, is_revision: bool) -> (r: Result<
    InputType,
    String,
>)
    ensures
        input@ == "diff"@ ==> (r matches Ok(t) && t is WorkingTreeDiff),
        input@ != "diff"@ && path_exists ==> (r matches Ok(t) && (t matches InputType::FileContent {
            path,
        } && path@ == input@)),
        input@ != "diff"@ && !path_exists && is_revision ==> (r matches Ok(t) && (t matches
        InputType::CommitDiff { commit } && commit@ == input@)),
        input@ != "diff"@ && !path_exists && !is_revision ==> (r matches Err(m) && m@
            == unresolvable_message(input@)),
{
    if str_eq(input, "diff") {
        return Ok(InputType::WorkingTreeDiff);
    }
    if path_exists {
        return Ok(InputType::FileContent { path: input.to_owned() });
    }
    if is_revision {
        return Ok(InputType::CommitDiff { commit: input.to_owned() });
    }
    let msg = String::from_str("Unable to parse input: ").concat(input).concat(
        ". Please provide: commit hash, file path, or 'diff'",
    );
    Err(msg)
}

} // verus!
