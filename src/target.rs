//! Checks on the path to list, made before any entry is read.

use vstd::prelude::*;
use vstd::string::StringExecFns;

verus! {

/// Why a path cannot be listed.
#[derive(Clone, Copy, Debug, PartialEq, Eq, Structural)]
pub enum TargetError {
    /// Nothing exists at the path.
    PathNotFound,
    /// The path exists but is not a directory.
    NotADirectory,
}

/// Decides whether a path can be listed, from whether it exists and whether
/// it is a directory: a missing path is reported first.
pub fn check_target(exists: bool, is_dir: bool) -> (r: Result<(), TargetError>)
    ensures
        !exists ==> r == Err::<(), TargetError>(TargetError::PathNotFound),
        exists && !is_dir ==> r == Err::<(), TargetError>(TargetError::NotADirectory),
        exists && is_dir ==> r is Ok,
{
    if !exists {
        Err(TargetError::PathNotFound)
    } else if !is_dir {
        Err(TargetError::NotADirectory)
    } else {
        Ok(())
    }
}

/// The message shown for an error on `path`.
pub open spec fn target_message(e: TargetError, path: Seq<char>) -> Seq<char> {
    match e {
        TargetError::PathNotFound => "Error: Path '"@ + path + "' does not exist"@,
        TargetError::NotADirectory => "Error: '"@ + path + "' is not a directory"@,
    }
}

impl TargetError {
    /// The message for this error on `path`: "Error: Path '<path>' does not
    /// exist" or "Error: '<path>' is not a directory".
    pub fn message(&self, path: &str) -> (r: String)
        ensures
            r@ == target_message(*self, path@),
    {
        let mut r = String::new();
        match self {
            TargetError::PathNotFound => {
                r.append("Error: Path '");
                r.append(path);
                r.append("' does not exist");
            },
            TargetError::NotADirectory => {
                r.append("Error: '");
                r.append(path);
                r.append("' is not a directory");
            },
        }
        assert(r@ =~= target_message(*self, path@));
        r
    }
}

} // verus!
