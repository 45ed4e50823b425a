//! Precondition checks for the three file mutation operations.
//!
//! Each operation validates its target before any filesystem mutation: the
//! caller reports what it found on disk, and the check either clears the
//! operation or returns the exact failure message owed for that input. On
//! `Ok` the caller performs the mutation itself (the permanent removal, the
//! rename, or the handoff to the platform's trash facility); nothing has
//! been touched when an `Err` comes back.

use vstd::prelude::*;
use vstd::string::StringExecFns;

verus! {

/// Decides whether a permanent delete may proceed: the target must exist
/// and must not be a directory (directory deletion is unsupported by
/// design).
pub fn delete_file(path: &str, path_exists: bool, path_is_directory: bool) -> (r: Result<
    (),
    String,
>)
    ensures
        !path_exists ==> (r matches Err(m) && m@ == "File does not exist: "@ + path@),
        path_exists && path_is_directory ==> (r matches Err(m) && m@
            == "Cannot delete directories yet"@),
        path_exists && !path_is_directory ==> r is Ok,
{
    if !path_exists {
        let mut m = "File does not exist: ".to_owned();
        m.append(path);
        Err(m)
    } else if path_is_directory {
        Err("Cannot delete directories yet".to_owned())
    } else {
        Ok(())
    }
}

/// Decides whether a move may proceed: the source must exist and must not
/// be a directory (directory moves are unsupported by design). On `Ok` the
/// caller creates the destination's parent directory if absent and performs
/// the rename.
pub fn move_file(from: &str, from_exists: bool, from_is_directory: bool) -> (r: Result<
    (),
    String,
>)
    ensures
        !from_exists ==> (r matches Err(m) && m@ == "Source file does not exist: "@ + from@),
        from_exists && from_is_directory ==> (r matches Err(m) && m@
            == "Cannot move directories yet"@),
        from_exists && !from_is_directory ==> r is Ok,
{
    if !from_exists {
        let mut m = "Source file does not exist: ".to_owned();
        m.append(from);
        Err(m)
    } else if from_is_directory {
        Err("Cannot move directories yet".to_owned())
    } else {
        Ok(())
    }
}

/// Decides whether a move to the platform's trash facility may proceed: the
/// target must exist.
pub fn move_to_trash(path: &str, path_exists: bool) -> (r: Result<(), String>)
    ensures
        !path_exists ==> (r matches Err(m) && m@ == "File does not exist: "@ + path@),
        path_exists ==> r is Ok,
{
    if !path_exists {
        let mut m = "File does not exist: ".to_owned();
        m.append(path);
        Err(m)
    } else {
        Ok(())
    }
}

} // verus!
