//! `createDirectory`, `deleteDirectory` and `move`: what each refuses, given
//! what the caller found on disk, and what it reports.
//!
//! Looking at the disk and changing it are the caller's part: each function
//! here is told what is at the paths involved and says whether to go ahead.

use vstd::prelude::*;

use crate::errors::ToolError;
use crate::resolve::{display_path, is_under_exec, owned_text, relative_to_root, spec_relative_to_root};
use crate::text::strs_view;
use crate::tool_types::ToolResult;

verus! {

/// A directory is created only where nothing is yet: something already at
/// the path is refused by the name the model gave. `relative` is the
/// target's path relative to the root, which the result reports.
pub fn create_directory(path: &str, exists: bool, relative: String) -> (r: Result<ToolResult, ToolError>)
    ensures
        exists ==> (r matches Err(ToolError::AlreadyExists(t)) && t@ == path@),
        !exists ==> r == Ok::<ToolResult, ToolError>(ToolResult::DirectoryCreated { path: relative }),
{
    if exists {
        Err(ToolError::AlreadyExists(owned_text(path)))
    } else {
        Ok(ToolResult::DirectoryCreated { path: relative })
    }
}

/// Whether a deletion takes the whole tree under the directory.
pub open spec fn removes_tree(empty: bool) -> bool {
    !empty
}

/// Deleting the directory `resolved` (canonical components) that the model
/// named `path`: refused where it is not a directory, where it is the root
/// itself, and where it has contents and the model did not say `recursive`.
/// The result also says whether the whole tree goes (`true`) or only an
/// empty directory.
pub fn delete_directory(
    path: &str,
    root: &Vec<String>,
    resolved: &Vec<String>,
    is_dir: bool,
    empty: bool,
    recursive: Option<bool>,
) -> (r: Result<(ToolResult, bool), ToolError>)
    ensures
        !is_dir ==> (r matches Err(ToolError::NotFound(t)) && t@ == path@),
        is_dir && strs_view(resolved@) == strs_view(root@) ==> (r matches Err(ToolError::PathEscape(t)) && t@
            == path@),
        is_dir && strs_view(resolved@) != strs_view(root@) ==> match spec_relative_to_root(
            strs_view(root@),
            strs_view(resolved@),
        ) {
            None => r matches Err(ToolError::PathEscape(t)) && t@ == display_path(strs_view(resolved@)),
            Some(rel) => if !empty && recursive != Some(true) {
                r matches Err(ToolError::DirectoryNotEmpty(t)) && t@ == rel
            } else {
                r matches Ok((ToolResult::DirectoryDeleted { path: p }, tree)) && p@ == rel && tree
                    == removes_tree(empty)
            },
        },
{
    if !is_dir {
        return Err(ToolError::NotFound(owned_text(path)));
    }
    if root.len() == resolved.len() && is_under_exec(root, resolved) {
        assert(strs_view(resolved@) =~= strs_view(root@)) by {
            assert(strs_view(resolved@).subrange(0, root@.len() as int) =~= strs_view(resolved@));
        }
        return Err(ToolError::PathEscape(owned_text(path)));
    }
    assert(strs_view(resolved@) != strs_view(root@)) by {
        if strs_view(resolved@) == strs_view(root@) {
            assert(strs_view(resolved@).subrange(0, root@.len() as int) =~= strs_view(root@));
        }
    }
    let relative = relative_to_root(root, resolved)?;
    let wants_tree = match recursive {
        Some(b) => b,
        None => false,
    };
    if !empty && !wants_tree {
        return Err(ToolError::DirectoryNotEmpty(relative));
    }
    Ok((ToolResult::DirectoryDeleted { path: relative }, !empty))
}

/// A move never replaces what is at its destination: a taken destination is
/// refused by the name the model gave it. `from` and `to` are both ends
/// relative to the root, which the result reports.
pub fn move_path(new_path: &str, target_exists: bool, from: String, to: String) -> (r: Result<
    ToolResult,
    ToolError,
>)
    ensures
        target_exists ==> (r matches Err(ToolError::AlreadyExists(t)) && t@ == new_path@),
        !target_exists ==> r == Ok::<ToolResult, ToolError>(ToolResult::Moved { from, to }),
{
    if target_exists {
        Err(ToolError::AlreadyExists(owned_text(new_path)))
    } else {
        Ok(ToolResult::Moved { from, to })
    }
}

} // verus!
