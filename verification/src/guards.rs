//! The read guard around changing a file: what the registry of reads says
//! to a replacement, a deletion or an anchored edit, in the words the model
//! is told, and what the change then records.

use vstd::prelude::*;

use crate::edit_file::{apply_edits, edit_views, spec_apply_edits, FileEdit};
use crate::errors::{ErrorView, ToolError};
use crate::read_file::{after_write, check_outcome, ReadFiles, WriteBlocked};
use crate::resolve::{
    copy_components, display_path, is_under, owned_text, relative_to_root, resolve_writable, spec_join_relative,
    spec_relative_to_root,
};
use crate::text::strs_view;
use crate::tool_types::ToolName;
use crate::tools::named_dir;

verus! {

/// A refusal of the guard as the model is told it. Before a deletion
/// (`deleting`), a file never read and one read in part are both told as a
/// deletion that needs a whole read.
pub open spec fn blocked_view(b: WriteBlocked, relative: Seq<char>, deleting: bool) -> ErrorView {
    match b {
        WriteBlocked::NeverRead => if deleting {
            ErrorView::DeleteNotReadInFull(relative)
        } else {
            ErrorView::FileNotRead(relative)
        },
        WriteBlocked::ReadInPart => if deleting {
            ErrorView::DeleteNotReadInFull(relative)
        } else {
            ErrorView::FileReadInPart(relative)
        },
        WriteBlocked::ChangedSinceRead => ErrorView::FileChangedSinceRead(relative),
    }
}

pub fn blocked_error(b: WriteBlocked, relative: &str, deleting: bool) -> (e: ToolError)
    ensures
        e@ == blocked_view(b, relative@, deleting),
{
    let p = owned_text(relative);
    match b {
        WriteBlocked::NeverRead => if deleting {
            ToolError::DeleteNotReadInFull(p)
        } else {
            ToolError::FileNotRead(p)
        },
        WriteBlocked::ReadInPart => if deleting {
            ToolError::DeleteNotReadInFull(p)
        } else {
            ToolError::FileReadInPart(p)
        },
        WriteBlocked::ChangedSinceRead => ToolError::FileChangedSinceRead(p),
    }
}

/// Whether a write may replace the file `relative`: a file that does not
/// exist yet (`existing` is `None`) has nothing to lose; one that does must
/// have been read whole, as it is now.
pub fn write_guard(relative: &str, existing: Option<&str>, reads: &ReadFiles) -> (r: Result<(), ToolError>)
    ensures
        match existing {
            None => r is Ok,
            Some(old) => match check_outcome(reads@, relative@, old@, true) {
                Ok(_) => r is Ok,
                Err(b) => r matches Err(e) && e@ == blocked_view(b, relative@, false),
            },
        },
{
    match existing {
        None => Ok(()),
        Some(old) => match reads.check(relative, old, true) {
            Ok(()) => Ok(()),
            Err(b) => Err(blocked_error(b, relative, false)),
        },
    }
}

/// Whether the file `relative`, whose text is `old`, may be deleted: it must
/// have been read whole, as it is now. `preflight` words a refusal as one of
/// a deletion, the way it is told before the call is approved.
pub fn delete_guard(relative: &str, old: &str, reads: &ReadFiles, preflight: bool) -> (r: Result<(), ToolError>)
    ensures
        match check_outcome(reads@, relative@, old@, true) {
            Ok(_) => r is Ok,
            Err(b) => r matches Err(e) && e@ == blocked_view(b, relative@, preflight),
        },
{
    match reads.check(relative, old, true) {
        Ok(()) => Ok(()),
        Err(b) => Err(blocked_error(b, relative, preflight)),
    }
}

/// An anchored edit of the file `relative`, whose text is `content`: refused
/// where the file changed since it was read; otherwise the edits are applied
/// all at once, and the edited text is recorded as the agent's own partial
/// write.
pub fn edit_file(relative: &str, content: &str, edits: &[FileEdit], reads: &mut ReadFiles) -> (r: Result<
    String,
    ToolError,
>)
    requires
        content@.len() < usize::MAX,
    ensures
        match check_outcome(old(reads)@, relative@, content@, false) {
            Err(b) => (r matches Err(e) && e@ == blocked_view(b, relative@, false)) && final(reads)@ == old(reads)@,
            Ok(_) => match spec_apply_edits(content@, edit_views(edits@)) {
                Err(v) => (r matches Err(e) && e@ == v) && final(reads)@ == old(reads)@,
                Ok(t) => (r matches Ok(s) && s@ == t) && final(reads)@ == after_write(
                    old(reads)@,
                    relative@,
                    t,
                    false,
                ),
            },
        },
{
    match reads.check(relative, content, false) {
        Ok(()) => {},
        Err(b) => {
            return Err(blocked_error(b, relative, false));
        },
    }
    let edited = apply_edits(content, edits)?;
    reads.record_write(relative, edited.as_str(), false);
    Ok(edited)
}

/// An edit of a file read whole keeps the licence to replace it: the agent
/// knows every part it did not change.
pub proof fn law_an_edit_after_a_whole_read_keeps_it_whole(
    m: Map<Seq<char>, (u64, bool)>,
    p: Seq<char>,
    edited: Seq<char>,
)
    requires
        m.contains_key(p),
        m[p].1,
    ensures
        check_outcome(after_write(m, p, edited, false), p, edited, true) == Ok::<(), WriteBlocked>(()),
{
}

// ----- before a call is shown to anyone -----

/// What a call does to the file it names first, as far as the read guard
/// is concerned.
#[derive(Debug, Clone, Copy, PartialEq, Eq, Structural)]
pub enum Change {
    /// Replaces the file whole (`writeFile`).
    Replace,
    /// Removes it (`deleteFile`).
    Delete,
    /// Splices anchored edits into it (`editFile`).
    Edit,
    /// Reads nothing the guard cares about (a directory, a move, a command).
    Other,
}

pub open spec fn opt_path(p: Option<&str>) -> Seq<Seq<char>> {
    match p {
        Some(p) => seq![p@],
        None => seq![],
    }
}

/// The paths a call names that must stay under the root, in the order they
/// are checked, and what it does to the first: a write, edit or deletion
/// of a file names its path; creating or deleting a directory names its
/// path; a move names both ends; a command names its working directory
/// where it names one other than the root. Other tools name nothing. A
/// file change with no path is left to argument parsing and names nothing.
pub open spec fn spec_targets(
    tool: ToolName,
    path: Option<&str>,
    new_path: Option<&str>,
    cwd: Option<&str>,
) -> (Seq<Seq<char>>, Change) {
    match tool {
        ToolName::WriteFile => if path is Some { (opt_path(path), Change::Replace) } else { (seq![], Change::Other) },
        ToolName::EditFile => if path is Some { (opt_path(path), Change::Edit) } else { (seq![], Change::Other) },
        ToolName::DeleteFile => if path is Some { (opt_path(path), Change::Delete) } else { (seq![], Change::Other) },
        ToolName::CreateDirectory | ToolName::DeleteDirectory => (opt_path(path), Change::Other),
        ToolName::Move => (opt_path(path) + opt_path(new_path), Change::Other),
        ToolName::RunCommand => match named_dir(cwd) {
            Some(d) => (seq![d], Change::Other),
            None => (seq![], Change::Other),
        },
        _ => (seq![], Change::Other),
    }
}

fn push_opt(v: &mut Vec<String>, p: Option<&str>)
    ensures
        strs_view(final(v)@) == strs_view(old(v)@) + opt_path(p),
{
    match p {
        Some(p) => {
            let ghost before = strs_view(v@);
            v.push(owned_text(p));
            assert(strs_view(v@) =~= before + opt_path(Some(p)));
        },
        None => {
            assert(strs_view(v@) + opt_path(p) =~= strs_view(v@));
        },
    }
}

/// What [`preflight`] is to check of a call of `tool` with the arguments
/// `path`, `new_path` and `cwd` (each where the tool has it).
pub fn preflight_targets(tool: ToolName, path: Option<&str>, new_path: Option<&str>, cwd: Option<&str>) -> (r: (
    Vec<String>,
    Change,
))
    ensures
        (strs_view(r.0@), r.1) == spec_targets(tool, path, new_path, cwd),
        r.1 != Change::Other ==> r.0@.len() >= 1,
{
    let mut v: Vec<String> = Vec::new();
    assert(strs_view(v@) =~= Seq::<Seq<char>>::empty());
    let change = match tool {
        ToolName::WriteFile | ToolName::EditFile | ToolName::DeleteFile => {
            if path.is_some() {
                push_opt(&mut v, path);
                match tool {
                    ToolName::WriteFile => Change::Replace,
                    ToolName::EditFile => Change::Edit,
                    _ => Change::Delete,
                }
            } else {
                Change::Other
            }
        },
        ToolName::CreateDirectory | ToolName::DeleteDirectory => {
            push_opt(&mut v, path);
            Change::Other
        },
        ToolName::Move => {
            push_opt(&mut v, path);
            push_opt(&mut v, new_path);
            Change::Other
        },
        ToolName::RunCommand => {
            match cwd {
                Some(c) => {
                    let cs = crate::text::chars_of(c);
                    if cs.len() > 0 && !(cs.len() == 1 && cs[0] == '.') {
                        push_opt(&mut v, cwd);
                    } else {
                        assert(cs.len() == 1 ==> cs@ =~= seq![cs@[0]]);
                    }
                },
                None => {},
            }
            Change::Other
        },
        _ => Change::Other,
    };
    (v, change)
}

/// Whether `relative` joins onto the root and its canonical form lies under
/// it.
pub open spec fn writable(root: Seq<Seq<char>>, relative: Seq<char>, canonical: Seq<Seq<char>>) -> bool {
    spec_join_relative(root, relative) is Some && is_under(root, canonical)
}

/// The refusal of a path that does not pass [`writable`].
pub open spec fn escape_view(root: Seq<Seq<char>>, relative: Seq<char>, canonical: Seq<Seq<char>>) -> ErrorView {
    if spec_join_relative(root, relative) is None {
        ErrorView::PathEscape(relative)
    } else {
        ErrorView::PathEscape(display_path(canonical))
    }
}

/// The first of the first `n` named paths that does not pass; -1 where all
/// do.
pub open spec fn first_escape(root: Seq<Seq<char>>, paths: Seq<(String, Vec<String>)>, n: int) -> int
    decreases n,
{
    if n <= 0 {
        -1
    } else if first_escape(root, paths, n - 1) >= 0 {
        first_escape(root, paths, n - 1)
    } else if !writable(root, paths[n - 1].0@, strs_view(paths[n - 1].1@)) {
        n - 1
    } else {
        -1
    }
}

/// What the preflight says of a call whose named paths all pass: where it
/// replaces, deletes or edits a file that exists (`current` its text), what
/// the read guard says; otherwise nothing.
pub open spec fn guard_view(
    root: Seq<Seq<char>>,
    canonical: Seq<Seq<char>>,
    change: Change,
    current: Option<Seq<char>>,
    reads: Map<Seq<char>, (u64, bool)>,
) -> Option<ErrorView> {
    match current {
        Some(text) if change != Change::Other => {
            let rel = spec_relative_to_root(root, canonical)->0;
            match check_outcome(reads, rel, text, change != Change::Edit) {
                Ok(_) => None,
                Err(b) => Some(blocked_view(b, rel, change == Change::Delete)),
            }
        },
        _ => None,
    }
}

/// Checks a call before anyone is asked about it. `paths` are the paths it
/// names, each with the canonical form of its join onto the root; the first
/// is the file a write, deletion or edit changes, and `current` is its text
/// where it exists. Every path must stay under the root, checked in order;
/// then a replacement or deletion needs the file read whole as it is now,
/// and an edit needs it unchanged since any read. A deletion's refusal is
/// told as one.
pub fn preflight(
    root: &Vec<String>,
    paths: &Vec<(String, Vec<String>)>,
    change: Change,
    current: Option<&str>,
    reads: &ReadFiles,
) -> (r: Result<(), ToolError>)
    requires
        change != Change::Other ==> paths@.len() >= 1,
    ensures
        first_escape(strs_view(root@), paths@, paths@.len() as int) >= 0 ==> (r matches Err(e) && e@
            == escape_view(
            strs_view(root@),
            paths@[first_escape(strs_view(root@), paths@, paths@.len() as int)].0@,
            strs_view(paths@[first_escape(strs_view(root@), paths@, paths@.len() as int)].1@),
        )),
        first_escape(strs_view(root@), paths@, paths@.len() as int) < 0 ==> match guard_view(
            strs_view(root@),
            strs_view(paths@[0].1@),
            change,
            match current {
                Some(t) => Some(t@),
                None => None,
            },
            reads@,
        ) {
            None => r is Ok,
            Some(v) => r matches Err(e) && e@ == v,
        },
{
    let ghost rv = strs_view(root@);
    let mut i: usize = 0;
    while i < paths.len()
        invariant
            i <= paths@.len(),
            rv == strs_view(root@),
            first_escape(rv, paths@, i as int) < 0,
        decreases paths.len() - i,
    {
        let canonical = copy_components(&paths[i].1);
        match resolve_writable(root, paths[i].0.as_str(), canonical) {
            Ok(_) => {},
            Err(e) => {
                proof {
                    assert(!writable(rv, paths@[i as int].0@, strs_view(paths@[i as int].1@)));
                    assert(first_escape(rv, paths@, i + 1) == i);
                    lemma_first_escape_stays(rv, paths@, i + 1, paths@.len() as int);
                }
                return Err(e);
            },
        }
        i = i + 1;
    }
    if change == Change::Other {
        return Ok(());
    }
    let text = match current {
        Some(t) => t,
        None => {
            return Ok(());
        },
    };
    proof {
        lemma_no_escape_all(rv, paths@, paths@.len() as int, 0);
    }
    let relative = match relative_to_root(root, &paths[0].1) {
        Ok(rel) => rel,
        Err(e) => {
            return Err(e);
        },
    };
    match reads.check(relative.as_str(), text, change != Change::Edit) {
        Ok(()) => Ok(()),
        Err(b) => Err(blocked_error(b, relative.as_str(), change == Change::Delete)),
    }
}

proof fn lemma_first_escape_stays(root: Seq<Seq<char>>, paths: Seq<(String, Vec<String>)>, k: int, n: int)
    requires
        0 <= k <= n,
        first_escape(root, paths, k) >= 0,
    ensures
        first_escape(root, paths, n) == first_escape(root, paths, k),
    decreases n - k,
{
    if n > k {
        lemma_first_escape_stays(root, paths, k, n - 1);
    }
}

proof fn lemma_no_escape_all(root: Seq<Seq<char>>, paths: Seq<(String, Vec<String>)>, n: int, j: int)
    requires
        first_escape(root, paths, n) < 0,
        0 <= j < n,
    ensures
        writable(root, paths[j].0@, strs_view(paths[j].1@)),
    decreases n,
{
    if j < n - 1 {
        lemma_no_escape_all(root, paths, n - 1, j);
    }
}

} // verus!
