//! The decisions behind `gitStatus`, `gitDiff` and `gitBlame`: which list a
//! changed path goes in and how it is shown, what a diff compares, how a
//! directory's diff is fitted to a budget, and how far a blame reaches.
//! Reading the repository is the caller's part, through `git2`.

use vstd::prelude::*;

use crate::errors::ToolError;
use crate::resolve::{is_under, is_under_exec, owned_text};
use crate::text::{
    chars_of, contains_exec, contains_seq, join, push_char, push_joined, replace_all, replace_text, slice_to_vec, starts_with, str_eq, strs_view, text_of,
};
use crate::tool_types::{GitFileStatus, ToolResult};

verus! {

/// Cap on the lines one blame may cover.
pub const MAX_BLAME_LINES: u32 = 400;

/// Cap on the paths one status carries across its three lists.
pub const MAX_STATUS_ENTRIES: usize = 200;

/// Caps on a directory's diff: files, and diff text across all of them.
pub const MAX_DIFF_FILES: usize = 50;

pub const MAX_DIFF_CHARS: usize = 20000;

// ----- blame -----

/// The last line a blame from `start` covers, and whether the cap cut it:
/// at most [`MAX_BLAME_LINES`] lines; an end before the start collapses onto
/// it; without an end, the file's last line (or the cap, for a file whose
/// length is unknown).
pub open spec fn spec_blame_range(start: u32, end: Option<u32>, total: u32) -> (u32, bool) {
    let capped = (start + MAX_BLAME_LINES - 1) as u32;
    match end {
        Some(e) => {
            let e2 = if e > start { e } else { start };
            if e2 > capped {
                (capped, true)
            } else {
                (e2, false)
            }
        },
        None => if total == 0 {
            (capped, false)
        } else if total > capped {
            (capped, true)
        } else {
            (if total > start { total } else { start }, false)
        },
    }
}

pub fn blame_range(start: u32, end: Option<u32>, total: u32) -> (r: (u32, bool))
    requires
        start + MAX_BLAME_LINES <= u32::MAX,
    ensures
        r == spec_blame_range(start, end, total),
{
    let capped = start + MAX_BLAME_LINES - 1;
    match end {
        Some(e) => {
            let e2 = if e > start { e } else { start };
            if e2 > capped {
                (capped, true)
            } else {
                (e2, false)
            }
        },
        None => {
            if total == 0 {
                (capped, false)
            } else if total > capped {
                (capped, true)
            } else {
                (if total > start { total } else { start }, false)
            }
        },
    }
}

/// A blame never covers more than [`MAX_BLAME_LINES`] lines, never ends
/// before it starts, and says it was cut whenever the end it reports is not
/// the one asked for.
pub proof fn law_a_blame_is_capped(start: u32, end: Option<u32>, total: u32)
    requires
        start + MAX_BLAME_LINES - 1 <= u32::MAX,
    ensures
        start <= spec_blame_range(start, end, total).0 < start + MAX_BLAME_LINES,
        end matches Some(e) ==> (e >= start && !spec_blame_range(start, end, total).1 ==> spec_blame_range(
            start,
            end,
            total,
        ).0 == e),
{
}

/// Without an end, a blame of a file of `total` lines runs to the file's
/// last line and never past it (nor before its start); only a file longer
/// than the cap allows is cut, at the cap.
pub proof fn law_a_blame_without_an_end_runs_to_the_last_line(start: u32, total: u32)
    requires
        start + MAX_BLAME_LINES - 1 <= u32::MAX,
        total > 0,
    ensures
        spec_blame_range(start, None, total).0 <= if total > start { total } else { start },
        total < start + MAX_BLAME_LINES ==> spec_blame_range(start, None, total) == (
            if total > start { total } else { start },
            false,
        ),
        total >= start + MAX_BLAME_LINES ==> spec_blame_range(start, None, total) == (
            (start + MAX_BLAME_LINES - 1) as u32,
            true,
        ),
{
}

/// With an end, a blame ends there when the range fits the cap, at its
/// start when the end comes before it, and at the cap, saying so, when the
/// range is longer.
pub proof fn law_a_blame_with_an_end_ends_there(start: u32, end: u32, total: u32)
    requires
        start + MAX_BLAME_LINES - 1 <= u32::MAX,
    ensures
        start <= end < start + MAX_BLAME_LINES ==> spec_blame_range(start, Some(end), total) == (end, false),
        end < start ==> spec_blame_range(start, Some(end), total) == (start, false),
        end >= start + MAX_BLAME_LINES ==> spec_blame_range(start, Some(end), total) == (
            (start + MAX_BLAME_LINES - 1) as u32,
            true,
        ),
{
}

/// What a blame of a never-committed file says instead of libgit2's own
/// words.
pub open spec fn uncommitted_text(path: Seq<char>) -> Seq<char> {
    path
        + " has no history yet — it is not committed, so it cannot be blamed. gitDiff shows its whole current content."@
}

/// What libgit2 says when the path is not in the tree a blame starts from.
pub open spec fn not_in_tree_text() -> Seq<char> {
    "does not exist in the given tree"@
}

/// A blame's failure: libgit2's `message`, unless it says the path is not
/// in the tree, which for a file that exists means it was never committed.
pub fn blame_error(path: &str, message: &str) -> (e: ToolError)
    requires
        message@.len() < usize::MAX,
    ensures
        contains_seq(message@, not_in_tree_text()) ==> (e matches ToolError::Git(t) && t@ == uncommitted_text(
            path@,
        )),
        !contains_seq(message@, not_in_tree_text()) ==> (e matches ToolError::Git(t) && t@ == message@),
{
    let m = chars_of(message);
    let needle = chars_of("does not exist in the given tree");
    if contains_exec(m.as_slice(), needle.as_slice()) {
        let mut t = owned_text(path);
        t.append(
            " has no history yet — it is not committed, so it cannot be blamed. gitDiff shows its whole current content.",
        );
        ToolError::Git(t)
    } else {
        ToolError::Git(owned_text(message))
    }
}

/// What a directory that is in no repository says.
pub fn not_a_repository(root: &str) -> (e: ToolError)
    ensures
        e matches ToolError::Git(t) && t@ == root@ + " is not inside a git repository"@,
{
    let mut t = owned_text(root);
    t.append(" is not inside a git repository");
    ToolError::Git(t)
}

/// Where the scope root lies in the repository: its components below the
/// working tree's, joined by `/`, each `\\` made `/`, and a closing `/`;
/// empty where the root is the working tree itself; `None` where the root
/// is not under the working tree.
pub open spec fn spec_scope_prefix(root: Seq<Seq<char>>, workdir: Seq<Seq<char>>) -> Option<Seq<char>> {
    if !is_under(workdir, root) {
        None
    } else if root.len() == workdir.len() {
        Some(seq![])
    } else {
        Some(replace_all(join(root.subrange(workdir.len() as int, root.len() as int), seq!['/']), seq!['\\'], seq!['/'])
            + seq!['/'])
    }
}

pub open spec fn bare_repository_text() -> Seq<char> {
    "a bare repository has no working tree"@
}

pub open spec fn root_outside_text() -> Seq<char> {
    "the workspace root is outside the repository's working tree"@
}

/// The scope root's place in the repository (see [`spec_scope_prefix`]),
/// given both canonical paths as components; `workdir` is `None` for a bare
/// repository. Paths git reports are relative to the working tree; with
/// this prefix taken off they are relative to the scope.
pub fn scope_prefix(root: &Vec<String>, workdir: Option<&Vec<String>>) -> (r: Result<String, ToolError>)
    ensures
        match workdir {
            None => r matches Err(ToolError::Git(t)) && t@ == bare_repository_text(),
            Some(w) => match spec_scope_prefix(strs_view(root@), strs_view(w@)) {
                None => r matches Err(ToolError::Git(t)) && t@ == root_outside_text(),
                Some(p) => r matches Ok(s) && s@ == p,
            },
        },
{
    let w = match workdir {
        None => {
            let mut t = String::new();
            t.append("a bare repository has no working tree");
            return Err(ToolError::Git(t));
        },
        Some(w) => w,
    };
    if !is_under_exec(w, root) {
        let mut t = String::new();
        t.append("the workspace root is outside the repository's working tree");
        return Err(ToolError::Git(t));
    }
    if root.len() == w.len() {
        return Ok(String::new());
    }
    let mut rest: Vec<String> = Vec::new();
    let mut i: usize = w.len();
    while i < root.len()
        invariant
            w@.len() <= i <= root@.len(),
            workdir == Some(w),
            is_under(strs_view(w@), strs_view(root@)),
            root@.len() != w@.len(),
            strs_view(rest@) == strs_view(root@).subrange(w@.len() as int, i as int),
        decreases root.len() - i,
    {
        let name = owned_text(root[i].as_str());
        let ghost before = strs_view(rest@);
        rest.push(name);
        proof {
            assert(strs_view(rest@) =~= before.push(name@));
            assert(strs_view(root@)[i as int] == root@[i as int]@);
            assert(strs_view(rest@) =~= strs_view(root@).subrange(w@.len() as int, i + 1));
        }
        i = i + 1;
    }
    proof {
        reveal_strlit("\\");
        reveal_strlit("/");
    }
    assert("/"@ =~= seq!['/']);
    assert("\\"@ =~= seq!['\\']);
    let mut joined = String::new();
    let ghost empty = joined@;
    assert(empty =~= Seq::<char>::empty());
    push_joined(&mut joined, &rest, "/");
    assert(joined@ =~= join(strs_view(rest@), seq!['/']));
    let mut s = replace_text(joined.as_str(), "\\", "/");
    assert(s@ == replace_all(join(strs_view(rest@), seq!['/']), seq!['\\'], seq!['/']));
    push_char(&mut s, '/');
    assert(strs_view(rest@) == strs_view(root@).subrange(w@.len() as int, root@.len() as int));
    Ok(s)
}

// ----- diff -----

/// What a diff compares: one commit against its parent, the index against
/// the working tree, or `HEAD` against the index.
#[derive(Debug, PartialEq, Eq)]
pub enum Comparison {
    Commit(String),
    Unstaged,
    Staged,
}

pub open spec fn bad_scope_text(scope: Seq<char>) -> Seq<char> {
    "scope must be \"unstaged\" or \"staged\" (got \""@ + scope + "\")"@
}

/// The comparison a `gitDiff` call asks for: a commit where one is named
/// (not empty), else the scope, `unstaged` when not given.
pub fn comparison_of(commit: Option<&str>, scope: Option<&str>) -> (r: Result<Comparison, ToolError>)
    ensures
        match commit {
            Some(c) if c@.len() > 0 => r matches Ok(Comparison::Commit(t)) && t@ == c@,
            _ => match scope {
                None => r == Ok::<Comparison, ToolError>(Comparison::Unstaged),
                Some(s) => if s@ == "unstaged"@ {
                    r == Ok::<Comparison, ToolError>(Comparison::Unstaged)
                } else if s@ == "staged"@ {
                    r == Ok::<Comparison, ToolError>(Comparison::Staged)
                } else {
                    r matches Err(ToolError::InvalidArguments { tool, reason }) && tool@ == "gitDiff"@ && reason@
                        == bad_scope_text(s@)
                },
            },
        },
{
    match commit {
        Some(c) => {
            if chars_of(c).len() > 0 {
                return Ok(Comparison::Commit(owned_text(c)));
            }
        },
        None => {},
    }
    match scope {
        None => Ok(Comparison::Unstaged),
        Some(s) => {
            if str_eq(s, "unstaged") {
                Ok(Comparison::Unstaged)
            } else if str_eq(s, "staged") {
                Ok(Comparison::Staged)
            } else {
                let mut reason = String::new();
                reason.append("scope must be \"unstaged\" or \"staged\" (got \"");
                reason.append(s);
                reason.append("\")");
                Err(ToolError::InvalidArguments { tool: owned_text("gitDiff"), reason })
            }
        },
    }
}

/// The first eight characters of a commit id.
pub open spec fn short_id(id: Seq<char>) -> Seq<char> {
    if id.len() <= 8 {
        id
    } else {
        id.subrange(0, 8)
    }
}

pub fn short(id: &str) -> (s: String)
    ensures
        s@ == short_id(id@),
{
    let cs = chars_of(id);
    let n = if cs.len() <= 8 { cs.len() } else { 8 };
    let part = slice_to_vec(cs.as_slice(), 0, n);
    assert(cs.len() <= 8 ==> part@ =~= id@);
    text_of(part.as_slice())
}

/// How a diff names what it compares. `commit_id` is the full id of the
/// commit a [`Comparison::Commit`] resolved to.
pub fn diff_label(c: &Comparison, commit_id: &str) -> (s: String)
    ensures
        s@ == match c {
            Comparison::Commit(_) => short_id(commit_id@) + "^ → "@ + short_id(commit_id@),
            Comparison::Unstaged => "index → working tree"@,
            Comparison::Staged => "HEAD → index"@,
        },
{
    match c {
        Comparison::Commit(_) => {
            let id = short(commit_id);
            let mut s = String::new();
            s.append(id.as_str());
            s.append("^ → ");
            s.append(id.as_str());
            s
        },
        Comparison::Unstaged => {
            let mut s = String::new();
            s.append("index → working tree");
            s
        },
        Comparison::Staged => {
            let mut s = String::new();
            s.append("HEAD → index");
            s
        },
    }
}

/// Which of a directory's diffs lose their text to the budget, given each
/// diff's size in characters: taken in order, a diff that fits what is left
/// of [`MAX_DIFF_CHARS`] keeps its text and spends it; one that does not
/// loses its text (keeping its counts) and spends nothing.
pub open spec fn budget_cuts(sizes: Seq<usize>, budget: nat) -> Seq<bool>
    decreases sizes.len(),
{
    if sizes.len() == 0 {
        seq![]
    } else if sizes[0] > budget {
        seq![true] + budget_cuts(sizes.drop_first(), budget)
    } else {
        seq![false] + budget_cuts(sizes.drop_first(), (budget - sizes[0]) as nat)
    }
}

pub fn diff_budget(sizes: &Vec<usize>) -> (cut: Vec<bool>)
    ensures
        cut@ == budget_cuts(sizes@, MAX_DIFF_CHARS as nat),
{
    let mut cut: Vec<bool> = Vec::new();
    let mut budget = MAX_DIFF_CHARS;
    let mut i: usize = 0;
    assert(sizes@.subrange(0, sizes@.len() as int) =~= sizes@);
    assert(cut@ + budget_cuts(sizes@, MAX_DIFF_CHARS as nat) =~= budget_cuts(sizes@, MAX_DIFF_CHARS as nat));
    while i < sizes.len()
        invariant
            i <= sizes@.len(),
            budget_cuts(sizes@, MAX_DIFF_CHARS as nat) == cut@ + budget_cuts(
                sizes@.subrange(i as int, sizes@.len() as int),
                budget as nat,
            ),
        decreases sizes.len() - i,
    {
        let ghost rest = sizes@.subrange(i as int, sizes@.len() as int);
        assert(rest.drop_first() =~= sizes@.subrange(i + 1, sizes@.len() as int));
        if sizes[i] > budget {
            cut.push(true);
        } else {
            budget = budget - sizes[i];
            cut.push(false);
        }
        assert(cut@ + budget_cuts(rest.drop_first(), budget as nat) =~= cut@.drop_last() + (seq![cut@.last()]
            + budget_cuts(rest.drop_first(), budget as nat)));
        i = i + 1;
    }
    assert(cut@ + seq![] =~= cut@);
    cut
}

/// The diffs that keep their text never add up to more than the budget.
pub proof fn law_kept_diffs_fit_the_budget(sizes: Seq<usize>, budget: nat)
    ensures
        kept_size(sizes, budget_cuts(sizes, budget)) <= budget,
    decreases sizes.len(),
{
    if sizes.len() > 0 {
        if sizes[0] > budget {
            law_kept_diffs_fit_the_budget(sizes.drop_first(), budget);
            assert((seq![true] + budget_cuts(sizes.drop_first(), budget)).drop_first() =~= budget_cuts(
                sizes.drop_first(),
                budget,
            ));
        } else {
            law_kept_diffs_fit_the_budget(sizes.drop_first(), (budget - sizes[0]) as nat);
            assert((seq![false] + budget_cuts(sizes.drop_first(), (budget - sizes[0]) as nat)).drop_first()
                =~= budget_cuts(sizes.drop_first(), (budget - sizes[0]) as nat));
        }
    }
}

/// The total size of the diffs that keep their text.
pub open spec fn kept_size(sizes: Seq<usize>, cuts: Seq<bool>) -> nat
    decreases sizes.len(),
{
    if sizes.len() == 0 || cuts.len() == 0 {
        0
    } else {
        (if cuts[0] { 0 } else { sizes[0] as nat }) + kept_size(sizes.drop_first(), cuts.drop_first())
    }
}

/// `s` without any `/` at its end.
pub open spec fn trim_slashes(s: Seq<char>) -> Seq<char>
    decreases s.len(),
{
    if s.len() > 0 && s.last() == '/' {
        trim_slashes(s.drop_last())
    } else {
        s
    }
}

/// The pathspec a directory's diff is narrowed to, from the directory's
/// path relative to the repository: a final `.` that is the whole last
/// component (the scope root shown as `.`) is dropped, and so is every `/`
/// at the end. Empty means the whole tree.
pub open spec fn spec_pathspec(dir: Seq<char>) -> Seq<char> {
    let d = if dir.len() > 0 && dir.last() == '.' && (dir.len() == 1 || dir[dir.len() - 2] == '/') {
        dir.drop_last()
    } else {
        dir
    };
    trim_slashes(d)
}

pub fn pathspec(dir: &str) -> (s: String)
    ensures
        s@ == spec_pathspec(dir@),
{
    let cs = chars_of(dir);
    let n = cs.len();
    let mut end = if n > 0 && cs[n - 1] == '.' && (n == 1 || cs[n - 2] == '/') {
        n - 1
    } else {
        n
    };
    let ghost d = cs@.subrange(0, end as int);
    assert(d =~= (if dir@.len() > 0 && dir@.last() == '.' && (dir@.len() == 1 || dir@[dir@.len() - 2] == '/') {
        dir@.drop_last()
    } else {
        dir@
    }));
    while end > 0 && cs[end - 1] == '/'
        invariant
            end <= n == cs@.len(),
            trim_slashes(cs@.subrange(0, end as int)) == trim_slashes(d),
        decreases end,
    {
        assert(cs@.subrange(0, end as int).drop_last() =~= cs@.subrange(0, end - 1));
        end = end - 1;
    }
    let part = slice_to_vec(cs.as_slice(), 0, end);
    text_of(part.as_slice())
}

/// A changed path as a directory's diff shows it: relative to the scope
/// where it lies under it (`prefix`), as the repository has it otherwise.
pub open spec fn in_scope_path(path: Seq<char>, prefix: Seq<char>) -> Seq<char> {
    if has_prefix(path, prefix) {
        after_prefix(path, prefix)
    } else {
        path
    }
}

/// The files a directory's diff covers, from the changed paths git lists
/// under it: the first [`MAX_DIFF_FILES`], each shown relative to the scope,
/// and whether any was left out.
pub fn diff_paths(changed: &Vec<String>, prefix: &str) -> (r: (Vec<String>, bool))
    ensures
        r.1 == (changed@.len() > MAX_DIFF_FILES),
        r.0@.len() == if r.1 {
            MAX_DIFF_FILES as int
        } else {
            changed@.len() as int
        },
        forall|i: int| 0 <= i < r.0@.len() ==> #[trigger] r.0@[i]@ == in_scope_path(changed@[i]@, prefix@),
{
    let take = if changed.len() > MAX_DIFF_FILES {
        MAX_DIFF_FILES
    } else {
        changed.len()
    };
    let mut out: Vec<String> = Vec::new();
    let mut i: usize = 0;
    while i < take
        invariant
            i <= take <= changed@.len(),
            out@.len() == i,
            forall|k: int| 0 <= k < i ==> #[trigger] out@[k]@ == in_scope_path(changed@[k]@, prefix@),
        decreases take - i,
    {
        let shown = if starts_with(changed[i].as_str(), prefix) {
            strip(changed[i].as_str(), prefix)
        } else {
            owned_text(changed[i].as_str())
        };
        out.push(shown);
        i = i + 1;
    }
    (out, changed.len() > MAX_DIFF_FILES)
}

// ----- status -----

/// What git says of one path, as its status flags.
#[derive(Debug, Clone, Copy, PartialEq, Eq, Structural)]
pub struct StatusFlags {
    pub index_new: bool,
    pub index_modified: bool,
    pub index_deleted: bool,
    pub index_renamed: bool,
    pub index_typechange: bool,
    pub wt_new: bool,
    pub wt_modified: bool,
    pub wt_deleted: bool,
    pub wt_renamed: bool,
    pub wt_typechange: bool,
    pub conflicted: bool,
}

/// The staged side's letter, as `git status --short` prints it.
pub open spec fn index_letter(f: StatusFlags) -> Option<Seq<char>> {
    if f.index_new {
        Some(seq!['A'])
    } else if f.index_deleted {
        Some(seq!['D'])
    } else if f.index_renamed {
        Some(seq!['R'])
    } else if f.index_modified || f.index_typechange {
        Some(seq!['M'])
    } else {
        None
    }
}

/// The working tree's letter; `?` for a path git does not track.
pub open spec fn worktree_letter(f: StatusFlags) -> Option<Seq<char>> {
    if f.wt_new {
        Some(seq!['?'])
    } else if f.wt_deleted {
        Some(seq!['D'])
    } else if f.wt_renamed {
        Some(seq!['R'])
    } else if f.wt_modified || f.wt_typechange {
        Some(seq!['M'])
    } else {
        None
    }
}

fn letter_text(c: char) -> (s: String)
    ensures
        s@ == seq![c],
{
    let mut s = String::new();
    push_char(&mut s, c);
    assert(s@ =~= seq![c]);
    s
}

fn index_letter_exec(f: StatusFlags) -> (r: Option<String>)
    ensures
        match index_letter(f) {
            Some(l) => r matches Some(s) && s@ == l,
            None => r is None,
        },
{
    if f.index_new {
        Some(letter_text('A'))
    } else if f.index_deleted {
        Some(letter_text('D'))
    } else if f.index_renamed {
        Some(letter_text('R'))
    } else if f.index_modified || f.index_typechange {
        Some(letter_text('M'))
    } else {
        None
    }
}

fn worktree_letter_exec(f: StatusFlags) -> (r: Option<String>)
    ensures
        match worktree_letter(f) {
            Some(l) => r matches Some(s) && s@ == l,
            None => r is None,
        },
{
    if f.wt_new {
        Some(letter_text('?'))
    } else if f.wt_deleted {
        Some(letter_text('D'))
    } else if f.wt_renamed {
        Some(letter_text('R'))
    } else if f.wt_modified || f.wt_typechange {
        Some(letter_text('M'))
    } else {
        None
    }
}

/// One path git reports, relative to the repository: its flags, and for a
/// staged rename the old and new paths.
pub struct StatusEntry {
    pub path: String,
    pub flags: StatusFlags,
    pub rename: Option<(String, String)>,
}

pub open spec fn has_prefix(s: Seq<char>, p: Seq<char>) -> bool {
    p.len() <= s.len() && s.subrange(0, p.len() as int) == p
}

pub open spec fn after_prefix(s: Seq<char>, p: Seq<char>) -> Seq<char> {
    s.subrange(p.len() as int, s.len() as int)
}

/// How a path inside the scope is shown: relative to the scope, and for a
/// staged rename with both sides inside it, `old → new`.
pub open spec fn shown_path(e: StatusEntry, prefix: Seq<char>) -> Seq<char> {
    match e.rename {
        Some((old, new)) => if e.flags.index_renamed && has_prefix(old@, prefix) && has_prefix(new@, prefix) {
            after_prefix(old@, prefix) + " → "@ + after_prefix(new@, prefix)
        } else {
            after_prefix(e.path@, prefix)
        },
        None => after_prefix(e.path@, prefix),
    }
}

/// One changed path as a status row.
pub open spec fn row(path: Seq<char>, letter: Seq<char>) -> (Seq<char>, Seq<char>) {
    (path, letter)
}

pub open spec fn rows_view(v: Seq<GitFileStatus>) -> Seq<(Seq<char>, Seq<char>)> {
    v.map_values(|f: GitFileStatus| (f.path@, f.status@))
}

/// The rows of the first `n` entries: a path outside the scope is dropped; a
/// conflicted one is listed as conflicted (`U`) and nowhere else; any other
/// may be both staged and unstaged.
pub open spec fn status_rows(entries: Seq<StatusEntry>, prefix: Seq<char>, n: nat) -> (
    Seq<(Seq<char>, Seq<char>)>,
    Seq<(Seq<char>, Seq<char>)>,
    Seq<(Seq<char>, Seq<char>)>,
)
    decreases n,
{
    if n == 0 {
        (seq![], seq![], seq![])
    } else {
        let prev = status_rows(entries, prefix, (n - 1) as nat);
        let e = entries[n - 1];
        if !has_prefix(e.path@, prefix) {
            prev
        } else {
            let shown = shown_path(e, prefix);
            if e.flags.conflicted {
                (prev.0, prev.1, prev.2.push(row(shown, seq!['U'])))
            } else {
                let staged = match index_letter(e.flags) {
                    Some(l) => prev.0.push(row(shown, l)),
                    None => prev.0,
                };
                let unstaged = match worktree_letter(e.flags) {
                    Some(l) => prev.1.push(row(shown, l)),
                    None => prev.1,
                };
                (staged, unstaged, prev.2)
            }
        }
    }
}

fn strip(s: &str, p: &str) -> (r: String)
    requires
        has_prefix(s@, p@),
    ensures
        r@ == after_prefix(s@, p@),
{
    let cs = chars_of(s);
    let n = chars_of(p).len();
    let part = slice_to_vec(cs.as_slice(), n, cs.len());
    text_of(part.as_slice())
}

fn shown_exec(e: &StatusEntry, prefix: &str) -> (s: String)
    requires
        has_prefix(e.path@, prefix@),
    ensures
        s@ == shown_path(*e, prefix@),
{
    match &e.rename {
        Some((old, new)) => {
            if e.flags.index_renamed && starts_with(old.as_str(), prefix) && starts_with(new.as_str(), prefix) {
                let mut s = strip(old.as_str(), prefix);
                s.append(" → ");
                let n = strip(new.as_str(), prefix);
                s.append(n.as_str());
                return s;
            }
        },
        None => {},
    }
    strip(e.path.as_str(), prefix)
}

fn push_row(v: &mut Vec<GitFileStatus>, path: String, letter: String)
    ensures
        rows_view(final(v)@) == rows_view(old(v)@).push((path@, letter@)),
{
    v.push(GitFileStatus { status: letter, path });
    assert(rows_view(v@) =~= rows_view(old(v)@).push((path@, letter@)));
}

/// The working tree's changed paths under the scope (`prefix` is the scope
/// root relative to the repository, ending in `/`, or empty): staged,
/// unstaged and conflicted, at most [`MAX_STATUS_ENTRIES`] in all. The cap
/// eats into the unstaged list, the one untracked files inflate.
pub fn git_status(branch: Option<String>, entries: &Vec<StatusEntry>, prefix: &str) -> (r: ToolResult)
    requires
        entries@.len() <= usize::MAX / 3,
    ensures
        ({
            let rows = status_rows(entries@, prefix@, entries@.len());
            let kept = rows.0.len() + rows.2.len();
            let room = if kept <= MAX_STATUS_ENTRIES { MAX_STATUS_ENTRIES - kept } else { 0 };
            r matches ToolResult::GitStatus { branch: b, staged, unstaged, conflicted, truncated } && b == branch
                && rows_view(staged@) == rows.0 && rows_view(conflicted@) == rows.2 && rows_view(unstaged@)
                == (if rows.1.len() <= room {
                rows.1
            } else {
                rows.1.subrange(0, room as int)
            }) && truncated == (kept + rows.1.len() > MAX_STATUS_ENTRIES)
        }),
{
    let mut staged: Vec<GitFileStatus> = Vec::new();
    let mut unstaged: Vec<GitFileStatus> = Vec::new();
    let mut conflicted: Vec<GitFileStatus> = Vec::new();
    let mut i: usize = 0;
    while i < entries.len()
        invariant
            i <= entries@.len(),
            (rows_view(staged@), rows_view(unstaged@), rows_view(conflicted@)) == status_rows(
                entries@,
                prefix@,
                i as nat,
            ),
        decreases entries.len() - i,
    {
        let e = &entries[i];
        if starts_with(e.path.as_str(), prefix) {
            let shown = shown_exec(e, prefix);
            if e.flags.conflicted {
                push_row(&mut conflicted, shown, letter_text('U'));
            } else {
                match index_letter_exec(e.flags) {
                    Some(l) => push_row(&mut staged, owned_text(shown.as_str()), l),
                    None => {},
                }
                match worktree_letter_exec(e.flags) {
                    Some(l) => push_row(&mut unstaged, shown, l),
                    None => {},
                }
            }
        }
        i = i + 1;
    }
    let ghost rows = status_rows(entries@, prefix@, entries@.len());
    proof {
        lemma_rows_bounded(entries@, prefix@, entries@.len());
    }
    let kept = conflicted.len() + staged.len();
    let truncated = kept + unstaged.len() > MAX_STATUS_ENTRIES;
    let room = if kept <= MAX_STATUS_ENTRIES { MAX_STATUS_ENTRIES - kept } else { 0 };
    if unstaged.len() > room {
        unstaged.truncate(room);
        assert(rows_view(unstaged@) =~= rows.1.subrange(0, room as int));
    }
    ToolResult::GitStatus { branch, staged, unstaged, conflicted, truncated }
}

proof fn lemma_rows_bounded(entries: Seq<StatusEntry>, prefix: Seq<char>, n: nat)
    ensures
        status_rows(entries, prefix, n).0.len() <= n,
        status_rows(entries, prefix, n).1.len() <= n,
        status_rows(entries, prefix, n).2.len() <= n,
    decreases n,
{
    if n > 0 {
        lemma_rows_bounded(entries, prefix, (n - 1) as nat);
    }
}

} // verus!
