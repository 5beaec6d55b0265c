//! Turning a path the model wrote into a path under the scope root.
//!
//! Paths here are lists of components, an absolute path's names from the top
//! down. Two checks keep every tool inside the root: a path the model writes
//! may only consist of plain names, and the canonical form of the result (with
//! symlinks resolved, which takes the filesystem and so is the caller's part)
//! must have the root's components as its prefix. Component-wise, not by
//! string: `/repo-backup` is not under `/repo`.

use vstd::prelude::*;

use crate::errors::ToolError;
use crate::text::{chars_of, join, push_joined, strs_view, text_of};

verus! {

/// The separators a path the model writes may use.
pub open spec fn is_separator(c: char) -> bool {
    c == '/' || c == '\\'
}

/// A part that only repeats where the path already is, or that is empty.
pub open spec fn is_skipped(part: Seq<char>) -> bool {
    part.len() == 0 || part == seq!['.']
}

/// After the first `n` characters of `s`: the parts kept so far and the one
/// being read.
pub open spec fn parts_state(s: Seq<char>, n: nat) -> (Seq<Seq<char>>, Seq<char>)
    decreases n,
{
    if n == 0 {
        (seq![], seq![])
    } else {
        let prev = parts_state(s, (n - 1) as nat);
        if is_separator(s[n - 1]) {
            (if is_skipped(prev.1) { prev.0 } else { prev.0.push(prev.1) }, seq![])
        } else {
            (prev.0, prev.1.push(s[n - 1]))
        }
    }
}

/// The parts of `s` between separators, without empty parts and `.`.
pub open spec fn path_parts(s: Seq<char>) -> Seq<Seq<char>> {
    let st = parts_state(s, s.len());
    if is_skipped(st.1) {
        st.0
    } else {
        st.0.push(st.1)
    }
}

pub open spec fn is_ascii_letter(c: char) -> bool {
    ('a' as u32 <= c as u32 <= 'z' as u32) || ('A' as u32 <= c as u32 <= 'Z' as u32)
}

/// A part that names a drive, `C:` and the like.
pub open spec fn is_drive(part: Seq<char>) -> bool {
    part.len() >= 2 && is_ascii_letter(part[0]) && part[1] == ':'
}

/// A part that may be appended: neither `..` nor a drive.
pub open spec fn is_plain(part: Seq<char>) -> bool {
    part != seq!['.', '.'] && !is_drive(part)
}

/// `relative` joined onto `root`, or refused as leaving it. `..` is refused
/// outright, even where it would come back inside; a leading `/` is not an
/// escape, since the empty part before it is skipped.
pub open spec fn spec_join_relative(root: Seq<Seq<char>>, relative: Seq<char>) -> Option<Seq<Seq<char>>> {
    if all_plain(path_parts(relative)) {
        Some(root + path_parts(relative))
    } else {
        None
    }
}

pub open spec fn all_plain(parts: Seq<Seq<char>>) -> bool {
    forall|i: int| 0 <= i < parts.len() ==> is_plain(#[trigger] parts[i])
}

fn is_plain_exec(part: &Vec<char>) -> (r: bool)
    ensures
        r == is_plain(part@),
{
    if part.len() == 2 && part[0] == '.' && part[1] == '.' {
        assert(part@ =~= seq!['.', '.']);
        return false;
    }
    if part.len() >= 2 && part[1] == ':' {
        let v = part[0] as u32;
        if (97 <= v && v <= 122) || (65 <= v && v <= 90) {
            return false;
        }
    }
    true
}

fn is_skipped_exec(part: &Vec<char>) -> (r: bool)
    ensures
        r == is_skipped(part@),
{
    if part.len() == 0 {
        true
    } else if part.len() == 1 && part[0] == '.' {
        assert(part@ =~= seq!['.']);
        true
    } else {
        false
    }
}

fn split_parts(s: &str) -> (out: Vec<Vec<char>>)
    ensures
        out@.len() == path_parts(s@).len(),
        forall|i: int| 0 <= i < out@.len() ==> #[trigger] out@[i]@ == path_parts(s@)[i],
{
    let cs = chars_of(s);
    let mut done: Vec<Vec<char>> = Vec::new();
    let mut cur: Vec<char> = Vec::new();
    let mut i: usize = 0;
    while i < cs.len()
        invariant
            i <= cs@.len(),
            cs@ == s@,
            done@.len() == parts_state(s@, i as nat).0.len(),
            forall|j: int| 0 <= j < done@.len() ==> #[trigger] done@[j]@ == parts_state(s@, i as nat).0[j],
            cur@ == parts_state(s@, i as nat).1,
        decreases cs.len() - i,
    {
        let c = cs[i];
        if c == '/' || c == '\\' {
            if !is_skipped_exec(&cur) {
                done.push(cur);
            }
            cur = Vec::new();
        } else {
            cur.push(c);
        }
        i = i + 1;
    }
    if !is_skipped_exec(&cur) {
        done.push(cur);
    }
    done
}

/// An owned copy of a string's text.
pub fn owned_text(s: &str) -> (t: String)
    ensures
        t@ == s@,
{
    let mut t = String::new();
    t.append(s);
    t
}

/// A copy of a list of components.
pub fn copy_components(v: &Vec<String>) -> (c: Vec<String>)
    ensures
        strs_view(c@) == strs_view(v@),
{
    let mut c: Vec<String> = Vec::new();
    let mut i: usize = 0;
    while i < v.len()
        invariant
            i <= v@.len(),
            strs_view(c@) == strs_view(v@).subrange(0, i as int),
        decreases v.len() - i,
    {
        let s = v[i].clone();
        proof {
            assert(strs_view(c@.push(s)) =~= strs_view(c@).push(s@));
        }
        c.push(s);
        assert(strs_view(c@) =~= strs_view(v@).subrange(0, i + 1));
        i = i + 1;
    }
    assert(strs_view(v@).subrange(0, v@.len() as int) =~= strs_view(v@));
    c
}

/// Joins a relative path the model wrote onto `root`, refusing anything that
/// could leave it.
pub fn join_relative(root: &Vec<String>, relative: &str) -> (r: Result<Vec<String>, ToolError>)
    ensures
        match spec_join_relative(strs_view(root@), relative@) {
            Some(p) => r matches Ok(v) && strs_view(v@) == p,
            None => r matches Err(ToolError::PathEscape(t)) && t@ == relative@,
        },
{
    let parts = split_parts(relative);
    let ghost pp = path_parts(relative@);
    let mut i: usize = 0;
    while i < parts.len()
        invariant
            i <= parts@.len(),
            pp == path_parts(relative@),
            parts@.len() == pp.len(),
            forall|k: int| 0 <= k < parts@.len() ==> #[trigger] parts@[k]@ == pp[k],
            forall|k: int| 0 <= k < i ==> is_plain(#[trigger] pp[k]),
        decreases parts.len() - i,
    {
        if !is_plain_exec(&parts[i]) {
            assert(!is_plain(pp[i as int]));
            assert(!all_plain(pp));
            let t = owned_text(relative);
            return Err(ToolError::PathEscape(t));
        }
        i = i + 1;
    }
    let mut out = copy_components(root);
    let ghost base = strs_view(out@);
    let mut k: usize = 0;
    while k < parts.len()
        invariant
            k <= parts@.len(),
            parts@.len() == pp.len(),
            forall|j: int| 0 <= j < parts@.len() ==> #[trigger] parts@[j]@ == pp[j],
            base == strs_view(root@),
            pp == path_parts(relative@),
            strs_view(out@) == base + pp.subrange(0, k as int),
        decreases parts.len() - k,
    {
        let name = text_of(parts[k].as_slice());
        proof {
            assert(strs_view(out@.push(name)) =~= strs_view(out@).push(name@));
            assert(base + pp.subrange(0, k + 1) =~= (base + pp.subrange(0, k as int)).push(pp[k as int]));
        }
        out.push(name);
        k = k + 1;
    }
    assert(pp.subrange(0, pp.len() as int) =~= pp);
    Ok(out)
}

/// How an absolute path is shown: `/` and its components joined by `/`.
pub open spec fn display_path(p: Seq<Seq<char>>) -> Seq<char> {
    seq!['/'] + join(p, seq!['/'])
}

pub fn display(p: &Vec<String>) -> (s: String)
    ensures
        s@ == display_path(strs_view(p@)),
{
    let mut s = String::new();
    s.append("/");
    proof {
        reveal_strlit("/");
    }
    push_joined(&mut s, p, "/");
    proof {
        reveal_strlit("/");
        assert("/"@ =~= seq!['/']);
    }
    s
}

/// Whether `root`'s components begin `path`.
pub open spec fn is_under(root: Seq<Seq<char>>, path: Seq<Seq<char>>) -> bool {
    root.len() <= path.len() && path.subrange(0, root.len() as int) == root
}

pub(crate) fn is_under_exec(root: &Vec<String>, path: &Vec<String>) -> (r: bool)
    ensures
        r == is_under(strs_view(root@), strs_view(path@)),
{
    if root.len() > path.len() {
        return false;
    }
    let mut i: usize = 0;
    while i < root.len()
        invariant
            i <= root@.len(),
            root@.len() <= path@.len(),
            forall|j: int| 0 <= j < i ==> root@[j]@ == path@[j]@,
        decreases root.len() - i,
    {
        if !crate::text::str_eq(root[i].as_str(), path[i].as_str()) {
            assert(strs_view(path@).subrange(0, root@.len() as int)[i as int] != strs_view(root@)[i as int]);
            return false;
        }
        i = i + 1;
    }
    assert(strs_view(path@).subrange(0, root@.len() as int) =~= strs_view(root@));
    true
}

/// The canonical form of a joined path, accepted only under `root`.
pub fn ensure_under(root: &Vec<String>, canonical: Vec<String>) -> (r: Result<Vec<String>, ToolError>)
    ensures
        is_under(strs_view(root@), strs_view(canonical@)) ==> r == Ok::<Vec<String>, ToolError>(canonical),
        !is_under(strs_view(root@), strs_view(canonical@)) ==> (r matches Err(ToolError::PathEscape(t)) && t@
            == display_path(strs_view(canonical@))),
{
    if is_under_exec(root, &canonical) {
        Ok(canonical)
    } else {
        Err(ToolError::PathEscape(display(&canonical)))
    }
}

/// The path the model named, proven to be inside the scope: `relative` must
/// join onto `root`, and `canonical`, the canonical form of that join, must
/// lie under it. The target need not exist yet.
pub fn resolve_writable(root: &Vec<String>, relative: &str, canonical: Vec<String>) -> (r: Result<
    Vec<String>,
    ToolError,
>)
    ensures
        match spec_join_relative(strs_view(root@), relative@) {
            None => r matches Err(ToolError::PathEscape(t)) && t@ == relative@,
            Some(_) => if is_under(strs_view(root@), strs_view(canonical@)) {
                r == Ok::<Vec<String>, ToolError>(canonical)
            } else {
                r matches Err(ToolError::PathEscape(t)) && t@ == display_path(strs_view(canonical@))
            },
        },
{
    match join_relative(root, relative) {
        Err(e) => Err(e),
        Ok(_) => ensure_under(root, canonical),
    }
}

/// What resolving `relative` to an existing target gives, given the
/// canonical form of its join and whether anything is there.
pub open spec fn existing_outcome(
    r: Result<Vec<String>, ToolError>,
    root: Seq<Seq<char>>,
    relative: Seq<char>,
    canonical: Vec<String>,
    exists: bool,
) -> bool {
    match spec_join_relative(root, relative) {
        None => r matches Err(ToolError::PathEscape(t)) && t@ == relative,
        Some(_) => if !is_under(root, strs_view(canonical@)) {
            r matches Err(ToolError::PathEscape(t)) && t@ == display_path(strs_view(canonical@))
        } else if !exists {
            r matches Err(ToolError::NotFound(t)) && t@ == relative
        } else {
            r == Ok::<Vec<String>, ToolError>(canonical)
        },
    }
}

/// As [`resolve_writable`], for a target that must exist: where the
/// resolved path names nothing (`exists` is false), it is not found.
pub fn resolve_existing(root: &Vec<String>, relative: &str, canonical: Vec<String>, exists: bool) -> (r: Result<
    Vec<String>,
    ToolError,
>)
    ensures
        match spec_join_relative(strs_view(root@), relative@) {
            None => r matches Err(ToolError::PathEscape(t)) && t@ == relative@,
            Some(_) => if !is_under(strs_view(root@), strs_view(canonical@)) {
                r matches Err(ToolError::PathEscape(t)) && t@ == display_path(strs_view(canonical@))
            } else if !exists {
                r matches Err(ToolError::NotFound(t)) && t@ == relative@
            } else {
                r == Ok::<Vec<String>, ToolError>(canonical)
            },
        },
        existing_outcome(r, strs_view(root@), relative@, canonical, exists),
{
    match resolve_writable(root, relative, canonical) {
        Err(e) => Err(e),
        Ok(p) => {
            if exists {
                Ok(p)
            } else {
                Err(ToolError::NotFound(owned_text(relative)))
            }
        },
    }
}

/// The `/`-separated spelling of `resolved` relative to the root, `.` for the
/// root itself: what a tool reports back, so that the next call can name the
/// same file.
pub open spec fn spec_relative_to_root(root: Seq<Seq<char>>, resolved: Seq<Seq<char>>) -> Option<Seq<char>> {
    if resolved == root {
        Some(seq!['.'])
    } else if is_under(root, resolved) {
        Some(join(resolved.subrange(root.len() as int, resolved.len() as int), seq!['/']))
    } else {
        None
    }
}

pub fn relative_to_root(root: &Vec<String>, resolved: &Vec<String>) -> (r: Result<String, ToolError>)
    ensures
        match spec_relative_to_root(strs_view(root@), strs_view(resolved@)) {
            Some(t) => r matches Ok(s) && s@ == t,
            None => r matches Err(ToolError::PathEscape(t)) && t@ == display_path(strs_view(resolved@)),
        },
{
    if !is_under_exec(root, resolved) {
        assert(strs_view(resolved@) != strs_view(root@)) by {
            if strs_view(resolved@) == strs_view(root@) {
                assert(strs_view(resolved@).subrange(0, root@.len() as int) =~= strs_view(root@));
            }
        }
        return Err(ToolError::PathEscape(display(resolved)));
    }
    if root.len() == resolved.len() {
        assert(strs_view(resolved@) =~= strs_view(root@)) by {
            assert(strs_view(resolved@).subrange(0, root@.len() as int) =~= strs_view(resolved@));
        }
        let mut dot = String::new();
        crate::text::push_char(&mut dot, '.');
        assert(dot@ =~= seq!['.']);
        return Ok(dot);
    }
    assert(strs_view(resolved@) != strs_view(root@));
    let mut rest: Vec<String> = Vec::new();
    let mut i = root.len();
    while i < resolved.len()
        invariant
            root@.len() <= i <= resolved@.len(),
            strs_view(rest@) == strs_view(resolved@).subrange(root@.len() as int, i as int),
        decreases resolved.len() - i,
    {
        let s = resolved[i].clone();
        proof {
            assert(strs_view(rest@.push(s)) =~= strs_view(rest@).push(s@));
            assert(strs_view(resolved@).subrange(root@.len() as int, i + 1) =~= strs_view(resolved@).subrange(
                root@.len() as int,
                i as int,
            ).push(s@));
        }
        rest.push(s);
        i = i + 1;
    }
    let mut out = String::new();
    push_joined(&mut out, &rest, "/");
    proof {
        reveal_strlit("/");
        assert("/"@ =~= seq!['/']);
        assert(out@ =~= join(strs_view(rest@), seq!['/']));
    }
    Ok(out)
}

/// The last `/`-separated segment of `path`.
pub open spec fn spec_basename(path: Seq<char>) -> Seq<char> {
    path.subrange(last_index_of(path, '/') + 1, path.len() as int)
}

/// The index of the last `c` in `s`; -1 where there is none.
pub open spec fn last_index_of(s: Seq<char>, c: char) -> int
    decreases s.len(),
{
    if s.len() == 0 {
        -1
    } else if s.last() == c {
        s.len() - 1
    } else {
        last_index_of(s.drop_last(), c)
    }
}

pub proof fn lemma_last_index_of(s: Seq<char>, c: char)
    ensures
        -1 <= last_index_of(s, c) < s.len(),
        last_index_of(s, c) >= 0 ==> s[last_index_of(s, c)] == c,
        forall|j: int| last_index_of(s, c) < j < s.len() ==> s[j] != c,
    decreases s.len(),
{
    if s.len() > 0 && s.last() != c {
        lemma_last_index_of(s.drop_last(), c);
        let d = s.drop_last();
        assert forall|j: int| last_index_of(s, c) < j < s.len() implies s[j] != c by {
            if j < s.len() - 1 {
                assert(s[j] == d[j]);
            }
        }
    }
}

pub fn last_index_of_exec(s: &[char], c: char) -> (r: Option<usize>)
    ensures
        match r {
            Some(i) => i == last_index_of(s@, c) && i < s.len(),
            None => last_index_of(s@, c) == -1,
        },
{
    proof {
        lemma_last_index_of(s@, c);
    }
    let mut i = s.len();
    while i > 0
        invariant
            i <= s@.len(),
            forall|j: int| i <= j < s@.len() ==> s@[j] != c,
        decreases i,
    {
        if s[i - 1] == c {
            proof {
                lemma_last_of_suffix(s@, c, (i - 1) as int);
            }
            return Some(i - 1);
        }
        i = i - 1;
    }
    proof {
        lemma_last_of_suffix(s@, c, -1);
    }
    None
}

proof fn lemma_last_of_suffix(s: Seq<char>, c: char, i: int)
    requires
        -1 <= i < s.len(),
        i >= 0 ==> s[i] == c,
        forall|j: int| i < j < s.len() ==> s[j] != c,
    ensures
        last_index_of(s, c) == i,
    decreases s.len(),
{
    if s.len() > 0 && i < s.len() - 1 {
        lemma_last_of_suffix(s.drop_last(), c, i);
    }
}

/// The last segment of a `/`-separated relative path.
pub fn basename(path: &str) -> (r: String)
    ensures
        r@ == spec_basename(path@),
{
    let cs = chars_of(path);
    let from = match last_index_of_exec(cs.as_slice(), '/') {
        Some(i) => i + 1,
        None => 0,
    };
    proof {
        lemma_last_index_of(path@, '/');
    }
    let tail = crate::text::slice_to_vec(cs.as_slice(), from, cs.len());
    text_of(tail.as_slice())
}

/// Whatever the model writes, a path that joins lies under the root, and
/// every component it adds is a plain name.
pub proof fn law_a_joined_path_stays_under_the_root(root: Seq<Seq<char>>, relative: Seq<char>)
    ensures
        spec_join_relative(root, relative) matches Some(p) ==> {
            &&& is_under(root, p)
            &&& forall|i: int| root.len() <= i < p.len() ==> is_plain(#[trigger] p[i])
        },
{
    if let Some(p) = spec_join_relative(root, relative) {
        assert(p.subrange(0, root.len() as int) =~= root);
        assert forall|i: int| root.len() <= i < p.len() implies is_plain(#[trigger] p[i]) by {
            assert(p[i] == path_parts(relative)[i - root.len()]);
        }
    }
}

/// Where nothing on the way is a link, so that the canonical form of a
/// joined path is the join itself, taking it relative to the root gives
/// back the path as written: its parts joined by `/`, without empty parts
/// and `.`, and `.` where it names the root itself.
pub proof fn law_a_joined_path_round_trips(root: Seq<Seq<char>>, relative: Seq<char>)
    requires
        spec_join_relative(root, relative) is Some,
    ensures
        spec_relative_to_root(root, spec_join_relative(root, relative)->0) == Some(
            if path_parts(relative).len() == 0 {
                seq!['.']
            } else {
                join(path_parts(relative), seq!['/'])
            },
        ),
{
    let parts = path_parts(relative);
    let p = root + parts;
    assert(p.subrange(0, root.len() as int) =~= root);
    assert(p.subrange(root.len() as int, p.len() as int) =~= parts);
    if parts.len() == 0 {
        assert(p =~= root);
    } else {
        assert(p.len() != root.len());
    }
}

/// A path with a `..` part is refused, even one that would come back inside.
pub proof fn law_parent_traversal_is_refused(root: Seq<Seq<char>>, relative: Seq<char>, i: int)
    requires
        0 <= i < path_parts(relative).len(),
        path_parts(relative)[i] == seq!['.', '.'],
    ensures
        spec_join_relative(root, relative) is None,
{
    assert(!is_plain(path_parts(relative)[i]));
}

} // verus!
