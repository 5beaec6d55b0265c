//! A directory listing rendered as an indented tree in the style of `tree(1)`.
//!
//! Each entry's path is split on `/` into its non-empty segments; every
//! non-empty prefix of such a segment list is a node. A node's children are
//! the distinct names one level below it, listed in ascending order of their
//! characters' code points (the byte order of their UTF-8 text). A node is a
//! directory when it has children or when the last entry naming it exactly is
//! not a file; a node that only stands on the way to deeper entries is a
//! directory too.

use vstd::prelude::*;

use crate::text::{chars_of, chars_view, decimal, push_char, push_chars, push_decimal, slice_to_vec};
use crate::tool_types::ToolFileEntry;

verus! {

// ----- splitting a path into segments -----

/// After the first `n` characters of `s`: the segments finished so far and
/// the one being read.
pub open spec fn split_state(s: Seq<char>, n: nat) -> (Seq<Seq<char>>, Seq<char>)
    decreases n,
{
    if n == 0 {
        (seq![], seq![])
    } else {
        let prev = split_state(s, (n - 1) as nat);
        if s[n - 1] == '/' {
            (if prev.1.len() > 0 { prev.0.push(prev.1) } else { prev.0 }, seq![])
        } else {
            (prev.0, prev.1.push(s[n - 1]))
        }
    }
}

/// The non-empty parts of `s` between slashes, in order.
pub open spec fn segments(s: Seq<char>) -> Seq<Seq<char>> {
    let st = split_state(s, s.len());
    if st.1.len() > 0 {
        st.0.push(st.1)
    } else {
        st.0
    }
}

/// The segments of `s`.
pub fn split_segments(s: &str) -> (out: Vec<Vec<char>>)
    ensures
        chars_view(out@) == segments(s@),
{
    let cs = chars_of(s);
    let mut done: Vec<Vec<char>> = Vec::new();
    let mut cur: Vec<char> = Vec::new();
    let mut i: usize = 0;
    while i < cs.len()
        invariant
            i <= cs@.len(),
            cs@ == s@,
            chars_view(done@) == split_state(s@, i as nat).0,
            cur@ == split_state(s@, i as nat).1,
        decreases cs.len() - i,
    {
        let c = cs[i];
        if c == '/' {
            if cur.len() > 0 {
                proof {
                    assert(chars_view(done@.push(cur)) =~= chars_view(done@).push(cur@));
                }
                done.push(cur);
            }
            cur = Vec::new();
        } else {
            cur.push(c);
        }
        i = i + 1;
    }
    if cur.len() > 0 {
        proof {
            assert(chars_view(done@.push(cur)) =~= chars_view(done@).push(cur@));
        }
        done.push(cur);
    }
    done
}

// ----- comparing and copying names -----

/// Whether two character vectors are equal.
pub fn chars_eq(a: &Vec<char>, b: &Vec<char>) -> (r: bool)
    ensures
        r == (a@ == b@),
{
    if a.len() != b.len() {
        return false;
    }
    let mut i: usize = 0;
    while i < a.len()
        invariant
            i <= a@.len(),
            a@.len() == b@.len(),
            forall|j: int| 0 <= j < i ==> a@[j] == b@[j],
        decreases a.len() - i,
    {
        if a[i] != b[i] {
            return false;
        }
        i = i + 1;
    }
    assert(a@ =~= b@);
    true
}

/// Whether `a` sorts before `b`, comparing from index `i` on: by the first
/// differing character's code point, a proper prefix first.
pub open spec fn before_from(a: Seq<char>, b: Seq<char>, i: int) -> bool
    decreases a.len() - i,
{
    if i >= a.len() {
        i < b.len()
    } else if i >= b.len() {
        false
    } else if a[i] != b[i] {
        (a[i] as u32) < (b[i] as u32)
    } else {
        before_from(a, b, i + 1)
    }
}

/// The order of names in the tree.
pub open spec fn name_before(a: Seq<char>, b: Seq<char>) -> bool {
    before_from(a, b, 0)
}

pub fn name_before_exec(a: &Vec<char>, b: &Vec<char>) -> (r: bool)
    ensures
        r == name_before(a@, b@),
{
    let mut i: usize = 0;
    while i < a.len() && i < b.len() && a[i] == b[i]
        invariant
            i <= a@.len(),
            i <= b@.len(),
            before_from(a@, b@, 0) == before_from(a@, b@, i as int),
        decreases a.len() - i,
    {
        i = i + 1;
    }
    if i >= a.len() {
        i < b.len()
    } else if i >= b.len() {
        false
    } else {
        (a[i] as u32) < (b[i] as u32)
    }
}

/// A copy of a segment list.
pub fn copy_segments(p: &Vec<Vec<char>>) -> (c: Vec<Vec<char>>)
    ensures
        chars_view(c@) == chars_view(p@),
{
    let mut c: Vec<Vec<char>> = Vec::new();
    let mut i: usize = 0;
    while i < p.len()
        invariant
            i <= p@.len(),
            chars_view(c@) == chars_view(p@).subrange(0, i as int),
        decreases p.len() - i,
    {
        let seg = slice_to_vec(p[i].as_slice(), 0, p[i].len());
        proof {
            assert(seg@ =~= p@[i as int]@);
            assert(chars_view(c@.push(seg)) =~= chars_view(c@).push(seg@));
            assert(chars_view(c@.push(seg)) =~= chars_view(p@).subrange(0, i + 1));
        }
        c.push(seg);
        i = i + 1;
    }
    assert(chars_view(p@).subrange(0, p@.len() as int) =~= chars_view(p@));
    c
}

/// Whether two segment lists are equal.
pub fn segments_eq(a: &Vec<Vec<char>>, b: &Vec<Vec<char>>) -> (r: bool)
    ensures
        r == (chars_view(a@) == chars_view(b@)),
{
    if a.len() != b.len() {
        assert(chars_view(a@).len() != chars_view(b@).len());
        return false;
    }
    let mut i: usize = 0;
    while i < a.len()
        invariant
            i <= a@.len(),
            a@.len() == b@.len(),
            forall|j: int| 0 <= j < i ==> a@[j]@ == b@[j]@,
        decreases a.len() - i,
    {
        if !chars_eq(&a[i], &b[i]) {
            assert(chars_view(a@)[i as int] != chars_view(b@)[i as int]);
            return false;
        }
        i = i + 1;
    }
    assert(chars_view(a@) =~= chars_view(b@));
    true
}

// ----- ordering the names below a node -----

/// The least of the first `n` names, the earliest one on a tie.
pub open spec fn least_upto(names: Seq<Seq<char>>, n: nat) -> Seq<char>
    decreases n,
{
    if n <= 1 {
        names[0]
    } else {
        let m = least_upto(names, (n - 1) as nat);
        if name_before(names[n - 1], m) {
            names[n - 1]
        } else {
            m
        }
    }
}

/// The first `n` names without any copy of `m`.
pub open spec fn without_upto(names: Seq<Seq<char>>, m: Seq<char>, n: nat) -> Seq<Seq<char>>
    decreases n,
{
    if n == 0 {
        seq![]
    } else {
        let rest = without_upto(names, m, (n - 1) as nat);
        if names[n - 1] == m {
            rest
        } else {
            rest.push(names[n - 1])
        }
    }
}

pub proof fn lemma_least_is_one_of(names: Seq<Seq<char>>, n: nat)
    requires
        1 <= n <= names.len(),
    ensures
        exists|j: int| 0 <= j < n && names[j] == least_upto(names, n),
    decreases n,
{
    if n == 1 {
        assert(names[0] == least_upto(names, n));
    } else {
        lemma_least_is_one_of(names, (n - 1) as nat);
        let m = least_upto(names, (n - 1) as nat);
        if name_before(names[n - 1], m) {
            assert(names[n - 1] == least_upto(names, n));
        } else {
            let j = choose|j: int| 0 <= j < n - 1 && names[j] == m;
            assert(names[j] == least_upto(names, n));
        }
    }
}

pub proof fn lemma_without_shorter(names: Seq<Seq<char>>, m: Seq<char>, n: nat)
    requires
        n <= names.len(),
    ensures
        without_upto(names, m, n).len() <= n,
        (exists|j: int| 0 <= j < n && names[j] == m) ==> without_upto(names, m, n).len() < n,
    decreases n,
{
    if n > 0 {
        lemma_without_shorter(names, m, (n - 1) as nat);
        if exists|j: int| 0 <= j < n && names[j] == m {
            let j = choose|j: int| 0 <= j < n && names[j] == m;
            if j < n - 1 {
                assert(exists|k: int| 0 <= k < n - 1 && names[k] == m);
            }
        }
    }
}

/// The distinct names in ascending order: the least first, then the rest
/// without it.
pub open spec fn sorted_names(names: Seq<Seq<char>>) -> Seq<Seq<char>>
    decreases names.len(),
{
    if names.len() == 0 {
        seq![]
    } else {
        let m = least_upto(names, names.len());
        proof {
            lemma_least_is_one_of(names, names.len());
            lemma_without_shorter(names, m, names.len());
        }
        seq![m] + sorted_names(without_upto(names, m, names.len()))
    }
}

fn least_exec(names: &Vec<Vec<char>>) -> (m: Vec<char>)
    requires
        names@.len() > 0,
    ensures
        m@ == least_upto(chars_view(names@), names@.len()),
{
    let ghost v = chars_view(names@);
    let mut best: usize = 0;
    let mut i: usize = 1;
    while i < names.len()
        invariant
            1 <= i <= names@.len(),
            best < names@.len(),
            v == chars_view(names@),
            names@[best as int]@ == least_upto(v, i as nat),
        decreases names.len() - i,
    {
        if name_before_exec(&names[i], &names[best]) {
            best = i;
        }
        i = i + 1;
    }
    slice_to_vec(names[best].as_slice(), 0, names[best].len())
}

fn without_exec(names: &Vec<Vec<char>>, m: &Vec<char>) -> (out: Vec<Vec<char>>)
    ensures
        chars_view(out@) == without_upto(chars_view(names@), m@, names@.len()),
{
    let ghost v = chars_view(names@);
    let mut out: Vec<Vec<char>> = Vec::new();
    let mut i: usize = 0;
    while i < names.len()
        invariant
            i <= names@.len(),
            v == chars_view(names@),
            chars_view(out@) == without_upto(v, m@, i as nat),
        decreases names.len() - i,
    {
        if !chars_eq(&names[i], m) {
            let c = slice_to_vec(names[i].as_slice(), 0, names[i].len());
            proof {
                assert(c@ =~= v[i as int]);
                assert(chars_view(out@.push(c)) =~= chars_view(out@).push(v[i as int]));
            }
            out.push(c);
        }
        i = i + 1;
    }
    out
}

/// The distinct names in ascending order.
pub fn sort_names(names: Vec<Vec<char>>) -> (out: Vec<Vec<char>>)
    ensures
        chars_view(out@) == sorted_names(chars_view(names@)),
{
    let ghost all = chars_view(names@);
    let mut rest = names;
    let mut out: Vec<Vec<char>> = Vec::new();
    assert(chars_view(out@) + sorted_names(chars_view(rest@)) =~= sorted_names(all));
    while rest.len() > 0
        invariant
            chars_view(out@) + sorted_names(chars_view(rest@)) == sorted_names(all),
        decreases rest.len(),
    {
        let ghost rv = chars_view(rest@);
        let m = least_exec(&rest);
        let next = without_exec(&rest, &m);
        proof {
            lemma_least_is_one_of(rv, rv.len());
            lemma_without_shorter(rv, m@, rv.len());
            assert(sorted_names(rv) == seq![m@] + sorted_names(chars_view(next@)));
            assert(chars_view(out@.push(m)) =~= chars_view(out@).push(m@));
            assert(chars_view(out@.push(m)) + sorted_names(chars_view(next@)) =~= chars_view(out@)
                + sorted_names(rv));
        }
        out.push(m);
        rest = next;
    }
    assert(chars_view(out@) + seq![] =~= chars_view(out@));
    out
}

// ----- the nodes below a node -----

pub open spec fn paths_view(ps: Seq<Vec<Vec<char>>>) -> Seq<Seq<Seq<char>>> {
    ps.map_values(|p: Vec<Vec<char>>| chars_view(p@))
}

/// Whether `path` reaches below the node `p`.
pub open spec fn reaches_below(path: Seq<Seq<char>>, p: Seq<Seq<char>>) -> bool {
    p.len() < path.len() && path.subrange(0, p.len() as int) == p
}

/// For each of the first `n` paths that reaches below `p`, the name one level
/// below it, in path order.
pub open spec fn names_below(paths: Seq<Seq<Seq<char>>>, p: Seq<Seq<char>>, n: nat) -> Seq<Seq<char>>
    decreases n,
{
    if n == 0 {
        seq![]
    } else {
        let rest = names_below(paths, p, (n - 1) as nat);
        if reaches_below(paths[n - 1], p) {
            rest.push(paths[n - 1][p.len() as int])
        } else {
            rest
        }
    }
}

/// Whether the last of the first `n` paths equal to `p` is a file; false
/// where none is.
pub open spec fn last_says_file(paths: Seq<Seq<Seq<char>>>, dirs: Seq<bool>, p: Seq<Seq<char>>, n: nat) -> bool
    decreases n,
{
    if n == 0 {
        false
    } else if paths[n - 1] == p {
        !dirs[n - 1]
    } else {
        last_says_file(paths, dirs, p, (n - 1) as nat)
    }
}

fn reaches_below_exec(path: &Vec<Vec<char>>, p: &Vec<Vec<char>>) -> (r: bool)
    ensures
        r == reaches_below(chars_view(path@), chars_view(p@)),
{
    if p.len() >= path.len() {
        return false;
    }
    let mut i: usize = 0;
    while i < p.len()
        invariant
            i <= p@.len(),
            p@.len() < path@.len(),
            forall|j: int| 0 <= j < i ==> path@[j]@ == p@[j]@,
        decreases p.len() - i,
    {
        if !chars_eq(&path[i], &p[i]) {
            assert(chars_view(path@).subrange(0, p@.len() as int)[i as int] != chars_view(p@)[i as int]);
            return false;
        }
        i = i + 1;
    }
    assert(chars_view(path@).subrange(0, p@.len() as int) =~= chars_view(p@));
    true
}

fn names_below_exec(paths: &Vec<Vec<Vec<char>>>, p: &Vec<Vec<char>>) -> (out: Vec<Vec<char>>)
    ensures
        chars_view(out@) == names_below(paths_view(paths@), chars_view(p@), paths@.len()),
{
    let ghost pv = paths_view(paths@);
    let mut out: Vec<Vec<char>> = Vec::new();
    let mut i: usize = 0;
    while i < paths.len()
        invariant
            i <= paths@.len(),
            pv == paths_view(paths@),
            chars_view(out@) == names_below(pv, chars_view(p@), i as nat),
        decreases paths.len() - i,
    {
        if reaches_below_exec(&paths[i], p) {
            let k = p.len();
            let c = slice_to_vec(paths[i][k].as_slice(), 0, paths[i][k].len());
            proof {
                assert(pv[i as int][k as int] == c@);
                assert(chars_view(out@.push(c)) =~= chars_view(out@).push(c@));
            }
            out.push(c);
        }
        i = i + 1;
    }
    out
}

fn last_says_file_exec(paths: &Vec<Vec<Vec<char>>>, dirs: &Vec<bool>, p: &Vec<Vec<char>>) -> (r: bool)
    requires
        paths@.len() == dirs@.len(),
    ensures
        r == last_says_file(paths_view(paths@), dirs@, chars_view(p@), paths@.len()),
{
    let ghost pv = paths_view(paths@);
    let mut i: usize = paths.len();
    while i > 0
        invariant
            i <= paths@.len(),
            paths@.len() == dirs@.len(),
            pv == paths_view(paths@),
            last_says_file(pv, dirs@, chars_view(p@), paths@.len()) == last_says_file(pv, dirs@, chars_view(p@), i as nat),
        decreases i,
    {
        if segments_eq(&paths[i - 1], p) {
            return !dirs[i - 1];
        }
        i = i - 1;
    }
    false
}

// ----- the rendering -----

/// The lines for the names `names[k..]` below the node `p`, each followed by
/// its own subtree, `fuel` levels deep at most.
pub open spec fn render_items(
    paths: Seq<Seq<Seq<char>>>,
    dirs: Seq<bool>,
    p: Seq<Seq<char>>,
    names: Seq<Seq<char>>,
    k: nat,
    prefix: Seq<char>,
    fuel: nat,
) -> Seq<char>
    decreases fuel, names.len() - k,
{
    if k >= names.len() || fuel == 0 {
        seq![]
    } else {
        let name = names[k as int];
        let child = p.push(name);
        let below = sorted_names(names_below(paths, child, paths.len()));
        let last = k + 1 == names.len();
        let is_dir = below.len() > 0 || !last_says_file(paths, dirs, child, paths.len());
        let line = prefix + (if last { "└── "@ } else { "├── "@ }) + name + (if is_dir {
            seq!['/']
        } else {
            seq![]
        }) + seq!['\n'];
        let nested = if is_dir {
            render_items(
                paths,
                dirs,
                child,
                below,
                0,
                prefix + (if last { "    "@ } else { "│   "@ }),
                (fuel - 1) as nat,
            )
        } else {
            seq![]
        };
        line + nested + render_items(paths, dirs, p, names, k + 1, prefix, fuel)
    }
}

/// The longest segment list among the first `n` paths.
pub open spec fn depth_bound(paths: Seq<Seq<Seq<char>>>, n: nat) -> nat
    decreases n,
{
    if n == 0 {
        0
    } else {
        let d = depth_bound(paths, (n - 1) as nat);
        if paths[n - 1].len() > d {
            paths[n - 1].len()
        } else {
            d
        }
    }
}

pub open spec fn entry_paths(entries: Seq<ToolFileEntry>) -> Seq<Seq<Seq<char>>> {
    entries.map_values(|e: ToolFileEntry| segments(e.path@))
}

pub open spec fn entry_dirs(entries: Seq<ToolFileEntry>) -> Seq<bool> {
    entries.map_values(|e: ToolFileEntry| e.is_dir)
}

/// The line a truncated listing ends with.
pub open spec fn truncation_note(n: nat) -> Seq<char> {
    "\n[showing the first "@ + decimal(n)
        + " entries — the listing is longer. Narrow it with path, pattern (e.g. \"*.rs\") or depth.]\n"@
}

/// The listing as the model reads it: `./` for the scope root, then the tree.
/// No node is deeper than the longest segment list, so that many levels
/// render the whole tree.
pub open spec fn spec_file_tree(entries: Seq<ToolFileEntry>, truncated: bool) -> Seq<char> {
    let paths = entry_paths(entries);
    let dirs = entry_dirs(entries);
    let top = sorted_names(names_below(paths, seq![], paths.len()));
    "./\n"@ + render_items(paths, dirs, seq![], top, 0, seq![], depth_bound(paths, paths.len())) + (
    if truncated {
        truncation_note(entries.len())
    } else {
        seq![]
    })
}

fn render_items_exec(
    paths: &Vec<Vec<Vec<char>>>,
    dirs: &Vec<bool>,
    p: &Vec<Vec<char>>,
    names: &Vec<Vec<char>>,
    k: usize,
    prefix: &String,
    fuel: usize,
    out: &mut String,
)
    requires
        paths@.len() == dirs@.len(),
        k <= names@.len(),
    ensures
        final(out)@ == old(out)@ + render_items(
            paths_view(paths@),
            dirs@,
            chars_view(p@),
            chars_view(names@),
            k as nat,
            prefix@,
            fuel as nat,
        ),
    decreases fuel, names@.len() - k,
{
    let ghost pv = paths_view(paths@);
    if k >= names.len() || fuel == 0 {
        assert(old(out)@ + seq![] =~= old(out)@);
        return ;
    }
    let mut child = copy_segments(p);
    let seg = slice_to_vec(names[k].as_slice(), 0, names[k].len());
    child.push(seg);
    proof {
        assert(seg@ =~= names@[k as int]@);
        assert(chars_view(child@) =~= chars_view(p@).push(chars_view(names@)[k as int]));
    }
    let below = sort_names(names_below_exec(paths, &child));
    let last = k + 1 == names.len();
    let is_dir = below.len() > 0 || !last_says_file_exec(paths, dirs, &child);
    let ghost start = out@;
    out.append(prefix.as_str());
    if last {
        out.append("└── ");
    } else {
        out.append("├── ");
    }
    push_chars(out, names[k].as_slice());
    if is_dir {
        push_char(out, '/');
    }
    push_char(out, '\n');
    let ghost line = prefix@ + (if last { "└── "@ } else { "├── "@ }) + names@[k as int]@ + (if is_dir {
        seq!['/']
    } else {
        seq![]
    }) + seq!['\n'];
    assert(out@ =~= start + line);
    let ghost mid = out@;
    if is_dir {
        let mut inner = prefix.clone();
        if last {
            inner.append("    ");
        } else {
            inner.append("│   ");
        }
        render_items_exec(paths, dirs, &child, &below, 0, &inner, fuel - 1, out);
    }
    let ghost nested = if is_dir {
        render_items(
            pv,
            dirs@,
            chars_view(child@),
            chars_view(below@),
            0,
            prefix@ + (if last { "    "@ } else { "│   "@ }),
            (fuel - 1) as nat,
        )
    } else {
        seq![]
    };
    assert(out@ =~= mid + nested);
    render_items_exec(paths, dirs, p, names, k + 1, prefix, fuel, out);
    assert(out@ =~= start + (line + nested + render_items(
        pv,
        dirs@,
        chars_view(p@),
        chars_view(names@),
        (k + 1) as nat,
        prefix@,
        fuel as nat,
    )));
}

/// The listing as the model sees it: an indented tree whose first line is
/// always `./`, the scope root. A truncated listing ends with a line that
/// says how many entries are shown and how to narrow the request.
pub fn render_file_tree(entries: &Vec<ToolFileEntry>, truncated: bool) -> (s: String)
    ensures
        s@ == spec_file_tree(entries@, truncated),
{
    let ghost ep = entry_paths(entries@);
    let ghost ed = entry_dirs(entries@);
    let mut paths: Vec<Vec<Vec<char>>> = Vec::new();
    let mut dirs: Vec<bool> = Vec::new();
    let mut depth: usize = 0;
    let mut i: usize = 0;
    while i < entries.len()
        invariant
            i <= entries@.len(),
            ep == entry_paths(entries@),
            ed == entry_dirs(entries@),
            paths_view(paths@) == ep.subrange(0, i as int),
            dirs@ == ed.subrange(0, i as int),
            depth == depth_bound(ep, i as nat),
        decreases entries.len() - i,
    {
        let segs = split_segments(entries[i].path.as_str());
        proof {
            assert(ep[i as int] == segments(entries@[i as int].path@));
            assert(ep[i as int] == chars_view(segs@));
            assert(depth_bound(ep, (i + 1) as nat) == if segs@.len() > depth {
                segs@.len() as nat
            } else {
                depth as nat
            }) by {
                assert(ep[i as int] == chars_view(segs@));
            }
        }
        if segs.len() > depth {
            depth = segs.len();
        }
        proof {
            assert(paths_view(paths@.push(segs)) =~= paths_view(paths@).push(chars_view(segs@)));
            assert(paths_view(paths@.push(segs)) =~= ep.subrange(0, i + 1));
        }
        paths.push(segs);
        dirs.push(entries[i].is_dir);
        assert(dirs@ =~= ed.subrange(0, i + 1));
        i = i + 1;
    }
    assert(paths_view(paths@) =~= ep);
    assert(dirs@ =~= ed);
    let root: Vec<Vec<char>> = Vec::new();
    assert(chars_view(root@) =~= seq![]);
    let top = sort_names(names_below_exec(&paths, &root));
    let mut out = String::new();
    out.append("./\n");
    let prefix = String::new();
    render_items_exec(&paths, &dirs, &root, &top, 0, &prefix, depth, &mut out);
    if truncated {
        let ghost before = out@;
        out.append("\n[showing the first ");
        push_decimal(&mut out, entries.len() as u128);
        out.append(
            " entries — the listing is longer. Narrow it with path, pattern (e.g. \"*.rs\") or depth.]\n",
        );
        assert(out@ =~= before + truncation_note(entries@.len()));
    } else {
        assert(out@ =~= out@ + seq![]);
    }
    out
}

// ----- the walk's order does not show -----

proof fn lemma_before_asym(a: Seq<char>, b: Seq<char>, i: int)
    requires
        0 <= i,
    ensures
        before_from(a, b, i) ==> !before_from(b, a, i),
    decreases a.len() - i,
{
    if i < a.len() && i < b.len() && a[i] == b[i] {
        lemma_before_asym(a, b, i + 1);
    }
}

proof fn lemma_before_total(a: Seq<char>, b: Seq<char>, i: int)
    requires
        0 <= i <= a.len(),
        i <= b.len(),
    ensures
        before_from(a, b, i) || before_from(b, a, i) || a.subrange(i, a.len() as int) == b.subrange(
            i,
            b.len() as int,
        ),
    decreases a.len() - i,
{
    if i < a.len() && i < b.len() {
        if a[i] == b[i] {
            lemma_before_total(a, b, i + 1);
            if a.subrange(i + 1, a.len() as int) == b.subrange(i + 1, b.len() as int) {
                assert(a.subrange(i, a.len() as int) =~= seq![a[i]] + a.subrange(i + 1, a.len() as int));
                assert(b.subrange(i, b.len() as int) =~= seq![b[i]] + b.subrange(i + 1, b.len() as int));
            }
        } else {
            lemma_code_points_differ(a[i], b[i]);
        }
    } else if i == a.len() && i == b.len() {
        assert(a.subrange(i, a.len() as int) =~= b.subrange(i, b.len() as int));
    }
}

proof fn lemma_code_points_differ(x: char, y: char)
    requires
        x != y,
    ensures
        (x as u32) != (y as u32),
{
    assert(0 <= x as int <= 0x10FFFF && 0 <= y as int <= 0x10FFFF);
    assert((x as int) != (y as int));
    assert((x as u32) as int == x as int);
    assert((y as u32) as int == y as int);
}

proof fn lemma_before_trans(a: Seq<char>, b: Seq<char>, c: Seq<char>, i: int)
    requires
        0 <= i,
        before_from(a, b, i),
        before_from(b, c, i),
    ensures
        before_from(a, c, i),
    decreases a.len() - i,
{
    if i < a.len() && i < b.len() && i < c.len() && a[i] == b[i] && b[i] == c[i] {
        lemma_before_trans(a, b, c, i + 1);
    }
}

/// The names in the tree are totally ordered.
proof fn lemma_names_ordered(a: Seq<char>, b: Seq<char>)
    ensures
        !name_before(a, a),
        name_before(a, b) ==> !name_before(b, a),
        a != b ==> name_before(a, b) || name_before(b, a),
{
    lemma_before_asym(a, a, 0);
    lemma_before_asym(a, b, 0);
    lemma_before_total(a, b, 0);
    assert(a.subrange(0, a.len() as int) =~= a);
    assert(b.subrange(0, b.len() as int) =~= b);
}

proof fn lemma_least_is_least(names: Seq<Seq<char>>, n: nat)
    requires
        1 <= n <= names.len(),
    ensures
        forall|j: int| 0 <= j < n ==> !name_before(#[trigger] names[j], least_upto(names, n)),
    decreases n,
{
    if n == 1 {
        lemma_names_ordered(names[0], names[0]);
    } else {
        lemma_least_is_least(names, (n - 1) as nat);
        let m = least_upto(names, (n - 1) as nat);
        let last = names[n - 1];
        if name_before(last, m) {
            assert forall|j: int| 0 <= j < n implies !name_before(#[trigger] names[j], last) by {
                lemma_names_ordered(last, last);
                if j < n - 1 && name_before(names[j], last) {
                    lemma_before_trans(names[j], last, m, 0);
                }
            }
        } else {
            assert forall|j: int| 0 <= j < n implies !name_before(#[trigger] names[j], m) by {
                if j == n - 1 {
                    assert(names[j] == last);
                }
            }
        }
    }
}

/// The first `n` names without `m` hold every one of them but `m`.
proof fn lemma_without_holds(names: Seq<Seq<char>>, m: Seq<char>, n: nat, x: Seq<char>)
    requires
        n <= names.len(),
    ensures
        without_upto(names, m, n).contains(x) <==> (x != m && exists|j: int| 0 <= j < n && names[j] == x),
    decreases n,
{
    if n > 0 {
        lemma_without_holds(names, m, (n - 1) as nat, x);
        let rest = without_upto(names, m, (n - 1) as nat);
        if names[n - 1] != m {
            assert(rest.push(names[n - 1]).contains(x) <==> (rest.contains(x) || names[n - 1] == x)) by {
                let pushed = rest.push(names[n - 1]);
                if pushed.contains(x) {
                    let k = choose|k: int| 0 <= k < pushed.len() && #[trigger] pushed[k] == x;
                    if k < rest.len() {
                        assert(rest[k] == x);
                    }
                }
                if rest.contains(x) {
                    let k = choose|k: int| 0 <= k < rest.len() && rest[k] == x;
                    assert(rest.push(names[n - 1])[k] == x);
                }
                if names[n - 1] == x {
                    assert(rest.push(names[n - 1])[rest.len() as int] == x);
                }
            }
        }
        if exists|j: int| 0 <= j < n && names[j] == x {
            let j = choose|j: int| 0 <= j < n && names[j] == x;
            if j < n - 1 {
                assert(exists|k: int| 0 <= k < n - 1 && names[k] == x);
            }
        }
    }
}

/// The sorted names depend only on which names there are.
proof fn lemma_sorted_by_contents(s1: Seq<Seq<char>>, s2: Seq<Seq<char>>)
    requires
        forall|x: Seq<char>| s1.contains(x) <==> s2.contains(x),
    ensures
        sorted_names(s1) == sorted_names(s2),
    decreases s1.len() + s2.len(),
{
    if s1.len() == 0 {
        if s2.len() > 0 {
            assert(s2.contains(s2[0]));
        }
    } else if s2.len() == 0 {
        assert(s1.contains(s1[0]));
    } else {
        let m1 = least_upto(s1, s1.len());
        let m2 = least_upto(s2, s2.len());
        lemma_least_is_one_of(s1, s1.len());
        lemma_least_is_one_of(s2, s2.len());
        lemma_least_is_least(s1, s1.len());
        lemma_least_is_least(s2, s2.len());
        let j1 = choose|j: int| 0 <= j < s1.len() && s1[j] == m1;
        let j2 = choose|j: int| 0 <= j < s2.len() && s2[j] == m2;
        assert(s1.contains(m1));
        assert(s2.contains(m1));
        assert(s1.contains(m2));
        let k1 = choose|k: int| 0 <= k < s1.len() && s1[k] == m2;
        let k2 = choose|k: int| 0 <= k < s2.len() && s2[k] == m1;
        assert(!name_before(s1[k1], m1));
        assert(!name_before(s2[k2], m2));
        lemma_names_ordered(m1, m2);
        assert(m1 == m2);
        let w1 = without_upto(s1, m1, s1.len());
        let w2 = without_upto(s2, m1, s2.len());
        lemma_without_shorter(s1, m1, s1.len());
        lemma_without_shorter(s2, m1, s2.len());
        assert forall|x: Seq<char>| w1.contains(x) <==> w2.contains(x) by {
            lemma_without_holds(s1, m1, s1.len(), x);
            lemma_without_holds(s2, m1, s2.len(), x);
            if exists|j: int| 0 <= j < s1.len() && s1[j] == x {
                assert(s1.contains(x));
                assert(s2.contains(x));
            }
            if exists|j: int| 0 <= j < s2.len() && s2[j] == x {
                assert(s2.contains(x));
                assert(s1.contains(x));
            }
        }
        lemma_sorted_by_contents(w1, w2);
    }
}

proof fn lemma_names_below_holds(paths: Seq<Seq<Seq<char>>>, p: Seq<Seq<char>>, n: nat, x: Seq<char>)
    requires
        n <= paths.len(),
    ensures
        names_below(paths, p, n).contains(x) <==> exists|i: int|
            0 <= i < n && reaches_below(#[trigger] paths[i], p) && paths[i][p.len() as int] == x,
    decreases n,
{
    if n > 0 {
        lemma_names_below_holds(paths, p, (n - 1) as nat, x);
        let rest = names_below(paths, p, (n - 1) as nat);
        if reaches_below(paths[n - 1], p) {
            let pushed = rest.push(paths[n - 1][p.len() as int]);
            if pushed.contains(x) {
                let k = choose|k: int| 0 <= k < pushed.len() && #[trigger] pushed[k] == x;
                if k < rest.len() {
                    assert(rest[k] == x);
                    assert(rest.contains(x));
                } else {
                    assert(reaches_below(paths[n - 1], p) && paths[n - 1][p.len() as int] == x);
                }
            }
            if rest.contains(x) {
                let k = choose|k: int| 0 <= k < rest.len() && rest[k] == x;
                assert(pushed[k] == x);
            }
            if paths[n - 1][p.len() as int] == x {
                assert(pushed[rest.len() as int] == x);
            }
        }
        if exists|i: int| 0 <= i < n && reaches_below(#[trigger] paths[i], p) && paths[i][p.len() as int] == x {
            let i = choose|i: int| 0 <= i < n && reaches_below(#[trigger] paths[i], p) && paths[i][p.len() as int] == x;
            if i < n - 1 {
                assert(exists|j: int|
                    0 <= j < n - 1 && reaches_below(#[trigger] paths[j], p) && paths[j][p.len() as int] == x);
            }
        }
    }
}

/// Each (path, kind) of one listing is among the other's.
pub open spec fn covers(p1: Seq<Seq<Seq<char>>>, d1: Seq<bool>, p2: Seq<Seq<Seq<char>>>, d2: Seq<bool>) -> bool {
    forall|i: int| 0 <= i < p1.len() ==> has_pair(p2, d2, #[trigger] p1[i], d1[i])
}

/// Whether `path` is listed in `paths` with the kind `dir`.
pub open spec fn has_pair(paths: Seq<Seq<Seq<char>>>, dirs: Seq<bool>, path: Seq<Seq<char>>, dir: bool) -> bool {
    exists|j: int| 0 <= j < paths.len() && paths[j] == path && dirs[j] == dir
}

/// No path is listed with two kinds.
pub open spec fn one_kind(paths: Seq<Seq<Seq<char>>>, dirs: Seq<bool>) -> bool {
    forall|i: int, j: int|
        0 <= i < paths.len() && 0 <= j < paths.len() && #[trigger] paths[i] == #[trigger] paths[j] ==> dirs[i]
            == dirs[j]
}

proof fn lemma_last_says_file_is_any(paths: Seq<Seq<Seq<char>>>, dirs: Seq<bool>, p: Seq<Seq<char>>, n: nat)
    requires
        n <= paths.len() == dirs.len(),
        one_kind(paths, dirs),
    ensures
        last_says_file(paths, dirs, p, n) <==> exists|i: int| 0 <= i < n && #[trigger] paths[i] == p && !dirs[i],
    decreases n,
{
    if n > 0 {
        lemma_last_says_file_is_any(paths, dirs, p, (n - 1) as nat);
        if paths[n - 1] == p {
            if exists|i: int| 0 <= i < n && #[trigger] paths[i] == p && !dirs[i] {
                let i = choose|i: int| 0 <= i < n && #[trigger] paths[i] == p && !dirs[i];
                assert(paths[i] == paths[n - 1]);
            }
        } else {
            if exists|i: int| 0 <= i < n && #[trigger] paths[i] == p && !dirs[i] {
                let i = choose|i: int| 0 <= i < n && #[trigger] paths[i] == p && !dirs[i];
                assert(i < n - 1);
            }
        }
    }
}

proof fn lemma_depth_bound(paths: Seq<Seq<Seq<char>>>, n: nat)
    requires
        n <= paths.len(),
    ensures
        forall|i: int| 0 <= i < n ==> (#[trigger] paths[i]).len() <= depth_bound(paths, n),
        depth_bound(paths, n) == 0 || exists|j: int| 0 <= j < n && (#[trigger] paths[j]).len() == depth_bound(paths, n),
    decreases n,
{
    if n > 0 {
        lemma_depth_bound(paths, (n - 1) as nat);
        if paths[n - 1].len() <= depth_bound(paths, (n - 1) as nat) && depth_bound(paths, (n - 1) as nat) > 0 {
            let j = choose|j: int| 0 <= j < n - 1 && (#[trigger] paths[j]).len() == depth_bound(paths, (n - 1) as nat);
            assert(0 <= j < n && paths[j].len() == depth_bound(paths, n));
        }
    }
}

proof fn lemma_depth_same(p1: Seq<Seq<Seq<char>>>, d1: Seq<bool>, p2: Seq<Seq<Seq<char>>>, d2: Seq<bool>)
    requires
        covers(p1, d1, p2, d2),
        covers(p2, d2, p1, d1),
    ensures
        depth_bound(p1, p1.len()) == depth_bound(p2, p2.len()),
{
    lemma_depth_bound(p1, p1.len());
    lemma_depth_bound(p2, p2.len());
    if depth_bound(p1, p1.len()) > 0 {
        let i = choose|i: int| 0 <= i < p1.len() && (#[trigger] p1[i]).len() == depth_bound(p1, p1.len());
        assert(has_pair(p2, d2, p1[i], d1[i]));
        let j = choose|j: int| 0 <= j < p2.len() && p2[j] == p1[i] && d2[j] == d1[i];
        assert(p2[j].len() <= depth_bound(p2, p2.len()));
    }
    if depth_bound(p2, p2.len()) > 0 {
        let j = choose|j: int| 0 <= j < p2.len() && (#[trigger] p2[j]).len() == depth_bound(p2, p2.len());
        assert(has_pair(p1, d1, p2[j], d2[j]));
        let i = choose|i: int| 0 <= i < p1.len() && p1[i] == p2[j] && d1[i] == d2[j];
        assert(p1[i].len() <= depth_bound(p1, p1.len()));
    }
}

proof fn lemma_children_same(
    p1: Seq<Seq<Seq<char>>>,
    d1: Seq<bool>,
    p2: Seq<Seq<Seq<char>>>,
    d2: Seq<bool>,
    p: Seq<Seq<char>>,
)
    requires
        covers(p1, d1, p2, d2),
        covers(p2, d2, p1, d1),
    ensures
        sorted_names(names_below(p1, p, p1.len())) == sorted_names(names_below(p2, p, p2.len())),
{
    assert forall|x: Seq<char>|
        names_below(p1, p, p1.len()).contains(x) <==> names_below(p2, p, p2.len()).contains(x) by {
        lemma_names_below_holds(p1, p, p1.len(), x);
        lemma_names_below_holds(p2, p, p2.len(), x);
        if exists|i: int| 0 <= i < p1.len() && reaches_below(#[trigger] p1[i], p) && p1[i][p.len() as int] == x {
            let i = choose|i: int| 0 <= i < p1.len() && reaches_below(#[trigger] p1[i], p) && p1[i][p.len() as int] == x;
            assert(has_pair(p2, d2, p1[i], d1[i]));
        let j = choose|j: int| 0 <= j < p2.len() && p2[j] == p1[i] && d2[j] == d1[i];
            assert(reaches_below(p2[j], p) && p2[j][p.len() as int] == x);
        }
        if exists|j: int| 0 <= j < p2.len() && reaches_below(#[trigger] p2[j], p) && p2[j][p.len() as int] == x {
            let j = choose|j: int| 0 <= j < p2.len() && reaches_below(#[trigger] p2[j], p) && p2[j][p.len() as int] == x;
            assert(has_pair(p1, d1, p2[j], d2[j]));
        let i = choose|i: int| 0 <= i < p1.len() && p1[i] == p2[j] && d1[i] == d2[j];
            assert(reaches_below(p1[i], p) && p1[i][p.len() as int] == x);
        }
    }
    lemma_sorted_by_contents(names_below(p1, p, p1.len()), names_below(p2, p, p2.len()));
}

proof fn lemma_kind_same(
    p1: Seq<Seq<Seq<char>>>,
    d1: Seq<bool>,
    p2: Seq<Seq<Seq<char>>>,
    d2: Seq<bool>,
    p: Seq<Seq<char>>,
)
    requires
        p1.len() == d1.len(),
        p2.len() == d2.len(),
        covers(p1, d1, p2, d2),
        covers(p2, d2, p1, d1),
        one_kind(p1, d1),
        one_kind(p2, d2),
    ensures
        last_says_file(p1, d1, p, p1.len()) == last_says_file(p2, d2, p, p2.len()),
{
    lemma_last_says_file_is_any(p1, d1, p, p1.len());
    lemma_last_says_file_is_any(p2, d2, p, p2.len());
    if exists|i: int| 0 <= i < p1.len() && #[trigger] p1[i] == p && !d1[i] {
        let i = choose|i: int| 0 <= i < p1.len() && #[trigger] p1[i] == p && !d1[i];
        assert(has_pair(p2, d2, p1[i], d1[i]));
        let j = choose|j: int| 0 <= j < p2.len() && p2[j] == p1[i] && d2[j] == d1[i];
        assert(p2[j] == p && !d2[j]);
    }
    if exists|j: int| 0 <= j < p2.len() && #[trigger] p2[j] == p && !d2[j] {
        let j = choose|j: int| 0 <= j < p2.len() && #[trigger] p2[j] == p && !d2[j];
        assert(has_pair(p1, d1, p2[j], d2[j]));
        let i = choose|i: int| 0 <= i < p1.len() && p1[i] == p2[j] && d1[i] == d2[j];
        assert(p1[i] == p && !d1[i]);
    }
}

proof fn lemma_render_same(
    p1: Seq<Seq<Seq<char>>>,
    d1: Seq<bool>,
    p2: Seq<Seq<Seq<char>>>,
    d2: Seq<bool>,
    p: Seq<Seq<char>>,
    names: Seq<Seq<char>>,
    k: nat,
    prefix: Seq<char>,
    fuel: nat,
)
    requires
        p1.len() == d1.len(),
        p2.len() == d2.len(),
        covers(p1, d1, p2, d2),
        covers(p2, d2, p1, d1),
        one_kind(p1, d1),
        one_kind(p2, d2),
    ensures
        render_items(p1, d1, p, names, k, prefix, fuel) == render_items(p2, d2, p, names, k, prefix, fuel),
    decreases fuel, names.len() - k,
{
    if k < names.len() && fuel > 0 {
        let child = p.push(names[k as int]);
        lemma_children_same(p1, d1, p2, d2, child);
        lemma_kind_same(p1, d1, p2, d2, child);
        let below = sorted_names(names_below(p1, child, p1.len()));
        let last = k + 1 == names.len();
        lemma_render_same(
            p1,
            d1,
            p2,
            d2,
            child,
            below,
            0,
            prefix + (if last { "    "@ } else { "│   "@ }),
            (fuel - 1) as nat,
        );
        lemma_render_same(p1, d1, p2, d2, p, names, k + 1, prefix, fuel);
    }
}

/// Whether `e` is listed in `es`: some entry there has its path's segments
/// and its kind.
pub open spec fn listed_in(e: ToolFileEntry, es: Seq<ToolFileEntry>) -> bool {
    exists|j: int| 0 <= j < es.len() && segments(es[j].path@) == segments(e.path@) && es[j].is_dir == e.is_dir
}

/// No path is listed both as a file and as a directory.
pub open spec fn one_kind_per_path(es: Seq<ToolFileEntry>) -> bool {
    forall|i: int, j: int|
        0 <= i < es.len() && 0 <= j < es.len() && segments(#[trigger] es[i].path@) == segments(
            #[trigger] es[j].path@,
        ) ==> es[i].is_dir == es[j].is_dir
}

proof fn lemma_entries_cover(e1: Seq<ToolFileEntry>, e2: Seq<ToolFileEntry>)
    requires
        forall|i: int| 0 <= i < e1.len() ==> listed_in(#[trigger] e1[i], e2),
    ensures
        covers(entry_paths(e1), entry_dirs(e1), entry_paths(e2), entry_dirs(e2)),
        entry_paths(e1).len() == entry_dirs(e1).len() == e1.len(),
{
    let p1 = entry_paths(e1);
    let d1 = entry_dirs(e1);
    let p2 = entry_paths(e2);
    let d2 = entry_dirs(e2);
    assert forall|i: int| 0 <= i < p1.len() implies has_pair(p2, d2, #[trigger] p1[i], d1[i]) by {
        assert(listed_in(e1[i], e2));
        let j = choose|j: int|
            0 <= j < e2.len() && segments(e2[j].path@) == segments(e1[i].path@) && e2[j].is_dir == e1[i].is_dir;
        assert(p2[j] == p1[i] && d2[j] == d1[i]);
    }
    assert(p1.len() == e1.len() && p2.len() == e2.len());
    assert(covers(p1, d1, p2, d2));
}

proof fn lemma_entries_one_kind(e: Seq<ToolFileEntry>)
    requires
        one_kind_per_path(e),
    ensures
        one_kind(entry_paths(e), entry_dirs(e)),
        entry_paths(e).len() == entry_dirs(e).len(),
{
    let ps = entry_paths(e);
    let ds = entry_dirs(e);
    assert forall|i: int, j: int|
        0 <= i < ps.len() && 0 <= j < ps.len() && #[trigger] ps[i] == #[trigger] ps[j] implies ds[i] == ds[j] by {
        assert(segments(e[i].path@) == segments(e[j].path@));
    }
}

/// The tree does not depend on the order in which the walk met the
/// entries: two listings of the same length with the same entries, neither
/// naming a path as both a file and a directory, render alike.
pub proof fn law_the_tree_ignores_the_walk_order(e1: Seq<ToolFileEntry>, e2: Seq<ToolFileEntry>, truncated: bool)
    requires
        e1.len() == e2.len(),
        forall|i: int| 0 <= i < e1.len() ==> listed_in(#[trigger] e1[i], e2),
        forall|j: int| 0 <= j < e2.len() ==> listed_in(#[trigger] e2[j], e1),
        one_kind_per_path(e1),
        one_kind_per_path(e2),
    ensures
        spec_file_tree(e1, truncated) == spec_file_tree(e2, truncated),
{
    lemma_entries_cover(e1, e2);
    lemma_entries_cover(e2, e1);
    lemma_entries_one_kind(e1);
    lemma_entries_one_kind(e2);
    let p1 = entry_paths(e1);
    let d1 = entry_dirs(e1);
    let p2 = entry_paths(e2);
    let d2 = entry_dirs(e2);
    lemma_children_same(p1, d1, p2, d2, seq![]);
    lemma_depth_same(p1, d1, p2, d2);
    let top = sorted_names(names_below(p1, seq![], p1.len()));
    lemma_render_same(p1, d1, p2, d2, seq![], top, 0, seq![], depth_bound(p1, p1.len()));
}

} // verus!
