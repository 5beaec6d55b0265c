//! Which entries of a directory scan a listing keeps: those whose file name
//! matches the glob the model gave, with every directory kept as the way to
//! them, and no more than [`MAX_ENTRIES`].
//!
//! Scanning the directory is the caller's part; the scan comes here as
//! entries relative to the scope root. Glob syntax and matching are
//! `globset`'s.

use vstd::prelude::*;

use crate::errors::ToolError;
use crate::resolve::{basename, last_index_of, last_index_of_exec, lemma_last_index_of, spec_basename};
use crate::text::chars_of;
use crate::tool_types::{ToolFileEntry, ToolResult};

verus! {

/// How many entries one listing may return.
pub const MAX_ENTRIES: usize = 1000;

#[verifier::external_type_specification]
#[verifier::external_body]
pub struct ExGlobSet(globset::GlobSet);

#[verifier::external_type_specification]
#[verifier::external_body]
pub struct ExGlob(globset::Glob);

/// What `globset::Glob::new` says of `pattern`: `None` where it parses,
/// else its error's text.
pub uninterp spec fn glob_parse_error(pattern: Seq<char>) -> Option<Seq<char>>;

/// What `GlobSetBuilder::build` says of a set holding the one glob parsed
/// from `pattern`: `None` where it compiles, else its error's text.
pub uninterp spec fn glob_set_error(pattern: Seq<char>) -> Option<Seq<char>>;

/// Why `pattern` cannot be used as a glob: its parse error first, then the
/// set's.
pub open spec fn glob_error(pattern: Seq<char>) -> Option<Seq<char>> {
    match glob_parse_error(pattern) {
        Some(e) => Some(e),
        None => glob_set_error(pattern),
    }
}

/// Whether the compiled `pattern` matches `name`, as `GlobSet::is_match`
/// answers.
pub uninterp spec fn glob_is_match(pattern: Seq<char>, name: Seq<char>) -> bool;

/// A compiled glob, with what it was compiled from.
pub struct NamePattern {
    pattern: String,
    set: globset::GlobSet,
}

impl NamePattern {
    pub closed spec fn source(&self) -> Seq<char> {
        self.pattern@
    }
}

/// A glob parsed, with the pattern it was parsed from.
pub struct ParsedGlob {
    pattern: String,
    glob: globset::Glob,
}

impl ParsedGlob {
    pub closed spec fn source(&self) -> Seq<char> {
        self.pattern@
    }
}

/// `globset::Glob::new`. Claimed: it succeeds exactly where
/// [`glob_parse_error`] is `None`, and an error's text is that name's.
#[verifier::external_body]
fn parse_glob(pattern: &str) -> (r: Result<ParsedGlob, String>)
    ensures
        match r {
            Ok(p) => glob_parse_error(pattern@) is None && p.source() == pattern@,
            Err(e) => glob_parse_error(pattern@) == Some(e@),
        },
{
    match globset::Glob::new(pattern) {
        Ok(glob) => Ok(ParsedGlob { pattern: pattern.to_string(), glob }),
        Err(e) => Err(e.to_string()),
    }
}

/// `GlobSetBuilder::new().add(glob).build()`. Claimed: it succeeds exactly
/// where [`glob_set_error`] of the glob's pattern is `None`, and an error's
/// text is that name's. A one-glob set is used rather than
/// `Glob::compile_matcher`, which panics where the set's `build` returns an
/// error.
#[verifier::external_body]
fn build_glob_set(p: ParsedGlob) -> (r: Result<NamePattern, String>)
    ensures
        match r {
            Ok(n) => glob_set_error(p.source()) is None && n.source() == p.source(),
            Err(e) => glob_set_error(p.source()) == Some(e@),
        },
{
    match globset::GlobSetBuilder::new().add(p.glob).build() {
        Ok(set) => Ok(NamePattern { pattern: p.pattern, set }),
        Err(e) => Err(e.to_string()),
    }
}

/// A glob compiled from `pattern`, or why it cannot be.
fn compile_glob(pattern: &str) -> (r: Result<NamePattern, String>)
    ensures
        match r {
            Ok(p) => glob_error(pattern@) is None && p.source() == pattern@,
            Err(e) => glob_error(pattern@) == Some(e@),
        },
{
    let parsed = parse_glob(pattern)?;
    build_glob_set(parsed)
}

/// `GlobSet::is_match`. Claimed: its answer is [`glob_is_match`] of the
/// pattern the set was compiled from.
#[verifier::external_body]
fn name_matches(p: &NamePattern, name: &str) -> (r: bool)
    ensures
        r == glob_is_match(p.source(), name@),
{
    p.set.is_match(name)
}

/// Whether a glob holds a `/`: such a glob names a place and is matched
/// against the path from the root; any other is matched against the file
/// name, at any depth.
pub open spec fn names_place(glob: Seq<char>) -> bool {
    glob.contains('/')
}

/// What a glob is matched against: the path where it names a place, else
/// the file name.
pub open spec fn glob_target(glob: Seq<char>, path: Seq<char>) -> Seq<char> {
    if names_place(glob) {
        path
    } else {
        spec_basename(path)
    }
}

/// Whether a path from the root passes the filter: it matches the glob
/// where one is given, and does not match the exclusion where one is given.
pub open spec fn path_allowed(glob: Option<Seq<char>>, exclude: Option<Seq<char>>, path: Seq<char>) -> bool {
    &&& (glob matches Some(g) ==> glob_is_match(g, glob_target(g, path)))
    &&& (exclude matches Some(x) ==> !glob_is_match(x, path))
}

/// Why a filter cannot be built: the glob's error first, then the
/// exclusion's.
pub open spec fn filter_error(glob: Option<Seq<char>>, exclude: Option<Seq<char>>) -> Option<Seq<char>> {
    match glob {
        Some(g) if glob_error(g) is Some => glob_error(g),
        _ => match exclude {
            Some(x) => glob_error(x),
            None => None,
        },
    }
}

/// Which paths a search looks at: a glob to keep and a glob to leave out,
/// either of them absent.
pub struct PathFilter {
    glob: Option<NamePattern>,
    exclude: Option<NamePattern>,
}

pub open spec fn pattern_source(p: Option<NamePattern>) -> Option<Seq<char>> {
    match p {
        Some(p) => Some(p.source()),
        None => None,
    }
}

fn compile_given(pattern: Option<&str>) -> (r: Result<Option<NamePattern>, String>)
    ensures
        match given_pattern(pattern) {
            Some(p) if glob_error(p) is Some => r matches Err(e) && Some(e@) == glob_error(p),
            given => r matches Ok(c) && pattern_source(c) == given,
        },
{
    match pattern {
        Some(p) => if chars_of(p).len() > 0 {
            match compile_glob(p) {
                Ok(c) => Ok(Some(c)),
                Err(e) => Err(e),
            }
        } else {
            Ok(None)
        },
        None => Ok(None),
    }
}

fn has_slash(p: &NamePattern) -> (r: bool)
    ensures
        r == names_place(p.source()),
{
    let cs = chars_of(p.pattern.as_str());
    proof {
        lemma_last_index_of(cs@, '/');
    }
    match last_index_of_exec(cs.as_slice(), '/') {
        Some(i) => {
            assert(cs@[i as int] == '/');
            true
        },
        None => {
            assert forall|j: int| 0 <= j < cs@.len() implies cs@[j] != '/' by {}
            false
        },
    }
}

impl PathFilter {
    pub closed spec fn glob(&self) -> Option<Seq<char>> {
        pattern_source(self.glob)
    }

    pub closed spec fn exclude(&self) -> Option<Seq<char>> {
        pattern_source(self.exclude)
    }

    /// The filter the model asked for; an empty glob or exclusion counts as
    /// none. A glob that does not compile is refused with its error.
    pub fn new(glob: Option<&str>, exclude: Option<&str>) -> (r: Result<PathFilter, String>)
        ensures
            match filter_error(given_pattern(glob), given_pattern(exclude)) {
                Some(m) => r matches Err(e) && e@ == m,
                None => r matches Ok(f) && f.glob() == given_pattern(glob) && f.exclude() == given_pattern(
                    exclude,
                ),
            },
    {
        let g = match compile_given(glob) {
            Ok(g) => g,
            Err(e) => {
                return Err(e);
            },
        };
        let x = match compile_given(exclude) {
            Ok(x) => x,
            Err(e) => {
                return Err(e);
            },
        };
        Ok(PathFilter { glob: g, exclude: x })
    }

    /// The filter that lets every path through.
    pub fn everything() -> (f: PathFilter)
        ensures
            f.glob() is None,
            f.exclude() is None,
    {
        PathFilter { glob: None, exclude: None }
    }

    /// Whether `path`, from the root, passes the filter.
    pub fn allows(&self, path: &str) -> (r: bool)
        ensures
            r == path_allowed(self.glob(), self.exclude(), path@),
    {
        let kept = match &self.glob {
            Some(g) => if has_slash(g) {
                name_matches(g, path)
            } else {
                let name = basename(path);
                name_matches(g, name.as_str())
            },
            None => true,
        };
        if !kept {
            return false;
        }
        match &self.exclude {
            Some(x) => !name_matches(x, path),
            None => true,
        }
    }
}

/// An entry survives the pattern when it is a directory or its file name
/// matches.
pub open spec fn survives(pattern: Seq<char>, e: ToolFileEntry) -> bool {
    e.is_dir || glob_is_match(pattern, spec_basename(e.path@))
}

/// A file entry survives a pattern exactly when the pattern matches its
/// name, the part after the last `/`, at whatever depth it lies: the
/// directories before the name play no part.
pub proof fn law_a_file_is_kept_by_its_name(pattern: Seq<char>, e: ToolFileEntry, dir: Seq<char>, name: Seq<char>)
    requires
        !e.is_dir,
        !name.contains('/'),
        e.path@ == name || e.path@ == dir + seq!['/'] + name,
    ensures
        survives(pattern, e) == glob_is_match(pattern, name),
{
    let path = e.path@;
    lemma_last_index_of(path, '/');
    if path == name {
        if last_index_of(path, '/') >= 0 {
            assert(name.contains(path[last_index_of(path, '/')]));
        }
        assert(path.subrange(0, path.len() as int) =~= name);
    } else {
        let d = dir.len() as int;
        assert(path[d] == '/');
        assert forall|j: int| d < j < path.len() implies path[j] != '/' by {
            assert(path[j] == name[j - d - 1]);
            assert(name.contains(name[j - d - 1]));
        }
        assert(last_index_of(path, '/') == d);
        assert(path.subrange(d + 1, path.len() as int) =~= name);
    }
}

pub open spec fn all_dirs(es: Seq<ToolFileEntry>) -> bool {
    forall|i: int| 0 <= i < es.len() ==> #[trigger] es[i].is_dir
}

/// What the pattern keeps of a scan: the surviving entries in scan order,
/// or nothing when only directories survive.
pub open spec fn kept(entries: Seq<ToolFileEntry>, pattern: Seq<char>) -> Seq<ToolFileEntry> {
    let f = entries.filter(|e: ToolFileEntry| survives(pattern, e));
    if all_dirs(f) {
        seq![]
    } else {
        f
    }
}

/// A listing with a pattern keeps every file of the scan whose name (the
/// part after the last `/`) matches it, and no file whose name does not;
/// directories stay as the way to the files.
pub proof fn law_a_listing_keeps_the_files_whose_names_match(entries: Seq<ToolFileEntry>, pattern: Seq<char>, i: int)
    requires
        0 <= i < entries.len(),
        !entries[i].is_dir,
        glob_is_match(pattern, spec_basename(entries[i].path@)),
    ensures
        kept(entries, pattern).contains(entries[i]),
        forall|k: int|
            0 <= k < kept(entries, pattern).len() ==> (#[trigger] kept(entries, pattern)[k]).is_dir || glob_is_match(
                pattern,
                spec_basename(kept(entries, pattern)[k].path@),
            ),
{
    let pred = |e: ToolFileEntry| survives(pattern, e);
    let f = entries.filter(pred);
    entries.lemma_filter_contains(pred, i);
    let j = choose|j: int| 0 <= j < f.len() && f[j] == entries[i];
    assert(!f[j].is_dir);
    assert(!all_dirs(f));
    assert forall|k: int| 0 <= k < f.len() implies (#[trigger] f[k]).is_dir || glob_is_match(
        pattern,
        spec_basename(f[k].path@),
    ) by {
        entries.lemma_filter_pred(pred, k);
    }
}

/// The pattern that applies: none where the model gave none or an empty one.
pub open spec fn given_pattern(pattern: Option<&str>) -> Option<Seq<char>> {
    match pattern {
        Some(p) => if p@.len() > 0 {
            Some(p@)
        } else {
            None
        },
        None => None,
    }
}

/// The listing a scan gives: filtered by the pattern where there is one,
/// then cut to [`MAX_ENTRIES`], saying whether anything was cut.
pub open spec fn listing(entries: Seq<ToolFileEntry>, pattern: Option<Seq<char>>) -> (
    Seq<ToolFileEntry>,
    bool,
) {
    let es = match pattern {
        Some(p) => kept(entries, p),
        None => entries,
    };
    if es.len() > MAX_ENTRIES {
        (es.take(MAX_ENTRIES as int), true)
    } else {
        (es, false)
    }
}

fn copy_entry(e: &ToolFileEntry) -> (c: ToolFileEntry)
    ensures
        c == *e,
{
    ToolFileEntry { path: e.path.clone(), is_dir: e.is_dir }
}

fn keep_matching(entries: &Vec<ToolFileEntry>, p: &NamePattern) -> (out: Vec<ToolFileEntry>)
    ensures
        out@ == kept(entries@, p.source()),
{
    let ghost pat = p.source();
    let ghost pred = |e: ToolFileEntry| survives(pat, e);
    let mut out: Vec<ToolFileEntry> = Vec::new();
    let mut only_dirs = true;
    let mut i: usize = 0;
    while i < entries.len()
        invariant
            i <= entries.len(),
            pat == p.source(),
            pred == (|e: ToolFileEntry| survives(pat, e)),
            out@ == entries@.take(i as int).filter(pred),
            only_dirs == all_dirs(out@),
        decreases entries.len() - i,
    {
        let e = &entries[i];
        let name = basename(e.path.as_str());
        let keep = e.is_dir || name_matches(p, name.as_str());
        proof {
            assert(keep == pred(entries@[i as int]));
            assert(entries@.take(i as int + 1) =~= entries@.take(i as int).push(entries@[i as int]));
            entries@.take(i as int).lemma_filter_push(entries@[i as int], pred);
        }
        if keep {
            let ghost before = out@;
            out.push(copy_entry(e));
            proof {
                assert(out@ == before.push(entries@[i as int]));
                if all_dirs(out@) {
                    assert(out@[out@.len() - 1].is_dir);
                    assert forall|j: int| 0 <= j < before.len() implies #[trigger] before[j].is_dir by {
                        assert(out@[j] == before[j]);
                    }
                } else if all_dirs(before) && e.is_dir {
                    assert forall|j: int| 0 <= j < out@.len() implies #[trigger] out@[j].is_dir by {
                        if j < before.len() {
                            assert(out@[j] == before[j]);
                        }
                    }
                }
            }
            if !e.is_dir {
                only_dirs = false;
            }
        }
        i = i + 1;
    }
    assert(entries@.take(entries.len() as int) =~= entries@);
    if only_dirs {
        Vec::new()
    } else {
        out
    }
}

fn first_entries(entries: Vec<ToolFileEntry>) -> (r: (Vec<ToolFileEntry>, bool))
    ensures
        r.1 == (entries@.len() > MAX_ENTRIES),
        r.0@ == if r.1 {
            entries@.take(MAX_ENTRIES as int)
        } else {
            entries@
        },
{
    if entries.len() > MAX_ENTRIES {
        let mut out: Vec<ToolFileEntry> = Vec::new();
        let mut i: usize = 0;
        while i < MAX_ENTRIES
            invariant
                i <= MAX_ENTRIES < entries.len(),
                out@ == entries@.take(i as int),
            decreases MAX_ENTRIES - i,
        {
            out.push(copy_entry(&entries[i]));
            assert(entries@.take(i as int + 1) =~= entries@.take(i as int).push(entries@[i as int]));
            i = i + 1;
        }
        (out, true)
    } else {
        (entries, false)
    }
}

/// A listing of `entries`, the scan of a directory: where the model gave a
/// non-empty glob, only directories and the files whose name matches it are
/// kept, and nothing at all when no file matches; the result is cut to
/// [`MAX_ENTRIES`]. A glob that does not compile is refused with its error.
pub fn list_files(entries: Vec<ToolFileEntry>, pattern: Option<&str>) -> (r: Result<ToolResult, ToolError>)
    ensures
        match given_pattern(pattern) {
            Some(p) if glob_error(p) is Some => r matches Err(ToolError::InvalidPattern(e)) && Some(e@)
                == glob_error(p),
            given => r matches Ok(ToolResult::FileList { entries: es, truncated: t }) && (es@, t)
                == listing(entries@, given),
        },
{
    let given = match pattern {
        Some(p) => if chars_of(p).len() > 0 {
            Some(p)
        } else {
            None
        },
        None => None,
    };
    proof {
        assert(given_pattern(pattern) == match given {
            Some(p) => Some(p@),
            None => None::<Seq<char>>,
        });
    }
    let filtered = match given {
        Some(p) => match compile_glob(p) {
            Ok(compiled) => keep_matching(&entries, &compiled),
            Err(e) => {
                return Err(ToolError::InvalidPattern(e));
            },
        },
        None => entries,
    };
    let (es, truncated) = first_entries(filtered);
    Ok(ToolResult::FileList { entries: es, truncated })
}

} // verus!
