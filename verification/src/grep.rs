//! Exhaustive regular-expression line matching over files: every hit up to a
//! cap, the rest counted, each hit with the lines around it.
//!
//! Walking the directory and reading files is the caller's part; each file
//! comes here as its size and its bytes.

use vstd::prelude::*;

use vstd::utf8::{decode_utf8, valid_utf8};

use crate::text::{chars_of, lines, lines_of, push_char, slice_to_vec, str_eq, strs_view, text_of, chars_view};
use crate::errors::ToolError;
use crate::tool_types::{GrepMatch, ToolResult};
use crate::listing::{PathFilter, filter_error, given_pattern, path_allowed};

verus! {

/// How many hits come back when the model does not say.
pub const DEFAULT_RESULTS: usize = 50;

/// The most hits one search returns.
pub const MAX_RESULTS: usize = 200;

/// Past this many bytes a file is a build artefact or a dump, and is skipped.
pub const MAX_FILE_BYTES: u64 = 1048576;

/// A NUL byte among the first this many bytes means the file is binary.
pub const BINARY_SNIFF_BYTES: usize = 8192;

/// The most characters of one line a hit shows.
pub const LINE_MAX_CHARS: usize = 300;

/// The most lines of context on either side of a hit.
pub const MAX_CONTEXT_LINES: usize = 5;

/// Hits counted past the cap before counting stops.
pub const MAX_COUNTED: usize = 10000;

#[verifier::external_type_specification]
#[verifier::external_body]
pub struct ExRegex(regex::Regex);

/// What `RegexBuilder::build` says of `pattern`, compiled case-insensitively
/// or not: `None` where it compiles, the error's text where it does not.
pub uninterp spec fn regex_build_error(pattern: Seq<char>, case_insensitive: bool) -> Option<Seq<char>>;

/// What `Regex::is_match` answers for the compiled `pattern` on `haystack`.
pub uninterp spec fn regex_is_match(pattern: Seq<char>, case_insensitive: bool, haystack: Seq<char>) -> bool;

/// A compiled pattern, with what it was compiled from.
pub struct LinePattern {
    pattern: String,
    case_insensitive: bool,
    re: regex::Regex,
}

impl LinePattern {
    pub closed spec fn source(&self) -> Seq<char> {
        self.pattern@
    }

    pub closed spec fn folds_case(&self) -> bool {
        self.case_insensitive
    }
}

/// `regex::RegexBuilder::new(pattern).case_insensitive(..).build()`. Claimed:
/// it succeeds exactly where [`regex_build_error`] is `None`, and its error
/// text is that name's; what compiles is not stated here.
#[verifier::external_body]
fn compile(pattern: &str, case_insensitive: bool) -> (r: Result<LinePattern, String>)
    ensures
        match r {
            Ok(p) => regex_build_error(pattern@, case_insensitive) is None && p.source() == pattern@
                && p.folds_case() == case_insensitive,
            Err(e) => regex_build_error(pattern@, case_insensitive) == Some(e@),
        },
{
    match regex::RegexBuilder::new(pattern).case_insensitive(case_insensitive).build() {
        Ok(re) => Ok(LinePattern { pattern: pattern.to_string(), case_insensitive, re }),
        Err(e) => Err(e.to_string()),
    }
}

/// `regex::Regex::is_match`. Claimed: its answer is [`regex_is_match`] of
/// the pattern the regex was compiled from.
#[verifier::external_body]
fn is_match(p: &LinePattern, line: &str) -> (r: bool)
    ensures
        r == regex_is_match(p.source(), p.folds_case(), line@),
{
    p.re.is_match(line)
}

/// `String::from_utf8`. Claimed, as its documentation says: it succeeds
/// exactly on valid UTF-8, and the text holds the characters the bytes
/// encode.
#[verifier::external_body]
pub(crate) fn utf8_text(bytes: &[u8]) -> (r: Option<String>)
    ensures
        match r {
            Some(s) => valid_utf8(bytes@) && s@ == decode_utf8(bytes@),
            None => !valid_utf8(bytes@),
        },
{
    String::from_utf8(bytes.to_vec()).ok()
}

/// The pattern a search uses, or the regular expression's own error.
pub fn build_pattern(pattern: &str, case_insensitive: bool) -> (r: Result<LinePattern, String>)
    ensures
        match r {
            Ok(p) => regex_build_error(pattern@, case_insensitive) is None && p.source() == pattern@
                && p.folds_case() == case_insensitive,
            Err(e) => regex_build_error(pattern@, case_insensitive) == Some(e@),
        },
{
    compile(pattern, case_insensitive)
}

// ----- one hit -----

/// A line as a hit shows it: whole up to [`LINE_MAX_CHARS`] characters,
/// else its first that many and `…`.
pub open spec fn truncate_line(line: Seq<char>) -> Seq<char> {
    if line.len() <= LINE_MAX_CHARS {
        line
    } else {
        line.subrange(0, LINE_MAX_CHARS as int).push('…')
    }
}

pub fn truncate(line: &Vec<char>) -> (s: String)
    ensures
        s@ == truncate_line(line@),
{
    if line.len() <= LINE_MAX_CHARS {
        text_of(line.as_slice())
    } else {
        let kept = slice_to_vec(line.as_slice(), 0, LINE_MAX_CHARS);
        let mut s = text_of(kept.as_slice());
        push_char(&mut s, '…');
        s
    }
}

/// A hit as the model reads it.
pub struct MatchView {
    pub path: Seq<char>,
    pub line: nat,
    pub text: Seq<char>,
    pub before: Seq<Seq<char>>,
    pub after: Seq<Seq<char>>,
}

pub open spec fn match_view(m: GrepMatch) -> MatchView {
    MatchView {
        path: m.path@,
        line: m.line as nat,
        text: m.text@,
        before: strs_view(m.before@),
        after: strs_view(m.after@),
    }
}

pub open spec fn truncate_all(ls: Seq<Seq<char>>) -> Seq<Seq<char>> {
    ls.map_values(|l: Seq<char>| truncate_line(l))
}

/// The hit on line `i` (from 0) of `ls`, with up to `c` lines either side.
pub open spec fn hit_at(path: Seq<char>, ls: Seq<Seq<char>>, i: int, c: nat) -> MatchView {
    let from = if i >= c { i - c } else { 0 };
    let to = if i + 1 + c <= ls.len() { i + 1 + c } else { ls.len() as int };
    MatchView {
        path,
        line: (i + 1) as nat,
        text: truncate_line(ls[i]),
        before: truncate_all(ls.subrange(from, i)),
        after: truncate_all(ls.subrange(i + 1, to)),
    }
}

fn truncated_range(ls: &Vec<Vec<char>>, from: usize, to: usize) -> (out: Vec<String>)
    requires
        from <= to <= ls@.len(),
    ensures
        strs_view(out@) == truncate_all(chars_view(ls@).subrange(from as int, to as int)),
{
    let ghost lv = chars_view(ls@);
    let mut out: Vec<String> = Vec::new();
    let mut i = from;
    while i < to
        invariant
            from <= i <= to <= ls@.len(),
            lv == chars_view(ls@),
            strs_view(out@) == truncate_all(lv.subrange(from as int, i as int)),
        decreases to - i,
    {
        let t = truncate(&ls[i]);
        proof {
            assert(strs_view(out@.push(t)) =~= strs_view(out@).push(t@));
            assert(truncate_all(lv.subrange(from as int, i + 1)) =~= truncate_all(lv.subrange(from as int, i as int)).push(
                truncate_line(lv[i as int]),
            ));
        }
        out.push(t);
        i = i + 1;
    }
    out
}

// ----- the search -----

/// A search so far: the hits kept, every hit counted, the files that had a
/// hit, and the files skipped as too large or not UTF-8 text.
pub struct SearchView {
    pub matches: Seq<MatchView>,
    pub total: nat,
    pub files: Set<Seq<char>>,
    pub skipped: Seq<Seq<char>>,
}

/// The lines of one file from `i` on, searched into `s`: each hit is counted
/// and its file noted; counting stops at [`MAX_COUNTED`]; a hit is kept while
/// fewer than `max_results` are.
pub open spec fn scan_lines(
    s: SearchView,
    pattern: Seq<char>,
    fold: bool,
    path: Seq<char>,
    ls: Seq<Seq<char>>,
    i: int,
    max_results: nat,
    context: nat,
) -> SearchView
    decreases ls.len() - i,
{
    if i < 0 || i >= ls.len() {
        s
    } else if !regex_is_match(pattern, fold, ls[i]) {
        scan_lines(s, pattern, fold, path, ls, i + 1, max_results, context)
    } else {
        let counted = SearchView { total: s.total + 1, files: s.files.insert(path), ..s };
        if counted.total >= MAX_COUNTED {
            counted
        } else if s.matches.len() >= max_results {
            scan_lines(counted, pattern, fold, path, ls, i + 1, max_results, context)
        } else {
            scan_lines(
                SearchView { matches: counted.matches.push(hit_at(path, ls, i, context)), ..counted },
                pattern,
                fold,
                path,
                ls,
                i + 1,
                max_results,
                context,
            )
        }
    }
}

/// Whether a NUL byte is among the first [`BINARY_SNIFF_BYTES`] bytes.
pub open spec fn looks_binary(bytes: Seq<u8>) -> bool {
    exists|i: int| 0 <= i < bytes.len() && i < BINARY_SNIFF_BYTES && bytes[i] == 0
}

/// One file searched into `s`: skipped (and named) when too large or not
/// UTF-8 text, passed over when binary, else its lines scanned.
pub open spec fn search_file(
    s: SearchView,
    pattern: Seq<char>,
    fold: bool,
    path: Seq<char>,
    size: u64,
    bytes: Seq<u8>,
    max_results: nat,
    context: nat,
) -> SearchView {
    if size > MAX_FILE_BYTES {
        SearchView { skipped: s.skipped.push(path), ..s }
    } else if looks_binary(bytes) {
        s
    } else if !valid_utf8(bytes) {
        SearchView { skipped: s.skipped.push(path), ..s }
    } else {
        scan_lines(s, pattern, fold, path, lines(decode_utf8(bytes)), 0, max_results, context)
    }
}

/// The limits a search runs with: the cap on hits, clamped into
/// `[1, MAX_RESULTS]` and [`DEFAULT_RESULTS`] where not given; the context,
/// at most [`MAX_CONTEXT_LINES`] and none where not given.
pub open spec fn result_cap(max_results: Option<usize>) -> nat {
    let asked = if let Some(m) = max_results { m as int } else { DEFAULT_RESULTS as int };
    (if asked < 1 { 1 } else if asked > MAX_RESULTS { MAX_RESULTS as int } else { asked }) as nat
}

pub open spec fn context_cap(context_lines: Option<usize>) -> nat {
    let asked = if let Some(c) = context_lines { c as int } else { 0 };
    (if asked > MAX_CONTEXT_LINES { MAX_CONTEXT_LINES as int } else { asked }) as nat
}

pub struct Search {
    pattern: LinePattern,
    paths: PathFilter,
    max_results: usize,
    context_lines: usize,
    matches: Vec<GrepMatch>,
    total: usize,
    files: Vec<String>,
    skipped: Vec<String>,
}

impl View for Search {
    type V = SearchView;

    closed spec fn view(&self) -> SearchView {
        SearchView {
            matches: self.matches@.map_values(|m: GrepMatch| match_view(m)),
            total: self.total as nat,
            files: strs_view(self.files@).to_set(),
            skipped: strs_view(self.skipped@),
        }
    }
}

impl Search {
    pub closed spec fn pattern_source(&self) -> Seq<char> {
        self.pattern.source()
    }

    pub closed spec fn pattern_folds_case(&self) -> bool {
        self.pattern.folds_case()
    }

    /// The glob a file's path must match, where one was given.
    pub closed spec fn glob(&self) -> Option<Seq<char>> {
        self.paths.glob()
    }

    /// The glob that leaves a path out, where one was given.
    pub closed spec fn exclude(&self) -> Option<Seq<char>> {
        self.paths.exclude()
    }

    pub closed spec fn cap(&self) -> nat {
        self.max_results as nat
    }

    pub closed spec fn context(&self) -> nat {
        self.context_lines as nat
    }

    /// Each file with a hit is recorded once.
    pub closed spec fn distinct_files(&self) -> bool {
        strs_view(self.files@).no_duplicates()
    }

    pub closed spec fn wf(&self) -> bool {
        &&& self.total < MAX_COUNTED
        &&& self.matches@.len() <= self.total
        &&& self.max_results <= MAX_RESULTS
        &&& strs_view(self.files@).no_duplicates()
    }

    /// A search for `pattern` in the files that pass `glob` and `exclude`,
    /// with the hit cap and context the model asked for, clamped; or, for a
    /// pattern that does not compile, its error, and after that, for a glob
    /// that does not, the glob's.
    pub fn new(
        pattern: &str,
        case_insensitive: Option<bool>,
        max_results: Option<usize>,
        context_lines: Option<usize>,
        glob: Option<&str>,
        exclude: Option<&str>,
    ) -> (r: Result<Search, ToolError>)
        ensures
            match r {
                Ok(s) => {
                    &&& s.distinct_files()
                    &&& s.glob() == given_pattern(glob)
                    &&& s.exclude() == given_pattern(exclude)
                    &&& filter_error(given_pattern(glob), given_pattern(exclude)) is None
                    &&& s.wf()
                    &&& s@.matches.len() == 0
                    &&& s@.total == 0
                    &&& s@.files.is_empty()
                    &&& s@.skipped.len() == 0
                    &&& s.pattern_source() == pattern@
                    &&& s.pattern_folds_case() == (case_insensitive == Some(true))
                    &&& regex_build_error(pattern@, case_insensitive == Some(true)) is None
                    &&& s.cap() == result_cap(max_results)
                    &&& s.context() == context_cap(context_lines)
                },
                Err(e) => match regex_build_error(pattern@, case_insensitive == Some(true)) {
                    Some(m) => e matches ToolError::InvalidRegex(t) && t@ == m,
                    None => e matches ToolError::InvalidPattern(t) && filter_error(
                        given_pattern(glob),
                        given_pattern(exclude),
                    ) == Some(t@),
                },
            },
    {
        let fold = match case_insensitive {
            Some(b) => b,
            None => false,
        };
        let asked = match max_results {
            Some(m) => m,
            None => DEFAULT_RESULTS,
        };
        let cap = if asked < 1 { 1 } else if asked > MAX_RESULTS { MAX_RESULTS } else { asked };
        let context = match context_lines {
            Some(c) => if c > MAX_CONTEXT_LINES { MAX_CONTEXT_LINES } else { c },
            None => 0,
        };
        let p = match build_pattern(pattern, fold) {
            Ok(p) => p,
            Err(m) => {
                return Err(ToolError::InvalidRegex(m));
            },
        };
        let paths = match PathFilter::new(glob, exclude) {
            Ok(f) => f,
            Err(m) => {
                return Err(ToolError::InvalidPattern(m));
            },
        };
        let s = Search {
            pattern: p,
            paths,
            max_results: cap,
            context_lines: context,
            matches: Vec::new(),
            total: 0,
            files: Vec::new(),
            skipped: Vec::new(),
        };
        assert(s@.matches =~= Seq::<MatchView>::empty());
        assert(s@.files =~= Set::<Seq<char>>::empty());
        Ok(s)
    }

    /// Every hit counted so far, kept or not.
    pub fn total(&self) -> (t: usize)
        ensures
            t == self@.total,
    {
        self.total
    }

    fn note_file(&mut self, path: &str)
        requires
            strs_view(old(self).files@).no_duplicates(),
        ensures
            strs_view(final(self).files@).no_duplicates(),
            final(self)@ == (SearchView { files: old(self)@.files.insert(path@), ..old(self)@ }),
            final(self).pattern == old(self).pattern,
            final(self).paths == old(self).paths,
            final(self).max_results == old(self).max_results,
            final(self).context_lines == old(self).context_lines,
            final(self).matches == old(self).matches,
            final(self).total == old(self).total,
    {
        let mut i: usize = 0;
        while i < self.files.len()
            invariant
                i <= self.files@.len(),
                forall|j: int| 0 <= j < i ==> self.files@[j]@ != path@,
                strs_view(self.files@).no_duplicates(),
            decreases self.files.len() - i,
        {
            if str_eq(self.files[i].as_str(), path) {
                proof {
                    assert(strs_view(self.files@)[i as int] == path@);
                    assert(strs_view(self.files@).to_set().contains(path@));
                    assert(strs_view(self.files@).to_set().insert(path@) =~= strs_view(self.files@).to_set());
                }
                return ;
            }
            i = i + 1;
        }
        let ghost before = strs_view(self.files@);
        let mut owned = String::new();
        owned.append(path);
        self.files.push(owned);
        proof {
            assert(strs_view(self.files@) =~= before.push(path@));
            before.lemma_push_to_set_commute(path@);
            assert forall|j: int, k: int|
                0 <= j < strs_view(self.files@).len() && 0 <= k < strs_view(self.files@).len() && j != k implies strs_view(
                self.files@,
            )[j] != strs_view(self.files@)[k] by {
                if j < before.len() && k < before.len() {
                    assert(before[j] != before[k]);
                }
            }
        }
    }

    fn skip(&mut self, path: &str)
        ensures
            final(self)@ == (SearchView { skipped: old(self)@.skipped.push(path@), ..old(self)@ }),
            final(self).pattern == old(self).pattern,
            final(self).paths == old(self).paths,
            final(self).max_results == old(self).max_results,
            final(self).context_lines == old(self).context_lines,
            final(self).total == old(self).total,
            final(self).matches == old(self).matches,
            final(self).files == old(self).files,
    {
        let mut owned = String::new();
        owned.append(path);
        let ghost before = strs_view(self.skipped@);
        self.skipped.push(owned);
        assert(strs_view(self.skipped@) =~= before.push(path@));
    }

    /// Searches one file, `path` relative to the root, of `size` bytes on
    /// disk and with the bytes `bytes`; a file the path filter refuses is
    /// passed over.
    pub fn file(&mut self, path: &str, size: u64, bytes: &[u8])
        requires
            old(self).wf(),
            bytes@.len() < u32::MAX,
        ensures
            final(self).wf() || final(self)@.total == MAX_COUNTED,
            final(self).distinct_files(),
            final(self)@ == if path_allowed(old(self).glob(), old(self).exclude(), path@) {
                search_file(
                    old(self)@,
                    old(self).pattern_source(),
                    old(self).pattern_folds_case(),
                    path@,
                    size,
                    bytes@,
                    old(self).cap(),
                    old(self).context(),
                )
            } else {
                old(self)@
            },
            final(self).glob() == old(self).glob(),
            final(self).exclude() == old(self).exclude(),
            final(self).pattern_source() == old(self).pattern_source(),
            final(self).pattern_folds_case() == old(self).pattern_folds_case(),
            final(self).cap() == old(self).cap(),
            final(self).context() == old(self).context(),
    {
        if !self.paths.allows(path) {
            return ;
        }
        if size > MAX_FILE_BYTES {
            self.skip(path);
            return ;
        }
        if has_nul_prefix(bytes) {
            return ;
        }
        let text = match utf8_text(bytes) {
            Some(t) => t,
            None => {
                self.skip(path);
                return ;
            },
        };
        proof {
            lemma_decoded_lines_fit(bytes@);
        }
        let chars = chars_of(text.as_str());
        let ls = lines_of(chars.as_slice());
        self.scan(path, &ls);
    }

    fn scan(&mut self, path: &str, ls: &Vec<Vec<char>>)
        requires
            old(self).wf(),
            ls@.len() < u32::MAX,
        ensures
            final(self).wf() || final(self)@.total == MAX_COUNTED,
            final(self).distinct_files(),
            final(self)@ == scan_lines(
                old(self)@,
                old(self).pattern_source(),
                old(self).pattern_folds_case(),
                path@,
                chars_view(ls@),
                0,
                old(self).cap(),
                old(self).context(),
            ),
            final(self).pattern == old(self).pattern,
            final(self).paths == old(self).paths,
            final(self).max_results == old(self).max_results,
            final(self).context_lines == old(self).context_lines,
    {
        let ghost lv = chars_view(ls@);
        let ghost start = self@;
        let ghost pat = self.pattern_source();
        let ghost fold = self.pattern_folds_case();
        let ghost cap = self.cap();
        let ghost ctx = self.context();
        let mut i: usize = 0;
        while i < ls.len()
            invariant
                i <= ls@.len(),
                ls@.len() < u32::MAX,
                lv == chars_view(ls@),
                self.wf(),
                pat == self.pattern_source(),
                fold == self.pattern_folds_case(),
                cap == self.cap(),
                ctx == self.context(),
                self.pattern == old(self).pattern,
                self.paths == old(self).paths,
                self.max_results == old(self).max_results,
                self.context_lines == old(self).context_lines,
                start == old(self)@,
                pat == old(self).pattern_source(),
                fold == old(self).pattern_folds_case(),
                cap == old(self).cap(),
                ctx == old(self).context(),
                scan_lines(start, pat, fold, path@, lv, 0, cap, ctx) == scan_lines(
                    self@,
                    pat,
                    fold,
                    path@,
                    lv,
                    i as int,
                    cap,
                    ctx,
                ),
            decreases ls.len() - i,
        {
            let line = text_of(ls[i].as_slice());
            if is_match(&self.pattern, line.as_str()) {
                let ghost s = self@;
                self.total = self.total + 1;
                self.note_file(path);
                proof {
                    assert(line@ == lv[i as int]);
                    assert(self@ == (SearchView { total: s.total + 1, files: s.files.insert(path@), ..s }));
                }
                if self.total >= MAX_COUNTED {
                    return ;
                }
                if self.matches.len() < self.max_results {
                    let from = if i >= self.context_lines { i - self.context_lines } else { 0 };
                    let to = if ls.len() - (i + 1) >= self.context_lines {
                        i + 1 + self.context_lines
                    } else {
                        ls.len()
                    };
                    let before = truncated_range(ls, from, i);
                    let after = truncated_range(ls, i + 1, to);
                    let mut owned = String::new();
                    owned.append(path);
                    let m = GrepMatch {
                        path: owned,
                        line: (i + 1) as u32,
                        text: truncate(&ls[i]),
                        before,
                        after,
                    };
                    proof {
                        assert(match_view(m) == hit_at(path@, lv, i as int, ctx));
                        assert(self.matches@.push(m).map_values(|m: GrepMatch| match_view(m)) =~= self@.matches.push(
                            match_view(m),
                        ));
                    }
                    self.matches.push(m);
                }
            }
            i = i + 1;
        }
    }

    /// The search's result: the hits kept, whether any hit was left out,
    /// every hit counted and the files they are in, whether counting
    /// stopped at [`MAX_COUNTED`], and the files that could not be searched.
    pub fn finish(self) -> (r: ToolResult)
        requires
            self.distinct_files(),
        ensures
            r matches ToolResult::GrepResults { matches, truncated, total, total_files, total_is_floor, skipped } && {
                &&& matches@.map_values(|m: GrepMatch| match_view(m)) == self@.matches
                &&& truncated == (self@.total > self@.matches.len())
                &&& total == self@.total
                &&& total_files == self@.files.len()
                &&& total_is_floor == (self@.total >= MAX_COUNTED)
                &&& strs_view(skipped@) == self@.skipped
            },
    {
        proof {
            strs_view(self.files@).unique_seq_to_set();
        }
        let truncated = self.total > self.matches.len();
        let total_files = self.files.len();
        let total_is_floor = self.total >= MAX_COUNTED;
        ToolResult::GrepResults {
            matches: self.matches,
            truncated,
            total: self.total,
            total_files,
            total_is_floor,
            skipped: self.skipped,
        }
    }

    /// The files that were skipped, by their paths relative to the root.
    pub fn skipped(&self) -> (s: &Vec<String>)
        ensures
            strs_view(s@) == self@.skipped,
    {
        &self.skipped
    }
}

pub(crate) fn has_nul_prefix(bytes: &[u8]) -> (r: bool)
    ensures
        r == looks_binary(bytes@),
{
    let sniff = if bytes.len() < BINARY_SNIFF_BYTES { bytes.len() } else { BINARY_SNIFF_BYTES };
    let mut k: usize = 0;
    while k < sniff
        invariant
            k <= sniff <= bytes@.len(),
            sniff == bytes@.len() || sniff == BINARY_SNIFF_BYTES,
            sniff <= BINARY_SNIFF_BYTES,
            forall|j: int| 0 <= j < k ==> bytes@[j] != 0,
        decreases sniff - k,
    {
        if bytes[k] == 0 {
            return true;
        }
        k = k + 1;
    }
    false
}

proof fn lemma_decoded_lines_fit(bytes: Seq<u8>)
    requires
        valid_utf8(bytes),
        bytes.len() < u32::MAX,
    ensures
        lines(decode_utf8(bytes)).len() < u32::MAX,
{
    crate::text::lemma_lines_len(decode_utf8(bytes));
    lemma_decode_shorter(bytes);
}

proof fn lemma_decode_shorter(bytes: Seq<u8>)
    requires
        valid_utf8(bytes),
    ensures
        decode_utf8(bytes).len() <= bytes.len(),
    decreases bytes.len(),
{
    if bytes.len() > 0 {
        let n = vstd::utf8::length_of_first_scalar(bytes);
        assert(1 <= n <= bytes.len());
        lemma_decode_shorter(vstd::utf8::pop_first_scalar(bytes));
    }
}

/// Scanning a file keeps at most `max_results` hits in all, counts every hit
/// it keeps, and only adds to what was found before.
pub proof fn law_hits_are_capped_and_all_counted(
    s: SearchView,
    pattern: Seq<char>,
    fold: bool,
    path: Seq<char>,
    ls: Seq<Seq<char>>,
    i: int,
    max_results: nat,
    context: nat,
)
    requires
        s.matches.len() <= max_results,
        s.matches.len() <= s.total,
    ensures
        ({
            let r = scan_lines(s, pattern, fold, path, ls, i, max_results, context);
            &&& r.matches.len() <= max_results
            &&& r.matches.len() <= r.total
            &&& s.total <= r.total
            &&& s.matches.len() <= r.matches.len()
            &&& r.matches.subrange(0, s.matches.len() as int) == s.matches
            &&& r.skipped == s.skipped
        }),
    decreases ls.len() - i,
{
    if 0 <= i < ls.len() {
        if !regex_is_match(pattern, fold, ls[i]) {
            law_hits_are_capped_and_all_counted(s, pattern, fold, path, ls, i + 1, max_results, context);
        } else {
            let counted = SearchView { total: s.total + 1, files: s.files.insert(path), ..s };
            if counted.total >= MAX_COUNTED {
                assert(counted.matches.subrange(0, s.matches.len() as int) =~= s.matches);
            } else if s.matches.len() >= max_results {
                law_hits_are_capped_and_all_counted(counted, pattern, fold, path, ls, i + 1, max_results, context);
            } else {
                let kept = SearchView { matches: counted.matches.push(hit_at(path, ls, i, context)), ..counted };
                law_hits_are_capped_and_all_counted(kept, pattern, fold, path, ls, i + 1, max_results, context);
                let r = scan_lines(kept, pattern, fold, path, ls, i + 1, max_results, context);
                assert(kept.matches.subrange(0, s.matches.len() as int) =~= s.matches);
                assert(r.matches.subrange(0, s.matches.len() as int) =~= r.matches.subrange(
                    0,
                    kept.matches.len() as int,
                ).subrange(0, s.matches.len() as int));
            }
        }
    } else {
        assert(s.matches.subrange(0, s.matches.len() as int) =~= s.matches);
    }
}

} // verus!
