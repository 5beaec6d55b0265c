//! The last step of a code search: from the ranked candidates to the hits
//! the model is given, and what the search says about its own answer.
//!
//! Ranking (names first, then words and meaning fused by reciprocal rank) is
//! arithmetic on floating-point scores and runs in the caller; so does
//! reading each candidate's passage back from disk. Here a candidate arrives
//! as its chunk id, its file, whether it is documentation, and its passage
//! as it reads now (none where the file changed since it was indexed);
//! whether the path filter lets it through is judged here.

use vstd::prelude::*;

use crate::listing::{PathFilter, path_allowed};
use crate::resolve::owned_text;
use crate::text::{decimal, is_blank, join, push_decimal, str_eq, strs_view, trim};
use crate::tool_types::{CodeMatch, MatchSource};

verus! {

/// How many hits a search returns when the model does not say.
pub const DEFAULT_TOP_K: usize = 10;

/// The most hits one search returns.
pub const MAX_TOP_K: usize = 50;

/// Wordings one search takes: the question and up to three rewordings.
pub const MAX_QUERIES: usize = 4;

/// How many passages of one file a result lists before other files get
/// their turn.
pub const MAX_PER_FILE: usize = 2;

/// Candidates each ranking is asked for, per hit wanted.
pub const CANDIDATES_PER_MATCH: usize = 2;

/// How many times more candidates a filtered search asks for, since the
/// filter drops some.
pub const FILTERED_SLACK: usize = 2;

// ----- before ranking -----

pub open spec fn not_blank(q: Seq<char>) -> bool {
    trim(q).len() > 0
}

/// The wordings a search runs: the ones that are not blank, the first
/// [`MAX_QUERIES`] of them.
pub open spec fn spec_wordings(queries: Seq<Seq<char>>) -> Seq<Seq<char>> {
    let nb = queries.filter(|q: Seq<char>| not_blank(q));
    if nb.len() > MAX_QUERIES {
        nb.take(MAX_QUERIES as int)
    } else {
        nb
    }
}

pub fn wordings(queries: &Vec<String>) -> (out: Vec<String>)
    ensures
        strs_view(out@) == spec_wordings(strs_view(queries@)),
{
    let ghost qv = strs_view(queries@);
    let ghost pred = |q: Seq<char>| not_blank(q);
    let mut out: Vec<String> = Vec::new();
    let mut i: usize = 0;
    while i < queries.len() && out.len() < MAX_QUERIES
        invariant
            i <= queries@.len(),
            qv == strs_view(queries@),
            pred == (|q: Seq<char>| not_blank(q)),
            strs_view(out@) == qv.take(i as int).filter(pred),
            out@.len() <= MAX_QUERIES,
        decreases queries.len() - i,
    {
        proof {
            assert(qv.take(i + 1) =~= qv.take(i as int).push(qv[i as int]));
            qv.take(i as int).lemma_filter_push(qv[i as int], pred);
        }
        if !is_blank(queries[i].as_str()) {
            let ghost before = strs_view(out@);
            out.push(owned_text(queries[i].as_str()));
            assert(strs_view(out@) =~= before.push(qv[i as int]));
        }
        i = i + 1;
    }
    proof {
        let nb = qv.filter(pred);
        if i == queries.len() {
            assert(qv.take(i as int) =~= qv);
        } else {
            assert(out@.len() == MAX_QUERIES);
            assert(qv =~= qv.take(i as int) + qv.skip(i as int));
            assert(qv.take(i as int).filter(pred) + qv.skip(i as int).filter(pred) == nb) by {
                Seq::filter_distributes_over_add(qv.take(i as int), qv.skip(i as int), pred);
            }
            assert(nb.take(MAX_QUERIES as int) =~= qv.take(i as int).filter(pred));
        }
    }
    out
}

/// What a search asks its rankings for: the hits wanted, `top_k` clamped to
/// 1 ..= [`MAX_TOP_K`], and the candidates per ranking, twice as many where
/// a filter (documentation left out, or paths) will drop some.
pub fn search_sizes(top_k: usize, include_docs: bool, paths_filtered: bool) -> (r: (usize, usize))
    ensures
        r.0 == if top_k < 1 {
            1
        } else if top_k > MAX_TOP_K {
            MAX_TOP_K
        } else {
            top_k
        },
        r.1 == r.0 * CANDIDATES_PER_MATCH * if !include_docs || paths_filtered {
            FILTERED_SLACK
        } else {
            1
        },
{
    let k = if top_k < 1 {
        1
    } else if top_k > MAX_TOP_K {
        MAX_TOP_K
    } else {
        top_k
    };
    let slack = if !include_docs || paths_filtered {
        FILTERED_SLACK
    } else {
        1
    };
    (k, k * CANDIDATES_PER_MATCH * slack)
}

/// The tiers a search says it used, and why search by meaning is
/// unavailable, if it is: names and words always; meaning where any
/// wording found something by it. Where none did, the reason is the
/// search's own failure (`search_error`), else the last sync's
/// (`embedding_error`).
pub fn meaning_tier(any_semantic: bool, search_error: Option<String>, embedding_error: Option<String>) -> (r: (
    Vec<MatchSource>,
    Option<String>,
))
    ensures
        r.0@ == if any_semantic {
            seq![MatchSource::Symbol, MatchSource::Lexical, MatchSource::Semantic]
        } else {
            seq![MatchSource::Symbol, MatchSource::Lexical]
        },
        r.1 == if any_semantic || search_error is Some {
            search_error
        } else {
            embedding_error
        },
{
    let mut tiers = vec![MatchSource::Symbol, MatchSource::Lexical];
    if any_semantic {
        tiers.push(MatchSource::Semantic);
        (tiers, search_error)
    } else if search_error.is_some() {
        (tiers, search_error)
    } else {
        (tiers, embedding_error)
    }
}

/// One ranked candidate, best first.
pub struct Candidate {
    pub id: String,
    pub path: String,
    /// Whether the path filter lets the file through; [`judge`] sets it.
    pub allowed: bool,
    pub is_documentation: bool,
    pub found: Option<CodeMatch>,
}

/// The selection so far: the chunks seen, the hits kept, those held back
/// because their file already has [`MAX_PER_FILE`], and how many were left
/// out by the documentation and path filters.
pub struct Selection {
    pub seen: Seq<Seq<char>>,
    pub kept: Seq<CodeMatch>,
    pub later: Seq<CodeMatch>,
    pub docs_left_out: nat,
    pub paths_left_out: nat,
}

/// How many kept hits are from the file `path`.
pub open spec fn kept_from(kept: Seq<CodeMatch>, path: Seq<char>) -> nat
    decreases kept.len(),
{
    if kept.len() == 0 {
        0
    } else {
        kept_from(kept.drop_last(), path) + if kept.last().path@ == path { 1nat } else { 0nat }
    }
}

/// One candidate considered: a chunk already seen is passed over; one the
/// path filter refuses, or documentation when it is left out, is counted as
/// left out; one whose file changed is dropped; otherwise it is kept, unless
/// its file already has [`MAX_PER_FILE`] kept hits and it was not found by
/// name, in which case it waits for room at the end.
pub open spec fn consider(s: Selection, c: Candidate, include_docs: bool) -> Selection {
    if s.seen.contains(c.id@) {
        s
    } else {
        let s1 = Selection { seen: s.seen.push(c.id@), ..s };
        if !c.allowed {
            Selection { paths_left_out: s1.paths_left_out + 1, ..s1 }
        } else if !include_docs && c.is_documentation {
            Selection { docs_left_out: s1.docs_left_out + 1, ..s1 }
        } else {
            match c.found {
                None => s1,
                Some(m) => if kept_from(s1.kept, m.path@) >= MAX_PER_FILE && m.source != MatchSource::Symbol {
                    Selection { later: s1.later.push(m), ..s1 }
                } else {
                    Selection { kept: s1.kept.push(m), ..s1 }
                },
            }
        }
    }
}

/// The candidates from `i` on, considered in order until `top_k` are kept.
pub open spec fn select_from(ranked: Seq<Candidate>, i: int, s: Selection, top_k: nat, include_docs: bool) -> Selection
    decreases ranked.len() - i,
{
    if i < 0 || i >= ranked.len() || s.kept.len() >= top_k {
        s
    } else {
        select_from(ranked, i + 1, consider(s, ranked[i], include_docs), top_k, include_docs)
    }
}

pub open spec fn empty_selection() -> Selection {
    Selection { seen: seq![], kept: seq![], later: seq![], docs_left_out: 0, paths_left_out: 0 }
}

/// The hits of a search: those kept, then those held back, as far as room
/// is left.
pub open spec fn spec_select(ranked: Seq<Candidate>, top_k: nat, include_docs: bool) -> (Seq<CodeMatch>, nat, nat) {
    let s = select_from(ranked, 0, empty_selection(), top_k, include_docs);
    let room = if s.kept.len() <= top_k { top_k - s.kept.len() } else { 0 };
    let extra = if s.later.len() <= room { s.later.len() as int } else { room as int };
    (s.kept + s.later.subrange(0, extra), s.docs_left_out, s.paths_left_out)
}

fn contains_id(seen: &Vec<String>, id: &str) -> (r: bool)
    ensures
        r == crate::text::strs_view(seen@).contains(id@),
{
    let mut i: usize = 0;
    while i < seen.len()
        invariant
            i <= seen@.len(),
            forall|j: int| 0 <= j < i ==> seen@[j]@ != id@,
        decreases seen.len() - i,
    {
        if str_eq(seen[i].as_str(), id) {
            assert(crate::text::strs_view(seen@)[i as int] == id@);
            return true;
        }
        i = i + 1;
    }
    false
}

fn count_from(kept: &Vec<CodeMatch>, path: &str) -> (n: usize)
    ensures
        n == kept_from(kept@, path@),
{
    let mut n: usize = 0;
    let mut i: usize = 0;
    while i < kept.len()
        invariant
            i <= kept@.len(),
            n == kept_from(kept@.subrange(0, i as int), path@),
            n <= i,
        decreases kept.len() - i,
    {
        assert(kept@.subrange(0, i + 1).drop_last() =~= kept@.subrange(0, i as int));
        if str_eq(kept[i].path.as_str(), path) {
            n = n + 1;
        }
        i = i + 1;
    }
    assert(kept@.subrange(0, kept@.len() as int) =~= kept@);
    n
}

/// Picks the hits from the ranked candidates: at most `top_k`, each chunk
/// once, at most [`MAX_PER_FILE`] from one file before every other file has
/// had its turn (a hit found by name is exempt). Also says how many
/// candidates the documentation filter and the path filter left out.
pub fn select_matches(ranked: Vec<Candidate>, top_k: usize, include_docs: bool) -> (r: (Vec<CodeMatch>, usize, usize))
    requires
        forall|i: int| 0 <= i < ranked@.len() ==> found_here(#[trigger] ranked@[i]),
    ensures
        (r.0@, r.1 as nat, r.2 as nat) == spec_select(ranked@, top_k as nat, include_docs),
        forall|k: int| 0 <= k < r.0@.len() ==> passes(ranked@, include_docs, #[trigger] r.0@[k]),
{
    let ghost all = ranked@;
    let n = ranked.len();
    let mut rest = ranked;
    let mut seen: Vec<String> = Vec::new();
    let mut kept: Vec<CodeMatch> = Vec::new();
    let mut later: Vec<CodeMatch> = Vec::new();
    let mut docs: usize = 0;
    let mut paths: usize = 0;
    assert(rest@ =~= all.subrange(0, n as int));
    assert(crate::text::strs_view(seen@) =~= Seq::<Seq<char>>::empty());
    while rest.len() > 0 && kept.len() < top_k
        invariant
            n == all.len(),
            rest@.len() <= n,
            rest@ == all.subrange(n - rest@.len(), n as int),
            docs + paths <= seen@.len(),
            seen@.len() <= n - rest@.len(),
            select_from(all, 0, empty_selection(), top_k as nat, include_docs) == select_from(
                all,
                n - rest@.len(),
                Selection {
                    seen: crate::text::strs_view(seen@),
                    kept: kept@,
                    later: later@,
                    docs_left_out: docs as nat,
                    paths_left_out: paths as nat,
                },
                top_k as nat,
                include_docs,
            ),
        decreases rest.len(),
    {
        let ghost i = n - rest@.len();
        let c = rest.remove(0);
        assert(c == all[i]);
        assert(rest@ =~= all.subrange(i + 1, n as int));
        if contains_id(&seen, c.id.as_str()) {
            continue;
        }
        let Candidate { id, path, allowed, is_documentation, found } = c;
        let ghost seen_before = crate::text::strs_view(seen@);
        seen.push(id);
        assert(crate::text::strs_view(seen@) =~= seen_before.push(c.id@));
        if !allowed {
            paths = paths + 1;
            continue;
        }
        if !include_docs && is_documentation {
            docs = docs + 1;
            continue;
        }
        match found {
            None => {},
            Some(m) => {
                let count = count_from(&kept, m.path.as_str());
                if count >= MAX_PER_FILE && m.source != MatchSource::Symbol {
                    later.push(m);
                } else {
                    kept.push(m);
                }
            },
        }
    }
    let ghost last = Selection {
        seen: crate::text::strs_view(seen@),
        kept: kept@,
        later: later@,
        docs_left_out: docs as nat,
        paths_left_out: paths as nat,
    };
    assert(select_from(all, n - rest@.len(), last, top_k as nat, include_docs) == last);
    let room = if kept.len() <= top_k { top_k - kept.len() } else { 0 };
    let mut out = kept;
    let ghost kept_part = out@;
    let mut k: usize = 0;
    let mut later_rest = later;
    let ghost held = later_rest@;
    while k < room && later_rest.len() > 0
        invariant
            later_rest@ == held.subrange(k as int, held.len() as int),
            k <= held.len(),
            k <= room,
            out@ == kept_part + held.subrange(0, k as int),
        decreases room - k,
    {
        let m = later_rest.remove(0);
        assert(held.subrange(0, k + 1) =~= held.subrange(0, k as int).push(m));
        assert(later_rest@ =~= held.subrange(k + 1, held.len() as int));
        out.push(m);
        k = k + 1;
    }
    assert(k == (if held.len() <= room { held.len() } else { room as nat }));
    proof {
        lemma_selected_pass(all, top_k as nat, include_docs);
    }
    (out, docs, paths)
}

/// The candidates with the path filter's verdict on each one's file.
pub open spec fn judged(ranked: Seq<Candidate>, glob: Option<Seq<char>>, exclude: Option<Seq<char>>) -> Seq<
    Candidate,
> {
    ranked.map_values(|c: Candidate| Candidate { allowed: path_allowed(glob, exclude, c.path@), ..c })
}

/// Sets each candidate's `allowed` to whether `filter` lets its file
/// through; nothing else changes.
pub fn judge(ranked: Vec<Candidate>, filter: &PathFilter) -> (out: Vec<Candidate>)
    ensures
        out@ == judged(ranked@, filter.glob(), filter.exclude()),
{
    let ghost all = ranked@;
    let ghost g = filter.glob();
    let ghost x = filter.exclude();
    let n = ranked.len();
    let mut rest = ranked;
    let mut out: Vec<Candidate> = Vec::new();
    assert(rest@ =~= all.subrange(0, n as int));
    while rest.len() > 0
        invariant
            n == all.len(),
            g == filter.glob(),
            x == filter.exclude(),
            rest@.len() <= n,
            rest@ == all.subrange(n - rest@.len(), n as int),
            out@ == judged(all.subrange(0, n - rest@.len()), g, x),
        decreases rest.len(),
    {
        let ghost i = n - rest@.len();
        let c = rest.remove(0);
        assert(c == all[i]);
        assert(rest@ =~= all.subrange(i + 1, n as int));
        let Candidate { id, path, allowed: _, is_documentation, found } = c;
        let allowed = filter.allows(path.as_str());
        let ghost before = out@;
        out.push(Candidate { id, path, allowed, is_documentation, found });
        assert(judged(all.subrange(0, i + 1), g, x) =~= judged(all.subrange(0, i), g, x).push(
            Candidate { allowed: path_allowed(g, x, c.path@), ..c },
        ));
    }
    assert(all.subrange(0, n as int) =~= all);
    out
}

/// [`select_matches`] over the candidates as `filter` judges them: every
/// hit's file passes the filter.
pub fn select_filtered(ranked: Vec<Candidate>, filter: &PathFilter, top_k: usize, include_docs: bool) -> (r: (
    Vec<CodeMatch>,
    usize,
    usize,
))
    requires
        forall|i: int| 0 <= i < ranked@.len() ==> found_here(#[trigger] ranked@[i]),
    ensures
        (r.0@, r.1 as nat, r.2 as nat) == spec_select(
            judged(ranked@, filter.glob(), filter.exclude()),
            top_k as nat,
            include_docs,
        ),
        forall|k: int| 0 <= k < r.0@.len() ==> path_allowed(filter.glob(), filter.exclude(), (#[trigger] r.0@[k]).path@),
{
    let ghost before = ranked@;
    let judged_ranked = judge(ranked, filter);
    assert forall|i: int| 0 <= i < judged_ranked@.len() implies found_here(#[trigger] judged_ranked@[i]) by {
        assert(found_here(before[i]));
    }
    let ghost js = judged_ranked@;
    let r = select_matches(judged_ranked, top_k, include_docs);
    assert forall|k: int| 0 <= k < r.0@.len() implies path_allowed(filter.glob(), filter.exclude(), (#[trigger] r.0@[k]).path@) by {
        assert(passes(js, include_docs, r.0@[k]));
        let j = choose|j: int|
            0 <= j < js.len() && (#[trigger] js[j]).allowed && (include_docs || !js[j].is_documentation)
                && js[j].found == Some(r.0@[k]) && js[j].path@ == r.0@[k].path@;
        assert(js[j].allowed == path_allowed(filter.glob(), filter.exclude(), before[j].path@));
    }
    r
}

/// A candidate's passage, where it has one, is of the file the filters
/// judged.
pub open spec fn found_here(c: Candidate) -> bool {
    c.found matches Some(m) ==> m.path@ == c.path@
}

/// `m` is the passage of a candidate that the path filter let through and
/// that is not documentation left out.
pub open spec fn passes(ranked: Seq<Candidate>, include_docs: bool, m: CodeMatch) -> bool {
    exists|j: int|
        0 <= j < ranked.len() && (#[trigger] ranked[j]).allowed && (include_docs || !ranked[j].is_documentation)
            && ranked[j].found == Some(m) && ranked[j].path@ == m.path@
}

pub open spec fn all_pass(ranked: Seq<Candidate>, include_docs: bool, ms: Seq<CodeMatch>) -> bool {
    forall|k: int| 0 <= k < ms.len() ==> passes(ranked, include_docs, #[trigger] ms[k])
}

proof fn lemma_select_from_passes(ranked: Seq<Candidate>, i: int, s: Selection, top_k: nat, include_docs: bool)
    requires
        forall|j: int| 0 <= j < ranked.len() ==> found_here(#[trigger] ranked[j]),
        all_pass(ranked, include_docs, s.kept),
        all_pass(ranked, include_docs, s.later),
    ensures
        all_pass(ranked, include_docs, select_from(ranked, i, s, top_k, include_docs).kept),
        all_pass(ranked, include_docs, select_from(ranked, i, s, top_k, include_docs).later),
    decreases ranked.len() - i,
{
    if !(i < 0 || i >= ranked.len() || s.kept.len() >= top_k) {
        let c = ranked[i];
        let s2 = consider(s, c, include_docs);
        assert(found_here(ranked[i]));
        match c.found {
            Some(m) => {
                if c.allowed && (include_docs || !c.is_documentation) {
                    assert(passes(ranked, include_docs, m));
                }
            },
            None => {},
        }
        assert forall|k: int| 0 <= k < s2.kept.len() implies passes(ranked, include_docs, #[trigger] s2.kept[k]) by {
            if k < s.kept.len() {
                assert(s2.kept[k] == s.kept[k]);
            }
        }
        assert forall|k: int| 0 <= k < s2.later.len() implies passes(ranked, include_docs, #[trigger] s2.later[k]) by {
            if k < s.later.len() {
                assert(s2.later[k] == s.later[k]);
            }
        }
        lemma_select_from_passes(ranked, i + 1, s2, top_k, include_docs);
    }
}

/// Every hit of a search is of a candidate the path filter let through,
/// and of one that is not documentation unless documentation was asked
/// for.
proof fn lemma_selected_pass(ranked: Seq<Candidate>, top_k: nat, include_docs: bool)
    requires
        forall|j: int| 0 <= j < ranked.len() ==> found_here(#[trigger] ranked[j]),
    ensures
        all_pass(ranked, include_docs, spec_select(ranked, top_k, include_docs).0),
{
    lemma_select_from_passes(ranked, 0, empty_selection(), top_k, include_docs);
    let s = select_from(ranked, 0, empty_selection(), top_k, include_docs);
    let room = if s.kept.len() <= top_k { top_k - s.kept.len() } else { 0 };
    let extra = if s.later.len() <= room { s.later.len() as int } else { room as int };
    let out = s.kept + s.later.subrange(0, extra);
    assert forall|k: int| 0 <= k < out.len() implies passes(ranked, include_docs, #[trigger] out[k]) by {
        if k < s.kept.len() {
            assert(out[k] == s.kept[k]);
        } else {
            assert(out[k] == s.later[k - s.kept.len()]);
        }
    }
}

/// A search never gives more hits than were asked for.
pub proof fn law_no_more_hits_than_asked(ranked: Seq<Candidate>, top_k: nat, include_docs: bool)
    ensures
        spec_select(ranked, top_k, include_docs).0.len() <= top_k,
{
    lemma_kept_bounded(ranked, 0, empty_selection(), top_k, include_docs);
}

proof fn lemma_kept_bounded(ranked: Seq<Candidate>, i: int, s: Selection, top_k: nat, include_docs: bool)
    requires
        s.kept.len() <= top_k,
    ensures
        select_from(ranked, i, s, top_k, include_docs).kept.len() <= top_k,
    decreases ranked.len() - i,
{
    if !(i < 0 || i >= ranked.len() || s.kept.len() >= top_k) {
        lemma_kept_bounded(ranked, i + 1, consider(s, ranked[i], include_docs), top_k, include_docs);
    }
}

/// What a search says when the question is in another language than the
/// code's.
pub open spec fn foreign_hint() -> Seq<char> {
    "The query is in another language than most code, and ranking across languages is weak. Search again with its English wording in queries — the question as the code would name it — and any identifier you can guess."@
}

pub open spec fn quoted(words: Seq<Seq<char>>) -> Seq<Seq<char>> {
    words.map_values(|w: Seq<char>| seq!['`'] + w + seq!['`'])
}

pub open spec fn absent_hint(words: Seq<Seq<char>>) -> Seq<char> {
    "No indexed file has the words "@ + join(quoted(words), ", "@)
        + ": what the query asks about may not be in this workspace. These are only the nearest passages, not an answer — check with grep before relying on one."@
}

pub open spec fn unavailable_hint(reason: Seq<char>) -> Seq<char> {
    "Search by meaning is unavailable ("@ + reason + "); these results matched on names and words only."@
}

pub open spec fn docs_hint(n: nat) -> Seq<char> {
    decimal(n) + " documentation "@ + (if n == 1 { "match"@ } else { "matches"@ }) + " "@ + (if n == 1 {
        "was"@
    } else {
        "were"@
    }) + " left out; search again with includeDocs if the answer may be in the docs."@
}

pub open spec fn paths_hint(n: nat) -> Seq<char> {
    "None of the "@ + decimal(n) + " best matches passed glob/exclude; widen them or search without them."@
}

/// What a search says about its own answer, from what the ranking found:
/// whether it is weak, and the hint. A question in another language gets its
/// own hint; words no indexed file has make the answer weak and say so; a
/// missing search by meaning outranks both; documentation left out is said
/// beside any hint; and where nothing passed the path filter, that is said
/// instead of everything else.
pub open spec fn spec_search_hint(
    weak: bool,
    hint: Option<Seq<char>>,
    foreign: bool,
    absent: Option<Seq<Seq<char>>>,
    unavailable: Option<Seq<char>>,
    docs_left_out: nat,
    paths_left_out: nat,
    no_matches: bool,
) -> (bool, Option<Seq<char>>) {
    let h0 = if foreign { Some(foreign_hint()) } else { hint };
    let (w1, h1) = match absent {
        Some(words) => (true, Some(absent_hint(words))),
        None => (weak, h0),
    };
    let h2 = match unavailable {
        Some(r) => Some(unavailable_hint(r)),
        None => h1,
    };
    let h3 = if docs_left_out == 0 {
        h2
    } else {
        match h2 {
            Some(h) => Some(h + " "@ + docs_hint(docs_left_out)),
            None => Some(docs_hint(docs_left_out)),
        }
    };
    let h4 = if no_matches && paths_left_out > 0 { Some(paths_hint(paths_left_out)) } else { h3 };
    (w1, h4)
}

fn push_docs_hint(out: &mut String, n: usize)
    requires
        n > 0,
    ensures
        final(out)@ == old(out)@ + docs_hint(n as nat),
{
    push_decimal(out, n as u128);
    out.append(" documentation ");
    if n == 1 {
        out.append("match");
    } else {
        out.append("matches");
    }
    out.append(" ");
    if n == 1 {
        out.append("was");
    } else {
        out.append("were");
    }
    out.append(" left out; search again with includeDocs if the answer may be in the docs.");
}

fn absent_text(words: &Vec<String>) -> (s: String)
    ensures
        s@ == absent_hint(strs_view(words@)),
{
    let mut q: Vec<String> = Vec::new();
    let mut i: usize = 0;
    while i < words.len()
        invariant
            i <= words@.len(),
            strs_view(q@) == quoted(strs_view(words@)).subrange(0, i as int),
        decreases words.len() - i,
    {
        let mut w = String::new();
        crate::text::push_char(&mut w, '`');
        w.append(words[i].as_str());
        crate::text::push_char(&mut w, '`');
        proof {
            assert(w@ =~= seq!['`'] + words@[i as int]@ + seq!['`']);
            assert(strs_view(q@.push(w)) =~= strs_view(q@).push(w@));
            assert(quoted(strs_view(words@)).subrange(0, i + 1) =~= quoted(strs_view(words@)).subrange(0, i as int).push(w@));
        }
        q.push(w);
        i = i + 1;
    }
    assert(quoted(strs_view(words@)).subrange(0, words@.len() as int) =~= quoted(strs_view(words@)));
    let mut s = String::new();
    s.append("No indexed file has the words ");
    crate::text::push_joined(&mut s, &q, ", ");
    s.append(
        ": what the query asks about may not be in this workspace. These are only the nearest passages, not an answer — check with grep before relying on one.",
    );
    s
}

pub open spec fn opt_text(o: Option<String>) -> Option<Seq<char>> {
    match o {
        Some(s) => Some(s@),
        None => None,
    }
}

pub open spec fn opt_words(o: Option<Vec<String>>) -> Option<Seq<Seq<char>>> {
    match o {
        Some(v) => Some(strs_view(v@)),
        None => None,
    }
}

/// Whether a search's answer is weak, and what it says about it; see
/// [`spec_search_hint`].
pub fn search_hint(
    weak: bool,
    hint: Option<String>,
    foreign: bool,
    absent: Option<Vec<String>>,
    unavailable: Option<String>,
    docs_left_out: usize,
    paths_left_out: usize,
    no_matches: bool,
) -> (r: (bool, Option<String>))
    ensures
        (r.0, opt_text(r.1)) == spec_search_hint(
            weak,
            opt_text(hint),
            foreign,
            opt_words(absent),
            opt_text(unavailable),
            docs_left_out as nat,
            paths_left_out as nat,
            no_matches,
        ),
{
    let h0 = if foreign {
        let mut t = String::new();
        t.append(
            "The query is in another language than most code, and ranking across languages is weak. Search again with its English wording in queries — the question as the code would name it — and any identifier you can guess.",
        );
        Some(t)
    } else {
        hint
    };
    let (w1, h1) = match absent {
        Some(words) => (true, Some(absent_text(&words))),
        None => (weak, h0),
    };
    let h2 = match unavailable {
        Some(r) => {
            let mut t = String::new();
            t.append("Search by meaning is unavailable (");
            t.append(r.as_str());
            t.append("); these results matched on names and words only.");
            Some(t)
        },
        None => h1,
    };
    let h3 = if docs_left_out == 0 {
        h2
    } else {
        match h2 {
            Some(h) => {
                let mut t = h;
                t.append(" ");
                push_docs_hint(&mut t, docs_left_out);
                Some(t)
            },
            None => {
                let mut t = String::new();
                push_docs_hint(&mut t, docs_left_out);
                Some(t)
            },
        }
    };
    let h4 = if no_matches && paths_left_out > 0 {
        let mut t = String::new();
        t.append("None of the ");
        push_decimal(&mut t, paths_left_out as u128);
        t.append(" best matches passed glob/exclude; widen them or search without them.");
        Some(t)
    } else {
        h3
    };
    (w1, h4)
}

} // verus!
