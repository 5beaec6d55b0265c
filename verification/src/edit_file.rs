//! `editFile` — anchored replacements inside a file's text.
//!
//! Exact and all-or-nothing. Every anchor is looked up in the file's original
//! content, never in the output of an earlier edit in the same call. An
//! anchor that matches nothing, matches more than once, cuts into a word, or
//! overlaps another edit's region rejects the whole call.

use vstd::prelude::*;

use crate::errors::{ErrorView, LineEnding, ToolError};
use crate::text::{
    char_alphanumeric, chars_of, chars_view, contains_exec, contains_seq, count_matches, find_from,
    first_occurrence, is_alphanumeric, lemma_first_occurrence, lemma_lines_len,
    lemma_trim_end_index, lines, lines_of, match_count, occurs_at, push_chars, slice_to_vec, text_of, trim,
    trim_chars, trim_end, trim_end_at,
};

verus! {

/// One anchored replacement: `old` must occur exactly once.
#[derive(Debug, Clone, PartialEq, Eq)]
pub struct FileEdit {
    pub old: String,
    pub new: String,
}

/// A letter, a digit, or `_`.
pub open spec fn is_word(c: char) -> bool {
    char_alphanumeric(c) || c == '_'
}

fn is_word_exec(c: char) -> (r: bool)
    ensures
        r == is_word(c),
{
    c == '_' || is_alphanumeric(c)
}

// ------------------------------------------------------------ line endings

pub open spec fn count_lf(s: Seq<char>, i: int) -> nat
    decreases s.len() - i,
{
    if i >= s.len() || i < 0 {
        0
    } else {
        (if s[i] == '\n' { 1nat } else { 0nat }) + count_lf(s, i + 1)
    }
}

pub open spec fn count_crlf(s: Seq<char>, i: int) -> nat
    decreases s.len() - i,
{
    if i >= s.len() || i < 0 {
        0
    } else {
        (if s[i] == '\r' && i + 1 < s.len() && s[i + 1] == '\n' { 1nat } else { 0nat }) + count_crlf(
            s,
            i + 1,
        )
    }
}

/// The file's line ending, when every line break in it is the same one.
pub open spec fn spec_line_ending(s: Seq<char>) -> Option<LineEnding> {
    let crlf = count_crlf(s, 0);
    let lf = count_lf(s, 0);
    if lf == 0 {
        None
    } else if crlf == 0 {
        Some(LineEnding::Lf)
    } else if crlf == lf {
        Some(LineEnding::Crlf)
    } else {
        None
    }
}

fn line_ending(s: &[char]) -> (e: Option<LineEnding>)
    ensures
        e == spec_line_ending(s@),
{
    let mut lf: usize = 0;
    let mut crlf: usize = 0;
    let mut i = s.len();
    while i > 0
        invariant
            i <= s@.len(),
            lf == count_lf(s@, i as int),
            crlf == count_crlf(s@, i as int),
            lf <= s@.len() - i,
            crlf <= s@.len() - i,
        decreases i,
    {
        i = i - 1;
        if s[i] == '\n' {
            lf = lf + 1;
        }
        if s[i] == '\r' && i + 1 < s.len() && s[i + 1] == '\n' {
            crlf = crlf + 1;
        }
    }
    if lf == 0 {
        None
    } else if crlf == 0 {
        Some(LineEnding::Lf)
    } else if crlf == lf {
        Some(LineEnding::Crlf)
    } else {
        None
    }
}

/// Every `\r\n` made `\n`.
pub open spec fn crlf_to_lf(s: Seq<char>) -> Seq<char>
    decreases s.len(),
{
    if s.len() == 0 {
        s
    } else if s.len() >= 2 && s[0] == '\r' && s[1] == '\n' {
        seq!['\n'] + crlf_to_lf(s.subrange(2, s.len() as int))
    } else {
        seq![s[0]] + crlf_to_lf(s.subrange(1, s.len() as int))
    }
}

/// Every `\n` made `\r\n`.
pub open spec fn lf_to_crlf(s: Seq<char>) -> Seq<char>
    decreases s.len(),
{
    if s.len() == 0 {
        s
    } else if s[0] == '\n' {
        seq!['\r', '\n'] + lf_to_crlf(s.subrange(1, s.len() as int))
    } else {
        seq![s[0]] + lf_to_crlf(s.subrange(1, s.len() as int))
    }
}

/// `text` with its line breaks made the file's own, when the file has one.
pub open spec fn in_endings(text: Seq<char>, ending: Option<LineEnding>) -> Seq<char> {
    match ending {
        Some(LineEnding::Crlf) => if text.contains('\n') {
            lf_to_crlf(crlf_to_lf(text))
        } else {
            text
        },
        Some(LineEnding::Lf) => if text.contains('\r') {
            crlf_to_lf(text)
        } else {
            text
        },
        None => text,
    }
}

fn crlf_to_lf_exec(s: &[char]) -> (out: Vec<char>)
    ensures
        out@ == crlf_to_lf(s@),
{
    let mut out: Vec<char> = Vec::new();
    let mut i: usize = 0;
    assert(s@.subrange(0, s@.len() as int) =~= s@);
    assert(out@ + crlf_to_lf(s@) =~= crlf_to_lf(s@));
    while i < s.len()
        invariant
            i <= s@.len(),
            out@ + crlf_to_lf(s@.subrange(i as int, s@.len() as int)) == crlf_to_lf(s@),
        decreases s.len() - i,
    {
        let ghost rest = s@.subrange(i as int, s@.len() as int);
        if s[i] == '\r' && i + 1 < s.len() && s[i + 1] == '\n' {
            proof {
                assert(rest.subrange(2, rest.len() as int) =~= s@.subrange(i + 2, s@.len() as int));
                assert(out@.push('\n') + crlf_to_lf(s@.subrange(i + 2, s@.len() as int)) =~= out@
                    + crlf_to_lf(rest));
            }
            out.push('\n');
            i = i + 2;
        } else {
            proof {
                assert(rest.subrange(1, rest.len() as int) =~= s@.subrange(i + 1, s@.len() as int));
                assert(out@.push(s@[i as int]) + crlf_to_lf(s@.subrange(i + 1, s@.len() as int))
                    =~= out@ + crlf_to_lf(rest));
            }
            out.push(s[i]);
            i = i + 1;
        }
    }
    proof {
        assert(s@.subrange(i as int, s@.len() as int) =~= Seq::<char>::empty());
        assert(out@ + Seq::<char>::empty() =~= out@);
    }
    out
}

fn lf_to_crlf_exec(s: &[char]) -> (out: Vec<char>)
    ensures
        out@ == lf_to_crlf(s@),
{
    let mut out: Vec<char> = Vec::new();
    let mut i: usize = 0;
    assert(s@.subrange(0, s@.len() as int) =~= s@);
    assert(out@ + lf_to_crlf(s@) =~= lf_to_crlf(s@));
    while i < s.len()
        invariant
            i <= s@.len(),
            out@ + lf_to_crlf(s@.subrange(i as int, s@.len() as int)) == lf_to_crlf(s@),
        decreases s.len() - i,
    {
        let ghost rest = s@.subrange(i as int, s@.len() as int);
        proof {
            assert(rest.subrange(1, rest.len() as int) =~= s@.subrange(i + 1, s@.len() as int));
        }
        if s[i] == '\n' {
            proof {
                assert(out@.push('\r').push('\n') + lf_to_crlf(s@.subrange(i + 1, s@.len() as int))
                    =~= out@ + lf_to_crlf(rest));
            }
            out.push('\r');
            out.push('\n');
        } else {
            proof {
                assert(out@.push(s@[i as int]) + lf_to_crlf(s@.subrange(i + 1, s@.len() as int))
                    =~= out@ + lf_to_crlf(rest));
            }
            out.push(s[i]);
        }
        i = i + 1;
    }
    proof {
        assert(s@.subrange(i as int, s@.len() as int) =~= Seq::<char>::empty());
        assert(out@ + Seq::<char>::empty() =~= out@);
    }
    out
}

fn contains_char(s: &[char], c: char) -> (r: bool)
    ensures
        r == s@.contains(c),
{
    let mut i: usize = 0;
    while i < s.len()
        invariant
            i <= s@.len(),
            forall|j: int| 0 <= j < i ==> s@[j] != c,
        decreases s.len() - i,
    {
        if s[i] == c {
            return true;
        }
        i = i + 1;
    }
    false
}

fn in_endings_exec(text: &[char], ending: Option<LineEnding>) -> (out: Vec<char>)
    ensures
        out@ == in_endings(text@, ending),
{
    match ending {
        Some(LineEnding::Crlf) => {
            if contains_char(text, '\n') {
                let lf = crlf_to_lf_exec(text);
                lf_to_crlf_exec(&lf)
            } else {
                slice_to_vec(text, 0, text.len())
            }
        },
        Some(LineEnding::Lf) => {
            if contains_char(text, '\r') {
                crlf_to_lf_exec(text)
            } else {
                slice_to_vec(text, 0, text.len())
            }
        },
        None => slice_to_vec(text, 0, text.len()),
    }
}

/// Whether `old` would have matched with the file's other line ending —
/// reached only in a file that mixes both.
pub open spec fn endings_differ(content: Seq<char>, old: Seq<char>) -> Option<ErrorView> {
    if contains_seq(old, seq!['\r', '\n']) && contains_seq(content, crlf_to_lf(old)) {
        Some(ErrorView::EditLineEndings { file: LineEnding::Lf, edit: LineEnding::Crlf })
    } else if old.contains('\n') && !old.contains('\r') && contains_seq(content, lf_to_crlf(old)) {
        Some(ErrorView::EditLineEndings { file: LineEnding::Crlf, edit: LineEnding::Lf })
    } else {
        None
    }
}

fn contains_crlf(s: &[char]) -> (r: bool)
    ensures
        r == contains_seq(s@, seq!['\r', '\n']),
{
    let mut i: usize = 0;
    while s.len() > 1 && i < s.len() - 1
        invariant
            forall|j: int| 0 <= j < i ==> !occurs_at(s@, seq!['\r', '\n'], j),
        decreases s.len() - i,
    {
        if s[i] == '\r' && s[i + 1] == '\n' {
            assert(s@.subrange(i as int, i + 2) =~= seq!['\r', '\n']);
            assert(occurs_at(s@, seq!['\r', '\n'], i as int));
            return true;
        }
        proof {
            if occurs_at(s@, seq!['\r', '\n'], i as int) {
                assert(s@.subrange(i as int, i + 2)[0] == s@[i as int]);
                assert(s@.subrange(i as int, i + 2)[1] == s@[i + 1]);
            }
        }
        i = i + 1;
    }
    proof {
        if contains_seq(s@, seq!['\r', '\n']) {
            let j = choose|j: int| occurs_at(s@, seq!['\r', '\n'], j);
            assert(j + 2 <= s@.len());
        }
    }
    false
}

fn endings_differ_exec(content: &[char], old: &[char]) -> (r: Option<ToolError>)
    requires
        content@.len() < usize::MAX,
    ensures
        match r {
            Some(e) => endings_differ(content@, old@) == Some(e@),
            None => endings_differ(content@, old@) is None,
        },
{
    if contains_crlf(old) {
        let lf = crlf_to_lf_exec(old);
        if contains_exec(content, &lf) {
            return Some(ToolError::EditLineEndings { file: LineEnding::Lf, edit: LineEnding::Crlf });
        }
    }
    if contains_char(old, '\n') && !contains_char(old, '\r') {
        let crlf_old = lf_to_crlf_exec(old);
        if contains_exec(content, &crlf_old) {
            return Some(ToolError::EditLineEndings { file: LineEnding::Crlf, edit: LineEnding::Lf });
        }
    }
    None
}

// ------------------------------------------------------------ split words

/// Where the run of word characters that ends at `k` begins.
pub open spec fn word_start(c: Seq<char>, k: int) -> int
    decreases k,
{
    if k <= 0 {
        0
    } else if !is_word(c[k - 1]) {
        k
    } else {
        word_start(c, k - 1)
    }
}

/// Where the run of word characters that starts at `k` ends.
pub open spec fn word_end(c: Seq<char>, k: int) -> int
    decreases c.len() - k,
{
    if k >= c.len() || k < 0 {
        c.len() as int
    } else if !is_word(c[k]) {
        k
    } else {
        word_end(c, k + 1)
    }
}

pub proof fn lemma_word_start(c: Seq<char>, k: int)
    requires
        0 <= k <= c.len(),
    ensures
        0 <= word_start(c, k) <= k,
    decreases k,
{
    if k > 0 && is_word(c[k - 1]) {
        lemma_word_start(c, k - 1);
    }
}

pub proof fn lemma_word_end(c: Seq<char>, k: int)
    requires
        0 <= k <= c.len(),
    ensures
        k <= word_end(c, k) <= c.len(),
    decreases c.len() - k,
{
    if k < c.len() && is_word(c[k]) {
        lemma_word_end(c, k + 1);
    }
}

/// The word `start..end` cuts into, if an edge of it falls between two word
/// characters — at most its first 80 characters.
pub open spec fn split_word(c: Seq<char>, start: int, end: int) -> Option<Seq<char>> {
    let cut_start = 0 < start && start < end && is_word(c[start - 1]) && is_word(c[start]);
    let cut_end = start < end && end < c.len() && is_word(c[end - 1]) && is_word(c[end]);
    if !cut_start && !cut_end {
        None
    } else {
        let from = word_start(c, start);
        let to = word_end(c, end);
        Some(c.subrange(from, if to - from > 80 { from + 80 } else { to }))
    }
}

fn word_start_exec(c: &[char], k: usize) -> (r: usize)
    requires
        k <= c@.len(),
    ensures
        r as int == word_start(c@, k as int),
{
    let mut i = k;
    while i > 0 && is_word_exec(c[i - 1])
        invariant
            i <= k <= c@.len(),
            word_start(c@, i as int) == word_start(c@, k as int),
        decreases i,
    {
        i = i - 1;
    }
    i
}

fn word_end_exec(c: &[char], k: usize) -> (r: usize)
    requires
        k <= c@.len(),
    ensures
        r as int == word_end(c@, k as int),
{
    let mut i = k;
    while i < c.len() && is_word_exec(c[i])
        invariant
            k <= i <= c@.len(),
            word_end(c@, i as int) == word_end(c@, k as int),
        decreases c.len() - i,
    {
        i = i + 1;
    }
    i
}

fn split_word_exec(c: &[char], start: usize, end: usize) -> (r: Option<Vec<char>>)
    requires
        start <= end <= c@.len(),
    ensures
        match r {
            Some(w) => split_word(c@, start as int, end as int) == Some(w@),
            None => split_word(c@, start as int, end as int) is None,
        },
{
    let cut_start = 0 < start && start < end && is_word_exec(c[start - 1]) && is_word_exec(c[start]);
    let cut_end = start < end && end < c.len() && is_word_exec(c[end - 1]) && is_word_exec(c[end]);
    if !cut_start && !cut_end {
        return None;
    }
    let from = word_start_exec(c, start);
    let to = word_end_exec(c, end);
    proof {
        lemma_word_start(c@, start as int);
        lemma_word_end(c@, end as int);
    }
    let stop = if to - from > 80 { from + 80 } else { to };
    Some(slice_to_vec(c, from, stop))
}

// ------------------------------------------------------------ closest line

/// The words of `s` from `i` on: maximal runs of word characters.
pub open spec fn word_pieces(s: Seq<char>, i: int) -> Seq<Seq<char>>
    decreases s.len() - i,
{
    if i >= s.len() || i < 0 {
        seq![]
    } else if !is_word(s[i]) {
        word_pieces(s, i + 1)
    } else {
        let e = word_end(s, i + 1);
        proof {
            lemma_word_end(s, i + 1);
        }
        seq![s.subrange(i, e)] + word_pieces(s, e)
    }
}

pub open spec fn words(s: Seq<char>) -> Seq<Seq<char>> {
    word_pieces(s, 0)
}

/// `ws` without repeats, each kept where it first appears.
pub open spec fn distinct(ws: Seq<Seq<char>>) -> Seq<Seq<char>>
    decreases ws.len(),
{
    if ws.len() == 0 {
        seq![]
    } else {
        let d = distinct(ws.drop_last());
        if d.contains(ws.last()) {
            d
        } else {
            d.push(ws.last())
        }
    }
}

/// How many of the `wanted` words `line` shares.
pub open spec fn score(wanted: Seq<Seq<char>>, line: Seq<char>) -> nat {
    wanted.filter(|w: Seq<char>| words(line).contains(w)).len()
}

/// The first line of `ls` from `i` on that is not blank, trimmed.
pub open spec fn first_nonblank(ls: Seq<Seq<char>>, i: int) -> Option<Seq<char>>
    decreases ls.len() - i,
{
    if i >= ls.len() || i < 0 {
        None
    } else if trim(ls[i]).len() > 0 {
        Some(trim(ls[i]))
    } else {
        first_nonblank(ls, i + 1)
    }
}

/// Among the first `n` scores, the position of the highest — the earliest
/// one when several tie.
pub open spec fn best_index(scores: Seq<nat>, n: int) -> int
    decreases n,
{
    if n <= 1 {
        0
    } else {
        let b = best_index(scores, n - 1);
        if scores[n - 1] > scores[b] {
            n - 1
        } else {
            b
        }
    }
}

pub open spec fn take_chars(s: Seq<char>, n: int) -> Seq<char> {
    if s.len() > n {
        s.subrange(0, n)
    } else {
        s
    }
}

/// The line of `content` most like the anchor's first non-blank line: the
/// one sharing the most words with it, if it shares at least half of them.
/// Its number, and the line itself without trailing blanks, cut at 200
/// characters.
pub open spec fn closest_line(content: Seq<char>, old: Seq<char>) -> Option<(u32, Seq<char>)> {
    match first_nonblank(lines(old), 0) {
        None => None,
        Some(first) => {
            let wanted = distinct(words(first));
            let ls = lines(content);
            if ls.len() == 0 {
                None
            } else {
                let scores = ls.map_values(|l: Seq<char>| score(wanted, l));
                let b = best_index(scores, ls.len() as int);
                if scores[b] > 0 && 2 * scores[b] >= wanted.len() {
                    Some(((b + 1) as u32, take_chars(trim_end(ls[b]), 200)))
                } else {
                    None
                }
            }
        },
    }
}

proof fn lemma_best_index(scores: Seq<nat>, n: int)
    requires
        1 <= n <= scores.len(),
    ensures
        0 <= best_index(scores, n) < n,
    decreases n,
{
    if n > 1 {
        lemma_best_index(scores, n - 1);
    }
}

fn chars_eq(a: &[char], b: &[char]) -> (r: bool)
    ensures
        r == (a@ == b@),
{
    if a.len() != b.len() {
        return false;
    }
    let mut i: usize = 0;
    while i < a.len()
        invariant
            a@.len() == b@.len(),
            i <= a@.len(),
            a@.subrange(0, i as int) == b@.subrange(0, i as int),
        decreases a.len() - i,
    {
        if a[i] != b[i] {
            return false;
        }
        assert(a@.subrange(0, i + 1) =~= a@.subrange(0, i as int).push(a@[i as int]));
        assert(b@.subrange(0, i + 1) =~= b@.subrange(0, i as int).push(b@[i as int]));
        i = i + 1;
    }
    assert(a@ =~= a@.subrange(0, a@.len() as int));
    assert(b@ =~= b@.subrange(0, b@.len() as int));
    true
}

fn seq_has(ws: &Vec<Vec<char>>, w: &[char]) -> (r: bool)
    ensures
        r == chars_view(ws@).contains(w@),
{
    let mut i: usize = 0;
    while i < ws.len()
        invariant
            i <= ws@.len(),
            forall|j: int| 0 <= j < i ==> chars_view(ws@)[j] != w@,
        decreases ws.len() - i,
    {
        if chars_eq(&ws[i], w) {
            assert(chars_view(ws@)[i as int] == w@);
            return true;
        }
        i = i + 1;
    }
    false
}

fn words_exec(s: &[char]) -> (out: Vec<Vec<char>>)
    ensures
        chars_view(out@) == words(s@),
{
    let mut out: Vec<Vec<char>> = Vec::new();
    let mut i: usize = 0;
    assert(chars_view(out@) + word_pieces(s@, 0) =~= words(s@));
    while i < s.len()
        invariant
            i <= s@.len(),
            chars_view(out@) + word_pieces(s@, i as int) == words(s@),
        decreases s.len() - i,
    {
        if !is_word_exec(s[i]) {
            i = i + 1;
        } else {
            let e = word_end_exec(s, i + 1);
            proof {
                lemma_word_end(s@, i + 1);
            }
            let w = slice_to_vec(s, i, e);
            proof {
                assert(chars_view(out@.push(w)) =~= chars_view(out@).push(w@));
                assert(chars_view(out@).push(w@) + word_pieces(s@, e as int) =~= chars_view(out@)
                    + word_pieces(s@, i as int));
            }
            out.push(w);
            i = e;
        }
    }
    assert(chars_view(out@) + seq![] =~= chars_view(out@));
    out
}

fn distinct_exec(ws: &Vec<Vec<char>>) -> (out: Vec<Vec<char>>)
    ensures
        chars_view(out@) == distinct(chars_view(ws@)),
{
    let mut out: Vec<Vec<char>> = Vec::new();
    let mut i: usize = 0;
    while i < ws.len()
        invariant
            i <= ws@.len(),
            chars_view(out@) == distinct(chars_view(ws@).subrange(0, i as int)),
        decreases ws.len() - i,
    {
        let ghost pre = chars_view(ws@).subrange(0, i + 1);
        proof {
            assert(pre.drop_last() =~= chars_view(ws@).subrange(0, i as int));
            assert(pre.last() == ws@[i as int]@);
        }
        if !seq_has(&out, &ws[i]) {
            let w = slice_to_vec(&ws[i], 0, ws[i].len());
            proof {
                assert(w@ =~= ws@[i as int]@);
                assert(chars_view(out@.push(w)) =~= chars_view(out@).push(w@));
            }
            out.push(w);
        }
        i = i + 1;
    }
    assert(chars_view(ws@).subrange(0, ws@.len() as int) =~= chars_view(ws@));
    out
}

proof fn lemma_filter_step(wanted: Seq<Seq<char>>, lw: Seq<Seq<char>>, i: int)
    requires
        0 <= i < wanted.len(),
    ensures
        wanted.subrange(0, i + 1).filter(|w: Seq<char>| lw.contains(w)).len() == wanted.subrange(
            0,
            i,
        ).filter(|w: Seq<char>| lw.contains(w)).len() + if lw.contains(wanted[i]) { 1nat } else { 0nat },
{
    let f = |w: Seq<char>| lw.contains(w);
    let a = wanted.subrange(0, i + 1);
    assert(a.drop_last() =~= wanted.subrange(0, i));
    wanted.subrange(0, i).lemma_filter_push(wanted[i], f);
    assert(wanted.subrange(0, i).push(wanted[i]) =~= a);
}

fn score_exec(wanted: &Vec<Vec<char>>, line: &[char]) -> (r: usize)
    ensures
        r == score(chars_view(wanted@), line@),
{
    let lw = words_exec(line);
    let ghost wv = chars_view(wanted@);
    let ghost lv = chars_view(lw@);
    let mut n: usize = 0;
    let mut i: usize = 0;
    while i < wanted.len()
        invariant
            i <= wanted@.len(),
            wv == chars_view(wanted@),
            lv == chars_view(lw@),
            lv == words(line@),
            n == wv.subrange(0, i as int).filter(|w: Seq<char>| lv.contains(w)).len(),
            n <= i,
        decreases wanted.len() - i,
    {
        proof {
            lemma_filter_step(wv, lv, i as int);
        }
        if seq_has(&lw, &wanted[i]) {
            n = n + 1;
        }
        i = i + 1;
    }
    assert(wv.subrange(0, wv.len() as int) =~= wv);
    n
}

fn first_nonblank_exec(ls: &Vec<Vec<char>>) -> (r: Option<Vec<char>>)
    ensures
        match r {
            Some(t) => first_nonblank(chars_view(ls@), 0) == Some(t@),
            None => first_nonblank(chars_view(ls@), 0) is None,
        },
{
    let ghost lv = chars_view(ls@);
    let mut i: usize = 0;
    while i < ls.len()
        invariant
            i <= ls@.len(),
            lv == chars_view(ls@),
            first_nonblank(lv, 0) == first_nonblank(lv, i as int),
        decreases ls.len() - i,
    {
        let t = trim_chars(&ls[i]);
        if t.len() > 0 {
            return Some(t);
        }
        i = i + 1;
    }
    None
}

fn closest_line_exec(content: &[char], old: &[char]) -> (r: Option<(u32, String)>)
    ensures
        match r {
            Some((n, line)) => closest_line(content@, old@) == Some((n, line@)),
            None => closest_line(content@, old@) is None,
        },
{
    let old_lines = lines_of(old);
    let first = match first_nonblank_exec(&old_lines) {
        None => return None,
        Some(f) => f,
    };
    let first_words = words_exec(&first);
    let wanted = distinct_exec(&first_words);
    let ls = lines_of(content);
    if ls.len() == 0 {
        return None;
    }
    let ghost lv = chars_view(ls@);
    let ghost wv = chars_view(wanted@);
    let ghost scores = lv.map_values(|l: Seq<char>| score(wv, l));
    proof {
        lemma_lines_len(content@);
    }
    let mut best: usize = 0;
    let mut best_score = score_exec(&wanted, &ls[0]);
    let mut i: usize = 1;
    while i < ls.len()
        invariant
            1 <= i <= ls@.len(),
            lv == chars_view(ls@),
            wv == chars_view(wanted@),
            scores == lv.map_values(|l: Seq<char>| score(wv, l)),
            best as int == best_index(scores, i as int),
            best < i,
            best_score == scores[best as int],
        decreases ls.len() - i,
    {
        let sc = score_exec(&wanted, &ls[i]);
        if sc > best_score {
            best = i;
            best_score = sc;
        }
        i = i + 1;
    }
    proof {
        lemma_filter_len_le(wv, lv[best as int]);
    }
    if best_score > 0 && best_score >= wanted.len() - best_score {
        let cut = trim_end_at(&ls[best], ls[best].len());
        proof {
            lemma_trim_end_index(ls@[best as int]@, ls@[best as int]@.len() as int);
        }
        let stop = if cut > 200 { 200 } else { cut };
        let text = slice_to_vec(&ls[best], 0, stop);
        proof {
            assert(text@ =~= take_chars(trim_end(lv[best as int]), 200));
        }
        Some(((best + 1) as u32, text_of(&text)))
    } else {
        None
    }
}

proof fn lemma_filter_len_le(wanted: Seq<Seq<char>>, line: Seq<char>)
    ensures
        score(wanted, line) <= wanted.len(),
{
    wanted.lemma_filter_len(|w: Seq<char>| words(line).contains(w));
}

// ------------------------------------------------------------ anchors

/// The anchor's single occurrence as a character range, or why there is
/// none. Occurrences are counted as `str::match_indices` finds them.
pub open spec fn resolve_anchor(content: Seq<char>, old: Seq<char>) -> Result<(int, int), ErrorView> {
    let start = first_occurrence(content, old, 0);
    if start > content.len() {
        Err(
            match endings_differ(content, old) {
                Some(e) => e,
                None => ErrorView::EditTextNotFound { text: old, nearest: closest_line(content, old) },
            },
        )
    } else if match_count(content, old, 0) > 1 {
        Err(ErrorView::EditTextAmbiguous(old, match_count(content, old, 0)))
    } else {
        match split_word(content, start, start + old.len()) {
            Some(w) => Err(ErrorView::EditInsideWord(old, w)),
            None => Ok((start, start + old.len())),
        }
    }
}

/// An edit's failure as the model reads it: named by its place in the batch
/// when there is more than one.
pub open spec fn in_edit(e: ErrorView, index: int, of: int) -> ErrorView {
    if of == 1 {
        e
    } else {
        ErrorView::InEdit { index: (index + 1) as nat, of: of as nat, reason: Box::new(e) }
    }
}

pub open spec fn edit_views(edits: Seq<FileEdit>) -> Seq<(Seq<char>, Seq<char>)> {
    edits.map_values(|e: FileEdit| (e.old@, e.new@))
}

/// The first `n` edits resolved to ranges, each carrying its replacement in
/// the file's line ending; the first failure stops it.
pub open spec fn resolve_edits(
    content: Seq<char>,
    edits: Seq<(Seq<char>, Seq<char>)>,
    ending: Option<LineEnding>,
    n: int,
) -> Result<Seq<(int, int, Seq<char>)>, ErrorView>
    decreases n,
{
    if n <= 0 {
        Ok(seq![])
    } else {
        match resolve_edits(content, edits, ending, n - 1) {
            Err(e) => Err(e),
            Ok(rs) => match resolve_anchor(content, in_endings(edits[n - 1].0, ending)) {
                Err(e) => Err(in_edit(e, n - 1, edits.len() as int)),
                Ok((start, end)) => Ok(rs.push((start, end, in_endings(edits[n - 1].1, ending)))),
            },
        }
    }
}

/// Where a range starting at `start` goes in a list sorted by start: after
/// every range that starts no later.
pub open spec fn insert_pos(sorted: Seq<(int, int, Seq<char>)>, start: int, i: int) -> int
    decreases sorted.len() - i,
{
    if i >= sorted.len() || i < 0 {
        sorted.len() as int
    } else if sorted[i].0 > start {
        i
    } else {
        insert_pos(sorted, start, i + 1)
    }
}

/// The ranges in order of where they start; ranges that start together keep
/// their order.
pub open spec fn sort_ranges(rs: Seq<(int, int, Seq<char>)>) -> Seq<(int, int, Seq<char>)>
    decreases rs.len(),
{
    if rs.len() == 0 {
        seq![]
    } else {
        let s = sort_ranges(rs.drop_last());
        s.insert(insert_pos(s, rs.last().0, 0), rs.last())
    }
}

/// Whether some range starts before the one before it ends.
pub open spec fn overlapping(s: Seq<(int, int, Seq<char>)>) -> bool {
    exists|i: int| 0 <= i && i + 1 < s.len() && #[trigger] s[i + 1].0 < s[i].1
}

/// `content` from `cursor` on, with each range replaced by its text.
pub open spec fn splice(content: Seq<char>, s: Seq<(int, int, Seq<char>)>, cursor: int) -> Seq<char>
    decreases s.len(),
{
    if s.len() == 0 {
        content.subrange(cursor, content.len() as int)
    } else {
        content.subrange(cursor, s[0].0) + s[0].2 + splice(content, s.drop_first(), s[0].1)
    }
}

/// Every edit spliced in at once, or why none is.
pub open spec fn spec_apply_edits(content: Seq<char>, edits: Seq<(Seq<char>, Seq<char>)>) -> Result<
    Seq<char>,
    ErrorView,
> {
    match resolve_edits(content, edits, spec_line_ending(content), edits.len() as int) {
        Err(e) => Err(e),
        Ok(rs) => {
            let s = sort_ranges(rs);
            if overlapping(s) {
                Err(ErrorView::EditsOverlap)
            } else {
                Ok(splice(content, s, 0))
            }
        },
    }
}

/// A range lies within the content.
pub open spec fn range_ok(r: (int, int, Seq<char>), len: int) -> bool {
    0 <= r.0 <= r.1 <= len
}

pub open spec fn ranges_view(v: Seq<(usize, usize, Vec<char>)>) -> Seq<(int, int, Seq<char>)> {
    v.map_values(|r: (usize, usize, Vec<char>)| (r.0 as int, r.1 as int, r.2@))
}

proof fn lemma_resolve_error_sticks(
    content: Seq<char>,
    edits: Seq<(Seq<char>, Seq<char>)>,
    ending: Option<LineEnding>,
    n: int,
    m: int,
)
    requires
        n <= m,
        resolve_edits(content, edits, ending, n) is Err,
    ensures
        resolve_edits(content, edits, ending, m) == resolve_edits(content, edits, ending, n),
    decreases m - n,
{
    if n < m {
        lemma_resolve_error_sticks(content, edits, ending, n, m - 1);
    }
}

fn resolve_anchor_exec(content: &[char], old: &[char]) -> (r: Result<(usize, usize), ToolError>)
    requires
        content@.len() < usize::MAX,
    ensures
        match r {
            Ok((s, e)) => resolve_anchor(content@, old@) == Ok::<(int, int), ErrorView>((s as int, e as int)),
            Err(err) => resolve_anchor(content@, old@) == Err::<(int, int), ErrorView>(err@),
        },
{
    let start = find_from(content, old, 0);
    proof {
        lemma_first_occurrence(content@, old@, 0);
    }
    if start > content.len() {
        return Err(
            match endings_differ_exec(content, old) {
                Some(e) => e,
                None => ToolError::EditTextNotFound {
                    text: text_of(old),
                    nearest: closest_line_exec(content, old),
                },
            },
        );
    }
    let count = count_matches(content, old, 0);
    if count > 1 {
        return Err(ToolError::EditTextAmbiguous(text_of(old), count));
    }
    let end = start + old.len();
    match split_word_exec(content, start, end) {
        Some(w) => Err(ToolError::EditInsideWord(text_of(old), text_of(&w))),
        None => Ok((start, end)),
    }
}

/// Resolves every anchor, in order, stopping at the first that fails.
fn resolve_all(content: &[char], edits: &[FileEdit], ending: Option<LineEnding>) -> (r: Result<
    Vec<(usize, usize, Vec<char>)>,
    ToolError,
>)
    requires
        content@.len() < usize::MAX,
    ensures
        match r {
            Ok(rs) => resolve_edits(content@, edit_views(edits@), ending, edits@.len() as int) == Ok::<
                Seq<(int, int, Seq<char>)>,
                ErrorView,
            >(ranges_view(rs@)),
            Err(e) => resolve_edits(content@, edit_views(edits@), ending, edits@.len() as int) == Err::<
                Seq<(int, int, Seq<char>)>,
                ErrorView,
            >(e@),
        },
        r matches Ok(rs) ==> forall|i: int| 0 <= i < rs@.len() ==> range_ok(
            #[trigger] ranges_view(rs@)[i],
            content@.len() as int,
        ),
{
    let ghost ev = edit_views(edits@);
    let mut ranges: Vec<(usize, usize, Vec<char>)> = Vec::new();
    let mut i: usize = 0;
    assert(ranges_view(ranges@) =~= seq![]);
    while i < edits.len()
        invariant
            i <= edits@.len(),
            content@.len() < usize::MAX,
            ev == edit_views(edits@),
            resolve_edits(content@, ev, ending, i as int) == Ok::<Seq<(int, int, Seq<char>)>, ErrorView>(
                ranges_view(ranges@),
            ),
            forall|j: int| 0 <= j < ranges@.len() ==> range_ok(
                #[trigger] ranges_view(ranges@)[j],
                content@.len() as int,
            ),
        decreases edits.len() - i,
    {
        let old_chars = chars_of(edits[i].old.as_str());
        let old = in_endings_exec(&old_chars, ending);
        let new_chars = chars_of(edits[i].new.as_str());
        let new = in_endings_exec(&new_chars, ending);
        proof {
            assert(ev[i as int] == (edits@[i as int].old@, edits@[i as int].new@));
        }
        match resolve_anchor_exec(content, &old) {
            Err(e) => {
                proof {
                    lemma_resolve_error_sticks(content@, ev, ending, i + 1, edits@.len() as int);
                }
                if edits.len() == 1 {
                    return Err(e);
                }
                return Err(ToolError::InEdit { index: i + 1, of: edits.len(), reason: Box::new(e) });
            },
            Ok((start, end)) => {
                proof {
                    lemma_first_occurrence(content@, old@, 0);
                    assert(ranges_view(ranges@.push((start, end, new))) =~= ranges_view(ranges@).push(
                        (start as int, end as int, new@),
                    ));
                }
                ranges.push((start, end, new));
            },
        }
        i = i + 1;
    }
    Ok(ranges)
}

proof fn lemma_insert_pos(sorted: Seq<(int, int, Seq<char>)>, start: int, i: int)
    requires
        0 <= i <= sorted.len(),
    ensures
        i <= insert_pos(sorted, start, i) <= sorted.len(),
    decreases sorted.len() - i,
{
    if i < sorted.len() && sorted[i].0 <= start {
        lemma_insert_pos(sorted, start, i + 1);
    }
}

/// Sorts the ranges by where they start, keeping ties in their order.
fn sort_by_start(rs: Vec<(usize, usize, Vec<char>)>, len: Ghost<int>) -> (out: Vec<(usize, usize, Vec<char>)>)
    requires
        forall|i: int| 0 <= i < rs@.len() ==> range_ok(#[trigger] ranges_view(rs@)[i], len@),
    ensures
        ranges_view(out@) == sort_ranges(ranges_view(rs@)),
        forall|i: int| 0 <= i < out@.len() ==> range_ok(#[trigger] ranges_view(out@)[i], len@),
{
    let ghost all = ranges_view(rs@);
    let mut rest = rs;
    let mut out: Vec<(usize, usize, Vec<char>)> = Vec::new();
    let mut k: usize = 0;
    let n = rest.len();
    assert(ranges_view(out@) =~= sort_ranges(all.subrange(0, 0)));
    while k < n
        invariant
            k <= n == all.len(),
            rest@.len() == n - k,
            ranges_view(rest@) == all.subrange(k as int, n as int),
            ranges_view(out@) == sort_ranges(all.subrange(0, k as int)),
            forall|i: int| 0 <= i < all.len() ==> range_ok(#[trigger] all[i], len@),
            forall|i: int| 0 <= i < out@.len() ==> range_ok(#[trigger] ranges_view(out@)[i], len@),
        decreases n - k,
    {
        let ghost before = rest@;
        let r = rest.remove(0);
        proof {
            assert(rest@ =~= before.subrange(1, before.len() as int));
            assert forall|j: int| 0 <= j < rest@.len() implies #[trigger] ranges_view(rest@)[j] == all.subrange(k + 1, n as int)[j] by {
                assert(ranges_view(before)[j + 1] == all.subrange(k as int, n as int)[j + 1]);
            }
            assert(ranges_view(rest@) =~= all.subrange(k + 1, n as int));
            assert(all.subrange(k as int, n as int)[0] == all[k as int]);
            assert((r.0 as int, r.1 as int, r.2@) == all[k as int]);
        }
        let ghost sorted = ranges_view(out@);
        let mut p: usize = 0;
        while p < out.len() && out[p].0 <= r.0
            invariant
                p <= out@.len(),
                sorted == ranges_view(out@),
                insert_pos(sorted, r.0 as int, p as int) == insert_pos(sorted, r.0 as int, 0),
            decreases out.len() - p,
        {
            p = p + 1;
        }
        proof {
            lemma_insert_pos(sorted, r.0 as int, p as int);
            let pre = all.subrange(0, k + 1);
            assert(pre.drop_last() =~= all.subrange(0, k as int));
            assert(pre.last() == all[k as int]);
        }
        out.insert(p, r);
        proof {
            assert(ranges_view(out@) =~= sorted.insert(p as int, all[k as int]));
            assert forall|i: int| 0 <= i < out@.len() implies range_ok(#[trigger] ranges_view(out@)[i], len@) by {
                if i < p {
                    assert(ranges_view(out@)[i] == sorted[i]);
                } else if i == p {
                } else {
                    assert(ranges_view(out@)[i] == sorted[i - 1]);
                }
            }
        }
        k = k + 1;
    }
    assert(all.subrange(0, n as int) =~= all);
    out
}

/// Whether some range starts before the previous one ends.
fn any_overlap(s: &Vec<(usize, usize, Vec<char>)>) -> (r: bool)
    ensures
        r == overlapping(ranges_view(s@)),
{
    let ghost v = ranges_view(s@);
    let mut i: usize = 0;
    while s.len() > 1 && i < s.len() - 1
        invariant
            v == ranges_view(s@),
            i <= s@.len(),
            forall|j: int| 0 <= j < i && j + 1 < v.len() ==> !(#[trigger] v[j + 1].0 < v[j].1),
        decreases s.len() - i,
    {
        if s[i + 1].0 < s[i].1 {
            assert(v[i + 1].0 < v[i as int].1);
            return true;
        }
        i = i + 1;
    }
    false
}

/// The text with every range replaced, given ranges in order that do not
/// overlap.
fn splice_exec(content: &[char], s: &Vec<(usize, usize, Vec<char>)>) -> (out: String)
    requires
        !overlapping(ranges_view(s@)),
        forall|i: int| 0 <= i < s@.len() ==> range_ok(#[trigger] ranges_view(s@)[i], content@.len() as int),
    ensures
        out@ == splice(content@, ranges_view(s@), 0),
{
    let ghost v = ranges_view(s@);
    let mut out = String::new();
    let mut cursor: usize = 0;
    let mut k: usize = 0;
    assert(v.subrange(0, v.len() as int) =~= v);
    while k < s.len()
        invariant
            v == ranges_view(s@),
            k <= v.len(),
            cursor <= content@.len(),
            k < v.len() ==> cursor <= v[k as int].0,
            out@ + splice(content@, v.subrange(k as int, v.len() as int), cursor as int) == splice(
                content@,
                v,
                0,
            ),
            !overlapping(v),
            forall|i: int| 0 <= i < v.len() ==> range_ok(#[trigger] v[i], content@.len() as int),
        decreases s.len() - k,
    {
        let ghost tail = v.subrange(k as int, v.len() as int);
        let start = s[k].0;
        let end = s[k].1;
        proof {
            assert(range_ok(v[k as int], content@.len() as int));
            assert(tail[0] == v[k as int]);
            assert(tail.drop_first() =~= v.subrange(k + 1, v.len() as int));
        }
        let before = slice_to_vec(content, cursor, start);
        let ghost out0 = out@;
        push_chars(&mut out, &before);
        push_chars(&mut out, &s[k].2);
        proof {
            assert(out@ == out0 + content@.subrange(cursor as int, start as int) + v[k as int].2);
            assert(out@ + splice(content@, v.subrange(k + 1, v.len() as int), end as int) =~= out0
                + splice(content@, tail, cursor as int));
            if k + 1 < v.len() {
                assert(!(v[k + 1].0 < v[k as int].1));
            }
        }
        cursor = end;
        k = k + 1;
    }
    let rest = slice_to_vec(content, cursor, content.len());
    proof {
        assert(v.subrange(k as int, v.len() as int) =~= Seq::<(int, int, Seq<char>)>::empty());
    }
    push_chars(&mut out, &rest);
    out
}

/// Splices every edit into `content` at once. Nothing is applied unless all
/// of them resolve.
///
/// Each anchor and its replacement first take the file's own line ending,
/// when the file has a single one; each anchor must then occur exactly once
/// in the original content and begin and end on whole words; and no two
/// anchored ranges may overlap.
pub fn apply_edits(content: &str, edits: &[FileEdit]) -> (r: Result<String, ToolError>)
    requires
        content@.len() < usize::MAX,
    ensures
        match r {
            Ok(text) => spec_apply_edits(content@, edit_views(edits@)) == Ok::<Seq<char>, ErrorView>(text@),
            Err(e) => spec_apply_edits(content@, edit_views(edits@)) == Err::<Seq<char>, ErrorView>(e@),
        },
{
    let chars = chars_of(content);
    let ending = line_ending(&chars);
    let ranges = resolve_all(&chars, edits, ending)?;
    let sorted = sort_by_start(ranges, Ghost(chars@.len() as int));
    if any_overlap(&sorted) {
        return Err(ToolError::EditsOverlap);
    }
    Ok(splice_exec(&chars, &sorted))
}

// ------------------------------------------------------------ the order law

/// Where one edit lands when its anchor resolves.
pub open spec fn resolved(content: Seq<char>, e: (Seq<char>, Seq<char>), ending: Option<LineEnding>) -> (
    int,
    int,
    Seq<char>,
) {
    match resolve_anchor(content, in_endings(e.0, ending)) {
        Ok((s, t)) => (s, t, in_endings(e.1, ending)),
        Err(_) => (0, 0, seq![]),
    }
}

pub open spec fn anchor_ok(content: Seq<char>, e: (Seq<char>, Seq<char>), ending: Option<LineEnding>) -> bool {
    resolve_anchor(content, in_endings(e.0, ending)) is Ok
}

pub open spec fn sorted_by_start(s: Seq<(int, int, Seq<char>)>) -> bool {
    forall|i: int, j: int| 0 <= i < j < s.len() ==> #[trigger] s[i].0 <= #[trigger] s[j].0
}

pub open spec fn strictly_by_start(s: Seq<(int, int, Seq<char>)>) -> bool {
    forall|i: int, j: int| 0 <= i < j < s.len() ==> #[trigger] s[i].0 < #[trigger] s[j].0
}

proof fn lemma_resolve_edits_ok(
    content: Seq<char>,
    es: Seq<(Seq<char>, Seq<char>)>,
    ending: Option<LineEnding>,
    n: int,
)
    requires
        0 <= n <= es.len(),
    ensures
        (resolve_edits(content, es, ending, n) is Ok) <==> (forall|i: int|
            0 <= i < n ==> anchor_ok(content, #[trigger] es[i], ending)),
        (resolve_edits(content, es, ending, n) is Ok) ==> resolve_edits(content, es, ending, n)
            == Ok::<Seq<(int, int, Seq<char>)>, ErrorView>(
            es.subrange(0, n).map_values(|e: (Seq<char>, Seq<char>)| resolved(content, e, ending)),
        ),
    decreases n,
{
    if n > 0 {
        lemma_resolve_edits_ok(content, es, ending, n - 1);
        let f = |e: (Seq<char>, Seq<char>)| resolved(content, e, ending);
        assert(es.subrange(0, n).map_values(f) =~= es.subrange(0, n - 1).map_values(f).push(
            f(es[n - 1]),
        ));
        if !anchor_ok(content, es[n - 1], ending) {
            assert(resolve_edits(content, es, ending, n) is Err);
        }
    } else {
        assert(es.subrange(0, 0).map_values(|e: (Seq<char>, Seq<char>)| resolved(content, e, ending))
            =~= seq![]);
    }
}

proof fn lemma_insert_pos_props(sorted: Seq<(int, int, Seq<char>)>, start: int, i: int)
    requires
        0 <= i <= sorted.len(),
        sorted_by_start(sorted),
        forall|j: int| 0 <= j < i ==> #[trigger] sorted[j].0 <= start,
    ensures
        i <= insert_pos(sorted, start, i) <= sorted.len(),
        forall|j: int| 0 <= j < insert_pos(sorted, start, i) ==> #[trigger] sorted[j].0 <= start,
        forall|j: int| insert_pos(sorted, start, i) <= j < sorted.len() ==> #[trigger] sorted[j].0 > start,
    decreases sorted.len() - i,
{
    if i < sorted.len() && sorted[i].0 <= start {
        lemma_insert_pos_props(sorted, start, i + 1);
    }
    if i < sorted.len() && sorted[i].0 > start {
        assert forall|j: int| i <= j < sorted.len() implies #[trigger] sorted[j].0 > start by {
            if j > i {
                assert(sorted[i].0 <= sorted[j].0);
            }
        }
    }
}

proof fn lemma_sort_ranges(rs: Seq<(int, int, Seq<char>)>)
    ensures
        sorted_by_start(sort_ranges(rs)),
        sort_ranges(rs).to_multiset() == rs.to_multiset(),
        sort_ranges(rs).len() == rs.len(),
    decreases rs.len(),
{
    broadcast use vstd::seq_lib::to_multiset_insert, vstd::seq_lib::to_multiset_build;

    if rs.len() > 0 {
        let s = sort_ranges(rs.drop_last());
        lemma_sort_ranges(rs.drop_last());
        let x = rs.last();
        lemma_insert_pos_props(s, x.0, 0);
        let p = insert_pos(s, x.0, 0);
        let t = s.insert(p, x);
        assert forall|i: int, j: int| 0 <= i < j < t.len() implies #[trigger] t[i].0 <= #[trigger] t[j].0 by {
            if j < p {
                assert(t[i] == s[i] && t[j] == s[j]);
            } else if j == p {
                assert(t[i] == s[i]);
            } else if i < p {
                assert(t[i] == s[i] && t[j] == s[j - 1]);
            } else if i == p {
                assert(t[j] == s[j - 1]);
            } else {
                assert(t[i] == s[i - 1] && t[j] == s[j - 1]);
            }
        }
        assert(rs.drop_last().push(x) =~= rs);
        vstd::seq_lib::to_multiset_insert(s, p, x);
        vstd::seq_lib::to_multiset_build(rs.drop_last(), x);
    } else {
        assert(sort_ranges(rs) =~= rs);
    }
}

proof fn lemma_match_count_empty(s: Seq<char>, from: int)
    requires
        0 <= from <= s.len(),
    ensures
        match_count(s, Seq::<char>::empty(), from) == s.len() - from + 1,
    decreases s.len() + 1 - from,
{
    assert(match_count(s, Seq::<char>::empty(), from + 1 + s.len() - s.len()) == match_count(s, Seq::<char>::empty(), from + 1));
    assert(occurs_at(s, Seq::<char>::empty(), from)) by {
        assert(s.subrange(from, from) =~= Seq::<char>::empty());
    }
    if from < s.len() {
        lemma_match_count_empty(s, from + 1);
    }
}

/// In a non-empty file an anchor that resolves covers at least one
/// character: the empty anchor occurs everywhere.
proof fn lemma_anchor_nonempty(content: Seq<char>, old: Seq<char>)
    requires
        content.len() > 0,
        resolve_anchor(content, old) is Ok,
    ensures
        resolve_anchor(content, old)->Ok_0.0 < resolve_anchor(content, old)->Ok_0.1,
{
    lemma_first_occurrence(content, old, 0);
    if old.len() == 0 {
        assert(old =~= Seq::<char>::empty());
        lemma_match_count_empty(content, 0);
    }
}

proof fn lemma_strict(s: Seq<(int, int, Seq<char>)>)
    requires
        sorted_by_start(s),
        !overlapping(s),
        forall|i: int| 0 <= i < s.len() ==> (#[trigger] s[i]).0 < s[i].1,
    ensures
        strictly_by_start(s),
{
    assert forall|i: int, j: int| 0 <= i < j < s.len() implies #[trigger] s[i].0 < #[trigger] s[j].0 by {
        assert(!(s[i + 1].0 < s[i].1));
        assert(s[i].0 < s[i].1);
        assert(s[i + 1].0 <= s[j].0);
    }
}

proof fn lemma_sorted_same(x: Seq<(int, int, Seq<char>)>, y: Seq<(int, int, Seq<char>)>)
    requires
        strictly_by_start(x),
        sorted_by_start(y),
        x.to_multiset() == y.to_multiset(),
    ensures
        x == y,
    decreases x.len(),
{
    broadcast use vstd::seq_lib::group_to_multiset_ensures, vstd::multiset::group_multiset_axioms;

    vstd::seq_lib::to_multiset_len(x);
    vstd::seq_lib::to_multiset_len(y);
    if x.len() > 0 {
        assert(x.to_multiset().count(y[0]) > 0) by {
            assert(y.contains(y[0]));
            vstd::seq_lib::to_multiset_contains(y, y[0]);
        }
        vstd::seq_lib::to_multiset_contains(x, y[0]);
        let i = choose|i: int| 0 <= i < x.len() && x[i] == y[0];
        assert(y.to_multiset().count(x[0]) > 0) by {
            assert(x.contains(x[0]));
            vstd::seq_lib::to_multiset_contains(x, x[0]);
        }
        vstd::seq_lib::to_multiset_contains(y, x[0]);
        let j = choose|j: int| 0 <= j < y.len() && y[j] == x[0];
        if j > 0 {
            assert(y[0].0 <= y[j].0);
        }
        if i > 0 {
            assert(x[0].0 < x[i].0);
        }
        assert(i == 0);
        vstd::seq_lib::to_multiset_remove(x, 0);
        vstd::seq_lib::to_multiset_remove(y, 0);
        assert(x.remove(0) =~= x.drop_first());
        assert(y.remove(0) =~= y.drop_first());
        lemma_sorted_same(x.drop_first(), y.drop_first());
        assert(x[0] == y[0]);
        assert forall|k: int| 0 <= k < x.len() implies x[k] == y[k] by {
            if k > 0 {
                assert(x.drop_first()[k - 1] == y.drop_first()[k - 1]);
            }
        }
        assert(x =~= y);
    }
}

proof fn lemma_map_multiset<A, B>(a: Seq<A>, b: Seq<A>, f: spec_fn(A) -> B)
    requires
        a.to_multiset() == b.to_multiset(),
    ensures
        a.map_values(f).to_multiset() == b.map_values(f).to_multiset(),
    decreases a.len(),
{
    broadcast use vstd::seq_lib::group_to_multiset_ensures, vstd::multiset::group_multiset_axioms;

    vstd::seq_lib::to_multiset_len(a);
    vstd::seq_lib::to_multiset_len(b);
    if a.len() > 0 {
        let x = a.last();
        assert(a.contains(x));
        vstd::seq_lib::to_multiset_contains(a, x);
        vstd::seq_lib::to_multiset_contains(b, x);
        let k = choose|k: int| 0 <= k < b.len() && b[k] == x;
        vstd::seq_lib::to_multiset_remove(a, a.len() - 1);
        vstd::seq_lib::to_multiset_remove(b, k);
        assert(a.remove(a.len() - 1) =~= a.drop_last());
        lemma_map_multiset(a.drop_last(), b.remove(k), f);
        assert(a.map_values(f) =~= a.drop_last().map_values(f).push(f(x)));
        assert(b.map_values(f).remove(k) =~= b.remove(k).map_values(f));
        vstd::seq_lib::to_multiset_remove(b.map_values(f), k);
        vstd::seq_lib::to_multiset_build(a.drop_last().map_values(f), f(x));
        assert(b.map_values(f).to_multiset() =~= b.map_values(f).remove(k).to_multiset().insert(f(x)));
    }
}

/// Whether two ranges lie apart: one ends where or before the other starts.
/// Ranges that merely touch lie apart.
pub open spec fn apart(a: (int, int, Seq<char>), b: (int, int, Seq<char>)) -> bool {
    a.1 <= b.0 || b.1 <= a.0
}

proof fn lemma_two_places<T>(a: Seq<T>, b: Seq<T>, x: T, i1: int, i2: int)
    requires
        a.to_multiset() == b.to_multiset(),
        0 <= i1 < a.len(),
        0 <= i2 < a.len(),
        i1 != i2,
        a[i1] == x,
        a[i2] == x,
    ensures
        exists|k1: int, k2: int| 0 <= k1 < b.len() && 0 <= k2 < b.len() && k1 != k2 && #[trigger] b[k1] == x && #[trigger] b[k2]
            == x,
{
    broadcast use vstd::multiset::group_multiset_axioms;

    vstd::seq_lib::to_multiset_remove(a, i1);
    let j = if i2 < i1 { i2 } else { i2 - 1 };
    assert(a.remove(i1)[j] == x);
    assert(a.remove(i1).contains(x));
    vstd::seq_lib::to_multiset_contains(a.remove(i1), x);
    assert(a.to_multiset().count(x) >= 2);
    vstd::seq_lib::to_multiset_contains(b, x);
    let k1 = choose|k: int| 0 <= k < b.len() && b[k] == x;
    vstd::seq_lib::to_multiset_remove(b, k1);
    vstd::seq_lib::to_multiset_contains(b.remove(k1), x);
    let k = choose|k: int| 0 <= k < b.remove(k1).len() && b.remove(k1)[k] == x;
    let k2 = if k < k1 { k } else { k + 1 };
    assert(b[k2] == b.remove(k1)[k]);
    assert(b[k1] == x && b[k2] == x && k1 != k2);
}

/// In a non-empty file, edits whose anchors all resolve and whose ranges lie
/// apart, any two of them at most touching, all apply: the batch is
/// accepted. Only ranges that truly overlap refuse it.
pub proof fn law_edits_that_lie_apart_apply(content: Seq<char>, edits: Seq<(Seq<char>, Seq<char>)>)
    requires
        content.len() > 0,
        forall|i: int| 0 <= i < edits.len() ==> anchor_ok(content, #[trigger] edits[i], spec_line_ending(content)),
        forall|i: int, j: int|
            0 <= i < edits.len() && 0 <= j < edits.len() && i != j ==> apart(
                resolved(content, #[trigger] edits[i], spec_line_ending(content)),
                resolved(content, #[trigger] edits[j], spec_line_ending(content)),
            ),
    ensures
        spec_apply_edits(content, edits) is Ok,
{
    broadcast use vstd::seq_lib::group_to_multiset_ensures, vstd::multiset::group_multiset_axioms;

    let ending = spec_line_ending(content);
    let f = |e: (Seq<char>, Seq<char>)| resolved(content, e, ending);
    lemma_resolve_edits_ok(content, edits, ending, edits.len() as int);
    assert(edits.subrange(0, edits.len() as int) =~= edits);
    let rs = edits.map_values(f);
    lemma_sort_ranges(rs);
    let s = sort_ranges(rs);
    assert forall|k: int| 0 <= k < rs.len() implies (#[trigger] rs[k]).0 < rs[k].1 by {
        lemma_anchor_nonempty(content, in_endings(edits[k].0, ending));
    }
    if overlapping(s) {
        let i = choose|i: int| 0 <= i && i + 1 < s.len() && #[trigger] s[i + 1].0 < s[i].1;
        let x = s[i];
        let y = s[i + 1];
        assert(s.contains(x));
        assert(s.contains(y));
        vstd::seq_lib::to_multiset_contains(s, x);
        vstd::seq_lib::to_multiset_contains(s, y);
        vstd::seq_lib::to_multiset_contains(rs, x);
        vstd::seq_lib::to_multiset_contains(rs, y);
        if x == y {
            lemma_two_places(s, rs, x, i, i + 1);
            let (k1, k2) = choose|k1: int, k2: int|
                0 <= k1 < rs.len() && 0 <= k2 < rs.len() && k1 != k2 && #[trigger] rs[k1] == x && #[trigger] rs[k2] == x;
            assert(rs[k1] == resolved(content, edits[k1], ending));
            assert(rs[k2] == resolved(content, edits[k2], ending));
            assert(apart(rs[k1], rs[k2]));
            assert(rs[k1].0 < rs[k1].1);
        } else {
            let k1 = choose|k: int| 0 <= k < rs.len() && rs[k] == x;
            let k2 = choose|k: int| 0 <= k < rs.len() && rs[k] == y;
            assert(rs[k1] == resolved(content, edits[k1], ending));
            assert(rs[k2] == resolved(content, edits[k2], ending));
            assert(apart(rs[k1], rs[k2]));
            assert(rs[k2].0 < rs[k2].1);
            assert(x.0 <= y.0);
        }
    }
}

/// Whether two ranges overlap: each starts before the other ends.
pub open spec fn overlap(a: (int, int, Seq<char>), b: (int, int, Seq<char>)) -> bool {
    a.0 < b.1 && b.0 < a.1
}

/// Edits whose anchors all resolve but two of whose ranges overlap are
/// refused as overlapping, with nothing applied.
pub proof fn law_overlapping_edits_are_refused(
    content: Seq<char>,
    edits: Seq<(Seq<char>, Seq<char>)>,
    i: int,
    j: int,
)
    requires
        forall|k: int| 0 <= k < edits.len() ==> anchor_ok(content, #[trigger] edits[k], spec_line_ending(content)),
        0 <= i < edits.len(),
        0 <= j < edits.len(),
        i != j,
        overlap(
            resolved(content, edits[i], spec_line_ending(content)),
            resolved(content, edits[j], spec_line_ending(content)),
        ),
    ensures
        spec_apply_edits(content, edits) == Err::<Seq<char>, ErrorView>(ErrorView::EditsOverlap),
{
    broadcast use vstd::seq_lib::group_to_multiset_ensures, vstd::multiset::group_multiset_axioms;

    let ending = spec_line_ending(content);
    let f = |e: (Seq<char>, Seq<char>)| resolved(content, e, ending);
    lemma_resolve_edits_ok(content, edits, ending, edits.len() as int);
    assert(edits.subrange(0, edits.len() as int) =~= edits);
    let rs = edits.map_values(f);
    lemma_sort_ranges(rs);
    let s = sort_ranges(rs);
    let x = rs[i];
    let y = rs[j];
    assert(x == resolved(content, edits[i], ending));
    assert(y == resolved(content, edits[j], ending));
    let (p, q) = if x == y {
        lemma_two_places(rs, s, x, i, j);
        choose|k1: int, k2: int| 0 <= k1 < s.len() && 0 <= k2 < s.len() && k1 != k2 && #[trigger] s[k1] == x && #[trigger] s[k2] == x
    } else {
        assert(rs.contains(x));
        assert(rs.contains(y));
        vstd::seq_lib::to_multiset_contains(rs, x);
        vstd::seq_lib::to_multiset_contains(rs, y);
        vstd::seq_lib::to_multiset_contains(s, x);
        vstd::seq_lib::to_multiset_contains(s, y);
        let p = choose|k: int| 0 <= k < s.len() && s[k] == x;
        let q = choose|k: int| 0 <= k < s.len() && s[k] == y;
        (p, q)
    };
    assert(p != q);
    assert(overlap(s[p], s[q]));
    let lo = if p < q { p } else { q };
    let hi = if p < q { q } else { p };
    assert(s[lo + 1].0 <= s[hi].0);
    assert(s[hi].0 < s[lo].1);
    assert(s[lo + 1].0 < s[lo].1);
    assert(overlapping(s));
}

/// A batch of edits means the same whatever order it arrives in: the same
/// edits in another order splice to the same text. It holds in any
/// non-empty file, and in an empty one for a batch of at most one edit (in
/// an empty file two empty anchors with different replacements land in the
/// same place, and their order decides the text).
pub proof fn law_edit_order_is_irrelevant(
    content: Seq<char>,
    edits: Seq<(Seq<char>, Seq<char>)>,
    reordered: Seq<(Seq<char>, Seq<char>)>,
)
    requires
        content.len() > 0 || edits.len() <= 1,
        reordered.to_multiset() == edits.to_multiset(),
        spec_apply_edits(content, edits) is Ok,
    ensures
        spec_apply_edits(content, reordered) == spec_apply_edits(content, edits),
{
    broadcast use vstd::seq_lib::group_to_multiset_ensures, vstd::multiset::group_multiset_axioms;

    if edits.len() <= 1 {
        vstd::seq_lib::to_multiset_len(edits);
        vstd::seq_lib::to_multiset_len(reordered);
        if edits.len() == 1 {
            assert(reordered.contains(reordered[0]));
            vstd::seq_lib::to_multiset_contains(reordered, reordered[0]);
            vstd::seq_lib::to_multiset_contains(edits, reordered[0]);
        }
        assert(reordered =~= edits);
    } else {
        lemma_edit_order_in_a_nonempty_file(content, edits, reordered);
    }
}

proof fn lemma_edit_order_in_a_nonempty_file(
    content: Seq<char>,
    edits: Seq<(Seq<char>, Seq<char>)>,
    reordered: Seq<(Seq<char>, Seq<char>)>,
)
    requires
        content.len() > 0,
        reordered.to_multiset() == edits.to_multiset(),
        spec_apply_edits(content, edits) is Ok,
    ensures
        spec_apply_edits(content, reordered) == spec_apply_edits(content, edits),
{
    broadcast use vstd::seq_lib::group_to_multiset_ensures, vstd::multiset::group_multiset_axioms;

    let ending = spec_line_ending(content);
    let f = |e: (Seq<char>, Seq<char>)| resolved(content, e, ending);
    vstd::seq_lib::to_multiset_len(edits);
    vstd::seq_lib::to_multiset_len(reordered);
    lemma_resolve_edits_ok(content, edits, ending, edits.len() as int);
    assert(edits.subrange(0, edits.len() as int) =~= edits);
    assert(reordered.subrange(0, reordered.len() as int) =~= reordered);
    assert forall|i: int| 0 <= i < reordered.len() implies anchor_ok(content, #[trigger] reordered[i], ending) by {
        assert(reordered.contains(reordered[i]));
        vstd::seq_lib::to_multiset_contains(reordered, reordered[i]);
        vstd::seq_lib::to_multiset_contains(edits, reordered[i]);
        let k = choose|k: int| 0 <= k < edits.len() && edits[k] == reordered[i];
        assert(anchor_ok(content, edits[k], ending));
    }
    lemma_resolve_edits_ok(content, reordered, ending, reordered.len() as int);
    let rs1 = edits.map_values(f);
    let rs2 = reordered.map_values(f);
    lemma_map_multiset(edits, reordered, f);
    lemma_sort_ranges(rs1);
    lemma_sort_ranges(rs2);
    let s1 = sort_ranges(rs1);
    let s2 = sort_ranges(rs2);
    assert forall|i: int| 0 <= i < s1.len() implies (#[trigger] s1[i]).0 < s1[i].1 by {
        vstd::seq_lib::to_multiset_len(s1);
        assert(s1.contains(s1[i]));
        vstd::seq_lib::to_multiset_contains(s1, s1[i]);
        vstd::seq_lib::to_multiset_contains(rs1, s1[i]);
        let k = choose|k: int| 0 <= k < rs1.len() && rs1[k] == s1[i];
        assert(anchor_ok(content, edits[k], ending));
        lemma_anchor_nonempty(content, in_endings(edits[k].0, ending));
    }
    lemma_strict(s1);
    lemma_sorted_same(s1, s2);
}

} // verus!
