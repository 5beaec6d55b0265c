//! Text building blocks: decimal numerals, character vectors, line splitting.

use vstd::prelude::*;

verus! {

/// The decimal numeral of `n`, most significant digit first.
pub open spec fn decimal(n: nat) -> Seq<char>
    decreases n,
{
    if n < 10 {
        seq![digit_char(n)]
    } else {
        decimal(n / 10).push(digit_char(n % 10))
    }
}

pub open spec fn digit_char(d: nat) -> char {
    if d == 0 { '0' } else if d == 1 { '1' } else if d == 2 { '2' } else if d == 3 { '3' }
    else if d == 4 { '4' } else if d == 5 { '5' } else if d == 6 { '6' } else if d == 7 { '7' }
    else if d == 8 { '8' } else { '9' }
}

/// Appends one character.
#[verifier::external_body]
pub(crate) fn push_char(s: &mut String, c: char)
    ensures
        final(s)@ == old(s)@.push(c),
{
    s.push(c)
}

/// The characters of `s`, in order.
pub fn chars_of(s: &str) -> (out: Vec<char>)
    ensures
        out@ == s@,
{
    let mut out: Vec<char> = Vec::new();
    let n = s.unicode_len();
    let mut i: usize = 0;
    while i < n
        invariant
            n == s@.len(),
            i <= n,
            out@ == s@.subrange(0, i as int),
        decreases n - i,
    {
        out.push(s.get_char(i));
        i = i + 1;
    }
    out
}

pub fn digit_text(d: u128) -> (c: char)
    requires
        d < 10,
    ensures
        c == digit_char(d as nat),
{
    if d == 0 { '0' } else if d == 1 { '1' } else if d == 2 { '2' } else if d == 3 { '3' }
    else if d == 4 { '4' } else if d == 5 { '5' } else if d == 6 { '6' } else if d == 7 { '7' }
    else if d == 8 { '8' } else { '9' }
}

/// Appends the decimal numeral of `n`.
pub fn push_decimal(s: &mut String, n: u128)
    ensures
        final(s)@ == old(s)@ + decimal(n as nat),
    decreases n,
{
    if n < 10 {
        push_char(s, digit_text(n));
    } else {
        push_decimal(s, n / 10);
        push_char(s, digit_text(n % 10));
    }
}

/// Whether two strings hold the same characters.
pub fn str_eq(a: &str, b: &str) -> (r: bool)
    ensures
        r == (a@ == b@),
{
    let n = a.unicode_len();
    if n != b.unicode_len() {
        return false;
    }
    let mut i: usize = 0;
    while i < n
        invariant
            n == a@.len(),
            n == b@.len(),
            i <= n,
            a@.subrange(0, i as int) == b@.subrange(0, i as int),
        decreases n - i,
    {
        if a.get_char(i) != b.get_char(i) {
            assert(a@[i as int] != b@[i as int]);
            return false;
        }
        assert(a@.subrange(0, i + 1) =~= a@.subrange(0, i as int).push(a@[i as int]));
        assert(b@.subrange(0, i + 1) =~= b@.subrange(0, i as int).push(b@[i as int]));
        i = i + 1;
    }
    assert(a@ =~= a@.subrange(0, n as int));
    assert(b@ =~= b@.subrange(0, n as int));
    true
}

/// Whether `s` begins with `prefix`.
pub fn starts_with(s: &str, prefix: &str) -> (r: bool)
    ensures
        r == (prefix@.len() <= s@.len() && s@.subrange(0, prefix@.len() as int) == prefix@),
{
    let n = prefix.unicode_len();
    if n > s.unicode_len() {
        return false;
    }
    let mut i: usize = 0;
    while i < n
        invariant
            n == prefix@.len(),
            n <= s@.len(),
            i <= n,
            s@.subrange(0, i as int) == prefix@.subrange(0, i as int),
        decreases n - i,
    {
        if s.get_char(i) != prefix.get_char(i) {
            assert(s@.subrange(0, n as int)[i as int] != prefix@[i as int]);
            return false;
        }
        assert(s@.subrange(0, i + 1) =~= s@.subrange(0, i as int).push(s@[i as int]));
        assert(prefix@.subrange(0, i + 1) =~= prefix@.subrange(0, i as int).push(prefix@[i as int]));
        i = i + 1;
    }
    assert(prefix@ =~= prefix@.subrange(0, n as int));
    true
}

/// Whether `p` occurs in `s` at `i`.
pub open spec fn occurs_at(s: Seq<char>, p: Seq<char>, i: int) -> bool {
    0 <= i && i + p.len() <= s.len() && s.subrange(i, i + p.len()) == p
}

/// Whether `p` occurs anywhere in `s`.
pub open spec fn contains_seq(s: Seq<char>, p: Seq<char>) -> bool {
    exists|i: int| occurs_at(s, p, i)
}

/// Whether `p` occurs in `s` at `i`, checked character by character.
pub fn occurs_at_exec(s: &[char], p: &[char], i: usize) -> (r: bool)
    ensures
        r == occurs_at(s@, p@, i as int),
{
    if i > s.len() || p.len() > s.len() - i {
        return false;
    }
    let mut k: usize = 0;
    while k < p.len()
        invariant
            i + p@.len() <= s@.len(),
            i <= s@.len(),
            s@.len() == s.len(),
            p@.len() == p.len(),
            k <= p@.len(),
            s@.subrange(i as int, i + k) == p@.subrange(0, k as int),
        decreases p.len() - k,
    {
        if s[i + k] != p[k] {
            assert(s@.subrange(i as int, i + p@.len())[k as int] != p@[k as int]);
            return false;
        }
        assert(s@.subrange(i as int, i + k + 1) =~= s@.subrange(i as int, i + k).push(s@[i + k]));
        assert(p@.subrange(0, k + 1) =~= p@.subrange(0, k as int).push(p@[k as int]));
        k = k + 1;
    }
    assert(p@ =~= p@.subrange(0, p@.len() as int));
    true
}

/// `s` from position `i` on, with every occurrence of `pat` replaced by
/// `rep`, taken left to right without overlapping (what `str::replace` does;
/// an empty `pat` replaces nothing).
pub open spec fn replace_from(s: Seq<char>, pat: Seq<char>, rep: Seq<char>, i: nat) -> Seq<char>
    decreases s.len() - i,
{
    if i >= s.len() {
        seq![]
    } else if pat.len() > 0 && occurs_at(s, pat, i as int) {
        rep + replace_from(s, pat, rep, (i + pat.len()) as nat)
    } else {
        seq![s[i as int]] + replace_from(s, pat, rep, i + 1)
    }
}

/// `s` with every occurrence of `pat` replaced by `rep`.
pub open spec fn replace_all(s: Seq<char>, pat: Seq<char>, rep: Seq<char>) -> Seq<char> {
    replace_from(s, pat, rep, 0)
}

/// `s` with every occurrence of `pat` replaced by `rep`, as `str::replace`.
pub fn replace_text(s: &str, pat: &str, rep: &str) -> (out: String)
    ensures
        out@ == replace_all(s@, pat@, rep@),
{
    let cs = chars_of(s);
    let ps = chars_of(pat);
    let mut out = String::new();
    let mut i: usize = 0;
    while i < cs.len()
        invariant
            cs@ == s@,
            ps@ == pat@,
            i <= cs@.len(),
            out@ + replace_from(s@, pat@, rep@, i as nat) == replace_all(s@, pat@, rep@),
        decreases cs.len() - i,
    {
        let ghost before = out@;
        if ps.len() > 0 && occurs_at_exec(cs.as_slice(), ps.as_slice(), i) {
            out.append(rep);
            proof {
                let rest = replace_from(s@, pat@, rep@, (i + pat@.len()) as nat);
                assert(before + (rep@ + rest) =~= (before + rep@) + rest);
            }
            i = i + ps.len();
        } else {
            push_char(&mut out, cs[i]);
            proof {
                let rest = replace_from(s@, pat@, rep@, (i + 1) as nat);
                assert(before + (seq![s@[i as int]] + rest) =~= before.push(s@[i as int]) + rest);
            }
            i = i + 1;
        }
    }
    assert(out@ + replace_from(s@, pat@, rep@, i as nat) =~= out@);
    out
}

/// The first position at or after `from` where `p` occurs, `s.len() + 1` if
/// there is none.
pub open spec fn first_occurrence(s: Seq<char>, p: Seq<char>, from: int) -> int
    decreases s.len() + 1 - from,
{
    if from > s.len() || from < 0 {
        s.len() + 1 as int
    } else if occurs_at(s, p, from) {
        from
    } else {
        first_occurrence(s, p, from + 1)
    }
}

pub proof fn lemma_first_occurrence(s: Seq<char>, p: Seq<char>, from: int)
    requires
        0 <= from,
    ensures
        first_occurrence(s, p, from) <= s.len() + 1,
        from <= s.len() + 1 ==> from <= first_occurrence(s, p, from),
        first_occurrence(s, p, from) <= s.len() ==> occurs_at(s, p, first_occurrence(s, p, from)),
        forall|j: int| from <= j < first_occurrence(s, p, from) ==> !occurs_at(s, p, j),
    decreases s.len() + 1 - from,
{
    if from <= s.len() && !occurs_at(s, p, from) {
        lemma_first_occurrence(s, p, from + 1);
    }
}

/// The first position at or after `from` where `p` occurs, `s.len() + 1` if
/// there is none.
pub fn find_from(s: &[char], p: &[char], from: usize) -> (r: usize)
    requires
        s@.len() < usize::MAX,
    ensures
        r as int == first_occurrence(s@, p@, from as int),
{
    proof {
        lemma_first_occurrence(s@, p@, from as int);
    }
    let mut i = from;
    while i <= s.len()
        invariant
            from <= i,
            s@.len() < usize::MAX,
            first_occurrence(s@, p@, from as int) == first_occurrence(s@, p@, i as int),
        decreases s.len() + 1 - i,
    {
        if occurs_at_exec(s, p, i) {
            return i;
        }
        i = i + 1;
    }
    s.len() + 1
}

/// Whether `p` occurs anywhere in `s`.
pub fn contains_exec(s: &[char], p: &[char]) -> (r: bool)
    requires
        s@.len() < usize::MAX,
    ensures
        r == contains_seq(s@, p@),
{
    let at = find_from(s, p, 0);
    proof {
        lemma_first_occurrence(s@, p@, 0);
        if at > s@.len() && contains_seq(s@, p@) {
            let i = choose|i: int| occurs_at(s@, p@, i);
            assert(0 <= i && i < at);
        }
    }
    at <= s.len()
}

/// How many times `p` occurs in `s` from `from` on, counting as
/// `str::match_indices` does: left to right, each match starting where the
/// last one ended (one further along for an empty `p`).
pub open spec fn match_count(s: Seq<char>, p: Seq<char>, from: int) -> nat
    decreases s.len() + 1 - from,
{
    if from > s.len() || from < 0 {
        0
    } else if occurs_at(s, p, from) {
        1 + match_count(s, p, from + if p.len() == 0 { 1 } else { p.len() as int })
    } else {
        match_count(s, p, from + 1)
    }
}

pub proof fn lemma_match_count_bound(s: Seq<char>, p: Seq<char>, from: int)
    requires
        0 <= from,
    ensures
        match_count(s, p, from) <= s.len() + 1 - from || from > s.len(),
        match_count(s, p, from) == 0 <==> first_occurrence(s, p, from) > s.len(),
        first_occurrence(s, p, from) <= s.len() ==> match_count(s, p, from) == 1 + match_count(
            s,
            p,
            first_occurrence(s, p, from) + if p.len() == 0 { 1 } else { p.len() as int },
        ),
    decreases s.len() + 1 - from,
{
    if from <= s.len() {
        let step = if p.len() == 0 { 1 } else { p.len() as int };
        if occurs_at(s, p, from) {
            lemma_match_count_bound(s, p, from + step);
        } else {
            lemma_match_count_bound(s, p, from + 1);
        }
    }
}

/// How many times `p` occurs in `s` from `from` on, as [`match_count`].
pub fn count_matches(s: &[char], p: &[char], from: usize) -> (r: usize)
    requires
        s@.len() < usize::MAX,
    ensures
        r == match_count(s@, p@, from as int),
    decreases s.len() + 1 - from,
{
    proof {
        lemma_match_count_bound(s@, p@, from as int);
    }
    if from > s.len() {
        return 0;
    }
    let at = find_from(s, p, from);
    if at > s.len() {
        return 0;
    }
    let step = if p.len() == 0 { 1 } else { p.len() };
    proof {
        lemma_match_count_bound(s@, p@, (at + step) as int);
        lemma_first_occurrence(s@, p@, from as int);
    }
    let rest = count_matches(s, p, at + step);
    1 + rest
}

/// `char::is_whitespace`: the Unicode `White_Space` property.
pub open spec fn spec_is_whitespace(c: char) -> bool {
    let u = c as u32;
    (0x9 <= u <= 0xd) || u == 0x20 || u == 0x85 || u == 0xa0 || u == 0x1680 || (0x2000 <= u
        <= 0x200a) || u == 0x2028 || u == 0x2029 || u == 0x202f || u == 0x205f || u == 0x3000
}

pub fn is_whitespace(c: char) -> (r: bool)
    ensures
        r == spec_is_whitespace(c),
{
    let u = c as u32;
    (0x9 <= u && u <= 0xd) || u == 0x20 || u == 0x85 || u == 0xa0 || u == 0x1680 || (0x2000 <= u
        && u <= 0x200a) || u == 0x2028 || u == 0x2029 || u == 0x202f || u == 0x205f || u == 0x3000
}

/// Where the leading whitespace of `s` ends.
pub open spec fn trim_start_index(s: Seq<char>, from: int) -> int
    decreases s.len() - from,
{
    if from >= s.len() || from < 0 {
        s.len() as int
    } else if spec_is_whitespace(s[from]) {
        trim_start_index(s, from + 1)
    } else {
        from
    }
}

/// Where the trailing whitespace of `s[..to]` begins.
pub open spec fn trim_end_index(s: Seq<char>, to: int) -> int
    decreases to,
{
    if to <= 0 {
        0
    } else if spec_is_whitespace(s[to - 1]) {
        trim_end_index(s, to - 1)
    } else {
        to
    }
}

pub open spec fn trim_end(s: Seq<char>) -> Seq<char> {
    s.subrange(0, trim_end_index(s, s.len() as int))
}

pub open spec fn trim_start(s: Seq<char>) -> Seq<char> {
    s.subrange(trim_start_index(s, 0), s.len() as int)
}

/// `str::trim`: whitespace off both ends.
pub open spec fn trim(s: Seq<char>) -> Seq<char> {
    trim_end(trim_start(s))
}

pub proof fn lemma_trim_start_index(s: Seq<char>, from: int)
    requires
        0 <= from <= s.len(),
    ensures
        from <= trim_start_index(s, from) <= s.len(),
        forall|j: int| from <= j < trim_start_index(s, from) ==> spec_is_whitespace(#[trigger] s[j]),
        trim_start_index(s, from) < s.len() ==> !spec_is_whitespace(s[trim_start_index(s, from)]),
    decreases s.len() - from,
{
    if from < s.len() && spec_is_whitespace(s[from]) {
        lemma_trim_start_index(s, from + 1);
    }
}

pub proof fn lemma_trim_end_index(s: Seq<char>, to: int)
    requires
        0 <= to <= s.len(),
    ensures
        0 <= trim_end_index(s, to) <= to,
        forall|j: int| trim_end_index(s, to) <= j < to ==> spec_is_whitespace(#[trigger] s[j]),
        trim_end_index(s, to) > 0 ==> !spec_is_whitespace(s[trim_end_index(s, to) - 1]),
    decreases to,
{
    if to > 0 && spec_is_whitespace(s[to - 1]) {
        lemma_trim_end_index(s, to - 1);
    }
}

pub fn trim_end_at(s: &[char], to: usize) -> (r: usize)
    requires
        to <= s@.len(),
    ensures
        r as int == trim_end_index(s@, to as int),
{
    proof {
        lemma_trim_end_index(s@, to as int);
    }
    let mut k = to;
    while k > 0 && is_whitespace(s[k - 1])
        invariant
            k <= to <= s@.len(),
            trim_end_index(s@, k as int) == trim_end_index(s@, to as int),
        decreases k,
    {
        k = k - 1;
    }
    k
}

pub fn trim_start_at(s: &[char], from: usize) -> (r: usize)
    requires
        from <= s@.len(),
    ensures
        r as int == trim_start_index(s@, from as int),
{
    proof {
        lemma_trim_start_index(s@, from as int);
    }
    let mut k = from;
    while k < s.len() && is_whitespace(s[k])
        invariant
            from <= k <= s@.len(),
            trim_start_index(s@, k as int) == trim_start_index(s@, from as int),
        decreases s.len() - k,
    {
        k = k + 1;
    }
    k
}

/// `s[from..to]` as a vector.
pub fn slice_to_vec(s: &[char], from: usize, to: usize) -> (out: Vec<char>)
    requires
        from <= to <= s@.len(),
    ensures
        out@ == s@.subrange(from as int, to as int),
{
    let mut out: Vec<char> = Vec::new();
    let mut i = from;
    while i < to
        invariant
            from <= i <= to <= s@.len(),
            out@ == s@.subrange(from as int, i as int),
        decreases to - i,
    {
        out.push(s[i]);
        i = i + 1;
    }
    out
}

/// `str::trim` on a character slice.
pub fn trim_chars(s: &[char]) -> (out: Vec<char>)
    ensures
        out@ == trim(s@),
{
    let a = trim_start_at(s, 0);
    proof {
        lemma_trim_start_index(s@, 0);
    }
    let t = slice_to_vec(s, a, s.len());
    let b = trim_end_at(&t, t.len());
    proof {
        lemma_trim_end_index(t@, t@.len() as int);
    }
    slice_to_vec(&t, 0, b)
}

/// The first position at or after `from` holding `c`, or `s.len()`.
pub open spec fn index_of(s: Seq<char>, c: char, from: int) -> int
    decreases s.len() - from,
{
    if from >= s.len() || from < 0 {
        s.len() as int
    } else if s[from] == c {
        from
    } else {
        index_of(s, c, from + 1)
    }
}

pub proof fn lemma_index_of_range(s: Seq<char>, c: char, from: int)
    requires
        0 <= from <= s.len(),
    ensures
        from <= index_of(s, c, from) <= s.len(),
        index_of(s, c, from) < s.len() ==> s[index_of(s, c, from)] == c,
        forall|j: int| from <= j < index_of(s, c, from) ==> s[j] != c,
    decreases s.len() - from,
{
    if from < s.len() && s[from] != c {
        lemma_index_of_range(s, c, from + 1);
    }
}

pub proof fn lemma_index_of(s: Seq<char>, c: char, from: int, k: int)
    requires
        0 <= from <= k <= s.len(),
        forall|j: int| from <= j < k ==> s[j] != c,
        k == s.len() || s[k] == c,
    ensures
        index_of(s, c, from) == k,
    decreases k - from,
{
    if from < k {
        lemma_index_of(s, c, from + 1, k);
    }
}

/// A line without its `\r`, when it had one before the `\n`.
pub open spec fn strip_cr(line: Seq<char>) -> Seq<char> {
    if line.len() > 0 && line.last() == '\r' {
        line.drop_last()
    } else {
        line
    }
}

/// `str::lines`: split at `\n`, each line losing a `\r` before its `\n`; a
/// final line break ends the last line rather than starting an empty one.
pub open spec fn lines(s: Seq<char>) -> Seq<Seq<char>>
    decreases s.len(),
{
    if s.len() == 0 {
        seq![]
    } else {
        let k = index_of(s, '\n', 0);
        proof {
            lemma_index_of_range(s, '\n', 0);
        }
        if k >= s.len() {
            seq![s]
        } else {
            seq![strip_cr(s.subrange(0, k))] + lines(s.subrange(k + 1, s.len() as int))
        }
    }
}

pub proof fn lemma_lines_len(s: Seq<char>)
    ensures
        lines(s).len() <= s.len(),
    decreases s.len(),
{
    if s.len() > 0 {
        let k = index_of(s, '\n', 0);
        lemma_index_of_range(s, '\n', 0);
        if k < s.len() {
            lemma_lines_len(s.subrange(k + 1, s.len() as int));
        }
    }
}

pub proof fn lemma_lines_step(x: Seq<char>, y: Seq<char>)
    requires
        !x.contains('\n'),
        y.len() > 0,
        y[0] == '\n',
    ensures
        lines(x + y) == seq![strip_cr(x)] + lines(y.subrange(1, y.len() as int)),
{
    let s = x + y;
    assert forall|j: int| 0 <= j < x.len() implies s[j] != '\n' by {
        assert(s[j] == x[j]);
    }
    lemma_index_of(s, '\n', 0, x.len() as int);
    assert(s.subrange(0, x.len() as int) =~= x);
    assert(s.subrange(x.len() + 1 as int, s.len() as int) =~= y.subrange(1, y.len() as int));
}

pub proof fn lemma_lines_last(x: Seq<char>)
    requires
        !x.contains('\n'),
    ensures
        lines(x) == if x.len() == 0 { seq![] } else { seq![x] },
{
    if x.len() > 0 {
        assert forall|j: int| 0 <= j < x.len() implies x[j] != '\n' by {
            if x[j] == '\n' {
                assert(x.contains('\n'));
            }
        }
        lemma_index_of(x, '\n', 0, x.len() as int);
    }
}

pub open spec fn chars_view(v: Seq<Vec<char>>) -> Seq<Seq<char>> {
    v.map_values(|l: Vec<char>| l@)
}

/// The lines of `s`, as [`lines`] splits them.
pub fn lines_of(s: &[char]) -> (out: Vec<Vec<char>>)
    ensures
        chars_view(out@) == lines(s@),
{
    let mut out: Vec<Vec<char>> = Vec::new();
    let mut cur: Vec<char> = Vec::new();
    let mut i: usize = 0;
    proof {
        assert(cur@ + s@.subrange(0, s@.len() as int) =~= s@);
        assert(chars_view(out@) + lines(s@) =~= lines(s@));
    }
    while i < s.len()
        invariant
            i <= s@.len(),
            !cur@.contains('\n'),
            lines(s@) == chars_view(out@) + lines(cur@ + s@.subrange(i as int, s@.len() as int)),
        decreases s.len() - i,
    {
        let c = s[i];
        let ghost rest = s@.subrange(i as int, s@.len() as int);
        if c == '\n' {
            proof {
                lemma_lines_step(cur@, rest);
                assert(rest.subrange(1, rest.len() as int) =~= s@.subrange(i + 1, s@.len() as int));
                assert(seq![]+ s@.subrange(i + 1, s@.len() as int) =~= s@.subrange(i + 1, s@.len() as int));
            }
            let mut line = cur;
            if line.len() > 0 && line[line.len() - 1] == '\r' {
                line.pop();
            }
            proof {
                assert(line@ == strip_cr(cur@));
                assert(chars_view(out@.push(line)) =~= chars_view(out@) + seq![line@]);
            }
            out.push(line);
            cur = Vec::new();
            proof {
                assert(cur@ + s@.subrange(i + 1, s@.len() as int) =~= s@.subrange(i + 1, s@.len() as int));
            }
        } else {
            proof {
                assert(cur@.push(c) + s@.subrange(i + 1, s@.len() as int) =~= cur@ + rest);
                assert forall|j: int| 0 <= j < cur@.len() + 1 implies cur@.push(c)[j] != '\n' by {
                    if j < cur@.len() {
                        assert(cur@[j] != '\n');
                    }
                }
            }
            cur.push(c);
        }
        i = i + 1;
    }
    proof {
        assert(cur@ + s@.subrange(s@.len() as int, s@.len() as int) =~= cur@);
        lemma_lines_last(cur@);
    }
    if cur.len() > 0 {
        proof {
            assert(chars_view(out@.push(cur)) =~= chars_view(out@) + seq![cur@]);
        }
        out.push(cur);
    } else {
        assert(chars_view(out@) + seq![] =~= chars_view(out@));
    }
    out
}

/// The text of a character slice.
pub fn text_of(v: &[char]) -> (s: String)
    ensures
        s@ == v@,
{
    let mut s = String::new();
    let mut i: usize = 0;
    while i < v.len()
        invariant
            i <= v@.len(),
            s@ == v@.subrange(0, i as int),
        decreases v.len() - i,
    {
        push_char(&mut s, v[i]);
        assert(v@.subrange(0, i + 1) =~= v@.subrange(0, i as int).push(v@[i as int]));
        i = i + 1;
    }
    assert(v@ =~= v@.subrange(0, v@.len() as int));
    s
}

/// Appends the characters of a slice.
pub fn push_chars(s: &mut String, v: &[char])
    ensures
        final(s)@ == old(s)@ + v@,
{
    let ghost start = s@;
    let mut i: usize = 0;
    while i < v.len()
        invariant
            i <= v@.len(),
            s@ == start + v@.subrange(0, i as int),
        decreases v.len() - i,
    {
        push_char(s, v[i]);
        assert(v@.subrange(0, i + 1) =~= v@.subrange(0, i as int).push(v@[i as int]));
        assert(start + v@.subrange(0, i + 1) =~= (start + v@.subrange(0, i as int)).push(v@[i as int]));
        i = i + 1;
    }
    assert(v@ =~= v@.subrange(0, v@.len() as int));
}

/// What `char::is_alphanumeric` says of `c`: Unicode's Alphabetic or
/// Numeric property.
pub uninterp spec fn char_alphanumeric(c: char) -> bool;

/// `char::is_alphanumeric`. Its tables are Unicode's; the result is named
/// rather than restated.
#[verifier::external_body]
pub(crate) fn is_alphanumeric(c: char) -> (r: bool)
    ensures
        r == char_alphanumeric(c),
{
    c.is_alphanumeric()
}

/// The parts with `sep` between each two.
pub open spec fn join(parts: Seq<Seq<char>>, sep: Seq<char>) -> Seq<char>
    decreases parts.len(),
{
    if parts.len() == 0 {
        seq![]
    } else if parts.len() == 1 {
        parts[0]
    } else {
        join(parts.drop_last(), sep) + sep + parts.last()
    }
}

pub open spec fn strs_view(v: Seq<String>) -> Seq<Seq<char>> {
    v.map_values(|s: String| s@)
}

/// Appends the parts with `sep` between each two.
pub fn push_joined(out: &mut String, parts: &Vec<String>, sep: &str)
    ensures
        final(out)@ == old(out)@ + join(strs_view(parts@), sep@),
{
    let ghost start = out@;
    let ghost pv = strs_view(parts@);
    let mut i: usize = 0;
    while i < parts.len()
        invariant
            i <= parts@.len(),
            pv == strs_view(parts@),
            out@ == start + join(pv.subrange(0, i as int), sep@),
        decreases parts.len() - i,
    {
        let ghost before = out@;
        if i > 0 {
            out.append(sep);
        }
        out.append(parts[i].as_str());
        proof {
            let pre = pv.subrange(0, i + 1);
            assert(pre.drop_last() =~= pv.subrange(0, i as int));
            assert(pre.last() == parts@[i as int]@);
            if i == 0 {
                assert(join(pv.subrange(0, 0), sep@) =~= seq![]);
                assert(start + seq![] =~= start);
            } else {
                assert(out@ =~= start + join(pre, sep@));
            }
        }
        i = i + 1;
    }
    assert(pv.subrange(0, parts@.len() as int) =~= pv);
}

/// Whether `s` is empty or only whitespace.
pub fn is_blank(s: &str) -> (r: bool)
    ensures
        r == (trim(s@).len() == 0),
{
    let c = chars_of(s);
    let t = trim_chars(&c);
    t.len() == 0
}

/// Appends `s` without its trailing whitespace.
pub fn push_trim_end(out: &mut String, s: &str)
    ensures
        final(out)@ == old(out)@ + trim_end(s@),
{
    let c = chars_of(s);
    let e = trim_end_at(&c, c.len());
    proof {
        lemma_trim_end_index(c@, c@.len() as int);
    }
    let t = slice_to_vec(&c, 0, e);
    push_chars(out, &t);
}

/// The decimal numeral of a signed number.
pub open spec fn signed_decimal(i: int) -> Seq<char> {
    if i < 0 {
        seq!['-'] + decimal((-i) as nat)
    } else {
        decimal(i as nat)
    }
}

pub fn push_signed(s: &mut String, i: i32)
    ensures
        final(s)@ == old(s)@ + signed_decimal(i as int),
{
    if i < 0 {
        push_char(s, '-');
        let m: u128 = if i == i32::MIN { 2147483648u128 } else { (-i) as u128 };
        push_decimal(s, m);
        assert(old(s)@.push('-') + decimal(m as nat) =~= old(s)@ + (seq!['-'] + decimal(m as nat)));
    } else {
        push_decimal(s, i as u128);
    }
}

} // verus!
