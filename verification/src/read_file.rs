//! Reading one file's text, optionally narrowed to a line range, within a
//! size limit; and the registry of what the agent has read, which guards
//! writes.
//!
//! An out-of-range range is clamped rather than refused. One read sends at
//! most [`MAX_READ_LINES`] lines and [`MAX_READ_BYTES`] bytes and says where
//! it stopped; a large log or data file read without a range stops after
//! [`DATA_HEAD_LINES`] lines.

use vstd::prelude::*;

use std::collections::hash_map::DefaultHasher;
use std::hash::Hasher;
use vstd::std_specs::hash::DefaultHasherAdditionalSpecFns;
use vstd::utf8::encode_utf8;

use crate::text::{chars_of, chars_view, join, lines, lines_of, push_char, push_chars, slice_to_vec, str_eq};
use crate::resolve::{last_index_of, last_index_of_exec, lemma_last_index_of, spec_basename};
use crate::tool_types::ToolResult;

verus! {

/// The most lines one read returns.
pub const MAX_READ_LINES: u32 = 2000;

/// The most bytes one read returns.
pub const MAX_READ_BYTES: usize = 100000;

/// Where a read of a large log or data file without a range stops.
pub const DATA_HEAD_LINES: u32 = 50;

/// Above this many bytes a log or data file is large.
pub const DATA_WHOLE_BYTES: usize = 20000;

// ----- byte lengths -----

/// The number of bytes UTF-8 spends on `c`.
pub open spec fn utf8_width(c: char) -> nat {
    let v = c as u32;
    if v < 0x80 {
        1
    } else if v < 0x800 {
        2
    } else if v < 0x10000 {
        3
    } else {
        4
    }
}

/// The number of bytes of the UTF-8 text of `s`.
pub open spec fn byte_len(s: Seq<char>) -> nat
    decreases s.len(),
{
    if s.len() == 0 {
        0
    } else {
        byte_len(s.drop_last()) + utf8_width(s.last())
    }
}

pub fn char_width(c: char) -> (w: usize)
    ensures
        w == utf8_width(c),
{
    let v = c as u32;
    if v < 0x80 {
        1
    } else if v < 0x800 {
        2
    } else if v < 0x10000 {
        3
    } else {
        4
    }
}

pub proof fn lemma_byte_len_prefix(s: Seq<char>, i: int)
    requires
        0 <= i <= s.len(),
    ensures
        byte_len(s.subrange(0, i)) <= byte_len(s),
    decreases s.len() - i,
{
    if i < s.len() {
        lemma_byte_len_prefix(s, i + 1);
        assert(s.subrange(0, i + 1).drop_last() =~= s.subrange(0, i));
    } else {
        assert(s.subrange(0, i) =~= s);
    }
}

/// `byte_len(s)` where it is at most `cap`, and `cap + 1` where it is more.
pub fn byte_len_capped(s: &[char], cap: usize) -> (r: usize)
    requires
        cap < usize::MAX,
    ensures
        r == if byte_len(s@) <= cap { byte_len(s@) } else { (cap + 1) as nat },
{
    let mut total: usize = 0;
    let mut i: usize = 0;
    while i < s.len()
        invariant
            i <= s@.len(),
            cap < usize::MAX,
            total == byte_len(s@.subrange(0, i as int)),
            total <= cap,
        decreases s.len() - i,
    {
        let w = char_width(s[i]);
        assert(s@.subrange(0, i + 1).drop_last() =~= s@.subrange(0, i as int));
        if w > cap - total {
            proof {
                lemma_byte_len_prefix(s@, i + 1);
            }
            return cap + 1;
        }
        total = total + w;
        i = i + 1;
    }
    assert(s@.subrange(0, s@.len() as int) =~= s@);
    total
}

/// How many characters from `i` on fit in `budget` bytes, taken whole.
pub open spec fn fitting_chars(s: Seq<char>, i: int, budget: nat) -> nat
    decreases s.len() - i,
{
    if i >= s.len() || utf8_width(s[i]) > budget {
        0
    } else {
        1 + fitting_chars(s, i + 1, (budget - utf8_width(s[i])) as nat)
    }
}

fn fitting_chars_exec(s: &[char], budget: usize) -> (r: usize)
    ensures
        r == fitting_chars(s@, 0, budget as nat),
        r <= s@.len(),
{
    let mut i: usize = 0;
    let mut left = budget;
    while i < s.len() && char_width(s[i]) <= left
        invariant
            i <= s@.len(),
            left <= budget,
            fitting_chars(s@, 0, budget as nat) == i + fitting_chars(s@, i as int, left as nat),
        decreases s.len() - i,
    {
        left = left - char_width(s[i]);
        i = i + 1;
    }
    i
}

// ----- the slice of a file a read returns -----

/// How many lines from `i` (below `hi`) a read takes: whole lines, each with
/// its line break, while both the line and the byte allowance hold.
pub open spec fn lines_taken(ls: Seq<Seq<char>>, i: int, hi: int, lines_left: nat, bytes_left: nat) -> nat
    decreases hi - i,
{
    if i >= hi || lines_left == 0 || byte_len(ls[i]) + 1 > bytes_left {
        0
    } else {
        1 + lines_taken(ls, i + 1, hi, (lines_left - 1) as nat, (bytes_left - byte_len(ls[i]) - 1) as nat)
    }
}

pub open spec fn clamp(v: int, lo: int, hi: int) -> int {
    if v < lo {
        lo
    } else if v > hi {
        hi
    } else {
        v
    }
}

/// Whether a read is of the whole file and within both limits, so that the
/// text comes back exactly as it is.
pub open spec fn read_is_whole(c: Seq<char>, start: Option<u32>, end: Option<u32>, max_lines: u32) -> bool {
    start is None && end is None && lines(c).len() <= max_lines && byte_len(c) <= MAX_READ_BYTES
}

/// The first line a read returns: the one asked for, clamped into the file.
pub open spec fn slice_start(c: Seq<char>, start: Option<u32>) -> int {
    clamp(if let Some(s) = start { s as int } else { 1 }, 1, lines(c).len() as int)
}

/// The last line asked for, clamped into `[slice_start, total]`.
pub open spec fn slice_asked_end(c: Seq<char>, start: Option<u32>, end: Option<u32>) -> int {
    let total = lines(c).len() as int;
    clamp(if let Some(e) = end { e as int } else { total }, slice_start(c, start), total)
}

pub open spec fn slice_taken(c: Seq<char>, start: Option<u32>, end: Option<u32>, max_lines: u32) -> nat {
    lines_taken(
        lines(c),
        slice_start(c, start) - 1,
        slice_asked_end(c, start, end),
        max_lines as nat,
        MAX_READ_BYTES as nat,
    )
}

/// Whether the range was cut to fit the file.
pub open spec fn slice_clamped(c: Seq<char>, start: Option<u32>, end: Option<u32>) -> bool {
    (start matches Some(s) && s != slice_start(c, start)) || (end matches Some(e) && e
        != slice_asked_end(c, start, end))
}

/// The last line a read returns.
pub open spec fn slice_end(c: Seq<char>, start: Option<u32>, end: Option<u32>, max_lines: u32) -> int {
    let taken = slice_taken(c, start, end, max_lines);
    if taken == 0 {
        slice_start(c, start)
    } else {
        slice_start(c, start) + taken - 1
    }
}

/// The text a read returns: the lines taken, each ending in a line break; or,
/// where not even the first line fits, as much of it as fits in
/// [`MAX_READ_BYTES`], cut between characters.
pub open spec fn slice_text(c: Seq<char>, start: Option<u32>, end: Option<u32>, max_lines: u32) -> Seq<char> {
    let ls = lines(c);
    let first = slice_start(c, start) - 1;
    let taken = slice_taken(c, start, end, max_lines);
    if taken == 0 {
        ls[first].subrange(0, fitting_chars(ls[first], 0, MAX_READ_BYTES as nat) as int) + seq!['\n']
    } else {
        join(ls.subrange(first, first + taken), seq!['\n']) + seq!['\n']
    }
}

/// What a read of `c` returns.
pub open spec fn is_slice_of(
    r: ToolResult,
    c: Seq<char>,
    start: Option<u32>,
    end: Option<u32>,
    max_lines: u32,
) -> bool {
    let total = lines(c).len();
    match r {
        ToolResult::File { content, start_line, end_line, total_lines, clamped, truncated } => {
            total_lines == total && if read_is_whole(c, start, end, max_lines) {
                &&& content@ == c
                &&& start_line == (if total == 0 { 0nat } else { 1nat })
                &&& end_line == total
                &&& !clamped
                &&& !truncated
            } else if total == 0 {
                &&& content@ == Seq::<char>::empty()
                &&& start_line == 0
                &&& end_line == 0
                &&& !clamped
                &&& !truncated
            } else {
                &&& content@ == slice_text(c, start, end, max_lines)
                &&& start_line == slice_start(c, start)
                &&& end_line == slice_end(c, start, end, max_lines)
                &&& clamped == slice_clamped(c, start, end)
                &&& truncated == (slice_taken(c, start, end, max_lines) == 0 || slice_end(
                    c,
                    start,
                    end,
                    max_lines,
                ) < slice_asked_end(c, start, end))
            }
        },
        _ => false,
    }
}

/// The lines `ls[from..to]` joined by line breaks.
fn push_line_range(out: &mut String, ls: &Vec<Vec<char>>, from: usize, to: usize)
    requires
        from < to <= ls@.len(),
    ensures
        final(out)@ == old(out)@ + join(chars_view(ls@).subrange(from as int, to as int), seq!['\n']),
{
    let ghost start = out@;
    let ghost lv = chars_view(ls@);
    push_chars(out, ls[from].as_slice());
    assert(join(lv.subrange(from as int, from + 1), seq!['\n']) =~= lv[from as int]);
    let mut i = from + 1;
    while i < to
        invariant
            from < i <= to <= ls@.len(),
            lv == chars_view(ls@),
            out@ == start + join(lv.subrange(from as int, i as int), seq!['\n']),
        decreases to - i,
    {
        push_char(out, '\n');
        push_chars(out, ls[i].as_slice());
        proof {
            let pre = lv.subrange(from as int, i + 1);
            assert(pre.drop_last() =~= lv.subrange(from as int, i as int));
            assert(pre.last() == lv[i as int]);
            assert(out@ =~= start + join(pre, seq!['\n']));
        }
        i = i + 1;
    }
}

fn lines_taken_exec(ls: &Vec<Vec<char>>, from: usize, hi: usize, max_lines: u32) -> (r: u32)
    requires
        from <= hi <= ls@.len(),
    ensures
        r == lines_taken(chars_view(ls@), from as int, hi as int, max_lines as nat, MAX_READ_BYTES as nat),
        r <= hi - from,
{
    let ghost lv = chars_view(ls@);
    let mut taken: u32 = 0;
    let mut bytes: usize = 0;
    let mut i = from;
    while i < hi
        invariant
            from <= i <= hi <= ls@.len(),
            lv == chars_view(ls@),
            i == from + taken,
            taken <= max_lines,
            bytes <= MAX_READ_BYTES,
            lines_taken(lv, from as int, hi as int, max_lines as nat, MAX_READ_BYTES as nat) == taken
                + lines_taken(lv, i as int, hi as int, (max_lines - taken) as nat, (MAX_READ_BYTES - bytes) as nat),
        ensures
            lines_taken(lv, i as int, hi as int, (max_lines - taken) as nat, (MAX_READ_BYTES - bytes) as nat) == 0,
            i == from + taken,
            i <= hi,
        decreases hi - i,
    {
        if taken == max_lines {
            break;
        }
        let room = MAX_READ_BYTES - bytes;
        let w = byte_len_capped(ls[i].as_slice(), room);
        if w + 1 > room {
            assert(byte_len(lv[i as int]) + 1 > room);
            break;
        }
        bytes = bytes + w + 1;
        taken = taken + 1;
        i = i + 1;
    }
    taken
}

/// One read of `content`: the lines from `start_line` to `end_line`, each
/// clamped into the file (an end below the start rises to it), within
/// `max_lines` lines and [`MAX_READ_BYTES`] bytes. A whole file within both
/// limits comes back exactly as it is.
pub fn slice_lines(content: &str, start_line: Option<u32>, end_line: Option<u32>, max_lines: u32) -> (r: ToolResult)
    requires
        lines(content@).len() <= u32::MAX,
    ensures
        is_slice_of(r, content@, start_line, end_line, max_lines),
{
    let chars = chars_of(content);
    let ls = lines_of(chars.as_slice());
    let ghost lv = chars_view(ls@);
    assert(lv == lines(content@));
    let total = ls.len() as u32;
    let whole = start_line.is_none() && end_line.is_none();
    if whole && total <= max_lines && byte_len_capped(chars.as_slice(), MAX_READ_BYTES) <= MAX_READ_BYTES {
        let text = text_copy(content);
        return ToolResult::File {
            content: text,
            start_line: if total == 0 { 0 } else { 1 },
            end_line: total,
            total_lines: total,
            clamped: false,
            truncated: false,
        };
    }
    if total == 0 {
        return ToolResult::File {
            content: String::new(),
            start_line: 0,
            end_line: 0,
            total_lines: 0,
            clamped: false,
            truncated: false,
        };
    }
    let asked_start = match start_line {
        Some(s) => s,
        None => 1,
    };
    let start = if asked_start < 1 { 1 } else if asked_start > total { total } else { asked_start };
    let asked_end_raw = match end_line {
        Some(e) => e,
        None => total,
    };
    let asked_end = if asked_end_raw < start {
        start
    } else if asked_end_raw > total {
        total
    } else {
        asked_end_raw
    };
    let clamped = match start_line {
        Some(s) => s != start,
        None => false,
    } || match end_line {
        Some(e) => e != asked_end,
        None => false,
    };
    assert(start == slice_start(content@, start_line));
    assert(asked_end == slice_asked_end(content@, start_line, end_line));
    let first = (start - 1) as usize;
    let taken = lines_taken_exec(&ls, first, asked_end as usize, max_lines);
    let mut text = String::new();
    let end;
    if taken == 0 {
        end = start;
        let line = &ls[first];
        let cut = fitting_chars_exec(line.as_slice(), MAX_READ_BYTES);
        let part = slice_to_vec(line.as_slice(), 0, cut);
        push_chars(&mut text, part.as_slice());
    } else {
        assert(taken as int <= asked_end - start + 1);
        end = (start - 1) + taken;
        push_line_range(&mut text, &ls, first, first + taken as usize);
    }
    push_char(&mut text, '\n');
    assert(taken == slice_taken(content@, start_line, end_line, max_lines));
    assert(end == slice_end(content@, start_line, end_line, max_lines));
    assert(clamped == slice_clamped(content@, start_line, end_line));
    assert(text@ == slice_text(content@, start_line, end_line, max_lines));
    ToolResult::File {
        content: text,
        start_line: start,
        end_line: end,
        total_lines: total,
        clamped,
        truncated: taken == 0 || end < asked_end,
    }
}

/// A copy of a string's text.
fn text_copy(s: &str) -> (t: String)
    ensures
        t@ == s@,
{
    let mut t = String::new();
    t.append(s);
    t
}

// ----- the registry of reads -----

/// Why a write or a deletion is refused.
#[derive(Debug, Clone, Copy, PartialEq, Eq, Structural)]
pub enum WriteBlocked {
    /// The file was never read this turn.
    NeverRead,
    /// Only part of it was read, and the change needs all of it.
    ReadInPart,
    /// It changed on disk since it was read.
    ChangedSinceRead,
}

/// The hash the registry keeps of a file's text: `DefaultHasher` over its
/// UTF-8 bytes.
pub open spec fn content_hash(s: Seq<char>) -> u64 {
    DefaultHasher::spec_finish(seq![encode_utf8(s)])
}

pub fn hash_text(s: &str) -> (h: u64)
    ensures
        h == content_hash(s@),
{
    let mut hasher = DefaultHasher::new();
    hasher.write(s.as_bytes());
    hasher.finish()
}

struct ReadRecord {
    path: String,
    hash: u64,
    whole: bool,
}

/// What the agent has read this turn: for each file, by its path relative to
/// the root, the hash of the text it saw and whether it saw all of it.
pub struct ReadFiles {
    records: Vec<ReadRecord>,
}

/// The latest record of `p`.
spec fn find_record(rs: Seq<ReadRecord>, p: Seq<char>) -> Option<(u64, bool)>
    decreases rs.len(),
{
    if rs.len() == 0 {
        None
    } else if rs.last().path@ == p {
        Some((rs.last().hash, rs.last().whole))
    } else {
        find_record(rs.drop_last(), p)
    }
}

impl View for ReadFiles {
    type V = Map<Seq<char>, (u64, bool)>;

    closed spec fn view(&self) -> Map<Seq<char>, (u64, bool)> {
        Map::new(
            |p: Seq<char>| find_record(self.records@, p) is Some,
            |p: Seq<char>| find_record(self.records@, p).unwrap(),
        )
    }
}

proof fn lemma_find_none(rs: Seq<ReadRecord>, p: Seq<char>)
    requires
        forall|j: int| 0 <= j < rs.len() ==> rs[j].path@ != p,
    ensures
        find_record(rs, p) is None,
    decreases rs.len(),
{
    if rs.len() > 0 {
        lemma_find_none(rs.drop_last(), p);
    }
}

proof fn lemma_find_last(rs: Seq<ReadRecord>, i: int, p: Seq<char>)
    requires
        0 <= i < rs.len(),
        rs[i].path@ == p,
        forall|j: int| i < j < rs.len() ==> rs[j].path@ != p,
    ensures
        find_record(rs, p) == Some((rs[i].hash, rs[i].whole)),
    decreases rs.len(),
{
    if i < rs.len() - 1 {
        lemma_find_last(rs.drop_last(), i, p);
    }
}

proof fn lemma_find_update(rs: Seq<ReadRecord>, i: int, r: ReadRecord, q: Seq<char>)
    requires
        0 <= i < rs.len(),
        rs[i].path@ == r.path@,
        forall|j: int| i < j < rs.len() ==> rs[j].path@ != r.path@,
    ensures
        find_record(rs.update(i, r), q) == if q == r.path@ {
            Some((r.hash, r.whole))
        } else {
            find_record(rs, q)
        },
    decreases rs.len(),
{
    let u = rs.update(i, r);
    if i < rs.len() - 1 {
        assert(u.drop_last() =~= rs.drop_last().update(i, r));
        lemma_find_update(rs.drop_last(), i, r, q);
    } else {
        assert(u.drop_last() =~= rs.drop_last());
        if q != r.path@ {
            assert(find_record(rs, q) == find_record(rs.drop_last(), q));
        }
    }
}

/// What a read records: the new hash, and whole where this read was whole or
/// an earlier whole read saw this same text.
pub open spec fn after_read(m: Map<Seq<char>, (u64, bool)>, p: Seq<char>, content: Seq<char>, whole: bool) -> Map<
    Seq<char>,
    (u64, bool),
> {
    let h = content_hash(content);
    m.insert(p, (h, whole || (m.contains_key(p) && m[p].0 == h && m[p].1)))
}

/// What the agent's own write records: the new hash, and whole where this
/// write was whole or the file had been read whole before.
pub open spec fn after_write(m: Map<Seq<char>, (u64, bool)>, p: Seq<char>, content: Seq<char>, whole: bool) -> Map<
    Seq<char>,
    (u64, bool),
> {
    m.insert(p, (content_hash(content), whole || (m.contains_key(p) && m[p].1)))
}

/// Whether a change to `p`, whose text is now `content`, may go ahead. One
/// that replaces or removes the whole file (`whole`) needs the file to have
/// been read, whole, as it is now. An anchored edit needs no read, its anchor
/// being the check; but where the file was read, it must not have changed
/// since.
pub open spec fn check_outcome(m: Map<Seq<char>, (u64, bool)>, p: Seq<char>, content: Seq<char>, whole: bool) -> Result<
    (),
    WriteBlocked,
> {
    if !m.contains_key(p) {
        if whole {
            Err(WriteBlocked::NeverRead)
        } else {
            Ok(())
        }
    } else if m[p].0 != content_hash(content) {
        Err(WriteBlocked::ChangedSinceRead)
    } else if whole && !m[p].1 {
        Err(WriteBlocked::ReadInPart)
    } else {
        Ok(())
    }
}

impl ReadFiles {
    /// A registry with nothing read.
    pub fn new() -> (r: Self)
        ensures
            r@ == Map::<Seq<char>, (u64, bool)>::empty(),
    {
        let r = ReadFiles { records: Vec::new() };
        assert(r@ =~= Map::<Seq<char>, (u64, bool)>::empty());
        r
    }

    /// The index of the latest record of `path`.
    fn last_index(&self, path: &str) -> (r: Option<usize>)
        ensures
            match r {
                Some(i) => {
                    &&& i < self.records@.len()
                    &&& self.records@[i as int].path@ == path@
                    &&& forall|j: int| i < j < self.records@.len() ==> self.records@[j].path@ != path@
                },
                None => forall|j: int| 0 <= j < self.records@.len() ==> self.records@[j].path@ != path@,
            },
    {
        let mut i = self.records.len();
        while i > 0
            invariant
                i <= self.records@.len(),
                forall|j: int| i <= j < self.records@.len() ==> self.records@[j].path@ != path@,
            decreases i,
        {
            if str_eq(self.records[i - 1].path.as_str(), path) {
                return Some(i - 1);
            }
            i = i - 1;
        }
        None
    }

    /// What is recorded of `path`: the hash of the text seen, and whether all
    /// of it was seen.
    pub fn lookup(&self, path: &str) -> (r: Option<(u64, bool)>)
        ensures
            r == if self@.contains_key(path@) {
                Some(self@[path@])
            } else {
                None::<(u64, bool)>
            },
    {
        match self.last_index(path) {
            Some(i) => {
                proof {
                    lemma_find_last(self.records@, i as int, path@);
                }
                Some((self.records[i].hash, self.records[i].whole))
            },
            None => {
                proof {
                    lemma_find_none(self.records@, path@);
                }
                None
            },
        }
    }

    fn put(&mut self, path: &str, hash: u64, whole: bool)
        ensures
            final(self)@ == old(self)@.insert(path@, (hash, whole)),
    {
        let mut owned = String::new();
        owned.append(path);
        let rec = ReadRecord { path: owned, hash, whole };
        match self.last_index(path) {
            Some(i) => {
                proof {
                    lemma_find_update(self.records@, i as int, rec, path@);
                    assert forall|q: Seq<char>| true implies find_record(self.records@.update(i as int, rec), q)
                        == (if q == path@ {
                        Some((hash, whole))
                    } else {
                        find_record(self.records@, q)
                    }) by {
                        lemma_find_update(self.records@, i as int, rec, q);
                    }
                }
                self.records.set(i, rec);
            },
            None => {
                self.records.push(rec);
                proof {
                    assert forall|q: Seq<char>| true implies find_record(self.records@, q) == (if q == path@ {
                        Some((hash, whole))
                    } else {
                        find_record(old(self).records@, q)
                    }) by {
                        assert(self.records@.drop_last() =~= old(self).records@);
                    }
                }
            },
        }
        assert(self@ =~= old(self)@.insert(path@, (hash, whole)));
    }

    /// Records a read of `path` whose text was `content`; `whole` where the
    /// agent saw all of it.
    pub fn record(&mut self, path: &str, content: &str, whole: bool)
        ensures
            final(self)@ == after_read(old(self)@, path@, content@, whole),
    {
        let h = hash_text(content);
        let was_whole = match self.lookup(path) {
            Some((old_hash, old_whole)) => old_hash == h && old_whole,
            None => false,
        };
        self.put(path, h, whole || was_whole);
    }

    /// Records the agent's own write of `content` to `path`; `whole` where it
    /// replaced the file whole.
    pub fn record_write(&mut self, path: &str, content: &str, whole: bool)
        ensures
            final(self)@ == after_write(old(self)@, path@, content@, whole),
    {
        let h = hash_text(content);
        let was_whole = match self.lookup(path) {
            Some((_, old_whole)) => old_whole,
            None => false,
        };
        self.put(path, h, whole || was_whole);
    }

    /// Whether a change to `path`, whose text on disk is `content`, may go
    /// ahead; `whole` for one that replaces or removes the whole file.
    pub fn check(&self, path: &str, content: &str, whole: bool) -> (r: Result<(), WriteBlocked>)
        ensures
            r == check_outcome(self@, path@, content@, whole),
    {
        match self.lookup(path) {
            None => {
                if whole {
                    Err(WriteBlocked::NeverRead)
                } else {
                    Ok(())
                }
            },
            Some((h, seen_whole)) => {
                if h != hash_text(content) {
                    Err(WriteBlocked::ChangedSinceRead)
                } else if whole && !seen_whole {
                    Err(WriteBlocked::ReadInPart)
                } else {
                    Ok(())
                }
            },
        }
    }
}

impl Default for ReadFiles {
    fn default() -> (r: Self)
        ensures
            r@ == Map::<Seq<char>, (u64, bool)>::empty(),
    {
        ReadFiles::new()
    }
}

/// A read of a file the agent then changes whole unlocks that change, as long
/// as the text has not changed since.
pub proof fn law_a_whole_read_unlocks_every_change(m: Map<Seq<char>, (u64, bool)>, p: Seq<char>, c: Seq<char>, whole: bool)
    ensures
        check_outcome(after_read(m, p, c, true), p, c, whole) == Ok::<(), WriteBlocked>(()),
{
}

/// After its own write, the agent may change the file again: a second write
/// is never refused as changed since it was read.
pub proof fn law_own_write_is_known(m: Map<Seq<char>, (u64, bool)>, p: Seq<char>, c: Seq<char>, whole: bool)
    ensures
        check_outcome(after_write(m, p, c, whole), p, c, false) == Ok::<(), WriteBlocked>(()),
        check_outcome(after_write(m, p, c, whole), p, c, true) == if whole || (m.contains_key(p) && m[p].1) {
            Ok::<(), WriteBlocked>(())
        } else {
            Err(WriteBlocked::ReadInPart)
        },
{
}

/// A partial read followed by a partial write does not unlock replacing the
/// file whole; it does unlock a further anchored edit.
pub proof fn law_partial_write_keeps_partial(p: Seq<char>, c1: Seq<char>, c2: Seq<char>)
    ensures
        ({
            let m = after_write(after_read(Map::empty(), p, c1, false), p, c2, false);
            &&& check_outcome(m, p, c2, true) == Err::<(), WriteBlocked>(WriteBlocked::ReadInPart)
            &&& check_outcome(m, p, c2, false) == Ok::<(), WriteBlocked>(())
        }),
{
}

/// Text whose hash differs from what was read is always refused as changed.
pub proof fn law_a_changed_file_is_refused(m: Map<Seq<char>, (u64, bool)>, p: Seq<char>, c: Seq<char>, whole: bool)
    requires
        m.contains_key(p),
        m[p].0 != content_hash(c),
    ensures
        check_outcome(m, p, c, whole) == Err::<(), WriteBlocked>(WriteBlocked::ChangedSinceRead),
{
}

/// Replacing or deleting a file never read is refused as such; an anchored
/// edit of it is not.
pub proof fn law_nothing_read_nothing_replaced(p: Seq<char>, c: Seq<char>)
    ensures
        check_outcome(Map::empty(), p, c, true) == Err::<(), WriteBlocked>(WriteBlocked::NeverRead),
        check_outcome(Map::empty(), p, c, false) == Ok::<(), WriteBlocked>(()),
{
}

/// An edit of a file never read does not unlock replacing it: the file then
/// counts as read in part.
pub proof fn law_an_unread_edit_is_a_partial_read(p: Seq<char>, before: Seq<char>, after: Seq<char>)
    ensures
        check_outcome(after_write(Map::empty(), p, after, false), p, after, true) == Err::<(), WriteBlocked>(
            WriteBlocked::ReadInPart,
        ),
{
}

/// Reading part of a file it already read whole, unchanged, does not take
/// back the licence to replace it.
pub proof fn law_a_partial_reread_keeps_whole(m: Map<Seq<char>, (u64, bool)>, p: Seq<char>, c: Seq<char>)
    requires
        check_outcome(m, p, c, true) == Ok::<(), WriteBlocked>(()),
    ensures
        check_outcome(after_read(m, p, c, false), p, c, true) == Ok::<(), WriteBlocked>(()),
{
}

// ----- reading a file -----

pub open spec fn ascii_lower(c: char) -> char {
    if 65 <= c as u32 <= 90 {
        ((c as u32) + 32) as char
    } else {
        c
    }
}

fn ascii_lower_exec(c: char) -> (r: char)
    ensures
        r == ascii_lower(c),
{
    let v = c as u32;
    if 65 <= v && v <= 90 {
        let b = (v as u8) + 32;
        b as char
    } else {
        c
    }
}

/// A path's extension: its last segment from the last `.` on, in lower
/// case; empty where there is no `.`.
pub open spec fn extension_of(path: Seq<char>) -> Seq<char> {
    let name = spec_basename(path);
    let dot = last_index_of(name, '.');
    if dot < 0 {
        seq![]
    } else {
        name.subrange(dot, name.len() as int).map_values(|c: char| ascii_lower(c))
    }
}

/// Log and data files, by extension: read by searching, not start to end.
pub open spec fn is_data_path(path: Seq<char>) -> bool {
    let e = extension_of(path);
    e == ".log"@ || e == ".csv"@ || e == ".tsv"@ || e == ".jsonl"@ || e == ".ndjson"@
}

fn extension_exec(path: &str) -> (e: String)
    ensures
        e@ == extension_of(path@),
{
    let name = crate::resolve::basename(path);
    let cs = chars_of(name.as_str());
    proof {
        lemma_last_index_of(cs@, '.');
    }
    let mut e = String::new();
    match last_index_of_exec(cs.as_slice(), '.') {
        None => {
            assert(e@ =~= extension_of(path@));
        },
        Some(d) => {
            let ghost tail = cs@.subrange(d as int, cs@.len() as int);
            let mut i = d;
            while i < cs.len()
                invariant
                    d <= i <= cs@.len(),
                    tail == cs@.subrange(d as int, cs@.len() as int),
                    e@ == tail.subrange(0, i - d).map_values(|c: char| ascii_lower(c)),
                decreases cs.len() - i,
            {
                push_char(&mut e, ascii_lower_exec(cs[i]));
                assert(tail.subrange(0, i + 1 - d).map_values(|c: char| ascii_lower(c)) =~= tail.subrange(
                    0,
                    i - d,
                ).map_values(|c: char| ascii_lower(c)).push(ascii_lower(cs@[i as int])));
                i = i + 1;
            }
            assert(tail.subrange(0, cs@.len() - d) =~= tail);
        },
    }
    e
}

fn is_data_path_exec(path: &str) -> (r: bool)
    ensures
        r == is_data_path(path@),
{
    let e = extension_exec(path);
    str_eq(e.as_str(), ".log") || str_eq(e.as_str(), ".csv") || str_eq(e.as_str(), ".tsv") || str_eq(
        e.as_str(),
        ".jsonl",
    ) || str_eq(e.as_str(), ".ndjson")
}

/// The line limit of a read: a large log or data file read without a range
/// stops at its head.
pub open spec fn read_limit(path: Seq<char>, content: Seq<char>, start: Option<u32>, end: Option<u32>) -> u32 {
    if start is None && end is None && byte_len(content) > DATA_WHOLE_BYTES && is_data_path(path) {
        DATA_HEAD_LINES
    } else {
        MAX_READ_LINES
    }
}

pub open spec fn result_truncated(r: ToolResult) -> bool {
    r matches ToolResult::File { truncated, .. } && truncated
}

/// A read of the file `path` (as the model named it; `relative` is its
/// spelling relative to the root) whose text is `content`. The read is
/// recorded against the whole file even when a slice comes back, and counts
/// as whole only where the whole file was asked for and nothing was cut.
pub fn read_file(
    path: &str,
    start_line: Option<u32>,
    end_line: Option<u32>,
    relative: &str,
    content: &str,
    reads: &mut ReadFiles,
) -> (r: ToolResult)
    requires
        lines(content@).len() <= u32::MAX,
    ensures
        is_slice_of(r, content@, start_line, end_line, read_limit(path@, content@, start_line, end_line)),
        final(reads)@ == after_read(
            old(reads)@,
            relative@,
            content@,
            start_line is None && end_line is None && !result_truncated(r),
        ),
{
    let asked_whole = start_line.is_none() && end_line.is_none();
    let chars = chars_of(content);
    let data = asked_whole && byte_len_capped(chars.as_slice(), DATA_WHOLE_BYTES) > DATA_WHOLE_BYTES
        && is_data_path_exec(path);
    let max_lines = if data { DATA_HEAD_LINES } else { MAX_READ_LINES };
    let result = slice_lines(content, start_line, end_line, max_lines);
    let cut = match &result {
        ToolResult::File { truncated, .. } => *truncated,
        _ => false,
    };
    reads.record(relative, content, asked_whole && !cut);
    result
}

} // verus!
