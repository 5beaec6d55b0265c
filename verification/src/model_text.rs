//! What the model reads back from a tool: plain text, in the shape the same
//! answer takes where the model learned it — a search as `rg` prints one, a
//! status as `git status` does.
//!
//! The `match` is exhaustive on purpose: a new result kind has to decide how
//! it reads.

use vstd::prelude::*;

use crate::file_tree::{render_file_tree, spec_file_tree};
use crate::text::{
    decimal, is_blank, join, push_decimal, push_joined, push_signed, push_trim_end, signed_decimal,
    strs_view, trim, trim_end,
};
use crate::todo::opt_view;
use crate::tool_types::{
    BlameHunk, CodeMatch, CommandOutput, GitFileStatus, GrepMatch, OutlineEntry, ProcessInfo,
    ProcessOutput, ProcessState, SearchMeta, Task, TodoStatus, ToolResult,
};

verus! {

pub open spec fn dec(n: int) -> Seq<char> {
    decimal(n as nat)
}

// ------------------------------------------------------------ processes

/// How a process stands, in one line: `#3 `npm run dev` is running`.
pub open spec fn spec_describe(p: ProcessInfo) -> Seq<char> {
    "#"@ + dec(p.id as int) + " `"@ + p.command@ + "` "@ + match p.state {
        ProcessState::Running => "is running"@,
        ProcessState::Exited(Some(code)) => "exited with code "@ + signed_decimal(code as int),
        ProcessState::Exited(None) => "was ended by a signal"@,
        ProcessState::Stopped => "was stopped"@,
    }
}

impl ProcessInfo {
    pub fn describe(&self) -> (s: String)
        ensures
            s@ == spec_describe(*self),
    {
        let mut out = String::new();
        out.append("#");
        push_decimal(&mut out, self.id as u128);
        out.append(" `");
        out.append(self.command.as_str());
        out.append("` ");
        match self.state {
            ProcessState::Running => out.append("is running"),
            ProcessState::Exited(Some(code)) => {
                out.append("exited with code ");
                push_signed(&mut out, code);
            },
            ProcessState::Exited(None) => out.append("was ended by a signal"),
            ProcessState::Stopped => out.append("was stopped"),
        }
        proof {
            assert(out@ =~= spec_describe(*self));
        }
        out
    }
}

// ------------------------------------------------------------ file

/// The range comes first: whether this is the whole file is the one thing
/// the content alone does not say.
pub open spec fn spec_file(content: Seq<char>, start: u32, end: u32, total: u32) -> Seq<char> {
    if total == 0 {
        "The file is empty."@
    } else if start == 1 && end == total {
        "All "@ + dec(total as int) + " lines:\n"@ + content
    } else {
        "Lines "@ + dec(start as int) + "-"@ + dec(end as int) + " of "@ + dec(total as int) + ":\n"@
            + content
    }
}

/// The model is told it has the whole file only when it has: a text that
/// opens with "All " is of a read from line 1 to the last line, and any
/// other read of a non-empty file is told as the lines it covers out of
/// how many.
pub proof fn law_only_a_whole_read_is_called_whole(content: Seq<char>, start: u32, end: u32, total: u32)
    ensures
        spec_file(content, start, end, total).len() >= 4 && spec_file(content, start, end, total).subrange(0, 4)
            == "All "@ ==> start == 1 && end == total && total > 0,
        total > 0 && (start != 1 || end != total) ==> spec_file(content, start, end, total) == "Lines "@ + dec(
            start as int,
        ) + "-"@ + dec(end as int) + " of "@ + dec(total as int) + ":\n"@ + content,
        total > 0 && start == 1 && end == total ==> spec_file(content, start, end, total) == "All "@ + dec(
            total as int,
        ) + " lines:\n"@ + content,
        total > 0 ==> spec_file(content, start, end, total).len() >= content.len(),
        total > 0 ==> spec_file(content, start, end, total).subrange(
            spec_file(content, start, end, total).len() - content.len(),
            spec_file(content, start, end, total).len() as int,
        ) == content,
{
    reveal_strlit("All ");
    reveal_strlit("Lines ");
    reveal_strlit("The file is empty.");
    let t = spec_file(content, start, end, total);
    if total > 0 {
        assert(t.subrange(t.len() - content.len(), t.len() as int) =~= content);
    } else {
        reveal_strlit("The file is empty.");
    }
    if t.len() >= 4 && t.subrange(0, 4) == "All "@ {
        assert(t[0] == t.subrange(0, 4)[0]);
        assert("All "@[0] == 'A');
        if total == 0 {
            assert(t[0] == 'T');
        } else if !(start == 1 && end == total) {
            assert(t[0] == 'L');
        }
    }
}

fn file(content: &String, start: u32, end: u32, total: u32) -> (s: String)
    ensures
        s@ == spec_file(content@, start, end, total),
{
    let mut out = String::new();
    if total == 0 {
        out.append("The file is empty.");
        assert(out@ =~= spec_file(content@, start, end, total));
        return out;
    }
    if start == 1 && end == total {
        out.append("All ");
        push_decimal(&mut out, total as u128);
        out.append(" lines:\n");
    } else {
        out.append("Lines ");
        push_decimal(&mut out, start as u128);
        out.append("-");
        push_decimal(&mut out, end as u128);
        out.append(" of ");
        push_decimal(&mut out, total as u128);
        out.append(":\n");
    }
    out.append(content.as_str());
    assert(out@ =~= spec_file(content@, start, end, total));
    out
}

// ------------------------------------------------------------ outline

pub open spec fn outline_row(e: OutlineEntry) -> Seq<char> {
    dec(e.start_line as int) + "-"@ + dec(e.end_line as int) + "  "@ + e.name@
}

pub open spec fn spec_outline(path: Seq<char>, entries: Seq<OutlineEntry>, total: u32) -> Seq<char> {
    if entries.len() == 0 {
        "No declarations or headings found in "@ + path + " ("@ + dec(total as int) + " lines)."@
    } else {
        "Outline of "@ + path + " ("@ + dec(total as int) + " lines), start-end:\n"@ + join(
            entries.map_values(|e: OutlineEntry| outline_row(e)),
            "\n"@,
        )
    }
}

fn outline(path: &String, entries: &Vec<OutlineEntry>, total: u32) -> (s: String)
    ensures
        s@ == spec_outline(path@, entries@, total),
{
    let mut out = String::new();
    if entries.len() == 0 {
        out.append("No declarations or headings found in ");
        out.append(path.as_str());
        out.append(" (");
        push_decimal(&mut out, total as u128);
        out.append(" lines).");
        assert(out@ =~= spec_outline(path@, entries@, total));
        return out;
    }
    let mut rows: Vec<String> = Vec::new();
    let mut i: usize = 0;
    while i < entries.len()
        invariant
            i <= entries@.len(),
            strs_view(rows@) == entries@.subrange(0, i as int).map_values(|e: OutlineEntry| outline_row(e)),
        decreases entries.len() - i,
    {
        let e = &entries[i];
        let mut row = String::new();
        push_decimal(&mut row, e.start_line as u128);
        row.append("-");
        push_decimal(&mut row, e.end_line as u128);
        row.append("  ");
        row.append(e.name.as_str());
        proof {
            assert(row@ =~= outline_row(*e));
            assert(strs_view(rows@.push(row)) =~= strs_view(rows@).push(row@));
            assert(entries@.subrange(0, i + 1).map_values(|e: OutlineEntry| outline_row(e)) =~= entries@.subrange(
                0,
                i as int,
            ).map_values(|e: OutlineEntry| outline_row(e)).push(outline_row(entries@[i as int])));
        }
        rows.push(row);
        i = i + 1;
    }
    out.append("Outline of ");
    out.append(path.as_str());
    out.append(" (");
    push_decimal(&mut out, total as u128);
    out.append(" lines), start-end:\n");
    proof {
        assert(entries@.subrange(0, entries@.len() as int) =~= entries@);
    }
    push_joined(&mut out, &rows, "\n");
    assert(out@ =~= spec_outline(path@, entries@, total));
    out
}

// ------------------------------------------------------------ grep

/// The first line of a hit's group: its line less the context before it.
pub open spec fn first_line(m: GrepMatch) -> int {
    if m.line >= m.before@.len() {
        m.line - m.before@.len()
    } else {
        0
    }
}

/// The context lines before a hit, numbered `n-`, leaving out any already
/// printed.
pub open spec fn before_part(m: GrepMatch, last: int, n: int) -> Seq<char>
    decreases n,
{
    if n <= 0 {
        seq![]
    } else {
        let k = first_line(m) + n - 1;
        before_part(m, last, n - 1) + if k > last {
            dec(k) + "-"@ + m.before@[n - 1]@ + "\n"@
        } else {
            seq![]
        }
    }
}

pub open spec fn after_part(m: GrepMatch, n: int) -> Seq<char>
    decreases n,
{
    if n <= 0 {
        seq![]
    } else {
        after_part(m, n - 1) + dec(m.line + n) + "-"@ + m.after@[n - 1]@ + "\n"@
    }
}

/// One hit as `rg -n` prints it, after whatever came before.
pub open spec fn grep_piece(m: GrepMatch, current: Option<Seq<char>>, last: int) -> Seq<char> {
    grep_head(m, current, last) + before_part(m, last, m.before@.len() as int) + dec(m.line as int) + ":"@ + m.text@ + "\n"@
        + after_part(m, m.after@.len() as int)
}

/// The first `n` hits printed: the text, the file being printed, and the
/// last line printed.
pub open spec fn grep_body(ms: Seq<GrepMatch>, n: int) -> (Seq<char>, Option<Seq<char>>, int)
    decreases n,
{
    if n <= 0 {
        (seq![], None, 0)
    } else {
        let (out, current, last) = grep_body(ms, n - 1);
        let m = ms[n - 1];
        (out + grep_piece(m, current, last), Some(m.path@), m.line + m.after@.len())
    }
}

pub open spec fn grep_note() -> Seq<char> {
    "\n[more matches not shown — narrow the pattern or the glob]"@
}

/// As `rg -n` prints it: a file's name once, then `line:` for a hit and
/// `line-` for the context around it, `--` between groups that do not touch.
pub open spec fn spec_grep(ms: Seq<GrepMatch>, truncated: bool) -> Seq<char> {
    if ms.len() == 0 {
        "No matches."@
    } else {
        trim_end(grep_body(ms, ms.len() as int).0 + if truncated { grep_note() } else { seq![] })
    }
}

pub open spec fn grep_head(m: GrepMatch, current: Option<Seq<char>>, last: int) -> Seq<char> {
    if current != Some(m.path@) {
        (if current is Some { "\n"@ } else { seq![] }) + m.path@ + "\n"@
    } else if first_line(m) > last + 1 {
        "--\n"@
    } else {
        seq![]
    }
}

fn first_line_exec(m: &GrepMatch) -> (r: u128)
    ensures
        r as int == first_line(*m),
        r <= u32::MAX,
{
    if m.line as u128 >= m.before.len() as u128 {
        m.line as u128 - m.before.len() as u128
    } else {
        0
    }
}

fn push_grep_head(out: &mut String, m: &GrepMatch, current: &Option<String>, last: u128)
    requires
        last <= u32::MAX as int + usize::MAX as int,
    ensures
        final(out)@ == old(out)@ + grep_head(*m, opt_view(*current), last as int),
{
    let same = match current {
        Some(c) => crate::text::str_eq(c.as_str(), m.path.as_str()),
        None => false,
    };
    if !same {
        if current.is_some() {
            out.append("\n");
        }
        out.append(m.path.as_str());
        out.append("\n");
    } else if first_line_exec(m) > last + 1 {
        out.append("--\n");
    }
    proof {
        assert(final(out)@ =~= old(out)@ + grep_head(*m, opt_view(*current), last as int));
    }
}

fn push_before(out: &mut String, m: &GrepMatch, last: u128)
    ensures
        final(out)@ == old(out)@ + before_part(*m, last as int, m.before@.len() as int),
{
    let ghost start = out@;
    let first = first_line_exec(m);
    let mut k: usize = 0;
    while k < m.before.len()
        invariant
            k <= m.before@.len(),
            first as int == first_line(*m),
            first <= u32::MAX,
            out@ == start + before_part(*m, last as int, k as int),
        decreases m.before.len() - k,
    {
        let n = first + k as u128;
        if n > last {
            push_decimal(out, n);
            out.append("-");
            out.append(m.before[k].as_str());
            out.append("\n");
        }
        proof {
            assert(out@ =~= start + before_part(*m, last as int, k + 1));
        }
        k = k + 1;
    }
}

fn push_after(out: &mut String, m: &GrepMatch)
    ensures
        final(out)@ == old(out)@ + after_part(*m, m.after@.len() as int),
{
    let ghost start = out@;
    let mut j: usize = 0;
    while j < m.after.len()
        invariant
            j <= m.after@.len(),
            out@ == start + after_part(*m, j as int),
        decreases m.after.len() - j,
    {
        push_decimal(out, m.line as u128 + 1 + j as u128);
        out.append("-");
        out.append(m.after[j].as_str());
        out.append("\n");
        proof {
            assert(out@ =~= start + after_part(*m, j + 1));
        }
        j = j + 1;
    }
}

fn push_grep_piece(out: &mut String, m: &GrepMatch, current: &Option<String>, last: u128)
    requires
        last <= u32::MAX as int + usize::MAX as int,
    ensures
        final(out)@ == old(out)@ + grep_piece(*m, opt_view(*current), last as int),
{
    let ghost start = out@;
    push_grep_head(out, m, current, last);
    push_before(out, m, last);
    push_decimal(out, m.line as u128);
    out.append(":");
    out.append(m.text.as_str());
    out.append("\n");
    push_after(out, m);
    proof {
        assert(out@ =~= start + grep_piece(*m, opt_view(*current), last as int));
    }
}

fn grep(matches: &Vec<GrepMatch>, truncated: bool) -> (s: String)
    ensures
        s@ == spec_grep(matches@, truncated),
{
    if matches.len() == 0 {
        let mut out = String::new();
        out.append("No matches.");
        return out;
    }
    let mut out = String::new();
    let mut current: Option<String> = None;
    let mut last: u128 = 0;
    let mut i: usize = 0;
    while i < matches.len()
        invariant
            i <= matches@.len(),
            last <= u32::MAX as int + usize::MAX as int,
            grep_body(matches@, i as int) == (out@, opt_view(current), last as int),
        decreases matches.len() - i,
    {
        let m = &matches[i];
        push_grep_piece(&mut out, m, &current, last);
        current = Some(m.path.clone());
        last = m.line as u128 + m.after.len() as u128;
        i = i + 1;
    }
    if truncated {
        out.append("\n[more matches not shown — narrow the pattern or the glob]");
    }
    let mut shown = String::new();
    push_trim_end(&mut shown, out.as_str());
    shown
}

// ------------------------------------------------------------ checklist

pub open spec fn mark(s: TodoStatus) -> Seq<char> {
    match s {
        TodoStatus::Pending => "[ ]"@,
        TodoStatus::InProgress => "[>]"@,
        TodoStatus::Completed => "[x]"@,
        TodoStatus::Cancelled => "[-]"@,
    }
}

pub open spec fn todo_row(t: Task) -> Seq<char> {
    mark(t.status) + " "@ + t.id@ + " "@ + t.title@ + match t.note {
        Some(n) => " — "@ + n@,
        None => seq![],
    }
}

pub open spec fn spec_todo_text(tasks: Seq<Task>) -> Seq<char> {
    if tasks.len() == 0 {
        "The checklist is empty."@
    } else {
        "Checklist ([>] in progress, [x] done, [-] cancelled; ids first):\n"@ + join(
            tasks.map_values(|t: Task| todo_row(t)),
            "\n"@,
        )
    }
}

fn todo_text(tasks: &Vec<Task>) -> (s: String)
    ensures
        s@ == spec_todo_text(tasks@),
{
    let mut out = String::new();
    if tasks.len() == 0 {
        out.append("The checklist is empty.");
        return out;
    }
    let mut rows: Vec<String> = Vec::new();
    let mut i: usize = 0;
    while i < tasks.len()
        invariant
            i <= tasks@.len(),
            strs_view(rows@) == tasks@.subrange(0, i as int).map_values(|t: Task| todo_row(t)),
        decreases tasks.len() - i,
    {
        let t = &tasks[i];
        let mut row = String::new();
        match t.status {
            TodoStatus::Pending => row.append("[ ]"),
            TodoStatus::InProgress => row.append("[>]"),
            TodoStatus::Completed => row.append("[x]"),
            TodoStatus::Cancelled => row.append("[-]"),
        }
        row.append(" ");
        row.append(t.id.as_str());
        row.append(" ");
        row.append(t.title.as_str());
        match &t.note {
            Some(n) => {
                row.append(" — ");
                row.append(n.as_str());
            },
            None => {},
        }
        proof {
            assert(row@ =~= todo_row(*t));
            assert(strs_view(rows@.push(row)) =~= strs_view(rows@).push(row@));
            assert(tasks@.subrange(0, i + 1).map_values(|t: Task| todo_row(t)) =~= tasks@.subrange(
                0,
                i as int,
            ).map_values(|t: Task| todo_row(t)).push(todo_row(tasks@[i as int])));
        }
        rows.push(row);
        i = i + 1;
    }
    out.append("Checklist ([>] in progress, [x] done, [-] cancelled; ids first):\n");
    proof {
        assert(tasks@.subrange(0, tasks@.len() as int) =~= tasks@);
    }
    push_joined(&mut out, &rows, "\n");
    assert(out@ =~= spec_todo_text(tasks@));
    out
}

// ------------------------------------------------------------ git

pub open spec fn status_rows(files: Seq<GitFileStatus>, n: int) -> Seq<char>
    decreases n,
{
    if n <= 0 {
        seq![]
    } else {
        status_rows(files, n - 1) + "\n  "@ + files[n - 1].status@ + " "@ + files[n - 1].path@
    }
}

pub open spec fn status_section(title: Seq<char>, files: Seq<GitFileStatus>) -> Seq<char> {
    if files.len() == 0 {
        seq![]
    } else {
        "\n"@ + title + ":"@ + status_rows(files, files.len() as int)
    }
}

pub open spec fn spec_git_status(
    branch: Option<Seq<char>>,
    staged: Seq<GitFileStatus>,
    unstaged: Seq<GitFileStatus>,
    conflicted: Seq<GitFileStatus>,
    truncated: bool,
) -> Seq<char> {
    (match branch {
        Some(b) => "On branch "@ + b,
        None => "No branch (detached HEAD or no commits yet)"@,
    }) + (if staged.len() == 0 && unstaged.len() == 0 && conflicted.len() == 0 {
        "\nNothing changed."@
    } else {
        seq![]
    }) + status_section("Conflicted"@, conflicted) + status_section("Staged"@, staged) + status_section(
        "Not staged"@,
        unstaged,
    ) + if truncated {
        "\n[more paths not shown]"@
    } else {
        seq![]
    }
}

fn push_section(out: &mut String, title: &str, files: &Vec<GitFileStatus>)
    ensures
        final(out)@ == old(out)@ + status_section(title@, files@),
{
    if files.len() == 0 {
        assert(old(out)@ + seq![] =~= old(out)@);
        return;
    }
    let ghost start = out@;
    out.append("\n");
    out.append(title);
    out.append(":");
    let ghost head = out@;
    let mut i: usize = 0;
    while i < files.len()
        invariant
            i <= files@.len(),
            out@ == head + status_rows(files@, i as int),
        decreases files.len() - i,
    {
        out.append("\n  ");
        out.append(files[i].status.as_str());
        out.append(" ");
        out.append(files[i].path.as_str());
        proof {
            assert(out@ =~= head + status_rows(files@, i + 1));
        }
        i = i + 1;
    }
    assert(out@ =~= start + status_section(title@, files@));
}

fn git_status_text(
    branch: &Option<String>,
    staged: &Vec<GitFileStatus>,
    unstaged: &Vec<GitFileStatus>,
    conflicted: &Vec<GitFileStatus>,
    truncated: bool,
) -> (s: String)
    ensures
        s@ == spec_git_status(opt_view(*branch), staged@, unstaged@, conflicted@, truncated),
{
    let mut out = String::new();
    match branch {
        Some(b) => {
            out.append("On branch ");
            out.append(b.as_str());
        },
        None => out.append("No branch (detached HEAD or no commits yet)"),
    }
    if staged.len() == 0 && unstaged.len() == 0 && conflicted.len() == 0 {
        out.append("\nNothing changed.");
    }
    let ghost head = out@;
    push_section(&mut out, "Conflicted", conflicted);
    push_section(&mut out, "Staged", staged);
    push_section(&mut out, "Not staged", unstaged);
    if truncated {
        out.append("\n[more paths not shown]");
    }
    assert(out@ =~= spec_git_status(opt_view(*branch), staged@, unstaged@, conflicted@, truncated));
    out
}

pub open spec fn blame_row(h: BlameHunk) -> Seq<char> {
    let last = h.start_line + if h.line_count > 0 { h.line_count - 1 } else { 0 };
    dec(h.start_line as int) + "-"@ + dec(last) + "  "@ + h.commit@ + "  "@ + h.date@ + "  "@ + h.author@
        + "  "@ + h.summary@
}

pub open spec fn spec_blame(path: Seq<char>, hunks: Seq<BlameHunk>, truncated: bool) -> Seq<char> {
    "Blame of "@ + path + " (lines, commit, date, author, message):\n"@ + join(
        hunks.map_values(|h: BlameHunk| blame_row(h)),
        "\n"@,
    ) + if truncated {
        "\n[more lines not shown — ask for a range]"@
    } else {
        seq![]
    }
}

fn blame_text(path: &String, hunks: &Vec<BlameHunk>, truncated: bool) -> (s: String)
    ensures
        s@ == spec_blame(path@, hunks@, truncated),
{
    let mut rows: Vec<String> = Vec::new();
    let mut i: usize = 0;
    while i < hunks.len()
        invariant
            i <= hunks@.len(),
            strs_view(rows@) == hunks@.subrange(0, i as int).map_values(|h: BlameHunk| blame_row(h)),
        decreases hunks.len() - i,
    {
        let h = &hunks[i];
        let last: u128 = h.start_line as u128 + if h.line_count > 0 { h.line_count as u128 - 1 } else { 0 };
        let mut row = String::new();
        push_decimal(&mut row, h.start_line as u128);
        row.append("-");
        push_decimal(&mut row, last);
        row.append("  ");
        row.append(h.commit.as_str());
        row.append("  ");
        row.append(h.date.as_str());
        row.append("  ");
        row.append(h.author.as_str());
        row.append("  ");
        row.append(h.summary.as_str());
        proof {
            assert(row@ =~= blame_row(*h));
            assert(strs_view(rows@.push(row)) =~= strs_view(rows@).push(row@));
            assert(hunks@.subrange(0, i + 1).map_values(|h: BlameHunk| blame_row(h)) =~= hunks@.subrange(
                0,
                i as int,
            ).map_values(|h: BlameHunk| blame_row(h)).push(blame_row(hunks@[i as int])));
        }
        rows.push(row);
        i = i + 1;
    }
    let mut out = String::new();
    out.append("Blame of ");
    out.append(path.as_str());
    out.append(" (lines, commit, date, author, message):\n");
    proof {
        assert(hunks@.subrange(0, hunks@.len() as int) =~= hunks@);
    }
    push_joined(&mut out, &rows, "\n");
    if truncated {
        out.append("\n[more lines not shown — ask for a range]");
    }
    assert(out@ =~= spec_blame(path@, hunks@, truncated));
    out
}

// ------------------------------------------------------------ commands

pub open spec fn output_section(name: Seq<char>, text: Seq<char>) -> Seq<char> {
    if trim(text).len() == 0 {
        seq![]
    } else {
        "\n"@ + name + ":\n"@ + trim_end(text)
    }
}

/// The exit comes first: it is the answer, and the output is the evidence.
pub open spec fn spec_command(o: CommandOutput) -> Seq<char> {
    (if o.timed_out {
        "Timed out and was killed, with everything it started."@
    } else {
        match o.exit_code {
            Some(code) => "Exit code "@ + signed_decimal(code as int),
            None => "Ended by a signal, with no exit code."@,
        }
    }) + output_section("stdout"@, o.stdout@) + output_section("stderr"@, o.stderr@) + if trim(
        o.stdout@,
    ).len() == 0 && trim(o.stderr@).len() == 0 {
        "\n(no output)"@
    } else {
        seq![]
    }
}

fn push_output_section(out: &mut String, name: &str, text: &String)
    ensures
        final(out)@ == old(out)@ + output_section(name@, text@),
{
    if is_blank(text.as_str()) {
        assert(old(out)@ + seq![] =~= old(out)@);
        return;
    }
    let ghost start = out@;
    out.append("\n");
    out.append(name);
    out.append(":\n");
    push_trim_end(out, text.as_str());
    assert(out@ =~= start + output_section(name@, text@));
}

fn command_text(o: &CommandOutput) -> (s: String)
    ensures
        s@ == spec_command(*o),
{
    let mut out = String::new();
    if o.timed_out {
        out.append("Timed out and was killed, with everything it started.");
    } else {
        match o.exit_code {
            Some(code) => {
                out.append("Exit code ");
                push_signed(&mut out, code);
            },
            None => out.append("Ended by a signal, with no exit code."),
        }
    }
    push_output_section(&mut out, "stdout", &o.stdout);
    push_output_section(&mut out, "stderr", &o.stderr);
    if is_blank(o.stdout.as_str()) && is_blank(o.stderr.as_str()) {
        out.append("\n(no output)");
    }
    assert(out@ =~= spec_command(*o));
    out
}

pub open spec fn spec_process_output(o: ProcessOutput) -> Seq<char> {
    spec_describe(o.process) + (if o.missed {
        "\n[some output was lost before this read]"@
    } else {
        seq![]
    }) + if o.output@.len() == 0 {
        "\n(no new output)"@
    } else {
        "\n"@ + trim_end(o.output@)
    }
}

fn process_output_text(o: &ProcessOutput) -> (s: String)
    ensures
        s@ == spec_process_output(*o),
{
    let mut out = o.process.describe();
    if o.missed {
        out.append("\n[some output was lost before this read]");
    }
    if o.output.as_str().unicode_len() == 0 {
        out.append("\n(no new output)");
    } else {
        out.append("\n");
        push_trim_end(&mut out, o.output.as_str());
    }
    assert(out@ =~= spec_process_output(*o));
    out
}

// ------------------------------------------------------------ search and skills

pub open spec fn search_hit(m: CodeMatch) -> Seq<char> {
    m.path@ + ":"@ + dec(m.start_line as int) + "-"@ + dec(m.end_line as int) + match m.name {
        Some(n) => "  "@ + n@,
        None => seq![],
    } + "\n"@ + trim_end(m.text@)
}

/// Each hit as where it is, then what it says; the hint last, as the thing
/// to act on.
pub open spec fn spec_search(matches: Seq<CodeMatch>, meta: SearchMeta) -> Seq<char> {
    (if matches.len() == 0 {
        "No matches."@
    } else {
        join(matches.map_values(|m: CodeMatch| search_hit(m)), "\n\n"@)
    }) + (if meta.weak && matches.len() > 0 {
        "\n\n[these matches are weak — none is a close fit]"@
    } else {
        seq![]
    }) + match meta.hint {
        Some(h) => "\n\n"@ + h@,
        None => seq![],
    }
}

fn search_text(matches: &Vec<CodeMatch>, meta: &SearchMeta) -> (s: String)
    ensures
        s@ == spec_search(matches@, *meta),
{
    let mut out = String::new();
    if matches.len() == 0 {
        out.append("No matches.");
    } else {
        let mut hits: Vec<String> = Vec::new();
        let mut i: usize = 0;
        while i < matches.len()
            invariant
                i <= matches@.len(),
                strs_view(hits@) == matches@.subrange(0, i as int).map_values(|m: CodeMatch| search_hit(m)),
            decreases matches.len() - i,
        {
            let m = &matches[i];
            let mut hit = String::new();
            hit.append(m.path.as_str());
            hit.append(":");
            push_decimal(&mut hit, m.start_line as u128);
            hit.append("-");
            push_decimal(&mut hit, m.end_line as u128);
            match &m.name {
                Some(n) => {
                    hit.append("  ");
                    hit.append(n.as_str());
                },
                None => {},
            }
            hit.append("\n");
            push_trim_end(&mut hit, m.text.as_str());
            proof {
                assert(hit@ =~= search_hit(*m));
                assert(strs_view(hits@.push(hit)) =~= strs_view(hits@).push(hit@));
                assert(matches@.subrange(0, i + 1).map_values(|m: CodeMatch| search_hit(m)) =~= matches@.subrange(
                    0,
                    i as int,
                ).map_values(|m: CodeMatch| search_hit(m)).push(search_hit(matches@[i as int])));
            }
            hits.push(hit);
            i = i + 1;
        }
        proof {
            assert(matches@.subrange(0, matches@.len() as int) =~= matches@);
        }
        push_joined(&mut out, &hits, "\n\n");
    }
    if meta.weak && matches.len() > 0 {
        out.append("\n\n[these matches are weak — none is a close fit]");
    }
    match &meta.hint {
        Some(h) => {
            out.append("\n\n");
            out.append(h.as_str());
        },
        None => {},
    }
    assert(out@ =~= spec_search(matches@, *meta));
    out
}

pub open spec fn spec_skill(name: Seq<char>, instructions: Seq<char>, files: Seq<String>) -> Seq<char> {
    "Skill "@ + name + ":\n"@ + trim_end(instructions) + if files.len() == 0 {
        seq![]
    } else {
        "\n\nFiles in this skill (read one with skill and its path):\n- "@ + join(strs_view(files), "\n- "@)
    }
}

fn skill_text(name: &String, instructions: &String, files: &Vec<String>) -> (s: String)
    ensures
        s@ == spec_skill(name@, instructions@, files@),
{
    let mut out = String::new();
    out.append("Skill ");
    out.append(name.as_str());
    out.append(":\n");
    push_trim_end(&mut out, instructions.as_str());
    if files.len() > 0 {
        out.append("\n\nFiles in this skill (read one with skill and its path):\n- ");
        push_joined(&mut out, files, "\n- ");
    }
    assert(out@ =~= spec_skill(name@, instructions@, files@));
    out
}

// ------------------------------------------------------------ every result

/// The text the model reads for a tool's result.
pub open spec fn spec_for_model(r: ToolResult) -> Seq<char> {
    match r {
        ToolResult::File { content, start_line, end_line, total_lines, .. } => spec_file(
            content@,
            start_line,
            end_line,
            total_lines,
        ),
        ToolResult::FileOutline { path, entries, total_lines } => spec_outline(path@, entries@, total_lines),
        ToolResult::GrepResults { matches, truncated, .. } => spec_grep(matches@, truncated),
        ToolResult::FileList { entries, truncated } => spec_file_tree(entries@, truncated),
        ToolResult::DirectoryCreated { path } => "Created directory "@ + path@,
        ToolResult::DirectoryDeleted { path } => "Deleted directory "@ + path@,
        ToolResult::Moved { from, to } => "Moved "@ + from@ + " → "@ + to@,
        ToolResult::Todo { tasks } => spec_todo_text(tasks@),
        ToolResult::GitStatus { branch, staged, unstaged, conflicted, truncated } => spec_git_status(
            opt_view(branch),
            staged@,
            unstaged@,
            conflicted@,
            truncated,
        ),
        ToolResult::GitBlame { path, hunks, truncated } => spec_blame(path@, hunks@, truncated),
        ToolResult::CommandRan(o) => spec_command(o),
        ToolResult::ProcessStarted(p) => "Started "@ + spec_describe(p) + " in "@ + p.cwd@
            + ". Read what it writes with readOutput."@,
        ToolResult::ProcessOutput(o) => spec_process_output(o),
        ToolResult::ProcessStopped(p) => spec_describe(p),
        ToolResult::SearchResults { matches, meta } => spec_search(matches@, meta),
        ToolResult::Skill { name, instructions, files } => spec_skill(name@, instructions@, files@),
        ToolResult::SkillFile { name, path, content } => name@ + "/"@ + path@ + ":\n"@ + content@,
        ToolResult::PlanWritten { lines } => "Plan saved ("@ + dec(lines as int)
            + " lines). The user sees it in the Plan tab."@,
        ToolResult::Mcp { text } => text@,
    }
}

/// What the model reads back from a tool: plain text in the shape the same
/// answer usually takes.
pub fn for_model(result: &ToolResult) -> (s: String)
    ensures
        s@ == spec_for_model(*result),
{
    match result {
        ToolResult::File { content, start_line, end_line, total_lines, .. } => file(
            content,
            *start_line,
            *end_line,
            *total_lines,
        ),
        ToolResult::FileOutline { path, entries, total_lines } => outline(path, entries, *total_lines),
        ToolResult::GrepResults { matches, truncated, .. } => grep(matches, *truncated),
        ToolResult::FileList { entries, truncated } => render_file_tree(entries, *truncated),
        ToolResult::DirectoryCreated { path } => {
            let mut out = String::new();
            out.append("Created directory ");
            out.append(path.as_str());
            out
        },
        ToolResult::DirectoryDeleted { path } => {
            let mut out = String::new();
            out.append("Deleted directory ");
            out.append(path.as_str());
            out
        },
        ToolResult::Moved { from, to } => {
            let mut out = String::new();
            out.append("Moved ");
            out.append(from.as_str());
            out.append(" → ");
            out.append(to.as_str());
            out
        },
        ToolResult::Todo { tasks } => todo_text(tasks),
        ToolResult::GitStatus { branch, staged, unstaged, conflicted, truncated } => git_status_text(
            branch,
            staged,
            unstaged,
            conflicted,
            *truncated,
        ),
        ToolResult::GitBlame { path, hunks, truncated } => blame_text(path, hunks, *truncated),
        ToolResult::CommandRan(o) => command_text(o),
        ToolResult::ProcessStarted(p) => {
            let mut out = String::new();
            out.append("Started ");
            let d = p.describe();
            out.append(d.as_str());
            out.append(" in ");
            out.append(p.cwd.as_str());
            out.append(". Read what it writes with readOutput.");
            out
        },
        ToolResult::ProcessOutput(o) => process_output_text(o),
        ToolResult::ProcessStopped(p) => p.describe(),
        ToolResult::SearchResults { matches, meta } => search_text(matches, meta),
        ToolResult::Skill { name, instructions, files } => skill_text(name, instructions, files),
        ToolResult::SkillFile { name, path, content } => {
            let mut out = String::new();
            out.append(name.as_str());
            out.append("/");
            out.append(path.as_str());
            out.append(":\n");
            out.append(content.as_str());
            out
        },
        ToolResult::PlanWritten { lines } => {
            let mut out = String::new();
            out.append("Plan saved (");
            push_decimal(&mut out, *lines as u128);
            out.append(" lines). The user sees it in the Plan tab.");
            out
        },
        ToolResult::Mcp { text } => text.clone(),
    }
}

} // verus!
