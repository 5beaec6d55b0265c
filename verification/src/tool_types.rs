//! The values that cross the tool boundary: what a tool returns, the
//! checklist it keeps, and the names the model calls tools by.

use vstd::prelude::*;

use crate::text::str_eq;

verus! {

/// Where a task on the checklist stands.
#[derive(Debug, Clone, Copy, PartialEq, Eq, Structural)]
pub enum TodoStatus {
    Pending,
    InProgress,
    Completed,
    Cancelled,
}

/// One line of the model's checklist.
#[derive(Debug, Clone, PartialEq, Eq)]
pub struct Task {
    pub id: String,
    pub title: String,
    pub status: TodoStatus,
    pub note: Option<String>,
}

/// A declaration or heading found in a file, with its line range.
#[derive(Debug, Clone, PartialEq, Eq)]
pub struct OutlineEntry {
    pub name: String,
    pub start_line: u32,
    pub end_line: u32,
}

/// One grep hit with the lines around it.
#[derive(Debug, Clone, PartialEq, Eq)]
pub struct GrepMatch {
    pub path: String,
    pub line: u32,
    pub text: String,
    pub before: Vec<String>,
    pub after: Vec<String>,
}

/// One changed path, with git's one-letter status for it.
#[derive(Debug, Clone, PartialEq, Eq)]
pub struct GitFileStatus {
    pub status: String,
    pub path: String,
}

/// A run of lines last changed by one commit.
#[derive(Debug, Clone, PartialEq, Eq)]
pub struct BlameHunk {
    pub start_line: u32,
    pub line_count: u32,
    pub commit: String,
    pub author: String,
    pub date: String,
    pub summary: String,
}

/// How a command that ran to its end (or its timeout) finished.
#[derive(Debug, Clone, PartialEq, Eq)]
pub struct CommandOutput {
    pub stdout: String,
    pub stderr: String,
    pub exit_code: Option<i32>,
    pub timed_out: bool,
    pub truncated: bool,
}

/// Where a background process stands.
#[derive(Debug, Clone, Copy, PartialEq, Eq)]
pub enum ProcessState {
    Running,
    Exited(Option<i32>),
    Stopped,
}

/// A background process as the model is told about it.
#[derive(Debug, Clone, PartialEq, Eq)]
pub struct ProcessInfo {
    pub id: u32,
    pub command: String,
    pub cwd: String,
    pub state: ProcessState,
}

/// What a background process wrote since the last read.
#[derive(Debug, Clone, PartialEq, Eq)]
pub struct ProcessOutput {
    pub process: ProcessInfo,
    pub output: String,
    pub missed: bool,
    pub truncated: bool,
}

/// Which ranking found a code-search hit.
#[derive(Debug, Clone, Copy, PartialEq, Eq, Structural)]
pub enum MatchSource {
    Symbol,
    Lexical,
    Semantic,
}

/// One code-search hit.
#[derive(Debug, Clone, PartialEq, Eq)]
pub struct CodeMatch {
    pub path: String,
    pub start_line: u32,
    pub end_line: u32,
    pub name: Option<String>,
    pub text: String,
    pub source: MatchSource,
}

/// What a code search says about its own answer.
#[derive(Debug, Clone, PartialEq, Eq)]
pub struct SearchMeta {
    pub tiers_used: Vec<MatchSource>,
    pub weak: bool,
    pub hint: Option<String>,
}

/// One entry of a directory listing, relative to the scope root.
#[derive(Debug, Clone, PartialEq, Eq)]
pub struct ToolFileEntry {
    pub path: String,
    pub is_dir: bool,
}

/// What a tool hands back.
#[derive(Debug, Clone, PartialEq, Eq)]
#[allow(inconsistent_fields)]
pub enum ToolResult {
    File { content: String, start_line: u32, end_line: u32, total_lines: u32, clamped: bool, truncated: bool },
    FileOutline { path: String, entries: Vec<OutlineEntry>, total_lines: u32 },
    /// The hits kept; whether any hit was left out; every hit counted, and in
    /// how many files; whether counting stopped at its limit; the files that
    /// could not be searched.
    GrepResults {
        matches: Vec<GrepMatch>,
        truncated: bool,
        total: usize,
        total_files: usize,
        total_is_floor: bool,
        skipped: Vec<String>,
    },
    FileList { entries: Vec<ToolFileEntry>, truncated: bool },
    DirectoryCreated { path: String },
    DirectoryDeleted { path: String },
    Moved { from: String, to: String },
    Todo { tasks: Vec<Task> },
    GitStatus {
        branch: Option<String>,
        staged: Vec<GitFileStatus>,
        unstaged: Vec<GitFileStatus>,
        conflicted: Vec<GitFileStatus>,
        truncated: bool,
    },
    GitBlame { path: String, hunks: Vec<BlameHunk>, truncated: bool },
    CommandRan(CommandOutput),
    ProcessStarted(ProcessInfo),
    ProcessOutput(ProcessOutput),
    ProcessStopped(ProcessInfo),
    SearchResults { matches: Vec<CodeMatch>, meta: SearchMeta },
    Skill { name: String, instructions: String, files: Vec<String> },
    SkillFile { name: String, path: String, content: String },
    PlanWritten { lines: u32 },
    Mcp { text: String },
}

/// Every built-in tool, plus the family of tools connected servers offer.
#[derive(Debug, Clone, Copy, PartialEq, Eq, Structural)]
pub enum ToolName {
    SemanticSearch,
    ListFiles,
    ReadFile,
    Grep,
    GitStatus,
    GitDiff,
    GitBlame,
    GitLog,
    WriteFile,
    EditFile,
    CreateDirectory,
    DeleteFile,
    DeleteDirectory,
    Move,
    WritePlan,
    Todo,
    RunCommand,
    Skill,
    ReadOutput,
    StopProcess,
    ReadTerminal,
    RunInTerminal,
    Mcp,
}

/// How every tool a connected server offers is spelled: this, the server's
/// name, `__`, the tool's own name.
pub open spec fn mcp_prefix() -> Seq<char> {
    seq!['m', 'c', 'p', '_', '_']
}

pub open spec fn is_mcp_name(name: Seq<char>) -> bool {
    name.len() >= 5 && name.subrange(0, 5) == mcp_prefix()
}

/// The name a tool has on the wire. The MCP family has no single name; its
/// entry is the shared prefix.
pub open spec fn spec_wire_name(t: ToolName) -> Seq<char> {
    match t {
        ToolName::SemanticSearch => "semanticSearch"@,
        ToolName::ListFiles => "listFiles"@,
        ToolName::ReadFile => "readFile"@,
        ToolName::Grep => "grep"@,
        ToolName::GitStatus => "gitStatus"@,
        ToolName::GitDiff => "gitDiff"@,
        ToolName::GitBlame => "gitBlame"@,
        ToolName::GitLog => "gitLog"@,
        ToolName::WriteFile => "writeFile"@,
        ToolName::EditFile => "editFile"@,
        ToolName::CreateDirectory => "createDirectory"@,
        ToolName::DeleteFile => "deleteFile"@,
        ToolName::DeleteDirectory => "deleteDirectory"@,
        ToolName::Move => "move"@,
        ToolName::WritePlan => "writePlan"@,
        ToolName::Todo => "todo"@,
        ToolName::RunCommand => "runCommand"@,
        ToolName::Skill => "skill"@,
        ToolName::ReadOutput => "readOutput"@,
        ToolName::StopProcess => "stopProcess"@,
        ToolName::ReadTerminal => "readTerminal"@,
        ToolName::RunInTerminal => "runInTerminal"@,
        ToolName::Mcp => "mcp__"@,
    }
}

/// What one call of the tool counts against a turn's budget.
pub open spec fn spec_loop_weight(t: ToolName) -> u32 {
    match t {
        ToolName::SemanticSearch => 3,
        ToolName::Grep => 2,
        ToolName::GitDiff => 2,
        ToolName::GitBlame => 2,
        ToolName::GitLog => 2,
        ToolName::WriteFile => 2,
        ToolName::EditFile => 2,
        ToolName::DeleteDirectory => 2,
        ToolName::RunCommand => 5,
        ToolName::RunInTerminal => 2,
        _ => 1,
    }
}

/// The tool a wire name stands for: a built-in one by its exact name, any
/// name with the MCP prefix as `Mcp`, and nothing else.
pub open spec fn spec_from_wire_name(name: Seq<char>) -> Option<ToolName> {
    if is_mcp_name(name) {
        Some(ToolName::Mcp)
    } else if exists|t: ToolName| t != ToolName::Mcp && spec_wire_name(t) == name {
        Some(choose|t: ToolName| t != ToolName::Mcp && spec_wire_name(t) == name)
    } else {
        None
    }
}

/// Every built-in tool, in the order the model is shown them.
pub open spec fn built_in_order() -> Seq<ToolName> {
    seq![
        ToolName::SemanticSearch,
        ToolName::ListFiles,
        ToolName::ReadFile,
        ToolName::Grep,
        ToolName::GitStatus,
        ToolName::GitDiff,
        ToolName::GitBlame,
        ToolName::GitLog,
        ToolName::WriteFile,
        ToolName::EditFile,
        ToolName::CreateDirectory,
        ToolName::DeleteFile,
        ToolName::DeleteDirectory,
        ToolName::Move,
        ToolName::WritePlan,
        ToolName::Todo,
        ToolName::RunCommand,
        ToolName::Skill,
        ToolName::ReadOutput,
        ToolName::StopProcess,
        ToolName::ReadTerminal,
        ToolName::RunInTerminal,
    ]
}

proof fn reveal_wire_names()
    ensures
        "semanticSearch"@ =~= seq!['s', 'e', 'm', 'a', 'n', 't', 'i', 'c', 'S', 'e', 'a', 'r', 'c', 'h'],
        "listFiles"@ =~= seq!['l', 'i', 's', 't', 'F', 'i', 'l', 'e', 's'],
        "readFile"@ =~= seq!['r', 'e', 'a', 'd', 'F', 'i', 'l', 'e'],
        "grep"@ =~= seq!['g', 'r', 'e', 'p'],
        "gitStatus"@ =~= seq!['g', 'i', 't', 'S', 't', 'a', 't', 'u', 's'],
        "gitDiff"@ =~= seq!['g', 'i', 't', 'D', 'i', 'f', 'f'],
        "gitBlame"@ =~= seq!['g', 'i', 't', 'B', 'l', 'a', 'm', 'e'],
        "gitLog"@ =~= seq!['g', 'i', 't', 'L', 'o', 'g'],
        "writeFile"@ =~= seq!['w', 'r', 'i', 't', 'e', 'F', 'i', 'l', 'e'],
        "editFile"@ =~= seq!['e', 'd', 'i', 't', 'F', 'i', 'l', 'e'],
        "createDirectory"@ =~= seq!['c', 'r', 'e', 'a', 't', 'e', 'D', 'i', 'r', 'e', 'c', 't', 'o', 'r', 'y'],
        "deleteFile"@ =~= seq!['d', 'e', 'l', 'e', 't', 'e', 'F', 'i', 'l', 'e'],
        "deleteDirectory"@ =~= seq!['d', 'e', 'l', 'e', 't', 'e', 'D', 'i', 'r', 'e', 'c', 't', 'o', 'r', 'y'],
        "move"@ =~= seq!['m', 'o', 'v', 'e'],
        "writePlan"@ =~= seq!['w', 'r', 'i', 't', 'e', 'P', 'l', 'a', 'n'],
        "todo"@ =~= seq!['t', 'o', 'd', 'o'],
        "runCommand"@ =~= seq!['r', 'u', 'n', 'C', 'o', 'm', 'm', 'a', 'n', 'd'],
        "skill"@ =~= seq!['s', 'k', 'i', 'l', 'l'],
        "readOutput"@ =~= seq!['r', 'e', 'a', 'd', 'O', 'u', 't', 'p', 'u', 't'],
        "stopProcess"@ =~= seq!['s', 't', 'o', 'p', 'P', 'r', 'o', 'c', 'e', 's', 's'],
        "readTerminal"@ =~= seq!['r', 'e', 'a', 'd', 'T', 'e', 'r', 'm', 'i', 'n', 'a', 'l'],
        "runInTerminal"@ =~= seq!['r', 'u', 'n', 'I', 'n', 'T', 'e', 'r', 'm', 'i', 'n', 'a', 'l'],
        "mcp__"@ =~= mcp_prefix(),
{
    reveal_strlit("semanticSearch");
    reveal_strlit("listFiles");
    reveal_strlit("readFile");
    reveal_strlit("grep");
    reveal_strlit("gitStatus");
    reveal_strlit("gitDiff");
    reveal_strlit("gitBlame");
    reveal_strlit("gitLog");
    reveal_strlit("writeFile");
    reveal_strlit("editFile");
    reveal_strlit("createDirectory");
    reveal_strlit("deleteFile");
    reveal_strlit("deleteDirectory");
    reveal_strlit("move");
    reveal_strlit("writePlan");
    reveal_strlit("todo");
    reveal_strlit("runCommand");
    reveal_strlit("skill");
    reveal_strlit("readOutput");
    reveal_strlit("stopProcess");
    reveal_strlit("readTerminal");
    reveal_strlit("runInTerminal");
    reveal_strlit("mcp__");
}

/// No two built-in tools share a wire name, and none of them starts with the
/// MCP prefix.
pub proof fn lemma_wire_names_distinct(a: ToolName, b: ToolName)
    requires
        a != ToolName::Mcp,
    ensures
        spec_wire_name(a) == spec_wire_name(b) ==> a == b,
        !is_mcp_name(spec_wire_name(a)),
{
    reveal_wire_names();
    let wa = spec_wire_name(a);
    let wb = spec_wire_name(b);
    if wa == wb && a != b {
        assert(wa.len() == wb.len());
        assert(wa[0] == wb[0]);
        assert(wa.len() > 3 ==> wa[3] == wb[3]);
        assert(wa.len() > 4 ==> wa[4] == wb[4]);
        assert(wa.len() > 6 ==> wa[6] == wb[6]);
    }
    if is_mcp_name(wa) {
        assert(wa.subrange(0, 5)[0] == 'm');
        assert(wa.subrange(0, 5)[1] == 'c');
    }
}

/// A wire name maps back to the tool it names.
pub proof fn lemma_wire_name_round_trip(t: ToolName)
    requires
        t != ToolName::Mcp,
    ensures
        spec_from_wire_name(spec_wire_name(t)) == Some(t),
{
    lemma_wire_names_distinct(t, t);
    let w = spec_wire_name(t);
    assert(exists|u: ToolName| u != ToolName::Mcp && spec_wire_name(u) == w);
    let c = choose|u: ToolName| u != ToolName::Mcp && spec_wire_name(u) == w;
    lemma_wire_names_distinct(c, t);
}

impl ToolName {
    pub fn wire_name(&self) -> (s: &'static str)
        ensures
            s@ == spec_wire_name(*self),
    {
        match self {
            ToolName::SemanticSearch => "semanticSearch",
            ToolName::ListFiles => "listFiles",
            ToolName::ReadFile => "readFile",
            ToolName::Grep => "grep",
            ToolName::GitStatus => "gitStatus",
            ToolName::GitDiff => "gitDiff",
            ToolName::GitBlame => "gitBlame",
            ToolName::GitLog => "gitLog",
            ToolName::WriteFile => "writeFile",
            ToolName::EditFile => "editFile",
            ToolName::CreateDirectory => "createDirectory",
            ToolName::DeleteFile => "deleteFile",
            ToolName::DeleteDirectory => "deleteDirectory",
            ToolName::Move => "move",
            ToolName::WritePlan => "writePlan",
            ToolName::Todo => "todo",
            ToolName::RunCommand => "runCommand",
            ToolName::Skill => "skill",
            ToolName::ReadOutput => "readOutput",
            ToolName::StopProcess => "stopProcess",
            ToolName::ReadTerminal => "readTerminal",
            ToolName::RunInTerminal => "runInTerminal",
            ToolName::Mcp => "mcp__",
        }
    }

    pub fn loop_weight(&self) -> (w: u32)
        ensures
            w == spec_loop_weight(*self),
            1 <= w <= 5,
    {
        match self {
            ToolName::SemanticSearch => 3,
            ToolName::Grep => 2,
            ToolName::GitDiff => 2,
            ToolName::GitBlame => 2,
            ToolName::GitLog => 2,
            ToolName::WriteFile => 2,
            ToolName::EditFile => 2,
            ToolName::DeleteDirectory => 2,
            ToolName::RunCommand => 5,
            ToolName::RunInTerminal => 2,
            _ => 1,
        }
    }

    /// The built-in tools in the order they are advertised.
    pub fn all_built_in() -> (all: Vec<ToolName>)
        ensures
            all@ == built_in_order(),
    {
        let all = vec![
            ToolName::SemanticSearch,
            ToolName::ListFiles,
            ToolName::ReadFile,
            ToolName::Grep,
            ToolName::GitStatus,
            ToolName::GitDiff,
            ToolName::GitBlame,
            ToolName::GitLog,
            ToolName::WriteFile,
            ToolName::EditFile,
            ToolName::CreateDirectory,
            ToolName::DeleteFile,
            ToolName::DeleteDirectory,
            ToolName::Move,
            ToolName::WritePlan,
            ToolName::Todo,
            ToolName::RunCommand,
            ToolName::Skill,
            ToolName::ReadOutput,
            ToolName::StopProcess,
            ToolName::ReadTerminal,
            ToolName::RunInTerminal,
        ];
        assert(all@ =~= built_in_order());
        all
    }

    /// The tool a wire name stands for, if any.
    pub fn from_wire_name(name: &str) -> (t: Option<ToolName>)
        ensures
            t == spec_from_wire_name(name@),
    {
        proof {
            reveal_wire_names();
        }
        if crate::text::starts_with(name, "mcp__") {
            return Some(ToolName::Mcp);
        }
        let all = ToolName::all_built_in();
        let mut i: usize = 0;
        while i < all.len()
            invariant
                all@ == built_in_order(),
                i <= all.len(),
                !is_mcp_name(name@),
                forall|j: int| 0 <= j < i ==> spec_wire_name(#[trigger] built_in_order()[j]) != name@,
            decreases all.len() - i,
        {
            let t = all[i];
            if str_eq(t.wire_name(), name) {
                proof {
                    lemma_wire_name_round_trip(t);
                }
                return Some(t);
            }
            i = i + 1;
        }
        proof {
            if exists|t: ToolName| t != ToolName::Mcp && spec_wire_name(t) == name@ {
                let t = choose|t: ToolName| t != ToolName::Mcp && spec_wire_name(t) == name@;
                lemma_built_in_listed(t);
                let j = choose|j: int| 0 <= j < 22 && built_in_order()[j] == t;
                assert(spec_wire_name(built_in_order()[j]) != name@);
            }
        }
        None
    }
}

/// Every built-in tool is in the advertised order.
pub proof fn lemma_built_in_listed(t: ToolName)
    requires
        t != ToolName::Mcp,
    ensures
        built_in_order().len() == 22,
        exists|j: int| 0 <= j < 22 && built_in_order()[j] == t,
{
    let o = built_in_order();
    match t {
        ToolName::SemanticSearch => { assert(o[0] == t); },
        ToolName::ListFiles => { assert(o[1] == t); },
        ToolName::ReadFile => { assert(o[2] == t); },
        ToolName::Grep => { assert(o[3] == t); },
        ToolName::GitStatus => { assert(o[4] == t); },
        ToolName::GitDiff => { assert(o[5] == t); },
        ToolName::GitBlame => { assert(o[6] == t); },
        ToolName::GitLog => { assert(o[7] == t); },
        ToolName::WriteFile => { assert(o[8] == t); },
        ToolName::EditFile => { assert(o[9] == t); },
        ToolName::CreateDirectory => { assert(o[10] == t); },
        ToolName::DeleteFile => { assert(o[11] == t); },
        ToolName::DeleteDirectory => { assert(o[12] == t); },
        ToolName::Move => { assert(o[13] == t); },
        ToolName::WritePlan => { assert(o[14] == t); },
        ToolName::Todo => { assert(o[15] == t); },
        ToolName::RunCommand => { assert(o[16] == t); },
        ToolName::Skill => { assert(o[17] == t); },
        ToolName::ReadOutput => { assert(o[18] == t); },
        ToolName::StopProcess => { assert(o[19] == t); },
        ToolName::ReadTerminal => { assert(o[20] == t); },
        ToolName::RunInTerminal => { assert(o[21] == t); },
        ToolName::Mcp => {},
    }
}

} // verus!
