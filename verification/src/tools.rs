//! The small tools: the plan, background processes, commands, code search
//! and connected servers' tools. Each decides what its arguments allow and
//! what the model is told; the work itself (a process, a search, a server)
//! answers through the caller.

use vstd::prelude::*;

use crate::code_search::DEFAULT_TOP_K;
use crate::errors::ToolError;
use crate::resolve::{copy_components, existing_outcome, owned_text, resolve_existing};
use crate::text::{chars_of, decimal, lines, lines_of, push_char, push_decimal, slice_to_vec, str_eq, strs_view, text_of, trim, trim_chars};
use crate::tool_types::{mcp_prefix, CodeMatch, ProcessInfo, ProcessOutput, SearchMeta, ToolResult};

verus! {

// ----- writePlan -----

/// A plan is something a person reads through; past this it is a spec.
pub const MAX_PLAN_CHARS: usize = 20000;

pub open spec fn invalid_args(e: ToolError, tool: Seq<char>, reason: Seq<char>) -> bool {
    e matches ToolError::InvalidArguments { tool: t, reason: r } && t@ == tool && r@ == reason
}

pub open spec fn plan_too_long(n: nat) -> Seq<char> {
    "the plan is "@ + decimal(n) + " characters, over the 20000 limit — say less per step"@
}

fn invalid(tool: &str, reason: String) -> (e: ToolError)
    ensures
        invalid_args(e, tool@, reason@),
{
    ToolError::InvalidArguments { tool: owned_text(tool), reason }
}

/// Saves the conversation's plan: refused when it is empty or longer than
/// [`MAX_PLAN_CHARS`] characters (both after trimming); the receipt says how
/// many lines it has.
pub fn write_plan(content: &str) -> (r: Result<ToolResult, ToolError>)
    ensures
        trim(content@).len() == 0 ==> (r matches Err(e) && invalid_args(
            e,
            "writePlan"@,
            "content is empty — send the whole plan"@,
        )),
        trim(content@).len() > MAX_PLAN_CHARS ==> (r matches Err(e) && invalid_args(
            e,
            "writePlan"@,
            plan_too_long(trim(content@).len()),
        )),
        0 < trim(content@).len() <= MAX_PLAN_CHARS ==> (r matches Ok(ToolResult::PlanWritten { lines: n }) && n
            == lines(trim(content@)).len()),
{
    let cs = chars_of(content);
    let t = trim_chars(cs.as_slice());
    if t.len() == 0 {
        let mut reason = String::new();
        reason.append("content is empty — send the whole plan");
        return Err(invalid("writePlan", reason));
    }
    if t.len() > MAX_PLAN_CHARS {
        let mut reason = String::new();
        reason.append("the plan is ");
        push_decimal(&mut reason, t.len() as u128);
        reason.append(" characters, over the 20000 limit — say less per step");
        return Err(invalid("writePlan", reason));
    }
    let ls = lines_of(t.as_slice());
    proof {
        crate::text::lemma_lines_len(t@);
    }
    Ok(ToolResult::PlanWritten { lines: ls.len() as u32 })
}

// ----- background processes -----

/// The background processes a turn may read and stop, by number.
pub trait BackgroundProcesses {
    /// Whether `answer` is one that reading process `id` may give. What a
    /// process wrote depends on the process; each implementation says what
    /// its answers are.
    spec fn read_allows(&self, id: u32, answer: Result<ProcessOutput, ToolError>) -> bool;

    /// Whether `answer` is one that stopping process `id` may give.
    spec fn stop_allows(&self, id: u32, answer: Result<ProcessInfo, ToolError>) -> bool;

    /// What the process wrote since it was last read, and how it stands.
    fn read(&self, id: u32) -> (r: Result<ProcessOutput, ToolError>)
        ensures
            self.read_allows(id, r),
    ;

    /// Stops the process and everything it started.
    fn stop(&self, id: u32) -> (r: Result<ProcessInfo, ToolError>)
        ensures
            self.stop_allows(id, r),
    ;
}

/// What `readOutput` answers for what the processes said.
pub open spec fn spec_output_result(read: Result<ProcessOutput, ToolError>) -> Result<ToolResult, ToolError> {
    match read {
        Ok(o) => Ok(ToolResult::ProcessOutput(o)),
        Err(e) => Err(e),
    }
}

/// What `stopProcess` answers for what the processes said.
pub open spec fn spec_stopped_result(stopped: Result<ProcessInfo, ToolError>) -> Result<ToolResult, ToolError> {
    match stopped {
        Ok(p) => Ok(ToolResult::ProcessStopped(p)),
        Err(e) => Err(e),
    }
}

pub open spec fn id_required_reason() -> Seq<char> {
    "id is required: the number runCommand returned when it started the process"@
}

pub open spec fn no_processes() -> Seq<char> {
    "background processes are not available here"@
}

/// Which process a call names, where processes can be reached at all.
pub open spec fn process_target_error(tool: Seq<char>, id: Option<u32>, available: bool, e: ToolError) -> bool {
    if id is None {
        invalid_args(e, tool, id_required_reason())
    } else {
        e matches ToolError::Command(m) && m@ == no_processes()
    }
}

fn process_target(tool: &str, id: Option<u32>, available: bool) -> (r: Result<u32, ToolError>)
    ensures
        match r {
            Ok(n) => id == Some(n) && available,
            Err(e) => (id is None || !available) && process_target_error(tool@, id, available, e),
        },
{
    let n = match id {
        Some(n) => n,
        None => {
            let mut reason = String::new();
            reason.append("id is required: the number runCommand returned when it started the process");
            return Err(invalid(tool, reason));
        },
    };
    if !available {
        let mut m = String::new();
        m.append("background processes are not available here");
        return Err(ToolError::Command(m));
    }
    Ok(n)
}

/// What `readOutput` answers for what the processes said: the output as
/// the result, or their error as it is.
pub fn output_result(read: Result<ProcessOutput, ToolError>) -> (r: Result<ToolResult, ToolError>)
    ensures
        r == spec_output_result(read),
{
    match read {
        Ok(o) => Ok(ToolResult::ProcessOutput(o)),
        Err(e) => Err(e),
    }
}

/// What `stopProcess` answers for what the processes said: the stopped
/// process as the result, or their error as it is.
pub fn stopped_result(stopped: Result<ProcessInfo, ToolError>) -> (r: Result<ToolResult, ToolError>)
    ensures
        r == spec_stopped_result(stopped),
{
    match stopped {
        Ok(p) => Ok(ToolResult::ProcessStopped(p)),
        Err(e) => Err(e),
    }
}

/// `readOutput`: what a background process wrote since it was last read.
/// Refused without a process number, or where no processes can be reached;
/// otherwise what the processes answer.
pub fn read_output<P: BackgroundProcesses>(id: Option<u32>, processes: Option<&P>) -> (r: Result<
    ToolResult,
    ToolError,
>)
    ensures
        id is None || processes is None ==> (r matches Err(e) && process_target_error(
            "readOutput"@,
            id,
            processes is Some,
            e,
        )),
        id is Some && processes is Some ==> exists|x: Result<ProcessOutput, ToolError>|
            processes->0.read_allows(id->0, x) && r == spec_output_result(x),
{
    let n = process_target("readOutput", id, processes.is_some())?;
    match processes {
        Some(p) => {
            let answer = p.read(n);
            let r = output_result(answer);
            assert(p.read_allows(n, answer) && r == spec_output_result(answer));
            r
        },
        None => {
            let mut m = String::new();
            m.append("background processes are not available here");
            Err(ToolError::Command(m))
        },
    }
}

/// `stopProcess`: stops a background process. Refused as `readOutput` is.
pub fn stop_process<P: BackgroundProcesses>(id: Option<u32>, processes: Option<&P>) -> (r: Result<
    ToolResult,
    ToolError,
>)
    ensures
        id is None || processes is None ==> (r matches Err(e) && process_target_error(
            "stopProcess"@,
            id,
            processes is Some,
            e,
        )),
        id is Some && processes is Some ==> exists|x: Result<ProcessInfo, ToolError>|
            processes->0.stop_allows(id->0, x) && r == spec_stopped_result(x),
{
    let n = process_target("stopProcess", id, processes.is_some())?;
    match processes {
        Some(p) => {
            let answer = p.stop(n);
            let r = stopped_result(answer);
            assert(p.stop_allows(n, answer) && r == spec_stopped_result(answer));
            r
        },
        None => {
            let mut m = String::new();
            m.append("background processes are not available here");
            Err(ToolError::Command(m))
        },
    }
}

// ----- runCommand -----

/// The directory a command named: none where it named none, or the root
/// itself (`""` or `"."`).
pub open spec fn named_dir(cwd: Option<&str>) -> Option<Seq<char>> {
    match cwd {
        Some(p) => if p@.len() > 0 && p@ != seq!['.'] {
            Some(p@)
        } else {
            None
        },
        None => None,
    }
}

/// A command that is empty after trimming is refused; otherwise the
/// directory it named, where it named one that is not the root itself.
fn command_cwd(command: &str, cwd: Option<&str>) -> (r: Result<Option<String>, ToolError>)
    ensures
        trim(command@).len() == 0 ==> (r matches Err(e) && invalid_args(
            e,
            "runCommand"@,
            "command must not be empty"@,
        )),
        trim(command@).len() > 0 ==> (r matches Ok(d) && match named_dir(cwd) {
            Some(p) => d matches Some(s) && s@ == p,
            None => d is None,
        }),
{
    let cs = chars_of(command);
    let t = trim_chars(cs.as_slice());
    if t.len() == 0 {
        let mut reason = String::new();
        reason.append("command must not be empty");
        return Err(invalid("runCommand", reason));
    }
    match cwd {
        Some(p) => {
            let pc = chars_of(p);
            if pc.len() > 0 && !(pc.len() == 1 && pc[0] == '.') {
                Ok(Some(owned_text(p)))
            } else {
                assert(pc.len() == 1 ==> pc@ =~= seq![pc@[0]]);
                Ok(None)
            }
        },
        None => Ok(None),
    }
}

/// Where a command runs, as canonical components, decided before any
/// process starts. A command that is empty after trimming is refused; with
/// no directory named (or `""`, `"."`), the root; else the named directory,
/// resolved as every existing path is, from `canonical`, the canonical form
/// of its join onto the root, and `exists`, whether anything is there: one
/// outside the scope is refused as an escape, one that is not there as not
/// found.
pub fn run_command(
    root: &Vec<String>,
    command: &str,
    cwd: Option<&str>,
    canonical: Vec<String>,
    exists: bool,
) -> (r: Result<Vec<String>, ToolError>)
    ensures
        trim(command@).len() == 0 ==> (r matches Err(e) && invalid_args(
            e,
            "runCommand"@,
            "command must not be empty"@,
        )),
        trim(command@).len() > 0 && named_dir(cwd) is None ==> (r matches Ok(d) && strs_view(d@) == strs_view(
            root@,
        )),
        trim(command@).len() > 0 && named_dir(cwd) is Some ==> existing_outcome(
            r,
            strs_view(root@),
            named_dir(cwd)->0,
            canonical,
            exists,
        ),
{
    match command_cwd(command, cwd) {
        Err(e) => Err(e),
        Ok(None) => Ok(copy_components(root)),
        Ok(Some(p)) => resolve_existing(root, p.as_str(), canonical, exists),
    }
}

// ----- semanticSearch -----

/// Text per hit by default, and with `preview`.
pub const TEXT_CHARS: usize = 240;

pub const PREVIEW_CHARS: usize = 1200;

/// `text` cut to `limit` characters, with `…` where anything was cut.
pub open spec fn shorten_text(text: Seq<char>, limit: nat) -> Seq<char> {
    if text.len() > limit {
        text.subrange(0, limit as int).push('…')
    } else {
        text
    }
}

pub fn shorten(text: &str, limit: usize) -> (s: String)
    ensures
        s@ == shorten_text(text@, limit as nat),
{
    let cs = chars_of(text);
    if cs.len() > limit {
        let kept = slice_to_vec(cs.as_slice(), 0, limit);
        let mut s = text_of(kept.as_slice());
        push_char(&mut s, '…');
        s
    } else {
        owned_text(text)
    }
}

/// How much of its text a hit keeps.
pub open spec fn text_limit(preview: Option<bool>) -> nat {
    if preview == Some(true) {
        PREVIEW_CHARS as nat
    } else {
        TEXT_CHARS as nat
    }
}

/// `a` is the hit `b` with its text cut to `limit` characters.
pub open spec fn shortened(a: CodeMatch, b: CodeMatch, limit: nat) -> bool {
    &&& a.path == b.path
    &&& a.start_line == b.start_line
    &&& a.end_line == b.end_line
    &&& a.name == b.name
    &&& a.source == b.source
    &&& a.text@ == shorten_text(b.text@, limit)
}

/// How many hits the folder's search is asked for: what the model asked,
/// else [`DEFAULT_TOP_K`]. The query and the full-text words go to it as the
/// model wrote them.
pub fn search_size(top_k: Option<usize>) -> (n: usize)
    ensures
        n == match top_k {
            Some(k) => k,
            None => DEFAULT_TOP_K,
        },
{
    match top_k {
        Some(k) => k,
        None => DEFAULT_TOP_K,
    }
}

/// The hits of a code search as the model gets them: each hit's text cut to
/// [`TEXT_CHARS`] characters, or [`PREVIEW_CHARS`] with `preview`.
/// `search` is what the folder's search answered: `None` where the folder
/// has no index, its error where it failed.
pub fn semantic_search(search: Option<Result<(Vec<CodeMatch>, SearchMeta), String>>, preview: Option<bool>) -> (r: Result<
    ToolResult,
    ToolError,
>)
    ensures
        match search {
            None => r matches Err(ToolError::SearchUnavailable(m)) && m@ == "this folder has no index"@,
            Some(Err(e)) => r matches Err(ToolError::SearchUnavailable(m)) && m@ == e@,
            Some(Ok((ms, meta))) => r matches Ok(ToolResult::SearchResults { matches, meta: m2 }) && m2 == meta
                && matches@.len() == ms@.len() && forall|i: int|
                0 <= i < ms@.len() ==> #[trigger] shortened(matches@[i], ms@[i], text_limit(preview)),
        },
{
    let (ms, meta) = match search {
        None => {
            let mut m = String::new();
            m.append("this folder has no index");
            return Err(ToolError::SearchUnavailable(m));
        },
        Some(Err(e)) => {
            return Err(ToolError::SearchUnavailable(e));
        },
        Some(Ok(found)) => found,
    };
    let limit = match preview {
        Some(true) => PREVIEW_CHARS,
        _ => TEXT_CHARS,
    };
    let ghost all = ms@;
    let n = ms.len();
    let mut rest = ms;
    let mut out: Vec<CodeMatch> = Vec::new();
    while rest.len() > 0
        invariant
            n == all.len(),
            rest@.len() <= n,
            rest@ == all.subrange(n - rest@.len(), n as int),
            out@.len() == n - rest@.len(),
            forall|i: int| 0 <= i < out@.len() ==> #[trigger] shortened(out@[i], all[i], limit as nat),
        decreases rest.len(),
    {
        let ghost k = n - rest@.len();
        let m = rest.remove(0);
        assert(m == all[k]);
        assert(rest@ =~= all.subrange(k + 1, n as int));
        let text = shorten(m.text.as_str(), limit);
        let ghost before = out@;
        let item = CodeMatch {
            path: m.path,
            start_line: m.start_line,
            end_line: m.end_line,
            name: m.name,
            text,
            source: m.source,
        };
        assert(item.path == all[k].path && item.name == all[k].name);
        assert(item.text@ == shorten_text(all[k].text@, limit as nat));
        assert(item.source == all[k].source);
        assert(item.start_line == all[k].start_line);
        out.push(item);
        assert forall|i: int| 0 <= i < out@.len() implies #[trigger] shortened(out@[i], all[i], limit as nat) by {
            if i < before.len() {
                assert(out@[i] == before[i]);
                assert(shortened(before[i], all[i], limit as nat));
            }
        }
    }
    Ok(ToolResult::SearchResults { matches: out, meta })
}

// ----- skill -----

/// The skill named `name` among those the turn's prompt listed: the first
/// listed under that name, and none for a name the prompt did not list (a
/// guess, one switched off, one added mid-turn), which is not loaded even
/// where its folder holds it.
pub fn listed_skill(listed: &Vec<String>, name: &str) -> (r: Option<usize>)
    ensures
        match r {
            Some(i) => i < listed@.len() && listed@[i as int]@ == name@ && forall|k: int|
                0 <= k < i ==> (#[trigger] listed@[k])@ != name@,
            None => forall|k: int| 0 <= k < listed@.len() ==> (#[trigger] listed@[k])@ != name@,
        },
{
    let mut i: usize = 0;
    while i < listed.len()
        invariant
            i <= listed@.len(),
            forall|k: int| 0 <= k < i ==> (#[trigger] listed@[k])@ != name@,
        decreases listed.len() - i,
    {
        if str_eq(listed[i].as_str(), name) {
            return Some(i);
        }
        i = i + 1;
    }
    None
}

// ----- a connected server's tool -----

/// How a connected server answered a call.
pub enum McpCallOutcome {
    /// It answered; `is_error` where the answer is the tool's own failure.
    Returned { text: String, is_error: bool },
    /// The turn was stopped while waiting.
    Cancelled,
    /// The server could not be reached or answered nothing usable; the
    /// error's text.
    Failed(String),
}

/// A connected server: its name, and the tools it offers by their own
/// names.
pub struct McpServer {
    pub name: String,
    pub tools: Vec<String>,
}

/// The wire name of the tool `tool` of the server `server`.
pub open spec fn mcp_wire(server: Seq<char>, tool: Seq<char>) -> Seq<char> {
    mcp_prefix() + server + "__"@ + tool
}

/// Whether tool `j` of server `i` goes by the wire name `name`.
pub open spec fn names_tool(servers: Seq<McpServer>, name: Seq<char>, i: int, j: int) -> bool {
    &&& 0 <= i < servers.len()
    &&& 0 <= j < servers[i].tools@.len()
    &&& mcp_wire(servers[i].name@, servers[i].tools@[j]@) == name
}

/// What a server's tool is called with: its own name for the tool, and
/// the arguments, the JSON text the model gave.
pub struct McpCall {
    pub tool: String,
    pub arguments: String,
}

/// The client of one connected server, as the caller has it. What a server
/// answers depends on the server; each implementation says what its
/// answers are.
pub trait McpClient {
    /// Whether `answer` is one that `call` may give.
    spec fn call_allows(&self, call: McpCall, answer: McpCallOutcome) -> bool;

    /// Calls the server's tool.
    fn call_tool(&self, call: &McpCall) -> (r: McpCallOutcome)
        ensures
            self.call_allows(*call, r),
    ;
}

/// Which server and tool a wire name names: the first server, in order,
/// with a tool that goes by it, and the first such tool.
pub fn mcp_target(servers: &Vec<McpServer>, name: &str) -> (r: Option<(usize, usize)>)
    ensures
        match r {
            Some((i, j)) => names_tool(servers@, name@, i as int, j as int) && forall|i2: int, j2: int|
                #[trigger] names_tool(servers@, name@, i2, j2) ==> i < i2 || (i == i2 && j <= j2),
            None => forall|i2: int, j2: int| !#[trigger] names_tool(servers@, name@, i2, j2),
        },
{
    let mut i: usize = 0;
    while i < servers.len()
        invariant
            i <= servers@.len(),
            forall|i2: int, j2: int| 0 <= i2 < i ==> !#[trigger] names_tool(servers@, name@, i2, j2),
        decreases servers.len() - i,
    {
        let mut j: usize = 0;
        while j < servers[i].tools.len()
            invariant
                i < servers@.len(),
                j <= servers@[i as int].tools@.len(),
                forall|i2: int, j2: int| 0 <= i2 < i ==> !#[trigger] names_tool(servers@, name@, i2, j2),
                forall|j2: int| 0 <= j2 < j ==> !#[trigger] names_tool(servers@, name@, i as int, j2),
            decreases servers[i as int].tools@.len() - j,
        {
            let mut wire = String::new();
            wire.append("mcp__");
            wire.append(servers[i].name.as_str());
            wire.append("__");
            wire.append(servers[i].tools[j].as_str());
            proof {
                reveal_strlit("mcp__");
                assert(mcp_prefix() =~= "mcp__"@);
            }
            if str_eq(wire.as_str(), name) {
                return Some((i, j));
            }
            j = j + 1;
        }
        i = i + 1;
    }
    None
}

/// Whether `r` is what a call answers when the server `server` answered
/// `outcome`: the tool's own failure as its text, a stop as `cancelled`,
/// and a server that could not answer said with its name.
pub open spec fn mcp_answers(r: Result<ToolResult, ToolError>, server: Seq<char>, outcome: McpCallOutcome) -> bool {
    match outcome {
        McpCallOutcome::Returned { text, is_error } => if is_error {
            r matches Err(ToolError::McpToolFailed(t)) && t@ == text@
        } else {
            r matches Ok(ToolResult::Mcp { text: t }) && t@ == text@
        },
        McpCallOutcome::Cancelled => r matches Err(ToolError::McpUnavailable(t)) && t@ == "cancelled"@,
        McpCallOutcome::Failed(m) => r matches Err(ToolError::McpUnavailable(t)) && t@ == seq!['"'] + server
            + "\": "@ + m@,
    }
}

/// A call to the server tool `name`. `server` is the connected server that
/// offers it, `None` where no server does (a guess, or a server gone since
/// the model saw it); `outcome` is how that server answered.
pub fn mcp(name: &str, server: Option<&str>, outcome: McpCallOutcome) -> (r: Result<ToolResult, ToolError>)
    ensures
        match server {
            None => r matches Err(ToolError::UnknownTool(t)) && t@ == name@,
            Some(s) => mcp_answers(r, s@, outcome),
        },
{
    let s = match server {
        None => {
            return Err(ToolError::UnknownTool(owned_text(name)));
        },
        Some(s) => s,
    };
    match outcome {
        McpCallOutcome::Returned { text, is_error } => {
            if is_error {
                Err(ToolError::McpToolFailed(text))
            } else {
                Ok(ToolResult::Mcp { text })
            }
        },
        McpCallOutcome::Cancelled => {
            let mut t = String::new();
            t.append("cancelled");
            Err(ToolError::McpUnavailable(t))
        },
        McpCallOutcome::Failed(m) => {
            let mut t = String::new();
            push_char(&mut t, '"');
            t.append(s);
            t.append("\": ");
            t.append(m.as_str());
            assert(t@ =~= seq!['"'] + s@ + "\": "@ + m@);
            Err(ToolError::McpUnavailable(t))
        },
    }
}

/// Calls the server tool `name` with the model's `arguments`: the tool is
/// found by its wire name among `servers` (see [`mcp_target`]), each
/// reached through the client beside it in `clients`; the server's own name
/// for the tool and the arguments, unchanged, are what its client is
/// given, and its answer is told as [`mcp`] tells it.
pub fn call_mcp<C: McpClient>(servers: &Vec<McpServer>, clients: &Vec<C>, name: &str, arguments: &str) -> (r: Result<
    ToolResult,
    ToolError,
>)
    requires
        clients@.len() == servers@.len(),
    ensures
        (forall|i: int, j: int| !#[trigger] names_tool(servers@, name@, i, j)) ==> (r matches Err(
            ToolError::UnknownTool(t),
        ) && t@ == name@),
        (exists|i: int, j: int| #[trigger] names_tool(servers@, name@, i, j)) ==> exists|
            i: int,
            j: int,
            call: McpCall,
            answer: McpCallOutcome,
        |
            #![trigger names_tool(servers@, name@, i, j), clients@[i].call_allows(call, answer)]
            {
                &&& names_tool(servers@, name@, i, j)
                &&& forall|i2: int, j2: int| #[trigger] names_tool(servers@, name@, i2, j2) ==> i < i2 || (i == i2 && j <= j2)
                &&& call.tool@ == servers@[i].tools@[j]@
                &&& call.arguments@ == arguments@
                &&& clients@[i].call_allows(call, answer)
                &&& mcp_answers(r, servers@[i].name@, answer)
            },
{
    match mcp_target(servers, name) {
        None => mcp(name, None, McpCallOutcome::Cancelled),
        Some((i, j)) => {
            let call = McpCall { tool: owned_text(servers[i].tools[j].as_str()), arguments: owned_text(arguments) };
            let answer = clients[i].call_tool(&call);
            let ghost a = answer;
            let r = mcp(name, Some(servers[i].name.as_str()), answer);
            assert(clients@[i as int].call_allows(call, a));
            r
        },
    }
}

} // verus!
