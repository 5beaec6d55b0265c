//! The agent loop's own decisions: what a round costs, when the loop stops,
//! what the model is told instead of a result it already has, the notes a
//! user types while a turn runs, and how a stopped or resumed turn leaves
//! its history.
//!
//! Streaming from the provider, running tools and hooks, and waiting are the
//! caller's part; each step here takes what they produced and says what
//! happens next.

use vstd::prelude::*;

use crate::read_file::{content_hash, hash_text};
use crate::resolve::owned_text;
use crate::text::{decimal, is_blank, push_char, push_decimal, str_eq, strs_view, trim};
use crate::model_text::{for_model, spec_for_model};
use crate::tool_types::{spec_from_wire_name, spec_loop_weight, ToolName, ToolResult};

verus! {

/// How many model and tool round trips one turn may run.
pub const MAX_TOOL_ITERATIONS: usize = 60;

/// The weighted ceiling of a turn, in [`ToolName::loop_weight`] units.
pub const MAX_TOOL_BUDGET: u32 = 250;

/// One tool call the model asked for.
#[derive(Debug)]
pub struct LlmToolCall {
    pub id: String,
    pub name: String,
    pub arguments: String,
}

/// The tools connected servers offer, each by its wire name with the weight
/// its server counts against a turn's budget.
pub struct McpTools {
    pub tools: Vec<(String, u32)>,
}

/// The weight of a call to the server tool `name`: its server's, or 1 for a
/// name no server offers.
pub open spec fn mcp_weight(tools: Seq<(String, u32)>, name: Seq<char>) -> u32
    decreases tools.len(),
{
    if tools.len() == 0 {
        1
    } else if tools[0].0@ == name {
        tools[0].1
    } else {
        mcp_weight(tools.drop_first(), name)
    }
}

impl McpTools {
    pub fn weight(&self, name: &str) -> (w: u32)
        ensures
            w == mcp_weight(self.tools@, name@),
    {
        let mut i: usize = 0;
        assert(self.tools@.subrange(0, self.tools@.len() as int) =~= self.tools@);
        while i < self.tools.len()
            invariant
                i <= self.tools@.len(),
                mcp_weight(self.tools@, name@) == mcp_weight(self.tools@.subrange(i as int, self.tools@.len() as int), name@),
            decreases self.tools.len() - i,
        {
            let ghost rest = self.tools@.subrange(i as int, self.tools@.len() as int);
            assert(rest.drop_first() =~= self.tools@.subrange(i + 1, self.tools@.len() as int));
            if str_eq(self.tools[i].0.as_str(), name) {
                return self.tools[i].1;
            }
            i = i + 1;
        }
        1
    }
}

/// What one call counts against the budget: its tool's weight, a server's
/// weight for a connected server's tool, and 1 for a name that is no tool.
pub open spec fn call_cost(name: Seq<char>, tools: Seq<(String, u32)>) -> u32 {
    match spec_from_wire_name(name) {
        Some(ToolName::Mcp) => mcp_weight(tools, name),
        Some(t) => spec_loop_weight(t),
        None => 1,
    }
}

/// The cost of the first `n` calls.
pub open spec fn cost_upto(calls: Seq<LlmToolCall>, tools: Seq<(String, u32)>, n: nat) -> nat
    decreases n,
{
    if n == 0 {
        0
    } else {
        cost_upto(calls, tools, (n - 1) as nat) + (call_cost(calls[n - 1].name@, tools) as nat)
    }
}

/// The cost of a round: the weight of every call in it.
pub open spec fn spec_round_cost(calls: Seq<LlmToolCall>, tools: Seq<(String, u32)>) -> nat {
    cost_upto(calls, tools, calls.len())
}

pub fn round_cost(calls: &Vec<LlmToolCall>, mcp: &McpTools) -> (c: u32)
    requires
        spec_round_cost(calls@, mcp.tools@) <= u32::MAX,
    ensures
        c == spec_round_cost(calls@, mcp.tools@),
{
    let mut total: u32 = 0;
    let mut i: usize = 0;
    while i < calls.len()
        invariant
            i <= calls@.len(),
            total == cost_upto(calls@, mcp.tools@, i as nat),
            spec_round_cost(calls@, mcp.tools@) <= u32::MAX,
        decreases calls.len() - i,
    {
        proof {
            lemma_cost_monotone(calls@, mcp.tools@, (i + 1) as nat, calls@.len());
        }
        let cost = match ToolName::from_wire_name(calls[i].name.as_str()) {
            Some(ToolName::Mcp) => mcp.weight(calls[i].name.as_str()),
            Some(tool) => tool.loop_weight(),
            None => 1,
        };
        total = total + cost;
        i = i + 1;
    }
    total
}

proof fn lemma_cost_monotone(calls: Seq<LlmToolCall>, tools: Seq<(String, u32)>, i: nat, j: nat)
    requires
        i <= j,
    ensures
        cost_upto(calls, tools, i) <= cost_upto(calls, tools, j),
    decreases j - i,
{
    if i < j {
        lemma_cost_monotone(calls, tools, i, (j - 1) as nat);
    }
}

// ----- repeated results -----

/// What the model reads instead of a file it already has, unchanged.
pub open spec fn repeat_read_note() -> Seq<char> {
    "This file was already read in this turn, over the same range, and has not changed since — the result is earlier in the conversation and is not repeated here."@
}

/// The same, for a search that returned the same result.
pub open spec fn repeat_search_note() -> Seq<char> {
    "This search already ran in this turn with the same parameters and returned the same result — it is earlier in the conversation and is not repeated here."@
}

/// For each call this turn, by its tool name and raw arguments, the hash of
/// what the model was last given for it.
///
/// Kept as two parallel lists rather than a `HashMap<String, u64>`: vstd
/// gives a hash map's operations their meaning only where the key type
/// obeys its key model (`obeys_key_model`), which it states for the
/// integer types and `bool` but not for `String`, so nothing about a repeat
/// could be proved through such a map. The lists are searched in full.
pub struct SeenResults {
    keys: Vec<String>,
    hashes: Vec<u64>,
}

spec fn seen_lookup(keys: Seq<String>, hashes: Seq<u64>, k: Seq<char>) -> Option<u64>
    decreases keys.len(),
{
    if keys.len() == 0 {
        None
    } else if keys.last()@ == k {
        Some(hashes[keys.len() - 1])
    } else {
        seen_lookup(keys.drop_last(), hashes.subrange(0, keys.len() - 1), k)
    }
}

impl View for SeenResults {
    type V = Map<Seq<char>, u64>;

    closed spec fn view(&self) -> Map<Seq<char>, u64> {
        Map::new(
            |k: Seq<char>| seen_lookup(self.keys@, self.hashes@, k) is Some,
            |k: Seq<char>| seen_lookup(self.keys@, self.hashes@, k).unwrap(),
        )
    }
}

/// The key a call is remembered by: its tool name, `|`, its arguments.
pub open spec fn call_key(call: LlmToolCall) -> Seq<char> {
    call.name@ + seq!['|'] + call.arguments@
}

proof fn lemma_seen_push(keys: Seq<String>, hashes: Seq<u64>, k: String, h: u64, q: Seq<char>)
    requires
        keys.len() == hashes.len(),
    ensures
        seen_lookup(keys.push(k), hashes.push(h), q) == if q == k@ {
            Some(h)
        } else {
            seen_lookup(keys, hashes, q)
        },
{
    assert(keys.push(k).drop_last() =~= keys);
    assert(hashes.push(h).subrange(0, keys.len() as int) =~= hashes);
}

impl SeenResults {
    pub fn new() -> (r: Self)
        ensures
            r@ == Map::<Seq<char>, u64>::empty(),
            r.wf(),
    {
        let r = SeenResults { keys: Vec::new(), hashes: Vec::new() };
        assert(r@ =~= Map::<Seq<char>, u64>::empty());
        r
    }

    pub closed spec fn wf(&self) -> bool {
        self.keys@.len() == self.hashes@.len()
    }

    /// What is remembered for `key`.
    fn lookup(&self, key: &str) -> (r: Option<u64>)
        requires
            self.wf(),
        ensures
            r == seen_lookup(self.keys@, self.hashes@, key@),
    {
        let mut i = self.keys.len();
        assert(self.keys@.subrange(0, i as int) =~= self.keys@);
        assert(self.hashes@.subrange(0, i as int) =~= self.hashes@);
        while i > 0
            invariant
                i <= self.keys@.len(),
                self.keys@.len() == self.hashes@.len(),
                seen_lookup(self.keys@, self.hashes@, key@) == seen_lookup(
                    self.keys@.subrange(0, i as int),
                    self.hashes@.subrange(0, i as int),
                    key@,
                ),
            decreases i,
        {
            let ghost ks = self.keys@.subrange(0, i as int);
            let ghost hs = self.hashes@.subrange(0, i as int);
            assert(ks.drop_last() =~= self.keys@.subrange(0, i - 1));
            assert(hs.subrange(0, i - 1) =~= self.hashes@.subrange(0, i - 1));
            if str_eq(self.keys[i - 1].as_str(), key) {
                return Some(self.hashes[i - 1]);
            }
            i = i - 1;
        }
        None
    }

    /// Remembers `h` for `key` and hands back what was remembered before.
    pub fn insert(&mut self, key: String, h: u64) -> (previous: Option<u64>)
        requires
            old(self).wf(),
        ensures
            final(self).wf(),
            final(self)@ == old(self)@.insert(key@, h),
            previous == if old(self)@.contains_key(key@) {
                Some(old(self)@[key@])
            } else {
                None::<u64>
            },
    {
        let previous = self.lookup(key.as_str());
        let ghost ok = self.keys@;
        let ghost oh = self.hashes@;
        self.keys.push(key);
        self.hashes.push(h);
        proof {
            assert forall|q: Seq<char>| true implies seen_lookup(self.keys@, self.hashes@, q) == (if q == key@ {
                Some(h)
            } else {
                seen_lookup(ok, oh, q)
            }) by {
                lemma_seen_push(ok, oh, key, h, q);
            }
        }
        assert(self@ =~= old(self)@.insert(key@, h));
        previous
    }
}

/// The note that stands for a repeated result of this kind, where there is
/// one: reads and searches only.
pub open spec fn repeat_note(result: Option<ToolResult>) -> Option<Seq<char>> {
    match result {
        Some(ToolResult::File { .. }) => Some(repeat_read_note()),
        Some(ToolResult::GrepResults { .. }) => Some(repeat_search_note()),
        _ => None,
    }
}

/// What the model is given for a call's result `content`: a read or a search
/// whose call (tool and arguments) gave exactly this before in the turn is
/// replaced by a note; anything else, a failed call included, comes back as
/// it is.
pub open spec fn dedupe_text(
    seen: Map<Seq<char>, u64>,
    call: LlmToolCall,
    result: Option<ToolResult>,
    content: Seq<char>,
) -> Seq<char> {
    match repeat_note(result) {
        None => content,
        Some(n) => {
            let k = call_key(call);
            if seen.contains_key(k) && seen[k] == content_hash(content) {
                n
            } else {
                content
            }
        },
    }
}

/// What is remembered after a call: a read or a search under its call, with
/// the hash of what it gave; nothing for anything else.
pub open spec fn dedupe_seen(
    seen: Map<Seq<char>, u64>,
    call: LlmToolCall,
    result: Option<ToolResult>,
    content: Seq<char>,
) -> Map<Seq<char>, u64> {
    match repeat_note(result) {
        None => seen,
        Some(_) => seen.insert(call_key(call), content_hash(content)),
    }
}

pub open spec fn result_view(result: Option<&ToolResult>) -> Option<ToolResult> {
    match result {
        Some(r) => Some(*r),
        None => None,
    }
}

fn repeat_note_exec(result: Option<&ToolResult>) -> (r: Option<String>)
    ensures
        match repeat_note(result_view(result)) {
            None => r is None,
            Some(n) => r matches Some(s) && s@ == n,
        },
{
    match result {
        Some(ToolResult::File { .. }) => {
            let mut note = String::new();
            note.append(
                "This file was already read in this turn, over the same range, and has not changed since — the result is earlier in the conversation and is not repeated here.",
            );
            Some(note)
        },
        Some(ToolResult::GrepResults { .. }) => {
            let mut note = String::new();
            note.append(
                "This search already ran in this turn with the same parameters and returned the same result — it is earlier in the conversation and is not repeated here.",
            );
            Some(note)
        },
        _ => None,
    }
}

pub fn dedupe_repeat_result(
    seen: &mut SeenResults,
    call: &LlmToolCall,
    result: Option<&ToolResult>,
    content: String,
) -> (out: String)
    requires
        old(seen).wf(),
    ensures
        final(seen).wf(),
        final(seen)@ == dedupe_seen(old(seen)@, *call, result_view(result), content@),
        out@ == dedupe_text(old(seen)@, *call, result_view(result), content@),
{
    let note = match repeat_note_exec(result) {
        None => {
            return content;
        },
        Some(n) => n,
    };
    let h = hash_text(content.as_str());
    let mut key = String::new();
    key.append(call.name.as_str());
    push_char(&mut key, '|');
    key.append(call.arguments.as_str());
    assert(key@ =~= call_key(*call));
    let previous = seen.insert(key, h);
    match previous {
        Some(p) => {
            if p == h {
                note
            } else {
                content
            }
        },
        None => content,
    }
}

// ----- a round the provider cut off -----

/// Added to a failed call from a round the provider cut off.
pub open spec fn truncated_round_text() -> Seq<char> {
    "Note: the model's reply was cut off mid-way — the response length limit (max_tokens) ran out; the arguments were not malformed. Retry the call more compactly: shorter arguments, fewer files or lines at a time, splitting the work across several calls if needed."@
}

/// A failed call from a truncated round is told why; nothing else changes.
pub fn truncated_round_note(round_truncated: bool, failed: bool, content: String) -> (out: String)
    ensures
        out@ == if round_truncated && failed {
            content@ + "\n\n"@ + truncated_round_text()
        } else {
            content@
        },
{
    if round_truncated && failed {
        let mut out = content;
        out.append("\n\n");
        out.append(
            "Note: the model's reply was cut off mid-way — the response length limit (max_tokens) ran out; the arguments were not malformed. Retry the call more compactly: shorter arguments, fewer files or lines at a time, splitting the work across several calls if needed.",
        );
        out
    } else {
        content
    }
}

// ----- why a turn failed -----

/// Why a turn could not go on.
#[derive(Debug, PartialEq, Eq)]
pub enum TurnError {
    /// The provider's error, as it put it.
    Provider(String),
    /// The loop ran out of rounds or budget.
    Exhausted { rounds: u32 },
    /// A paused turn could not be resumed.
    BadResume(String),
    /// The decisions handed to a resumed turn do not fit its calls.
    Decision(String),
}

impl TurnError {
    /// The error as the user reads it.
    pub fn message(&self) -> (s: String)
        ensures
            s@ == match self {
                TurnError::Provider(t) => t@,
                TurnError::Exhausted { rounds } => "the assistant did not finish within "@ + crate::text::decimal(
                    *rounds as nat,
                ) + " rounds of tool calls. Ask it to continue if it still has work to do."@,
                TurnError::BadResume(t) => "cannot resume: "@ + t@,
                TurnError::Decision(t) => t@,
            },
    {
        let mut s = String::new();
        match self {
            TurnError::Provider(t) => s.append(t.as_str()),
            TurnError::Exhausted { rounds } => {
                s.append("the assistant did not finish within ");
                crate::text::push_decimal(&mut s, *rounds as u128);
                s.append(" rounds of tool calls. Ask it to continue if it still has work to do.");
            },
            TurnError::BadResume(t) => {
                s.append("cannot resume: ");
                s.append(t.as_str());
            },
            TurnError::Decision(t) => s.append(t.as_str()),
        }
        s
    }
}

// ----- notes typed while a turn runs -----

/// A note the user typed while a turn was running.
#[derive(Debug)]
pub struct SteeringNote {
    pub id: String,
    pub text: String,
}

/// Notes typed while a turn is running, waiting for the next round, in the
/// order they were typed.
pub struct SteeringQueue {
    notes: Vec<SteeringNote>,
}

pub open spec fn note_ids(notes: Seq<SteeringNote>) -> Seq<Seq<char>> {
    notes.map_values(|n: SteeringNote| n.id@)
}

impl View for SteeringQueue {
    type V = Seq<SteeringNote>;

    closed spec fn view(&self) -> Seq<SteeringNote> {
        self.notes@
    }
}

impl SteeringQueue {
    pub fn new() -> (q: Self)
        ensures
            q@ == Seq::<SteeringNote>::empty(),
    {
        SteeringQueue { notes: Vec::new() }
    }

    pub fn push(&mut self, note: SteeringNote)
        ensures
            final(self)@ == old(self)@.push(note),
    {
        self.notes.push(note);
    }

    /// Everything queued, oldest first; the queue is then empty.
    pub fn take(&mut self) -> (taken: Vec<SteeringNote>)
        ensures
            taken@ == old(self)@,
            final(self)@ == Seq::<SteeringNote>::empty(),
    {
        let mut taken: Vec<SteeringNote> = Vec::new();
        std::mem::swap(&mut taken, &mut self.notes);
        taken
    }

    /// Removes every note with this id; `true` where one was still queued.
    pub fn cancel(&mut self, id: &str) -> (removed: bool)
        ensures
            final(self)@ == old(self)@.filter(|n: SteeringNote| n.id@ != id@),
            removed == (old(self)@.filter(|n: SteeringNote| n.id@ != id@).len() != old(self)@.len()),
    {
        let ghost pred = |n: SteeringNote| n.id@ != id@;
        let mut kept: Vec<SteeringNote> = Vec::new();
        let mut notes: Vec<SteeringNote> = Vec::new();
        std::mem::swap(&mut notes, &mut self.notes);
        let ghost all = notes@;
        let n = notes.len();
        let mut rest = notes;
        proof {
            reveal(Seq::filter);
            assert(all.subrange(0, 0) =~= Seq::<SteeringNote>::empty());
            assert(rest@ =~= all.subrange(0, all.len() as int));
        }
        while rest.len() > 0
            invariant
                n == all.len(),
                pred == (|n: SteeringNote| n.id@ != id@),
                rest@.len() <= n,
                rest@ == all.subrange(n - rest@.len(), n as int),
                kept@ == all.subrange(0, n - rest@.len()).filter(pred),
            decreases rest.len(),
        {
            let ghost done = (n - rest@.len()) as int;
            let note = rest.remove(0);
            proof {
                reveal(Seq::filter);
                assert(note == all[done]);
                assert(all.subrange(0, done + 1).drop_last() =~= all.subrange(0, done));
                assert(rest@ =~= all.subrange(done + 1, n as int));
            }
            let keep = !str_eq(note.id.as_str(), id);
            proof {
                reveal(Seq::filter);
                assert(pred(note) == keep);
                assert(all.subrange(0, done + 1).last() == note);
            }
            if keep {
                kept.push(note);
            }
        }
        assert(all.subrange(0, n as int) =~= all);
        let removed = kept.len() != n;
        self.notes = kept;
        removed
    }
}

// ----- the loop's ceilings -----

/// What the loop carries from round to round that decides when it stops.
#[derive(Debug, Clone, Copy, PartialEq, Eq, Structural)]
pub struct LoopState {
    pub round: u32,
    pub budget_used: u32,
}

/// What the top of the loop decides.
#[derive(Debug, PartialEq, Eq)]
pub enum RoundStart {
    /// The user stopped the turn.
    Cancelled,
    /// The turn ran out of rounds or budget after this many rounds.
    Exhausted { rounds: u32 },
    /// Round `round` begins.
    Begin { round: u32 },
}

/// What the top of the loop decides: a stop comes first, so a stopped turn
/// reports as stopped rather than as having run out; then the two ceilings.
pub open spec fn next_round(round: u32, budget_used: u32, cancelled: bool) -> RoundStart {
    if cancelled {
        RoundStart::Cancelled
    } else if round >= MAX_TOOL_ITERATIONS || budget_used >= MAX_TOOL_BUDGET {
        RoundStart::Exhausted { rounds: round }
    } else {
        RoundStart::Begin { round: (round + 1) as u32 }
    }
}

impl LoopState {
    /// A fresh turn: no round run, nothing spent.
    pub fn fresh() -> (s: Self)
        ensures
            s.round == 0,
            s.budget_used == 0,
    {
        LoopState { round: 0, budget_used: 0 }
    }

    /// The top of the loop.
    pub fn begin_round(&mut self, cancelled: bool) -> (r: RoundStart)
        ensures
            r == next_round(old(self).round, old(self).budget_used, cancelled),
            final(self).budget_used == old(self).budget_used,
            final(self).round == if r is Begin {
                old(self).round + 1
            } else {
                old(self).round as int
            },
    {
        if cancelled {
            return RoundStart::Cancelled;
        }
        if self.round >= 60 || self.budget_used >= MAX_TOOL_BUDGET {
            return RoundStart::Exhausted { rounds: self.round };
        }
        self.round = self.round + 1;
        RoundStart::Begin { round: self.round }
    }

    /// Charges a round's cost; a paused round is charged again when it is
    /// resumed, as its round is counted twice.
    pub fn charge(&mut self, cost: u32)
        requires
            old(self).budget_used + cost <= u32::MAX,
        ensures
            final(self).budget_used == old(self).budget_used + cost,
            final(self).round == old(self).round,
    {
        self.budget_used = self.budget_used + cost;
    }
}

/// No round past the ceiling begins, none begins once the budget is spent,
/// and a stopped turn runs no further round.
pub proof fn law_the_loop_stops_at_its_ceilings(round: u32, budget_used: u32, cancelled: bool)
    ensures
        next_round(round, budget_used, cancelled) matches RoundStart::Begin { round: r } ==> {
            &&& r <= MAX_TOOL_ITERATIONS
            &&& r == round + 1
            &&& budget_used < MAX_TOOL_BUDGET
            &&& !cancelled
        },
        cancelled ==> next_round(round, budget_used, cancelled) == RoundStart::Cancelled,
{
}

/// The same read or search, giving the same text, is a note the second time.
pub proof fn law_a_repeat_is_replaced_by_a_note(
    seen: Map<Seq<char>, u64>,
    call: LlmToolCall,
    result: ToolResult,
    content: Seq<char>,
)
    requires
        repeat_note(Some(result)) is Some,
    ensures
        dedupe_text(dedupe_seen(seen, call, Some(result), content), call, Some(result), content) == repeat_note(
            Some(result),
        ).unwrap(),
{
}

/// A read whose text changed since the call last ran comes back in full, and
/// the next identical read is compared with the new text.
pub proof fn law_a_changed_result_comes_back_in_full(
    seen: Map<Seq<char>, u64>,
    call: LlmToolCall,
    result: ToolResult,
    before: Seq<char>,
    after: Seq<char>,
)
    requires
        content_hash(before) != content_hash(after),
    ensures
        dedupe_text(dedupe_seen(seen, call, Some(result), before), call, Some(result), after) == after,
{
}

/// A call of another tool, or a failed call, is never replaced and leaves
/// nothing remembered.
pub proof fn law_nothing_else_is_suppressed(
    seen: Map<Seq<char>, u64>,
    call: LlmToolCall,
    result: Option<ToolResult>,
    content: Seq<char>,
)
    requires
        repeat_note(result) is None,
    ensures
        dedupe_text(seen, call, result, content) == content,
        dedupe_seen(seen, call, result, content) == seen,
{
}

/// Calls whose tool or arguments differ are remembered apart.
pub proof fn law_a_different_call_is_remembered_apart(
    seen: Map<Seq<char>, u64>,
    first: LlmToolCall,
    second: LlmToolCall,
    result: ToolResult,
    content: Seq<char>,
)
    requires
        call_key(first) != call_key(second),
    ensures
        dedupe_text(dedupe_seen(seen, first, Some(result), content), second, Some(result), content) == dedupe_text(
            seen,
            second,
            Some(result),
            content,
        ),
{
}

// ----- the history a turn leaves -----

/// Who said a message.
#[derive(Debug, Clone, Copy, PartialEq, Eq, Structural)]
pub enum LlmRole {
    System,
    User,
    Assistant,
    Tool,
}

/// One message of a conversation.
#[derive(Debug)]
pub struct LlmMessage {
    pub role: LlmRole,
    pub content: Option<String>,
    pub tool_call_id: Option<String>,
    pub tool_calls: Vec<LlmToolCall>,
    /// The provider's own form of an assistant message (signed reasoning
    /// blocks, say), as JSON text, sent back with the next request
    /// unchanged.
    pub native_content: Option<String>,
}

/// A message as its texts.
pub struct MessageView {
    pub role: LlmRole,
    pub content: Option<Seq<char>>,
    pub tool_call_id: Option<Seq<char>>,
    pub call_ids: Seq<Seq<char>>,
    pub calls: Seq<LlmToolCall>,
    pub native_content: Option<Seq<char>>,
}

pub open spec fn opt_view(o: Option<String>) -> Option<Seq<char>> {
    match o {
        Some(s) => Some(s@),
        None => None,
    }
}

pub open spec fn call_ids(calls: Seq<LlmToolCall>) -> Seq<Seq<char>> {
    calls.map_values(|c: LlmToolCall| c.id@)
}

pub open spec fn message_view(m: LlmMessage) -> MessageView {
    MessageView {
        role: m.role,
        content: opt_view(m.content),
        tool_call_id: opt_view(m.tool_call_id),
        call_ids: call_ids(m.tool_calls@),
        calls: m.tool_calls@,
        native_content: opt_view(m.native_content),
    }
}

pub open spec fn history_view(h: Seq<LlmMessage>) -> Seq<MessageView> {
    h.map_values(|m: LlmMessage| message_view(m))
}

/// Whether a message is the assistant asking for tools.
pub open spec fn asks_for_tools(m: MessageView) -> bool {
    m.role == LlmRole::Assistant && m.call_ids.len() > 0
}

/// The index of the last message among the first `n` that asks for tools;
/// -1 where none does.
pub open spec fn last_tool_request(h: Seq<MessageView>, n: int) -> int
    decreases n,
{
    if n <= 0 {
        -1
    } else if asks_for_tools(h[n - 1]) {
        n - 1
    } else {
        last_tool_request(h, n - 1)
    }
}

/// The call ids the messages from `from` on answer.
pub open spec fn answered_ids(h: Seq<MessageView>, from: int) -> Set<Seq<char>> {
    Set::new(|id: Seq<char>| exists|j: int| from <= j < h.len() && h[j].tool_call_id == Some(id))
}

/// What a call the user stopped before it ran is answered with.
pub open spec fn not_run_text() -> Seq<char> {
    "Not run: the user stopped the turn before this call."@
}

pub open spec fn not_run_message(id: Seq<char>) -> MessageView {
    MessageView {
        role: LlmRole::Tool,
        content: Some(not_run_text()),
        tool_call_id: Some(id),
        call_ids: seq![],
        calls: seq![],
        native_content: None,
    }
}

/// The messages that close a stopped turn: for each call of its last tool
/// request that no later message answers, in order, a result saying it did
/// not run; then the last round's text, where it said anything.
pub open spec fn closing_messages(h: Seq<MessageView>, text: Seq<char>) -> Seq<MessageView> {
    let asked = last_tool_request(h, h.len() as int);
    let unrun = if asked < 0 {
        seq![]
    } else {
        h[asked].call_ids.filter(|id: Seq<char>| !answered_ids(h, asked + 1).contains(id))
    };
    unrun.map_values(|id: Seq<char>| not_run_message(id)) + if text.len() > 0 {
        seq![
            MessageView {
                role: LlmRole::Assistant,
                content: Some(text),
                tool_call_id: None,
                call_ids: seq![],
                calls: seq![],
                native_content: None,
            },
        ]
    } else {
        seq![]
    }
}

fn last_tool_request_exec(h: &Vec<LlmMessage>) -> (r: Option<usize>)
    ensures
        match r {
            Some(i) => i < h@.len() && i == last_tool_request(history_view(h@), h@.len() as int),
            None => last_tool_request(history_view(h@), h@.len() as int) == -1,
        },
{
    let ghost hv = history_view(h@);
    let mut i = h.len();
    while i > 0
        invariant
            i <= h@.len(),
            hv == history_view(h@),
            last_tool_request(hv, h@.len() as int) == last_tool_request(hv, i as int),
        decreases i,
    {
        let m = &h[i - 1];
        let asks = match m.role {
            LlmRole::Assistant => m.tool_calls.len() > 0,
            _ => false,
        };
        assert(hv[i - 1] == message_view(h@[i - 1]));
        if asks {
            return Some(i - 1);
        }
        i = i - 1;
    }
    None
}

fn is_answered(h: &Vec<LlmMessage>, from: usize, id: &str) -> (r: bool)
    requires
        from <= h@.len(),
    ensures
        r == answered_ids(history_view(h@), from as int).contains(id@),
{
    let ghost hv = history_view(h@);
    let mut j = from;
    while j < h.len()
        invariant
            from <= j <= h@.len(),
            hv == history_view(h@),
            forall|k: int| from <= k < j ==> hv[k].tool_call_id != Some(id@),
        decreases h.len() - j,
    {
        assert(hv[j as int] == message_view(h@[j as int]));
        match &h[j].tool_call_id {
            Some(t) => {
                if str_eq(t.as_str(), id) {
                    assert(hv[j as int].tool_call_id == Some(id@));
                    return true;
                }
            },
            None => {},
        }
        j = j + 1;
    }
    false
}

fn push_message(h: &mut Vec<LlmMessage>, m: LlmMessage)
    ensures
        history_view(final(h)@) == history_view(old(h)@).push(message_view(m)),
        final(h)@ == old(h)@.push(m),
{
    h.push(m);
    assert(history_view(h@) =~= history_view(old(h)@).push(message_view(m)));
}

/// Closes the history of a turn that stops here: every call of the last tool
/// request that has no result gets one saying it did not run, and the last
/// round's text, where there is any, ends the history.
pub fn ended(history: &mut Vec<LlmMessage>, text: String)
    ensures
        history_view(final(history)@) == history_view(old(history)@) + closing_messages(
            history_view(old(history)@),
            text@,
        ),
        old(history)@.len() <= final(history)@.len(),
        final(history)@.subrange(0, old(history)@.len() as int) == old(history)@,
{
    let ghost original = history@;
    let ghost h0 = history_view(history@);
    let ghost pred = |id: Seq<char>| !answered_ids(h0, last_tool_request(h0, h0.len() as int) + 1).contains(id);
    let mut unrun: Vec<String> = Vec::new();
    match last_tool_request_exec(history) {
        None => {},
        Some(asked) => {
            let calls = &history[asked].tool_calls;
            let ghost ids = call_ids(calls@);
            assert(ids == h0[asked as int].call_ids);
            let mut k: usize = 0;
            while k < calls.len()
                invariant
                    k <= calls@.len(),
                    asked < history.len(),
                    h0 == history_view(history@),
                    ids == call_ids(calls@),
                    last_tool_request(h0, h0.len() as int) == asked,
                    pred == (|id: Seq<char>| !answered_ids(h0, last_tool_request(h0, h0.len() as int) + 1).contains(id)),
                    strs_view(unrun@) == ids.subrange(0, k as int).filter(pred),
                decreases calls.len() - k,
            {
                let answered = is_answered(history, asked + 1, calls[k].id.as_str());
                proof {
                    reveal(Seq::filter);
                    assert(ids.subrange(0, k + 1).drop_last() =~= ids.subrange(0, k as int));
                    assert(ids[k as int] == calls@[k as int].id@);
                }
                if !answered {
                    let id = owned_text(calls[k].id.as_str());
                    let ghost before = strs_view(unrun@);
                    unrun.push(id);
                    assert(strs_view(unrun@) =~= before.push(id@));
                }
                k = k + 1;
            }
            assert(ids.subrange(0, calls@.len() as int) =~= ids);
        },
    }
    let ghost unrun_ids = strs_view(unrun@);
    let ghost start = history_view(history@);
    assert(unrun_ids == (if last_tool_request(h0, h0.len() as int) < 0 {
        Seq::<Seq<char>>::empty()
    } else {
        h0[last_tool_request(h0, h0.len() as int)].call_ids.filter(pred)
    })) by {
        if last_tool_request(h0, h0.len() as int) < 0 {
            assert(unrun_ids =~= Seq::<Seq<char>>::empty());
        }
    }
    let mut i: usize = 0;
    while i < unrun.len()
        invariant
            i <= unrun@.len(),
            unrun_ids == strs_view(unrun@),
            history_view(history@) == start + unrun_ids.subrange(0, i as int).map_values(
                |id: Seq<char>| not_run_message(id),
            ),
            original.len() <= history@.len(),
            history@.subrange(0, original.len() as int) == original,
        decreases unrun.len() - i,
    {
        let mut content = String::new();
        content.append("Not run: the user stopped the turn before this call.");
        let m = LlmMessage {
            role: LlmRole::Tool,
            content: Some(content),
            tool_call_id: Some(owned_text(unrun[i].as_str())),
            tool_calls: Vec::new(),
            native_content: None,
        };
        assert(message_view(m) == not_run_message(unrun_ids[i as int])) by {
            assert(call_ids(m.tool_calls@) =~= Seq::<Seq<char>>::empty());
        }
        let ghost before = history@;
        push_message(history, m);
        assert(history@.subrange(0, original.len() as int) =~= before.subrange(0, original.len() as int));
        assert(unrun_ids.subrange(0, i + 1).map_values(|id: Seq<char>| not_run_message(id)) =~= unrun_ids.subrange(
            0,
            i as int,
        ).map_values(|id: Seq<char>| not_run_message(id)).push(not_run_message(unrun_ids[i as int])));
        i = i + 1;
    }
    assert(unrun_ids.subrange(0, unrun@.len() as int) =~= unrun_ids);
    let ghost mid = history_view(history@);
    if text.as_str().unicode_len() > 0 {
        let ghost t = text@;
        let m = LlmMessage {
            role: LlmRole::Assistant,
            content: Some(text),
            tool_call_id: None,
            tool_calls: Vec::new(),
            native_content: None,
        };
        assert(call_ids(m.tool_calls@) =~= Seq::<Seq<char>>::empty());
        let ghost before = history@;
        push_message(history, m);
        assert(history@.subrange(0, original.len() as int) =~= before.subrange(0, original.len() as int));
    } else {
        assert(mid + seq![] =~= mid);
    }
    assert(history_view(history@) =~= h0 + closing_messages(h0, text@));
}

/// Why a resumed turn cannot go on from this history.
pub open spec fn bad_resume_text() -> Seq<char> {
    "the history must end with the assistant's tool-call round"@
}

/// Whether a paused turn's history can be resumed: its last message that is
/// not a tool result must be the assistant's request for tools.
pub open spec fn resumable(h: Seq<MessageView>) -> bool {
    let last = last_non_tool(h, h.len() as int);
    last >= 0 && asks_for_tools(h[last])
}

pub open spec fn last_non_tool(h: Seq<MessageView>, n: int) -> int
    decreases n,
{
    if n <= 0 {
        -1
    } else if h[n - 1].role != LlmRole::Tool {
        n - 1
    } else {
        last_non_tool(h, n - 1)
    }
}

/// A call of a paused round, and whether it waits for the user's approval.
#[derive(Debug)]
pub struct PendingToolCall {
    pub id: String,
    pub name: String,
    pub arguments: String,
    pub requires_confirmation: bool,
    pub reason: Option<String>,
}

/// The user's answer about one paused call.
#[derive(Debug)]
pub struct ToolCallDecision {
    pub id: String,
    pub approved: bool,
    pub reason: Option<String>,
}

/// Whether some decision answers the call `id`.
pub open spec fn decided(decisions: Seq<ToolCallDecision>, id: Seq<char>) -> bool {
    exists|j: int| 0 <= j < decisions.len() && (#[trigger] decisions[j]).id@ == id
}

/// The first call from `k` on that waits for approval and has no decision;
/// -1 where there is none.
pub open spec fn undecided_from(calls: Seq<PendingToolCall>, decisions: Seq<ToolCallDecision>, k: int) -> int
    decreases calls.len() - k,
{
    if k < 0 || k >= calls.len() {
        -1
    } else if calls[k].requires_confirmation && !decided(decisions, calls[k].id@) {
        k
    } else {
        undecided_from(calls, decisions, k + 1)
    }
}

/// Why decisions that leave a call unanswered are refused.
pub open spec fn undecided_text(id: Seq<char>) -> Seq<char> {
    "no decision for the call "@ + id + ", which waits for approval"@
}

fn decided_exec(decisions: &Vec<ToolCallDecision>, id: &String) -> (r: bool)
    ensures
        r == decided(decisions@, id@),
{
    let mut j: usize = 0;
    while j < decisions.len()
        invariant
            j <= decisions@.len(),
            forall|k: int| 0 <= k < j ==> (#[trigger] decisions@[k]).id@ != id@,
        decreases decisions.len() - j,
    {
        if str_eq(decisions[j].id.as_str(), id.as_str()) {
            return true;
        }
        j = j + 1;
    }
    false
}

fn first_undecided(calls: &Vec<PendingToolCall>, decisions: &Vec<ToolCallDecision>) -> (r: Option<usize>)
    ensures
        match r {
            Some(k) => k < calls@.len() && undecided_from(calls@, decisions@, 0) == k,
            None => undecided_from(calls@, decisions@, 0) == -1,
        },
{
    let mut k: usize = 0;
    while k < calls.len()
        invariant
            k <= calls@.len(),
            undecided_from(calls@, decisions@, 0) == undecided_from(calls@, decisions@, k as int),
        decreases calls.len() - k,
    {
        if calls[k].requires_confirmation && !decided_exec(decisions, &calls[k].id) {
            return Some(k);
        }
        k = k + 1;
    }
    None
}

/// Resumes a turn that paused for approval at `round` with `budget_used`
/// spent, its paused `calls`, whose round costs `cost`, and the user's
/// `decisions`: refused where a call that waits for approval has no
/// decision, and then unless its history still ends with the assistant's
/// tool request (results after it included). A resumed turn is at the top
/// of the loop with the round to run again: counted and charged once more
/// (see [`law_a_resumed_round_is_charged_again`]).
pub fn resume(
    history: &Vec<LlmMessage>,
    round: u32,
    budget_used: u32,
    calls: &Vec<PendingToolCall>,
    decisions: &Vec<ToolCallDecision>,
    cost: u32,
) -> (r: Result<TurnState, TurnError>)
    requires
        cost <= u32::MAX - MAX_TOOL_BUDGET,
    ensures
        r matches Ok(s) ==> turn_wf(s),
        undecided_from(calls@, decisions@, 0) >= 0 ==> (r matches Err(TurnError::Decision(t)) && t@
            == undecided_text(calls@[undecided_from(calls@, decisions@, 0)].id@)),
        undecided_from(calls@, decisions@, 0) < 0 && resumable(history_view(history@)) ==> (r matches Ok(s)
            && s == resumed_state(round, budget_used, cost)),
        undecided_from(calls@, decisions@, 0) < 0 && !resumable(history_view(history@)) ==> (r matches Err(
            TurnError::BadResume(t),
        ) && t@ == bad_resume_text()),
{
    match first_undecided(calls, decisions) {
        Some(k) => {
            let mut t = String::new();
            t.append("no decision for the call ");
            t.append(calls[k].id.as_str());
            t.append(", which waits for approval");
            return Err(TurnError::Decision(t));
        },
        None => {},
    }
    let ghost hv = history_view(history@);
    let mut i = history.len();
    while i > 0
        invariant
            i <= history@.len(),
            hv == history_view(history@),
            undecided_from(calls@, decisions@, 0) < 0,
            cost <= u32::MAX - MAX_TOOL_BUDGET,
            last_non_tool(hv, history@.len() as int) == last_non_tool(hv, i as int),
        ensures
            !resumable(hv),
        decreases i,
    {
        assert(hv[i - 1] == message_view(history@[i - 1]));
        match history[i - 1].role {
            LlmRole::Tool => {},
            LlmRole::Assistant => {
                if history[i - 1].tool_calls.len() > 0 {
                    return Ok(TurnState { counters: LoopState { round, budget_used }, phase: TurnPhase::Resuming { cost } });
                }
                break;
            },
            _ => {
                break;
            },
        }
        i = i - 1;
    }
    let mut t = String::new();
    t.append("the history must end with the assistant's tool-call round");
    Err(TurnError::BadResume(t))
}

/// A fresh turn: a note queued after the previous turn ended is not part of
/// this one, so the queue is drained; no round has run and nothing is spent.
pub fn stream(queue: &mut SteeringQueue) -> (s: TurnState)
    ensures
        final(queue)@ == Seq::<SteeringNote>::empty(),
        s == (TurnState { counters: LoopState { round: 0, budget_used: 0 }, phase: TurnPhase::Top }),
        turn_wf(s),
{
    let _ = queue.take();
    TurnState::fresh()
}

/// The position of the first decision from `k` on about the call `id`;
/// -1 where there is none.
pub open spec fn first_decision(decisions: Seq<ToolCallDecision>, id: Seq<char>, k: int) -> int
    decreases decisions.len() - k,
{
    if k < 0 || k >= decisions.len() {
        -1
    } else if decisions[k].id@ == id {
        k
    } else {
        first_decision(decisions, id, k + 1)
    }
}

/// What a denial says, for the reason the user gave.
pub open spec fn denial_text(reason: Option<Seq<char>>) -> Seq<char> {
    match reason {
        Some(r) => if trim(r).len() > 0 {
            "Denied by the user: "@ + r
        } else {
            "Denied by the user."@
        },
        None => "Denied by the user."@,
    }
}

/// Whether the user refused the call `call_id` of a resumed round, and
/// then what the model is told in place of its result: the first decision
/// about the call decides; a call without one runs.
pub fn refused_by_user(decisions: &Vec<ToolCallDecision>, call_id: &str) -> (r: Option<String>)
    ensures
        ({
            let j = first_decision(decisions@, call_id@, 0);
            if j >= 0 && !decisions@[j].approved {
                r matches Some(t) && t@ == denial_text(opt_view(decisions@[j].reason))
            } else {
                r is None
            }
        }),
{
    let mut i: usize = 0;
    while i < decisions.len()
        invariant
            i <= decisions@.len(),
            first_decision(decisions@, call_id@, 0) == first_decision(decisions@, call_id@, i as int),
        decreases decisions.len() - i,
    {
        if str_eq(decisions[i].id.as_str(), call_id) {
            if decisions[i].approved {
                return None;
            }
            let text = match &decisions[i].reason {
                Some(reason) => denial(Some(reason.as_str())),
                None => denial(None),
            };
            return Some(text);
        }
        i = i + 1;
    }
    None
}

/// What a call the user refused tells the model: the reason, where the user
/// gave one that is not blank.
pub fn denial(reason: Option<&str>) -> (s: String)
    ensures
        s@ == match reason {
            Some(r) => if trim(r@).len() > 0 {
                "Denied by the user: "@ + r@
            } else {
                "Denied by the user."@
            },
            None => "Denied by the user."@,
        },
{
    let mut s = String::new();
    match reason {
        Some(r) => {
            if !is_blank(r) {
                s.append("Denied by the user: ");
                s.append(r);
                return s;
            }
        },
        None => {},
    }
    s.append("Denied by the user.");
    s
}

/// What a PostToolUse hook said about a call that ran follows its result.
pub open spec fn with_hook_note(content: Seq<char>, said: Option<Seq<char>>) -> Seq<char> {
    match said {
        Some(s) => content + "\n\n[A PostToolUse hook said:]\n"@ + s,
        None => content,
    }
}

pub open spec fn outcome_result(outcome: Result<ToolResult, String>) -> Option<ToolResult> {
    match outcome {
        Ok(r) => Some(r),
        Err(_) => None,
    }
}

/// The text a call's outcome becomes before repeats are looked for: the
/// result as the model reads it, or the error, with the note a failed call
/// from a cut-off round gets.
pub open spec fn outcome_text(outcome: Result<ToolResult, String>, round_truncated: bool) -> Seq<char> {
    match outcome {
        Ok(r) => spec_for_model(r),
        Err(m) => if round_truncated {
            m@ + "\n\n"@ + truncated_round_text()
        } else {
            m@
        },
    }
}

/// The tool message that answers `call`: its outcome as the model reads it,
/// a repeat replaced by its note, and what a PostToolUse hook said after it.
pub open spec fn reply_text(
    seen: Map<Seq<char>, u64>,
    call: LlmToolCall,
    outcome: Result<ToolResult, String>,
    round_truncated: bool,
    said: Option<Seq<char>>,
) -> Seq<char> {
    with_hook_note(
        dedupe_text(seen, call, outcome_result(outcome), outcome_text(outcome, round_truncated)),
        said,
    )
}

fn outcome_ref(outcome: &Result<ToolResult, String>) -> (r: Option<&ToolResult>)
    ensures
        result_view(r) == outcome_result(*outcome),
{
    match outcome {
        Ok(result) => Some(result),
        Err(_) => None,
    }
}

/// The message that answers one call of a round, and what the turn
/// remembers of it for spotting repeats.
pub fn tool_reply(
    seen: &mut SeenResults,
    call: &LlmToolCall,
    outcome: &Result<ToolResult, String>,
    round_truncated: bool,
    post_hook: Option<String>,
) -> (m: LlmMessage)
    requires
        old(seen).wf(),
    ensures
        final(seen).wf(),
        final(seen)@ == dedupe_seen(
            old(seen)@,
            *call,
            outcome_result(*outcome),
            outcome_text(*outcome, round_truncated),
        ),
        m.role == LlmRole::Tool,
        m.tool_call_id == Some(call.id),
        m.tool_calls@.len() == 0,
        m.content matches Some(c) && c@ == reply_text(
            old(seen)@,
            *call,
            *outcome,
            round_truncated,
            opt_view(post_hook),
        ),
{
    let text = match outcome {
        Ok(result) => for_model(result),
        Err(message) => truncated_round_note(round_truncated, true, message.clone()),
    };
    let content = dedupe_repeat_result(seen, call, outcome_ref(outcome), text);
    let content = match post_hook {
        Some(said) => {
            let mut c = content;
            c.append("\n\n[A PostToolUse hook said:]\n");
            c.append(said.as_str());
            c
        },
        None => content,
    };
    LlmMessage {
        role: LlmRole::Tool,
        content: Some(content),
        tool_call_id: Some(call.id.clone()),
        tool_calls: Vec::new(),
        native_content: None,
    }
}

/// What a round that asked for tools does once each call has been through
/// the preflight.
#[derive(Debug, Clone, Copy, PartialEq, Eq, Structural)]
pub enum RoundPlan {
    /// Every call was refused before running; the model reads the errors on
    /// the next round.
    AllRefused,
    /// A call that passed needs the user's approval, so the whole round
    /// waits, with nothing run.
    Pause,
    /// The calls that passed run now.
    Run,
}

pub open spec fn spec_plan_round(passed: Seq<bool>, asks: Seq<bool>) -> RoundPlan {
    if !(exists|i: int| 0 <= i < passed.len() && passed[i]) {
        RoundPlan::AllRefused
    } else if exists|i: int| 0 <= i < passed.len() && passed[i] && asks[i] {
        RoundPlan::Pause
    } else {
        RoundPlan::Run
    }
}

/// `passed[i]`: whether call `i` got through the preflight; `asks[i]`:
/// whether it needs the user's approval.
pub fn plan_round(passed: &Vec<bool>, asks: &Vec<bool>) -> (p: RoundPlan)
    requires
        passed.len() == asks.len(),
    ensures
        p == spec_plan_round(passed@, asks@),
{
    let mut any_passed = false;
    let mut any_asks = false;
    let mut i: usize = 0;
    while i < passed.len()
        invariant
            i <= passed.len(),
            passed.len() == asks.len(),
            any_passed <==> exists|j: int| 0 <= j < i && passed@[j],
            any_asks <==> exists|j: int| 0 <= j < i && passed@[j] && asks@[j],
        decreases passed.len() - i,
    {
        if passed[i] {
            any_passed = true;
            if asks[i] {
                any_asks = true;
            }
        }
        i = i + 1;
    }
    if !any_passed {
        RoundPlan::AllRefused
    } else if any_asks {
        RoundPlan::Pause
    } else {
        RoundPlan::Run
    }
}

/// A call that passed the preflight and needs approval pauses its whole
/// round, wherever it stands among the round's calls and whatever the
/// others need.
pub proof fn law_any_call_that_asks_pauses_the_round(passed: Seq<bool>, asks: Seq<bool>, i: int)
    requires
        passed.len() == asks.len(),
        0 <= i < passed.len(),
        passed[i],
        asks[i],
    ensures
        spec_plan_round(passed, asks) == RoundPlan::Pause,
{
}

/// A round runs only when some call passed and no call that passed needs
/// approval; it goes round again only when every call was refused.
pub proof fn law_a_round_runs_only_when_nothing_asks(passed: Seq<bool>, asks: Seq<bool>)
    requires
        passed.len() == asks.len(),
    ensures
        spec_plan_round(passed, asks) == RoundPlan::Run <==> (exists|k: int| 0 <= k < passed.len() && #[trigger] passed[k])
            && (forall|k: int| 0 <= k < passed.len() && #[trigger] passed[k] ==> !asks[k]),
        spec_plan_round(passed, asks) == RoundPlan::AllRefused <==> (forall|k: int|
            0 <= k < passed.len() ==> !#[trigger] passed[k]),
{
}

// ----- a round that asked for no tools -----

/// What a round that asked for no tools leads to.
#[derive(Debug)]
pub enum AnswerStep {
    /// The turn ends. `capped`: a Stop hook refused, but hooks had already
    /// sent the model back as many times as they may, so it is said and
    /// the refusal is not followed.
    End { capped: bool },
    /// The turn goes on: the answer is kept in the history, then the hook's
    /// note where a Stop hook refused, then the steering notes that were
    /// waiting.
    GoOn { hook_note: Option<String> },
}

/// What the model is told when a Stop hook refuses to let the turn end.
pub open spec fn stop_hook_note(reason: Seq<char>) -> Seq<char> {
    "[A Stop hook did not let the turn end yet. It said:]\n"@ + reason
}

/// After a round whose answer asked for no tools. `steering_waiting`:
/// the user said something while the model answered (the Stop hooks are
/// then not asked); `refusal`: what a Stop hook said in refusing, where
/// one refused; `stop_blocks`: how often hooks have sent the model back
/// this turn, at most `max_blocks` times.
pub fn after_answer(steering_waiting: bool, refusal: Option<String>, stop_blocks: &mut u32, max_blocks: u32) -> (step:
    AnswerStep)
    ensures
        steering_waiting ==> (step matches AnswerStep::GoOn { hook_note: None }),
        steering_waiting ==> *final(stop_blocks) == *old(stop_blocks),
        !steering_waiting && refusal is None ==> (step matches AnswerStep::End { capped: false }),
        !steering_waiting && refusal is None ==> *final(stop_blocks) == *old(stop_blocks),
        !steering_waiting && refusal is Some && *old(stop_blocks) >= max_blocks ==> (step matches AnswerStep::End {
            capped: true,
        }),
        !steering_waiting && refusal is Some && *old(stop_blocks) >= max_blocks ==> *final(stop_blocks) == *old(stop_blocks),
        !steering_waiting && refusal is Some && *old(stop_blocks) < max_blocks ==> *final(stop_blocks) == *old(stop_blocks) + 1,
        !steering_waiting && *old(stop_blocks) < max_blocks ==> match refusal {
            Some(r) => step matches AnswerStep::GoOn { hook_note: Some(n) } && n@ == stop_hook_note(r@),
            None => true,
        },
        *old(stop_blocks) <= max_blocks ==> *final(stop_blocks) <= max_blocks,
{
    if steering_waiting {
        return AnswerStep::GoOn { hook_note: None };
    }
    match refusal {
        None => AnswerStep::End { capped: false },
        Some(r) => {
            if *stop_blocks >= max_blocks {
                AnswerStep::End { capped: true }
            } else {
                *stop_blocks = *stop_blocks + 1;
                let mut note = String::new();
                note.append("[A Stop hook did not let the turn end yet. It said:]\n");
                note.append(r.as_str());
                AnswerStep::GoOn { hook_note: Some(note) }
            }
        },
    }
}

/// The message a round that asked for no tools leaves when the turn goes
/// on: the assistant's text, where it said anything, and the provider's own
/// form of it.
pub fn answer_message(text: String, native_content: Option<String>) -> (m: LlmMessage)
    ensures
        message_view(m) == (MessageView {
            role: LlmRole::Assistant,
            content: if text@.len() > 0 {
                Some(text@)
            } else {
                None
            },
            tool_call_id: None,
            call_ids: seq![],
            calls: seq![],
            native_content: opt_view(native_content),
        }),
{
    let content = if text.as_str().unicode_len() > 0 {
        Some(text)
    } else {
        None
    };
    let m = LlmMessage { role: LlmRole::Assistant, content, tool_call_id: None, tool_calls: Vec::new(), native_content };
    assert(call_ids(m.tool_calls@) =~= Seq::<Seq<char>>::empty());
    m
}

/// What is said when Stop hooks have kept the turn going as often as they
/// may.
pub fn stop_hooks_capped(max_blocks: u32) -> (s: String)
    ensures
        s@ == "Stop hooks kept the turn going "@ + decimal(max_blocks as nat) + " times; it ends here anyway"@,
{
    let mut s = String::new();
    s.append("Stop hooks kept the turn going ");
    push_decimal(&mut s, max_blocks as u128);
    s.append(" times; it ends here anyway");
    s
}

// ----- retrying a round -----

/// What a round does after the provider failed it, given how long the retry
/// policy says to wait before the next attempt (`None`: no more attempts).
#[derive(Debug, Clone, Copy, PartialEq, Eq, Structural)]
pub enum RetryStep {
    /// The provider's error ends the turn.
    GiveUp,
    /// Wait `delay_ms`, say so as attempt `attempt`, then ask again.
    Wait { attempt: u32, delay_ms: u64, delay_seconds: u64 },
}

/// The step after failed attempt number `attempt` (0 for the first).
pub fn next_retry(attempt: u32, delay_ms: Option<u64>) -> (step: RetryStep)
    requires
        attempt < u32::MAX,
    ensures
        step == match delay_ms {
            None => RetryStep::GiveUp,
            Some(d) => RetryStep::Wait { attempt: (attempt + 1) as u32, delay_ms: d, delay_seconds: d / 1000 },
        },
{
    match delay_ms {
        None => RetryStep::GiveUp,
        Some(d) => RetryStep::Wait { attempt: attempt + 1, delay_ms: d, delay_seconds: d / 1000 },
    }
}

/// The most one slice of a wait sleeps, so that a stop is noticed within it.
pub const WAIT_SLICE_MS: u64 = 1000;

pub open spec fn sum_of(v: Seq<u64>) -> nat
    decreases v.len(),
{
    if v.len() == 0 {
        0
    } else {
        sum_of(v.drop_last()) + v.last() as nat
    }
}

/// How a wait of `total_ms` is slept: whole slices of [`WAIT_SLICE_MS`],
/// then what is left, with a check for a stop before each. They add up to
/// the wait, none is empty or longer than a slice, and all but the last are
/// whole.
pub fn wait_slices(total_ms: u64) -> (v: Vec<u64>)
    ensures
        sum_of(v@) == total_ms,
        forall|i: int| 0 <= i < v@.len() ==> 0 < #[trigger] v@[i] <= WAIT_SLICE_MS,
        forall|i: int| 0 <= i < v@.len() - 1 ==> #[trigger] v@[i] == WAIT_SLICE_MS,
{
    let mut v: Vec<u64> = Vec::new();
    let mut left = total_ms;
    while left > 0
        invariant
            sum_of(v@) + left == total_ms,
            forall|i: int| 0 <= i < v@.len() ==> 0 < #[trigger] v@[i] <= WAIT_SLICE_MS,
            left > 0 ==> forall|i: int| 0 <= i < v@.len() ==> #[trigger] v@[i] == WAIT_SLICE_MS,
            forall|i: int| 0 <= i < v@.len() - 1 ==> #[trigger] v@[i] == WAIT_SLICE_MS,
        decreases left,
    {
        let step = if left < WAIT_SLICE_MS { left } else { WAIT_SLICE_MS };
        let ghost before = v@;
        v.push(step);
        assert(v@.drop_last() =~= before);
        left = left - step;
    }
    v
}

// ----- numbering a turn's events -----

/// The place of a turn's last event in its stream. Restored from the pause
/// on resume, so that one turn's numbering carries on across the gap.
#[derive(Debug, Clone, Copy, PartialEq, Eq, Structural)]
pub struct EventCursor {
    pub last: u64,
}

impl EventCursor {
    /// A cursor after `last`: 0 for a fresh turn, the paused turn's last
    /// number on resume.
    pub fn after(last: u64) -> (c: Self)
        ensures
            c.last == last,
    {
        EventCursor { last }
    }

    /// The number of the next event (see [`next_number`]).
    pub fn next(&mut self) -> (seq: u64)
        ensures
            seq == next_number(old(self).last),
            final(self).last == seq,
    {
        let seq = self.last.saturating_add(1);
        self.last = seq;
        seq
    }
}

/// The number after `last`: one more, staying at the largest number once
/// it is reached.
pub open spec fn next_number(last: u64) -> u64 {
    if last < u64::MAX {
        (last + 1) as u64
    } else {
        u64::MAX
    }
}

/// The numbers the next `k` events get, after `last`, one call of
/// [`EventCursor::next`] each.
pub open spec fn numbers_after(last: u64, k: nat) -> Seq<u64>
    decreases k,
{
    if k == 0 {
        seq![]
    } else {
        seq![next_number(last)] + numbers_after(next_number(last), (k - 1) as nat)
    }
}

/// Events after a resume carry on from the paused turn's last number with
/// no gap and no repeat: the `i`-th is numbered `last + i + 1`.
pub proof fn law_numbering_carries_on_without_a_gap(last: u64, k: nat)
    requires
        last + k <= u64::MAX,
    ensures
        numbers_after(last, k).len() == k,
        forall|i: int| 0 <= i < k ==> #[trigger] numbers_after(last, k)[i] == last + i + 1,
    decreases k,
{
    if k > 0 {
        law_numbering_carries_on_without_a_gap(next_number(last), (k - 1) as nat);
        let rest = numbers_after(next_number(last), (k - 1) as nat);
        assert forall|i: int| 0 <= i < k implies #[trigger] numbers_after(last, k)[i] == last + i + 1 by {
            if i > 0 {
                assert(numbers_after(last, k)[i] == rest[i - 1]);
            }
        }
    }
}

// ----- the turn, step by step -----

/// Where a turn stands between two things the outside world does.
#[derive(Debug, Clone, Copy, PartialEq, Eq, Structural)]
pub enum TurnPhase {
    /// At the top of the loop, about to ask the model.
    Top,
    /// At the top of the loop with a paused round whose calls were decided:
    /// the round runs them rather than asking the model, and is charged
    /// `cost` again.
    Resuming { cost: u32 },
    /// Waiting for the model's answer to the round.
    Asking,
    /// The round's calls are running.
    Running,
    /// The turn is over: done, stopped, exhausted or paused for approval.
    Ended,
}

/// A turn's state: its counters and where it stands.
#[derive(Debug, Clone, Copy, PartialEq, Eq, Structural)]
pub struct TurnState {
    pub counters: LoopState,
    pub phase: TurnPhase,
}

/// What happened outside since the last step.
#[derive(Debug, Clone, Copy, PartialEq, Eq, Structural)]
pub enum TurnEvent {
    /// At the top of the loop: whether the user has stopped the turn.
    Check { cancelled: bool },
    /// The model answered without asking for tools. `cancelled`: a stop
    /// landed as the round finished; `ends`: nothing keeps the turn going
    /// (no steering waiting, no Stop hook refusing; see [`after_answer`]).
    Answered { cancelled: bool, ends: bool },
    /// The model asked for tools. `cancelled`: a stop landed as the round
    /// finished; `plan`: what the preflight and approval make of the calls
    /// (see [`plan_round`]); `cost`: the round's cost (see [`round_cost`]).
    Asked { cancelled: bool, plan: RoundPlan, cost: u32 },
    /// The round's calls have run, or a stop came between two of them.
    RoundRan,
}

/// How a turn ends.
#[derive(Debug, Clone, Copy, PartialEq, Eq, Structural)]
pub enum TurnEnd {
    Done,
    Cancelled,
    Exhausted { rounds: u32 },
}

/// What the turn does next.
#[derive(Debug, Clone, Copy, PartialEq, Eq, Structural)]
pub enum TurnAction {
    /// Ask the model for round `round`.
    Ask { round: u32 },
    /// Run the calls of round `round`: those that passed, or, on a resumed
    /// round, the decided ones.
    RunCalls { round: u32 },
    /// Go back to the top of the loop.
    Continue,
    /// Stop with nothing run and hand the round to the user, recording
    /// `round` and `budget_used`.
    Pause { round: u32, budget_used: u32 },
    /// The turn is over.
    Finish { end: TurnEnd },
    /// The event does not belong here; nothing changes.
    Ignore,
}

pub open spec fn with_phase(s: TurnState, phase: TurnPhase) -> TurnState {
    TurnState { phase, ..s }
}

pub open spec fn charged(s: TurnState, cost: u32, phase: TurnPhase) -> TurnState {
    TurnState {
        counters: LoopState { budget_used: (s.counters.budget_used + cost) as u32, ..s.counters },
        phase,
    }
}

/// One step of a turn. At the top of the loop a stop comes first, then the
/// ceilings; a new round asks the model, a resumed one runs its decided
/// calls and is charged again. A stop that lands as a round finishes comes
/// before anything the round asked for. A round whose calls ask for
/// approval pauses the turn with nothing run, charged for the round.
pub open spec fn spec_step(s: TurnState, e: TurnEvent) -> (TurnState, TurnAction) {
    match s.phase {
        TurnPhase::Top | TurnPhase::Resuming { .. } => match e {
            TurnEvent::Check { cancelled } => match next_round(s.counters.round, s.counters.budget_used, cancelled) {
                RoundStart::Cancelled => (with_phase(s, TurnPhase::Ended), TurnAction::Finish { end: TurnEnd::Cancelled }),
                RoundStart::Exhausted { rounds } => (
                    with_phase(s, TurnPhase::Ended),
                    TurnAction::Finish { end: TurnEnd::Exhausted { rounds } },
                ),
                RoundStart::Begin { round } => {
                    let next = TurnState { counters: LoopState { round, ..s.counters }, ..s };
                    match s.phase {
                        TurnPhase::Resuming { cost } => (charged(next, cost, TurnPhase::Running), TurnAction::RunCalls { round }),
                        _ => (with_phase(next, TurnPhase::Asking), TurnAction::Ask { round }),
                    }
                },
            },
            _ => (s, TurnAction::Ignore),
        },
        TurnPhase::Asking => match e {
            TurnEvent::Answered { cancelled, ends } => if cancelled {
                (with_phase(s, TurnPhase::Ended), TurnAction::Finish { end: TurnEnd::Cancelled })
            } else if ends {
                (with_phase(s, TurnPhase::Ended), TurnAction::Finish { end: TurnEnd::Done })
            } else {
                (with_phase(s, TurnPhase::Top), TurnAction::Continue)
            },
            TurnEvent::Asked { cancelled, plan, cost } => if cancelled {
                (with_phase(s, TurnPhase::Ended), TurnAction::Finish { end: TurnEnd::Cancelled })
            } else {
                match plan {
                    RoundPlan::AllRefused => (charged(s, cost, TurnPhase::Top), TurnAction::Continue),
                    RoundPlan::Pause => (
                        charged(s, cost, TurnPhase::Ended),
                        TurnAction::Pause {
                            round: s.counters.round,
                            budget_used: (s.counters.budget_used + cost) as u32,
                        },
                    ),
                    RoundPlan::Run => (
                        charged(s, cost, TurnPhase::Running),
                        TurnAction::RunCalls { round: s.counters.round },
                    ),
                }
            },
            _ => (s, TurnAction::Ignore),
        },
        TurnPhase::Running => match e {
            TurnEvent::RoundRan => (with_phase(s, TurnPhase::Top), TurnAction::Continue),
            _ => (s, TurnAction::Ignore),
        },
        TurnPhase::Ended => (s, TurnAction::Ignore),
    }
}

/// What keeps a turn's arithmetic in range: a round that is asking has
/// budget left, and a round's cost leaves room for the budget.
pub open spec fn turn_wf(s: TurnState) -> bool {
    &&& s.phase is Asking ==> s.counters.budget_used < MAX_TOOL_BUDGET
    &&& s.phase matches TurnPhase::Resuming { cost } ==> cost <= u32::MAX - MAX_TOOL_BUDGET
}

/// A cost small enough to be charged on top of a budget not yet spent.
pub open spec fn event_in_range(e: TurnEvent) -> bool {
    e matches TurnEvent::Asked { cost, .. } ==> cost <= u32::MAX - MAX_TOOL_BUDGET
}

impl TurnState {
    /// A fresh turn: no round run, nothing spent, at the top of the loop.
    pub fn fresh() -> (s: Self)
        ensures
            s == (TurnState { counters: LoopState { round: 0, budget_used: 0 }, phase: TurnPhase::Top }),
            turn_wf(s),
    {
        TurnState { counters: LoopState::fresh(), phase: TurnPhase::Top }
    }

    /// The turn takes one step on `event` and says what to do next.
    pub fn step(&mut self, event: TurnEvent) -> (a: TurnAction)
        requires
            turn_wf(*old(self)),
            event_in_range(event),
        ensures
            (*final(self), a) == spec_step(*old(self), event),
            turn_wf(*final(self)),
    {
        match self.phase {
            TurnPhase::Top | TurnPhase::Resuming { .. } => match event {
                TurnEvent::Check { cancelled } => {
                    let resuming = self.phase;
                    match self.counters.begin_round(cancelled) {
                        RoundStart::Cancelled => {
                            self.phase = TurnPhase::Ended;
                            TurnAction::Finish { end: TurnEnd::Cancelled }
                        },
                        RoundStart::Exhausted { rounds } => {
                            self.phase = TurnPhase::Ended;
                            TurnAction::Finish { end: TurnEnd::Exhausted { rounds } }
                        },
                        RoundStart::Begin { round } => match resuming {
                            TurnPhase::Resuming { cost } => {
                                self.counters.charge(cost);
                                self.phase = TurnPhase::Running;
                                TurnAction::RunCalls { round }
                            },
                            _ => {
                                self.phase = TurnPhase::Asking;
                                TurnAction::Ask { round }
                            },
                        },
                    }
                },
                _ => TurnAction::Ignore,
            },
            TurnPhase::Asking => match event {
                TurnEvent::Answered { cancelled, ends } => {
                    if cancelled {
                        self.phase = TurnPhase::Ended;
                        TurnAction::Finish { end: TurnEnd::Cancelled }
                    } else if ends {
                        self.phase = TurnPhase::Ended;
                        TurnAction::Finish { end: TurnEnd::Done }
                    } else {
                        self.phase = TurnPhase::Top;
                        TurnAction::Continue
                    }
                },
                TurnEvent::Asked { cancelled, plan, cost } => {
                    if cancelled {
                        self.phase = TurnPhase::Ended;
                        TurnAction::Finish { end: TurnEnd::Cancelled }
                    } else {
                        self.counters.charge(cost);
                        match plan {
                            RoundPlan::AllRefused => {
                                self.phase = TurnPhase::Top;
                                TurnAction::Continue
                            },
                            RoundPlan::Pause => {
                                self.phase = TurnPhase::Ended;
                                TurnAction::Pause { round: self.counters.round, budget_used: self.counters.budget_used }
                            },
                            RoundPlan::Run => {
                                self.phase = TurnPhase::Running;
                                TurnAction::RunCalls { round: self.counters.round }
                            },
                        }
                    }
                },
                _ => TurnAction::Ignore,
            },
            TurnPhase::Running => match event {
                TurnEvent::RoundRan => {
                    self.phase = TurnPhase::Top;
                    TurnAction::Continue
                },
                _ => TurnAction::Ignore,
            },
            TurnPhase::Ended => TurnAction::Ignore,
        }
    }
}

/// A turn driven through `events`: where it ends up, and what it did at
/// each step.
pub open spec fn run_turn(s: TurnState, events: Seq<TurnEvent>) -> (TurnState, Seq<TurnAction>)
    decreases events.len(),
{
    if events.len() == 0 {
        (s, seq![])
    } else {
        let (s1, a) = spec_step(s, events[0]);
        let (f, rest) = run_turn(s1, events.drop_first());
        (f, seq![a] + rest)
    }
}

/// How many times the actions ask the model.
pub open spec fn asks_made(actions: Seq<TurnAction>) -> nat
    decreases actions.len(),
{
    if actions.len() == 0 {
        0
    } else {
        asks_made(actions.drop_first()) + if actions[0] is Ask { 1nat } else { 0nat }
    }
}

/// How many times the actions run calls.
pub open spec fn runs_made(actions: Seq<TurnAction>) -> nat
    decreases actions.len(),
{
    if actions.len() == 0 {
        0
    } else {
        runs_made(actions.drop_first()) + if actions[0] is RunCalls { 1nat } else { 0nat }
    }
}

/// A turn stopped before its first round asks the model nothing and runs
/// nothing: it ends cancelled at once, and nothing it is told afterwards
/// does anything.
pub proof fn law_a_stop_before_the_first_round_runs_nothing(events: Seq<TurnEvent>)
    ensures
        ({
            let fresh = TurnState { counters: LoopState { round: 0, budget_used: 0 }, phase: TurnPhase::Top };
            let (f, acts) = run_turn(fresh, seq![TurnEvent::Check { cancelled: true }] + events);
            &&& acts[0] == TurnAction::Finish { end: TurnEnd::Cancelled }
            &&& asks_made(acts) == 0
            &&& runs_made(acts) == 0
            &&& f.counters == fresh.counters
        }),
{
    let fresh = TurnState { counters: LoopState { round: 0, budget_used: 0 }, phase: TurnPhase::Top };
    let es = seq![TurnEvent::Check { cancelled: true }] + events;
    assert(es[0] == TurnEvent::Check { cancelled: true });
    assert(es.drop_first() =~= events);
    let ended = with_phase(fresh, TurnPhase::Ended);
    assert(spec_step(fresh, es[0]) == (ended, TurnAction::Finish { end: TurnEnd::Cancelled }));
    lemma_an_ended_turn_does_nothing(ended, events);
    let rest = run_turn(ended, events).1;
    let acts = seq![TurnAction::Finish { end: TurnEnd::Cancelled }] + rest;
    assert(run_turn(fresh, es) == (ended, acts));
    assert(acts.drop_first() =~= rest);
    assert(acts[0] == TurnAction::Finish { end: TurnEnd::Cancelled });
}

/// Once a turn has ended, every further event is ignored.
pub proof fn law_an_ended_turn_does_nothing(s: TurnState, events: Seq<TurnEvent>)
    requires
        s.phase is Ended,
    ensures
        run_turn(s, events).0 == s,
        forall|i: int| 0 <= i < events.len() ==> #[trigger] run_turn(s, events).1[i] == TurnAction::Ignore,
        run_turn(s, events).1.len() == events.len(),
    decreases events.len(),
{
    if events.len() > 0 {
        law_an_ended_turn_does_nothing(s, events.drop_first());
        let rest = run_turn(s, events.drop_first()).1;
        assert forall|i: int| 0 <= i < events.len() implies #[trigger] run_turn(s, events).1[i] == TurnAction::Ignore by {
            if i > 0 {
                assert(run_turn(s, events).1[i] == rest[i - 1]);
            }
        }
    }
}

proof fn lemma_an_ended_turn_does_nothing(s: TurnState, events: Seq<TurnEvent>)
    requires
        s.phase is Ended,
    ensures
        run_turn(s, events).0 == s,
        asks_made(run_turn(s, events).1) == 0,
        runs_made(run_turn(s, events).1) == 0,
    decreases events.len(),
{
    if events.len() > 0 {
        lemma_an_ended_turn_does_nothing(s, events.drop_first());
        let rest = run_turn(s, events.drop_first()).1;
        assert((seq![TurnAction::Ignore] + rest).drop_first() =~= rest);
    }
}

/// A round with a call that needs approval pauses the turn before any call
/// runs: the pause records the round and the budget with the round charged,
/// and nothing after it asks the model or runs a call.
pub proof fn law_a_pause_runs_nothing(s: TurnState, cost: u32, events: Seq<TurnEvent>)
    requires
        s.phase is Asking,
    ensures
        ({
            let (f, acts) = run_turn(s, seq![TurnEvent::Asked { cancelled: false, plan: RoundPlan::Pause, cost }] + events);
            &&& acts[0] == TurnAction::Pause {
                round: s.counters.round,
                budget_used: (s.counters.budget_used + cost) as u32,
            }
            &&& asks_made(acts) == 0
            &&& runs_made(acts) == 0
            &&& f.phase is Ended
        }),
{
    let es = seq![TurnEvent::Asked { cancelled: false, plan: RoundPlan::Pause, cost }] + events;
    assert(es[0] == TurnEvent::Asked { cancelled: false, plan: RoundPlan::Pause, cost });
    assert(es.drop_first() =~= events);
    let ended = charged(s, cost, TurnPhase::Ended);
    let pause = TurnAction::Pause { round: s.counters.round, budget_used: (s.counters.budget_used + cost) as u32 };
    assert(spec_step(s, es[0]) == (ended, pause));
    lemma_an_ended_turn_does_nothing(ended, events);
    let rest = run_turn(ended, events).1;
    let acts = seq![pause] + rest;
    assert(run_turn(s, es) == (ended, acts));
    assert(acts.drop_first() =~= rest);
    assert(acts[0] == pause);
}

/// Whatever happens, a turn that starts within the ceiling never counts a
/// round past [`MAX_TOOL_ITERATIONS`], and asks the model at most once per
/// round it counts: at most [`MAX_TOOL_ITERATIONS`] times in all.
pub proof fn law_a_turn_asks_at_most_the_ceiling(s: TurnState, events: Seq<TurnEvent>)
    requires
        s.counters.round <= MAX_TOOL_ITERATIONS,
    ensures
        run_turn(s, events).0.counters.round <= MAX_TOOL_ITERATIONS,
        s.counters.round <= run_turn(s, events).0.counters.round,
        asks_made(run_turn(s, events).1) <= run_turn(s, events).0.counters.round - s.counters.round,
    decreases events.len(),
{
    if events.len() > 0 {
        let (s1, a) = spec_step(s, events[0]);
        law_a_turn_asks_at_most_the_ceiling(s1, events.drop_first());
        let rest = run_turn(s1, events.drop_first()).1;
        assert((seq![a] + rest).drop_first() =~= rest);
        assert(a is Ask ==> s1.counters.round == s.counters.round + 1);
        assert(s.counters.round <= s1.counters.round);
    }
}

/// At the top of the loop, a turn that has used up its rounds or its
/// budget ends exhausted, saying how many rounds it ran, unless the user
/// stopped it first.
pub proof fn law_a_turn_past_its_ceilings_ends_exhausted(s: TurnState, cancelled: bool)
    requires
        s.phase is Top || s.phase is Resuming,
        s.counters.round >= MAX_TOOL_ITERATIONS || s.counters.budget_used >= MAX_TOOL_BUDGET,
    ensures
        spec_step(s, TurnEvent::Check { cancelled }) == (
            with_phase(s, TurnPhase::Ended),
            TurnAction::Finish {
                end: if cancelled {
                    TurnEnd::Cancelled
                } else {
                    TurnEnd::Exhausted { rounds: s.counters.round }
                },
            },
        ),
{
}

/// A paused round, once resumed, is counted and charged again: it runs its
/// decided calls as the next round, with its cost added to the budget once
/// more.
pub proof fn law_a_resumed_round_is_charged_again(round: u32, budget_used: u32, cost: u32)
    requires
        round < MAX_TOOL_ITERATIONS,
        budget_used < MAX_TOOL_BUDGET,
        cost <= u32::MAX - MAX_TOOL_BUDGET,
    ensures
        spec_step(resumed_state(round, budget_used, cost), TurnEvent::Check { cancelled: false }) == (
            TurnState {
                counters: LoopState { round: (round + 1) as u32, budget_used: (budget_used + cost) as u32 },
                phase: TurnPhase::Running,
            },
            TurnAction::RunCalls { round: (round + 1) as u32 },
        ),
{
}

/// The state a resumed turn starts from.
pub open spec fn resumed_state(round: u32, budget_used: u32, cost: u32) -> TurnState {
    TurnState { counters: LoopState { round, budget_used }, phase: TurnPhase::Resuming { cost } }
}

// ----- a shorter conversation -----

/// A conversation, shorter than it was: the history, and how many messages
/// the summary in it stands for.
#[derive(Debug)]
pub struct Compacted {
    pub history: Vec<LlmMessage>,
    pub folded: usize,
}

/// What the summarizer's reply gives a compaction: its text without the
/// whitespace around it, or nothing where there is no text or only
/// whitespace. An empty summary would delete the older history, not
/// shorten it.
pub fn summary_of(reply: Option<String>) -> (s: Option<String>)
    ensures
        match reply {
            Some(r) => if trim(r@).len() > 0 {
                s matches Some(t) && t@ == trim(r@)
            } else {
                s is None
            },
            None => s is None,
        },
{
    match reply {
        Some(r) => {
            let cs = crate::text::chars_of(r.as_str());
            let t = crate::text::trim_chars(cs.as_slice());
            if t.len() > 0 {
                Some(crate::text::text_of(t.as_slice()))
            } else {
                None
            }
        },
        None => None,
    }
}

/// A turn that stops leaves no request unanswered: after the closing
/// messages, every call of the last tool request has a result after it.
pub proof fn law_a_stopped_turn_answers_every_call(h: Seq<MessageView>, text: Seq<char>, k: int)
    requires
        last_tool_request(h, h.len() as int) >= 0,
        0 <= k < h[last_tool_request(h, h.len() as int)].call_ids.len(),
    ensures
        ({
            let asked = last_tool_request(h, h.len() as int);
            answered_ids(h + closing_messages(h, text), asked + 1).contains(h[asked].call_ids[k])
        }),
{
    let asked = last_tool_request(h, h.len() as int);
    lemma_last_tool_request_range(h, h.len() as int);
    let id = h[asked].call_ids[k];
    let h2 = h + closing_messages(h, text);
    let pred = |x: Seq<char>| !answered_ids(h, asked + 1).contains(x);
    if answered_ids(h, asked + 1).contains(id) {
        let j = choose|j: int| asked + 1 <= j < h.len() && h[j].tool_call_id == Some(id);
        assert(h2[j] == h[j]);
    } else {
        let ids = h[asked].call_ids;
        ids.lemma_filter_contains(pred, k);
        let unrun = ids.filter(pred);
        assert(unrun.contains(id));
        let m = choose|m: int| 0 <= m < unrun.len() && unrun[m] == id;
        let closing = closing_messages(h, text);
        assert(closing[m] == not_run_message(id));
        assert(h2[h.len() + m] == closing[m]);
        assert(h2[h.len() + m].tool_call_id == Some(id));
    }
}

proof fn lemma_last_tool_request_range(h: Seq<MessageView>, n: int)
    requires
        0 <= n <= h.len(),
    ensures
        -1 <= last_tool_request(h, n) < n,
        last_tool_request(h, n) >= 0 ==> asks_for_tools(h[last_tool_request(h, n)]),
    decreases n,
{
    if n > 0 && !asks_for_tools(h[n - 1]) {
        lemma_last_tool_request_range(h, n - 1);
    }
}

} // verus!
