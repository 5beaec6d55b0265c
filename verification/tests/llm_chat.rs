use kibo_agent::llm_chat::{
    after_answer, answer_message, EventCursor, TurnAction, TurnEnd, TurnEvent, TurnPhase, TurnState, refused_by_user, stop_hooks_capped, AnswerStep,
    dedupe_repeat_result, denial, ended, next_retry, plan_round, summary_of, wait_slices, RetryStep, resume, round_cost, stream, tool_reply, truncated_round_note, LlmMessage, LlmRole,
    LlmToolCall, LoopState, McpTools, PendingToolCall, RoundPlan, RoundStart, SeenResults, ToolCallDecision, SteeringNote, SteeringQueue, TurnError,
    MAX_TOOL_BUDGET, MAX_TOOL_ITERATIONS,
};
use kibo_agent::tool_types::{ToolName, ToolResult};

const REPEAT_READ_NOTE: &str = "This file was already read in this turn, over the same range, and has not changed since — the result is earlier in the conversation and is not repeated here.";
const REPEAT_SEARCH_NOTE: &str = "This search already ran in this turn with the same parameters and returned the same result — it is earlier in the conversation and is not repeated here.";

fn call(name: &str, arguments: &str) -> LlmToolCall {
    LlmToolCall { id: "call_1".into(), name: name.into(), arguments: arguments.into() }
}

fn file(content: &str) -> ToolResult {
    ToolResult::File {
        content: content.to_string(),
        start_line: 1,
        end_line: 1,
        total_lines: 1,
        clamped: false,
        truncated: false,
    }
}

fn grep() -> ToolResult {
    ToolResult::GrepResults {
        matches: vec![],
        truncated: false,
        total: 0,
        total_files: 0,
        total_is_floor: false,
        skipped: vec![],
    }
}

fn no_servers() -> McpTools {
    McpTools { tools: vec![] }
}

#[test]
fn a_round_costs_the_weight_of_every_call_in_it() {
    let cost = round_cost(&vec![call("readFile", "{}"), call("grep", "{}")], &no_servers());
    assert_eq!(cost, ToolName::ReadFile.loop_weight() + ToolName::Grep.loop_weight());
}

#[test]
fn a_round_with_no_calls_is_free() {
    assert_eq!(round_cost(&vec![], &no_servers()), 0);
}

#[test]
fn an_invented_tool_name_still_costs_something() {
    assert_eq!(round_cost(&vec![call("summonDragon", "{}")], &no_servers()), 1);
}

#[test]
fn a_server_tool_costs_its_servers_weight() {
    let mcp = McpTools { tools: vec![("mcp__tracker__find".to_string(), 7)] };
    assert_eq!(round_cost(&vec![call("mcp__tracker__find", "{}")], &mcp), 7);
    assert_eq!(round_cost(&vec![call("mcp__gone__find", "{}")], &mcp), 1);
}

#[test]
fn the_same_read_twice_is_replaced_by_a_note() {
    let mut seen = SeenResults::new();
    let call = call("readFile", r#"{"path":"a.rs"}"#);

    let first = dedupe_repeat_result(&mut seen, &call, Some(&file("x")), "x".to_string());
    let second = dedupe_repeat_result(&mut seen, &call, Some(&file("x")), "x".to_string());

    assert_eq!(first, "x");
    assert_eq!(second, REPEAT_READ_NOTE);
}

#[test]
fn a_changed_file_comes_back_in_full() {
    let mut seen = SeenResults::new();
    let call = call("readFile", r#"{"path":"a.rs"}"#);

    dedupe_repeat_result(&mut seen, &call, Some(&file("before")), "before".to_string());
    let after = dedupe_repeat_result(&mut seen, &call, Some(&file("after")), "after".to_string());
    assert_eq!(after, "after");

    let again = dedupe_repeat_result(&mut seen, &call, Some(&file("after")), "after".to_string());
    assert_eq!(again, REPEAT_READ_NOTE);
}

#[test]
fn a_different_range_or_query_is_a_different_call() {
    let mut seen = SeenResults::new();
    let body = "x".to_string();

    let first = call("readFile", r#"{"path":"a.rs","startLine":1}"#);
    let second = call("readFile", r#"{"path":"a.rs","startLine":40}"#);
    dedupe_repeat_result(&mut seen, &first, Some(&file("x")), body.clone());
    let other = dedupe_repeat_result(&mut seen, &second, Some(&file("x")), body.clone());

    assert_eq!(other, "x", "same content, but the model asked for something else");
}

#[test]
fn a_repeated_search_is_replaced_by_its_own_note() {
    let mut seen = SeenResults::new();
    let call = call("grep", r#"{"pattern":"fn main"}"#);

    dedupe_repeat_result(&mut seen, &call, Some(&grep()), "hits".to_string());
    let second = dedupe_repeat_result(&mut seen, &call, Some(&grep()), "hits".to_string());

    assert_eq!(second, REPEAT_SEARCH_NOTE);
}

#[test]
fn nothing_else_is_ever_suppressed() {
    let mut seen = SeenResults::new();
    let written = ToolResult::DirectoryCreated { path: "src".to_string() };
    let call = call("createDirectory", r#"{"path":"src"}"#);

    for _ in 0..3 {
        let content = dedupe_repeat_result(&mut seen, &call, Some(&written), "created".to_string());
        assert_eq!(content, "created");
    }
    for _ in 0..3 {
        let content = dedupe_repeat_result(&mut seen, &call, None, "failed".to_string());
        assert_eq!(content, "failed");
    }
}

#[test]
fn a_failed_call_from_a_cut_off_round_is_told_why() {
    let note = truncated_round_note(true, true, "invalid arguments".to_string());
    assert!(note.starts_with("invalid arguments"), "{note}");
    assert!(note.contains("max_tokens"), "{note}");
}

#[test]
fn a_call_that_succeeded_is_not_told_the_round_was_cut() {
    assert_eq!(truncated_round_note(true, false, "ok".to_string()), "ok");
}

#[test]
fn an_ordinary_failure_carries_no_note() {
    assert_eq!(truncated_round_note(false, true, "no such file".to_string()), "no such file");
}

fn note(id: &str, text: &str) -> SteeringNote {
    SteeringNote { id: id.into(), text: text.into() }
}

#[test]
fn a_queued_note_can_be_cancelled_until_a_round_takes_it() {
    let mut queue = SteeringQueue::new();
    queue.push(note("n1", "never mind"));

    assert!(queue.cancel("n1"), "still queued");
    assert!(queue.take().is_empty());
    assert!(!queue.cancel("n1"));
}

#[test]
fn identical_notes_are_still_separate() {
    let mut queue = SteeringQueue::new();
    queue.push(note("n1", "also check the tests"));
    queue.push(note("n2", "also check the tests"));
    assert!(queue.cancel("n1"));
    let left = queue.take();
    assert_eq!(left.len(), 1);
    assert_eq!(left[0].id, "n2");
}

#[test]
fn a_note_is_delivered_once_and_a_new_turn_drops_leftovers() {
    let mut queue = SteeringQueue::new();
    queue.push(note("n1", "first"));
    queue.push(note("n2", "second"));
    let taken = queue.take();
    assert_eq!(taken.iter().map(|n| n.text.as_str()).collect::<Vec<_>>(), ["first", "second"]);
    assert!(queue.take().is_empty());

    queue.push(note("n3", "typed after the turn ended"));
    let state = stream(&mut queue);
    assert_eq!((state.counters.round, state.counters.budget_used, state.phase), (0, 0, TurnPhase::Top));
    assert!(queue.take().is_empty());
}

#[test]
fn a_turn_that_never_finishes_is_cut_off() {
    let mut state = LoopState::fresh();
    for round in 1..=MAX_TOOL_ITERATIONS as u32 {
        assert_eq!(state.begin_round(false), RoundStart::Begin { round });
    }
    assert_eq!(state.begin_round(false), RoundStart::Exhausted { rounds: MAX_TOOL_ITERATIONS as u32 });
    let err = TurnError::Exhausted { rounds: 60 };
    assert_eq!(
        err.message(),
        "the assistant did not finish within 60 rounds of tool calls. Ask it to continue if it still has work to do."
    );
}

#[test]
fn a_spent_budget_stops_the_loop_and_a_stop_comes_first() {
    let mut state = LoopState::fresh();
    state.charge(MAX_TOOL_BUDGET);
    assert_eq!(state.begin_round(true), RoundStart::Cancelled);
    assert_eq!(state.begin_round(false), RoundStart::Exhausted { rounds: 0 });
}

fn msg(role: LlmRole, content: Option<&str>, tool_call_id: Option<&str>, calls: &[&str]) -> LlmMessage {
    LlmMessage {
        role,
        content: content.map(str::to_string),
        tool_call_id: tool_call_id.map(str::to_string),
        tool_calls: calls.iter().map(|id| LlmToolCall { id: id.to_string(), name: "readFile".into(), arguments: "{}".into() }).collect(),
        native_content: None,
    }
}

#[test]
fn a_stopped_turn_answers_every_call_it_did_not_run() {
    let mut history = vec![
        msg(LlmRole::User, Some("go"), None, &[]),
        msg(LlmRole::Assistant, None, None, &["a", "b", "c"]),
        msg(LlmRole::Tool, Some("done"), Some("a"), &[]),
    ];
    ended(&mut history, "stopping here".to_string());
    let tail: Vec<(Option<&str>, Option<&str>)> =
        history[3..].iter().map(|m| (m.tool_call_id.as_deref(), m.content.as_deref())).collect();
    assert_eq!(
        tail,
        [
            (Some("b"), Some("Not run: the user stopped the turn before this call.")),
            (Some("c"), Some("Not run: the user stopped the turn before this call.")),
            (None, Some("stopping here")),
        ]
    );
    assert_eq!(history[5].role, LlmRole::Assistant);

    let mut quiet = vec![msg(LlmRole::User, Some("hi"), None, &[])];
    ended(&mut quiet, String::new());
    assert_eq!(quiet.len(), 1);
}

#[test]
fn a_resume_whose_history_lost_the_tool_call_round_is_refused() {
    let good = vec![
        msg(LlmRole::User, Some("go"), None, &[]),
        msg(LlmRole::Assistant, None, None, &["a"]),
        msg(LlmRole::Tool, Some("refused"), Some("a"), &[]),
    ];
    let state = resume(&good, 3, 12, &vec![], &vec![], 5).expect("resumable");
    assert_eq!((state.counters.round, state.counters.budget_used), (3, 12));
    assert_eq!(state.phase, TurnPhase::Resuming { cost: 5 });

    let bad = vec![msg(LlmRole::User, Some("go"), None, &[]), msg(LlmRole::Assistant, Some("hi"), None, &[])];
    let err = resume(&bad, 3, 12, &vec![], &vec![], 5).err().expect("refused");
    assert_eq!(err.message(), "cannot resume: the history must end with the assistant's tool-call round");
}

#[test]
fn a_denial_hands_the_model_the_reason() {
    assert_eq!(denial(Some("not on main")), "Denied by the user: not on main");
    assert_eq!(denial(Some("   ")), "Denied by the user.");
    assert_eq!(denial(None), "Denied by the user.");
}

#[test]
fn a_read_reaches_the_model_as_text_and_a_repeat_as_the_note() {
    let mut seen = SeenResults::new();
    let call = call("readFile", r#"{"path":"a.rs"}"#);
    let first = tool_reply(&mut seen, &call, &Ok(file("x\n")), false, None);
    assert_eq!(first.role, LlmRole::Tool);
    assert_eq!(first.tool_call_id.as_deref(), Some("call_1"));
    assert!(first.tool_calls.is_empty());
    assert_eq!(first.content.as_deref(), Some("All 1 lines:\nx\n"));
    let second = tool_reply(&mut seen, &call, &Ok(file("x\n")), false, None);
    assert_eq!(second.content.as_deref(), Some(REPEAT_READ_NOTE));
}

#[test]
fn a_failed_call_from_a_cut_off_round_carries_the_note_and_the_hook_follows() {
    let mut seen = SeenResults::new();
    let call = call("writeFile", "{");
    let failed = tool_reply(&mut seen, &call, &Err("Error: bad".to_string()), true, Some("checked".to_string()));
    let text = failed.content.unwrap();
    assert!(text.starts_with("Error: bad\n\nNote: the model's reply was cut off mid-way"));
    assert!(text.ends_with("\n\n[A PostToolUse hook said:]\nchecked"));
    let plain = tool_reply(&mut seen, &call, &Err("Error: bad".to_string()), false, None);
    assert_eq!(plain.content.as_deref(), Some("Error: bad"));
}

#[test]
fn a_round_pauses_only_for_a_call_that_passed_and_asks() {
    assert_eq!(plan_round(&vec![false, false], &vec![true, false]), RoundPlan::AllRefused);
    assert_eq!(plan_round(&vec![], &vec![]), RoundPlan::AllRefused);
    assert_eq!(plan_round(&vec![true, false], &vec![false, true]), RoundPlan::Run);
    assert_eq!(plan_round(&vec![true, true], &vec![false, true]), RoundPlan::Pause);
}

#[test]
fn an_empty_summary_changes_nothing() {
    assert_eq!(summary_of(Some("   ".to_string())), None);
}

#[test]
fn a_summary_that_never_arrived_changes_nothing_either() {
    assert_eq!(summary_of(None), None);
}

#[test]
fn a_summary_is_kept_without_the_space_around_it() {
    assert_eq!(summary_of(Some("\n  We fixed the parser.\n".to_string())).as_deref(), Some("We fixed the parser."));
}

fn pending(id: &str, requires_confirmation: bool) -> PendingToolCall {
    PendingToolCall {
        id: id.into(),
        name: "writeFile".into(),
        arguments: "{}".into(),
        requires_confirmation,
        reason: None,
    }
}

#[test]
fn a_resume_missing_a_decision_is_refused() {
    let history = vec![msg(LlmRole::Assistant, None, None, &["w1"])];
    let err = resume(&history, 1, 2, &vec![pending("w1", true)], &vec![], 4).err().expect("refused");
    assert!(matches!(err, TurnError::Decision(_)), "{err:?}");
    assert_eq!(err.message(), "no decision for the call w1, which waits for approval");

    let decided = vec![ToolCallDecision { id: "w1".into(), approved: false, reason: None }];
    assert!(resume(&history, 1, 2, &vec![pending("w1", true), pending("r1", false)], &decided, 4).is_ok());
}

#[test]
fn a_retry_says_which_attempt_and_how_long_or_gives_up() {
    assert_eq!(next_retry(0, Some(2500)), RetryStep::Wait { attempt: 1, delay_ms: 2500, delay_seconds: 2 });
    assert_eq!(next_retry(3, None), RetryStep::GiveUp);
}

#[test]
fn a_wait_is_slept_in_slices_of_a_second() {
    assert_eq!(wait_slices(2500), vec![1000, 1000, 500]);
    assert_eq!(wait_slices(2000), vec![1000, 1000]);
    assert!(wait_slices(0).is_empty());
}

#[test]
fn a_stop_hook_refusal_sends_the_model_back_with_its_words() {
    let mut blocks = 0u32;
    let step = after_answer(false, Some("run the tests first".into()), &mut blocks, 3);
    match step {
        AnswerStep::GoOn { hook_note: Some(note) } => {
            assert_eq!(note, "[A Stop hook did not let the turn end yet. It said:]\nrun the tests first")
        }
        other => panic!("unexpected {other:?}"),
    }
    assert_eq!(blocks, 1);
    assert!(matches!(after_answer(false, None, &mut blocks, 3), AnswerStep::End { capped: false }));
    assert_eq!(blocks, 1);
}

#[test]
fn stop_hooks_keep_a_turn_going_only_up_to_the_cap() {
    let mut blocks = 0u32;
    for _ in 0..3 {
        assert!(matches!(after_answer(false, Some("no".into()), &mut blocks, 3), AnswerStep::GoOn { hook_note: Some(_) }));
    }
    assert_eq!(blocks, 3);
    assert!(matches!(after_answer(false, Some("no".into()), &mut blocks, 3), AnswerStep::End { capped: true }));
    assert_eq!(blocks, 3);
    assert_eq!(stop_hooks_capped(3), "Stop hooks kept the turn going 3 times; it ends here anyway");
}

#[test]
fn words_typed_while_the_model_answered_keep_the_turn_going() {
    let mut blocks = 1u32;
    assert!(matches!(after_answer(true, Some("ignored".into()), &mut blocks, 3), AnswerStep::GoOn { hook_note: None }));
    assert_eq!(blocks, 1);
}

#[test]
fn the_first_decision_about_a_call_decides_it() {
    let d = |id: &str, approved: bool, reason: Option<&str>| ToolCallDecision {
        id: id.into(),
        approved,
        reason: reason.map(String::from),
    };
    let decisions = vec![d("a", false, Some("not that file")), d("b", true, None), d("a", true, None), d("c", false, Some("  "))];
    assert_eq!(refused_by_user(&decisions, "a").as_deref(), Some("Denied by the user: not that file"));
    assert_eq!(refused_by_user(&decisions, "b"), None);
    assert_eq!(refused_by_user(&decisions, "c").as_deref(), Some("Denied by the user."));
    assert_eq!(refused_by_user(&decisions, "z"), None, "a call without a decision runs");
}

#[test]
fn an_answer_kept_for_the_next_round_carries_the_providers_own_form() {
    let native = r#"[{"type":"thinking","thinking":"hm","signature":"s"}]"#.to_string();
    let m = answer_message("done".into(), Some(native.clone()));
    assert_eq!((m.role, m.content.as_deref(), m.native_content), (LlmRole::Assistant, Some("done"), Some(native)));
    assert!(m.tool_calls.is_empty() && m.tool_call_id.is_none());
    let silent = answer_message(String::new(), None);
    assert_eq!(silent.content, None);
}

fn asked(plan: RoundPlan, cost: u32) -> TurnEvent {
    TurnEvent::Asked { cancelled: false, plan, cost }
}

#[test]
fn a_stop_before_the_first_round_runs_nothing() {
    let mut turn = TurnState::fresh();
    assert_eq!(turn.step(TurnEvent::Check { cancelled: true }), TurnAction::Finish { end: TurnEnd::Cancelled });
    assert_eq!((turn.counters.round, turn.counters.budget_used), (0, 0));
    assert_eq!(turn.step(TurnEvent::Check { cancelled: false }), TurnAction::Ignore, "an ended turn asks nothing");
}

#[test]
fn a_turn_with_no_tool_calls_answers_and_stops() {
    let mut turn = TurnState::fresh();
    assert_eq!(turn.step(TurnEvent::Check { cancelled: false }), TurnAction::Ask { round: 1 });
    assert_eq!(turn.step(TurnEvent::Answered { cancelled: false, ends: true }), TurnAction::Finish { end: TurnEnd::Done });
    assert_eq!(turn.counters.round, 1);
}

#[test]
fn a_stop_as_the_round_finishes_pre_empts_its_tool_calls() {
    let mut turn = TurnState::fresh();
    turn.step(TurnEvent::Check { cancelled: false });
    let stop = TurnEvent::Asked { cancelled: true, plan: RoundPlan::Run, cost: 3 };
    assert_eq!(turn.step(stop), TurnAction::Finish { end: TurnEnd::Cancelled });
    assert_eq!(turn.counters.budget_used, 0, "nothing was charged for calls that never ran");
}

#[test]
fn a_risky_call_pauses_the_whole_round_with_nothing_run() {
    let mut turn = TurnState::fresh();
    assert_eq!(turn.step(TurnEvent::Check { cancelled: false }), TurnAction::Ask { round: 1 });
    let plan = plan_round(&vec![true, true], &vec![false, true]);
    assert_eq!(plan, RoundPlan::Pause);
    assert_eq!(turn.step(asked(plan, 4)), TurnAction::Pause { round: 1, budget_used: 4 });
    assert_eq!(turn.step(TurnEvent::RoundRan), TurnAction::Ignore, "nothing runs after a pause");
}

#[test]
fn a_paused_round_is_charged_on_both_passes() {
    let w = 3;
    let mut first = TurnState::fresh();
    first.step(TurnEvent::Check { cancelled: false });
    let TurnAction::Pause { round, budget_used } = first.step(asked(RoundPlan::Pause, w)) else { panic!() };
    assert_eq!((round, budget_used), (1, w));

    let history = vec![msg(LlmRole::Assistant, None, None, &["w1"])];
    let decisions = vec![ToolCallDecision { id: "w1".into(), approved: true, reason: None }];
    let mut again = resume(&history, round, budget_used, &vec![pending("w1", true)], &decisions, w).expect("resumes");
    assert_eq!(again.step(TurnEvent::Check { cancelled: false }), TurnAction::RunCalls { round: 2 });
    assert_eq!(again.counters.budget_used, 2 * w);
    assert_eq!(again.step(TurnEvent::RoundRan), TurnAction::Continue);
    assert_eq!(again.step(TurnEvent::Check { cancelled: false }), TurnAction::Ask { round: 3 });
    assert_eq!(again.step(asked(RoundPlan::Pause, w)), TurnAction::Pause { round: 3, budget_used: 3 * w });
}

#[test]
fn a_turn_stepped_past_the_ceiling_ends_exhausted() {
    let mut turn = TurnState::fresh();
    let mut asks = 0;
    loop {
        match turn.step(TurnEvent::Check { cancelled: false }) {
            TurnAction::Ask { .. } => asks += 1,
            TurnAction::Finish { end } => {
                assert_eq!(end, TurnEnd::Exhausted { rounds: MAX_TOOL_ITERATIONS as u32 });
                break;
            }
            other => panic!("unexpected {other:?}"),
        }
        assert_eq!(turn.step(asked(RoundPlan::Run, 1)), TurnAction::RunCalls { round: asks });
        assert_eq!(turn.step(TurnEvent::RoundRan), TurnAction::Continue);
    }
    assert_eq!(asks, MAX_TOOL_ITERATIONS as u32);
}

#[test]
fn a_round_whose_calls_were_all_refused_goes_round_again_and_pays() {
    let mut turn = TurnState::fresh();
    turn.step(TurnEvent::Check { cancelled: false });
    assert_eq!(turn.step(asked(RoundPlan::AllRefused, 2)), TurnAction::Continue);
    assert_eq!(turn.counters.budget_used, 2);
    assert_eq!(turn.phase, TurnPhase::Top);
    assert_eq!(turn.step(TurnEvent::RoundRan), TurnAction::Ignore, "an event out of its place changes nothing");
}

#[test]
fn the_event_stream_continues_across_a_pause() {
    let mut before = EventCursor::after(0);
    let first: Vec<u64> = (0..3).map(|_| before.next()).collect();
    assert_eq!(first, [1, 2, 3]);
    let mut resumed = EventCursor::after(before.last);
    let next: Vec<u64> = (0..2).map(|_| resumed.next()).collect();
    assert_eq!(next, [4, 5]);
    let mut full = EventCursor::after(u64::MAX);
    assert_eq!(full.next(), u64::MAX);
}
