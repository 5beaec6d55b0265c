use kibo_agent::errors::ToolError;
use kibo_agent::git::{
    blame_error, blame_range, comparison_of, diff_paths, pathspec, scope_prefix, MAX_DIFF_FILES, diff_budget, diff_label, git_status, not_a_repository, short, Comparison,
    StatusEntry, StatusFlags, MAX_BLAME_LINES, MAX_STATUS_ENTRIES,
};
use kibo_agent::tool_defs::tool_definitions;
use kibo_agent::tool_types::{ToolName, ToolResult};
use kibo_agent::code_search::DEFAULT_TOP_K;
use kibo_agent::tools::{
    mcp, output_result, read_output, run_command, stopped_result, search_size, semantic_search, shorten, stop_process, write_plan, BackgroundProcesses,
    call_mcp, listed_skill, mcp_target, McpCall, McpCallOutcome, McpClient, McpServer, MAX_PLAN_CHARS, PREVIEW_CHARS, TEXT_CHARS,
};
use kibo_agent::tool_types::{CodeMatch, MatchSource, ProcessInfo, ProcessOutput, ProcessState, SearchMeta};

#[test]
fn a_blame_range_is_clamped_and_says_when_it_was() {
    assert_eq!(blame_range(1, Some(50), 100), (50, false));
    assert_eq!(blame_range(1, Some(5000), 5000), (MAX_BLAME_LINES, true));
    assert_eq!(blame_range(1, None, 10), (10, false));
    assert_eq!(blame_range(1, None, 5000), (MAX_BLAME_LINES, true));
    assert_eq!(blame_range(10, Some(2), 100), (10, false), "inverted collapses");
}

#[test]
fn a_directory_that_is_not_a_repository_says_so() {
    let err = not_a_repository("/tmp/git-none");
    assert!(err.message().contains("not inside a git repository"), "{}", err.message());
}

#[test]
fn an_uncommitted_file_is_said_to_be_new() {
    let err = blame_error("a.txt", "the path 'a.txt' does not exist in the given tree");
    assert!(err.message().starts_with("a.txt has no history yet"));
    assert_eq!(blame_error("a.txt", "boom"), ToolError::Git("boom".into()));
}

#[test]
fn a_diff_compares_what_was_asked() {
    assert_eq!(comparison_of(None, None), Ok(Comparison::Unstaged));
    assert_eq!(comparison_of(Some(""), Some("staged")), Ok(Comparison::Staged));
    assert_eq!(comparison_of(Some("HEAD~1"), Some("staged")), Ok(Comparison::Commit("HEAD~1".into())));
    let err = comparison_of(None, Some("everything")).unwrap_err();
    assert_eq!(
        err,
        ToolError::InvalidArguments {
            tool: "gitDiff".into(),
            reason: "scope must be \"unstaged\" or \"staged\" (got \"everything\")".into()
        }
    );
    assert_eq!(diff_label(&Comparison::Commit("x".into()), "0123456789abcdef"), "01234567^ → 01234567");
    assert_eq!(diff_label(&Comparison::Staged, ""), "HEAD → index");
    assert_eq!(short("abc"), "abc");
}

#[test]
fn a_directory_diff_keeps_text_while_the_budget_lasts() {
    assert_eq!(diff_budget(&vec![15_000, 10_000, 5_000, 0]), vec![false, true, false, false]);
}

fn flags() -> StatusFlags {
    StatusFlags {
        index_new: false,
        index_modified: false,
        index_deleted: false,
        index_renamed: false,
        index_typechange: false,
        wt_new: false,
        wt_modified: false,
        wt_deleted: false,
        wt_renamed: false,
        wt_typechange: false,
        conflicted: false,
    }
}

#[test]
fn status_groups_paths_under_the_scope() {
    let entries = vec![
        StatusEntry { path: "docs/guide.md".into(), flags: StatusFlags { wt_modified: true, ..flags() }, rename: None },
        StatusEntry { path: "outside.txt".into(), flags: StatusFlags { wt_new: true, ..flags() }, rename: None },
        StatusEntry {
            path: "docs/new.md".into(),
            flags: StatusFlags { index_renamed: true, wt_modified: true, ..flags() },
            rename: Some(("docs/old.md".into(), "docs/new.md".into())),
        },
        StatusEntry { path: "docs/c.md".into(), flags: StatusFlags { conflicted: true, index_new: true, ..flags() }, rename: None },
    ];
    let ToolResult::GitStatus { branch, staged, unstaged, conflicted, truncated } = git_status(Some("main".into()), &entries, "docs/") else {
        panic!("a status")
    };
    assert_eq!(branch.as_deref(), Some("main"));
    let rows = |v: &Vec<kibo_agent::tool_types::GitFileStatus>| v.iter().map(|f| (f.status.clone(), f.path.clone())).collect::<Vec<_>>();
    assert_eq!(rows(&staged), [("R".to_string(), "old.md → new.md".to_string())]);
    assert_eq!(
        rows(&unstaged),
        [("M".to_string(), "guide.md".to_string()), ("M".to_string(), "old.md → new.md".to_string())]
    );
    assert_eq!(rows(&conflicted), [("U".to_string(), "c.md".to_string())]);
    assert!(!truncated);
}

#[test]
fn a_schema_is_named_by_its_wire_name() {
    let definitions = tool_definitions();
    for tool in ToolName::all_built_in() {
        let definition = definitions.iter().find(|d| d.name == tool.wire_name()).expect("advertised");
        assert_eq!(definition.name, tool.wire_name());
    }
    for definition in &definitions {
        assert!(
            ToolName::from_wire_name(&definition.name).is_some(),
            "{} is advertised but unknown to the dispatcher",
            definition.name
        );
    }
}

#[test]
fn a_plan_is_refused_empty_or_too_long() {
    assert_eq!(write_plan("  step one\nstep two\n\n"), Ok(ToolResult::PlanWritten { lines: 2 }));
    let empty = write_plan("   \n").unwrap_err();
    assert_eq!(empty.message(), "invalid arguments for writePlan: content is empty — send the whole plan");
    let long = write_plan(&"x".repeat(20_001)).unwrap_err();
    assert_eq!(
        long.message(),
        "invalid arguments for writePlan: the plan is 20001 characters, over the 20000 limit — say less per step"
    );
}

struct Fake;

impl BackgroundProcesses for Fake {
    fn read_allows(&self, id: u32, answer: Result<ProcessOutput, ToolError>) -> bool {
        matches!(answer, Ok(o) if o.process.id == id)
    }
    fn stop_allows(&self, id: u32, answer: Result<ProcessInfo, ToolError>) -> bool {
        matches!(answer, Ok(p) if p.id == id)
    }
    fn read(&self, id: u32) -> Result<ProcessOutput, ToolError> {
        Ok(ProcessOutput {
            process: ProcessInfo { id, command: "sleep".into(), cwd: ".".into(), state: ProcessState::Running },
            output: String::new(),
            missed: false,
            truncated: false,
        })
    }
    fn stop(&self, id: u32) -> Result<ProcessInfo, ToolError> {
        Ok(ProcessInfo { id, command: "sleep".into(), cwd: ".".into(), state: ProcessState::Stopped })
    }
}

#[test]
fn a_process_call_needs_an_id_and_processes() {
    let missing = read_output::<Fake>(None, Some(&Fake)).unwrap_err();
    assert!(missing.message().contains("id is required"), "{}", missing.message());
    let none = stop_process::<Fake>(Some(1), None).unwrap_err();
    assert!(none.message().contains("not available"), "{}", none.message());
    assert!(matches!(read_output(Some(4), Some(&Fake)), Ok(ToolResult::ProcessOutput(o)) if o.process.id == 4));
    assert!(matches!(stop_process(Some(4), Some(&Fake)), Ok(ToolResult::ProcessStopped(p)) if p.id == 4));
}

#[test]
fn a_command_must_say_something_and_runs_at_the_root_by_default() {
    let root = parts(&["tmp", "repo"]);
    let err = run_command(&root, "   ", None, vec![], false).unwrap_err();
    assert_eq!(err.message(), "invalid arguments for runCommand: command must not be empty");
    assert_eq!(run_command(&root, "ls", None, vec![], false), Ok(root.clone()));
    assert_eq!(run_command(&root, "ls", Some("."), vec![], false), Ok(root.clone()));
    assert_eq!(run_command(&root, "ls", Some(""), vec![], false), Ok(root.clone()));
}

#[test]
fn search_hits_carry_only_the_start_of_their_text() {
    assert_eq!(shorten("abcdef", 3), "abc…");
    assert_eq!(shorten("abc", 3), "abc");
    let hit = CodeMatch {
        path: "a.rs".into(),
        start_line: 1,
        end_line: 9,
        name: None,
        text: "y".repeat(300),
        source: MatchSource::Semantic,
    };
    let meta = SearchMeta { tiers_used: vec![], weak: false, hint: None };
    let Ok(ToolResult::SearchResults { matches, .. }) = semantic_search(Some(Ok((vec![hit.clone()], meta.clone()))), None) else {
        panic!("results")
    };
    assert_eq!(matches[0].text.chars().count(), 241);
    let Ok(ToolResult::SearchResults { matches, .. }) = semantic_search(Some(Ok((vec![hit], meta))), Some(true)) else {
        panic!("results")
    };
    assert_eq!(matches[0].text.chars().count(), 300);
    let err = semantic_search(None, None).unwrap_err();
    assert!(err.message().contains("grep"), "{}", err.message());
}

#[test]
fn a_server_call_maps_its_answer() {
    assert_eq!(mcp("mcp__gh__nope", None, McpCallOutcome::Cancelled), Err(ToolError::UnknownTool("mcp__gh__nope".into())));
    assert_eq!(
        mcp("mcp__gh__ok", Some("gh"), McpCallOutcome::Returned { text: "done".into(), is_error: false }),
        Ok(ToolResult::Mcp { text: "done".into() })
    );
    assert_eq!(
        mcp("mcp__gh__fails", Some("gh"), McpCallOutcome::Returned { text: "no such issue".into(), is_error: true }),
        Err(ToolError::McpToolFailed("no such issue".into()))
    );
    assert_eq!(mcp("mcp__gh__w", Some("gh"), McpCallOutcome::Cancelled), Err(ToolError::McpUnavailable("cancelled".into())));
    assert_eq!(
        mcp("mcp__gh__dies", Some("gh"), McpCallOutcome::Failed("connection reset".into())),
        Err(ToolError::McpUnavailable("\"gh\": connection reset".into()))
    );
}

fn status_rows(v: &[kibo_agent::tool_types::GitFileStatus]) -> Vec<(String, String)> {
    v.iter().map(|f| (f.path.clone(), f.status.clone())).collect()
}

#[test]
fn status_separates_staged_untracked_and_modified() {
    let entries = vec![
        StatusEntry { path: "brand-new.txt".into(), flags: StatusFlags { wt_new: true, ..flags() }, rename: None },
        StatusEntry { path: "staged.txt".into(), flags: StatusFlags { index_new: true, ..flags() }, rename: None },
        StatusEntry { path: "tracked.txt".into(), flags: StatusFlags { wt_modified: true, ..flags() }, rename: None },
    ];
    let ToolResult::GitStatus { staged, unstaged, conflicted, truncated, .. } = git_status(None, &entries, "") else {
        panic!("a status")
    };
    assert_eq!(status_rows(&staged), [("staged.txt".to_string(), "A".to_string())]);
    assert_eq!(
        status_rows(&unstaged),
        [("brand-new.txt".to_string(), "?".to_string()), ("tracked.txt".to_string(), "M".to_string())]
    );
    assert!(conflicted.is_empty());
    assert!(!truncated);
}

#[test]
fn the_status_cap_protects_staged_entries() {
    let mut entries = vec![StatusEntry {
        path: "important.txt".into(),
        flags: StatusFlags { index_new: true, ..flags() },
        rename: None,
    }];
    for i in 0..(MAX_STATUS_ENTRIES + 50) {
        entries.push(StatusEntry { path: format!("noise/f{i}.txt"), flags: StatusFlags { wt_new: true, ..flags() }, rename: None });
    }
    let ToolResult::GitStatus { staged, unstaged, truncated, .. } = git_status(Some("main".into()), &entries, "") else {
        panic!("a status")
    };
    assert_eq!(status_rows(&staged), [("important.txt".to_string(), "A".to_string())]);
    assert!(truncated);
    assert_eq!(staged.len() + unstaged.len(), MAX_STATUS_ENTRIES);
}

#[test]
fn blaming_an_uncommitted_file_explains_why_there_is_no_history() {
    let err = blame_error("brand-new.txt", "the path 'brand-new.txt' does not exist in the given tree");
    let message = err.message();
    assert!(message.contains("not committed"), "{message}");
    assert!(message.contains("gitDiff"), "names the alternative: {message}");
}

#[test]
fn every_tool_is_advertised_exactly_once() {
    let definitions = tool_definitions();
    for tool in ToolName::all_built_in() {
        assert_eq!(
            definitions.iter().filter(|d| d.name == tool.wire_name()).count(),
            1,
            "{tool:?} must be advertised exactly once"
        );
    }
    assert_eq!(definitions.len(), ToolName::all_built_in().len());
}

#[test]
fn a_plan_is_acknowledged_by_its_size_not_echoed() {
    assert_eq!(write_plan("# Fix\n\n1. read\n2. fix\n").unwrap(), ToolResult::PlanWritten { lines: 4 });
}

#[test]
fn an_empty_or_oversized_plan_is_refused_with_why() {
    let empty = write_plan("  \n").unwrap_err().message();
    assert!(empty.contains("content is empty"), "{empty}");
    assert!(write_plan(&"я".repeat(MAX_PLAN_CHARS)).is_ok());
    let long = write_plan(&"я".repeat(MAX_PLAN_CHARS + 1)).unwrap_err().message();
    assert!(long.contains("over the 20000 limit"), "{long}");
}

#[test]
fn what_the_model_gets_wrong_is_said_to_it() {
    let missing = read_output::<Fake>(None, Some(&Fake)).unwrap_err();
    assert!(missing.message().contains("id is required"), "{}", missing.message());
    for err in [read_output::<Fake>(Some(1), None).unwrap_err(), stop_process::<Fake>(Some(1), None).unwrap_err()] {
        assert!(err.message().contains("not available"), "{}", err.message());
    }
}

#[test]
fn an_empty_command_is_refused() {
    assert!(matches!(run_command(&parts(&["tmp", "repo"]), "   ", None, vec![], false), Err(ToolError::InvalidArguments { .. })));
}

#[test]
fn without_an_index_the_model_is_pointed_at_grep() {
    let error = semantic_search(None, None).unwrap_err();
    assert!(matches!(error, ToolError::SearchUnavailable(_)));
    assert!(error.message().contains("grep"), "{}", error.message());
}

#[test]
fn a_failed_search_is_reported_as_unavailable() {
    let error = semantic_search(Some(Err("disk".into())), None).unwrap_err();
    assert!(matches!(&error, ToolError::SearchUnavailable(reason) if reason == "disk"), "{error:?}");
}

#[test]
fn the_query_fts_and_default_size_reach_the_search() {
    assert_eq!(search_size(None), DEFAULT_TOP_K);
    assert_eq!(search_size(Some(3)), 3);
}

#[test]
fn text_is_short_unless_a_preview_is_asked_for() {
    let hit = CodeMatch {
        path: "a.rs".into(),
        start_line: 3,
        end_line: 9,
        name: Some("a".into()),
        text: "й".repeat(PREVIEW_CHARS * 2),
        source: MatchSource::Symbol,
    };
    let meta = SearchMeta { tiers_used: vec![MatchSource::Symbol], weak: false, hint: None };
    let text = |preview| match semantic_search(Some(Ok((vec![hit.clone()], meta.clone()))), preview) {
        Ok(ToolResult::SearchResults { matches, .. }) => matches[0].text.clone(),
        other => panic!("{other:?}"),
    };
    let short = text(None);
    let preview = text(Some(true));
    assert_eq!(short.chars().count(), TEXT_CHARS + 1, "cut on a character, with an ellipsis");
    assert!(short.ends_with('…'));
    assert_eq!(preview.chars().count(), PREVIEW_CHARS + 1);
}

#[test]
fn a_call_reaches_the_server_by_its_own_name_and_returns_its_text() {
    let (s, clients) = (servers(), clients());
    assert_eq!(call_mcp(&s, &clients, "mcp__gh__ok", r#"{"q": 1}"#), Ok(ToolResult::Mcp { text: "done".into() }));
    assert_eq!(*clients[1].asked.borrow(), [("ok".to_string(), r#"{"q": 1}"#.to_string())]);
    assert!(clients[0].asked.borrow().is_empty());
}

#[test]
fn a_failing_tool_and_a_failing_server_are_different_errors() {
    let (s, clients) = (servers(), clients());
    let failed = call_mcp(&s, &clients, "mcp__gh__fails", r#"{"q": 1}"#);
    assert!(matches!(failed, Err(ToolError::McpToolFailed(t)) if t == "no such issue"));
    let err = call_mcp(&s, &clients, "mcp__gh__dies", r#"{"q": 1}"#).unwrap_err();
    assert!(matches!(&err, ToolError::McpUnavailable(m) if m.contains("\"gh\"") && m.contains("exited")), "{err:?}");
}

#[test]
fn a_name_no_server_has_is_an_unknown_tool() {
    let (s, clients) = (servers(), clients());
    assert!(matches!(
        call_mcp(&s, &clients, "mcp__gh__nope", r#"{"q": 1}"#),
        Err(ToolError::UnknownTool(n)) if n == "mcp__gh__nope"
    ));
    assert!(clients.iter().all(|c| c.asked.borrow().is_empty()), "no server was asked");
}

#[test]
fn the_turns_stop_reaches_the_server_call() {
    let (s, clients) = (servers(), clients());
    assert!(matches!(
        call_mcp(&s, &clients, "mcp__gh__waits", r#"{"q": 1}"#),
        Err(ToolError::McpUnavailable(m)) if m == "cancelled"
    ));
}

#[test]
fn a_scope_inside_a_repository_reports_paths_relative_to_itself() {
    let workdir: Vec<String> = vec!["tmp".into(), "git-subdir".into()];
    let root: Vec<String> = vec!["tmp".into(), "git-subdir".into(), "docs".into()];
    let prefix = scope_prefix(&root, Some(&workdir)).expect("inside the working tree");
    assert_eq!(prefix, "docs/");
    let entries = vec![
        StatusEntry { path: "docs/guide.md".into(), flags: StatusFlags { wt_modified: true, ..flags() }, rename: None },
        StatusEntry { path: "outside.txt".into(), flags: StatusFlags { wt_modified: true, ..flags() }, rename: None },
    ];
    let ToolResult::GitStatus { unstaged, .. } = git_status(None, &entries, &prefix) else { panic!("a status") };
    assert_eq!(
        status_rows(&unstaged),
        [("guide.md".to_string(), "M".to_string())],
        "rebased onto the scope, and the change outside it dropped"
    );
}

#[test]
fn the_scope_prefix_is_empty_at_the_top_and_refused_outside() {
    let workdir: Vec<String> = vec!["repo".into()];
    assert_eq!(scope_prefix(&workdir, Some(&workdir)), Ok(String::new()));
    assert_eq!(
        scope_prefix(&vec!["elsewhere".into()], Some(&workdir)),
        Err(ToolError::Git("the workspace root is outside the repository's working tree".into()))
    );
    assert_eq!(scope_prefix(&workdir, None), Err(ToolError::Git("a bare repository has no working tree".into())));
    let deep: Vec<String> = vec!["repo".into(), "a".into(), "b".into()];
    assert_eq!(scope_prefix(&deep, Some(&workdir)), Ok("a/b/".to_string()));
}

#[test]
fn past_the_file_cap_the_diff_says_it_left_some_out() {
    let changed: Vec<String> = (0..=MAX_DIFF_FILES).map(|n| format!("many/{n:03}.txt")).collect();
    let (files, truncated) = diff_paths(&changed, "");
    assert_eq!(files.len(), MAX_DIFF_FILES);
    assert!(truncated);
}

#[test]
fn a_directory_diff_shows_paths_from_the_scope_and_narrows_to_the_directory() {
    let (files, truncated) = diff_paths(&vec!["docs/a.md".to_string(), "top.txt".to_string()], "docs/");
    assert_eq!(files, ["a.md", "top.txt"]);
    assert!(!truncated);
    assert_eq!(pathspec("."), "");
    assert_eq!(pathspec("docs/."), "docs");
    assert_eq!(pathspec("docs//"), "docs");
    assert_eq!(pathspec("a.b"), "a.b");
    assert_eq!(pathspec("src/x."), "src/x.");
}

#[test]
fn what_the_processes_say_is_handed_on() {
    let info = ProcessInfo { id: 3, command: "make".into(), cwd: ".".into(), state: ProcessState::Stopped };
    assert_eq!(stopped_result(Ok(info.clone())), Ok(ToolResult::ProcessStopped(info.clone())));
    let out = ProcessOutput { process: info, output: "done\n".into(), missed: false, truncated: false };
    assert_eq!(output_result(Ok(out.clone())), Ok(ToolResult::ProcessOutput(out)));
    assert_eq!(output_result(Err(ToolError::Command("no process 9".into()))), Err(ToolError::Command("no process 9".into())));
}

fn parts(ps: &[&str]) -> Vec<String> {
    ps.iter().map(|s| s.to_string()).collect()
}

#[test]
fn a_cwd_outside_the_workspace_is_refused() {
    let root = parts(&["tmp", "repo"]);
    let err = run_command(&root, "ls", Some("../.."), parts(&["tmp"]), true).expect_err("refused");
    assert!(matches!(err, ToolError::PathEscape(_)), "{err:?}");
}

#[test]
fn a_cwd_that_does_not_exist_says_so() {
    let root = parts(&["tmp", "repo"]);
    let err = run_command(&root, "ls", Some("nope"), parts(&["tmp", "repo", "nope"]), false).expect_err("refused");
    assert!(matches!(err, ToolError::NotFound(_)), "{err:?}");
}

#[test]
fn a_command_runs_at_the_root_or_in_the_directory_it_names() {
    let root = parts(&["tmp", "repo"]);
    assert_eq!(run_command(&root, "ls", None, vec![], false), Ok(root.clone()));
    assert_eq!(run_command(&root, "ls", Some("."), vec![], false), Ok(root.clone()));
    assert_eq!(
        run_command(&root, "ls", Some("src"), parts(&["tmp", "repo", "src"]), true),
        Ok(parts(&["tmp", "repo", "src"]))
    );
    assert!(matches!(run_command(&root, "  ", Some("src"), vec![], true), Err(ToolError::InvalidArguments { .. })));
}

struct Scripted {
    asked: std::cell::RefCell<Vec<(String, String)>>,
}

impl McpClient for Scripted {
    fn call_allows(&self, _call: McpCall, _answer: McpCallOutcome) -> bool {
        true
    }
    fn call_tool(&self, call: &McpCall) -> McpCallOutcome {
        self.asked.borrow_mut().push((call.tool.clone(), call.arguments.clone()));
        match call.tool.as_str() {
            "ok" => McpCallOutcome::Returned { text: "done".into(), is_error: false },
            "fails" => McpCallOutcome::Returned { text: "no such issue".into(), is_error: true },
            "waits" => McpCallOutcome::Cancelled,
            _ => McpCallOutcome::Failed("the server exited (code 1)".into()),
        }
    }
}

fn clients() -> Vec<Scripted> {
    vec![Scripted { asked: Default::default() }, Scripted { asked: Default::default() }]
}

fn servers() -> Vec<McpServer> {
    vec![
        McpServer { name: "fs".into(), tools: vec!["read".into()] },
        McpServer { name: "gh".into(), tools: vec!["ok".into(), "fails".into(), "waits".into(), "dies".into()] },
    ]
}

#[test]
fn a_wire_name_names_its_server_and_tool() {
    let s = servers();
    assert_eq!(mcp_target(&s, "mcp__gh__fails"), Some((1, 1)));
    assert_eq!(mcp_target(&s, "mcp__fs__read"), Some((0, 0)));
    assert_eq!(mcp_target(&s, "mcp__gh__nope"), None);
    assert_eq!(mcp_target(&s, "gh__ok"), None);
}


#[test]
fn only_a_skill_the_prompt_listed_is_served() {
    let listed: Vec<String> = vec!["deploy".into(), "review".into(), "deploy".into()];
    assert_eq!(listed_skill(&listed, "review"), Some(1));
    assert_eq!(listed_skill(&listed, "deploy"), Some(0));
    assert_eq!(listed_skill(&listed, "switched-off"), None);
    assert_eq!(listed_skill(&listed, "Review"), None);
}
