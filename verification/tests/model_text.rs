use kibo_agent::model_text::for_model;
use kibo_agent::tool_types::{
    BlameHunk, CodeMatch, CommandOutput, GitFileStatus, GrepMatch, MatchSource, OutlineEntry, ProcessInfo,
    ProcessOutput, ProcessState, SearchMeta, Task, TodoStatus, ToolFileEntry, ToolResult,
};

fn hit(path: &str, line: u32, text: &str, before: &[&str], after: &[&str]) -> GrepMatch {
    GrepMatch {
        path: path.into(),
        line,
        text: text.into(),
        before: before.iter().map(|s| s.to_string()).collect(),
        after: after.iter().map(|s| s.to_string()).collect(),
    }
}

fn file(content: &str, start_line: u32, end_line: u32, total_lines: u32) -> ToolResult {
    ToolResult::File { content: content.into(), start_line, end_line, total_lines, clamped: false, truncated: false }
}

#[test]
fn a_file_says_whether_it_is_whole() {
    let whole = for_model(&file("a\nb\n", 1, 2, 2));
    assert_eq!(whole, "All 2 lines:\na\nb\n");
    let part = for_model(&file("b\n", 2, 2, 9));
    assert_eq!(part, "Lines 2-2 of 9:\nb\n");
    let empty = for_model(&file("", 0, 0, 0));
    assert_eq!(empty, "The file is empty.");
}

#[test]
fn grep_reads_like_rg() {
    let shown = for_model(&ToolResult::GrepResults {
        matches: vec![
            hit("a.rs", 3, "fn one()", &["// one"], &["}"]),
            // Touches the first group: no separator, no repeated line.
            hit("a.rs", 5, "fn two()", &["}"], &[]),
            hit("a.rs", 20, "fn far()", &[], &[]),
            hit("b.rs", 1, "use a;", &[], &[]),
        ],
        truncated: true,
        total: 4,
        total_files: 2,
        total_is_floor: false,
        skipped: vec![],
    });
    assert_eq!(
        shown,
        "a.rs\n2-// one\n3:fn one()\n4-}\n5:fn two()\n--\n20:fn far()\n\nb.rs\n1:use a;\n\n[more matches not shown — narrow the pattern or the glob]"
    );
    assert_eq!(for_model(&ToolResult::GrepResults {
        matches: vec![],
        truncated: false,
        total: 0,
        total_files: 0,
        total_is_floor: false,
        skipped: vec![],
    }), "No matches.");
}

#[test]
fn a_command_leads_with_how_it_ended() {
    let out = |stdout: &str, stderr: &str, exit_code, timed_out| {
        for_model(&ToolResult::CommandRan(CommandOutput {
            stdout: stdout.into(),
            stderr: stderr.into(),
            exit_code,
            timed_out,
            truncated: false,
        }))
    };
    assert_eq!(out("ok\n", "", Some(0), false), "Exit code 0\nstdout:\nok");
    assert_eq!(out("", "boom\n", Some(1), false), "Exit code 1\nstderr:\nboom");
    assert_eq!(out("", "", None, true), "Timed out and was killed, with everything it started.\n(no output)");
    assert_eq!(out("", "", None, false), "Ended by a signal, with no exit code.\n(no output)");
}

#[test]
fn a_checklist_shows_marks_ids_and_notes() {
    let task = |id: &str, title: &str, status, note: Option<&str>| Task {
        id: id.into(),
        title: title.into(),
        status,
        note: note.map(str::to_string),
    };
    let shown = for_model(&ToolResult::Todo {
        tasks: vec![
            task("1", "Read", TodoStatus::Completed, Some("found it")),
            task("2", "Fix", TodoStatus::InProgress, None),
            task("3", "Test", TodoStatus::Pending, None),
            task("4", "Docs", TodoStatus::Cancelled, Some("not asked")),
        ],
    });
    assert!(shown.ends_with("\n[x] 1 Read — found it\n[>] 2 Fix\n[ ] 3 Test\n[-] 4 Docs — not asked"), "{shown}");
}

#[test]
fn git_status_groups_what_changed() {
    let f = |status: &str, path: &str| GitFileStatus { status: status.into(), path: path.into() };
    let shown = for_model(&ToolResult::GitStatus {
        branch: Some("main".into()),
        staged: vec![f("R", "b.rs")],
        unstaged: vec![f("M", "a.rs"), f("?", "new.rs")],
        conflicted: vec![],
        truncated: false,
    });
    assert_eq!(shown, "On branch main\nStaged:\n  R b.rs\nNot staged:\n  M a.rs\n  ? new.rs");
    let clean = for_model(&ToolResult::GitStatus {
        branch: None,
        staged: vec![],
        unstaged: vec![],
        conflicted: vec![],
        truncated: false,
    });
    assert!(clean.ends_with("\nNothing changed."), "{clean}");
}

#[test]
fn blame_is_one_line_per_hunk() {
    let shown = for_model(&ToolResult::GitBlame {
        path: "a.rs".into(),
        hunks: vec![BlameHunk {
            start_line: 3,
            line_count: 2,
            commit: "abc1234".into(),
            author: "Ann".into(),
            date: "2026-09-01".into(),
            summary: "fix".into(),
        }],
        truncated: false,
    });
    assert!(shown.ends_with("\n3-4  abc1234  2026-09-01  Ann  fix"), "{shown}");
}

#[test]
fn a_process_read_says_how_it_stands_and_what_was_lost() {
    let process = ProcessInfo { id: 3, command: "npm run dev".into(), cwd: ".".into(), state: ProcessState::Running };
    let shown = for_model(&ToolResult::ProcessOutput(ProcessOutput {
        process: process.clone(),
        output: "ready\n".into(),
        missed: true,
        truncated: false,
    }));
    assert_eq!(shown, "#3 `npm run dev` is running\n[some output was lost before this read]\nready");
    let quiet = for_model(&ToolResult::ProcessOutput(ProcessOutput {
        process,
        output: String::new(),
        missed: false,
        truncated: false,
    }));
    assert!(quiet.ends_with("(no new output)"), "{quiet}");
}

#[test]
fn a_search_lists_places_then_the_hint() {
    let shown = for_model(&ToolResult::SearchResults {
        matches: vec![CodeMatch {
            path: "a.rs".into(),
            start_line: 1,
            end_line: 3,
            name: Some("sync".into()),
            text: "fn sync() {}\n".into(),
            source: MatchSource::Symbol,
        }],
        meta: SearchMeta { tiers_used: vec![], weak: true, hint: Some("try grep".into()) },
    });
    assert_eq!(shown, "a.rs:1-3  sync\nfn sync() {}\n\n[these matches are weak — none is a close fit]\n\ntry grep");
}

#[test]
fn a_skill_lists_its_files_after_the_instructions() {
    let shown = for_model(&ToolResult::Skill {
        name: "tests".into(),
        instructions: "Do it.\n".into(),
        files: vec!["a.md".into()],
    });
    assert_eq!(shown, "Skill tests:\nDo it.\n\nFiles in this skill (read one with skill and its path):\n- a.md");
}

#[test]
fn an_outline_lists_ranges_or_says_there_is_nothing() {
    let entry = OutlineEntry { name: "A.run".into(), start_line: 2, end_line: 9 };
    let shown = for_model(&ToolResult::FileOutline { path: "a.rs".into(), entries: vec![entry], total_lines: 10 });
    assert_eq!(shown, "Outline of a.rs (10 lines), start-end:\n2-9  A.run");
    let none = for_model(&ToolResult::FileOutline { path: "a.txt".into(), entries: vec![], total_lines: 4 });
    assert_eq!(none, "No declarations or headings found in a.txt (4 lines).");
}

#[test]
fn a_listing_reaches_the_model_as_a_tree() {
    let shown = for_model(&ToolResult::FileList {
        entries: vec![
            ToolFileEntry { path: "src".into(), is_dir: true },
            ToolFileEntry { path: "src/a.rs".into(), is_dir: false },
        ],
        truncated: false,
    });
    assert_eq!(shown, "./\n└── src/\n    └── a.rs\n");
}

#[test]
fn a_stopped_process_says_how_it_ended() {
    let p = |state| ProcessInfo { id: 7, command: "make".into(), cwd: ".".into(), state };
    assert_eq!(for_model(&ToolResult::ProcessStopped(p(ProcessState::Stopped))), "#7 `make` was stopped");
    assert_eq!(p(ProcessState::Exited(Some(2))).describe(), "#7 `make` exited with code 2");
    assert_eq!(p(ProcessState::Exited(None)).describe(), "#7 `make` was ended by a signal");
}

#[test]
fn a_saved_plan_and_a_server_answer_read_plainly() {
    assert_eq!(
        for_model(&ToolResult::PlanWritten { lines: 3 }),
        "Plan saved (3 lines). The user sees it in the Plan tab."
    );
    assert_eq!(for_model(&ToolResult::Mcp { text: "done".into() }), "done");
    assert_eq!(for_model(&ToolResult::Moved { from: "a".into(), to: "b".into() }), "Moved a → b");
}
