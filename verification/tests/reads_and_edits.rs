use kibo_agent::edit_file::{apply_edits, FileEdit};
use kibo_agent::errors::{LineEnding, ToolError};
use kibo_agent::guards::{delete_guard, edit_file, preflight, preflight_targets, write_guard, Change};
use kibo_agent::read_file::{
    read_file, slice_lines, ReadFiles, WriteBlocked, DATA_HEAD_LINES, MAX_READ_BYTES, MAX_READ_LINES,
};
use kibo_agent::tool_types::{ToolName, ToolResult};

fn unwrap_file(result: ToolResult) -> (String, u32, u32, u32) {
    match result {
        ToolResult::File { content, start_line, end_line, total_lines, .. } => (content, start_line, end_line, total_lines),
        other => panic!("expected a file read, got {other:?}"),
    }
}

fn clamped(result: &ToolResult) -> bool {
    matches!(result, ToolResult::File { clamped: true, .. })
}

fn truncated(result: &ToolResult) -> bool {
    matches!(result, ToolResult::File { truncated: true, .. })
}

fn read(body: &str, start: Option<u32>, end: Option<u32>) -> ToolResult {
    slice_lines(body, start, end, MAX_READ_LINES)
}

fn numbered(n: u32) -> String {
    (1..=n).map(|i| format!("{i}\n")).collect()
}

#[test]
fn a_whole_file_read_is_byte_identical() {
    for body in ["one\ntwo\nthree\n", "no trailing newline", "", "\n\n"] {
        let (content, ..) = unwrap_file(read(body, None, None));
        assert_eq!(content, body, "body {body:?} came back changed");
    }
}

#[test]
fn a_whole_file_read_reports_the_full_range() {
    let (_, start, end, total) = unwrap_file(read("one\ntwo\nthree\n", None, None));
    assert_eq!((start, end, total), (1, 3, 3));
}

#[test]
fn a_requested_range_returns_only_those_lines() {
    let (content, start, end, total) = unwrap_file(read("one\ntwo\nthree\nfour\n", Some(2), Some(3)));
    assert_eq!(content, "two\nthree\n");
    assert_eq!((start, end, total), (2, 3, 4));
}

#[test]
fn an_out_of_range_request_is_clamped_not_refused() {
    let body = "one\ntwo\n";
    let (content, start, end, total) = unwrap_file(read(body, Some(1), Some(900)));
    assert_eq!(content, "one\ntwo\n");
    assert_eq!((start, end, total), (1, 2, 2));

    let (_, start, end, _) = unwrap_file(read(body, Some(900), None));
    assert_eq!((start, end), (2, 2), "a start past EOF lands on the last line");

    assert!(clamped(&read(body, Some(1), Some(900))));
    assert!(clamped(&read(body, Some(900), None)));
    assert!(clamped(&read(body, Some(0), Some(1))), "no line 0");
    assert!(!clamped(&read(body, Some(1), Some(2))), "the exact range is not cut");
    assert!(!clamped(&read(body, None, Some(1))), "an open start is not cut");
}

#[test]
fn an_inverted_range_returns_the_start_line() {
    let (content, start, end, _) = unwrap_file(read("one\ntwo\nthree\n", Some(3), Some(1)));
    assert_eq!(content, "three\n");
    assert_eq!((start, end), (3, 3));
}

#[test]
fn an_empty_file_claims_no_lines() {
    let (content, start, end, total) = unwrap_file(read("", Some(1), Some(5)));
    assert_eq!(content, "");
    assert_eq!((start, end, total), (0, 0, 0));
}

#[test]
fn a_whole_file_over_the_line_limit_stops_there_and_does_not_unlock_a_write() {
    let body = numbered(MAX_READ_LINES + 500);
    let mut reads = ReadFiles::default();
    let result = read_file("file.txt", None, None, "file.txt", &body, &mut reads);
    assert!(truncated(&result));
    let (content, start, end, total) = unwrap_file(result);
    assert_eq!((start, end, total), (1, MAX_READ_LINES, MAX_READ_LINES + 500));
    assert_eq!(content, numbered(MAX_READ_LINES));
    assert!(reads.check("file.txt", &body, true).is_err(), "a cut read is a partial one");
}

#[test]
fn a_file_at_the_line_limit_is_whole() {
    let body = numbered(MAX_READ_LINES).trim_end().to_string();
    let mut reads = ReadFiles::default();
    let result = read_file("file.txt", None, None, "file.txt", &body, &mut reads);
    assert!(!truncated(&result));
    assert_eq!(unwrap_file(result).0, body);
    assert_eq!(reads.check("file.txt", &body, true), Ok(()));
}

#[test]
fn long_lines_stop_at_the_byte_limit_on_a_line_boundary() {
    let line = "x".repeat(999);
    let body: String = (0..150).map(|_| format!("{line}\n")).collect();
    let result = read(&body, None, None);
    assert!(truncated(&result));
    let (content, _, end, _) = unwrap_file(result);
    let fits = (MAX_READ_BYTES / 1000) as u32;
    assert_eq!(end, fits);
    assert_eq!(content.len(), fits as usize * 1000);

    let body = format!("{}{}\n", format!("{line}\n").repeat(fits as usize - 1), "y".repeat(1000));
    let (_, _, end, _) = unwrap_file(read(&body, None, None));
    assert_eq!(end, fits - 1);
}

#[test]
fn a_range_longer_than_the_limit_is_cut_from_its_start() {
    let body = numbered(5000);
    let result = read(&body, Some(3000), None);
    assert!(truncated(&result));
    assert!(!clamped(&result), "the range fit the file; the limit is a different cut");
    let (content, start, end, _) = unwrap_file(result);
    assert_eq!((start, end), (3000, 3000 + MAX_READ_LINES - 1));
    assert!(content.starts_with("3000\n"));

    let within = read(&body, Some(4000), Some(4010));
    assert!(!truncated(&within), "a short range is not cut");
}

#[test]
fn a_single_line_over_the_limit_is_cut_on_a_character_boundary() {
    let body = format!("a{}\n", "é".repeat(MAX_READ_BYTES));
    let result = read(&body, None, None);
    assert!(truncated(&result));
    let (content, start, end, total) = unwrap_file(result);
    assert_eq!((start, end, total), (1, 1, 1));
    assert!(content.len() <= MAX_READ_BYTES + 1, "{}", content.len());
    assert!(content.len() >= MAX_READ_BYTES - 1, "{}", content.len());
    assert!(content.starts_with("aé") && content.ends_with("é\n"));
}

#[test]
fn a_large_data_file_read_whole_stops_at_its_head() {
    let body: String = (1..=1500).map(|i| format!("{i} request ok\n")).collect();
    let small: String = (1..=100).map(|i| format!("{i},2\n")).collect();
    let mut reads = ReadFiles::default();

    let result = read_file("app.LOG", None, None, "app.LOG", &body, &mut reads);
    assert!(truncated(&result));
    let (content, start, end, total) = unwrap_file(result);
    assert_eq!((start, end, total), (1, DATA_HEAD_LINES, 1500));
    assert!(content.ends_with("50 request ok\n"), "{content}");
    assert!(reads.check("app.LOG", &body, true).is_err(), "a head is a partial read");

    let text = read_file("file.txt", None, None, "file.txt", &body, &mut reads);
    assert_eq!(unwrap_file(text).2, 1500, "not a data file: read whole");

    let range = read_file("app.LOG", Some(100), Some(400), "app.LOG", &body, &mut reads);
    assert!(!truncated(&range), "a range asked for is not cut to the head");
    assert_eq!(unwrap_file(range).2, 400);

    let result = read_file("small.csv", None, None, "small.csv", &small, &mut reads);
    assert!(!truncated(&result), "a small data file past the head is still read whole");
    assert_eq!(reads.check("small.csv", &small, true), Ok(()));
}

#[test]
fn a_partial_write_does_not_upgrade_a_partial_read() {
    let mut reads = ReadFiles::default();
    reads.record("a.txt", "whole original", false);
    reads.record_write("a.txt", "whole edited", false);

    assert_eq!(reads.check("a.txt", "whole edited", true), Err(WriteBlocked::ReadInPart));
    assert_eq!(reads.check("a.txt", "whole edited", false), Ok(()));
}

#[test]
fn the_guard_says_never_read_changed_or_partial() {
    let mut reads = ReadFiles::default();
    assert_eq!(reads.check("a.txt", "x", true), Err(WriteBlocked::NeverRead));
    reads.record("a.txt", "x", true);
    assert_eq!(reads.check("a.txt", "y", false), Err(WriteBlocked::ChangedSinceRead));
    assert_eq!(reads.check("a.txt", "x", true), Ok(()));
    reads.record("a.txt", "x", false);
    assert_eq!(reads.check("a.txt", "x", true), Ok(()), "a partial re-read of the same text keeps the whole read");
    reads.record("a.txt", "z", false);
    assert_eq!(reads.check("a.txt", "z", true), Err(WriteBlocked::ReadInPart));
}

#[test]
fn replacing_an_unread_file_is_refused_and_a_new_one_is_not() {
    let reads = ReadFiles::default();
    let err = write_guard("existing.txt", Some("precious\n"), &reads).unwrap_err();
    assert!(matches!(err, ToolError::FileNotRead(_)));
    assert!(err.message().contains("read"), "the message says what to do");
    assert!(err.message().ends_with("an outline is not a read"));
    assert_eq!(write_guard("new.txt", None, &reads), Ok(()));
}

#[test]
fn replacing_a_file_read_only_in_part_is_refused() {
    let mut reads = ReadFiles::default();
    reads.record("big.txt", "line 1\n", false);
    let err = write_guard("big.txt", Some("line 1\n"), &reads).unwrap_err();
    assert!(matches!(err, ToolError::FileReadInPart(_)));
    assert!(err.message().contains("editFile"), "names the alternative");
}

#[test]
fn a_deletion_is_refused_as_one_before_approval() {
    let mut reads = ReadFiles::default();
    assert_eq!(
        delete_guard("a.txt", "x", &reads, true),
        Err(ToolError::DeleteNotReadInFull("a.txt".into()))
    );
    assert_eq!(delete_guard("a.txt", "x", &reads, false), Err(ToolError::FileNotRead("a.txt".into())));
    reads.record("a.txt", "x", true);
    assert_eq!(delete_guard("a.txt", "x", &reads, true), Ok(()));
}

fn edits(pairs: &[(&str, &str)]) -> Vec<FileEdit> {
    pairs.iter().map(|(old, new)| FileEdit { old: old.to_string(), new: new.to_string() }).collect()
}

#[test]
fn replaces_the_anchored_text() {
    assert_eq!(apply_edits("let x = 1;\n", &edits(&[("= 1", "= 2")])).unwrap(), "let x = 2;\n");
}

#[test]
fn edits_are_independent_of_their_order() {
    let body = "alpha\nbeta\ngamma\n";
    let forwards = apply_edits(body, &edits(&[("alpha", "A"), ("gamma", "G")])).unwrap();
    let backwards = apply_edits(body, &edits(&[("gamma", "G"), ("alpha", "A")])).unwrap();
    assert_eq!(forwards, "A\nbeta\nG\n");
    assert_eq!(forwards, backwards);
}

#[test]
fn an_anchor_never_matches_what_an_earlier_edit_produced() {
    assert_eq!(apply_edits("A\nB\n", &edits(&[("A", "B"), ("B", "C")])).unwrap(), "B\nC\n");
}

#[test]
fn a_missing_anchor_names_its_edit_and_the_closest_line() {
    let body = "fn a() {\n    let total = price * qty;\n    total\n}\n";
    let err = apply_edits(body, &edits(&[("fn a()", "fn b()"), ("let total = price * qty;\n  total", "x")]))
        .expect_err("indented otherwise");
    let ToolError::InEdit { index: 2, of: 2, reason } = &err else { panic!("{err:?}") };
    assert!(
        matches!(&**reason, ToolError::EditTextNotFound { nearest: Some((2, line)), .. } if line == "    let total = price * qty;"),
        "{err:?}"
    );
    assert!(err.message().starts_with("edit 2 of 2: edit text not found"), "{}", err.message());

    let err = apply_edits(body, &edits(&[("let total = cost * qty;", "x")])).expect_err("a word differs");
    assert!(matches!(err, ToolError::EditTextNotFound { nearest: Some((2, _)), .. }), "{err:?}");
    let err = apply_edits(body, &edits(&[("let sum = a + b;", "x")])).expect_err("unrelated");
    assert!(matches!(err, ToolError::EditTextNotFound { nearest: None, .. }), "{err:?}");
}

#[test]
fn an_edit_takes_the_line_ending_of_the_file() {
    assert_eq!(
        apply_edits("a: 1\r\nb: 2\r\nc: 3\r\n", &edits(&[("a: 1\nb: 2", "a: 1\nb: 20\nb2: 21")])).unwrap(),
        "a: 1\r\nb: 20\r\nb2: 21\r\nc: 3\r\n"
    );
    assert_eq!(apply_edits("a: 1\nb: 2\n", &edits(&[("a: 1\r\nb: 2", "x\r\ny")])).unwrap(), "x\ny\n");
    assert_eq!(apply_edits("a: 1\r\nb: 2\r\n", &edits(&[("a: 1\r\nb: 2", "x\r\ny")])).unwrap(), "x\r\ny\r\n");
    assert_eq!(apply_edits("a: 1\r\nb: 2\r\n", &edits(&[("a: 1", "a: 1\nz: 0")])).unwrap(), "a: 1\r\nz: 0\r\nb: 2\r\n");
}

#[test]
fn a_line_ending_mismatch_in_a_mixed_file_is_named_not_guessed() {
    let err = apply_edits("a: 1\r\nb: 2\r\nc: 3\n", &edits(&[("a: 1\nb: 2", "x")])).expect_err("LF anchor");
    assert!(matches!(err, ToolError::EditLineEndings { file: LineEnding::Crlf, edit: LineEnding::Lf }), "{err:?}");
    let err = apply_edits("a: 1\nb: 2\nc: 3\r\n", &edits(&[("a: 1\r\nb: 2", "x")])).expect_err("CRLF anchor");
    assert!(matches!(err, ToolError::EditLineEndings { file: LineEnding::Lf, edit: LineEnding::Crlf }), "{err:?}");
    let err = apply_edits("a: 1\nb: 2\n", &edits(&[("a: 9\r\nb: 2", "x")])).expect_err("absent");
    assert!(matches!(err, ToolError::EditTextNotFound { .. }), "{err:?}");
}

#[test]
fn an_anchor_cutting_into_a_word_is_refused_and_names_the_word() {
    let body = "line one\nlet aUserId = get();\nmiddle\nпривет мир\nmax_retry_count\n";
    for (old, word) in [
        ("line on", "line one"),
        ("serId", "aUserId"),
        ("aUser", "aUserId"),
        ("ивет", "привет"),
        ("retry_count", "max_retry_count"),
    ] {
        let err = apply_edits(body, &edits(&[(old, "X")])).expect_err(old);
        assert!(matches!(&err, ToolError::EditInsideWord(o, w) if o == old && w == word), "{old}: {err:?}");
    }
    assert!(apply_edits(body, &edits(&[("middle", "MIDDLE")])).is_ok());
}

#[test]
fn an_ambiguous_anchor_reports_how_many_times_it_matched() {
    let err = apply_edits("x = 1;\nx = 1;\nx = 1;\n", &edits(&[("x = 1;", "x = 2;")])).expect_err("three");
    assert!(matches!(err, ToolError::EditTextAmbiguous(_, 3)));
    assert!(err.message().contains("matched 3 times"), "{}", err.message());
}

#[test]
fn overlapping_edits_reject_the_call() {
    let err = apply_edits("ab cd ef\n", &edits(&[("ab cd", "X"), ("cd ef", "Y")])).expect_err("overlap");
    assert!(matches!(err, ToolError::EditsOverlap));
}

#[test]
fn an_unread_file_can_be_edited_but_not_then_replaced() {
    let mut reads = ReadFiles::default();
    let edited = edit_file("a.txt", "precious\n", &edits(&[("precious", "kept")]), &mut reads).expect("an anchor is enough");
    assert_eq!(edited, "kept\n");
    assert_eq!(reads.check("a.txt", "kept\n", true), Err(WriteBlocked::ReadInPart));
    let err = edit_file("a.txt", "kept\n", &edits(&[("nowhere", "x")]), &mut reads).expect_err("still anchored");
    assert!(matches!(err, ToolError::EditTextNotFound { .. }), "{err:?}");
}

#[test]
fn editing_over_someone_elses_change_is_refused() {
    let mut reads = ReadFiles::default();
    reads.record("a.txt", "original\n", true);
    let err = edit_file("a.txt", "edited by a human\n", &edits(&[("human", "robot")]), &mut reads)
        .expect_err("changed under it");
    assert!(matches!(err, ToolError::FileChangedSinceRead(_)));
}

#[test]
fn an_edit_after_a_whole_read_still_unlocks_a_write() {
    let mut reads = ReadFiles::default();
    reads.record("a.txt", "one\ntwo\n", true);
    let edited = edit_file("a.txt", "one\ntwo\n", &edits(&[("two", "TWO")]), &mut reads).unwrap();
    assert_eq!(write_guard("a.txt", Some(&edited), &reads), Ok(()));
}

fn agent_read(reads: &mut ReadFiles, relative: &str, body: &str, range: Option<(u32, u32)>) {
    let (start, end) = match range {
        Some((s, e)) => (Some(s), Some(e)),
        None => (None, None),
    };
    read_file(relative, start, end, relative, body, reads);
}

#[test]
fn a_missing_anchor_rejects_the_call() {
    let mut reads = ReadFiles::default();
    agent_read(&mut reads, "a.txt", "let x = 1;\n", None);
    let err = edit_file("a.txt", "let x = 1;\n", &edits(&[("= 9", "= 2")]), &mut reads).expect_err("no match");
    assert!(matches!(err, ToolError::EditTextNotFound { .. }));
}

#[test]
fn a_one_line_anchor_in_a_crlf_file_gets_a_crlf_replacement() {
    let edited = apply_edits("a: 1\r\nb: 2\r\n", &edits(&[("a: 1", "a: 1\nz: 0")])).expect("one-line anchor");
    assert_eq!(edited, "a: 1\r\nz: 0\r\nb: 2\r\n");
}

#[test]
fn one_bad_edit_in_a_batch_writes_nothing() {
    let mut reads = ReadFiles::default();
    agent_read(&mut reads, "a.txt", "alpha\nbeta\n", None);
    edit_file("a.txt", "alpha\nbeta\n", &edits(&[("alpha", "A"), ("nope", "N")]), &mut reads)
        .expect_err("second anchor is missing");
    assert_eq!(reads.check("a.txt", "alpha\nbeta\n", true), Ok(()), "nothing changed hands");
}

#[test]
fn consecutive_edits_are_allowed() {
    let mut reads = ReadFiles::default();
    agent_read(&mut reads, "a.txt", "one\ntwo\n", None);
    let first = edit_file("a.txt", "one\ntwo\n", &edits(&[("one", "ONE")]), &mut reads).expect("first");
    let second = edit_file("a.txt", &first, &edits(&[("two", "TWO")]), &mut reads).expect("second");
    assert_eq!(second, "ONE\nTWO\n");
}

#[test]
fn a_multibyte_anchor_splices_cleanly() {
    assert_eq!(apply_edits("привет мир\n", &edits(&[("мир", "世界")])).expect("edits"), "привет 世界\n");
}

#[test]
fn deletes_a_file_the_agent_has_read() {
    let mut reads = ReadFiles::default();
    agent_read(&mut reads, "a.txt", "one\ntwo\n", None);
    assert_eq!(delete_guard("a.txt", "one\ntwo\n", &reads, false), Ok(()));
}

#[test]
fn deleting_an_unread_file_is_refused() {
    let reads = ReadFiles::default();
    let err = delete_guard("a.txt", "precious\n", &reads, false).expect_err("never read");
    assert!(matches!(err, ToolError::FileNotRead(_)));
}

#[test]
fn deleting_a_file_read_only_in_part_is_refused() {
    let mut reads = ReadFiles::default();
    let body: String = (1..=100).map(|i| format!("line {i}\n")).collect();
    agent_read(&mut reads, "big.txt", &body, Some((1, 10)));
    assert!(matches!(delete_guard("big.txt", &body, &reads, false), Err(ToolError::FileReadInPart(_))));
}

#[test]
fn deleting_a_file_changed_since_it_was_read_is_refused() {
    let mut reads = ReadFiles::default();
    agent_read(&mut reads, "a.txt", "original\n", None);
    assert!(matches!(
        delete_guard("a.txt", "edited by a human\n", &reads, false),
        Err(ToolError::FileChangedSinceRead(_))
    ));
}

#[test]
fn a_new_file_needs_no_prior_read() {
    let mut reads = ReadFiles::default();
    assert_eq!(write_guard("notes.md", None, &reads), Ok(()));
    reads.record_write("notes.md", "hello\n", true);
    assert_eq!(reads.check("notes.md", "hello\n", true), Ok(()));
}

#[test]
fn a_second_write_to_the_same_path_is_allowed() {
    let mut reads = ReadFiles::default();
    assert_eq!(write_guard("a.txt", None, &reads), Ok(()));
    reads.record_write("a.txt", "first\n", true);
    assert_eq!(write_guard("a.txt", Some("first\n"), &reads), Ok(()));
    reads.record_write("a.txt", "second\n", true);
    assert_eq!(write_guard("a.txt", Some("second\n"), &reads), Ok(()));
}

fn named(relative: &str, canonical: &[&str]) -> (String, Vec<String>) {
    (relative.to_string(), canonical.iter().map(|s| s.to_string()).collect())
}

fn repo() -> Vec<String> {
    vec!["tmp".to_string(), "repo".to_string()]
}

#[test]
fn preflight_refuses_a_path_outside_the_root_before_anyone_is_asked() {
    let reads = ReadFiles::default();
    let err = preflight(&repo(), &vec![named("../outside.txt", &["tmp", "outside.txt"])], Change::Replace, None, &reads)
        .expect_err("escapes the root");
    assert!(matches!(err, ToolError::PathEscape(_)));
}

#[test]
fn preflight_lets_a_new_file_through() {
    let reads = ReadFiles::default();
    preflight(&repo(), &vec![named("fresh.txt", &["tmp", "repo", "fresh.txt"])], Change::Replace, None, &reads)
        .expect("nothing to lose, nothing to check");
}

#[test]
fn preflight_refuses_a_write_to_an_unread_file() {
    let reads = ReadFiles::default();
    let a = vec![named("a.txt", &["tmp", "repo", "a.txt"])];
    let err = preflight(&repo(), &a, Change::Replace, Some("precious\n"), &reads).expect_err("never read");
    assert!(matches!(err, ToolError::FileNotRead(_)));
    assert!(err.message().ends_with("an outline is not a read"), "{}", err.message());
    let err = preflight(&repo(), &a, Change::Delete, Some("precious\n"), &reads).expect_err("never read");
    assert!(matches!(err, ToolError::DeleteNotReadInFull(_)), "{err:?}");
    let mut part = ReadFiles::default();
    part.record("a.txt", "precious\n", false);
    let err = preflight(&repo(), &a, Change::Delete, Some("precious\n"), &part).expect_err("read in part");
    assert!(matches!(err, ToolError::DeleteNotReadInFull(_)), "{err:?}");
    assert_eq!(preflight(&repo(), &a, Change::Edit, Some("precious\n"), &part), Ok(()));
}

#[test]
fn preflight_checks_both_ends_of_a_move() {
    let reads = ReadFiles::default();
    let ends = vec![named("a.txt", &["tmp", "repo", "a.txt"]), named("../b.txt", &["tmp", "b.txt"])];
    assert!(matches!(preflight(&repo(), &ends, Change::Other, None, &reads), Err(ToolError::PathEscape(_))));
}

#[test]
fn each_tool_names_the_paths_the_preflight_checks() {
    assert_eq!(preflight_targets(ToolName::WriteFile, Some("a.rs"), None, None), (vec!["a.rs".to_string()], Change::Replace));
    assert_eq!(preflight_targets(ToolName::EditFile, Some("a.rs"), None, None), (vec!["a.rs".to_string()], Change::Edit));
    assert_eq!(preflight_targets(ToolName::DeleteFile, Some("a.rs"), None, None), (vec!["a.rs".to_string()], Change::Delete));
    assert_eq!(
        preflight_targets(ToolName::Move, Some("a.rs"), Some("b/a.rs"), None),
        (vec!["a.rs".to_string(), "b/a.rs".to_string()], Change::Other)
    );
    assert_eq!(preflight_targets(ToolName::CreateDirectory, Some("d"), None, None), (vec!["d".to_string()], Change::Other));
    assert_eq!(preflight_targets(ToolName::RunCommand, None, None, Some("../..")), (vec!["../..".to_string()], Change::Other));
    assert_eq!(preflight_targets(ToolName::RunCommand, None, None, Some(".")), (vec![], Change::Other));
    assert_eq!(preflight_targets(ToolName::ReadFile, Some("a.rs"), None, None), (vec![], Change::Other));
}
