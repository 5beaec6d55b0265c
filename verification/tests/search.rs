use kibo_agent::code_search::{
    meaning_tier, search_hint, search_sizes, select_filtered, select_matches, wordings, Candidate, MAX_QUERIES,
    MAX_TOP_K,
};
use kibo_agent::listing::PathFilter;
use kibo_agent::errors::ToolError;
use kibo_agent::grep::{Search, LINE_MAX_CHARS, MAX_COUNTED};
use kibo_agent::tool_types::{CodeMatch, GrepMatch, MatchSource, ToolResult};

fn search(pattern: &str, max: Option<usize>, context: Option<usize>) -> Search {
    Search::new(pattern, None, max, context, None, None).expect("compiles")
}

fn results(s: Search) -> (Vec<GrepMatch>, bool) {
    match s.finish() {
        ToolResult::GrepResults { matches, truncated, .. } => (matches, truncated),
        other => panic!("unexpected {other:?}"),
    }
}

#[test]
fn finds_hits_with_line_numbers_and_their_file() {
    let mut s = search("fn main", None, None);
    s.file("src/main.rs", 30, b"use a;\nfn main() {}\n");
    s.file("src/lib.rs", 10, b"pub fn x() {}\n");
    let (matches, truncated) = results(s);
    assert!(!truncated);
    assert_eq!(matches.len(), 1);
    assert_eq!((matches[0].path.as_str(), matches[0].line, matches[0].text.as_str()), ("src/main.rs", 2, "fn main() {}"));
}

#[test]
fn the_cap_counts_hits_and_the_rest_are_still_counted() {
    let mut s = search("x", Some(2), Some(1));
    s.file("a.txt", 20, b"x1\nx2\nx3\nx4\n");
    assert_eq!(s.total(), 4);
    let (matches, truncated) = results(s);
    assert!(truncated);
    assert_eq!(matches.len(), 2);
    assert_eq!(matches[0].before, Vec::<String>::new());
    assert_eq!(matches[0].after, vec!["x2".to_string()]);
    assert_eq!(matches[1].before, vec!["x1".to_string()]);
}

#[test]
fn context_never_reaches_past_the_file() {
    let mut s = search("mid", None, Some(5));
    s.file("a.txt", 20, b"a\nmid\nb\n");
    let (matches, _) = results(s);
    assert_eq!(matches[0].before, vec!["a".to_string()]);
    assert_eq!(matches[0].after, vec!["b".to_string()]);
}

#[test]
fn large_binary_and_foreign_files_are_skipped_or_passed_over() {
    let mut s = search("x", None, None);
    s.file("big.bin", 2_000_000, b"x\n");
    s.file("nul.bin", 10, b"x\0x\n");
    s.file("latin1.txt", 3, &[0x78, 0xff, 0x0a]);
    assert_eq!(s.skipped(), &vec!["big.bin".to_string(), "latin1.txt".to_string()]);
    assert_eq!(s.total(), 0);
}

#[test]
fn a_long_line_is_cut_to_what_a_hit_needs() {
    let line = format!("x{}", "y".repeat(400));
    let mut s = search("x", None, None);
    s.file("min.js", 500, line.as_bytes());
    let (matches, _) = results(s);
    assert_eq!(matches[0].text.chars().count(), 301);
    assert!(matches[0].text.ends_with('…'));
}

#[test]
fn case_folding_and_a_bad_pattern() {
    let mut s = Search::new("HELLO", Some(true), None, None, None, None).unwrap();
    s.file("a.txt", 6, b"hello\n");
    assert_eq!(s.total(), 1);
    assert!(matches!(Search::new("(", None, None, None, None, None), Err(ToolError::InvalidRegex(_))));
}

fn found(path: &str, name: &str, source: MatchSource) -> CodeMatch {
    CodeMatch { path: path.into(), start_line: 1, end_line: 2, name: Some(name.into()), text: "t".into(), source }
}

fn cand(id: &str, path: &str, source: MatchSource) -> Candidate {
    Candidate { id: id.into(), path: path.into(), allowed: true, is_documentation: false, found: Some(found(path, id, source)) }
}

#[test]
fn a_file_gets_two_places_before_the_others_have_their_turn() {
    let ranked = vec![
        cand("a1", "a.rs", MatchSource::Lexical),
        cand("a2", "a.rs", MatchSource::Lexical),
        cand("a3", "a.rs", MatchSource::Lexical),
        cand("b1", "b.rs", MatchSource::Semantic),
        cand("a1", "a.rs", MatchSource::Semantic),
    ];
    let (matches, docs, paths) = select_matches(ranked, 3, true);
    let names: Vec<_> = matches.iter().map(|m| m.name.clone().unwrap()).collect();
    assert_eq!(names, ["a1", "a2", "b1"]);
    assert_eq!((docs, paths), (0, 0));
}

#[test]
fn a_held_back_passage_returns_when_there_is_room() {
    let ranked = vec![
        cand("a1", "a.rs", MatchSource::Lexical),
        cand("a2", "a.rs", MatchSource::Lexical),
        cand("a3", "a.rs", MatchSource::Lexical),
        cand("a4", "a.rs", MatchSource::Symbol),
    ];
    let (matches, _, _) = select_matches(ranked, 10, true);
    let names: Vec<_> = matches.iter().map(|m| m.name.clone().unwrap()).collect();
    assert_eq!(names, ["a1", "a2", "a4", "a3"], "a name the query asked for is exempt from the cap");
}

#[test]
fn filtered_candidates_are_counted() {
    let mut doc = cand("d1", "README.md", MatchSource::Lexical);
    doc.is_documentation = true;
    let mut outside = cand("o1", "vendor/x.rs", MatchSource::Lexical);
    outside.allowed = false;
    let mut stale = cand("s1", "s.rs", MatchSource::Lexical);
    stale.found = None;
    let (matches, docs, paths) = select_matches(vec![doc, outside, stale, cand("c1", "c.rs", MatchSource::Lexical)], 5, false);
    assert_eq!(matches.len(), 1);
    assert_eq!((docs, paths), (1, 1));
}

#[test]
fn the_hint_says_what_was_left_out() {
    let (weak, hint) = search_hint(false, Some("try grep".into()), false, None, None, 1, 0, false);
    assert!(!weak);
    assert_eq!(
        hint.unwrap(),
        "try grep 1 documentation match was left out; search again with includeDocs if the answer may be in the docs."
    );
    let (weak, hint) = search_hint(false, None, false, Some(vec!["frobnicate".into(), "zork".into()]), None, 0, 0, false);
    assert!(weak);
    assert!(hint.unwrap().starts_with("No indexed file has the words `frobnicate`, `zork`: "));
    let (_, hint) = search_hint(false, None, true, None, Some("no model".into()), 0, 3, true);
    assert_eq!(hint.unwrap(), "None of the 3 best matches passed glob/exclude; widen them or search without them.");
    let (_, hint) = search_hint(false, None, true, None, Some("no model".into()), 2, 0, false);
    assert_eq!(
        hint.unwrap(),
        "Search by meaning is unavailable (no model); these results matched on names and words only. 2 documentation matches were left out; search again with includeDocs if the answer may be in the docs."
    );
}

fn file_into(s: &mut Search, path: &str, body: &str) {
    s.file(path, body.len() as u64, body.as_bytes());
}

#[test]
fn finds_hits_with_line_numbers_and_round_trippable_paths() {
    let mut s = search(r"todo!", None, None);
    file_into(&mut s, "src/main.rs", "fn main() {\n    todo!()\n}\n");
    file_into(&mut s, "src/lib.rs", "// nothing here\n");
    let (matches, truncated) = results(s);
    assert_eq!(matches.len(), 1);
    assert_eq!(matches[0].path, "src/main.rs");
    assert_eq!(matches[0].line, 2);
    assert_eq!(matches[0].text, "    todo!()");
    assert!(!truncated);
}

#[test]
fn the_pattern_is_a_regex_not_a_literal() {
    let mut s = search(r"^fn \w+\(\)", None, None);
    file_into(&mut s, "a.rs", "fn alpha() {}\nfn beta() {}\nlet alpha = 1;\n");
    let (matches, _) = results(s);
    assert_eq!(matches.len(), 2);
    assert_eq!(matches.iter().map(|m| m.line).collect::<Vec<_>>(), [1, 2]);
}

#[test]
fn case_sensitivity_is_opt_out() {
    let mut plain = search("alpha", None, None);
    file_into(&mut plain, "a.txt", "Alpha\nalpha\n");
    assert_eq!(results(plain).0.len(), 1);
    let mut folded = Search::new("alpha", Some(true), None, None, None, None).unwrap();
    file_into(&mut folded, "a.txt", "Alpha\nalpha\n");
    assert_eq!(results(folded).0.len(), 2);
}

#[test]
fn context_lines_come_back_around_the_hit() {
    let mut s = search("NEEDLE", None, Some(1));
    file_into(&mut s, "a.txt", "one\ntwo\nNEEDLE\nfour\nfive\n");
    let (matches, _) = results(s);
    assert_eq!(matches[0].before, ["two"]);
    assert_eq!(matches[0].after, ["four"]);
}

#[test]
fn context_at_the_edges_does_not_run_off_the_file() {
    let mut s = search("NEEDLE", None, Some(5));
    file_into(&mut s, "a.txt", "NEEDLE\nmiddle\nNEEDLE\n");
    let (matches, _) = results(s);
    assert!(matches[0].before.is_empty(), "nothing precedes line 1");
    assert_eq!(matches[0].after, ["middle", "NEEDLE"]);
    assert_eq!(matches[1].before, ["NEEDLE", "middle"]);
    assert!(matches[1].after.is_empty(), "nothing follows the last line");
}

#[test]
fn the_cap_counts_hits_not_lines() {
    let body: String = (0..20).map(|i| format!("NEEDLE {i}\n")).collect();
    let mut s = search("NEEDLE", Some(5), Some(3));
    file_into(&mut s, "a.txt", &body);
    let (matches, truncated) = results(s);
    assert_eq!(matches.len(), 5);
    assert!(truncated, "there were more hits than the cap");
}

#[test]
fn counting_stops_at_its_limit_and_says_the_total_is_a_floor() {
    let mut s = search("NEEDLE", None, None);
    let files = [
        ("a.txt", "NEEDLE\n".repeat(MAX_COUNTED / 2)),
        ("b.txt", "NEEDLE\n".repeat(MAX_COUNTED)),
        ("c.txt", "NEEDLE\n".to_string()),
    ];
    for (path, body) in &files {
        file_into(&mut s, path, body);
        if s.total() >= MAX_COUNTED {
            break;
        }
    }
    assert_eq!(s.total(), MAX_COUNTED);
    let ToolResult::GrepResults { total, total_is_floor, .. } = s.finish() else { panic!() };
    assert_eq!((total, total_is_floor), (MAX_COUNTED, true));
}

#[test]
fn an_exact_fit_is_not_reported_as_truncated() {
    let mut s = search("NEEDLE", Some(2), None);
    file_into(&mut s, "a.txt", "NEEDLE\nNEEDLE\n");
    let (matches, truncated) = results(s);
    assert_eq!(matches.len(), 2);
    assert!(!truncated);
}

#[test]
fn an_invalid_pattern_says_so_instead_of_matching_nothing() {
    assert!(matches!(Search::new("(unclosed", None, None, None, None, None), Err(ToolError::InvalidRegex(_))));
}

#[test]
fn a_long_line_is_cut_on_a_character_boundary() {
    let long = format!("NEEDLE {}", "ы".repeat(400));
    let mut s = search("NEEDLE", None, None);
    file_into(&mut s, "a.txt", &format!("{long}\n"));
    let (matches, _) = results(s);
    assert_eq!(matches[0].text.chars().count(), LINE_MAX_CHARS + 1);
    assert!(matches[0].text.ends_with('…'));
}

#[test]
fn blank_wordings_are_dropped_and_at_most_four_run() {
    let asked: Vec<String> = ["  ", "how does sync work", "", "sync", "RepoIndexer", "claim", "go_again"]
        .iter()
        .map(|s| s.to_string())
        .collect();
    let run = wordings(&asked);
    assert_eq!(run, ["how does sync work", "sync", "RepoIndexer", "claim"]);
    assert_eq!(run.len(), MAX_QUERIES);
    assert!(wordings(&vec![" \n".to_string()]).is_empty());
}

#[test]
fn a_filtered_search_asks_for_more_candidates() {
    assert_eq!(search_sizes(10, true, false), (10, 20));
    assert_eq!(search_sizes(10, false, false), (10, 40));
    assert_eq!(search_sizes(0, true, true), (1, 4));
    assert_eq!(search_sizes(500, true, false), (MAX_TOP_K, 100));
}

#[test]
fn meaning_is_said_to_be_used_only_when_it_found_something() {
    let (tiers, why) = meaning_tier(true, None, Some("model missing".into()));
    assert_eq!(tiers, [MatchSource::Symbol, MatchSource::Lexical, MatchSource::Semantic]);
    assert_eq!(why, None);
    let (tiers, why) = meaning_tier(false, None, Some("model missing".into()));
    assert_eq!(tiers, [MatchSource::Symbol, MatchSource::Lexical]);
    assert_eq!(why.as_deref(), Some("model missing"));
    let (_, why) = meaning_tier(false, Some("timed out".into()), Some("model missing".into()));
    assert_eq!(why.as_deref(), Some("timed out"));
}

fn globbed(glob: Option<&str>, exclude: Option<&str>) -> Search {
    Search::new("needle", None, None, None, glob, exclude).expect("compiles")
}

fn paths_found(mut s: Search, files: &[&str]) -> Vec<String> {
    for f in files {
        file_into(&mut s, f, "needle\n");
    }
    results(s).0.into_iter().map(|m| m.path).collect()
}

#[test]
fn the_glob_filters_on_the_file_name() {
    let matches = paths_found(globbed(Some("*.rs"), None), &["src/main.rs", "src/notes.md"]);
    assert_eq!(matches.len(), 1);
    assert_eq!(matches[0], "src/main.rs");
}

#[test]
fn a_glob_with_a_slash_and_an_exclude_work_on_the_path() {
    let files = ["src/main/A.java", "src/test/B.java", "src/docs/c.adoc"];
    assert_eq!(paths_found(globbed(Some("src/main/**"), None), &files), ["src/main/A.java"]);
    let mut kept = paths_found(globbed(None, Some("src/docs/**")), &files);
    kept.sort();
    assert_eq!(kept, ["src/main/A.java", "src/test/B.java"]);
}

#[test]
fn a_cut_says_how_much_it_cut_and_what_was_not_searched() {
    let mut s = search("NEEDLE", Some(5), None);
    file_into(&mut s, "a.txt", &"NEEDLE\n".repeat(20));
    file_into(&mut s, "b.txt", "NEEDLE\n");
    let big = "NEEDLE\n".repeat(200_000);
    file_into(&mut s, "big.txt", &big);
    s.file("cp1251.txt", 4, &[0xCF, 0xF0, 0xE8, b'\n']);
    s.file("bin.dat", 3, &[0u8, 1, 2]);
    let ToolResult::GrepResults { matches, truncated, total, total_files, total_is_floor, mut skipped } = s.finish() else {
        panic!()
    };
    assert_eq!((matches.len(), truncated, total, total_files, total_is_floor), (5, true, 21, 2, false));
    skipped.sort();
    assert_eq!(skipped, ["big.txt", "cp1251.txt"]);
}

#[test]
fn an_empty_glob_filters_nothing() {
    let kept = paths_found(globbed(Some(""), Some("")), &["a.rs", "b/c.md"]);
    assert_eq!(kept, ["a.rs", "b/c.md"]);
}

#[test]
fn a_glob_that_does_not_compile_is_refused_after_the_regex() {
    assert!(matches!(
        Search::new("needle", None, None, None, Some("a[b"), None),
        Err(ToolError::InvalidPattern(_))
    ));
    assert!(matches!(
        Search::new("needle", None, None, None, None, Some("{x")),
        Err(ToolError::InvalidPattern(_))
    ));
    assert!(matches!(
        Search::new("(", None, None, None, Some("a[b"), None),
        Err(ToolError::InvalidRegex(_))
    ));
}

#[test]
fn the_path_filter_judges_each_file() {
    let f = PathFilter::new(Some("*.java"), Some("vendor/**")).expect("compiles");
    assert!(f.allows("src/B.java"));
    assert!(!f.allows("src/a.rs"));
    assert!(!f.allows("vendor/C.java"));
    assert!(PathFilter::everything().allows("anything/at/all"));
    assert!(PathFilter::new(Some("a[b"), None).is_err());
}

#[test]
fn a_filtered_selection_keeps_only_what_the_filter_allows() {
    let f = PathFilter::new(Some("*.java"), None).expect("compiles");
    let ranked = vec![
        cand("a1", "a.rs", MatchSource::Lexical),
        cand("b1", "b.java", MatchSource::Lexical),
        cand("c1", "c.py", MatchSource::Lexical),
    ];
    let (matches, docs, paths) = select_filtered(ranked, &f, 5, true);
    let kept: Vec<_> = matches.iter().map(|m| m.path.clone()).collect();
    assert_eq!(kept, ["b.java"]);
    assert_eq!((docs, paths), (0, 2));
}
