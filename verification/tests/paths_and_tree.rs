use kibo_agent::errors::ToolError;
use kibo_agent::file_tree::render_file_tree;
use kibo_agent::listing::{list_files, MAX_ENTRIES};
use kibo_agent::tool_types::ToolResult;
use kibo_agent::resolve::{basename, ensure_under, join_relative, relative_to_root, resolve_existing, resolve_writable};
use kibo_agent::tool_types::ToolFileEntry;

fn comps(parts: &[&str]) -> Vec<String> {
    parts.iter().map(|s| s.to_string()).collect()
}

#[test]
fn the_tree_shows_nesting() {
    let entries = vec![
        ToolFileEntry { path: "src".into(), is_dir: true },
        ToolFileEntry { path: "src/main.rs".into(), is_dir: false },
        ToolFileEntry { path: "src/lib.rs".into(), is_dir: false },
        ToolFileEntry { path: "README.md".into(), is_dir: false },
    ];
    assert_eq!(
        render_file_tree(&entries, false),
        "./\n\
         ├── README.md\n\
         └── src/\n    \
             ├── lib.rs\n    \
             └── main.rs\n"
    );
}

#[test]
fn an_empty_directory_still_appears_in_the_tree() {
    let entries = vec![ToolFileEntry { path: "empty".into(), is_dir: true }];
    assert_eq!(render_file_tree(&entries, false), "./\n└── empty/\n");
}

#[test]
fn a_truncated_tree_says_how_to_narrow_it() {
    let entries = vec![ToolFileEntry { path: "a.txt".into(), is_dir: false }];
    let rendered = render_file_tree(&entries, true);
    assert!(rendered.contains("the listing is longer"), "{rendered}");
    assert!(rendered.contains("pattern"), "{rendered}");
}

#[test]
fn the_tree_does_not_depend_on_the_order_of_the_walk() {
    let a = vec![
        ToolFileEntry { path: "b/x.rs".into(), is_dir: false },
        ToolFileEntry { path: "a".into(), is_dir: true },
        ToolFileEntry { path: "b".into(), is_dir: true },
    ];
    let b = vec![
        ToolFileEntry { path: "b".into(), is_dir: true },
        ToolFileEntry { path: "a".into(), is_dir: true },
        ToolFileEntry { path: "b/x.rs".into(), is_dir: false },
    ];
    assert_eq!(render_file_tree(&a, false), render_file_tree(&b, false));
    assert_eq!(render_file_tree(&a, false), "./\n├── a/\n└── b/\n    └── x.rs\n");
}

#[test]
fn a_deep_path_implies_its_folders_and_the_note_counts_entries() {
    let entries = vec![ToolFileEntry { path: "a/b/c.txt".into(), is_dir: false }];
    assert_eq!(render_file_tree(&entries, false), "./\n└── a/\n    └── b/\n        └── c.txt\n");
    let rendered = render_file_tree(&entries, true);
    assert!(rendered.ends_with(
        "\n[showing the first 1 entries — the listing is longer. Narrow it with path, pattern (e.g. \"*.rs\") or depth.]\n"
    ));
}

#[test]
fn basename_takes_the_last_segment() {
    assert_eq!(basename("src/main.rs"), "main.rs");
    assert_eq!(basename("main.rs"), "main.rs");
    assert_eq!(basename(""), "");
}

#[test]
fn parent_traversal_is_refused() {
    let root = comps(&["repo"]);
    for attempt in ["..", "../secret", "src/../../secret", "a/b/../../../x", "a/../a/file.txt"] {
        assert!(
            matches!(join_relative(&root, attempt), Err(ToolError::PathEscape(p)) if p == attempt),
            "{attempt} was not refused"
        );
    }
}

#[test]
fn a_leading_slash_folds_back_under_the_root() {
    let root = comps(&["repo"]);
    assert_eq!(join_relative(&root, "/etc/passwd").unwrap(), comps(&["repo", "etc", "passwd"]));
    assert_eq!(join_relative(&root, "./src//main.rs").unwrap(), comps(&["repo", "src", "main.rs"]));
    assert_eq!(join_relative(&root, "").unwrap(), root);
    assert_eq!(join_relative(&root, ".").unwrap(), root);
    assert_eq!(join_relative(&root, "a\\b").unwrap(), comps(&["repo", "a", "b"]));
}

#[test]
fn a_drive_qualified_path_never_leaves_the_root() {
    let root = comps(&["repo"]);
    for attempt in [r"C:\Windows\win.ini", r"\\server\share\x", "C:/Windows/win.ini"] {
        match join_relative(&root, attempt) {
            Err(ToolError::PathEscape(_)) => {}
            Ok(path) => assert!(path.starts_with(&root), "{attempt} escaped to {path:?}"),
            Err(other) => panic!("{attempt}: unexpected {other:?}"),
        }
    }
}

#[test]
fn a_sibling_sharing_the_roots_name_prefix_is_refused() {
    let root = comps(&["tmp", "repo"]);
    let err = ensure_under(&root, comps(&["tmp", "repo-backup", "secret.txt"])).unwrap_err();
    assert_eq!(err, ToolError::PathEscape("/tmp/repo-backup/secret.txt".into()));
    assert!(ensure_under(&root, comps(&["tmp", "repo", "a"])).is_ok());
}

#[test]
fn resolving_says_missing_or_escaping() {
    let root = comps(&["repo"]);
    assert_eq!(
        resolve_existing(&root, "src/main.rs", comps(&["repo", "src", "main.rs"]), false),
        Err(ToolError::NotFound("src/main.rs".into()))
    );
    assert_eq!(
        resolve_writable(&root, "link/x", comps(&["elsewhere", "x"])),
        Err(ToolError::PathEscape("/elsewhere/x".into()))
    );
    assert_eq!(
        resolve_existing(&root, "a/b", comps(&["repo", "a", "b"]), true),
        Ok(comps(&["repo", "a", "b"]))
    );
}

#[test]
fn the_root_itself_is_relative_to_nothing() {
    let root = comps(&["repo"]);
    assert_eq!(relative_to_root(&root, &root).unwrap(), ".");
    assert_eq!(relative_to_root(&root, &comps(&["repo", "a", "b", "c", "d.txt"])).unwrap(), "a/b/c/d.txt");
    assert!(matches!(relative_to_root(&root, &comps(&["other"])), Err(ToolError::PathEscape(_))));
}

fn entry(path: &str, is_dir: bool) -> ToolFileEntry {
    ToolFileEntry { path: path.to_string(), is_dir }
}

fn listed(scan: Vec<ToolFileEntry>, pattern: Option<&str>) -> (Vec<ToolFileEntry>, bool) {
    match list_files(scan, pattern).expect("listing runs") {
        ToolResult::FileList { entries, truncated } => (entries, truncated),
        other => panic!("unexpected {other:?}"),
    }
}

fn paths(entries: &[ToolFileEntry]) -> Vec<&str> {
    entries.iter().map(|e| e.path.as_str()).collect()
}

#[test]
fn a_pattern_filters_files_but_keeps_directories() {
    let scan = vec![entry("src", true), entry("src/main.rs", false), entry("src/notes.md", false)];
    let (entries, _) = listed(scan, Some("*.rs"));
    assert_eq!(paths(&entries), ["src", "src/main.rs"]);
}

#[test]
fn a_pattern_nothing_matches_leaves_no_folders_behind() {
    let scan = vec![entry("src", true), entry("src/main.rs", false)];
    let (entries, _) = listed(scan, Some("*.xyz"));
    assert!(entries.is_empty(), "{:?}", paths(&entries));
}

#[test]
fn the_pattern_matches_at_any_depth() {
    let scan = vec![
        entry("a", true),
        entry("a/b", true),
        entry("a/b/c", true),
        entry("a/b/c/deep.rs", false),
    ];
    let (entries, _) = listed(scan, Some("*.rs"));
    assert!(paths(&entries).contains(&"a/b/c/deep.rs"));
}

#[test]
fn an_invalid_pattern_says_so() {
    assert!(matches!(list_files(vec![entry("a.txt", false)], Some("[")), Err(ToolError::InvalidPattern(_))));
}

#[test]
fn the_cap_applies_after_the_pattern_not_before() {
    let mut scan = vec![entry("noise", true)];
    for i in 0..(MAX_ENTRIES + 50) {
        scan.push(entry(&format!("noise/f{i}.txt"), false));
    }
    scan.push(entry("needle.rs", false));

    let (all, truncated) = listed(scan.clone(), None);
    assert_eq!(all.len(), MAX_ENTRIES);
    assert!(truncated);

    let (filtered, truncated) = listed(scan, Some("*.rs"));
    assert!(paths(&filtered).contains(&"needle.rs"), "narrowing must reach what the unfiltered cap cut off");
    assert!(!truncated);
}

#[test]
fn an_empty_pattern_is_no_pattern() {
    let scan = vec![entry("a.txt", false), entry("b.md", false)];
    let (entries, truncated) = listed(scan, Some(""));
    assert_eq!(paths(&entries), ["a.txt", "b.md"]);
    assert!(!truncated);
}

#[test]
fn resolves_a_path_inside_the_root() {
    let root = comps(&["tmp", "repo"]);
    let found = resolve_existing(&root, "src/main.rs", comps(&["tmp", "repo", "src", "main.rs"]), true).expect("resolves");
    assert_eq!(found, comps(&["tmp", "repo", "src", "main.rs"]));
    assert_eq!(relative_to_root(&root, &found).unwrap(), "src/main.rs");
}

#[test]
fn a_missing_file_is_not_found_rather_than_escaping() {
    let root = comps(&["tmp", "repo"]);
    assert!(matches!(
        resolve_existing(&root, "src/main.rs", comps(&["tmp", "repo", "src", "main.rs"]), false),
        Err(ToolError::NotFound(_))
    ));
}

#[test]
fn parent_traversal_is_refused_even_when_it_stays_inside() {
    let root = comps(&["tmp", "repo"]);
    assert!(
        matches!(
            resolve_existing(&root, "a/../a/file.txt", comps(&["tmp", "repo", "a", "file.txt"]), true),
            Err(ToolError::PathEscape(_))
        ),
        "an inward `..` was allowed — the explicit check is gone"
    );
}

#[test]
fn a_writable_target_deep_in_a_missing_tree_resolves() {
    let root = comps(&["tmp", "repo"]);
    let joined = join_relative(&root, "a/b/c/d.txt").expect("joins");
    let target = resolve_writable(&root, "a/b/c/d.txt", joined).expect("resolves");
    assert_eq!(target, comps(&["tmp", "repo", "a", "b", "c", "d.txt"]));
    assert_eq!(relative_to_root(&root, &target).unwrap(), "a/b/c/d.txt");
}

#[test]
fn a_joined_path_comes_back_as_it_was_written() {
    let root: Vec<String> = vec!["tmp".into(), "ws".into()];
    for (written, back) in [("a/b/c/d.txt", "a/b/c/d.txt"), ("/etc/passwd", "etc/passwd"), ("", "."), (".", "."), ("a\\b", "a/b"), ("./x//y", "x/y")] {
        let joined = join_relative(&root, written).expect("joins");
        assert_eq!(relative_to_root(&root, &joined).expect("under the root"), back, "{written}");
    }
}
