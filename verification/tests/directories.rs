use kibo_agent::directories::{create_directory, delete_directory, move_path};
use kibo_agent::errors::ToolError;
use kibo_agent::resolve::{join_relative, resolve_existing, resolve_writable};
use kibo_agent::tool_types::ToolResult;

fn comps(parts: &[&str]) -> Vec<String> {
    parts.iter().map(|s| s.to_string()).collect()
}

#[test]
fn creates_the_directory_and_any_missing_parents() {
    let result = create_directory("a/b/c", false, "a/b/c".into()).expect("creates");
    assert!(matches!(result, ToolResult::DirectoryCreated { ref path } if path == "a/b/c"));
}

#[test]
fn creating_over_something_that_exists_is_refused() {
    assert!(matches!(create_directory("taken", true, "taken".into()), Err(ToolError::AlreadyExists(p)) if p == "taken"));
}

#[test]
fn create_directory_a_path_leaving_the_root_is_refused() {
    let root = comps(&["repo"]);
    assert!(matches!(join_relative(&root, "../outside"), Err(ToolError::PathEscape(_))));
}

#[test]
fn removes_an_empty_directory() {
    let root = comps(&["repo"]);
    let (result, tree) = delete_directory("empty", &root, &comps(&["repo", "empty"]), true, true, None).expect("removes");
    assert!(matches!(result, ToolResult::DirectoryDeleted { ref path } if path == "empty"));
    assert!(!tree);
}

#[test]
fn a_directory_with_contents_needs_recursive_said_out_loud() {
    let root = comps(&["repo"]);
    let err = delete_directory("full", &root, &comps(&["repo", "full"]), true, false, None).expect_err("not empty");
    assert!(matches!(err, ToolError::DirectoryNotEmpty(_)));
    assert!(err.message().contains("recursive"), "{}", err.message());
}

#[test]
fn recursive_removes_the_whole_subtree() {
    let root = comps(&["repo"]);
    let (_, tree) = delete_directory("full", &root, &comps(&["repo", "full"]), true, false, Some(true)).expect("removes");
    assert!(tree);
}

#[test]
fn the_root_itself_can_never_be_deleted() {
    let root = comps(&["repo"]);
    for path in [".", ""] {
        let resolved = join_relative(&root, path).expect("the root joins");
        assert!(delete_directory(path, &root, &resolved, true, false, Some(true)).is_err(), "{path:?} was accepted");
    }
}

#[test]
fn delete_directory_a_path_leaving_the_root_is_refused() {
    let root = comps(&["repo"]);
    assert!(matches!(
        resolve_existing(&root, "../outside", comps(&["outside"]), true),
        Err(ToolError::PathEscape(_))
    ));
}

#[test]
fn a_file_is_not_a_directory_to_delete() {
    let root = comps(&["repo"]);
    assert_eq!(
        delete_directory("a.txt", &root, &comps(&["repo", "a.txt"]), false, true, None),
        Err(ToolError::NotFound("a.txt".into()))
    );
}

#[test]
fn moving_onto_an_existing_path_is_refused() {
    let err = move_path("b.txt", true, "a.txt".into(), "b.txt".into()).expect_err("occupied");
    assert!(matches!(err, ToolError::AlreadyExists(p) if p == "b.txt"));
}

#[test]
fn moving_something_that_is_not_there_is_refused() {
    let root = comps(&["repo"]);
    assert!(matches!(
        resolve_existing(&root, "nope.txt", comps(&["repo", "nope.txt"]), false),
        Err(ToolError::NotFound(_))
    ));
}

#[test]
fn neither_end_may_leave_the_root() {
    let root = comps(&["repo"]);
    assert!(matches!(resolve_writable(&root, "../b.txt", comps(&["b.txt"])), Err(ToolError::PathEscape(_))));
    assert!(matches!(resolve_existing(&root, "../a.txt", comps(&["a.txt"]), true), Err(ToolError::PathEscape(_))));
}

#[test]
fn moving_an_unread_file_is_allowed() {
    assert_eq!(
        move_path("b.txt", false, "a.txt".into(), "b.txt".into()),
        Ok(ToolResult::Moved { from: "a.txt".into(), to: "b.txt".into() })
    );
}
