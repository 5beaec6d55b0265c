use kibo_agent::errors::ToolError;
use kibo_agent::todo::{todo, TodoArgs, TodoUpdateStatus, MAX_TASKS};
use kibo_agent::tool_types::{Task, TodoStatus, ToolResult};

fn tasks(result: Result<ToolResult, ToolError>) -> Vec<Task> {
    match result.expect("the call succeeds") {
        ToolResult::Todo { tasks } => tasks,
        other => panic!("unexpected {other:?}"),
    }
}

fn titles(names: &[&str]) -> TodoArgs {
    TodoArgs::Write { tasks: names.iter().map(|s| s.to_string()).collect() }
}

fn done(id: Option<&str>) -> TodoArgs {
    TodoArgs::Update { id: id.map(str::to_string), status: TodoUpdateStatus::Completed, note: None }
}

fn state(tasks: &[Task]) -> Vec<(&str, TodoStatus)> {
    tasks.iter().map(|t| (t.id.as_str(), t.status)).collect()
}

#[test]
fn a_first_write_activates_the_first_task_and_no_other() {
    let mut todos = Vec::new();
    let out = tasks(todo(&mut todos, &titles(&["design it", "build it", "ship it"])));
    assert_eq!(
        state(&out),
        [("t1", TodoStatus::InProgress), ("t2", TodoStatus::Pending), ("t3", TodoStatus::Pending)]
    );
}

#[test]
fn a_later_write_appends_without_disturbing_the_active_task() {
    let mut todos = Vec::new();
    todo(&mut todos, &titles(&["first"])).unwrap();
    let out = tasks(todo(&mut todos, &titles(&["second"])));
    assert_eq!(state(&out), [("t1", TodoStatus::InProgress), ("t2", TodoStatus::Pending)]);
}

#[test]
fn a_write_after_a_finished_list_starts_a_new_one() {
    let mut todos = Vec::new();
    todo(&mut todos, &titles(&["a", "b"])).unwrap();
    todo(&mut todos, &done(None)).unwrap();

    let open = tasks(todo(&mut todos, &titles(&["c"])));
    assert_eq!(open.iter().map(|t| t.id.as_str()).collect::<Vec<_>>(), ["t1", "t2", "t3"], "b is open, so it appends");

    todo(&mut todos, &done(None)).unwrap();
    todo(
        &mut todos,
        &TodoArgs::Update { id: None, status: TodoUpdateStatus::Cancelled, note: Some("not needed".into()) },
    )
    .unwrap();
    let many: Vec<String> = (0..MAX_TASKS).map(|i| format!("task {i}")).collect();
    let fresh = tasks(todo(&mut todos, &TodoArgs::Write { tasks: many.clone() }));
    assert_eq!(fresh.len(), MAX_TASKS, "the closed tasks gave up their places");
    assert_eq!((fresh[0].id.as_str(), fresh[0].status), ("t4", TodoStatus::InProgress));
    assert_eq!(fresh.last().unwrap().id, format!("t{}", 3 + MAX_TASKS), "numbered on, never reused");

    for _ in 0..MAX_TASKS {
        todo(&mut todos, &done(None)).unwrap();
    }
    let third = tasks(todo(&mut todos, &titles(&["again"])));
    assert_eq!(third.iter().map(|t| t.id.clone()).collect::<Vec<_>>(), [format!("t{}", 4 + MAX_TASKS)]);
}

#[test]
fn ids_are_never_reused() {
    let mut todos = Vec::new();
    todo(&mut todos, &titles(&["a", "b"])).unwrap();
    todo(&mut todos, &done(Some("t1"))).unwrap();
    todo(&mut todos, &done(Some("t2"))).unwrap();
    let out = tasks(todo(&mut todos, &titles(&["c"])));
    assert_eq!(out.last().unwrap().id, "t3");
}

#[test]
fn completing_the_active_task_promotes_the_next() {
    let mut todos = Vec::new();
    todo(&mut todos, &titles(&["a", "b"])).unwrap();
    let out = tasks(todo(&mut todos, &done(None)));
    assert_eq!(state(&out), [("t1", TodoStatus::Completed), ("t2", TodoStatus::InProgress)]);
}

#[test]
fn an_update_without_an_id_means_the_active_task() {
    let mut todos = Vec::new();
    todo(&mut todos, &titles(&["a", "b"])).unwrap();
    todo(&mut todos, &done(None)).unwrap();
    let out = tasks(todo(&mut todos, &done(None)));
    assert_eq!(state(&out), [("t1", TodoStatus::Completed), ("t2", TodoStatus::Completed)]);
}

#[test]
fn a_cancelled_task_also_advances_the_list_and_keeps_its_reason() {
    let mut todos = Vec::new();
    todo(&mut todos, &titles(&["a", "b"])).unwrap();
    let out = tasks(todo(
        &mut todos,
        &TodoArgs::Update { id: None, status: TodoUpdateStatus::Cancelled, note: Some("not needed after all".into()) },
    ));
    assert_eq!(out[0].status, TodoStatus::Cancelled);
    assert_eq!(out[0].note.as_deref(), Some("not needed after all"));
    assert_eq!(out[1].status, TodoStatus::InProgress);
}

#[test]
fn a_finished_list_has_nothing_in_progress() {
    let mut todos = Vec::new();
    todo(&mut todos, &titles(&["only"])).unwrap();
    let out = tasks(todo(&mut todos, &done(None)));
    assert!(out.iter().all(|t| t.status != TodoStatus::InProgress));
}

#[test]
fn an_unknown_id_lists_the_real_ones() {
    let mut todos = Vec::new();
    todo(&mut todos, &titles(&["a"])).unwrap();
    let err = todo(&mut todos, &done(Some("t9"))).expect_err("no such task");
    assert!(matches!(err, ToolError::TaskNotFound { .. }));
    assert!(err.message().contains("t1"), "{}", err.message());
}

#[test]
fn updating_an_empty_checklist_says_how_to_start_one() {
    let mut todos = Vec::new();
    let err = todo(&mut todos, &done(None)).expect_err("nothing to update");
    assert!(err.message().contains("checklist is empty"), "{}", err.message());
}

#[test]
fn exceeding_the_cap_is_refused_and_changes_nothing() {
    let mut todos = Vec::new();
    let many: Vec<String> = (0..MAX_TASKS).map(|i| format!("task {i}")).collect();
    todo(&mut todos, &TodoArgs::Write { tasks: many }).unwrap();
    let err = todo(&mut todos, &titles(&["one too many"])).expect_err("over the cap");
    assert!(matches!(err, ToolError::TooManyTasks { max: MAX_TASKS, .. }));
    assert_eq!(todos.len(), MAX_TASKS, "the list is unchanged");
}

#[test]
fn a_failed_update_leaves_the_callers_list_alone() {
    let mut todos = Vec::new();
    todo(&mut todos, &titles(&["a"])).unwrap();
    let before = todos.clone();
    todo(&mut todos, &done(Some("t9"))).expect_err("no such task");
    assert_eq!(todos, before);
}

#[test]
fn at_most_one_task_is_ever_in_progress() {
    let mut todos = Vec::new();
    todo(&mut todos, &titles(&["a", "b", "c"])).unwrap();
    todo(&mut todos, &done(Some("t3"))).unwrap();
    todo(&mut todos, &titles(&["d"])).unwrap();
    let out = tasks(todo(&mut todos, &done(None)));
    assert_eq!(out.iter().filter(|t| t.status == TodoStatus::InProgress).count(), 1);
    assert_eq!(state(&out)[1], ("t2", TodoStatus::InProgress));
}
