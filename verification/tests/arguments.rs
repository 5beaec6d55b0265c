use kibo_agent::arguments::{argument_error, humanize_serde_error, json_input};
use kibo_agent::errors::ToolError;

#[test]
fn serde_vocabulary_is_rewritten_for_the_model() {
    let parse = serde_json::from_str::<Vec<String>>("\"not an array\"").expect_err("a string is not an array");
    let ToolError::InvalidArguments { tool, reason } = argument_error("editFile", &parse.to_string()) else {
        panic!("wrong error")
    };
    assert_eq!(tool, "editFile");
    assert!(reason.contains("JSON array"), "{reason}");
    assert!(!reason.contains("sequence"), "{reason}");
}

#[test]
fn missing_arguments_read_as_an_empty_object() {
    assert_eq!(json_input(""), "{}");
    assert_eq!(json_input("  \n"), "{}");
    assert_eq!(json_input(r#"{"path": "a"}"#), r#"{"path": "a"}"#);
}

#[test]
fn every_rust_type_is_said_as_json() {
    assert_eq!(
        humanize_serde_error("invalid type: string \"3\", expected u32 at line 1; expected u64; expected usize"),
        "invalid type: string \"3\", expected a number at line 1; expected a number; expected a number"
    );
    assert_eq!(humanize_serde_error("expected a map"), "expected a JSON object");
    assert_eq!(humanize_serde_error("nothing to change"), "nothing to change");
}
