//! The decisions of a coding agent's tool layer, verified.

pub mod text;
pub mod tool_types;
pub mod errors;
pub mod arguments;
pub mod edit_file;
pub mod todo;
pub mod model_text;
pub mod file_tree;
pub mod listing;
pub mod read_file;
pub mod resolve;
pub mod llm_chat;
pub mod grep;
pub mod code_search;
pub mod tools;
pub mod index;
pub mod git;
pub mod tool_defs;
pub mod guards;
pub mod directories;
