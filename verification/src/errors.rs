//! Why a tool call failed, in terms the model can act on.

use vstd::prelude::*;

use crate::text::{decimal, join, push_decimal, push_joined};

verus! {

/// A file's line break.
#[derive(Debug, Clone, Copy, PartialEq, Eq, Structural)]
pub enum LineEnding {
    Lf,
    Crlf,
}

/// What went wrong with a tool call. Every variant goes back to the model as
/// the call's result, so it can correct itself.
#[derive(Debug, PartialEq, Eq)]
#[allow(inconsistent_fields)]
pub enum ToolError {
    NotFound(String),
    NotAFile(String),
    PathEscape(String),
    InvalidArguments { tool: String, reason: String },
    UnknownTool(String),
    NotOfferedInMode(String),
    FileNotRead(String),
    FileReadInPart(String),
    FileChangedSinceRead(String),
    DeleteNotReadInFull(String),
    AlreadyExists(String),
    DirectoryNotEmpty(String),
    EditTextNotFound { text: String, nearest: Option<(u32, String)> },
    EditTextAmbiguous(String, usize),
    EditInsideWord(String, String),
    EditLineEndings { file: LineEnding, edit: LineEnding },
    EditsOverlap,
    InEdit { index: usize, of: usize, reason: Box<ToolError> },
    TaskNotFound { id: String, available: Option<Vec<String>> },
    TooManyTasks { current: usize, adding: usize, max: usize },
    InvalidPattern(String),
    InvalidRegex(String),
    Git(String),
    Command(String),
    SearchUnavailable(String),
    Skill(String),
    McpToolFailed(String),
    McpUnavailable(String),
    BlockedByHook(String),
    Io(String),
}

/// A [`ToolError`] with its texts as character sequences.
#[allow(inconsistent_fields)]
pub enum ErrorView {
    NotFound(Seq<char>),
    NotAFile(Seq<char>),
    PathEscape(Seq<char>),
    InvalidArguments { tool: Seq<char>, reason: Seq<char> },
    UnknownTool(Seq<char>),
    NotOfferedInMode(Seq<char>),
    FileNotRead(Seq<char>),
    FileReadInPart(Seq<char>),
    FileChangedSinceRead(Seq<char>),
    DeleteNotReadInFull(Seq<char>),
    AlreadyExists(Seq<char>),
    DirectoryNotEmpty(Seq<char>),
    EditTextNotFound { text: Seq<char>, nearest: Option<(u32, Seq<char>)> },
    EditTextAmbiguous(Seq<char>, nat),
    EditInsideWord(Seq<char>, Seq<char>),
    EditLineEndings { file: LineEnding, edit: LineEnding },
    EditsOverlap,
    InEdit { index: nat, of: nat, reason: Box<ErrorView> },
    TaskNotFound { id: Seq<char>, available: Option<Seq<Seq<char>>> },
    TooManyTasks { current: nat, adding: nat, max: nat },
    InvalidPattern(Seq<char>),
    InvalidRegex(Seq<char>),
    Git(Seq<char>),
    Command(Seq<char>),
    SearchUnavailable(Seq<char>),
    Skill(Seq<char>),
    McpToolFailed(Seq<char>),
    McpUnavailable(Seq<char>),
    BlockedByHook(Seq<char>),
    Io(Seq<char>),
}

pub open spec fn strings_view(v: Seq<String>) -> Seq<Seq<char>> {
    v.map_values(|s: String| s@)
}

impl ToolError {
    pub open spec fn view_of(self) -> ErrorView
        decreases self,
    {
        match self {
            ToolError::NotFound(s) => ErrorView::NotFound(s@),
            ToolError::NotAFile(s) => ErrorView::NotAFile(s@),
            ToolError::PathEscape(s) => ErrorView::PathEscape(s@),
            ToolError::InvalidArguments { tool, reason } => ErrorView::InvalidArguments { tool: tool@, reason: reason@ },
            ToolError::UnknownTool(s) => ErrorView::UnknownTool(s@),
            ToolError::NotOfferedInMode(s) => ErrorView::NotOfferedInMode(s@),
            ToolError::FileNotRead(s) => ErrorView::FileNotRead(s@),
            ToolError::FileReadInPart(s) => ErrorView::FileReadInPart(s@),
            ToolError::FileChangedSinceRead(s) => ErrorView::FileChangedSinceRead(s@),
            ToolError::DeleteNotReadInFull(s) => ErrorView::DeleteNotReadInFull(s@),
            ToolError::AlreadyExists(s) => ErrorView::AlreadyExists(s@),
            ToolError::DirectoryNotEmpty(s) => ErrorView::DirectoryNotEmpty(s@),
            ToolError::EditTextNotFound { text, nearest } => ErrorView::EditTextNotFound {
                text: text@,
                nearest: match nearest {
                    Some((n, line)) => Some((n, line@)),
                    None => None,
                },
            },
            ToolError::EditTextAmbiguous(s, n) => ErrorView::EditTextAmbiguous(s@, n as nat),
            ToolError::EditInsideWord(s, w) => ErrorView::EditInsideWord(s@, w@),
            ToolError::EditLineEndings { file, edit } => ErrorView::EditLineEndings { file, edit },
            ToolError::EditsOverlap => ErrorView::EditsOverlap,
            ToolError::InEdit { index, of, reason } => ErrorView::InEdit {
                index: index as nat,
                of: of as nat,
                reason: Box::new((*reason).view_of()),
            },
            ToolError::TaskNotFound { id, available } => ErrorView::TaskNotFound {
                id: id@,
                available: match available {
                    Some(v) => Some(strings_view(v@)),
                    None => None,
                },
            },
            ToolError::TooManyTasks { current, adding, max } => ErrorView::TooManyTasks {
                current: current as nat,
                adding: adding as nat,
                max: max as nat,
            },
            ToolError::InvalidPattern(s) => ErrorView::InvalidPattern(s@),
            ToolError::InvalidRegex(s) => ErrorView::InvalidRegex(s@),
            ToolError::Git(s) => ErrorView::Git(s@),
            ToolError::Command(s) => ErrorView::Command(s@),
            ToolError::SearchUnavailable(s) => ErrorView::SearchUnavailable(s@),
            ToolError::Skill(s) => ErrorView::Skill(s@),
            ToolError::McpToolFailed(s) => ErrorView::McpToolFailed(s@),
            ToolError::McpUnavailable(s) => ErrorView::McpUnavailable(s@),
            ToolError::BlockedByHook(s) => ErrorView::BlockedByHook(s@),
            ToolError::Io(s) => ErrorView::Io(s@),
        }
    }
}

impl View for ToolError {
    type V = ErrorView;

    open spec fn view(&self) -> ErrorView {
        self.view_of()
    }
}

/// The name of a line break.
pub open spec fn ending_name(e: LineEnding) -> Seq<char> {
    match e {
        LineEnding::Lf => "LF"@,
        LineEnding::Crlf => "CRLF"@,
    }
}

/// Why a task was not found: what the checklist holds instead.
pub open spec fn task_not_found_text(id: Seq<char>, available: Option<Seq<Seq<char>>>) -> Seq<char> {
    match available {
        Some(ids) => if ids.len() == 0 {
            "there is no task to update: the checklist is empty — start one with op \"write\""@
        } else if id.len() == 0 {
            "no task is in progress — name one of: "@ + join(ids, ", "@)
        } else {
            "no task \""@ + id + "\" on the checklist — its ids are: "@ + join(ids, ", "@)
        },
        None => "no task \""@ + id + "\" on the checklist"@,
    }
}

/// The error as the model reads it.
pub open spec fn error_text(e: ErrorView) -> Seq<char>
    decreases e,
{
    match e {
        ErrorView::NotFound(p) => p + " does not exist"@,
        ErrorView::NotAFile(p) => p + " is not a file"@,
        ErrorView::PathEscape(p) => p + " is outside the workspace"@,
        ErrorView::InvalidArguments { tool, reason } => "invalid arguments for "@ + tool + ": "@ + reason,
        ErrorView::UnknownTool(n) => "there is no tool called "@ + n,
        ErrorView::NotOfferedInMode(n) => n + " is not available in this conversation mode"@,
        ErrorView::FileNotRead(p) => p
            + " has not been read in this turn — read it in full before changing it; an outline is not a read"@,
        ErrorView::FileReadInPart(p) => "only part of "@ + p
            + " has been read — read it in full before replacing it, or change the part you read with editFile"@,
        ErrorView::FileChangedSinceRead(p) => p
            + " changed on disk since it was read — read it again and reconcile before changing it"@,
        ErrorView::DeleteNotReadInFull(p) => p
            + " has not been read in full in this turn — read it whole before deleting it"@,
        ErrorView::AlreadyExists(p) => p + " already exists"@,
        ErrorView::DirectoryNotEmpty(p) => p
            + " is not empty — list it first, and pass recursive: true to delete it with everything in it"@,
        ErrorView::EditTextNotFound { text, nearest } => "edit text not found: "@ + text + match nearest {
            Some((n, line)) => "; the closest is line "@ + decimal(n as nat) + ": "@ + line,
            None => Seq::<char>::empty(),
        },
        ErrorView::EditTextAmbiguous(text, n) => "edit text matched "@ + decimal(n)
            + " times — add surrounding lines so it matches once: "@ + text,
        ErrorView::EditInsideWord(text, word) => "edit text "@ + text + " starts or ends inside the word "@ + word,
        ErrorView::EditLineEndings { file, edit } => "the file uses "@ + ending_name(file)
            + " line endings and the edit uses "@ + ending_name(edit),
        ErrorView::EditsOverlap => "two edits overlap — merge them into one"@,
        ErrorView::InEdit { index, of, reason } => "edit "@ + decimal(index) + " of "@ + decimal(of) + ": "@
            + error_text(*reason),
        ErrorView::TaskNotFound { id, available } => task_not_found_text(id, available),
        ErrorView::TooManyTasks { current, adding, max } => "the checklist would have "@ + decimal(
            current + adding,
        ) + " tasks, over the "@ + decimal(max) + " limit — drop or merge some"@,
        ErrorView::InvalidPattern(e) => "invalid glob pattern: "@ + e,
        ErrorView::InvalidRegex(e) => "invalid regular expression: "@ + e,
        ErrorView::Git(s) => s,
        ErrorView::Command(s) => s,
        ErrorView::SearchUnavailable(s) => "search is unavailable ("@ + s + ") — use grep instead"@,
        ErrorView::Skill(s) => s,
        ErrorView::McpToolFailed(s) => "the server's tool failed: "@ + s,
        ErrorView::McpUnavailable(s) => "the server is unavailable: "@ + s,
        ErrorView::BlockedByHook(s) => "a PreToolUse hook refused this call: "@ + s,
        ErrorView::Io(s) => s,
    }
}

fn push_ending(out: &mut String, e: LineEnding)
    ensures
        final(out)@ == old(out)@ + ending_name(e),
{
    match e {
        LineEnding::Lf => out.append("LF"),
        LineEnding::Crlf => out.append("CRLF"),
    }
}

fn push_task_not_found(out: &mut String, id: &String, available: &Option<Vec<String>>)
    ensures
        final(out)@ == old(out)@ + task_not_found_text(
            id@,
            match available {
                Some(v) => Some(strings_view(v@)),
                None => None,
            },
        ),
{
    match available {
        Some(ids) => {
            if ids.len() == 0 {
                out.append("there is no task to update: the checklist is empty — start one with op \"write\"");
            } else if id.as_str().unicode_len() == 0 {
                out.append("no task is in progress — name one of: ");
                push_joined(out, ids, ", ");
                assert(crate::text::strs_view(ids@) == strings_view(ids@));
            } else {
                out.append("no task \"");
                out.append(id.as_str());
                out.append("\" on the checklist — its ids are: ");
                push_joined(out, ids, ", ");
                assert(crate::text::strs_view(ids@) == strings_view(ids@));
            }
        },
        None => {
            out.append("no task \"");
            out.append(id.as_str());
            out.append("\" on the checklist");
        },
    }
}

impl ToolError {
    /// Appends the error as the model reads it.
    pub fn push_message(&self, out: &mut String)
        ensures
            final(out)@ == old(out)@ + error_text(self@),
        decreases self,
    {
        let ghost start = out@;
        match self {
            ToolError::NotFound(p) => {
                out.append(p.as_str());
                out.append(" does not exist");
            },
            ToolError::NotAFile(p) => {
                out.append(p.as_str());
                out.append(" is not a file");
            },
            ToolError::PathEscape(p) => {
                out.append(p.as_str());
                out.append(" is outside the workspace");
            },
            ToolError::InvalidArguments { tool, reason } => {
                out.append("invalid arguments for ");
                out.append(tool.as_str());
                out.append(": ");
                out.append(reason.as_str());
            },
            ToolError::UnknownTool(n) => {
                out.append("there is no tool called ");
                out.append(n.as_str());
            },
            ToolError::NotOfferedInMode(n) => {
                out.append(n.as_str());
                out.append(" is not available in this conversation mode");
            },
            ToolError::FileNotRead(p) => {
                out.append(p.as_str());
                out.append(
                    " has not been read in this turn — read it in full before changing it; an outline is not a read",
                );
            },
            ToolError::FileReadInPart(p) => {
                out.append("only part of ");
                out.append(p.as_str());
                out.append(
                    " has been read — read it in full before replacing it, or change the part you read with editFile",
                );
            },
            ToolError::FileChangedSinceRead(p) => {
                out.append(p.as_str());
                out.append(" changed on disk since it was read — read it again and reconcile before changing it");
            },
            ToolError::DeleteNotReadInFull(p) => {
                out.append(p.as_str());
                out.append(" has not been read in full in this turn — read it whole before deleting it");
            },
            ToolError::AlreadyExists(p) => {
                out.append(p.as_str());
                out.append(" already exists");
            },
            ToolError::DirectoryNotEmpty(p) => {
                out.append(p.as_str());
                out.append(" is not empty — list it first, and pass recursive: true to delete it with everything in it");
            },
            ToolError::EditTextNotFound { text, nearest } => {
                out.append("edit text not found: ");
                out.append(text.as_str());
                match nearest {
                    Some((n, line)) => {
                        out.append("; the closest is line ");
                        push_decimal(out, *n as u128);
                        out.append(": ");
                        out.append(line.as_str());
                    },
                    None => {},
                }
            },
            ToolError::EditTextAmbiguous(text, n) => {
                out.append("edit text matched ");
                push_decimal(out, *n as u128);
                out.append(" times — add surrounding lines so it matches once: ");
                out.append(text.as_str());
            },
            ToolError::EditInsideWord(text, word) => {
                out.append("edit text ");
                out.append(text.as_str());
                out.append(" starts or ends inside the word ");
                out.append(word.as_str());
            },
            ToolError::EditLineEndings { file, edit } => {
                out.append("the file uses ");
                push_ending(out, *file);
                out.append(" line endings and the edit uses ");
                push_ending(out, *edit);
            },
            ToolError::EditsOverlap => {
                out.append("two edits overlap — merge them into one");
            },
            ToolError::InEdit { index, of, reason } => {
                out.append("edit ");
                push_decimal(out, *index as u128);
                out.append(" of ");
                push_decimal(out, *of as u128);
                out.append(": ");
                let r: &ToolError = reason;
                r.push_message(out);
            },
            ToolError::TaskNotFound { id, available } => {
                push_task_not_found(out, id, available);
            },
            ToolError::TooManyTasks { current, adding, max } => {
                out.append("the checklist would have ");
                push_decimal(out, *current as u128 + *adding as u128);
                out.append(" tasks, over the ");
                push_decimal(out, *max as u128);
                out.append(" limit — drop or merge some");
            },
            ToolError::InvalidPattern(e) => {
                out.append("invalid glob pattern: ");
                out.append(e.as_str());
            },
            ToolError::InvalidRegex(e) => {
                out.append("invalid regular expression: ");
                out.append(e.as_str());
            },
            ToolError::Git(s) => out.append(s.as_str()),
            ToolError::Command(s) => out.append(s.as_str()),
            ToolError::SearchUnavailable(s) => {
                out.append("search is unavailable (");
                out.append(s.as_str());
                out.append(") — use grep instead");
            },
            ToolError::Skill(s) => out.append(s.as_str()),
            ToolError::McpToolFailed(s) => {
                out.append("the server's tool failed: ");
                out.append(s.as_str());
            },
            ToolError::McpUnavailable(s) => {
                out.append("the server is unavailable: ");
                out.append(s.as_str());
            },
            ToolError::BlockedByHook(s) => {
                out.append("a PreToolUse hook refused this call: ");
                out.append(s.as_str());
            },
            ToolError::Io(s) => out.append(s.as_str()),
        }
        assert(out@ =~= start + error_text(self@));
    }

    /// The error as the model reads it.
    pub fn message(&self) -> (s: String)
        ensures
            s@ == error_text(self@),
    {
        let mut s = String::new();
        self.push_message(&mut s);
        s
    }
}

} // verus!
