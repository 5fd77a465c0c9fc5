//! The errors that a command can end with.

use vstd::prelude::*;
use vstd::string::StringExecFns;

verus! {

/// Why a command failed. Each variant carries the text that goes with it.
#[derive(Debug)]
pub enum PromptBankError {
    /// Reading or writing a file failed.
    Io(String),
    /// The backing file is not well-formed JSON.
    Json(String),
    /// No prompt has the given id or name.
    PromptNotFound(String),
    /// The text names no category.
    InvalidCategory(String),
    /// No place for the data could be found.
    Storage(String),
    /// The clipboard could not be written.
    Clipboard(String),
    /// What the user typed was rejected.
    InvalidInput(String),
}

pub type Result<T> = std::result::Result<T, PromptBankError>;

impl Clone for PromptBankError {
    fn clone(&self) -> (copy: Self)
        ensures
            copy == *self,
    {
        match self {
            PromptBankError::Io(s) => PromptBankError::Io(s.clone()),
            PromptBankError::Json(s) => PromptBankError::Json(s.clone()),
            PromptBankError::PromptNotFound(s) => PromptBankError::PromptNotFound(s.clone()),
            PromptBankError::InvalidCategory(s) => PromptBankError::InvalidCategory(s.clone()),
            PromptBankError::Storage(s) => PromptBankError::Storage(s.clone()),
            PromptBankError::Clipboard(s) => PromptBankError::Clipboard(s.clone()),
            PromptBankError::InvalidInput(s) => PromptBankError::InvalidInput(s.clone()),
        }
    }
}

impl PromptBankError {
    /// The words that introduce this kind of error in a message.
    pub open spec fn prefix(self) -> Seq<char> {
        match self {
            PromptBankError::Io(_) => "IO error: "@,
            PromptBankError::Json(_) => "JSON error: "@,
            PromptBankError::PromptNotFound(_) => "Prompt not found: "@,
            PromptBankError::InvalidCategory(_) => "Invalid prompt category: "@,
            PromptBankError::Storage(_) => "Storage error: "@,
            PromptBankError::Clipboard(_) => "Clipboard error: "@,
            PromptBankError::InvalidInput(_) => "Invalid input: "@,
        }
    }

    /// The text that the error carries.
    pub open spec fn detail(self) -> Seq<char> {
        match self {
            PromptBankError::Io(s) => s@,
            PromptBankError::Json(s) => s@,
            PromptBankError::PromptNotFound(s) => s@,
            PromptBankError::InvalidCategory(s) => s@,
            PromptBankError::Storage(s) => s@,
            PromptBankError::Clipboard(s) => s@,
            PromptBankError::InvalidInput(s) => s@,
        }
    }

    /// The message shown to the user: the kind's words, then the detail.
    pub fn to_string(&self) -> (message: String)
        ensures
            message@ == self.prefix() + self.detail(),
    {
        let (head, detail): (&str, &String) = match self {
            PromptBankError::Io(s) => ("IO error: ", s),
            PromptBankError::Json(s) => ("JSON error: ", s),
            PromptBankError::PromptNotFound(s) => ("Prompt not found: ", s),
            PromptBankError::InvalidCategory(s) => ("Invalid prompt category: ", s),
            PromptBankError::Storage(s) => ("Storage error: ", s),
            PromptBankError::Clipboard(s) => ("Clipboard error: ", s),
            PromptBankError::InvalidInput(s) => ("Invalid input: ", s),
        };
        let mut message = String::from_str(head);
        message.append(detail.as_str());
        message
    }
}

} // verus!
