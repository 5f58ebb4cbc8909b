//! The ways in which an operation on the store can fail.

use vstd::prelude::*;
use vstd::string::StringExecFns;

verus! {

/// What a `BookmarkError` is to a contract: its kind, with the texts it carries.
pub enum Failure {
    NotFound { name: Seq<char> },
    DuplicateName { name: Seq<char>, path: Seq<char> },
    InvalidPath { name: Seq<char>, path: Seq<char> },
    Io { reason: Seq<char> },
    Decode { reason: Seq<char> },
}

impl Failure {
    /// The one-line message that reports this failure.
    pub open spec fn message(self) -> Seq<char> {
        match self {
            Failure::NotFound { name } => name + " is not found."@,
            Failure::DuplicateName { name, path } => name + " is already registered. ("@ + name
                + " = "@ + path + ")"@,
            Failure::InvalidPath { name, path } => name + " ("@ + path
                + ") is invalid directory path"@,
            Failure::Io { reason } => reason,
            Failure::Decode { reason } => reason,
        }
    }
}

/// A failed operation, with the name and path it concerns.
#[derive(Debug, Clone, PartialEq, Eq)]
pub enum BookmarkError {
    /// No bookmark has the name.
    NotFound { name: String },
    /// The name is taken already; `path` is the directory it stands for.
    DuplicateName { name: String, path: String },
    /// The path is missing or is no directory.
    InvalidPath { name: String, path: String },
    /// The storage file is there and could not be read or written.
    Io { reason: String },
    /// The storage file does not hold a list of bookmarks.
    Decode { reason: String },
}

impl View for BookmarkError {
    type V = Failure;

    open spec fn view(&self) -> Failure {
        match self {
            BookmarkError::NotFound { name } => Failure::NotFound { name: name@ },
            BookmarkError::DuplicateName { name, path } => Failure::DuplicateName {
                name: name@,
                path: path@,
            },
            BookmarkError::InvalidPath { name, path } => Failure::InvalidPath {
                name: name@,
                path: path@,
            },
            BookmarkError::Io { reason } => Failure::Io { reason: reason@ },
            BookmarkError::Decode { reason } => Failure::Decode { reason: reason@ },
        }
    }
}

impl BookmarkError {
    /// The one-line message for the user.
    pub fn message(&self) -> (text: String)
        ensures
            text@ == self@.message(),
    {
        match self {
            BookmarkError::NotFound { name } => {
                let mut text = name.clone();
                text.append(" is not found.");
                text
            },
            BookmarkError::DuplicateName { name, path } => {
                let mut text = name.clone();
                text.append(" is already registered. (");
                text.append(name.as_str());
                text.append(" = ");
                text.append(path.as_str());
                text.append(")");
                text
            },
            BookmarkError::InvalidPath { name, path } => {
                let mut text = name.clone();
                text.append(" (");
                text.append(path.as_str());
                text.append(") is invalid directory path");
                text
            },
            BookmarkError::Io { reason } => reason.clone(),
            BookmarkError::Decode { reason } => reason.clone(),
        }
    }
}

} // verus!
