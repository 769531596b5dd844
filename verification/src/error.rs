//! Why a checkpoint is refused.

use crate::text::{decimal, decimal_text};
use vstd::prelude::*;

verus! {

/// A checkpoint that cannot be read, written or used. Its view is the reason.
#[derive(Debug)]
pub struct CheckpointError(String);

impl View for CheckpointError {
    type V = Seq<char>;

    closed spec fn view(&self) -> Seq<char> {
        self.0@
    }
}

/// `failed to <action> <subject>: <cause>`
pub open spec fn failure(action: Seq<char>, subject: Seq<char>, cause: Seq<char>) -> Seq<char> {
    "failed to "@ + action + " "@ + subject + ": "@ + cause
}

/// `unsupported version <version> in <path>`
pub open spec fn version_reason(version: u32, path: Seq<char>) -> Seq<char> {
    "unsupported version "@ + decimal(version as nat) + " in "@ + path
}

/// `unknown resource_type <name>`, with the name in quotes
pub open spec fn resource_type_reason(quoted: Seq<char>) -> Seq<char> {
    "unknown resource_type "@ + quoted
}

/// `read-only annotation tag <key> in <path>`, with the key in quotes
pub open spec fn read_only_reason(quoted: Seq<char>, path: Seq<char>) -> Seq<char> {
    "read-only annotation tag "@ + quoted + " in "@ + path
}

/// `duplicate annotation in <path>`
pub open spec fn duplicate_reason(path: Seq<char>) -> Seq<char> {
    "duplicate annotation in "@ + path
}

impl CheckpointError {
    /// An error for the given reason.
    pub fn new(reason: String) -> (error: Self)
        ensures
            error@ == reason@,
    {
        CheckpointError(reason)
    }

    /// An action on a file, or on what stands for it in `subject`, that failed.
    pub fn failed(action: &str, subject: &str, cause: &str) -> (error: Self)
        ensures
            error@ == failure(action@, subject@, cause@),
    {
        let mut reason: String = "failed to ".to_owned();
        reason.append(action);
        reason.append(" ");
        reason.append(subject);
        reason.append(": ");
        reason.append(cause);
        CheckpointError(reason)
    }

    /// A file of a version that cannot be read.
    pub fn unsupported_version(version: u32, path: &str) -> (error: Self)
        ensures
            error@ == version_reason(version, path@),
    {
        let mut reason: String = "unsupported version ".to_owned();
        reason.append(decimal_text(version).as_str());
        reason.append(" in ");
        reason.append(path);
        CheckpointError(reason)
    }

    /// A record about no known kind of resource.
    pub fn unknown_resource_type(quoted: &str) -> (error: Self)
        ensures
            error@ == resource_type_reason(quoted@),
    {
        let mut reason: String = "unknown resource_type ".to_owned();
        reason.append(quoted);
        CheckpointError(reason)
    }

    /// A record with a read-only tag.
    pub fn read_only_tag(quoted: &str, path: &str) -> (error: Self)
        ensures
            error@ == read_only_reason(quoted@, path@),
    {
        let mut reason: String = "read-only annotation tag ".to_owned();
        reason.append(quoted);
        reason.append(" in ");
        reason.append(path);
        CheckpointError(reason)
    }

    /// Two records with one key.
    pub fn duplicate(path: &str) -> (error: Self)
        ensures
            error@ == duplicate_reason(path@),
    {
        let mut reason: String = "duplicate annotation in ".to_owned();
        reason.append(path);
        CheckpointError(reason)
    }

    /// The message for a user.
    pub fn to_string(&self) -> (message: String)
        ensures
            message@ == "invalid annotation checkpoint: "@ + self@,
    {
        let mut message: String = "invalid annotation checkpoint: ".to_owned();
        message.append(self.0.as_str());
        message
    }
}

}
