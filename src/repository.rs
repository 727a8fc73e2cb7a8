use vstd::prelude::*;

use crate::error::Error;
use crate::text::{chars_of, split_once, split_once_chars, string_of, trim, trim_chars};

verus! {

/// A structured commit message.
#[derive(Debug, PartialEq)]
pub struct CommitMessage {
    pub commit_type: String,
    pub scope: Option<String>,
    pub message: String,
}

/// The mathematical content of a `CommitMessage`.
pub struct CommitMessageView {
    pub commit_type: Seq<char>,
    pub scope: Option<Seq<char>>,
    pub message: Seq<char>,
}

impl View for CommitMessage {
    type V = CommitMessageView;

    open spec fn view(&self) -> CommitMessageView {
        CommitMessageView {
            commit_type: self.commit_type@,
            scope: self.scope.deep_view(),
            message: self.message@,
        }
    }
}

/// The header of a reply: the text before its first `':'`, trimmed.
pub open spec fn reply_header(t: Seq<char>) -> Seq<char> {
    trim(split_once(t, ':').0)
}

/// The subject of a reply: the text after its first `':'`, trimmed; empty without a `':'`.
pub open spec fn reply_message(t: Seq<char>) -> Seq<char> {
    match split_once(t, ':').1 {
        Some(m) => trim(m),
        None => seq![],
    }
}

/// The type of a reply: its header up to the first `'('`.
pub open spec fn reply_type(t: Seq<char>) -> Seq<char> {
    split_once(reply_header(t), '(').0
}

/// The scope of a reply: what follows the first `'('` of its header, without
/// a trailing `')'` if there is one; no scope when the header has no `'('`.
pub open spec fn reply_scope(t: Seq<char>) -> Option<Seq<char>> {
    match split_once(reply_header(t), '(').1 {
        Some(r) => if r.len() > 0 && r.last() == ')' {
            Some(r.drop_last())
        } else {
            Some(r)
        },
        None => None,
    }
}

/// The commit message read out of a reply of the shape `type(scope): subject`.
pub open spec fn parse_reply(t: Seq<char>) -> CommitMessageView {
    CommitMessageView {
        commit_type: reply_type(t),
        scope: reply_scope(t),
        message: reply_message(t),
    }
}

/// Reads a commit message out of a provider's reply, leniently: the text is
/// split once at the first `':'` into a header and a subject (both trimmed),
/// and the header once at the first `'('` into a type and a scope, whose
/// trailing `')'`, if present, is dropped.
pub fn parse_commit_message(text: &str) -> (r: CommitMessage)
    ensures
        r@ == parse_reply(text@),
{
    let cs = chars_of(text);
    let (head, rest) = split_once_chars(&cs, ':');
    let header = trim_chars(&head);
    let message = match rest {
        Some(m) => trim_chars(&m),
        None => {
            let empty: Vec<char> = Vec::new();
            assert(empty@ =~= seq![]);
            empty
        },
    };
    assert(message@ == reply_message(text@));
    let (ty, sc) = split_once_chars(&header, '(');
    let scope = match sc {
        Some(mut s) => {
            let n = s.len();
            if n > 0 && s[n - 1] == ')' {
                s.pop();
            }
            Some(string_of(s))
        },
        None => None,
    };
    let r = CommitMessage { commit_type: string_of(ty), scope, message: string_of(message) };
    assert(r.scope.deep_view() == reply_scope(text@));
    r
}

/// A language-model backend that turns a diff into a commit message.
pub trait AIProvider {
    /// Analyzes a diff and returns a structured commit message.
    fn analyze_diff(&self, diff: &str) -> Result<CommitMessage, Error>;
}

} // verus!
