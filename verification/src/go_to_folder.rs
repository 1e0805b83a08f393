//! The "Go to Folder" prompt's decisions: which completion results are
//! still current, and what pressing Enter does with the typed path.

use vstd::prelude::*;

use crate::strings::{chars_of, trim, trim_seq};

verus! {

/// Completion results come back from a worker; a result is shown only if
/// no edit happened since it was asked for.
#[derive(Debug)]
pub struct CompletionGate {
    pub generation: u64,
}

impl CompletionGate {
    /// No request asked yet.
    pub fn new() -> (r: CompletionGate)
        ensures
            r.generation == 0,
    {
        CompletionGate { generation: 0 }
    }

    /// The text changed: a new request, whose generation is returned.
    /// Generations wrap around.
    pub fn begin_request(&mut self) -> (r: u64)
        ensures
            r == if old(self).generation == u64::MAX {
                0
            } else {
                (old(self).generation + 1) as u64
            },
            final(self).generation == r,
    {
        self.generation = if self.generation == u64::MAX {
            0
        } else {
            self.generation + 1
        };
        self.generation
    }

    /// Whether a result asked for at `generation` with text `asked` may be
    /// shown: no newer request, and the field still holds that text.
    pub fn accepts(&self, generation: u64, live: &str, asked: &str) -> (r: bool)
        ensures
            r == (self.generation == generation && live@ == asked@),
    {
        self.generation == generation && crate::strings::chars_eq(&chars_of(live), &chars_of(asked))
    }
}

/// What Enter does in the prompt.
#[derive(Debug)]
pub enum CommitAction {
    /// Nothing but blanks typed: just close.
    Close,
    /// Close and go to the typed path, as typed.
    Navigate(String),
}

/// The action for the typed text.
pub fn commit_action(raw: &str) -> (r: CommitAction)
    ensures
        match r {
            CommitAction::Close => trim_seq(raw@).len() == 0,
            CommitAction::Navigate(p) => trim_seq(raw@).len() > 0 && p@ == raw@,
        },
{
    let v = chars_of(raw);
    let t = trim(&v);
    if t.len() == 0 {
        CommitAction::Close
    } else {
        CommitAction::Navigate(crate::strings::string_of(&v))
    }
}

} // verus!
