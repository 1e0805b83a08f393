//! Inline-editing lifecycle, shared by every inline field: which target is
//! being edited, what it held before, and whether the edit is being
//! committed. The lifecycle is independent from filenames, so later fields
//! can reuse it without inheriting filesystem rules; the model stores no
//! filesystem data and performs no I/O.

use vstd::prelude::*;
use vstd::std_specs::cmp::PartialEqSpec;

verus! {

/// Identity of the first concrete inline field: a file-name cell. The tab
/// is part of the key, so a stale editor cannot appear over a
/// coincidentally equal node after a tab switch.
#[derive(Clone, Copy, Debug, Eq, PartialEq, Structural)]
pub struct FileNameEditTarget {
    pub tab_id: u64,
    pub node_id: u64,
}

/// The generic lifecycle shared by every inline editor.
#[derive(Clone, Copy, Debug, Eq, PartialEq, Structural)]
pub enum InlineEditPhase {
    Editing,
    Committing,
}

/// Validation belongs to the value adapter, not the editor chrome.
#[derive(Debug)]
pub enum InlineEditValidation {
    Valid,
    Error(String),
}

/// What a validation is, as a mathematical value.
pub enum ValidationV {
    Valid,
    Error(Seq<char>),
}

impl View for InlineEditValidation {
    type V = ValidationV;

    open spec fn view(&self) -> ValidationV {
        match self {
            InlineEditValidation::Valid => ValidationV::Valid,
            InlineEditValidation::Error(m) => ValidationV::Error(m@),
        }
    }
}

impl InlineEditValidation {
    /// A copy of this validation.
    pub fn duplicate(&self) -> (r: InlineEditValidation)
        ensures
            r@ == self@,
    {
        match self {
            InlineEditValidation::Valid => InlineEditValidation::Valid,
            InlineEditValidation::Error(m) => InlineEditValidation::Error(m.clone()),
        }
    }
}

/// One active edit. `K` identifies the semantic target; the lifecycle never
/// interprets it.
#[derive(Debug)]
pub struct InlineEditSession<K> {
    pub target: K,
    pub original: String,
    pub phase: InlineEditPhase,
    pub validation: InlineEditValidation,
}

/// At most one active edit per field family, so a repeated rename request
/// refocuses the existing editor instead of starting another.
#[derive(Debug)]
pub struct InlineEditModel<K> {
    session: Option<InlineEditSession<K>>,
}

/// Layout presets are presentation-only: a new field picks one without a
/// lifecycle of its own.
#[derive(Clone, Copy, Debug, Eq, PartialEq, Structural)]
pub enum InlineEditLayout {
    Row,
    Grid,
    AddressBar,
}

impl<K> InlineEditModel<K> {
    /// The active session, if any.
    pub closed spec fn session(&self) -> Option<InlineEditSession<K>> {
        self.session
    }

    /// No edit in progress.
    pub fn new() -> (r: InlineEditModel<K>)
        ensures
            r.session() is None,
    {
        InlineEditModel { session: None }
    }

    /// Start editing `target`, replacing any edit in progress.
    pub fn begin(&mut self, target: K, original: &str)
        ensures
            final(self).session() matches Some(s) && s.target == target && s.original@ == original@
                && s.phase == InlineEditPhase::Editing && s.validation@ == ValidationV::Valid,
    {
        self.session = Some(
            InlineEditSession {
                target,
                original: String::from_str(original),
                phase: InlineEditPhase::Editing,
                validation: InlineEditValidation::Valid,
            },
        );
    }

    /// End the edit; whether one was in progress.
    pub fn clear(&mut self) -> (r: bool)
        ensures
            r == old(self).session() is Some,
            final(self).session() is None,
    {
        let was = self.session.is_some();
        self.session = None;
        was
    }

    /// Whether an edit is in progress.
    pub fn is_active(&self) -> (r: bool)
        ensures
            r == self.session() is Some,
    {
        self.session.is_some()
    }
}

impl<K: PartialEq> InlineEditModel<K> {
    /// Whether the edit in progress is of `target`.
    pub fn is_target(&self, target: &K) -> (r: bool)
        ensures
            K::obeys_eq_spec() ==> r == (self.session() matches Some(s) && s.target.eq_spec(target)),
    {
        match &self.session {
            Some(s) => s.target == *target,
            None => false,
        }
    }

    /// Move the edit of `target` to another phase; false, and nothing
    /// changed, when `target` is not what is being edited.
    pub fn set_phase(&mut self, target: &K, phase: InlineEditPhase) -> (r: bool)
        ensures
            K::obeys_eq_spec() ==> r == (old(self).session() matches Some(s) && s.target.eq_spec(target)),
            r ==> (final(self).session() matches Some(s) && old(self).session() matches Some(o)
                && s.target == o.target && s.original == o.original && s.validation == o.validation
                && s.phase == phase),
            !r ==> final(self).session() == old(self).session(),
    {
        match &mut self.session {
            Some(s) => {
                if s.target == *target {
                    s.phase = phase;
                    true
                } else {
                    false
                }
            },
            None => false,
        }
    }

    /// Record the validation of the edit of `target`; false, and nothing
    /// changed, when `target` is not what is being edited.
    pub fn set_validation(&mut self, target: &K, validation: InlineEditValidation) -> (r: bool)
        ensures
            K::obeys_eq_spec() ==> r == (old(self).session() matches Some(s) && s.target.eq_spec(target)),
            r ==> (final(self).session() matches Some(s) && old(self).session() matches Some(o)
                && s.target == o.target && s.original == o.original && s.phase == o.phase
                && s.validation == validation),
            !r ==> final(self).session() == old(self).session(),
    {
        match &mut self.session {
            Some(s) => {
                if s.target == *target {
                    s.validation = validation;
                    true
                } else {
                    false
                }
            },
            None => false,
        }
    }
}

impl<K: Copy> InlineEditModel<K> {
    /// A copy of the session in progress.
    pub fn snapshot(&self) -> (r: Option<InlineEditSession<K>>)
        ensures
            r is Some == self.session() is Some,
            r matches Some(x) ==> (self.session() matches Some(s) && x.target == s.target
                && x.original@ == s.original@ && x.phase == s.phase && x.validation@ == s.validation@),
    {
        match &self.session {
            Some(s) => Some(
                InlineEditSession {
                    target: s.target,
                    original: s.original.clone(),
                    phase: s.phase,
                    validation: s.validation.duplicate(),
                },
            ),
            None => None,
        }
    }
}

/// Rename on click: the item was already selected and its label then got a
/// later plain single click. This decides only that the gesture qualifies;
/// the caller waits out the double-click interval before mounting the
/// editor, and a second click cancels it so Open wins.
pub fn should_begin_click_rename(
    already_selected: bool,
    editing: bool,
    click_count: usize,
    modified: bool,
) -> (r: bool)
    ensures
        r == (already_selected && !editing && click_count == 1 && !modified),
{
    already_selected && !editing && click_count == 1 && !modified
}

/// Whether one of the single-line surfaces owns Escape.
pub fn should_capture_inline_escape(name_focused: bool, path_focused: bool, filter_focused: bool) -> (r: bool)
    ensures
        r == (name_focused || path_focused || filter_focused),
{
    name_focused || path_focused || filter_focused
}

} // verus!
