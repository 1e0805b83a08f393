//! The editor window's session: the revision of the edits against the
//! last saved one, the save and close protocol around it, and the
//! single-flight preview compositing that always converges on the newest
//! revision.

use vstd::prelude::*;

verus! {

/// An editing session. `rev` moves on with every visible change (a
/// committed stroke, an undo, a brush stroke in progress); `saved_rev` is
/// the revision the last successful save wrote. `composited` is the
/// revision the current preview shows, if any.
#[derive(Clone, Copy, Debug, PartialEq, Eq, Structural)]
pub struct EditSession {
    pub rev: u64,
    pub saved_rev: u64,
    pub strokes: usize,
    pub ready: bool,
    pub saving: bool,
    pub allow_close: bool,
    pub compose_inflight: bool,
    pub composited: Option<u64>,
}

/// What closing the window amounts to.
#[derive(Clone, Copy, Debug, PartialEq, Eq, Structural)]
pub enum CloseStep {
    /// Close now.
    Close,
    /// Ask first: discard, cancel, or save a copy and close.
    Prompt,
}

impl EditSession {
    /// Whether there are edits the last save did not write.
    pub open spec fn is_dirty(self) -> bool {
        self.rev != self.saved_rev
    }

    /// Whether a save may start: the image is loaded, it has strokes, and
    /// no save is running.
    pub open spec fn can_save(self) -> bool {
        self.ready && self.strokes > 0 && !self.saving
    }

    /// After a committed stroke.
    pub open spec fn committed(self) -> EditSession {
        EditSession { rev: (self.rev + 1) as u64, strokes: (self.strokes + 1) as usize, ..self }
    }

    /// After a change to the preview with no new stroke.
    pub open spec fn touched(self) -> EditSession {
        EditSession { rev: (self.rev + 1) as u64, ..self }
    }

    /// After an undo: the last stroke gone, or nothing when there is none.
    pub open spec fn undone(self) -> EditSession {
        if self.strokes > 0 {
            EditSession { rev: (self.rev + 1) as u64, strokes: (self.strokes - 1) as usize, ..self }
        } else {
            self
        }
    }

    /// After asking to save: the session, and the revision the save
    /// writes if it starts.
    pub open spec fn save_begun(self) -> (EditSession, Option<u64>) {
        if self.can_save() {
            (EditSession { saving: true, ..self }, Some(self.rev))
        } else {
            (self, None)
        }
    }

    /// After a save of `rev` ended (`ok` when written): the session, and
    /// whether the window closes now.
    pub open spec fn save_finished(self, ok: bool, rev: u64, close_after: bool) -> (EditSession, bool) {
        let closes = ok && close_after && self.rev == rev;
        (
            EditSession {
                saving: false,
                saved_rev: if ok {
                    rev
                } else {
                    self.saved_rev
                },
                allow_close: self.allow_close || closes,
                ..self
            },
            closes,
        )
    }

    /// What asking to close answers.
    pub open spec fn close_step(self) -> CloseStep {
        if self.is_dirty() && !self.allow_close {
            CloseStep::Prompt
        } else {
            CloseStep::Close
        }
    }

    /// After asking for a composite: the session, and the revision to
    /// composite if one starts.
    pub open spec fn compose_begun(self, has_display: bool) -> (EditSession, Option<u64>) {
        if !self.compose_inflight && has_display && self.composited != Some(self.rev) {
            (EditSession { compose_inflight: true, ..self }, Some(self.rev))
        } else {
            (self, None)
        }
    }

    /// After a composite of `rev` landed: the session, and whether to
    /// composite again.
    pub open spec fn compose_finished(self, rev: u64) -> (EditSession, bool) {
        (EditSession { compose_inflight: false, composited: Some(rev), ..self }, self.rev != rev)
    }

    /// A fresh session for an image still loading.
    pub fn new() -> (r: EditSession)
        ensures
            r == (EditSession {
                rev: 0,
                saved_rev: 0,
                strokes: 0,
                ready: false,
                saving: false,
                allow_close: false,
                compose_inflight: false,
                composited: None,
            }),
    {
        EditSession {
            rev: 0,
            saved_rev: 0,
            strokes: 0,
            ready: false,
            saving: false,
            allow_close: false,
            compose_inflight: false,
            composited: None,
        }
    }

    /// The image decoded and can be edited.
    pub fn loaded(&mut self)
        ensures
            *final(self) == (EditSession { ready: true, ..*old(self) }),
    {
        self.ready = true;
    }

    /// Whether there are unsaved edits.
    pub fn dirty(&self) -> (r: bool)
        ensures
            r == self.is_dirty(),
    {
        self.rev != self.saved_rev
    }

    /// A stroke was committed.
    pub fn commit_stroke(&mut self)
        requires
            old(self).rev < u64::MAX,
            old(self).strokes < usize::MAX,
        ensures
            *final(self) == old(self).committed(),
    {
        self.strokes = self.strokes + 1;
        self.rev = self.rev + 1;
    }

    /// The preview changed without a new stroke: a brush stroke grew, or
    /// a degenerate rectangle was dropped.
    pub fn touch(&mut self)
        requires
            old(self).rev < u64::MAX,
        ensures
            *final(self) == old(self).touched(),
    {
        self.rev = self.rev + 1;
    }

    /// Undo the last stroke, if there is one; whether one was undone.
    pub fn undo(&mut self) -> (r: bool)
        requires
            old(self).rev < u64::MAX,
        ensures
            r == (old(self).strokes > 0),
            *final(self) == old(self).undone(),
    {
        if self.strokes > 0 {
            self.strokes = self.strokes - 1;
            self.rev = self.rev + 1;
            true
        } else {
            false
        }
    }

    /// Whether the overwrite confirmation may be offered.
    pub fn overwrite_allowed(&self) -> (r: bool)
        ensures
            r == self.can_save(),
    {
        !self.saving && self.ready && self.strokes > 0
    }

    /// Start a save, if one may start: the revision it writes.
    pub fn begin_save(&mut self) -> (r: Option<u64>)
        ensures
            (*final(self), r) == old(self).save_begun(),
    {
        if self.saving || !self.ready || self.strokes == 0 {
            return None;
        }
        self.saving = true;
        Some(self.rev)
    }

    /// A save of revision `rev` ended, `ok` when it was written. Whether
    /// the window closes now: only when asked to (`close_after`), after a
    /// successful save that left nothing unsaved.
    pub fn finish_save(&mut self, ok: bool, rev: u64, close_after: bool) -> (r: bool)
        ensures
            (*final(self), r) == old(self).save_finished(ok, rev, close_after),
    {
        self.saving = false;
        if ok {
            self.saved_rev = rev;
            if close_after && self.rev == rev {
                self.allow_close = true;
                return true;
            }
        }
        false
    }

    /// Asked to close: prompt while there are unsaved edits the user has
    /// not agreed to discard.
    pub fn request_close(&self) -> (r: CloseStep)
        ensures
            r == self.close_step(),
    {
        if self.rev != self.saved_rev && !self.allow_close {
            CloseStep::Prompt
        } else {
            CloseStep::Close
        }
    }

    /// The user chose to discard the edits; the window may close.
    pub fn discard(&mut self)
        ensures
            *final(self) == (EditSession { allow_close: true, ..*old(self) }),
    {
        self.allow_close = true;
    }

    /// Start compositing the preview, given whether the display copy is
    /// there: the revision to composite, or nothing when a composite is
    /// running, there is nothing to draw on, or the preview is current.
    pub fn begin_compose(&mut self, has_display: bool) -> (r: Option<u64>)
        ensures
            (*final(self), r) == old(self).compose_begun(has_display),
    {
        if self.compose_inflight || !has_display {
            return None;
        }
        match self.composited {
            Some(c) => if c == self.rev {
                return None;
            },
            None => {},
        }
        self.compose_inflight = true;
        Some(self.rev)
    }

    /// A composite of revision `rev` landed; whether to composite again
    /// because the edits moved on meanwhile.
    pub fn finish_compose(&mut self, rev: u64) -> (r: bool)
        ensures
            (*final(self), r) == old(self).compose_finished(rev),
    {
        self.compose_inflight = false;
        self.composited = Some(rev);
        self.rev != rev
    }
}

/// A save that starts writes the current revision; when it succeeds with
/// no edit made meanwhile, nothing is left unsaved, closing needs no
/// prompt, and a window asked to close after saving closes.
pub proof fn lemma_saved_session_is_clean(s: EditSession, close_after: bool)
    requires
        s.can_save(),
    ensures
        ({
            let (s1, r) = s.save_begun();
            let (s2, closes) = s1.save_finished(true, r->0, close_after);
            &&& r == Some(s.rev)
            &&& !s2.is_dirty()
            &&& s2.close_step() == CloseStep::Close
            &&& closes == close_after
        }),
{
}

/// An edit made while a save runs stays unsaved: the window does not
/// close after the save, and asking to close prompts (unless discarding
/// was already chosen).
pub proof fn lemma_edit_during_save_stays_dirty(s: EditSession, close_after: bool)
    requires
        s.can_save(),
        s.rev < u64::MAX,
        s.strokes < usize::MAX,
        !s.allow_close,
    ensures
        ({
            let (s1, r) = s.save_begun();
            let (s2, closes) = s1.committed().save_finished(true, r->0, close_after);
            &&& s2.is_dirty()
            &&& !closes
            &&& s2.close_step() == CloseStep::Prompt
        }),
{
}

/// The preview converges on the newest revision: a composite finishing
/// after the edits moved on asks for another, which then starts at the
/// newest revision; one finishing with nothing new leaves the preview
/// current, so no other starts.
pub proof fn lemma_preview_converges(s: EditSession, edits: bool)
    requires
        !s.compose_inflight,
        s.composited != Some(s.rev),
        s.rev < u64::MAX,
    ensures
        ({
            let (s1, r) = s.compose_begun(true);
            let s2 = if edits { s1.touched() } else { s1 };
            let (s3, again) = s2.compose_finished(r->0);
            let (s4, next) = s3.compose_begun(true);
            &&& again == edits
            &&& edits ==> next == Some(s2.rev)
            &&& !edits ==> next is None
        }),
{
}

} // verus!
