//! Viewport-driven background work: the rows around the visible range
//! whose details are derived or whose thumbnails are fetched, and the
//! single-flight protocol that keeps at most one detail scan running and
//! drops results that land after the rows changed.

use vstd::prelude::*;

use crate::file_list::FileEntry;

verus! {

/// Rows beyond each edge of the viewport whose details are derived too.
pub const DETAIL_OVERSCAN: usize = 16;

/// Rows beyond each edge of the viewport whose thumbnails are fetched too.
pub const THUMB_OVERSCAN: usize = 8;

/// The rows `start..end` widened by `overscan` on each side and clipped to
/// the listing.
pub open spec fn window_spec(start: int, end: int, overscan: int, rows: int) -> (int, int) {
    (
        if start >= overscan {
            start - overscan
        } else {
            0
        },
        if end + overscan <= rows {
            end + overscan
        } else {
            rows
        },
    )
}

/// Widen the visible rows by `overscan` on each side, clipped to the
/// listing's `rows`.
pub fn overscan_window(start: usize, end: usize, overscan: usize, rows: usize) -> (r: (usize, usize))
    ensures
        (r.0 as int, r.1 as int) == window_spec(start as int, end as int, overscan as int, rows as int),
{
    let lo = start.saturating_sub(overscan);
    let far = end.saturating_add(overscan);
    let hi = if far <= rows {
        far
    } else {
        rows
    };
    (lo, hi)
}

/// The rows of `lo..i` whose details are not loaded yet and whose path is
/// known, in order.
pub open spec fn detail_rows_upto(loaded: Seq<bool>, known: Seq<bool>, lo: int, i: int) -> Seq<usize>
    decreases i - lo,
{
    if i <= lo {
        Seq::empty()
    } else {
        let rest = detail_rows_upto(loaded, known, lo, i - 1);
        if !loaded[i - 1] && known[i - 1] {
            rest.push((i - 1) as usize)
        } else {
            rest
        }
    }
}

/// The rows of the window `start..end` a detail scan seeds: those whose
/// details are not loaded yet and whose path is known (`loaded` and
/// `known` parallel to the rows).
pub fn detail_seed_rows(loaded: &[bool], known: &[bool], start: usize, end: usize) -> (r: Vec<usize>)
    requires
        known@.len() == loaded@.len(),
        start <= end <= loaded@.len(),
    ensures
        r@ == detail_rows_upto(loaded@, known@, start as int, end as int),
{
    let mut out: Vec<usize> = Vec::new();
    let mut i: usize = start;
    while i < end
        invariant
            start <= i <= end,
            end <= loaded@.len(),
            known@.len() == loaded@.len(),
            out@ == detail_rows_upto(loaded@, known@, start as int, i as int),
        decreases end - i,
    {
        if !loaded[i] && known[i] {
            out.push(i);
        }
        i = i + 1;
    }
    out
}

/// How urgently a row's thumbnail is wanted.
#[derive(Clone, Copy, Debug, PartialEq, Eq, Structural)]
pub enum AssetPriority {
    Selected,
    Visible,
    Overscan,
}

/// A selected row first, then a row in view, then one in the overscan.
pub open spec fn priority_spec(selected: bool, row: int, start: int, end: int) -> AssetPriority {
    if selected {
        AssetPriority::Selected
    } else if start <= row < end {
        AssetPriority::Visible
    } else {
        AssetPriority::Overscan
    }
}

/// The priority of a row's thumbnail request given the visible rows
/// `start..end`.
pub fn thumbnail_priority(selected: bool, row: usize, start: usize, end: usize) -> (r: AssetPriority)
    ensures
        r == priority_spec(selected, row as int, start as int, end as int),
{
    if selected {
        AssetPriority::Selected
    } else if start <= row && row < end {
        AssetPriority::Visible
    } else {
        AssetPriority::Overscan
    }
}

/// A range of rows, `start..end`.
#[derive(Clone, Copy, Debug, PartialEq, Eq, Structural)]
pub struct RowSpan {
    pub start: usize,
    pub end: usize,
}

/// The detail scan's bookkeeping: whether scans are enabled (`ready`) and
/// forced to re-derive, whether one is in flight, the viewport that asked
/// while it ran, and the revision of the row model, bumped whenever rows
/// are replaced or re-ordered.
#[derive(Clone, Copy, Debug, PartialEq, Eq, Structural)]
pub struct DetailWarmer {
    pub ready: bool,
    pub force: bool,
    pub in_flight: bool,
    pub pending: Option<RowSpan>,
    pub revision: u64,
}

/// What a finished scan amounts to.
#[derive(Clone, Copy, Debug, PartialEq, Eq, Structural)]
pub enum ScanOutcome {
    /// A scan this one was superseded by: nothing changes.
    Stale,
    /// The scan's own: apply its results when `apply` (the rows are the
    /// ones it read), then warm `rewarm` if any.
    Done { apply: bool, rewarm: Option<RowSpan> },
}

impl DetailWarmer {
    /// No scan enabled, none in flight, revision zero.
    pub open spec fn idle() -> DetailWarmer {
        DetailWarmer { ready: false, force: false, in_flight: false, pending: None, revision: 0 }
    }

    /// Rows replaced or scans stopped: the revision moves on and the scan
    /// state is reset.
    pub open spec fn cancelled(self) -> DetailWarmer {
        DetailWarmer {
            ready: false,
            force: false,
            in_flight: false,
            pending: None,
            revision: self.revision.wrapping_add(1),
        }
    }

    /// Rows re-ordered or re-filtered in place: only the revision moves on.
    pub open spec fn invalidated(self) -> DetailWarmer {
        DetailWarmer { revision: self.revision.wrapping_add(1), ..self }
    }

    /// A request for the visible rows `start..end`: nothing while disabled
    /// (the scan setting or the warmer), deferred while a scan is in
    /// flight, otherwise the overscanned window to scan.
    pub open spec fn requested(self, enabled: bool, start: usize, end: usize, rows: usize) -> (DetailWarmer, Option<(int, int)>) {
        if !self.ready || !enabled {
            (self, None)
        } else if self.in_flight {
            (DetailWarmer { pending: Some(RowSpan { start, end }), ..self }, None)
        } else {
            (self, Some(window_spec(start as int, end as int, DETAIL_OVERSCAN as int, rows as int)))
        }
    }

    /// A scan found rows to derive and starts: in flight, with the
    /// revision and force flag it carries.
    pub open spec fn launched(self) -> (DetailWarmer, (u64, bool)) {
        (DetailWarmer { in_flight: true, ..self }, (self.revision, self.force))
    }

    /// A scan of `revision` finished; `owns` when it is the scan this
    /// warmer started last.
    pub open spec fn finished(self, owns: bool, revision: u64, start: usize, end: usize) -> (DetailWarmer, ScanOutcome) {
        if !owns {
            (self, ScanOutcome::Stale)
        } else {
            let apply = self.revision == revision;
            (
                DetailWarmer { in_flight: false, pending: None, ..self },
                ScanOutcome::Done {
                    apply,
                    rewarm: match self.pending {
                        Some(p) => Some(p),
                        None => if apply {
                            None
                        } else {
                            Some(RowSpan { start, end })
                        },
                    },
                },
            )
        }
    }

    /// An idle warmer.
    pub fn new() -> (r: DetailWarmer)
        ensures
            r == DetailWarmer::idle(),
    {
        DetailWarmer { ready: false, force: false, in_flight: false, pending: None, revision: 0 }
    }

    /// Enable viewport detail scans after a listing is complete; `force`
    /// re-derives each row once as it enters the viewport.
    pub fn enable_visible_details(&mut self, force: bool)
        ensures
            *final(self) == (DetailWarmer { ready: true, force, ..*old(self) }),
    {
        self.ready = true;
        self.force = force;
    }

    /// Stop scanning: the rows were replaced or the setting turned off.
    pub fn cancel_visible_details(&mut self)
        ensures
            *final(self) == old(self).cancelled(),
    {
        self.revision = self.revision.wrapping_add(1);
        self.in_flight = false;
        self.pending = None;
        self.ready = false;
        self.force = false;
    }

    /// Start a flat listing: the previous scan state is dropped and scans
    /// are enabled from the first batch on.
    pub fn begin_flat(&mut self)
        ensures
            *final(self) == (DetailWarmer { ready: true, ..old(self).cancelled() }),
    {
        self.cancel_visible_details();
        self.ready = true;
    }

    /// The rows were re-ordered or re-filtered in place.
    pub fn invalidate(&mut self)
        ensures
            *final(self) == old(self).invalidated(),
    {
        self.revision = self.revision.wrapping_add(1);
    }

    /// The visible rows changed to `start..end` of `rows`: the window to
    /// scan now, if any.
    pub fn request(&mut self, enabled: bool, start: usize, end: usize, rows: usize) -> (r: Option<(usize, usize)>)
        ensures
            *final(self) == old(self).requested(enabled, start, end, rows).0,
            match r {
                Some(w) => old(self).requested(enabled, start, end, rows).1 == Some((w.0 as int, w.1 as int)),
                None => old(self).requested(enabled, start, end, rows).1 is None,
            },
    {
        if !self.ready || !enabled {
            return None;
        }
        if self.in_flight {
            self.pending = Some(RowSpan { start, end });
            return None;
        }
        Some(overscan_window(start, end, DETAIL_OVERSCAN, rows))
    }

    /// The scan found rows to derive and starts; its revision and force
    /// flag.
    pub fn launch(&mut self) -> (r: (u64, bool))
        ensures
            (*final(self), r) == old(self).launched(),
    {
        self.in_flight = true;
        (self.revision, self.force)
    }

    /// A scan of `revision` finished while `start..end` was visible.
    pub fn finish(&mut self, owns: bool, revision: u64, start: usize, end: usize) -> (r: ScanOutcome)
        ensures
            (*final(self), r) == old(self).finished(owns, revision, start, end),
    {
        if !owns {
            return ScanOutcome::Stale;
        }
        self.in_flight = false;
        let apply = self.revision == revision;
        let rewarm = match self.pending {
            Some(p) => Some(p),
            None => if apply {
                None
            } else {
                Some(RowSpan { start, end })
            },
        };
        self.pending = None;
        ScanOutcome::Done { apply, rewarm }
    }

    /// Whether a thumbnail fetched for `node` at `row_ix`, under work scope
    /// `scope` and revision `generation`, still belongs on screen: the
    /// surface's scope, the current revision, and the same row there.
    pub fn accepts_thumbnail_result(
        &self,
        own_scope: Option<u64>,
        scope: u64,
        generation: u64,
        entries: &[FileEntry],
        row_ix: usize,
        node: u64,
    ) -> (r: bool)
        ensures
            r == (own_scope == Some(scope) && self.revision == generation && row_ix < entries@.len()
                && entries@[row_ix as int].id == node),
    {
        let same_scope = match own_scope {
            Some(s) => s == scope,
            None => false,
        };
        same_scope && self.revision == generation && row_ix < entries.len() && entries[row_ix].id == node
    }
}

/// At most one scan runs: a request while one is in flight starts nothing
/// and remembers the newest viewport, which the running scan re-warms when
/// it finishes.
pub proof fn lemma_single_flight(w: DetailWarmer, s1: usize, e1: usize, s2: usize, e2: usize, rows: usize, rev: u64, vs: usize, ve: usize)
    requires
        w.in_flight,
    ensures
        ({
            let w1 = w.requested(true, s1, e1, rows).0;
            let w2 = w1.requested(true, s2, e2, rows);
            &&& w2.1 is None
            &&& w.ready ==> (w2.0.finished(true, rev, vs, ve).1 matches ScanOutcome::Done { rewarm, .. }
                && rewarm == Some(RowSpan { start: s2, end: e2 }))
        }),
{
}

/// A scan's results are applied exactly when nothing replaced or
/// re-ordered the rows between its launch and its end; when they are not,
/// the viewport is scanned again.
pub proof fn lemma_results_match_their_rows(w: DetailWarmer, invalidations: nat, vs: usize, ve: usize)
    requires
        !w.in_flight,
        w.pending is None,
        invalidations < 0x1_0000_0000_0000_0000,
    ensures
        ({
            let (w1, (rev, _)) = w.launched();
            let w2 = repeat_invalidate(w1, invalidations);
            let out = w2.finished(true, rev, vs, ve).1;
            &&& (invalidations == 0) ==> out == ScanOutcome::Done { apply: true, rewarm: None }
            &&& (invalidations > 0) ==> out == ScanOutcome::Done { apply: false, rewarm: Some(RowSpan { start: vs, end: ve }) }
        }),
{
    let (w1, (rev, _)) = w.launched();
    lemma_repeat_invalidate(w1, invalidations);
    let w2 = repeat_invalidate(w1, invalidations);
    if invalidations > 0 {
        assert(w2.revision != rev) by {
            assert(w2.revision as int == (rev as int + invalidations) % 0x1_0000_0000_0000_0000);
        }
    }
}

/// The warmer after `k` in-place invalidations.
pub open spec fn repeat_invalidate(w: DetailWarmer, k: nat) -> DetailWarmer
    decreases k,
{
    if k == 0 {
        w
    } else {
        repeat_invalidate(w, (k - 1) as nat).invalidated()
    }
}

proof fn lemma_repeat_invalidate(w: DetailWarmer, k: nat)
    ensures
        repeat_invalidate(w, k).revision as int == (w.revision as int + k) % 0x1_0000_0000_0000_0000,
        repeat_invalidate(w, k).in_flight == w.in_flight,
        repeat_invalidate(w, k).pending == w.pending,
    decreases k,
{
    if k > 0 {
        lemma_repeat_invalidate(w, (k - 1) as nat);
        let r = repeat_invalidate(w, (k - 1) as nat).revision;
        assert(r.wrapping_add(1) as int == (r as int + 1) % 0x1_0000_0000_0000_0000);
    } else {
        assert(w.revision as int % 0x1_0000_0000_0000_0000 == w.revision as int);
    }
}

} // verus!
