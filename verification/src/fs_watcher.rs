//! The UI side of the file-system watcher: which directories were asked to
//! be watched, the commands for the worker that owns the OS watch, and which
//! of the watched directories a batch of change events makes stale.
//!
//! Registering a watch can block on a slow volume, so the OS calls live on
//! a worker thread; this handle only records requests and queues commands
//! for it, and returns immediately.

use vstd::prelude::*;

use crate::strings::strs_view;

verus! {

/// A watch-set mutation for the worker that owns the OS watcher.
#[derive(Debug)]
pub enum WatchCmd {
    /// Register a non-recursive watch on a directory (idempotent).
    Watch(String),
    /// Drop every watch not in the given keep-set.
    Retain(Vec<String>),
}

/// What a watch command is, as a mathematical value.
pub enum WatchCmdV {
    Watch(Seq<char>),
    Retain(Seq<Seq<char>>),
}

impl View for WatchCmd {
    type V = WatchCmdV;

    open spec fn view(&self) -> WatchCmdV {
        match self {
            WatchCmd::Watch(p) => WatchCmdV::Watch(p@),
            WatchCmd::Retain(k) => WatchCmdV::Retain(strs_view(k@)),
        }
    }
}

/// The kind of a file-system event, as far as a listing cares.
#[derive(Clone, Copy, Debug, PartialEq, Eq, Structural)]
pub enum EventClass {
    Create,
    Modify,
    Remove,
    /// Events were lost and everything must be rescanned.
    Other,
    /// Opening or reading: the listing does not change.
    Access,
}

/// One changed path and its parent directory, if it has one.
#[derive(Debug)]
pub struct ChangedPath {
    pub path: String,
    pub parent: Option<String>,
}

/// One file-system event: its kind and the paths it touched; none at all
/// means "possibly anything".
#[derive(Debug)]
pub struct FsEvent {
    pub class: EventClass,
    pub paths: Vec<ChangedPath>,
}

/// Whether a change of `path` (with parent `parent`) concerns root `root`:
/// the root itself changed, or something directly inside it.
pub open spec fn touches(path: Seq<char>, parent: Option<Seq<char>>, root: Seq<char>) -> bool {
    path == root || parent == Some(root)
}

/// Whether an event makes root `root` stale.
pub open spec fn event_reloads(ev: FsEvent, root: Seq<char>) -> bool {
    &&& ev.class != EventClass::Access
    &&& (ev.paths@.len() == 0 || exists|i: int|
        0 <= i < ev.paths@.len() && touches(
            ev.paths@[i].path@,
            match ev.paths@[i].parent {
                Some(p) => Some(p@),
                None => None,
            },
            root,
        ))
}

/// Whether the changed path lies directly inside `root`.
pub open spec fn parent_is(c: ChangedPath, root: Seq<char>) -> bool {
    match c.parent {
        Some(p) => p@ == root,
        None => false,
    }
}

/// A created, modified or removed path, or lost events, make the watched
/// root stale when the path is the root or lies directly inside it, and an
/// event that names no path makes every root stale; reading a file never
/// does.
pub proof fn lemma_what_reloads(ev: FsEvent, root: Seq<char>, k: int)
    ensures
        ev.class == EventClass::Access ==> !event_reloads(ev, root),
        ev.class != EventClass::Access && ev.paths@.len() == 0 ==> event_reloads(ev, root),
        ev.class != EventClass::Access && 0 <= k < ev.paths@.len() && (ev.paths@[k].path@ == root
            || parent_is(ev.paths@[k], root)) ==> event_reloads(ev, root),
        ev.class == EventClass::Remove && 0 <= k < ev.paths@.len() && parent_is(ev.paths@[k], root)
            ==> event_reloads(ev, root),
        ev.class != EventClass::Access && ev.paths@.len() > 0 && event_reloads(ev, root) ==> exists|q: int|
            0 <= q < ev.paths@.len() && (ev.paths@[q].path@ == root || parent_is(ev.paths@[q], root)),
{
    if 0 <= k < ev.paths@.len() {
        let _ = touches(
            ev.paths@[k].path@,
            match ev.paths@[k].parent {
                Some(p) => Some(p@),
                None => None,
            },
            root,
        );
    }
}

/// No string occurs twice.
pub open spec fn distinct(s: Seq<Seq<char>>) -> bool {
    forall|i: int, j: int| 0 <= i < j < s.len() ==> s[i] != s[j]
}

/// The UI-side handle: the requested watch roots, and the commands not yet
/// handed to the worker.
#[derive(Debug)]
pub struct FsWatcher {
    watched: Vec<String>,
    commands: Vec<WatchCmd>,
}

impl FsWatcher {
    /// The requested watch roots.
    pub closed spec fn watched(&self) -> Seq<Seq<char>> {
        strs_view(self.watched@)
    }

    /// The commands queued for the worker, oldest first.
    pub closed spec fn queued(&self) -> Seq<WatchCmdV> {
        self.commands@.map_values(|c: WatchCmd| c@)
    }

    /// Each root is requested once.
    pub open spec fn wf(&self) -> bool {
        distinct(self.watched())
    }

    /// Nothing watched, nothing queued.
    pub fn new() -> (r: FsWatcher)
        ensures
            r.wf(),
            r.watched() == Seq::<Seq<char>>::empty(),
            r.queued() == Seq::<WatchCmdV>::empty(),
    {
        let r = FsWatcher { watched: Vec::new(), commands: Vec::new() };
        assert(r.watched() =~= Seq::<Seq<char>>::empty());
        assert(r.queued() =~= Seq::<WatchCmdV>::empty());
        r
    }

    fn position(&self, path: &str) -> (r: Option<usize>)
        ensures
            r matches Some(i) ==> i < self.watched().len() && self.watched()[i as int] == path@,
            r is None ==> !self.watched().contains(path@),
    {
        let want = crate::strings::chars_of(path);
        let mut i: usize = 0;
        while i < self.watched.len()
            invariant
                i <= self.watched.len(),
                want@ == path@,
                forall|k: int| 0 <= k < i ==> self.watched()[k] != path@,
            decreases self.watched.len() - i,
        {
            let have = crate::strings::chars_of(self.watched[i].as_str());
            if crate::strings::chars_eq(&have, &want) {
                return Some(i);
            }
            i = i + 1;
        }
        None
    }

    /// Request a watch on `path`; the OS registration happens on the
    /// worker, which is sent a [`WatchCmd::Watch`].
    pub fn watch(&mut self, path: &str)
        requires
            old(self).wf(),
        ensures
            final(self).wf(),
            final(self).watched() == if old(self).watched().contains(path@) {
                old(self).watched()
            } else {
                old(self).watched().push(path@)
            },
            final(self).queued() == old(self).queued().push(WatchCmdV::Watch(path@)),
    {
        let ghost before = self.watched();
        if self.position(path).is_none() {
            self.watched.push(String::from_str(path));
            assert(self.watched() =~= before.push(path@));
        }
        let ghost qb = self.queued();
        self.commands.push(WatchCmd::Watch(String::from_str(path)));
        assert(self.queued() =~= qb.push(WatchCmdV::Watch(path@)));
    }

    /// Keep only the roots some live tab still shows; the worker is sent
    /// the keep-set and releases every other OS watch.
    pub fn retain_watched(&mut self, keep: &Vec<String>)
        requires
            old(self).wf(),
        ensures
            final(self).wf(),
            final(self).watched() == old(self).watched().filter(|p: Seq<char>| strs_view(keep@).contains(p)),
            final(self).queued() == old(self).queued().push(WatchCmdV::Retain(strs_view(keep@))),
    {
        let ghost w = self.watched();
        let ghost kv = strs_view(keep@);
        let mut kept: Vec<String> = Vec::new();
        let mut i: usize = 0;
        while i < self.watched.len()
            invariant
                i <= self.watched.len(),
                w == self.watched(),
                distinct(w),
                kv == strs_view(keep@),
                strs_view(kept@) == w.take(i as int).filter(|p: Seq<char>| kv.contains(p)),
            decreases self.watched.len() - i,
        {
            let here = crate::strings::chars_of(self.watched[i].as_str());
            let mut inside = false;
            let mut k: usize = 0;
            while k < keep.len()
                invariant
                    k <= keep.len(),
                    kv == strs_view(keep@),
                    here@ == w[i as int],
                    i < w.len(),
                    inside == exists|q: int| 0 <= q < k && kv[q] == w[i as int],
                decreases keep.len() - k,
            {
                let kc = crate::strings::chars_of(keep[k].as_str());
                assert(kv[k as int] == keep@[k as int]@);
                if crate::strings::chars_eq(&kc, &here) {
                    inside = true;
                }
                k = k + 1;
            }
            let ghost before = strs_view(kept@);
            if inside {
                kept.push(self.watched[i].clone());
                assert(strs_view(kept@) =~= before.push(w[i as int]));
            }
            proof {
                w.take(i as int).lemma_filter_push(w[i as int], |p: Seq<char>| kv.contains(p));
                assert(w.take(i + 1) =~= w.take(i as int).push(w[i as int]));
            }
            i = i + 1;
        }
        assert(w.take(self.watched.len() as int) =~= w);
        proof {
            broadcast use vstd::seq_lib::group_filter_ensures;
            let f = w.filter(|p: Seq<char>| kv.contains(p));
            assert forall|a: int, b: int| 0 <= a < b < f.len() implies f[a] != f[b] by {
                lemma_filter_distinct(w, kv);
            }
        }
        self.watched = kept;
        let ghost qb = self.queued();
        let mut copy: Vec<String> = Vec::new();
        let mut j: usize = 0;
        while j < keep.len()
            invariant
                j <= keep.len(),
                kv == strs_view(keep@),
                strs_view(copy@) == kv.take(j as int),
            decreases keep.len() - j,
        {
            let ghost cb = strs_view(copy@);
            copy.push(keep[j].clone());
            assert(kv[j as int] == keep@[j as int]@);
            assert(strs_view(copy@) =~= cb.push(kv[j as int]));
            assert(strs_view(copy@) =~= kv.take(j + 1));
            j = j + 1;
        }
        assert(kv.take(keep.len() as int) =~= kv);
        let cmd = WatchCmd::Retain(copy);
        assert(cmd@ == WatchCmdV::Retain(kv));
        let ghost cb = self.commands@;
        self.commands.push(cmd);
        assert(self.commands@ == cb.push(cmd));
        assert(self.queued() =~= qb.push(WatchCmdV::Retain(kv)));
    }

    /// Hand the queued commands to the worker.
    pub fn take_commands(&mut self) -> (r: Vec<WatchCmd>)
        ensures
            r@.map_values(|c: WatchCmd| c@) == old(self).queued(),
            final(self).queued() == Seq::<WatchCmdV>::empty(),
            final(self).watched() == old(self).watched(),
    {
        let mut r: Vec<WatchCmd> = Vec::new();
        std::mem::swap(&mut r, &mut self.commands);
        assert(self.queued() =~= Seq::<WatchCmdV>::empty());
        r
    }

    /// The watched roots that the drained events make stale: access-only
    /// events are ignored, an event without paths makes every root stale,
    /// and otherwise a root is stale when it or something directly inside
    /// it changed. Each root is listed once, in the order it was watched.
    pub fn drain_reload_relevant_paths(&self, events: &Vec<FsEvent>) -> (r: Vec<String>)
        requires
            self.wf(),
        ensures
            distinct(strs_view(r@)),
            forall|root: Seq<char>|
                strs_view(r@).contains(root) <==> (self.watched().contains(root) && exists|e: int|
                    0 <= e < events@.len() && #[trigger] event_reloads(events@[e], root)),
    {
        let ghost w = self.watched();
        let mut r: Vec<String> = Vec::new();
        let mut i: usize = 0;
        while i < self.watched.len()
            invariant
                i <= self.watched.len(),
                w == self.watched(),
                distinct(w),
                strs_view(r@) == w.take(i as int).filter(
                    |root: Seq<char>| exists|e: int| 0 <= e < events@.len() && #[trigger] event_reloads(events@[e], root),
                ),
            decreases self.watched.len() - i,
        {
            let root = &self.watched[i];
            let rc = crate::strings::chars_of(root.as_str());
            let mut stale = false;
            let mut e: usize = 0;
            while e < events.len() && !stale
                invariant
                    e <= events.len(),
                    rc@ == w[i as int],
                    i < w.len(),
                    stale ==> exists|q: int| 0 <= q < events@.len() && #[trigger] event_reloads(events@[q], w[i as int]),
                    !stale ==> forall|q: int| 0 <= q < e ==> !#[trigger] event_reloads(events@[q], w[i as int]),
                decreases events.len() - e,
            {
                let ev = &events[e];
                assert(*ev == events@[e as int]);
                let hit = if ev.class == EventClass::Access {
                    false
                } else if ev.paths.len() == 0 {
                    true
                } else {
                    let mut found = false;
                    let mut p: usize = 0;
                    while p < ev.paths.len() && !found
                        invariant
                            p <= ev.paths@.len(),
                            rc@ == w[i as int],
                            found ==> exists|x: int| 0 <= x < ev.paths@.len() && touches(
                                ev.paths@[x].path@,
                                match ev.paths@[x].parent {
                                    Some(pp) => Some(pp@),
                                    None => None,
                                },
                                w[i as int],
                            ),
                            !found ==> forall|x: int| 0 <= x < p ==> !touches(
                                ev.paths@[x].path@,
                                match ev.paths@[x].parent {
                                    Some(pp) => Some(pp@),
                                    None => None,
                                },
                                w[i as int],
                            ),
                        decreases ev.paths.len() - p,
                    {
                        let cp = &ev.paths[p];
                        assert(*cp == ev.paths@[p as int]);
                        let pc = crate::strings::chars_of(cp.path.as_str());
                        let same = crate::strings::chars_eq(&pc, &rc);
                        let under = match &cp.parent {
                            Some(par) => {
                                let parc = crate::strings::chars_of(par.as_str());
                                crate::strings::chars_eq(&parc, &rc)
                            },
                            None => false,
                        };
                        if same || under {
                            found = true;
                        }
                        p = p + 1;
                    }
                    found
                };
                assert(hit == event_reloads(events@[e as int], w[i as int]));
                if hit {
                    stale = true;
                }
                e = e + 1;
            }
            let ghost before = strs_view(r@);
            if stale {
                r.push(root.clone());
                assert(strs_view(r@) =~= before.push(w[i as int]));
            }
            proof {
                w.take(i as int).lemma_filter_push(
                    w[i as int],
                    |root: Seq<char>| exists|e: int| 0 <= e < events@.len() && #[trigger] event_reloads(events@[e], root),
                );
                assert(w.take(i + 1) =~= w.take(i as int).push(w[i as int]));
            }
            i = i + 1;
        }
        assert(w.take(self.watched.len() as int) =~= w);
        proof {
            let pred = |root: Seq<char>| exists|e: int| 0 <= e < events@.len() && #[trigger] event_reloads(events@[e], root);
            lemma_filter_distinct_pred(w, pred);
            lemma_filter_member(w, pred);
        }
        r
    }
}

proof fn lemma_filter_distinct_pred(w: Seq<Seq<char>>, pred: spec_fn(Seq<char>) -> bool)
    requires
        distinct(w),
    ensures
        distinct(w.filter(pred)),
        forall|x: Seq<char>| w.filter(pred).contains(x) <==> (w.contains(x) && pred(x)),
    decreases w.len(),
{
    reveal(Seq::filter);
    if w.len() > 0 {
        let dl = w.drop_last();
        assert forall|i: int, j: int| 0 <= i < j < dl.len() implies dl[i] != dl[j] by {
            assert(dl[i] == w[i] && dl[j] == w[j]);
        }
        lemma_filter_distinct_pred(dl, pred);
        let f = dl.filter(pred);
        assert(w.filter(pred) == if pred(w.last()) { f.push(w.last()) } else { f });
        assert forall|x: Seq<char>| w.contains(x) <==> (dl.contains(x) || x == w.last()) by {
            if w.contains(x) {
                let k = choose|k: int| 0 <= k < w.len() && w[k] == x;
                if k < w.len() - 1 {
                    assert(dl[k] == x);
                }
            }
            if dl.contains(x) {
                let k = choose|k: int| 0 <= k < dl.len() && dl[k] == x;
                assert(w[k] == x);
            }
            if x == w.last() {
                assert(w[w.len() - 1] == x);
            }
        }
        if pred(w.last()) {
            let g = f.push(w.last());
            assert(!dl.contains(w.last())) by {
                if dl.contains(w.last()) {
                    let k = choose|k: int| 0 <= k < dl.len() && dl[k] == w.last();
                    assert(w[k] == w[w.len() - 1]);
                }
            }
            assert forall|x: Seq<char>| g.contains(x) <==> (f.contains(x) || x == w.last()) by {
                if g.contains(x) {
                    let k = choose|k: int| 0 <= k < g.len() && g[k] == x;
                    if k < f.len() {
                        assert(f[k] == x);
                    }
                }
                if f.contains(x) {
                    let k = choose|k: int| 0 <= k < f.len() && f[k] == x;
                    assert(g[k] == x);
                }
                if x == w.last() {
                    assert(g[g.len() - 1] == x);
                }
            }
            assert forall|i: int, j: int| 0 <= i < j < g.len() implies g[i] != g[j] by {
                if j == g.len() - 1 {
                    assert(f.contains(g[i])) by {
                        assert(f[i] == g[i]);
                    }
                } else {
                    assert(g[i] == f[i] && g[j] == f[j]);
                }
            }
        }
    }
}

proof fn lemma_filter_member(w: Seq<Seq<char>>, pred: spec_fn(Seq<char>) -> bool)
    requires
        distinct(w),
    ensures
        forall|x: Seq<char>| w.filter(pred).contains(x) <==> (w.contains(x) && pred(x)),
{
    lemma_filter_distinct_pred(w, pred);
}

proof fn lemma_filter_distinct(w: Seq<Seq<char>>, kv: Seq<Seq<char>>)
    requires
        distinct(w),
    ensures
        distinct(w.filter(|p: Seq<char>| kv.contains(p))),
{
    lemma_filter_distinct_pred(w, |p: Seq<char>| kv.contains(p));
}

/// The watch set of the worker that owns the OS watcher: only watches
/// that registered successfully, so a failed one is retried the next time
/// it is asked for.
#[derive(Debug)]
pub struct WatchRegistry {
    paths: Vec<String>,
}

fn in_list(s: &str, list: &Vec<String>) -> (r: bool)
    ensures
        r == strs_view(list@).contains(s@),
{
    let want = crate::strings::chars_of(s);
    let ghost lv = strs_view(list@);
    let mut k: usize = 0;
    while k < list.len()
        invariant
            k <= list.len(),
            lv == strs_view(list@),
            want@ == s@,
            forall|q: int| 0 <= q < k ==> lv[q] != s@,
        decreases list.len() - k,
    {
        let have = crate::strings::chars_of(list[k].as_str());
        assert(lv[k as int] == list@[k as int]@);
        if crate::strings::chars_eq(&have, &want) {
            return true;
        }
        k = k + 1;
    }
    false
}

impl WatchRegistry {
    /// The registered watch roots.
    pub closed spec fn paths(&self) -> Seq<Seq<char>> {
        strs_view(self.paths@)
    }

    /// Nothing registered.
    pub fn new() -> (r: WatchRegistry)
        ensures
            r.paths() == Seq::<Seq<char>>::empty(),
    {
        let r = WatchRegistry { paths: Vec::new() };
        assert(r.paths() =~= Seq::<Seq<char>>::empty());
        r
    }

    /// Whether a watch request must reach the OS: the path is not
    /// registered yet.
    pub fn needs_register(&self, path: &str) -> (r: bool)
        ensures
            r == !self.paths().contains(path@),
    {
        !in_list(path, &self.paths)
    }

    /// Record a registration that succeeded.
    pub fn registered(&mut self, path: &str)
        ensures
            final(self).paths() == if old(self).paths().contains(path@) {
                old(self).paths()
            } else {
                old(self).paths().push(path@)
            },
    {
        if !in_list(path, &self.paths) {
            let ghost before = self.paths();
            self.paths.push(crate::strings::string_of(&crate::strings::chars_of(path)));
            assert(self.paths() =~= before.push(path@));
        }
    }

    /// Drop every registered watch the keep-set does not name, and return
    /// those paths, in order, for the OS unwatch calls.
    pub fn release_stale(&mut self, keep: &Vec<String>) -> (r: Vec<String>)
        ensures
            strs_view(r@) == old(self).paths().filter(|p: Seq<char>| !strs_view(keep@).contains(p)),
            final(self).paths() == old(self).paths().filter(|p: Seq<char>| strs_view(keep@).contains(p)),
    {
        let ghost w = self.paths();
        let ghost kv = strs_view(keep@);
        let mut kept: Vec<String> = Vec::new();
        let mut stale: Vec<String> = Vec::new();
        let mut i: usize = 0;
        while i < self.paths.len()
            invariant
                i <= self.paths.len(),
                w == self.paths(),
                kv == strs_view(keep@),
                strs_view(kept@) == w.take(i as int).filter(|p: Seq<char>| kv.contains(p)),
                strs_view(stale@) == w.take(i as int).filter(|p: Seq<char>| !kv.contains(p)),
            decreases self.paths.len() - i,
        {
            let here = self.paths[i].as_str();
            assert(w[i as int] == self.paths@[i as int]@);
            let ghost kb = strs_view(kept@);
            let ghost sb = strs_view(stale@);
            if in_list(here, keep) {
                kept.push(self.paths[i].clone());
                assert(strs_view(kept@) =~= kb.push(w[i as int]));
            } else {
                stale.push(self.paths[i].clone());
                assert(strs_view(stale@) =~= sb.push(w[i as int]));
            }
            proof {
                w.take(i as int).lemma_filter_push(w[i as int], |p: Seq<char>| kv.contains(p));
                w.take(i as int).lemma_filter_push(w[i as int], |p: Seq<char>| !kv.contains(p));
                assert(w.take(i + 1) =~= w.take(i as int).push(w[i as int]));
            }
            i = i + 1;
        }
        assert(w.take(self.paths.len() as int) =~= w);
        self.paths = kept;
        stale
    }
}

} // verus!
