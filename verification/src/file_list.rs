//! The file list's logic: which rows a context command targets, which
//! commands a target set allows, the sort orders, the column layout and its
//! persisted form, the selection model, and the names promised to a drag
//! out of an archive. Rendering stays with the caller.

use vstd::prelude::*;

pub mod columns;
pub mod flat;
pub mod menus;
pub mod model;
pub mod sort;
pub mod viewport;

use crate::strings::{
    chars_eq_str, chars_of, decimal, last_index, lowercase, push_char, push_decimal, rfind_char,
    string_of, strs_view, to_lowercase,
};

verus! {

broadcast use vstd::std_specs::hash::group_hash_axioms;

/// What a listed row is.
#[derive(Clone, Copy, Debug, PartialEq, Eq, Structural)]
pub enum EntryKind {
    File,
    Directory,
    Symlink,
}

/// One listed row, as the list logic reads it: its id, kind and display
/// name, its size and modification time, whether it carries the
/// download-quarantine mark, whether its name is that of a supported
/// archive, and the label of its Format column.
#[derive(Debug)]
pub struct FileEntry {
    pub id: u64,
    pub kind: EntryKind,
    pub display_name: String,
    pub size: u64,
    pub mtime_unix: i64,
    pub is_quarantined: bool,
    pub is_archive_name: bool,
    pub format_label: String,
}

/// One target row's capabilities for context-menu gating, projected from
/// the listed row with no I/O.
#[derive(Clone, Copy, Debug, PartialEq, Eq, Structural)]
pub struct TargetCap {
    pub kind: EntryKind,
    pub is_quarantined: bool,
    /// A file whose name is that of a supported archive.
    pub is_archive: bool,
}

/// The capabilities of a row.
pub open spec fn cap_of(e: FileEntry) -> TargetCap {
    TargetCap {
        kind: e.kind,
        is_quarantined: e.is_quarantined,
        is_archive: e.kind == EntryKind::File && e.is_archive_name,
    }
}

impl TargetCap {
    pub fn from_entry(e: &FileEntry) -> (r: TargetCap)
        ensures
            r == cap_of(*e),
    {
        TargetCap {
            kind: e.kind,
            is_quarantined: e.is_quarantined,
            is_archive: e.kind == EntryKind::File && e.is_archive_name,
        }
    }
}

/// How many rows of a listing are quarantined and how many are archives,
/// each counted up to `usize::MAX`.
#[derive(Clone, Copy, Debug, PartialEq, Eq, Structural)]
pub struct MenuCapCounts {
    pub quarantined: usize,
    pub archives: usize,
}

/// The number of rows of `es` with the capability `f`.
pub open spec fn count_caps(es: Seq<FileEntry>, f: spec_fn(TargetCap) -> bool) -> nat
    decreases es.len(),
{
    if es.len() == 0 {
        0
    } else {
        count_caps(es.drop_last(), f) + if f(cap_of(es.last())) {
            1nat
        } else {
            0nat
        }
    }
}

/// `n` capped at `usize::MAX`.
pub open spec fn saturate(n: int) -> usize {
    if n > usize::MAX {
        usize::MAX
    } else {
        n as usize
    }
}

/// Whether a capability is the quarantine mark.
pub open spec fn quarantined_cap(c: TargetCap) -> bool {
    c.is_quarantined
}

/// Whether a capability is an archive.
pub open spec fn archive_cap(c: TargetCap) -> bool {
    c.is_archive
}

impl MenuCapCounts {
    /// No rows counted.
    pub fn new() -> (r: MenuCapCounts)
        ensures
            r.quarantined == 0 && r.archives == 0,
    {
        MenuCapCounts { quarantined: 0, archives: 0 }
    }

    /// Count the capabilities of every row.
    pub fn from_entries(entries: &[FileEntry]) -> (r: MenuCapCounts)
        ensures
            r.quarantined == saturate(count_caps(entries@, |c: TargetCap| quarantined_cap(c)) as int),
            r.archives == saturate(count_caps(entries@, |c: TargetCap| archive_cap(c)) as int),
    {
        let mut counts = MenuCapCounts::new();
        counts.extend(entries);
        counts
    }

    /// Add the capabilities of more rows.
    pub fn extend(&mut self, entries: &[FileEntry])
        ensures
            final(self).quarantined == saturate(
                old(self).quarantined + count_caps(entries@, |c: TargetCap| quarantined_cap(c)),
            ),
            final(self).archives == saturate(
                old(self).archives + count_caps(entries@, |c: TargetCap| archive_cap(c)),
            ),
    {
        let ghost q0 = self.quarantined;
        let ghost a0 = self.archives;
        let mut i: usize = 0;
        while i < entries.len()
            invariant
                i <= entries.len(),
                self.quarantined == saturate(
                    q0 + count_caps(entries@.take(i as int), |c: TargetCap| quarantined_cap(c)),
                ),
                self.archives == saturate(
                    a0 + count_caps(entries@.take(i as int), |c: TargetCap| archive_cap(c)),
                ),
            decreases entries.len() - i,
        {
            assert(entries@.take(i + 1).drop_last() =~= entries@.take(i as int));
            assert(entries@.take(i + 1).last() == entries@[i as int]);
            let cap = TargetCap::from_entry(&entries[i]);
            if cap.is_quarantined {
                self.quarantined = self.quarantined.saturating_add(1);
            }
            if cap.is_archive {
                self.archives = self.archives.saturating_add(1);
            }
            i = i + 1;
        }
        assert(entries@.take(entries.len() as int) =~= entries@);
    }

    /// A row's quarantine mark changed in place: one more quarantined row
    /// when it was set, one fewer when it was cleared, never below zero.
    pub fn note_quarantine_change(&mut self, was_quarantined: bool, is_quarantined: bool)
        ensures
            final(self).archives == old(self).archives,
            final(self).quarantined == if !was_quarantined && is_quarantined {
                saturate(old(self).quarantined + 1)
            } else if was_quarantined && !is_quarantined {
                if old(self).quarantined > 0 { (old(self).quarantined - 1) as usize } else { 0 }
            } else {
                old(self).quarantined
            },
    {
        if !was_quarantined && is_quarantined {
            self.quarantined = self.quarantined.saturating_add(1);
        } else if was_quarantined && !is_quarantined {
            self.quarantined = self.quarantined.saturating_sub(1);
        }
    }

    /// The quarantine mark was cleared from `count` rows.
    pub fn note_quarantine_cleared(&mut self, count: usize)
        ensures
            final(self).archives == old(self).archives,
            final(self).quarantined == if old(self).quarantined >= count {
                (old(self).quarantined - count) as usize
            } else {
                0
            },
    {
        self.quarantined = self.quarantined.saturating_sub(count);
    }
}

/// A summary of the rows a context command will act on: how many, whether
/// any is quarantined or an archive, and the right-clicked row.
#[derive(Clone, Copy, Debug, PartialEq, Eq, Structural)]
pub struct MenuTargets {
    pub count: usize,
    pub any_quarantined: bool,
    pub any_archive: bool,
    pub anchor: Option<TargetCap>,
}

impl MenuTargets {
    /// No targets.
    pub fn empty() -> (r: MenuTargets)
        ensures
            r.count == 0,
            !r.any_quarantined,
            !r.any_archive,
            r.anchor is None,
    {
        MenuTargets { count: 0, any_quarantined: false, any_archive: false, anchor: None }
    }

    pub fn len(&self) -> (r: usize)
        ensures
            r == self.count,
    {
        self.count
    }

    pub fn is_empty(&self) -> (r: bool)
        ensures
            r == (self.count == 0),
    {
        self.count == 0
    }

    /// Exactly one target.
    pub fn is_single(&self) -> (r: bool)
        ensures
            r == (self.count == 1),
    {
        self.count == 1
    }

    /// More than one target.
    pub fn is_multi(&self) -> (r: bool)
        ensures
            r == (self.count > 1),
    {
        self.count > 1
    }

    pub fn any_quarantined(&self) -> (r: bool)
        ensures
            r == self.any_quarantined,
    {
        self.any_quarantined
    }

    pub fn any_archive(&self) -> (r: bool)
        ensures
            r == self.any_archive,
    {
        self.any_archive
    }
}

/// Above this many rows an explicit multi-selection is not scanned while a
/// menu opens.
pub const MAX_MENU_CAP_SCAN_ROWS: usize = 65_536;

/// Whether row id `id` is selected: listed in `selected`, or, under a
/// symbolic Select All, not listed among its exceptions.
pub open spec fn selected_spec(selected: Set<u64>, selection_all: bool, id: u64) -> bool {
    if selection_all {
        !selected.contains(id)
    } else {
        selected.contains(id)
    }
}

/// Whether some selected row of `es` has the capability `f`.
pub open spec fn any_selected(es: Seq<FileEntry>, selected: Set<u64>, f: spec_fn(TargetCap) -> bool) -> bool {
    exists|i: int| 0 <= i < es.len() && selected.contains(es[i].id) && f(cap_of(#[trigger] es[i]))
}

/// What [`resolve_menu_targets_with_mode`] returns. A right-click on an
/// unselected row targets that row alone; inside the selection it targets
/// the whole set, summarised from the listing's counts under a symbolic
/// Select All or a large explicit range, and from the selected rows
/// otherwise. A row index past the end targets nothing.
pub open spec fn targets_spec(
    entries: Seq<FileEntry>,
    selected: Set<u64>,
    selection_all: bool,
    row_ix: int,
    all_caps: MenuCapCounts,
) -> MenuTargets {
    if row_ix >= entries.len() {
        MenuTargets { count: 0, any_quarantined: false, any_archive: false, anchor: None }
    } else {
        let anchor = cap_of(entries[row_ix]);
        if !selected_spec(selected, selection_all, entries[row_ix].id) {
            MenuTargets {
                count: 1,
                any_quarantined: anchor.is_quarantined,
                any_archive: anchor.is_archive,
                anchor: Some(anchor),
            }
        } else if selection_all {
            let count: usize = if entries.len() > selected.len() {
                (entries.len() - selected.len()) as usize
            } else {
                0
            };
            MenuTargets {
                count,
                any_quarantined: count != 0 && all_caps.quarantined != 0,
                any_archive: count != 0 && all_caps.archives != 0,
                anchor: Some(anchor),
            }
        } else if entries.len() > MAX_MENU_CAP_SCAN_ROWS && selected.len() > 1 {
            MenuTargets {
                count: selected.len() as usize,
                any_quarantined: all_caps.quarantined != 0,
                any_archive: all_caps.archives != 0,
                anchor: Some(anchor),
            }
        } else {
            MenuTargets {
                count: selected.len() as usize,
                any_quarantined: any_selected(entries, selected, |c: TargetCap| quarantined_cap(c)),
                any_archive: any_selected(entries, selected, |c: TargetCap| archive_cap(c)),
                anchor: Some(anchor),
            }
        }
    }
}

/// Resolve the rows a context command will target from the right-clicked
/// row and the selection as it stands at that instant, with the listing's
/// capability counts for the cases where the set is not scanned.
pub fn resolve_menu_targets_with_mode(
    entries: &[FileEntry],
    selected: &std::collections::HashSet<u64>,
    selection_all: bool,
    row_ix: usize,
    all_caps: MenuCapCounts,
) -> (r: MenuTargets)
    ensures
        r == targets_spec(entries@, selected@, selection_all, row_ix as int, all_caps),
{
    if row_ix >= entries.len() {
        return MenuTargets::empty();
    }
    let clicked = &entries[row_ix];
    let anchor = TargetCap::from_entry(clicked);
    let listed = selected.contains(&clicked.id);
    let is_selected = if selection_all {
        !listed
    } else {
        listed
    };
    if !is_selected {
        return MenuTargets {
            count: 1,
            any_quarantined: anchor.is_quarantined,
            any_archive: anchor.is_archive,
            anchor: Some(anchor),
        };
    }
    if selection_all {
        let count = entries.len().saturating_sub(selected.len());
        return MenuTargets {
            count,
            any_quarantined: count != 0 && all_caps.quarantined != 0,
            any_archive: count != 0 && all_caps.archives != 0,
            anchor: Some(anchor),
        };
    }
    let count = selected.len();
    if entries.len() > MAX_MENU_CAP_SCAN_ROWS && count > 1 {
        return MenuTargets {
            count,
            any_quarantined: all_caps.quarantined != 0,
            any_archive: all_caps.archives != 0,
            anchor: Some(anchor),
        };
    }
    let mut any_quarantined = false;
    let mut any_archive = false;
    let mut i: usize = 0;
    while i < entries.len()
        invariant
            i <= entries.len(),
            any_quarantined == exists|k: int|
                0 <= k < i && selected@.contains(entries@[k].id) && quarantined_cap(cap_of(#[trigger] entries@[k])),
            any_archive == exists|k: int|
                0 <= k < i && selected@.contains(entries@[k].id) && archive_cap(cap_of(#[trigger] entries@[k])),
        decreases entries.len() - i,
    {
        if selected.contains(&entries[i].id) {
            let cap = TargetCap::from_entry(&entries[i]);
            if cap.is_quarantined {
                any_quarantined = true;
            }
            if cap.is_archive {
                any_archive = true;
            }
        }
        i = i + 1;
    }
    MenuTargets { count, any_quarantined, any_archive, anchor: Some(anchor) }
}

/// Resolve the rows a context command will target, from the right-clicked
/// row and an explicit selection.
pub fn resolve_menu_targets(
    entries: &[FileEntry],
    selected: &std::collections::HashSet<u64>,
    row_ix: usize,
) -> (r: MenuTargets)
    ensures
        r == targets_spec(
            entries@,
            selected@,
            false,
            row_ix as int,
            MenuCapCounts {
                quarantined: saturate(count_caps(entries@, |c: TargetCap| quarantined_cap(c)) as int),
                archives: saturate(count_caps(entries@, |c: TargetCap| archive_cap(c)) as int),
            },
        ),
{
    let counts = MenuCapCounts::from_entries(entries);
    resolve_menu_targets_with_mode(entries, selected, false, row_ix, counts)
}

/// When a context command whose visibility depends on its targets is shown.
#[derive(Clone, Copy, Debug, PartialEq, Eq, Structural)]
pub enum Availability {
    /// Meaningful for exactly one target (Copy Path, Rename, Open With).
    SingleOnly,
    /// A target carries the quarantine mark, or the right-clicked row is a
    /// folder whose contents may (Clear Quarantine).
    AnyQuarantined,
    /// At least one target is an archive (Extract).
    AnyArchive,
    /// The right-clicked row is a folder (Open Terminal Here, Favorites).
    AnchorDir,
    /// The right-clicked row is not a folder (Slideshow from Here).
    AnchorFile,
}

/// Whether a rule allows a command for the targets.
pub open spec fn allows_spec(a: Availability, t: MenuTargets) -> bool {
    match a {
        Availability::SingleOnly => t.count == 1,
        Availability::AnyQuarantined => t.any_quarantined || (t.anchor matches Some(c) && c.kind
            == EntryKind::Directory),
        Availability::AnyArchive => t.any_archive,
        Availability::AnchorDir => t.anchor matches Some(c) && c.kind == EntryKind::Directory,
        Availability::AnchorFile => t.anchor matches Some(c) && c.kind != EntryKind::Directory,
    }
}

impl Availability {
    pub fn allows(&self, t: &MenuTargets) -> (r: bool)
        ensures
            r == allows_spec(*self, *t),
    {
        match self {
            Availability::SingleOnly => t.is_single(),
            Availability::AnyQuarantined => t.any_quarantined() || match t.anchor {
                Some(c) => c.kind == EntryKind::Directory,
                None => false,
            },
            Availability::AnyArchive => t.any_archive(),
            Availability::AnchorDir => match t.anchor {
                Some(c) => c.kind == EntryKind::Directory,
                None => false,
            },
            Availability::AnchorFile => match t.anchor {
                Some(c) => c.kind != EntryKind::Directory,
                None => false,
            },
        }
    }
}

/// The selection: explicit ids, or a symbolic Select All whose listed ids
/// are the exceptions.
#[derive(Debug)]
pub struct Selection {
    pub selected_set: std::collections::HashSet<u64>,
    pub selection_all: bool,
    /// The row a Shift-click extends from: the last one clicked.
    pub lead: Option<u64>,
}

/// Position of the first row with id `id`, or -1.
pub open spec fn row_pos(ids: Seq<u64>, id: u64) -> int
    decreases ids.len(),
{
    if ids.len() == 0 {
        -1
    } else {
        let p = row_pos(ids.drop_last(), id);
        if p >= 0 {
            p
        } else if ids.last() == id {
            ids.len() - 1
        } else {
            -1
        }
    }
}

proof fn lemma_row_pos(ids: Seq<u64>, id: u64)
    ensures
        -1 <= row_pos(ids, id) < ids.len(),
        row_pos(ids, id) >= 0 ==> ids[row_pos(ids, id)] == id,
        row_pos(ids, id) < 0 ==> forall|k: int| 0 <= k < ids.len() ==> ids[k] != id,
        row_pos(ids, id) >= 0 ==> forall|k: int| 0 <= k < row_pos(ids, id) ==> ids[k] != id,
    decreases ids.len(),
{
    if ids.len() > 0 {
        lemma_row_pos(ids.drop_last(), id);
        assert forall|k: int| 0 <= k < ids.len() - 1 implies ids[k] == ids.drop_last()[k] by {}
    }
}

/// The rows a Shift-click on row `row` spans: from the lead's row (if the
/// lead is still listed) to the clicked one, inclusive.
pub open spec fn click_range(ids: Seq<u64>, lead: Option<u64>, row: int) -> (int, int) {
    let l = match lead {
        Some(id) => row_pos(ids, id),
        None => -1,
    };
    if l < 0 {
        (row, row)
    } else if l <= row {
        (l, row)
    } else {
        (row, l)
    }
}

/// The ids of rows `lo..=hi`.
pub open spec fn ids_between(ids: Seq<u64>, lo: int, hi: int) -> Set<u64> {
    Set::new(|x: u64| exists|k: int| lo <= k <= hi && ids[k] == x)
}

/// The explicit selection after a click on row `row` (plain, Cmd or
/// Shift, or both).
pub open spec fn clicked_set(sel: Set<u64>, ids: Seq<u64>, lead: Option<u64>, row: int, shift: bool, cmd: bool) -> Set<u64> {
    let id = ids[row];
    if shift {
        let (lo, hi) = click_range(ids, lead, row);
        (if cmd { sel } else { Set::empty() }).union(ids_between(ids, lo, hi))
    } else if cmd {
        if sel.contains(id) {
            sel.remove(id)
        } else {
            sel.insert(id)
        }
    } else {
        set![id]
    }
}

fn find_row(ids: &[u64], id: u64) -> (r: Option<usize>)
    ensures
        match r {
            Some(k) => k as int == row_pos(ids@, id),
            None => row_pos(ids@, id) == -1,
        },
{
    proof {
        lemma_row_pos(ids@, id);
    }
    let mut k: usize = 0;
    while k < ids.len()
        invariant
            k <= ids.len(),
            forall|j: int| 0 <= j < k ==> ids@[j] != id,
            -1 <= row_pos(ids@, id) < ids@.len(),
            row_pos(ids@, id) >= 0 ==> ids@[row_pos(ids@, id)] == id,
            row_pos(ids@, id) >= 0 ==> forall|j: int| 0 <= j < row_pos(ids@, id) ==> ids@[j] != id,
            row_pos(ids@, id) < 0 ==> forall|j: int| 0 <= j < ids@.len() ==> ids@[j] != id,
        decreases ids.len() - k,
    {
        if ids[k] == id {
            return Some(k);
        }
        k = k + 1;
    }
    None
}

impl Selection {
    pub fn is_selected(&self, id: u64) -> (r: bool)
        ensures
            r == selected_spec(self.selected_set@, self.selection_all, id),
    {
        let listed = self.selected_set.contains(&id);
        if self.selection_all {
            !listed
        } else {
            listed
        }
    }

    /// How many of `total` rows are selected.
    pub open spec fn selected_count_spec(&self, total: nat) -> nat {
        if self.selection_all {
            if total > self.selected_set@.len() {
                (total - self.selected_set@.len()) as nat
            } else {
                0
            }
        } else {
            self.selected_set@.len()
        }
    }

    /// How many of `total` rows are selected.
    pub fn selected_count(&self, total: usize) -> (r: usize)
        ensures
            r == if self.selection_all {
                if total > self.selected_set@.len() {
                    (total - self.selected_set@.len()) as usize
                } else {
                    0usize
                }
            } else {
                self.selected_set@.len() as usize
            },
            r == self.selected_count_spec(total as nat),
    {
        if self.selection_all {
            total.saturating_sub(self.selected_set.len())
        } else {
            self.selected_set.len()
        }
    }

    /// Apply a click on row `row_ix` of the listed `ids`: a plain click
    /// selects just that row; Cmd toggles it; Shift selects the range from
    /// the lead to it (adding to the selection with Cmd, replacing it
    /// without). A symbolic Select All ends, and the clicked row becomes
    /// the lead. A row past the end changes nothing.
    pub fn apply_click_gesture(&mut self, ids: &[u64], row_ix: usize, shift: bool, cmd: bool)
        ensures
            row_ix >= ids.len() ==> final(self).selected_set@ == old(self).selected_set@
                && final(self).selection_all == old(self).selection_all && final(self).lead == old(self).lead,
            row_ix < ids.len() ==> {
                &&& final(self).selected_set@ == clicked_set(
                    old(self).selected_set@,
                    ids@,
                    old(self).lead,
                    row_ix as int,
                    shift,
                    cmd,
                )
                &&& !final(self).selection_all
                &&& final(self).lead == Some(ids@[row_ix as int])
            },
    {
        broadcast use vstd::std_specs::hash::group_hash_axioms;

        if row_ix >= ids.len() {
            return;
        }
        let id = ids[row_ix];
        let ghost sel0 = self.selected_set@;
        let ghost lead0 = self.lead;
        self.selection_all = false;
        if shift {
            let lead_ix: Option<usize> = match self.lead {
                Some(l) => {
                    proof {
                        lemma_row_pos(ids@, l);
                    }
                    find_row(ids, l)
                },
                None => None,
            };
            let (lo, hi) = match lead_ix {
                Some(l) => if l <= row_ix {
                    (l, row_ix)
                } else {
                    (row_ix, l)
                },
                None => (row_ix, row_ix),
            };
            assert((lo as int, hi as int) == click_range(ids@, lead0, row_ix as int));
            if !cmd {
                self.selected_set.clear();
            }
            let ghost base = self.selected_set@;
            assert(base.union(ids_between(ids@, lo as int, lo - 1)) =~= base);
            let mut k: usize = lo;
            while k <= hi
                invariant
                    lo <= hi < ids.len(),
                    lo <= k <= hi + 1,
                    !self.selection_all,
                    self.lead == lead0,
                    self.selected_set@ == base.union(ids_between(ids@, lo as int, k - 1)),
                decreases hi + 1 - k,
            {
                self.selected_set.insert(ids[k]);
                assert(base.union(ids_between(ids@, lo as int, k as int)) =~= base.union(
                    ids_between(ids@, lo as int, k - 1),
                ).insert(ids@[k as int]));
                k = k + 1;
            }
            assert(self.selected_set@ =~= clicked_set(sel0, ids@, lead0, row_ix as int, shift, cmd));
        } else if cmd {
            if !self.selected_set.remove(&id) {
                self.selected_set.insert(id);
            }
            assert(self.selected_set@ =~= clicked_set(sel0, ids@, lead0, row_ix as int, shift, cmd));
        } else {
            self.selected_set.clear();
            self.selected_set.insert(id);
            assert(self.selected_set@ =~= clicked_set(sel0, ids@, lead0, row_ix as int, shift, cmd));
        }
        self.lead = Some(id);
    }

    pub fn selection_is_empty(&self, total: usize) -> (r: bool)
        ensures
            r == (if self.selection_all {
                total <= self.selected_set@.len()
            } else {
                self.selected_set@.len() == 0
            }),
    {
        let _n = self.selected_set.len();
        self.selected_count(total) == 0
    }
}

/// Sort columns.
#[derive(Clone, Copy, Debug, PartialEq, Eq, Structural)]
pub enum SortColumn {
    Name,
    Size,
    /// The detected description, falling back to the extension-derived
    /// kind.
    Format,
    Modified,
    /// Relative parent directory, only on a flat surface.
    Path,
    /// How often a folder was visited: folders only, hottest first by
    /// default.
    AntTrail,
}

/// The column a sort name stands for, with its aliases.
pub open spec fn sort_column_of(s: Seq<char>) -> Option<SortColumn> {
    if s == "name"@ {
        Some(SortColumn::Name)
    } else if s == "size"@ {
        Some(SortColumn::Size)
    } else if s == "format"@ || s == "kind"@ || s == "magic"@ {
        Some(SortColumn::Format)
    } else if s == "modified"@ || s == "mtime"@ {
        Some(SortColumn::Modified)
    } else if s == "path"@ {
        Some(SortColumn::Path)
    } else if s == "ant"@ || s == "ant-trail"@ || s == "heat"@ {
        Some(SortColumn::AntTrail)
    } else {
        None
    }
}

impl SortColumn {
    /// Parse a sort column name; `None` for an unknown one.
    pub fn parse(s: &str) -> (r: Option<SortColumn>)
        ensures
            r == sort_column_of(s@),
    {
        let v = chars_of(s);
        if chars_eq_str(&v, "name") {
            Some(SortColumn::Name)
        } else if chars_eq_str(&v, "size") {
            Some(SortColumn::Size)
        } else if chars_eq_str(&v, "format") || chars_eq_str(&v, "kind") || chars_eq_str(&v, "magic") {
            Some(SortColumn::Format)
        } else if chars_eq_str(&v, "modified") || chars_eq_str(&v, "mtime") {
            Some(SortColumn::Modified)
        } else if chars_eq_str(&v, "path") {
            Some(SortColumn::Path)
        } else if chars_eq_str(&v, "ant") || chars_eq_str(&v, "ant-trail") || chars_eq_str(&v, "heat") {
            Some(SortColumn::AntTrail)
        } else {
            None
        }
    }
}

impl std::str::FromStr for SortColumn {
    type Err = ();

    fn from_str(s: &str) -> (r: Result<SortColumn, ()>)
        ensures
            r == match sort_column_of(s@) {
                Some(c) => Ok::<SortColumn, ()>(c),
                None => Err(()),
            },
    {
        match SortColumn::parse(s) {
            Some(c) => Ok(c),
            None => Err(()),
        }
    }
}

/// Resolve an Ant Trail pick against the rows in hand: with no heat to rank
/// by, Name ascending; every other pick passes through.
pub fn resolve_ant_sort(col: SortColumn, asc: bool, has_heat: bool) -> (r: (SortColumn, bool))
    ensures
        r == if col == SortColumn::AntTrail && !has_heat {
            (SortColumn::Name, true)
        } else {
            (col, asc)
        },
{
    if col == SortColumn::AntTrail && !has_heat {
        (SortColumn::Name, true)
    } else {
        (col, asc)
    }
}

/// Empty a row buffer. Releasing its backing allocation, or keeping it for
/// the next reload, is the caller's choice and does not change its
/// contents.
pub fn clear_row_buffer<T>(buffer: &mut Vec<T>, release_capacity: bool)
    ensures
        final(buffer)@ == Seq::<T>::empty(),
{
    if release_capacity {
        *buffer = Vec::new();
    } else {
        buffer.clear();
    }
}

/// `s` without its trailing slashes.
pub open spec fn trim_end_slashes(s: Seq<char>) -> Seq<char>
    decreases s.len(),
{
    if s.len() > 0 && s.last() == '/' {
        trim_end_slashes(s.drop_last())
    } else {
        s
    }
}

/// The leaf an archive entry path is promised under: its last component,
/// trailing slashes ignored, or `archive-item` when that is empty.
pub open spec fn promise_leaf(entry: Seq<char>) -> Seq<char> {
    let t = trim_end_slashes(entry);
    let last = t.skip(last_index(t, '/') + 1);
    if last.len() == 0 {
        "archive-item"@
    } else {
        last
    }
}

/// How many times `x` occurs in `s`.
pub open spec fn occurrences(s: Seq<Seq<char>>, x: Seq<char>) -> nat
    decreases s.len(),
{
    if s.len() == 0 {
        0
    } else {
        occurrences(s.drop_last(), x) + if s.last() == x {
            1nat
        } else {
            0nat
        }
    }
}

/// The name promised for a leaf that is the `count`-th one with its
/// case-insensitive name: the leaf itself the first time, then numbered,
/// before the extension of a file that has a non-empty stem and extension.
pub open spec fn numbered_leaf(leaf: Seq<char>, is_dir: bool, count: nat) -> Seq<char> {
    let dot = last_index(leaf, '.');
    if count == 1 {
        leaf
    } else if !is_dir && dot > 0 && dot < leaf.len() - 1 {
        leaf.take(dot) + seq![' '] + decimal(count) + seq!['.'] + leaf.skip(dot + 1)
    } else {
        leaf + seq![' '] + decimal(count)
    }
}

/// What [`archive_promise_names`] returns, one name per entry (as many as
/// there are both entries and directory flags).
pub open spec fn promise_names_spec(entries: Seq<Seq<char>>, dirs: Seq<bool>) -> Seq<Seq<char>> {
    let n = if entries.len() < dirs.len() { entries.len() } else { dirs.len() };
    let keys = Seq::new(n, |i: int| lowercase(promise_leaf(entries[i])));
    Seq::new(
        n,
        |i: int| numbered_leaf(promise_leaf(entries[i]), dirs[i], occurrences(keys.take(i + 1), keys[i])),
    )
}

fn leaf_of(entry: &str) -> (r: String)
    ensures
        r@ == promise_leaf(entry@),
{
    let v = chars_of(entry);
    let mut end: usize = v.len();
    assert(v@.take(end as int) =~= v@);
    while end > 0 && v[end - 1] == '/'
        invariant
            end <= v.len(),
            trim_end_slashes(v@) == trim_end_slashes(v@.take(end as int)),
        decreases end,
    {
        assert(v@.take(end as int).drop_last() =~= v@.take(end - 1));
        end = end - 1;
    }
    let t = crate::strings::slice_to_vec(&v, 0, end);
    assert(t@ =~= v@.take(end as int));
    assert(trim_end_slashes(v@.take(end as int)) == v@.take(end as int));
    proof {
        crate::strings::lemma_last_index(t@, '/');
    }
    let start: usize = match rfind_char(&t, '/') {
        Some(i) => i + 1,
        None => 0,
    };
    proof {
        crate::strings::lemma_last_index(t@, '/');
    }
    let last = crate::strings::slice_to_vec(&t, start, t.len());
    assert(last@ =~= t@.skip(last_index(t@, '/') + 1));
    if last.len() == 0 {
        proof {
            reveal_strlit("archive-item");
        }
        String::from_str("archive-item")
    } else {
        string_of(&last)
    }
}

proof fn lemma_occurrences_push(s: Seq<Seq<char>>, x: Seq<char>, y: Seq<char>)
    ensures
        occurrences(s.push(x), y) == occurrences(s, y) + if x == y { 1nat } else { 0nat },
{
    assert(s.push(x).drop_last() =~= s);
}

/// Names for the entries of an archive dragged out as promised files: the
/// real leaf of each (including unusual Unicode), but a second and later
/// entry with the same leaf, ignoring case, is numbered so one promised
/// item cannot replace another at the destination.
pub fn archive_promise_names(entries: &[String], directories: &[bool]) -> (r: Vec<String>)
    ensures
        strs_view(r@) == promise_names_spec(strs_view(entries@), directories@),
{
    let n = if entries.len() < directories.len() {
        entries.len()
    } else {
        directories.len()
    };
    let ghost ev = strs_view(entries@);
    let ghost keys = Seq::new(n as nat, |i: int| lowercase(promise_leaf(ev[i])));
    let mut seen: Vec<(String, usize)> = Vec::new();
    let mut out: Vec<String> = Vec::new();
    let mut i: usize = 0;
    while i < n
        invariant
            i <= n,
            n <= entries@.len(),
            n <= directories@.len(),
            ev == strs_view(entries@),
            keys == Seq::new(n as nat, |i: int| lowercase(promise_leaf(ev[i]))),
            strs_view(out@) == Seq::new(
                i as nat,
                |k: int| numbered_leaf(promise_leaf(ev[k]), directories@[k], occurrences(keys.take(k + 1), keys[k])),
            ),
            forall|t: int| 0 <= t < seen@.len() ==> (#[trigger] seen@[t]).1 == occurrences(keys.take(i as int), seen@[t].0@),
            forall|t: int| 0 <= t < seen@.len() ==> (#[trigger] seen@[t]).1 <= i,
            forall|a: int, b: int| 0 <= a < b < seen@.len() ==> (#[trigger] seen@[a]).0@ != (#[trigger] seen@[b]).0@,
            forall|x: Seq<char>| #[trigger] occurrences(keys.take(i as int), x) > 0 ==> exists|t: int| 0 <= t < seen@.len() && (#[trigger] seen@[t]).0@ == x,
        decreases n - i,
    {
        let leaf = leaf_of(entries[i].as_str());
        assert(ev[i as int] == entries@[i as int]@);
        let key = to_lowercase(leaf.as_str());
        assert(key@ == keys[i as int]);
        assert(keys.take(i + 1) =~= keys.take(i as int).push(keys[i as int]));
        let mut pos: Option<usize> = None;
        let mut t: usize = 0;
        while t < seen.len()
            invariant
                t <= seen@.len(),
                pos matches Some(p) ==> p < seen@.len() && seen@[p as int].0@ == key@,
                pos is None ==> forall|q: int| 0 <= q < t ==> seen@[q].0@ != key@,
            decreases seen.len() - t,
        {
            if pos.is_none() && seen[t].0.eq(&key) {
                pos = Some(t);
            }
            t = t + 1;
        }
        let ghost mut at: int = 0;
        let ghost seen_before = seen@;
        let count: usize = match pos {
            Some(p) => {
                proof {
                    at = p as int;
                }
                let c = seen[p].1 + 1;
                let ghost old_seen = seen@;
                let k = seen[p].0.clone();
                seen.set(p, (k, c));
                proof {
                    assert forall|q: int| 0 <= q < seen_before.len() implies seen@[q].0@ == seen_before[q].0@ by {}
                    assert forall|a: int, b: int| 0 <= a < b < seen@.len() implies (#[trigger] seen@[a]).0@ != (#[trigger] seen@[b]).0@ by {
                        assert(seen@[a].0@ == old_seen[a].0@);
                        assert(seen@[b].0@ == old_seen[b].0@);
                    }
                    assert forall|q: int| 0 <= q < seen@.len() implies (#[trigger] seen@[q]).1 == occurrences(keys.take(i + 1), seen@[q].0@) by {
                        lemma_occurrences_push(keys.take(i as int), keys[i as int], seen@[q].0@);
                        if q != p {
                            assert(seen@[q] == old_seen[q]);
                        }
                    }
                }
                c
            },
            None => {
                proof {
                    lemma_occurrences_push(keys.take(i as int), keys[i as int], key@);
                    if occurrences(keys.take(i as int), key@) > 0 {
                        let q = choose|q: int| 0 <= q < seen@.len() && (#[trigger] seen@[q]).0@ == key@;
                        assert(seen@[q].0@ != key@);
                    }
                }
                let ghost old_seen = seen@;
                seen.push((key.clone(), 1));
                proof {
                    at = old_seen.len() as int;
                    assert forall|q: int| 0 <= q < seen_before.len() implies seen@[q].0@ == seen_before[q].0@ by {
                        assert(seen@[q] == old_seen[q]);
                    }
                    assert forall|a: int, b: int| 0 <= a < b < seen@.len() implies (#[trigger] seen@[a]).0@ != (#[trigger] seen@[b]).0@ by {
                        if b == old_seen.len() {
                            assert(seen@[a] == old_seen[a]);
                        } else {
                            assert(seen@[a] == old_seen[a] && seen@[b] == old_seen[b]);
                        }
                    }
                    assert forall|q: int| 0 <= q < seen@.len() implies (#[trigger] seen@[q]).1 == occurrences(keys.take(i + 1), seen@[q].0@) by {
                        lemma_occurrences_push(keys.take(i as int), keys[i as int], seen@[q].0@);
                        if q < old_seen.len() {
                            assert(seen@[q] == old_seen[q]);
                        }
                    }
                }
                1
            },
        };
        proof {
            lemma_occurrences_push(keys.take(i as int), keys[i as int], key@);
            assert(count == occurrences(keys.take(i + 1), keys[i as int]));
            assert forall|x: Seq<char>| #[trigger] occurrences(keys.take(i + 1), x) > 0 implies exists|t: int| 0 <= t < seen@.len() && (#[trigger] seen@[t]).0@ == x by {
                lemma_occurrences_push(keys.take(i as int), keys[i as int], x);
                if x == key@ {
                    assert(seen@[at].0@ == x);
                } else {
                    assert(occurrences(keys.take(i as int), x) > 0);
                    let t = choose|t: int| 0 <= t < seen_before.len() && (#[trigger] seen_before[t]).0@ == x;
                    assert(seen@[t].0@ == seen_before[t].0@);
                }
            }
        }
        let name = numbered(&leaf, directories[i], count);
        let ghost ob = strs_view(out@);
        let ghost nv = name@;
        assert(nv == numbered_leaf(promise_leaf(ev[i as int]), directories@[i as int], occurrences(keys.take(i + 1), keys[i as int])));
        out.push(name);
        assert(strs_view(out@) =~= ob.push(nv));
        assert(strs_view(out@) =~= Seq::new(
            (i + 1) as nat,
            |k: int| numbered_leaf(promise_leaf(ev[k]), directories@[k], occurrences(keys.take(k + 1), keys[k])),
        ));
        i = i + 1;
    }
    out
}

fn numbered(leaf: &String, is_dir: bool, count: usize) -> (r: String)
    requires
        count >= 1,
    ensures
        r@ == numbered_leaf(leaf@, is_dir, count as nat),
{
    if count == 1 {
        return leaf.clone();
    }
    let v = chars_of(leaf.as_str());
    proof {
        crate::strings::lemma_last_index(v@, '.');
    }
    let dot = rfind_char(&v, '.');
    match dot {
        Some(d) => {
            assert(d < v.len());
            if !is_dir && d > 0 && d + 1 < v.len() {
                let stem = crate::strings::slice_to_vec(&v, 0, d);
                let ext = crate::strings::slice_to_vec(&v, d + 1, v.len());
                let mut r = string_of(&stem);
                push_char(&mut r, ' ');
                push_decimal(&mut r, count as u64);
                push_char(&mut r, '.');
                crate::strings::push_chars(&mut r, &ext);
                assert(r@ =~= numbered_leaf(leaf@, is_dir, count as nat));
                return r;
            }
        },
        None => {},
    }
    let mut r = leaf.clone();
    push_char(&mut r, ' ');
    push_decimal(&mut r, count as u64);
    assert(r@ =~= numbered_leaf(leaf@, is_dir, count as nat));
    r
}

/// Drag payload for entries inside an archive: the archive's path, the
/// stored entry paths, whether each one is a directory (parallel to
/// `entries`), and the password the archive was opened with.
#[derive(Debug)]
pub struct ArchiveEntryDrag {
    pub archive: String,
    pub entries: Vec<String>,
    pub directories: Vec<bool>,
    pub password: Option<String>,
}

/// Two payloads carry the same drag.
pub open spec fn same_drag(a: ArchiveEntryDrag, b: ArchiveEntryDrag) -> bool {
    &&& a.archive@ == b.archive@
    &&& strs_view(a.entries@) == strs_view(b.entries@)
    &&& a.directories@ == b.directories@
    &&& match (a.password, b.password) {
        (Some(x), Some(y)) => x@ == y@,
        (None, None) => true,
        _ => false,
    }
}

/// Two drag slots hold the same drag, or are both empty.
pub open spec fn same_slot(a: Option<ArchiveEntryDrag>, b: Option<ArchiveEntryDrag>) -> bool {
    match (a, b) {
        (Some(x), Some(y)) => same_drag(x, y),
        (None, None) => true,
        _ => false,
    }
}

fn copy_strings(v: &Vec<String>) -> (r: Vec<String>)
    ensures
        strs_view(r@) == strs_view(v@),
{
    let mut out: Vec<String> = Vec::new();
    let mut i: usize = 0;
    while i < v.len()
        invariant
            i <= v.len(),
            out.len() == i,
            forall|j: int| 0 <= j < i ==> (#[trigger] out@[j])@ == v@[j]@,
        decreases v.len() - i,
    {
        let s = v[i].clone();
        out.push(s);
        i = i + 1;
    }
    assert(strs_view(out@) =~= strs_view(v@));
    out
}

fn copy_flags(v: &Vec<bool>) -> (r: Vec<bool>)
    ensures
        r@ == v@,
{
    let mut out: Vec<bool> = Vec::new();
    let mut i: usize = 0;
    while i < v.len()
        invariant
            i <= v.len(),
            out@ == v@.take(i as int),
        decreases v.len() - i,
    {
        out.push(v[i]);
        assert(v@.take(i + 1) =~= v@.take(i as int).push(v@[i as int]));
        i = i + 1;
    }
    assert(v@.take(v.len() as int) =~= v@);
    out
}

impl ArchiveEntryDrag {
    /// A copy of the payload.
    pub fn duplicate(&self) -> (r: ArchiveEntryDrag)
        ensures
            same_drag(r, *self),
    {
        ArchiveEntryDrag {
            archive: self.archive.clone(),
            entries: copy_strings(&self.entries),
            directories: copy_flags(&self.directories),
            password: match &self.password {
                Some(p) => Some(p.clone()),
                None => None,
            },
        }
    }
}

/// The archive drag parked for windows that see it only through native
/// pointer events: a copy of it, or `None` when no such drag is running.
pub fn native_archive_drag(slot: &Option<ArchiveEntryDrag>) -> (r: Option<ArchiveEntryDrag>)
    ensures
        same_slot(r, *slot),
{
    match slot {
        Some(d) => Some(d.duplicate()),
        None => None,
    }
}

/// Whether a parked archive drag is running.
pub fn native_archive_drag_active(slot: &Option<ArchiveEntryDrag>) -> (r: bool)
    ensures
        r == slot.is_some(),
{
    slot.is_some()
}

/// Take the parked archive drag out of its slot, leaving it empty.
pub fn take_native_archive_drag(slot: &mut Option<ArchiveEntryDrag>) -> (r: Option<ArchiveEntryDrag>)
    ensures
        r == *old(slot),
        final(slot).is_none(),
{
    slot.take()
}

/// Park a drag (or clear the slot with `None`).
pub fn set_native_archive_drag(slot: &mut Option<ArchiveEntryDrag>, drag: Option<ArchiveEntryDrag>)
    ensures
        *final(slot) == drag,
{
    *slot = drag;
}

/// How many file icons the drag ghost stacks.
pub const GHOST_STACK_CAP: usize = 4;

/// How many names the drag ghost lists beside its stack before "+N more".
pub const GHOST_NAME_CAP: usize = 3;

/// Above this many selected rows a drag carries no eager path snapshot.
pub const MAX_EAGER_DRAG_ITEMS: usize = 10_000;

/// The selected rows among the first `n` whose path is known, in listing
/// order.
pub open spec fn drag_rows_upto(entries: Seq<FileEntry>, sel: Set<u64>, all: bool, known: Seq<bool>, n: nat) -> Seq<usize>
    decreases n,
{
    if n == 0 {
        Seq::empty()
    } else {
        let i = (n - 1) as int;
        let rest = drag_rows_upto(entries, sel, all, known, (n - 1) as nat);
        if selected_spec(sel, all, entries[i].id) && known[i] {
            rest.push(i as usize)
        } else {
            rest
        }
    }
}

/// The rows a drag of the selection snapshots, in listing order: none for
/// archive contents (they carry their own payload) or for a selection
/// larger than [`MAX_EAGER_DRAG_ITEMS`]; otherwise every selected row whose
/// path is known (`known`, parallel to the rows).
pub fn drag_snapshot_rows(entries: &[FileEntry], selection: &Selection, known: &[bool], archive_mode: bool) -> (r:
    Vec<usize>)
    requires
        known@.len() == entries@.len(),
    ensures
        r@ == if archive_mode || selection.selected_count_spec(entries@.len()) > MAX_EAGER_DRAG_ITEMS {
            Seq::<usize>::empty()
        } else {
            drag_rows_upto(entries@, selection.selected_set@, selection.selection_all, known@, entries@.len() as nat)
        },
{
    let mut out: Vec<usize> = Vec::new();
    if archive_mode || selection.selected_count(entries.len()) > MAX_EAGER_DRAG_ITEMS {
        return out;
    }
    let mut i: usize = 0;
    while i < entries.len()
        invariant
            i <= entries@.len(),
            known@.len() == entries@.len(),
            out@ == drag_rows_upto(entries@, selection.selected_set@, selection.selection_all, known@, i as nat),
        decreases entries@.len() - i,
    {
        if selection.is_selected(entries[i].id) && known[i] {
            out.push(i);
        }
        i = i + 1;
    }
    out
}

/// An archive row as plain values: its stored path and whether it is a
/// directory.
pub open spec fn archive_row_view(r: (String, bool)) -> (Seq<char>, bool) {
    (r.0@, r.1)
}

/// The archive rows among the first `n` whose listed row is selected, in
/// row order.
pub open spec fn selected_archive_rows(
    rows: Seq<(Seq<char>, bool)>,
    entries: Seq<FileEntry>,
    sel: Set<u64>,
    all: bool,
    n: nat,
) -> Seq<(Seq<char>, bool)>
    decreases n,
{
    if n == 0 {
        Seq::empty()
    } else {
        let i = (n - 1) as int;
        let rest = selected_archive_rows(rows, entries, sel, all, (n - 1) as nat);
        if i < entries.len() && selected_spec(sel, all, entries[i].id) {
            rest.push(rows[i])
        } else {
            rest
        }
    }
}

/// The archive entries a drag from row `row_ix` carries: the whole
/// selection when the pressed row is part of it, otherwise just that row.
pub open spec fn archive_drag_rows(
    rows: Seq<(Seq<char>, bool)>,
    entries: Seq<FileEntry>,
    sel: Set<u64>,
    all: bool,
    row_ix: int,
    row_is_selected: bool,
) -> Seq<(Seq<char>, bool)> {
    if row_is_selected {
        selected_archive_rows(rows, entries, sel, all, rows.len())
    } else if 0 <= row_ix < rows.len() {
        seq![rows[row_ix]]
    } else {
        Seq::empty()
    }
}

/// The drag payload for pressing archive row `row_ix` (`rows` parallel to
/// the listed `entries`): nothing when it carries no entry.
pub fn archive_drag_for_row(
    archive: &str,
    rows: &Vec<(String, bool)>,
    entries: &[FileEntry],
    selection: &Selection,
    row_ix: usize,
    row_is_selected: bool,
    password: Option<String>,
) -> (r: Option<ArchiveEntryDrag>)
    ensures
        ({
            let picked = archive_drag_rows(
                rows@.map_values(|x: (String, bool)| archive_row_view(x)),
                entries@,
                selection.selected_set@,
                selection.selection_all,
                row_ix as int,
                row_is_selected,
            );
            &&& r is Some <==> picked.len() > 0
            &&& r matches Some(d) ==> {
                &&& d.archive@ == archive@
                &&& strs_view(d.entries@) == picked.map_values(|x: (Seq<char>, bool)| x.0)
                &&& d.directories@ == picked.map_values(|x: (Seq<char>, bool)| x.1)
                &&& d.password == password
            }
        }),
{
    let ghost rv = rows@.map_values(|x: (String, bool)| archive_row_view(x));
    let mut paths: Vec<String> = Vec::new();
    let mut dirs: Vec<bool> = Vec::new();
    if row_is_selected {
        let mut i: usize = 0;
        while i < rows.len()
            invariant
                i <= rows@.len(),
                rv == rows@.map_values(|x: (String, bool)| archive_row_view(x)),
                paths@.len() == dirs@.len(),
                strs_view(paths@) == selected_archive_rows(rv, entries@, selection.selected_set@, selection.selection_all, i as nat).map_values(|x: (Seq<char>, bool)| x.0),
                dirs@ == selected_archive_rows(rv, entries@, selection.selected_set@, selection.selection_all, i as nat).map_values(|x: (Seq<char>, bool)| x.1),
            decreases rows@.len() - i,
        {
            let ghost before = selected_archive_rows(rv, entries@, selection.selected_set@, selection.selection_all, i as nat);
            if i < entries.len() && selection.is_selected(entries[i].id) {
                let ghost pb = strs_view(paths@);
                paths.push(string_of(&chars_of(rows[i].0.as_str())));
                dirs.push(rows[i].1);
                assert(rv[i as int] == (rows@[i as int].0@, rows@[i as int].1));
                assert(strs_view(paths@) =~= pb.push(rv[i as int].0));
                assert(strs_view(paths@) =~= before.push(rv[i as int]).map_values(|x: (Seq<char>, bool)| x.0));
                assert(dirs@ =~= before.push(rv[i as int]).map_values(|x: (Seq<char>, bool)| x.1));
            }
            i = i + 1;
        }
    } else if row_ix < rows.len() {
        paths.push(string_of(&chars_of(rows[row_ix].0.as_str())));
        dirs.push(rows[row_ix].1);
        assert(rv[row_ix as int] == (rows@[row_ix as int].0@, rows@[row_ix as int].1));
        assert(strs_view(paths@) =~= seq![rv[row_ix as int]].map_values(|x: (Seq<char>, bool)| x.0));
        assert(dirs@ =~= seq![rv[row_ix as int]].map_values(|x: (Seq<char>, bool)| x.1));
    } else {
        assert(strs_view(paths@) =~= Seq::<(Seq<char>, bool)>::empty().map_values(|x: (Seq<char>, bool)| x.0));
        assert(dirs@ =~= Seq::<(Seq<char>, bool)>::empty().map_values(|x: (Seq<char>, bool)| x.1));
    }
    if paths.len() == 0 {
        None
    } else {
        Some(ArchiveEntryDrag { archive: string_of(&chars_of(archive)), entries: paths, directories: dirs, password })
    }
}

/// How a file row treats something dropped onto it.
#[derive(Clone, Copy, Debug, PartialEq, Eq, Structural)]
pub enum ArchiveDropTarget {
    /// Not an archive by name: not a drop target.
    No,
    /// An archive that can take new entries in place.
    Accepts,
    /// A recognized archive that cannot be edited in place: still a
    /// target, so the drop is refused visibly.
    ReadOnly,
}

/// Classify a row as a drop target for adding files to an archive.
/// `format_edit_in_place` is what the archive library makes of the row's
/// name: `None` when the name is no archive format it knows, otherwise
/// whether that format can be edited in place. Directories never are.
pub fn archive_drop_target(kind: EntryKind, format_edit_in_place: Option<bool>) -> (r:
    ArchiveDropTarget)
    ensures
        r == if kind == EntryKind::Directory {
            ArchiveDropTarget::No
        } else {
            match format_edit_in_place {
                Some(true) => ArchiveDropTarget::Accepts,
                Some(false) => ArchiveDropTarget::ReadOnly,
                None => ArchiveDropTarget::No,
            }
        },
{
    if let EntryKind::Directory = kind {
        return ArchiveDropTarget::No;
    }
    match format_edit_in_place {
        Some(true) => ArchiveDropTarget::Accepts,
        Some(false) => ArchiveDropTarget::ReadOnly,
        None => ArchiveDropTarget::No,
    }
}

} // verus!
