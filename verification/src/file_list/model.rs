//! Re-sorting a listing together with its per-row decorations: visit heat,
//! colour tags and favorite state travel with their rows, so a re-sort
//! never tints, tags or stars the wrong row.

use vstd::prelude::*;

use crate::file_list::flat::FlatPathStore;
use crate::file_list::sort::{
    ids_distinct,
    key_of, key_order, path_key_of, row_key, rows_keyed, rows_sorted, sort_action, sort_action_spec, sort_by_path,
    sort_in_place, sort_rows, sortable, zip_heats, SortAction,
};
use crate::file_list::{sort_column_of, FileEntry, SortColumn};

verus! {

broadcast use vstd::seq_lib::group_to_multiset_ensures;

/// A Finder colour tag.
#[derive(Clone, Copy, Debug, PartialEq, Eq, Structural)]
pub enum TagColor {
    Red,
    Orange,
    Yellow,
    Green,
    Blue,
    Purple,
    Gray,
}

/// The listing's row-parallel decorations: each row's visit heat, colour
/// tags and favorite state. An empty vector is one the surface never
/// filled (a flat listing has none), and stays empty.
#[derive(Debug)]
pub struct RowDecor {
    pub heats: Vec<u32>,
    pub tags: Vec<Vec<TagColor>>,
    pub favorited: Vec<bool>,
}

/// Row `i`'s heat, zero where the vector has none.
pub open spec fn heat_at(d: RowDecor, i: int) -> u32 {
    if 0 <= i < d.heats@.len() {
        d.heats@[i]
    } else {
        0
    }
}

/// Row `i`'s tags, none where the vector has none.
pub open spec fn tags_at(d: RowDecor, i: int) -> Seq<TagColor> {
    if 0 <= i < d.tags@.len() {
        d.tags@[i]@
    } else {
        Seq::empty()
    }
}

/// Row `i`'s favorite state, unstarred where the vector has none.
pub open spec fn favorite_at(d: RowDecor, i: int) -> bool {
    0 <= i < d.favorited@.len() && d.favorited@[i]
}

/// Each row with its decorations.
pub open spec fn decorated(e: Seq<FileEntry>, d: RowDecor) -> Seq<(FileEntry, u32, Seq<TagColor>, bool)> {
    Seq::new(e.len(), |i: int| (e[i], heat_at(d, i), tags_at(d, i), favorite_at(d, i)))
}

/// A decoration vector after a rebuild over `n` rows: one value per row if
/// it held any, else still empty.
pub open spec fn rebuilt_len(len: nat, n: nat) -> nat {
    if len == 0 {
        0
    } else {
        n
    }
}

/// The rows were re-arranged with every decoration staying on its row, and
/// each populated decoration vector now has one value per row.
pub open spec fn decor_follows(e0: Seq<FileEntry>, d0: RowDecor, e1: Seq<FileEntry>, d1: RowDecor) -> bool {
    &&& decorated(e1, d1).to_multiset() == decorated(e0, d0).to_multiset()
    &&& d1.heats@.len() == rebuilt_len(d0.heats@.len(), e0.len())
    &&& d1.tags@.len() == rebuilt_len(d0.tags@.len(), e0.len())
    &&& d1.favorited@.len() == rebuilt_len(d0.favorited@.len(), e0.len())
}

/// A flat row's Path-order rank: its directory's rank, or the largest rank
/// for a row the arena does not know.
pub open spec fn flat_row_rank(f: FlatPathStore, ranks: Seq<u32>, id: u64) -> u32 {
    match f.row_of(id) {
        Some(k) => if f.rows()[k].dir < ranks.len() {
            ranks[f.rows()[k].dir]
        } else {
            u32::MAX
        },
        None => u32::MAX,
    }
}

/// Flat rows in Path order under the given directory ranks.
pub open spec fn flat_path_sorted(e: Seq<FileEntry>, f: FlatPathStore, ranks: Seq<u32>, asc: bool) -> bool {
    forall|i: int, j: int|
        0 <= i < j < e.len() ==> key_order(
            path_key_of(e[i], flat_row_rank(f, ranks, e[i].id)),
            path_key_of(e[j], flat_row_rank(f, ranks, e[j].id)),
            asc,
        ) <= 0
}

fn fit_copy<T: Copy>(v: &mut Vec<T>, n: usize, d: T)
    ensures
        final(v)@ == Seq::new(n as nat, |i: int| if i < old(v)@.len() { old(v)@[i] } else { d }),
{
    let ghost v0 = v@;
    v.truncate(n);
    while v.len() < n
        invariant
            v@.len() <= n,
            forall|i: int| 0 <= i < v@.len() ==> v@[i] == if i < v0.len() { v0[i] } else { d },
            v@.len() >= (if v0.len() < n { v0.len() } else { n as nat }),
        decreases n - v@.len(),
    {
        v.push(d);
    }
    assert(v@ =~= Seq::new(n as nat, |i: int| if i < v0.len() { v0[i] } else { d }));
}

fn fit_tags(v: &mut Vec<Vec<TagColor>>, n: usize)
    ensures
        final(v)@.len() == n,
        forall|i: int| 0 <= i < n ==> #[trigger] final(v)@[i]@ == if i < old(v)@.len() { old(v)@[i]@ } else { Seq::empty() },
{
    let ghost v0 = v@;
    v.truncate(n);
    while v.len() < n
        invariant
            v@.len() <= n,
            forall|i: int| 0 <= i < v@.len() ==> #[trigger] v@[i]@ == if i < v0.len() { v0[i]@ } else { Seq::empty() },
            v@.len() >= (if v0.len() < n { v0.len() } else { n as nat }),
        decreases n - v@.len(),
    {
        v.push(Vec::new());
    }
}

/// Each row with its decoration values, as the re-sort carries them.
pub open spec fn row_view(r: (FileEntry, u32, (Vec<TagColor>, bool))) -> (FileEntry, u32, Seq<TagColor>, bool) {
    (r.0, r.1, r.2.0@, r.2.1)
}

/// Rows in the order of their keys, each keyed with its own heat.
pub open spec fn decor_keyed(e: Seq<FileEntry>, d: RowDecor, col: SortColumn, by_heat: bool, asc: bool) -> bool {
    forall|i: int, j: int|
        0 <= i < j < e.len() ==> key_order(
            row_key(e[i], heat_at(d, i), by_heat, col),
            row_key(e[j], heat_at(d, j), by_heat, col),
            asc,
        ) <= 0
}

/// What holds of every element of a sequence holds of every element of
/// any rearrangement of it.
proof fn lemma_perm_all<A>(a: Seq<A>, b: Seq<A>, p: spec_fn(A) -> bool)
    requires
        a.to_multiset() == b.to_multiset(),
        forall|k: int| 0 <= k < a.len() ==> #[trigger] p(a[k]),
    ensures
        forall|k: int| 0 <= k < b.len() ==> #[trigger] p(b[k]),
{
    broadcast use vstd::multiset::group_multiset_axioms;

    assert forall|k: int| 0 <= k < b.len() implies #[trigger] p(b[k]) by {
        assert(b.to_multiset().contains(b[k]));
        assert(a.to_multiset().contains(b[k]));
        let q = choose|q: int| 0 <= q < a.len() && a[q] == b[k];
        assert(p(a[q]));
    }
}

/// Whether a carried row holds only the defaults of the vectors that were
/// empty.
pub open spec fn blank_where_unset(r: (FileEntry, u32, (Vec<TagColor>, bool)), heats: bool, tags: bool, favs: bool) -> bool {
    &&& !heats ==> r.1 == 0
    &&& !tags ==> r.2.0@ == Seq::<TagColor>::empty()
    &&& !favs ==> !r.2.1
}

/// Rebuild the rows with their decorations, re-ordered by row key when
/// `reorder`, kept in place otherwise.
fn resort_decorated(entries: &mut Vec<FileEntry>, decor: &mut RowDecor, col: SortColumn, by_heat: bool, reorder: bool, asc: bool)
    ensures
        decor_follows(old(entries)@, *old(decor), final(entries)@, *final(decor)),
        final(entries)@.to_multiset() == old(entries)@.to_multiset(),
        reorder ==> decor_keyed(final(entries)@, *final(decor), col, by_heat, asc),
        !reorder ==> final(entries)@ == old(entries)@,
{
    broadcast use vstd::multiset::group_multiset_axioms;

    let ghost e0 = entries@;
    let ghost d0 = *decor;
    let n = entries.len();
    let had_heats = decor.heats.len() > 0;
    let had_tags = decor.tags.len() > 0;
    let had_favorites = decor.favorited.len() > 0;
    let mut heats: Vec<u32> = Vec::new();
    std::mem::swap(&mut heats, &mut decor.heats);
    let mut tags: Vec<Vec<TagColor>> = Vec::new();
    std::mem::swap(&mut tags, &mut decor.tags);
    let mut favs: Vec<bool> = Vec::new();
    std::mem::swap(&mut favs, &mut decor.favorited);
    fit_copy(&mut heats, n, 0u32);
    fit_tags(&mut tags, n);
    fit_copy(&mut favs, n, false);
    let ghost h0 = heats@;
    let ghost t0 = tags@;
    let ghost f0 = favs@;
    assert forall|i: int| 0 <= i < n implies h0[i] == heat_at(d0, i) && t0[i]@ == tags_at(d0, i) && f0[i]
        == favorite_at(d0, i) by {}
    let mut rows_rev: Vec<(FileEntry, u32, (Vec<TagColor>, bool))> = Vec::new();
    while entries.len() > 0
        invariant
            entries@ == e0.take(entries@.len() as int),
            heats@ == h0.take(entries@.len() as int),
            tags@ == t0.take(entries@.len() as int),
            favs@ == f0.take(entries@.len() as int),
            entries@.len() + rows_rev@.len() == n,
            n == e0.len(),
            h0.len() == n,
            t0.len() == n,
            f0.len() == n,
            forall|k: int| 0 <= k < rows_rev@.len() ==> #[trigger] rows_rev@[k] == (e0[n - 1 - k], h0[n - 1 - k], (t0[n - 1 - k], f0[n - 1 - k])),
        decreases entries@.len(),
    {
        let ghost eb = entries@;
        let ghost hb = heats@;
        let ghost tb = tags@;
        let ghost fb = favs@;
        let e = entries.pop().unwrap();
        let h = heats.pop().unwrap();
        let t = tags.pop().unwrap();
        let f = favs.pop().unwrap();
        assert(eb =~= entries@.push(e));
        assert(hb =~= heats@.push(h));
        assert(tb =~= tags@.push(t));
        assert(fb =~= favs@.push(f));
        assert(entries@ =~= e0.take(entries@.len() as int));
        assert(heats@ =~= h0.take(entries@.len() as int));
        assert(tags@ =~= t0.take(entries@.len() as int));
        assert(favs@ =~= f0.take(entries@.len() as int));
        rows_rev.push((e, h, (t, f)));
    }
    let rows = reversed(rows_rev);
    let ghost rv = rows@;
    assert forall|k: int| 0 <= k < n implies #[trigger] rv[k] == (e0[k], h0[k], (t0[k], f0[k])) by {
        assert(rv[k] == rows_rev@[n - 1 - k]);
    }
    assert(rv.map_values(|r: (FileEntry, u32, (Vec<TagColor>, bool))| row_view(r)) =~= decorated(e0, d0));
    assert(rv.map_values(|r: (FileEntry, u32, (Vec<TagColor>, bool))| r.0) =~= e0);
    let ghost blank = |r: (FileEntry, u32, (Vec<TagColor>, bool))| blank_where_unset(r, had_heats, had_tags, had_favorites);
    assert forall|k: int| 0 <= k < rv.len() implies #[trigger] blank(rv[k]) by {}
    let sorted = if reorder {
        sort_rows(rows, col, by_heat, asc)
    } else {
        rows
    };
    let ghost sv = sorted@;
    proof {
        vstd::seq_lib::to_multiset_len(rv);
        vstd::seq_lib::to_multiset_len(sv);
        assert(sv.len() == n);
        crate::file_list::sort::lemma_map_multiset(rv, sv, |r: (FileEntry, u32, (Vec<TagColor>, bool))| row_view(r));
        crate::file_list::sort::lemma_map_multiset(rv, sv, |r: (FileEntry, u32, (Vec<TagColor>, bool))| r.0);
        lemma_perm_all(rv, sv, blank);
    }
    let mut rev = reversed(sorted);
    while rev.len() > 0
        invariant
            rev@.len() + entries@.len() == sv.len(),
            forall|k: int| 0 <= k < rev@.len() ==> #[trigger] rev@[k] == sv[sv.len() - 1 - k],
            forall|k: int| 0 <= k < entries@.len() ==> #[trigger] entries@[k] == sv[k].0,
            heats@.len() == (if had_heats { entries@.len() } else { 0 }),
            tags@.len() == (if had_tags { entries@.len() } else { 0 }),
            favs@.len() == (if had_favorites { entries@.len() } else { 0 }),
            had_heats ==> forall|k: int| 0 <= k < entries@.len() ==> #[trigger] heats@[k] == sv[k].1,
            had_tags ==> forall|k: int| 0 <= k < entries@.len() ==> #[trigger] tags@[k] == sv[k].2.0,
            had_favorites ==> forall|k: int| 0 <= k < entries@.len() ==> #[trigger] favs@[k] == sv[k].2.1,
        decreases rev@.len(),
    {
        let (e, h, (t, f)) = rev.pop().unwrap();
        assert((e, h, (t, f)) == sv[entries@.len() as int]);
        entries.push(e);
        if had_heats {
            heats.push(h);
        }
        if had_tags {
            tags.push(t);
        }
        if had_favorites {
            favs.push(f);
        }
    }
    decor.heats = heats;
    decor.tags = tags;
    decor.favorited = favs;
    proof {
        let d1 = *decor;
        let e1 = entries@;
        assert forall|k: int| 0 <= k < sv.len() implies #[trigger] row_view(sv[k]) == (e1[k], heat_at(d1, k), tags_at(
            d1,
            k,
        ), favorite_at(d1, k)) by {
            assert(blank(sv[k]));
        }
        assert(sv.map_values(|r: (FileEntry, u32, (Vec<TagColor>, bool))| row_view(r)) =~= decorated(e1, d1));
        assert(sv.map_values(|r: (FileEntry, u32, (Vec<TagColor>, bool))| r.0) =~= e1);
        assert(decorated(e1, d1).to_multiset() == decorated(e0, d0).to_multiset());
        assert(d1.heats@.len() == rebuilt_len(d0.heats@.len(), e0.len()));
        assert(d1.tags@.len() == rebuilt_len(d0.tags@.len(), e0.len()));
        assert(d1.favorited@.len() == rebuilt_len(d0.favorited@.len(), e0.len()));
        if reorder {
            assert forall|i: int, j: int| 0 <= i < j < e1.len() implies key_order(
                row_key(e1[i], heat_at(d1, i), by_heat, col),
                row_key(e1[j], heat_at(d1, j), by_heat, col),
                asc,
            ) <= 0 by {
                assert(row_view(sv[i]).1 == heat_at(d1, i));
                assert(row_view(sv[j]).1 == heat_at(d1, j));
            }
        } else {
            assert(e1 =~= e0);
        }
    }
}

/// Where a re-sort leaves the rows and their decorations: nothing moves
/// for fewer than two rows; a flat listing orders its rows by directory
/// rank for Path and by the column otherwise, its decorations untouched;
/// every other re-sort carries each row's decorations with it.
pub open spec fn model_resorted(
    e0: Seq<FileEntry>,
    d0: RowDecor,
    flat: Option<FlatPathStore>,
    ranks: Seq<u32>,
    col: SortColumn,
    asc: bool,
    e1: Seq<FileEntry>,
    d1: RowDecor,
) -> bool {
    match sort_action_spec(e0.len(), col, asc, d0.heats@.len() > 0, flat is Some) {
        SortAction::Keep => e1 == e0 && d1 == d0,
        SortAction::ByPath(a) => {
            &&& d1 == d0
            &&& e1.to_multiset() == e0.to_multiset()
            &&& match flat {
                Some(f) => flat_path_sorted(e1, f, ranks, a),
                None => false,
            }
        },
        SortAction::ByColumn(c, a) => {
            &&& e1.to_multiset() == e0.to_multiset()
            &&& sortable(c) ==> rows_sorted(e1, c, a)
            &&& !sortable(c) ==> e1 == e0
            &&& flat is Some ==> d1 == d0
            &&& flat is None ==> decor_follows(e0, d0, e1, d1)
        },
        SortAction::ByHeat(a) => {
            &&& e1.to_multiset() == e0.to_multiset()
            &&& decor_follows(e0, d0, e1, d1)
            &&& decor_keyed(e1, d1, c_any(), true, a)
        },
    }
}

/// The column a heat order ignores.
pub open spec fn c_any() -> SortColumn {
    SortColumn::Name
}

/// Re-sort the listing by `col` in direction `asc`, keeping every row's
/// decorations on it. A visit-heat pick with no heat falls back to name
/// ascending; a flat listing (given with its directory ranks) orders its
/// Path column by directory rank.
pub fn sort_model(
    entries: &mut Vec<FileEntry>,
    decor: &mut RowDecor,
    flat: Option<&FlatPathStore>,
    dir_ranks: &Vec<u32>,
    col: SortColumn,
    asc: bool,
)
    requires
        match flat {
            Some(f) => f.wf(),
            None => true,
        },
    ensures
        model_resorted(
            old(entries)@,
            *old(decor),
            match flat {
                Some(f) => Some(*f),
                None => None,
            },
            dir_ranks@,
            col,
            asc,
            final(entries)@,
            *final(decor),
        ),
{
    let n = entries.len();
    let has_heat = decor.heats.len() > 0;
    let is_flat = match flat {
        Some(_) => true,
        None => false,
    };
    match sort_action(n, col, asc, has_heat, is_flat) {
        SortAction::Keep => {},
        SortAction::ByPath(a) => {
            match flat {
                Some(f) => sort_flat_by_path(entries, f, dir_ranks, a),
                None => {},
            }
        },
        SortAction::ByColumn(c, a) => {
            if is_flat {
                sort_in_place(entries, c, a);
            } else {
                resort_decorated(entries, decor, c, false, sortable_column(c), a);
                proof {
                    if sortable(c) {
                        let e1 = entries@;
                        let d1 = *decor;
                        assert forall|i: int, j: int| 0 <= i < j < e1.len() implies key_order(
                            key_of(e1[i], c),
                            key_of(e1[j], c),
                            a,
                        ) <= 0 by {
                            assert(row_key(e1[i], heat_at(d1, i), false, c) == key_of(e1[i], c));
                            assert(row_key(e1[j], heat_at(d1, j), false, c) == key_of(e1[j], c));
                        }
                    }
                }
            }
        },
        SortAction::ByHeat(a) => {
            resort_decorated(entries, decor, c_any_column(), true, true, a);
        },
    }
}

fn c_any_column() -> (r: SortColumn)
    ensures
        r == c_any(),
{
    SortColumn::Name
}

fn sortable_column(c: SortColumn) -> (r: bool)
    ensures
        r == sortable(c),
{
    c != SortColumn::Path && c != SortColumn::AntTrail
}

/// Order flat rows by their directory's rank, then folded name and id.
fn sort_flat_by_path(entries: &mut Vec<FileEntry>, f: &FlatPathStore, dir_ranks: &Vec<u32>, asc: bool)
    requires
        f.wf(),
    ensures
        final(entries)@.to_multiset() == old(entries)@.to_multiset(),
        flat_path_sorted(final(entries)@, *f, dir_ranks@, asc),
{
    broadcast use vstd::multiset::group_multiset_axioms;

    let ghost e0 = entries@;
    let mut ranks: Vec<u32> = Vec::new();
    let mut i: usize = 0;
    while i < entries.len()
        invariant
            f.wf(),
            entries@ == e0,
            i <= entries@.len(),
            ranks@.len() == i,
            forall|k: int| 0 <= k < i ==> #[trigger] ranks@[k] == flat_row_rank(*f, dir_ranks@, e0[k].id),
        decreases entries@.len() - i,
    {
        let r = f.directory_rank(entries[i].id, dir_ranks);
        ranks.push(r);
        i = i + 1;
    }
    let ghost r0 = ranks@;
    sort_by_path(entries, &mut ranks, asc);
    proof {
        let e1 = entries@;
        let r1 = ranks@;
        let z0 = zip_heats(e0, r0);
        let z1 = zip_heats(e1, r1);
        let consistent = |p: (FileEntry, u32)| p.1 == flat_row_rank(*f, dir_ranks@, p.0.id);
        assert forall|k: int| 0 <= k < z0.len() implies #[trigger] consistent(z0[k]) by {}
        lemma_perm_all(z0, z1, consistent);
        crate::file_list::sort::lemma_map_multiset(z1, z0, |p: (FileEntry, u32)| p.0);
        assert(z0.map_values(|p: (FileEntry, u32)| p.0) =~= e0);
        assert(z1.map_values(|p: (FileEntry, u32)| p.0) =~= e1);
        assert forall|i: int, j: int| 0 <= i < j < e1.len() implies key_order(
            path_key_of(e1[i], flat_row_rank(*f, dir_ranks@, e1[i].id)),
            path_key_of(e1[j], flat_row_rank(*f, dir_ranks@, e1[j].id)),
            asc,
        ) <= 0 by {
            assert(consistent(z1[i]));
            assert(consistent(z1[j]));
        }
    }
}

/// Pick a sort: remember it as the listing's current sort and re-sort the
/// rows with their decorations.
pub fn apply_sort(
    entries: &mut Vec<FileEntry>,
    decor: &mut RowDecor,
    flat: Option<&FlatPathStore>,
    dir_ranks: &Vec<u32>,
    current: &mut Option<(SortColumn, bool)>,
    col: SortColumn,
    asc: bool,
)
    requires
        match flat {
            Some(f) => f.wf(),
            None => true,
        },
    ensures
        *final(current) == Some((col, asc)),
        model_resorted(
            old(entries)@,
            *old(decor),
            match flat {
                Some(f) => Some(*f),
                None => None,
            },
            dir_ranks@,
            col,
            asc,
            final(entries)@,
            *final(decor),
        ),
{
    *current = Some((col, asc));
    sort_model(entries, decor, flat, dir_ranks, col, asc);
}

/// Forget the picked sort and order the rows by name, ascending.
pub fn reset_sort(
    entries: &mut Vec<FileEntry>,
    decor: &mut RowDecor,
    flat: Option<&FlatPathStore>,
    dir_ranks: &Vec<u32>,
    current: &mut Option<(SortColumn, bool)>,
)
    requires
        match flat {
            Some(f) => f.wf(),
            None => true,
        },
    ensures
        *final(current) == None::<(SortColumn, bool)>,
        model_resorted(
            old(entries)@,
            *old(decor),
            match flat {
                Some(f) => Some(*f),
                None => None,
            },
            dir_ranks@,
            SortColumn::Name,
            true,
            final(entries)@,
            *final(decor),
        ),
{
    *current = None;
    sort_model(entries, decor, flat, dir_ranks, SortColumn::Name, true);
}

/// Sort by a column given by name (as on the command line): `false`, and
/// nothing changes, for a name that is no column.
pub fn apply_sort_named(
    entries: &mut Vec<FileEntry>,
    decor: &mut RowDecor,
    flat: Option<&FlatPathStore>,
    dir_ranks: &Vec<u32>,
    current: &mut Option<(SortColumn, bool)>,
    column_name: &str,
    asc: bool,
) -> (r: bool)
    requires
        match flat {
            Some(f) => f.wf(),
            None => true,
        },
    ensures
        r == (sort_column_of(column_name@) is Some),
        !r ==> final(entries)@ == old(entries)@ && *final(decor) == *old(decor) && *final(current) == *old(current),
        r ==> *final(current) == Some((sort_column_of(column_name@)->0, asc)) && model_resorted(
            old(entries)@,
            *old(decor),
            match flat {
                Some(f) => Some(*f),
                None => None,
            },
            dir_ranks@,
            sort_column_of(column_name@)->0,
            asc,
            final(entries)@,
            *final(decor),
        ),
{
    match SortColumn::parse(column_name) {
        Some(col) => {
            apply_sort(entries, decor, flat, dir_ranks, current, col, asc);
            true
        },
        None => false,
    }
}

/// After a re-sort that carries decorations, every row shows the heat,
/// tags and favorite state it showed before the re-sort.
pub proof fn lemma_row_keeps_its_decorations(e0: Seq<FileEntry>, d0: RowDecor, e1: Seq<FileEntry>, d1: RowDecor, i: int)
    requires
        decor_follows(e0, d0, e1, d1),
        0 <= i < e1.len(),
    ensures
        exists|j: int|
            0 <= j < e0.len() && e0[j] == e1[i] && heat_at(d0, j) == heat_at(d1, i) && tags_at(d0, j) == tags_at(
                d1,
                i,
            ) && favorite_at(d0, j) == favorite_at(d1, i),
{
    broadcast use vstd::multiset::group_multiset_axioms;

    let x = decorated(e1, d1)[i];
    assert(decorated(e1, d1).to_multiset().contains(x));
    assert(decorated(e0, d0).to_multiset().contains(x));
    let j = choose|j: int| 0 <= j < decorated(e0, d0).len() && decorated(e0, d0)[j] == x;
    assert(decorated(e0, d0)[j] == (e0[j], heat_at(d0, j), tags_at(d0, j), favorite_at(d0, j)));
}

/// With row ids distinct, decorations follow ids: after a re-sort that
/// carries decorations, the row with a given id shows the heat, tags and
/// favorite state the row with that id showed before.
pub proof fn lemma_decorations_follow_ids(
    e0: Seq<FileEntry>,
    d0: RowDecor,
    e1: Seq<FileEntry>,
    d1: RowDecor,
    i: int,
    j: int,
)
    requires
        decor_follows(e0, d0, e1, d1),
        ids_distinct(e0),
        0 <= i < e1.len(),
        0 <= j < e0.len(),
        e0[j].id == e1[i].id,
    ensures
        e1[i] == e0[j],
        heat_at(d1, i) == heat_at(d0, j),
        tags_at(d1, i) == tags_at(d0, j),
        favorite_at(d1, i) == favorite_at(d0, j),
{
    lemma_row_keeps_its_decorations(e0, d0, e1, d1, i);
    let k = choose|k: int|
        0 <= k < e0.len() && e0[k] == e1[i] && heat_at(d0, k) == heat_at(d1, i) && tags_at(d0, k) == tags_at(
            d1,
            i,
        ) && favorite_at(d0, k) == favorite_at(d1, i);
    if k != j {
        if k < j {
            assert(e0[k].id != e0[j].id);
        } else {
            assert(e0[j].id != e0[k].id);
        }
    }
}

fn reversed<T>(v: Vec<T>) -> (r: Vec<T>)
    ensures
        r@ == v@.reverse(),
{
    let ghost v0 = v@;
    let mut src = v;
    let mut out: Vec<T> = Vec::new();
    while src.len() > 0
        invariant
            src@ == v0.take(src@.len() as int),
            src@.len() + out@.len() == v0.len(),
            forall|k: int| 0 <= k < out@.len() ==> #[trigger] out@[k] == v0[v0.len() - 1 - k],
        decreases src@.len(),
    {
        let ghost sb = src@;
        let x = src.pop().unwrap();
        assert(sb =~= src@.push(x));
        assert(src@ =~= v0.take(src@.len() as int));
        out.push(x);
    }
    assert(out@ =~= v0.reverse());
    out
}

} // verus!
