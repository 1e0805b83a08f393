//! Sorting the listing: folders first whatever the direction, then the
//! column's key ascending or descending, then the case-folded display name
//! and the row id as tiebreaks, which are never reversed. Each row's key is
//! built once, not per comparison, and the rows are merge-sorted.

use vstd::prelude::*;
use vstd::relations::sorted_by;

use crate::file_list::{EntryKind, FileEntry, SortColumn};
use crate::strings::{chars_of, lowercase, to_lowercase};

verus! {

broadcast use vstd::seq_lib::group_to_multiset_ensures;

/// A row's sort key, as a mathematical value: its group (folders 0, the
/// rest 1), the column's numeric and text keys, the folded name and the id.
pub struct KeyV {
    pub group: int,
    pub num: int,
    pub text: Seq<char>,
    pub name: Seq<char>,
    pub id: int,
}

/// A row's sort key, built once per row.
#[derive(Debug)]
pub struct SortKey {
    group: u8,
    num: i128,
    text: Vec<char>,
    name: Vec<char>,
    id: u64,
}

impl View for SortKey {
    type V = KeyV;

    closed spec fn view(&self) -> KeyV {
        KeyV { group: self.group as int, num: self.num as int, text: self.text@, name: self.name@, id: self.id as int }
    }
}

/// Three-way comparison of integers.
pub open spec fn order_int(a: int, b: int) -> int {
    if a < b {
        -1
    } else if a > b {
        1
    } else {
        0
    }
}

/// Three-way lexicographic comparison of character sequences, as `String`
/// orders them.
pub open spec fn order_seq(a: Seq<char>, b: Seq<char>) -> int
    decreases a.len(),
{
    if a.len() == 0 {
        if b.len() == 0 {
            0
        } else {
            -1
        }
    } else if b.len() == 0 {
        1
    } else if a[0] < b[0] {
        -1
    } else if a[0] > b[0] {
        1
    } else {
        order_seq(a.drop_first(), b.drop_first())
    }
}

/// `c`, or on a tie `d`.
pub open spec fn then(c: int, d: int) -> int {
    if c != 0 {
        c
    } else {
        d
    }
}

/// `c` in the sort direction.
pub open spec fn directed(c: int, asc: bool) -> int {
    if asc {
        c
    } else {
        -c
    }
}

/// Three-way comparison of two keys: group, then the column's keys in the
/// sort direction, then name and id.
pub open spec fn key_order(a: KeyV, b: KeyV, asc: bool) -> int {
    then(
        order_int(a.group, b.group),
        then(
            directed(order_int(a.num, b.num), asc),
            then(directed(order_seq(a.text, b.text), asc), then(order_seq(a.name, b.name), order_int(a.id, b.id))),
        ),
    )
}

/// The sort key of a row under a column.
pub open spec fn key_of(e: FileEntry, col: SortColumn) -> KeyV {
    KeyV {
        group: if e.kind == EntryKind::Directory { 0 } else { 1 },
        num: match col {
            SortColumn::Size => e.size as int,
            SortColumn::Modified => e.mtime_unix as int,
            _ => 0,
        },
        text: match col {
            SortColumn::Name => lowercase(e.display_name@),
            SortColumn::Format => lowercase(e.format_label@),
            _ => Seq::empty(),
        },
        name: lowercase(e.display_name@),
        id: e.id as int,
    }
}

/// The sort key of a row under the visit-heat order, given its quantized
/// heat.
pub open spec fn heat_key_of(e: FileEntry, heat: u32) -> KeyV {
    rank_key_of(e, heat, true)
}

/// The sort key of a flat row under the Path column, given its
/// directory's rank: no folders-first grouping, the rank in the sort
/// direction, then the folded name and the id.
pub open spec fn path_key_of(e: FileEntry, rank: u32) -> KeyV {
    rank_key_of(e, rank, false)
}

/// The sort key of a row by a per-row number: folders first when
/// `grouped`, then the number, then the folded name and the id.
pub open spec fn rank_key_of(e: FileEntry, v: u32, grouped: bool) -> KeyV {
    KeyV {
        group: if grouped && e.kind != EntryKind::Directory { 1 } else { 0 },
        num: v as int,
        text: Seq::empty(),
        name: lowercase(e.display_name@),
        id: e.id as int,
    }
}

/// Whether a column orders rows here: Path and visit heat need data the
/// rows do not carry.
pub open spec fn sortable(col: SortColumn) -> bool {
    col != SortColumn::Path && col != SortColumn::AntTrail
}

/// Rows in order under a column: no row is after one it should precede.
pub open spec fn rows_sorted(s: Seq<FileEntry>, col: SortColumn, asc: bool) -> bool {
    forall|i: int, j: int| 0 <= i < j < s.len() ==> key_order(key_of(s[i], col), key_of(s[j], col), asc) <= 0
}

pub proof fn lemma_order_seq(a: Seq<char>, b: Seq<char>)
    ensures
        order_seq(a, b) == -order_seq(b, a),
        (order_seq(a, b) == 0) == (a == b),
        -1 <= order_seq(a, b) <= 1,
    decreases a.len(),
{
    if a.len() > 0 && b.len() > 0 && a[0] == b[0] {
        lemma_order_seq(a.drop_first(), b.drop_first());
        if a.drop_first() == b.drop_first() {
            assert(a =~= seq![a[0]] + a.drop_first());
            assert(b =~= seq![b[0]] + b.drop_first());
        }
    }
    if a.len() == 0 && b.len() == 0 {
        assert(a =~= b);
    }
}

pub proof fn lemma_order_seq_trans(a: Seq<char>, b: Seq<char>, c: Seq<char>)
    requires
        order_seq(a, b) < 0,
        order_seq(b, c) < 0,
    ensures
        order_seq(a, c) < 0,
    decreases a.len(),
{
    if a.len() > 0 && b.len() > 0 && c.len() > 0 && a[0] == b[0] && b[0] == c[0] {
        lemma_order_seq_trans(a.drop_first(), b.drop_first(), c.drop_first());
    }
}

/// Key comparison is antisymmetric and three-valued, ties only between
/// equal keys.
pub proof fn lemma_key_order(a: KeyV, b: KeyV, asc: bool)
    ensures
        key_order(a, b, asc) == -key_order(b, a, asc),
        -1 <= key_order(a, b, asc) <= 1,
        key_order(a, b, asc) == 0 ==> a == b,
{
    lemma_order_seq(a.text, b.text);
    lemma_order_seq(a.name, b.name);
}

/// Key comparison is transitive.
pub proof fn lemma_key_order_trans(a: KeyV, b: KeyV, c: KeyV, asc: bool)
    requires
        key_order(a, b, asc) <= 0,
        key_order(b, c, asc) <= 0,
    ensures
        key_order(a, c, asc) <= 0,
{
    lemma_key_order(a, b, asc);
    lemma_key_order(b, c, asc);
    lemma_key_order(a, c, asc);
    lemma_order_seq(a.text, b.text);
    lemma_order_seq(b.text, c.text);
    lemma_order_seq(a.text, c.text);
    lemma_order_seq(a.name, b.name);
    lemma_order_seq(b.name, c.name);
    lemma_order_seq(a.name, c.name);
    if order_seq(a.text, b.text) < 0 && order_seq(b.text, c.text) < 0 {
        lemma_order_seq_trans(a.text, b.text, c.text);
    }
    if order_seq(b.text, a.text) < 0 && order_seq(c.text, b.text) < 0 {
        lemma_order_seq_trans(c.text, b.text, a.text);
    }
    if order_seq(a.name, b.name) < 0 && order_seq(b.name, c.name) < 0 {
        lemma_order_seq_trans(a.name, b.name, c.name);
    }
}

fn compare_chars(a: &[char], b: &[char]) -> (r: i8)
    ensures
        r as int == order_seq(a@, b@),
{
    let mut i: usize = 0;
    assert(a@.skip(0) =~= a@ && b@.skip(0) =~= b@);
    while i < a.len() && i < b.len() && a[i] == b[i]
        invariant
            i <= a.len(),
            i <= b.len(),
            order_seq(a@, b@) == order_seq(a@.skip(i as int), b@.skip(i as int)),
        decreases a.len() - i,
    {
        assert(a@.skip(i as int).drop_first() =~= a@.skip(i + 1));
        assert(b@.skip(i as int).drop_first() =~= b@.skip(i + 1));
        i = i + 1;
    }
    let ghost sa = a@.skip(i as int);
    let ghost sb = b@.skip(i as int);
    if i == a.len() {
        if i == b.len() {
            0
        } else {
            -1
        }
    } else if i == b.len() {
        1
    } else {
        assert(sa[0] == a@[i as int] && sb[0] == b@[i as int]);
        if a[i] < b[i] {
            -1
        } else {
            1
        }
    }
}

fn compare_i128(a: i128, b: i128) -> (r: i8)
    ensures
        r as int == order_int(a as int, b as int),
{
    if a < b {
        -1
    } else if a > b {
        1
    } else {
        0
    }
}

fn compare_keys(a: &SortKey, b: &SortKey, asc: bool) -> (r: i8)
    ensures
        r as int == key_order(a@, b@, asc),
{
    proof {
        lemma_order_seq(a.text@, b.text@);
        lemma_order_seq(a.name@, b.name@);
    }
    let g = compare_i128(a.group as i128, b.group as i128);
    if g != 0 {
        return g;
    }
    let n = compare_i128(a.num, b.num);
    if n != 0 {
        return if asc {
            n
        } else {
            -n
        };
    }
    let t = compare_chars(&a.text, &b.text);
    if t != 0 {
        return if asc {
            t
        } else {
            -t
        };
    }
    let m = compare_chars(&a.name, &b.name);
    if m != 0 {
        return m;
    }
    compare_i128(a.id as i128, b.id as i128)
}

/// Keys in order: no key after one it should precede.
pub open spec fn keys_sorted<T>(s: Seq<(SortKey, T)>, asc: bool) -> bool {
    forall|i: int, j: int| 0 <= i < j < s.len() ==> key_order(s[i].0@, s[j].0@, asc) <= 0
}

#[verifier::spinoff_prover]
fn merge<T>(a: Vec<(SortKey, T)>, b: Vec<(SortKey, T)>, asc: bool) -> (r: Vec<(SortKey, T)>)
    requires
        keys_sorted(a@, asc),
        keys_sorted(b@, asc),
    ensures
        keys_sorted(r@, asc),
        r@.to_multiset() == a@.to_multiset().add(b@.to_multiset()),
{
    broadcast use vstd::multiset::group_multiset_axioms;

    let ghost a0 = a@;
    let ghost b0 = b@;
    let mut a = a;
    let mut b = b;
    let mut rev: Vec<(SortKey, T)> = Vec::new();
    while a.len() > 0 || b.len() > 0
        invariant
            a@ == a0.take(a@.len() as int),
            b@ == b0.take(b@.len() as int),
            a@.len() <= a0.len(),
            b@.len() <= b0.len(),
            keys_sorted(a0, asc),
            keys_sorted(b0, asc),
            rev@.to_multiset().add(a@.to_multiset()).add(b@.to_multiset()) == a0.to_multiset().add(
                b0.to_multiset(),
            ),
            forall|i: int, j: int| 0 <= i < j < rev@.len() ==> key_order(rev@[j].0@, rev@[i].0@, asc) <= 0,
            forall|i: int, j: int| 0 <= i < rev@.len() && 0 <= j < a@.len() ==> key_order(a@[j].0@, rev@[i].0@, asc) <= 0,
            forall|i: int, j: int| 0 <= i < rev@.len() && 0 <= j < b@.len() ==> key_order(b@[j].0@, rev@[i].0@, asc) <= 0,
        decreases a@.len() + b@.len(),
    {
        let take_a = if a.len() == 0 {
            false
        } else if b.len() == 0 {
            true
        } else {
            compare_keys(&a[a.len() - 1].0, &b[b.len() - 1].0, asc) > 0
        };
        let ghost ra = rev@;
        let ghost aa = a@;
        let ghost bb = b@;
        if take_a {
            let item = a.pop().unwrap();
            proof {
                assert(aa =~= a@.push(item));
                assert(a@ =~= a0.take(a@.len() as int));
                let x = item.0@;
                assert forall|j: int| 0 <= j < a@.len() implies key_order(a@[j].0@, x, asc) <= 0 by {
                    assert(a@[j] == a0[j] && item == a0[aa.len() - 1]);
                }
                if bb.len() > 0 {
                    lemma_key_order(bb[bb.len() - 1].0@, x, asc);
                    assert forall|j: int| 0 <= j < bb.len() implies key_order(bb[j].0@, x, asc) <= 0 by {
                        assert(bb[j] == b0[j] && bb[bb.len() - 1] == b0[bb.len() - 1]);
                        if j < bb.len() - 1 {
                            lemma_key_order_trans(bb[j].0@, bb[bb.len() - 1].0@, x, asc);
                        }
                    }
                }
            }
            rev.push(item);
        } else {
            let item = b.pop().unwrap();
            proof {
                assert(bb =~= b@.push(item));
                assert(b@ =~= b0.take(b@.len() as int));
                let x = item.0@;
                assert forall|j: int| 0 <= j < b@.len() implies key_order(b@[j].0@, x, asc) <= 0 by {
                    assert(b@[j] == b0[j] && item == b0[bb.len() - 1]);
                }
                if aa.len() > 0 {
                    assert forall|j: int| 0 <= j < aa.len() implies key_order(aa[j].0@, x, asc) <= 0 by {
                        assert(aa[j] == a0[j] && aa[aa.len() - 1] == a0[aa.len() - 1]);
                        if j < aa.len() - 1 {
                            lemma_key_order_trans(aa[j].0@, aa[aa.len() - 1].0@, x, asc);
                        }
                    }
                }
            }
            rev.push(item);
        }
        proof {
            let x = rev@[rev@.len() - 1].0@;
            assert(rev@ =~= ra.push(rev@[rev@.len() - 1]));
            assert forall|i: int, j: int| 0 <= i < j < rev@.len() implies key_order(rev@[j].0@, rev@[i].0@, asc) <= 0 by {
                if j < ra.len() {
                    assert(rev@[i] == ra[i] && rev@[j] == ra[j]);
                } else {
                    assert(rev@[i] == ra[i]);
                    if take_a {
                        assert(key_order(aa[aa.len() - 1].0@, ra[i].0@, asc) <= 0);
                    } else {
                        assert(key_order(bb[bb.len() - 1].0@, ra[i].0@, asc) <= 0);
                    }
                }
            }
            assert forall|i: int, j: int| 0 <= i < rev@.len() && 0 <= j < a@.len() implies key_order(a@[j].0@, rev@[i].0@, asc) <= 0 by {
                if i < ra.len() {
                    assert(rev@[i] == ra[i]);
                    assert(a@[j] == aa[j]);
                }
            }
            assert forall|i: int, j: int| 0 <= i < rev@.len() && 0 <= j < b@.len() implies key_order(b@[j].0@, rev@[i].0@, asc) <= 0 by {
                if i < ra.len() {
                    assert(rev@[i] == ra[i]);
                    assert(b@[j] == bb[j]);
                }
            }
            assert(rev@.to_multiset().add(a@.to_multiset()).add(b@.to_multiset()) =~= ra.to_multiset().add(
                aa.to_multiset(),
            ).add(bb.to_multiset()));
        }
    }
    assert(a@.to_multiset() =~= vstd::multiset::Multiset::empty());
    assert(b@.to_multiset() =~= vstd::multiset::Multiset::empty());
    let ghost rv = rev@;
    let mut out: Vec<(SortKey, T)> = Vec::new();
    while rev.len() > 0
        invariant
            rev@ == rv.take(rev@.len() as int),
            rev@.len() <= rv.len(),
            out@.len() + rev@.len() == rv.len(),
            forall|k: int| 0 <= k < out@.len() ==> out@[k] == rv[rv.len() - 1 - k],
            out@.to_multiset().add(rev@.to_multiset()) == rv.to_multiset(),
        decreases rev@.len(),
    {
        let ghost rb = rev@;
        let ghost ob = out@;
        let item = rev.pop().unwrap();
        assert(rb =~= rev@.push(item));
        assert(rev@ =~= rv.take(rev@.len() as int));
        out.push(item);
        assert(out@ =~= ob.push(item));
        assert(out@.to_multiset().add(rev@.to_multiset()) =~= ob.to_multiset().add(rb.to_multiset()));
    }
    assert(rev@.to_multiset() =~= vstd::multiset::Multiset::empty());
    assert forall|i: int, j: int| 0 <= i < j < out@.len() implies key_order(out@[i].0@, out@[j].0@, asc) <= 0 by {
        assert(out@[i] == rv[rv.len() - 1 - i]);
        assert(out@[j] == rv[rv.len() - 1 - j]);
    }
    out
}

fn merge_sort<T>(v: Vec<(SortKey, T)>, asc: bool) -> (r: Vec<(SortKey, T)>)
    ensures
        keys_sorted(r@, asc),
        r@.to_multiset() == v@.to_multiset(),
    decreases v@.len(),
{
    broadcast use vstd::multiset::group_multiset_axioms;

    if v.len() <= 1 {
        return v;
    }
    let mid = v.len() / 2;
    let ghost v0 = v@;
    let mut left = v;
    let right = left.split_off(mid);
    proof {
        assert(v0 =~= left@ + right@);
        vstd::seq_lib::lemma_multiset_commutative(left@, right@);
    }
    let l = merge_sort(left, asc);
    let r = merge_sort(right, asc);
    merge(l, r, asc)
}

/// Sort rows under a column, folders first, in place. Path and visit heat
/// need data the rows do not carry and leave the rows as they are.
pub fn sort_in_place(entries: &mut Vec<FileEntry>, col: SortColumn, asc: bool)
    ensures
        final(entries)@.to_multiset() == old(entries)@.to_multiset(),
        sortable(col) ==> rows_sorted(final(entries)@, col, asc),
        !sortable(col) ==> final(entries)@ == old(entries)@,
{
    if col == SortColumn::Path || col == SortColumn::AntTrail {
        return;
    }
    let ghost e0 = entries@;
    let mut src: Vec<FileEntry> = Vec::new();
    std::mem::swap(&mut src, entries);
    let mut pairs: Vec<(SortKey, FileEntry)> = Vec::new();
    let n = src.len();
    while src.len() > 0
        invariant
            src@ == e0.take(src@.len() as int),
            src@.len() + pairs@.len() == n,
            n == e0.len(),
            forall|k: int| 0 <= k < pairs@.len() ==> pairs@[k].0@ == key_of(#[trigger] pairs@[k].1, col),
            forall|k: int| 0 <= k < pairs@.len() ==> pairs@[k].1 == e0[n - 1 - k],
        decreases src@.len(),
    {
        let ghost sb = src@;
        let e = src.pop().unwrap();
        assert(sb =~= src@.push(e));
        assert(src@ =~= e0.take(src@.len() as int));
        let key = key_for(&e, col);
        pairs.push((key, e));
    }
    let sorted = merge_sort(pairs, asc);
    let ghost pv = pairs@;
    proof {
        lemma_pairs_consistent(pv, sorted@, col);
    }
    let mut rev = sorted;
    let ghost sv = rev@;
    let mut out_rev: Vec<FileEntry> = Vec::new();
    while rev.len() > 0
        invariant
            rev@ == sv.take(rev@.len() as int),
            out_rev@.len() + rev@.len() == sv.len(),
            forall|k: int| 0 <= k < out_rev@.len() ==> out_rev@[k] == sv[sv.len() - 1 - k].1,
        decreases rev@.len(),
    {
        let ghost rb = rev@;
        let (_k, e) = rev.pop().unwrap();
        assert(rb =~= rev@.push((_k, e)));
        assert(rev@ =~= sv.take(rev@.len() as int));
        out_rev.push(e);
    }
    while out_rev.len() > 0
        invariant
            out_rev@.len() + entries@.len() == sv.len(),
            forall|k: int| 0 <= k < out_rev@.len() ==> out_rev@[k] == sv[sv.len() - 1 - k].1,
            forall|k: int| 0 <= k < entries@.len() ==> entries@[k] == sv[k].1,
        decreases out_rev@.len(),
    {
        let ghost ob = out_rev@;
        let e = out_rev.pop().unwrap();
        assert(e == ob[ob.len() - 1]);
        entries.push(e);
    }
    proof {
        assert(entries@ =~= sv.map_values(|p: (SortKey, FileEntry)| p.1));
        assert(pv.map_values(|p: (SortKey, FileEntry)| p.1) =~= e0.reverse());
        lemma_map_multiset(pv, sv, |p: (SortKey, FileEntry)| p.1);
        e0.lemma_reverse_to_multiset();
        assert forall|i: int, j: int| 0 <= i < j < entries@.len() implies key_order(
            key_of(entries@[i], col),
            key_of(entries@[j], col),
            asc,
        ) <= 0 by {
            assert(entries@[i] == sv[i].1 && entries@[j] == sv[j].1);
        }
    }
}

proof fn lemma_pairs_consistent(a: Seq<(SortKey, FileEntry)>, b: Seq<(SortKey, FileEntry)>, col: SortColumn)
    requires
        forall|k: int| 0 <= k < a.len() ==> a[k].0@ == key_of(#[trigger] a[k].1, col),
        a.to_multiset() == b.to_multiset(),
    ensures
        forall|k: int| 0 <= k < b.len() ==> b[k].0@ == key_of(#[trigger] b[k].1, col),
{
    broadcast use vstd::multiset::group_multiset_axioms;

    assert forall|k: int| 0 <= k < b.len() implies b[k].0@ == key_of(#[trigger] b[k].1, col) by {
        assert(b.to_multiset().contains(b[k]));
        assert(a.to_multiset().contains(b[k]));
        let q = choose|q: int| 0 <= q < a.len() && a[q] == b[k];
        assert(a[q].0@ == key_of(a[q].1, col));
    }
}

/// Permuting a sequence permutes its image under any map.
pub proof fn lemma_map_multiset<A, B>(s1: Seq<A>, s2: Seq<A>, f: spec_fn(A) -> B)
    requires
        s1.to_multiset() == s2.to_multiset(),
    ensures
        s1.map_values(f).to_multiset() == s2.map_values(f).to_multiset(),
    decreases s1.len(),
{
    broadcast use vstd::multiset::group_multiset_axioms;

    if s1.len() == 0 {
        assert(s2.to_multiset().len() == 0);
        assert(s2.len() == 0);
        assert(s1.map_values(f) =~= Seq::<B>::empty());
        assert(s2.map_values(f) =~= Seq::<B>::empty());
    } else {
        let x = s1.last();
        let d1 = s1.drop_last();
        assert(s1 =~= d1.push(x));
        assert(s1.to_multiset().contains(x));
        assert(s2.to_multiset().contains(x));
        let k = choose|k: int| 0 <= k < s2.len() && s2[k] == x;
        let d2 = s2.remove(k);
        assert(d1.to_multiset() =~= d2.to_multiset());
        lemma_map_multiset(d1, d2, f);
        assert(s1.map_values(f) =~= d1.map_values(f).push(f(x)));
        assert(d2.map_values(f) =~= s2.map_values(f).remove(k));
        assert(s2.map_values(f)[k] == f(x));
        assert(s2.map_values(f).to_multiset() =~= d2.map_values(f).to_multiset().insert(f(x)));
    }
}

fn key_for(e: &FileEntry, col: SortColumn) -> (r: SortKey)
    ensures
        r@ == key_of(*e, col),
{
    let group: u8 = if e.kind == EntryKind::Directory {
        0
    } else {
        1
    };
    let num: i128 = match col {
        SortColumn::Size => e.size as i128,
        SortColumn::Modified => e.mtime_unix as i128,
        _ => 0,
    };
    let name_lower = to_lowercase(e.display_name.as_str());
    let name = chars_of(name_lower.as_str());
    let text: Vec<char> = match col {
        SortColumn::Name => chars_of(name_lower.as_str()),
        SortColumn::Format => {
            let f = to_lowercase(e.format_label.as_str());
            chars_of(f.as_str())
        },
        _ => Vec::new(),
    };
    let r = SortKey { group, num, text, name, id: e.id };
    assert(r@.text =~= key_of(*e, col).text);
    r
}

/// Rows paired with their heats.
pub open spec fn zip_heats(e: Seq<FileEntry>, h: Seq<u32>) -> Seq<(FileEntry, u32)> {
    Seq::new(e.len(), |i: int| (e[i], h[i]))
}

/// Rows and heats in visit-heat order.
pub open spec fn heat_sorted(e: Seq<FileEntry>, h: Seq<u32>, asc: bool) -> bool {
    rank_sorted(e, h, asc, true)
}

/// Flat rows and their directory ranks in Path order.
pub open spec fn path_sorted(e: Seq<FileEntry>, r: Seq<u32>, asc: bool) -> bool {
    rank_sorted(e, r, asc, false)
}

/// Rows and per-row numbers in the order of their rank keys.
pub open spec fn rank_sorted(e: Seq<FileEntry>, h: Seq<u32>, asc: bool, grouped: bool) -> bool {
    forall|i: int, j: int| 0 <= i < j < e.len() ==> key_order(rank_key_of(e[i], h[i], grouped), rank_key_of(e[j], h[j], grouped), asc) <= 0
}

fn rank_key_for(e: &FileEntry, heat: u32, grouped: bool) -> (r: SortKey)
    ensures
        r@ == rank_key_of(*e, heat, grouped),
{
    let group: u8 = if grouped && e.kind != EntryKind::Directory {
        1
    } else {
        0
    };
    let name_lower = to_lowercase(e.display_name.as_str());
    let name = chars_of(name_lower.as_str());
    let r = SortKey { group, num: heat as i128, text: Vec::new(), name, id: e.id };
    assert(r@.text =~= rank_key_of(*e, heat, grouped).text);
    r
}

/// Order rows by visit heat, with their heats: folders first, the hottest
/// first when descending, and the rest by name. Heat is each row's visit
/// frequency quantized to an integer, kept parallel to the rows.
pub fn sort_by_heat(entries: &mut Vec<FileEntry>, heats: &mut Vec<u32>, asc: bool)
    requires
        old(heats)@.len() == old(entries)@.len(),
    ensures
        final(heats)@.len() == final(entries)@.len(),
        zip_heats(final(entries)@, final(heats)@).to_multiset() == zip_heats(old(entries)@, old(heats)@).to_multiset(),
        heat_sorted(final(entries)@, final(heats)@, asc),
{
    sort_by_rank(entries, heats, asc, true);
}

/// Order the rows of a flat listing by their directory's rank, with the
/// ranks (kept parallel to the rows): the rank in the sort direction, with
/// no folders-first grouping, then by name.
pub fn sort_by_path(entries: &mut Vec<FileEntry>, ranks: &mut Vec<u32>, asc: bool)
    requires
        old(ranks)@.len() == old(entries)@.len(),
    ensures
        final(ranks)@.len() == final(entries)@.len(),
        zip_heats(final(entries)@, final(ranks)@).to_multiset() == zip_heats(old(entries)@, old(ranks)@).to_multiset(),
        path_sorted(final(entries)@, final(ranks)@, asc),
{
    sort_by_rank(entries, ranks, asc, false);
}

fn sort_by_rank(entries: &mut Vec<FileEntry>, heats: &mut Vec<u32>, asc: bool, grouped: bool)
    requires
        old(heats)@.len() == old(entries)@.len(),
    ensures
        final(heats)@.len() == final(entries)@.len(),
        zip_heats(final(entries)@, final(heats)@).to_multiset() == zip_heats(old(entries)@, old(heats)@).to_multiset(),
        rank_sorted(final(entries)@, final(heats)@, asc, grouped),
{
    let ghost z0 = zip_heats(entries@, heats@);
    let ghost e0 = entries@;
    let ghost h0 = heats@;
    let mut src: Vec<FileEntry> = Vec::new();
    std::mem::swap(&mut src, entries);
    let mut hs: Vec<u32> = Vec::new();
    std::mem::swap(&mut hs, heats);
    let mut pairs: Vec<(SortKey, (FileEntry, u32))> = Vec::new();
    let n = src.len();
    while src.len() > 0
        invariant
            src@ == e0.take(src@.len() as int),
            hs@ == h0.take(src@.len() as int),
            src@.len() + pairs@.len() == n,
            n == e0.len(),
            n == h0.len(),
            z0 == zip_heats(e0, h0),
            forall|k: int| 0 <= k < pairs@.len() ==> pairs@[k].0@ == rank_key_of(#[trigger] pairs@[k].1.0, pairs@[k].1.1, grouped),
            forall|k: int| 0 <= k < pairs@.len() ==> pairs@[k].1 == z0[n - 1 - k],
        decreases src@.len(),
    {
        let ghost sb = src@;
        let ghost hb = hs@;
        let e = src.pop().unwrap();
        let h = hs.pop().unwrap();
        assert(sb =~= src@.push(e));
        assert(hb =~= hs@.push(h));
        assert(src@ =~= e0.take(src@.len() as int));
        assert(hs@ =~= h0.take(src@.len() as int));
        let key = rank_key_for(&e, h, grouped);
        pairs.push((key, (e, h)));
    }
    let sorted = merge_sort(pairs, asc);
    let ghost pv = pairs@;
    proof {
        lemma_rank_pairs_consistent(pv, sorted@, grouped);
    }
    let mut rev = sorted;
    let ghost sv = rev@;
    let mut out_rev: Vec<(FileEntry, u32)> = Vec::new();
    while rev.len() > 0
        invariant
            rev@ == sv.take(rev@.len() as int),
            out_rev@.len() + rev@.len() == sv.len(),
            forall|k: int| 0 <= k < out_rev@.len() ==> out_rev@[k] == sv[sv.len() - 1 - k].1,
        decreases rev@.len(),
    {
        let ghost rb = rev@;
        let (_k, p) = rev.pop().unwrap();
        assert(rb =~= rev@.push((_k, p)));
        assert(rev@ =~= sv.take(rev@.len() as int));
        out_rev.push(p);
    }
    while out_rev.len() > 0
        invariant
            out_rev@.len() + entries@.len() == sv.len(),
            entries@.len() == heats@.len(),
            forall|k: int| 0 <= k < out_rev@.len() ==> out_rev@[k] == sv[sv.len() - 1 - k].1,
            forall|k: int| 0 <= k < entries@.len() ==> entries@[k] == sv[k].1.0 && heats@[k] == sv[k].1.1,
        decreases out_rev@.len(),
    {
        let ghost ob = out_rev@;
        let (e, h) = out_rev.pop().unwrap();
        assert((e, h) == ob[ob.len() - 1]);
        entries.push(e);
        heats.push(h);
    }
    proof {
        assert(zip_heats(entries@, heats@) =~= sv.map_values(|p: (SortKey, (FileEntry, u32))| p.1));
        assert(pv.map_values(|p: (SortKey, (FileEntry, u32))| p.1) =~= z0.reverse());
        lemma_map_multiset(pv, sv, |p: (SortKey, (FileEntry, u32))| p.1);
        z0.lemma_reverse_to_multiset();
        assert forall|i: int, j: int| 0 <= i < j < entries@.len() implies key_order(
            rank_key_of(entries@[i], heats@[i], grouped),
            rank_key_of(entries@[j], heats@[j], grouped),
            asc,
        ) <= 0 by {
            assert(entries@[i] == sv[i].1.0 && entries@[j] == sv[j].1.0);
            assert(heats@[i] == sv[i].1.1 && heats@[j] == sv[j].1.1);
        }
    }
}

proof fn lemma_rank_pairs_consistent(a: Seq<(SortKey, (FileEntry, u32))>, b: Seq<(SortKey, (FileEntry, u32))>, grouped: bool)
    requires
        forall|k: int| 0 <= k < a.len() ==> a[k].0@ == rank_key_of(#[trigger] a[k].1.0, a[k].1.1, grouped),
        a.to_multiset() == b.to_multiset(),
    ensures
        forall|k: int| 0 <= k < b.len() ==> b[k].0@ == rank_key_of(#[trigger] b[k].1.0, b[k].1.1, grouped),
{
    broadcast use vstd::multiset::group_multiset_axioms;

    assert forall|k: int| 0 <= k < b.len() implies b[k].0@ == rank_key_of(#[trigger] b[k].1.0, b[k].1.1, grouped) by {
        assert(b.to_multiset().contains(b[k]));
        assert(a.to_multiset().contains(b[k]));
        let q = choose|q: int| 0 <= q < a.len() && a[q] == b[k];
        assert(a[q].0@ == rank_key_of(a[q].1.0, a[q].1.1, grouped));
    }
}

/// Folders lead in every sorted listing, whatever the column and direction.
pub proof fn lemma_folders_first(s: Seq<FileEntry>, col: SortColumn, asc: bool, i: int, j: int)
    requires
        rows_sorted(s, col, asc),
        0 <= i < j < s.len(),
        s[j].kind == EntryKind::Directory,
    ensures
        s[i].kind == EntryKind::Directory,
{
    assert(key_order(key_of(s[i], col), key_of(s[j], col), asc) <= 0);
}

/// Within the folders, and within the files, a sorted listing follows the
/// column: under Format the case-folded format labels, under Name the
/// case-folded names, under Size the sizes and under Modified the times,
/// rising when ascending and falling when descending; rows with the same
/// case-folded format label follow their case-folded names.
pub proof fn lemma_sorted_by_column(s: Seq<FileEntry>, col: SortColumn, asc: bool, i: int, j: int)
    requires
        rows_sorted(s, col, asc),
        0 <= i < j < s.len(),
        (s[i].kind == EntryKind::Directory) == (s[j].kind == EntryKind::Directory),
    ensures
        col == SortColumn::Format && lowercase(s[i].format_label@) != lowercase(s[j].format_label@) ==> if asc {
            order_seq(lowercase(s[i].format_label@), lowercase(s[j].format_label@)) < 0
        } else {
            order_seq(lowercase(s[i].format_label@), lowercase(s[j].format_label@)) > 0
        },
        col == SortColumn::Format && lowercase(s[i].format_label@) == lowercase(s[j].format_label@) ==> order_seq(
            lowercase(s[i].display_name@),
            lowercase(s[j].display_name@),
        ) <= 0,
        col == SortColumn::Name && lowercase(s[i].display_name@) != lowercase(s[j].display_name@) ==> if asc {
            order_seq(lowercase(s[i].display_name@), lowercase(s[j].display_name@)) < 0
        } else {
            order_seq(lowercase(s[i].display_name@), lowercase(s[j].display_name@)) > 0
        },
        col == SortColumn::Size && s[i].size != s[j].size ==> if asc {
            s[i].size < s[j].size
        } else {
            s[i].size > s[j].size
        },
        col == SortColumn::Modified && s[i].mtime_unix != s[j].mtime_unix ==> if asc {
            s[i].mtime_unix < s[j].mtime_unix
        } else {
            s[i].mtime_unix > s[j].mtime_unix
        },
{
    let a = key_of(s[i], col);
    let b = key_of(s[j], col);
    assert(key_order(a, b, asc) <= 0);
    lemma_order_seq(a.text, b.text);
    lemma_order_seq(a.name, b.name);
}

/// No two rows share an id.
pub open spec fn ids_distinct(s: Seq<FileEntry>) -> bool {
    forall|i: int, j: int| 0 <= i < j < s.len() ==> s[i].id != s[j].id
}

/// Sorting is a function of the rows alone: any two sorted arrangements of
/// the same rows, with distinct ids, are the same arrangement, whatever
/// order the rows arrived in.
pub proof fn lemma_sort_order_independent(x: Seq<FileEntry>, y: Seq<FileEntry>, col: SortColumn, asc: bool)
    requires
        rows_sorted(x, col, asc),
        rows_sorted(y, col, asc),
        x.to_multiset() == y.to_multiset(),
        ids_distinct(x),
    ensures
        x == y,
    decreases x.len(),
{
    broadcast use vstd::multiset::group_multiset_axioms;

    if x.len() == 0 {
        vstd::seq_lib::to_multiset_len(x);
        vstd::seq_lib::to_multiset_len(y);
        assert(x =~= y);
    } else {
        vstd::seq_lib::to_multiset_len(x);
        vstd::seq_lib::to_multiset_len(y);
        assert(x.to_multiset().contains(y[0]));
        assert(y.to_multiset().contains(x[0]));
        let i = choose|i: int| 0 <= i < x.len() && x[i] == y[0];
        let j = choose|j: int| 0 <= j < y.len() && y[j] == x[0];
        if i != 0 {
            assert(key_order(key_of(x[0], col), key_of(x[i], col), asc) <= 0);
            if j != 0 {
                assert(key_order(key_of(y[0], col), key_of(y[j], col), asc) <= 0);
            }
            lemma_key_order(key_of(x[0], col), key_of(x[i], col), asc);
            assert(x[0].id != x[i].id);
            assert(false);
        }
        let dx = x.drop_first();
        let dy = y.drop_first();
        assert(x =~= seq![x[0]] + dx);
        assert(y =~= seq![y[0]] + dy);
        assert(x.remove(0) =~= dx);
        assert(y.remove(0) =~= dy);
        assert(dx.to_multiset() =~= dy.to_multiset());
        assert forall|a: int, b: int| 0 <= a < b < dx.len() implies key_order(key_of(dx[a], col), key_of(dx[b], col), asc) <= 0 by {
            assert(dx[a] == x[a + 1] && dx[b] == x[b + 1]);
        }
        assert forall|a: int, b: int| 0 <= a < b < dy.len() implies key_order(key_of(dy[a], col), key_of(dy[b], col), asc) <= 0 by {
            assert(dy[a] == y[a + 1] && dy[b] == y[b + 1]);
        }
        assert forall|a: int, b: int| 0 <= a < b < dx.len() implies dx[a].id != dx[b].id by {
            assert(dx[a] == x[a + 1] && dx[b] == x[b + 1]);
        }
        lemma_sort_order_independent(dx, dy, col, asc);
    }
}

/// Positions `0..n` ordered by their texts, ties broken by position: a
/// permutation of the positions along which the texts never decrease.
pub(crate) fn order_by_text(texts: &Vec<Vec<char>>) -> (r: Vec<usize>)
    ensures
        r.len() == texts.len(),
        forall|j: int| 0 <= j < r.len() ==> #[trigger] r@[j] < r.len(),
        forall|a: int, b: int| 0 <= a < b < r.len() ==> #[trigger] r@[a] != #[trigger] r@[b],
        forall|a: int, b: int|
            0 <= a < b < r.len() ==> order_seq(texts@[r@[a] as int]@, texts@[r@[b] as int]@) <= 0,
{
    broadcast use vstd::multiset::group_multiset_axioms;

    let n = texts.len();
    let mut pairs: Vec<(SortKey, usize)> = Vec::new();
    let mut i: usize = 0;
    while i < n
        invariant
            i <= n,
            n == texts.len(),
            pairs.len() == i,
            forall|k: int| 0 <= k < i ==> (#[trigger] pairs@[k]).1 == k,
            forall|k: int| 0 <= k < i ==> (#[trigger] pairs@[k]).0@ == (KeyV {
                group: 0,
                num: 0,
                text: texts@[k]@,
                name: Seq::empty(),
                id: k,
            }),
        decreases n - i,
    {
        let t = crate::strings::slice_to_vec(texts[i].as_slice(), 0, texts[i].len());
        assert(texts[i as int]@.subrange(0, texts[i as int]@.len() as int) =~= texts[i as int]@);
        let key = SortKey { group: 0, num: 0, text: t, name: Vec::new(), id: i as u64 };
        assert(key.name@ =~= Seq::<char>::empty());
        pairs.push((key, i));
        i = i + 1;
    }
    let ghost pv = pairs@;
    let sorted = merge_sort(pairs, true);
    let ghost sv = sorted@;
    let mut out: Vec<usize> = Vec::new();
    let mut j: usize = 0;
    while j < sorted.len()
        invariant
            j <= sorted.len(),
            sv == sorted@,
            out.len() == j,
            forall|k: int| 0 <= k < j ==> #[trigger] out@[k] == sv[k].1,
        decreases sorted.len() - j,
    {
        out.push(sorted[j].1);
        j = j + 1;
    }
    proof {
        let ids = |p: (SortKey, usize)| p.1;
        lemma_map_multiset(pv, sv, ids);
        assert(out@ =~= sv.map_values(ids));
        let pids = pv.map_values(ids);
        assert(pids.no_duplicates());
        pids.lemma_multiset_has_no_duplicates();
        out@.lemma_multiset_has_no_duplicates_conv();
        assert(sv.len() == pv.len()) by {
            assert(sv.to_multiset().len() == pv.to_multiset().len());
        }
        assert forall|k: int| 0 <= k < sv.len() implies #[trigger] pv.contains(sv[k]) by {
            assert(sv.to_multiset().count(sv[k]) > 0);
        }
        assert forall|k: int| 0 <= k < out.len() implies #[trigger] out@[k] < out.len() by {
            assert(pv.contains(sv[k]));
        }
        assert forall|a: int, b: int| 0 <= a < b < out.len() implies #[trigger] out@[a] != #[trigger] out@[b] by {
        }
        assert forall|a: int, b: int| 0 <= a < b < out.len() implies order_seq(
            texts@[out@[a] as int]@,
            texts@[out@[b] as int]@,
        ) <= 0 by {
            assert(pv.contains(sv[a]));
            assert(pv.contains(sv[b]));
            let ia = choose|q: int| 0 <= q < pv.len() && pv[q] == sv[a];
            let ib = choose|q: int| 0 <= q < pv.len() && pv[q] == sv[b];
            assert(key_order(sv[a].0@, sv[b].0@, true) <= 0);
            lemma_order_seq(Seq::<char>::empty(), Seq::<char>::empty());
        }
    }
    out
}

/// Items ordered by a primary text key, then a secondary one, each
/// compared as `String` does; the items are only permuted.
pub(crate) fn sort_by_two_texts<T>(items: Vec<(Vec<char>, Vec<char>, T)>) -> (r: Vec<(Vec<char>, Vec<char>, T)>)
    ensures
        r@.to_multiset() == items@.to_multiset(),
        forall|i: int, j: int|
            0 <= i < j < r.len() ==> then(
                order_seq(r@[i].0@, r@[j].0@),
                order_seq(r@[i].1@, r@[j].1@),
            ) <= 0,
{
    broadcast use vstd::multiset::group_multiset_axioms;

    let ghost orig = items@;
    let mut items = items;
    let mut pairs: Vec<(SortKey, (Vec<char>, Vec<char>, T))> = Vec::new();
    while items.len() > 0
        invariant
            pairs.len() + items.len() == orig.len(),
            items@ == orig.skip(pairs.len() as int),
            forall|k: int| 0 <= k < pairs.len() ==> (#[trigger] pairs@[k]).1 == orig[k],
            forall|k: int| 0 <= k < pairs.len() ==> (#[trigger] pairs@[k]).0@ == (KeyV {
                group: 0,
                num: 0,
                text: orig[k].0@,
                name: orig[k].1@,
                id: 0,
            }),
        decreases items.len(),
    {
        let ghost k = pairs.len();
        let it = items.remove(0);
        assert(it == orig[k as int]);
        assert(items@ =~= orig.skip(k + 1));
        let t = crate::strings::slice_to_vec(it.0.as_slice(), 0, it.0.len());
        let m = crate::strings::slice_to_vec(it.1.as_slice(), 0, it.1.len());
        assert(it.0@.subrange(0, it.0@.len() as int) =~= it.0@);
        assert(it.1@.subrange(0, it.1@.len() as int) =~= it.1@);
        let key = SortKey { group: 0, num: 0, text: t, name: m, id: 0 };
        pairs.push((key, it));
    }
    let ghost pv = pairs@;
    let sorted = merge_sort(pairs, true);
    let ghost sv = sorted@;
    let mut sorted = sorted;
    let mut out: Vec<(Vec<char>, Vec<char>, T)> = Vec::new();
    while sorted.len() > 0
        invariant
            out.len() + sorted.len() == sv.len(),
            sorted@ == sv.skip(out.len() as int),
            forall|k: int| 0 <= k < out.len() ==> #[trigger] out@[k] == sv[k].1,
        decreases sorted.len(),
    {
        let ghost k = out.len();
        let p = sorted.remove(0);
        assert(p == sv[k as int]);
        assert(sorted@ =~= sv.skip(k + 1));
        out.push(p.1);
    }
    proof {
        let payload = |p: (SortKey, (Vec<char>, Vec<char>, T))| p.1;
        lemma_map_multiset(pv, sv, payload);
        assert(out@ =~= sv.map_values(payload));
        assert(pv.map_values(payload) =~= orig);
        assert forall|k: int| 0 <= k < sv.len() implies #[trigger] pv.contains(sv[k]) by {
            assert(sv.to_multiset().count(sv[k]) > 0);
        }
        assert forall|i: int, j: int| 0 <= i < j < out.len() implies then(
            order_seq(out@[i].0@, out@[j].0@),
            order_seq(out@[i].1@, out@[j].1@),
        ) <= 0 by {
            assert(pv.contains(sv[i]));
            assert(pv.contains(sv[j]));
            let a = choose|q: int| 0 <= q < pv.len() && pv[q] == sv[i];
            let b = choose|q: int| 0 <= q < pv.len() && pv[q] == sv[j];
            assert(key_order(sv[i].0@, sv[j].0@, true) <= 0);
        }
    }
    out
}

/// The key a decorated row sorts by: under the visit-heat order its
/// heat's, otherwise the column's.
pub open spec fn row_key(e: FileEntry, heat: u32, by_heat: bool, col: SortColumn) -> KeyV {
    if by_heat {
        heat_key_of(e, heat)
    } else {
        key_of(e, col)
    }
}

/// Rows in the order of their row keys.
pub open spec fn rows_keyed<T>(s: Seq<(FileEntry, u32, T)>, col: SortColumn, by_heat: bool, asc: bool) -> bool {
    forall|i: int, j: int|
        0 <= i < j < s.len() ==> key_order(
            row_key(s[i].0, s[i].1, by_heat, col),
            row_key(s[j].0, s[j].1, by_heat, col),
            asc,
        ) <= 0
}

proof fn lemma_row_pairs_consistent<T>(
    a: Seq<(SortKey, (FileEntry, u32, T))>,
    b: Seq<(SortKey, (FileEntry, u32, T))>,
    col: SortColumn,
    by_heat: bool,
)
    requires
        forall|k: int| 0 <= k < a.len() ==> a[k].0@ == row_key(#[trigger] a[k].1.0, a[k].1.1, by_heat, col),
        a.to_multiset() == b.to_multiset(),
    ensures
        forall|k: int| 0 <= k < b.len() ==> b[k].0@ == row_key(#[trigger] b[k].1.0, b[k].1.1, by_heat, col),
{
    broadcast use vstd::multiset::group_multiset_axioms;

    assert forall|k: int| 0 <= k < b.len() implies b[k].0@ == row_key(#[trigger] b[k].1.0, b[k].1.1, by_heat, col) by {
        assert(b.to_multiset().contains(b[k]));
        assert(a.to_multiset().contains(b[k]));
        let q = choose|q: int| 0 <= q < a.len() && a[q] == b[k];
        assert(a[q].0@ == row_key(a[q].1.0, a[q].1.1, by_heat, col));
    }
}

/// Rows carrying a heat and a payload, ordered by their row keys: the same
/// rows, each with its own heat and payload.
pub(crate) fn sort_rows<T>(rows: Vec<(FileEntry, u32, T)>, col: SortColumn, by_heat: bool, asc: bool) -> (r: Vec<
    (FileEntry, u32, T),
>)
    ensures
        r@.to_multiset() == rows@.to_multiset(),
        rows_keyed(r@, col, by_heat, asc),
{
    broadcast use vstd::multiset::group_multiset_axioms;

    let ghost r0 = rows@;
    let mut src = rows;
    let mut pairs: Vec<(SortKey, (FileEntry, u32, T))> = Vec::new();
    while src.len() > 0
        invariant
            src@ == r0.take(src@.len() as int),
            src@.len() + pairs@.len() == r0.len(),
            forall|k: int| 0 <= k < pairs@.len() ==> pairs@[k].0@ == row_key(#[trigger] pairs@[k].1.0, pairs@[k].1.1, by_heat, col),
            forall|k: int| 0 <= k < pairs@.len() ==> pairs@[k].1 == r0[r0.len() - 1 - k],
        decreases src@.len(),
    {
        let ghost sb = src@;
        let row = src.pop().unwrap();
        assert(sb =~= src@.push(row));
        assert(src@ =~= r0.take(src@.len() as int));
        let key = if by_heat {
            rank_key_for(&row.0, row.1, true)
        } else {
            key_for(&row.0, col)
        };
        pairs.push((key, row));
    }
    let ghost pv = pairs@;
    let sorted = merge_sort(pairs, asc);
    let ghost sv = sorted@;
    proof {
        lemma_row_pairs_consistent(pv, sv, col, by_heat);
    }
    let mut rev = sorted;
    let mut out_rev: Vec<(FileEntry, u32, T)> = Vec::new();
    while rev.len() > 0
        invariant
            rev@ == sv.take(rev@.len() as int),
            out_rev@.len() + rev@.len() == sv.len(),
            forall|k: int| 0 <= k < out_rev@.len() ==> out_rev@[k] == sv[sv.len() - 1 - k].1,
        decreases rev@.len(),
    {
        let ghost rb = rev@;
        let (_k, row) = rev.pop().unwrap();
        assert(rb =~= rev@.push((_k, row)));
        assert(rev@ =~= sv.take(rev@.len() as int));
        out_rev.push(row);
    }
    let mut out: Vec<(FileEntry, u32, T)> = Vec::new();
    while out_rev.len() > 0
        invariant
            out_rev@.len() + out@.len() == sv.len(),
            forall|k: int| 0 <= k < out_rev@.len() ==> out_rev@[k] == sv[sv.len() - 1 - k].1,
            forall|k: int| 0 <= k < out@.len() ==> out@[k] == sv[k].1,
        decreases out_rev@.len(),
    {
        let ghost ob = out_rev@;
        let row = out_rev.pop().unwrap();
        assert(row == ob[ob.len() - 1]);
        out.push(row);
    }
    proof {
        assert(out@ =~= sv.map_values(|p: (SortKey, (FileEntry, u32, T))| p.1));
        assert(pv.map_values(|p: (SortKey, (FileEntry, u32, T))| p.1) =~= r0.reverse());
        lemma_map_multiset(pv, sv, |p: (SortKey, (FileEntry, u32, T))| p.1);
        r0.lemma_reverse_to_multiset();
        assert forall|i: int, j: int| 0 <= i < j < out@.len() implies key_order(
            row_key(out@[i].0, out@[i].1, by_heat, col),
            row_key(out@[j].0, out@[j].1, by_heat, col),
            asc,
        ) <= 0 by {
            assert(out@[i] == sv[i].1 && out@[j] == sv[j].1);
            assert(key_order(sv[i].0@, sv[j].0@, asc) <= 0);
        }
    }
    out
}

/// How a listing is re-sorted.
#[derive(Clone, Copy, Debug, PartialEq, Eq, Structural)]
pub enum SortAction {
    /// Nothing to order.
    Keep,
    /// A flat listing by directory rank, ascending or not.
    ByPath(bool),
    /// By visit heat, ascending or not.
    ByHeat(bool),
    /// By a column, ascending or not.
    ByColumn(SortColumn, bool),
}

/// The re-sort a pick of `col` in direction `asc` amounts to: nothing for
/// fewer than two rows; a visit-heat pick without heat falls back to name
/// ascending; a flat listing orders its Path column by directory rank.
pub open spec fn sort_action_spec(rows: nat, col: SortColumn, asc: bool, has_heat: bool, is_flat: bool) -> SortAction {
    if rows <= 1 {
        SortAction::Keep
    } else {
        let (c, a) = if col == SortColumn::AntTrail && !has_heat {
            (SortColumn::Name, true)
        } else {
            (col, asc)
        };
        if c != SortColumn::AntTrail && is_flat && c == SortColumn::Path {
            SortAction::ByPath(a)
        } else if c == SortColumn::AntTrail {
            SortAction::ByHeat(a)
        } else {
            SortAction::ByColumn(c, a)
        }
    }
}

/// Decide how to re-sort a listing of `rows` rows.
pub fn sort_action(rows: usize, col: SortColumn, asc: bool, has_heat: bool, is_flat: bool) -> (r: SortAction)
    ensures
        r == sort_action_spec(rows as nat, col, asc, has_heat, is_flat),
{
    if rows <= 1 {
        return SortAction::Keep;
    }
    let (c, a) = crate::file_list::resolve_ant_sort(col, asc, has_heat);
    if c != SortColumn::AntTrail && is_flat && c == SortColumn::Path {
        SortAction::ByPath(a)
    } else if c == SortColumn::AntTrail {
        SortAction::ByHeat(a)
    } else {
        SortAction::ByColumn(c, a)
    }
}

} // verus!
