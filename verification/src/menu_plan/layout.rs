//! The order the user put a menu in, and the separators they placed.
//!
//! The saved list is an override anchored to the built-in one: an entry the
//! user never moved is reinserted next to the built-in neighbour it was
//! designed to follow, wherever that neighbour ended up.
//!
//! The persisted form is `surface:tok,tok;surface:tok`, where a token is a
//! command id or `-` for a separator. Unknown surfaces are ignored, junk
//! costs the customization and never the menu, and nothing here can make an
//! entry vanish, since [`merge`] reinserts every built-in the saved list
//! forgot.

use vstd::prelude::*;

use crate::menu_plan::is_surface_key;
use crate::menu_plan::sections::{
    add_group, group_text, key_index, lemma_key_index, lemma_key_index_is,
    lemma_sections_of_render, parse_sections, sections_spec, sections_view, token_ok,
};
use crate::strings::{has_char, join_seq, join_strings, lemma_trim_id, push_char, strs_view};

verus! {

/// One position in a menu's arrangement.
#[derive(Clone, Debug, Eq, PartialEq)]
pub enum Slot {
    Entry(String),
    Separator,
}

/// What a [`Slot`] is, as a mathematical value.
pub enum SlotV {
    Entry(Seq<char>),
    Separator,
}

impl View for Slot {
    type V = SlotV;

    open spec fn view(&self) -> SlotV {
        match self {
            Slot::Entry(id) => SlotV::Entry(id@),
            Slot::Separator => SlotV::Separator,
        }
    }
}

/// The views of a sequence of slots.
pub open spec fn slots_view(v: Seq<Slot>) -> Seq<SlotV> {
    v.map_values(|s: Slot| s@)
}

impl Slot {
    pub fn is_separator(&self) -> (r: bool)
        ensures
            r == (self@ is Separator),
    {
        match self {
            Slot::Separator => true,
            Slot::Entry(_) => false,
        }
    }

    pub fn id(&self) -> (r: Option<&str>)
        ensures
            match self@ {
                SlotV::Entry(id) => r is Some && r->0@ == id,
                SlotV::Separator => r is None,
            },
    {
        match self {
            Slot::Entry(id) => Some(id.as_str()),
            Slot::Separator => None,
        }
    }

    /// The persisted token: the id, or `-` for a separator.
    pub fn token(&self) -> (r: &str)
        ensures
            r@ == slot_token(self@),
    {
        proof {
            reveal_strlit("-");
            assert("-"@ =~= seq!['-']);
        }
        match self {
            Slot::Entry(id) => id.as_str(),
            Slot::Separator => "-",
        }
    }

    /// A copy of this slot.
    pub fn cloned(&self) -> (r: Slot)
        ensures
            r@ == self@,
    {
        match self {
            Slot::Entry(id) => Slot::Entry(id.clone()),
            Slot::Separator => Slot::Separator,
        }
    }
}

/// The persisted token of a slot.
pub open spec fn slot_token(s: SlotV) -> Seq<char> {
    match s {
        SlotV::Entry(id) => id,
        SlotV::Separator => seq!['-'],
    }
}

// ---------------------------------------------------------------------------
// Separator hygiene
// ---------------------------------------------------------------------------

/// Left-to-right pass of [`tidy`]: a separator is skipped when nothing, or
/// another separator, precedes it.
pub open spec fn tidy_acc(items: Seq<SlotV>) -> Seq<SlotV>
    decreases items.len(),
{
    if items.len() == 0 {
        Seq::<SlotV>::empty()
    } else {
        let out = tidy_acc(items.drop_last());
        let it = items.last();
        if it is Separator && (out.len() == 0 || out.last() is Separator) {
            out
        } else {
            out.push(it)
        }
    }
}

/// What [`tidy`] returns: the pass above with a trailing separator dropped.
pub open spec fn tidy_spec(items: Seq<SlotV>) -> Seq<SlotV> {
    let out = tidy_acc(items);
    if out.len() > 0 && out.last() is Separator {
        out.drop_last()
    } else {
        out
    }
}

/// The entry ids of a sequence of slots, in order, separators left out.
pub open spec fn entries_of(s: Seq<SlotV>) -> Seq<Seq<char>>
    decreases s.len(),
{
    if s.len() == 0 {
        Seq::<Seq<char>>::empty()
    } else {
        let p = entries_of(s.drop_last());
        match s.last() {
            SlotV::Entry(id) => p.push(id),
            SlotV::Separator => p,
        }
    }
}

/// No separator at either end, and never two in a row.
pub open spec fn is_tidy(s: Seq<SlotV>) -> bool {
    &&& (s.len() > 0 ==> !(s[0] is Separator))
    &&& (s.len() > 0 ==> !(s.last() is Separator))
    &&& forall|i: int| 0 <= i < s.len() - 1 ==> !(#[trigger] s[i] is Separator && s[i + 1] is Separator)
}

proof fn lemma_tidy_acc(items: Seq<SlotV>)
    ensures
        tidy_acc(items).len() > 0 ==> !(tidy_acc(items)[0] is Separator),
        forall|i: int|
            0 <= i < tidy_acc(items).len() - 1 ==> !(#[trigger] tidy_acc(items)[i] is Separator
                && tidy_acc(items)[i + 1] is Separator),
        entries_of(tidy_acc(items)) == entries_of(items),
    decreases items.len(),
{
    if items.len() > 0 {
        lemma_tidy_acc(items.drop_last());
        let out = tidy_acc(items.drop_last());
        let it = items.last();
        if it is Separator && (out.len() == 0 || out.last() is Separator) {
        } else {
            let o2 = out.push(it);
            assert(o2.drop_last() =~= out);
            assert forall|i: int| 0 <= i < o2.len() - 1 implies !(#[trigger] o2[i] is Separator
                && o2[i + 1] is Separator) by {
                if i < out.len() - 1 {
                    assert(o2[i] == out[i] && o2[i + 1] == out[i + 1]);
                }
            }
        }
    }
}

proof fn lemma_entries_drop_separator(s: Seq<SlotV>)
    requires
        s.len() > 0,
        s.last() is Separator,
    ensures
        entries_of(s.drop_last()) == entries_of(s),
{
}

/// Tidying keeps every entry, in order, and leaves no separator at either end
/// nor two in a row.
pub proof fn lemma_tidy(items: Seq<SlotV>)
    ensures
        is_tidy(tidy_spec(items)),
        entries_of(tidy_spec(items)) == entries_of(items),
{
    lemma_tidy_acc(items);
    let out = tidy_acc(items);
    let r = tidy_spec(items);
    if out.len() > 0 && out.last() is Separator {
        lemma_entries_drop_separator(out);
        assert forall|i: int| 0 <= i < r.len() - 1 implies !(#[trigger] r[i] is Separator
            && r[i + 1] is Separator) by {
            assert(r[i] == out[i] && r[i + 1] == out[i + 1]);
        }
        if r.len() > 0 {
            assert(r[0] == out[0]);
            assert(r.last() == out[out.len() - 2]);
            assert(out[out.len() - 1] is Separator);
        }
    }
}

/// Walking a sequence of slots left to right: for each entry after the
/// first, whether a separator stood between it and the entry before; then
/// whether a separator follows the last entry so far; then whether there
/// was any entry yet.
pub open spec fn marks(s: Seq<SlotV>) -> (Seq<bool>, bool, bool)
    decreases s.len(),
{
    if s.len() == 0 {
        (Seq::<bool>::empty(), false, false)
    } else {
        let (f, p, e) = marks(s.drop_last());
        match s.last() {
            SlotV::Separator => (f, e, e),
            SlotV::Entry(_) => if e {
                (f.push(p), false, true)
            } else {
                (f, false, true)
            },
        }
    }
}

/// For each pair of consecutive entries, whether any separator stands
/// between them.
pub open spec fn gaps(s: Seq<SlotV>) -> Seq<bool> {
    marks(s).0
}

proof fn lemma_marks_tidy_acc(x: Seq<SlotV>)
    ensures
        marks(tidy_acc(x)).0 == marks(x).0,
        marks(tidy_acc(x)).2 == marks(x).2,
        marks(x).2 == (tidy_acc(x).len() > 0),
        marks(x).1 == (tidy_acc(x).len() > 0 && tidy_acc(x).last() is Separator),
        marks(tidy_acc(x)).1 == marks(x).1,
    decreases x.len(),
{
    if x.len() > 0 {
        lemma_marks_tidy_acc(x.drop_last());
        let o = tidy_acc(x.drop_last());
        let it = x.last();
        if !(it is Separator && (o.len() == 0 || o.last() is Separator)) {
            assert(o.push(it).drop_last() =~= o);
        }
    }
}

/// Tidying keeps, between every two consecutive entries, whether a
/// separator stood there; with [`lemma_tidy`], between consecutive entries
/// of the result there is then exactly one separator where the input had
/// at least one, and none elsewhere.
pub proof fn lemma_tidy_keeps_gaps(items: Seq<SlotV>)
    ensures
        gaps(tidy_spec(items)) == gaps(items),
{
    lemma_marks_tidy_acc(items);
    let out = tidy_acc(items);
    if out.len() > 0 && out.last() is Separator {
        assert(out.drop_last().push(out.last()) =~= out);
        assert(marks(out).0 == marks(out.drop_last()).0);
    }
}

/// A tidy arrangement is left as it is: tidying twice is tidying once.
pub proof fn lemma_tidy_idempotent(items: Seq<SlotV>)
    ensures
        tidy_spec(tidy_spec(items)) == tidy_spec(items),
{
    lemma_tidy(items);
    lemma_tidy_of_tidy(tidy_spec(items));
}

proof fn lemma_tidy_of_tidy(s: Seq<SlotV>)
    requires
        is_tidy(s),
    ensures
        tidy_spec(s) == s,
{
    lemma_tidy_acc_prefix(s, s.len() as int);
    assert(s.take(s.len() as int) =~= s);
}

proof fn lemma_tidy_acc_prefix(s: Seq<SlotV>, n: int)
    requires
        is_tidy(s),
        0 <= n <= s.len(),
    ensures
        tidy_acc(s.take(n)) == s.take(n),
    decreases n,
{
    if n > 0 {
        lemma_tidy_acc_prefix(s, n - 1);
        assert(s.take(n).drop_last() =~= s.take(n - 1));
        assert(s.take(n).last() == s[n - 1]);
        if s[n - 1] is Separator {
            if n >= 2 {
                assert(!(s[n - 2] is Separator && s[n - 1] is Separator));
                assert(s.take(n - 1).last() == s[n - 2]);
            }
        }
        assert(s.take(n - 1).push(s[n - 1]) =~= s.take(n));
    }
}

/// Tidy an arrangement the way the rendered menu will be tidied anyway:
/// separators never bookend it, and never run two deep.
pub fn tidy(slots: Vec<Slot>) -> (r: Vec<Slot>)
    ensures
        slots_view(r@) == tidy_spec(slots_view(slots@)),
        is_tidy(slots_view(r@)),
        entries_of(slots_view(r@)) == entries_of(slots_view(slots@)),
{
    let mut out: Vec<Slot> = Vec::with_capacity(slots.len());
    let mut i: usize = 0;
    while i < slots.len()
        invariant
            i <= slots.len(),
            slots_view(out@) == tidy_acc(slots_view(slots@).take(i as int)),
        decreases slots.len() - i,
    {
        let ghost pre = slots_view(slots@).take(i as int);
        assert(slots_view(slots@).take(i + 1).drop_last() =~= pre);
        let skip = slots[i].is_separator() && (out.len() == 0 || out[out.len() - 1].is_separator());
        if !skip {
            out.push(slots[i].cloned());
            assert(slots_view(out@) =~= slots_view(out@).drop_last().push(slots[i as int]@));
            assert(slots_view(out@).drop_last() =~= tidy_acc(pre));
        }
        i = i + 1;
    }
    assert(slots_view(slots@).take(slots.len() as int) =~= slots_view(slots@));
    if out.len() > 0 && out[out.len() - 1].is_separator() {
        out.pop();
        assert(slots_view(out@) =~= tidy_acc(slots_view(slots@)).drop_last());
    }
    proof {
        lemma_tidy(slots_view(slots@));
    }
    out
}

// ---------------------------------------------------------------------------
// Merging a saved arrangement with the built-in one
// ---------------------------------------------------------------------------

/// One position of a built-in arrangement: a command id, or a separator.
#[derive(Clone, Debug, Eq, PartialEq)]
pub enum Item {
    Entry(String),
    Separator,
}

impl View for Item {
    type V = SlotV;

    open spec fn view(&self) -> SlotV {
        match self {
            Item::Entry(id) => SlotV::Entry(id@),
            Item::Separator => SlotV::Separator,
        }
    }
}

/// The views of a sequence of built-in items.
pub open spec fn items_view(v: Seq<Item>) -> Seq<SlotV> {
    v.map_values(|s: Item| s@)
}

impl Item {
    pub fn id(&self) -> (r: Option<&str>)
        ensures
            match self@ {
                SlotV::Entry(id) => r is Some && r->0@ == id,
                SlotV::Separator => r is None,
            },
    {
        match self {
            Item::Entry(id) => Some(id.as_str()),
            Item::Separator => None,
        }
    }
}

/// Index of the first slot holding entry `id`, or -1.
pub open spec fn position_of(m: Seq<SlotV>, id: Seq<char>) -> int
    decreases m.len(),
{
    if m.len() == 0 {
        -1
    } else {
        let p = position_of(m.drop_last(), id);
        if p >= 0 {
            p
        } else if m.last() == SlotV::Entry(id) {
            m.len() - 1
        } else {
            -1
        }
    }
}

/// The saved slots this build can show: separators, and entries the built-in
/// arrangement names.
pub open spec fn keep_known(saved: Seq<SlotV>, known: Seq<Seq<char>>) -> Seq<SlotV>
    decreases saved.len(),
{
    if saved.len() == 0 {
        Seq::<SlotV>::empty()
    } else {
        let p = keep_known(saved.drop_last(), known);
        match saved.last() {
            SlotV::Separator => p.push(SlotV::Separator),
            SlotV::Entry(id) => if known.contains(id) {
                p.push(saved.last())
            } else {
                p
            },
        }
    }
}

/// Where an entry missing from `m` lands: right after the nearest of
/// `entries[0..=q]` (searching backwards) that `m` holds, else the front.
pub open spec fn anchor_from(m: Seq<SlotV>, entries: Seq<Seq<char>>, q: int) -> int
    decreases q + 1,
{
    if q < 0 {
        0
    } else {
        let pos = position_of(m, entries[q]);
        if pos >= 0 {
            pos + 1
        } else {
            anchor_from(m, entries, q - 1)
        }
    }
}

/// Reinsert `entries[p]` into `m` unless `m` already holds it.
pub open spec fn reinsert_step(m: Seq<SlotV>, entries: Seq<Seq<char>>, p: int) -> Seq<SlotV> {
    if position_of(m, entries[p]) >= 0 {
        m
    } else {
        m.insert(anchor_from(m, entries, p - 1), SlotV::Entry(entries[p]))
    }
}

/// Reinsertion of `entries[0..n]`, in order.
pub open spec fn reinsert(m: Seq<SlotV>, entries: Seq<Seq<char>>, n: nat) -> Seq<SlotV>
    decreases n,
{
    if n == 0 {
        m
    } else {
        reinsert_step(reinsert(m, entries, (n - 1) as nat), entries, n - 1)
    }
}

/// What [`merge`] returns.
pub open spec fn merge_spec(builtin: Seq<SlotV>, saved: Seq<SlotV>) -> Seq<SlotV> {
    if saved.len() == 0 {
        builtin
    } else {
        let entries = entries_of(builtin);
        reinsert(keep_known(saved, entries), entries, entries.len())
    }
}

/// Whether some slot of `m` is entry `id`.
pub open spec fn holds_entry(m: Seq<SlotV>, id: Seq<char>) -> bool {
    exists|k: int| 0 <= k < m.len() && m[k] == SlotV::Entry(id)
}

pub proof fn lemma_position_of(m: Seq<SlotV>, id: Seq<char>)
    ensures
        -1 <= position_of(m, id) < m.len(),
        position_of(m, id) >= 0 ==> m[position_of(m, id)] == SlotV::Entry(id),
        position_of(m, id) >= 0 ==> forall|k: int| 0 <= k < position_of(m, id) ==> m[k] != SlotV::Entry(id),
        position_of(m, id) < 0 <==> !holds_entry(m, id),
    decreases m.len(),
{
    if m.len() > 0 {
        lemma_position_of(m.drop_last(), id);
        if holds_entry(m, id) && position_of(m.drop_last(), id) < 0 {
            let k = choose|k: int| 0 <= k < m.len() && m[k] == SlotV::Entry(id);
            if k < m.len() - 1 {
                assert(m.drop_last()[k] == SlotV::Entry(id));
            }
        }
        if position_of(m.drop_last(), id) >= 0 {
            assert(m.drop_last()[position_of(m.drop_last(), id)] == m[position_of(m.drop_last(), id)]);
            assert forall|k: int| 0 <= k < position_of(m, id) implies m[k] != SlotV::Entry(id) by {
                assert(m[k] == m.drop_last()[k]);
            }
        } else {
            assert forall|k: int| 0 <= k < m.len() - 1 implies m[k] != SlotV::Entry(id) by {
                assert(m[k] == m.drop_last()[k]);
            }
        }
    }
}

proof fn lemma_anchor_bounds(m: Seq<SlotV>, entries: Seq<Seq<char>>, q: int)
    requires
        q < entries.len(),
    ensures
        0 <= anchor_from(m, entries, q) <= m.len(),
    decreases q + 1,
{
    if q >= 0 {
        lemma_position_of(m, entries[q]);
        lemma_anchor_bounds(m, entries, q - 1);
    }
}

/// Entries only move forward: every entry `m` holds, the step still holds.
proof fn lemma_step_keeps(m: Seq<SlotV>, entries: Seq<Seq<char>>, p: int, id: Seq<char>)
    requires
        0 <= p < entries.len(),
        holds_entry(m, id),
    ensures
        holds_entry(reinsert_step(m, entries, p), id),
        holds_entry(reinsert_step(m, entries, p), entries[p]),
{
    lemma_position_of(m, entries[p]);
    if position_of(m, entries[p]) < 0 {
        let at = anchor_from(m, entries, p - 1);
        lemma_anchor_bounds(m, entries, p - 1);
        let r = m.insert(at, SlotV::Entry(entries[p]));
        let k = choose|k: int| 0 <= k < m.len() && m[k] == SlotV::Entry(id);
        if k < at {
            assert(r[k] == m[k]);
        } else {
            assert(r[k + 1] == m[k]);
        }
        assert(r[at] == SlotV::Entry(entries[p]));
    } else {
        assert(m[position_of(m, entries[p])] == SlotV::Entry(entries[p]));
    }
}

proof fn lemma_step_new(m: Seq<SlotV>, entries: Seq<Seq<char>>, p: int)
    requires
        0 <= p < entries.len(),
    ensures
        holds_entry(reinsert_step(m, entries, p), entries[p]),
        forall|k: int| 0 <= k < reinsert_step(m, entries, p).len() ==>
            (#[trigger] reinsert_step(m, entries, p)[k] is Entry ==>
                (reinsert_step(m, entries, p)[k] == SlotV::Entry(entries[p])
                 || holds_entry(m, reinsert_step(m, entries, p)[k]->Entry_0))),
{
    lemma_position_of(m, entries[p]);
    let r = reinsert_step(m, entries, p);
    if position_of(m, entries[p]) < 0 {
        let at = anchor_from(m, entries, p - 1);
        lemma_anchor_bounds(m, entries, p - 1);
        assert(r[at] == SlotV::Entry(entries[p]));
        assert forall|k: int| 0 <= k < r.len() && #[trigger] r[k] is Entry implies (r[k]
            == SlotV::Entry(entries[p]) || holds_entry(m, r[k]->Entry_0)) by {
            if k < at {
                assert(r[k] == m[k]);
            } else if k > at {
                assert(r[k] == m[k - 1]);
            }
        }
    } else {
        assert(r[position_of(m, entries[p])] == SlotV::Entry(entries[p]));
        assert forall|k: int| 0 <= k < r.len() && #[trigger] r[k] is Entry implies (r[k]
            == SlotV::Entry(entries[p]) || holds_entry(m, r[k]->Entry_0)) by {
            if r[k] is Entry {
                assert(m[k] == SlotV::Entry(r[k]->Entry_0));
            }
        }
    }
}

proof fn lemma_reinsert(m: Seq<SlotV>, entries: Seq<Seq<char>>, n: nat)
    requires
        n <= entries.len(),
    ensures
        forall|q: int| 0 <= q < n ==> holds_entry(reinsert(m, entries, n), #[trigger] entries[q]),
        forall|id: Seq<char>| holds_entry(m, id) ==> #[trigger] holds_entry(reinsert(m, entries, n), id),
        forall|k: int| 0 <= k < reinsert(m, entries, n).len() ==>
            (#[trigger] reinsert(m, entries, n)[k] is Entry ==>
                (entries.contains(reinsert(m, entries, n)[k]->Entry_0)
                 || holds_entry(m, reinsert(m, entries, n)[k]->Entry_0))),
    decreases n,
{
    if n > 0 {
        let prev = reinsert(m, entries, (n - 1) as nat);
        lemma_reinsert(m, entries, (n - 1) as nat);
        let r = reinsert(m, entries, n);
        assert(r == reinsert_step(prev, entries, n - 1));
        lemma_step_new(prev, entries, n - 1);
        assert forall|q: int| 0 <= q < n implies holds_entry(r, #[trigger] entries[q]) by {
            if q < n - 1 {
                lemma_step_keeps(prev, entries, n - 1, entries[q]);
            }
        }
        assert forall|id: Seq<char>| holds_entry(m, id) implies #[trigger] holds_entry(r, id) by {
            lemma_step_keeps(prev, entries, n - 1, id);
        }
        assert forall|k: int| 0 <= k < r.len() && #[trigger] r[k] is Entry implies (entries.contains(
            r[k]->Entry_0) || holds_entry(m, r[k]->Entry_0)) by {
            if r[k] is Entry {
                if r[k] == SlotV::Entry(entries[n - 1]) {
                    assert(entries[n - 1] == r[k]->Entry_0);
                } else {
                    assert(holds_entry(prev, r[k]->Entry_0));
                    let j = choose|j: int| 0 <= j < prev.len() && prev[j] == SlotV::Entry(r[k]->Entry_0);
                    assert(prev[j] is Entry);
                }
            }
        }
    }
}

proof fn lemma_keep_known(saved: Seq<SlotV>, known: Seq<Seq<char>>)
    ensures
        forall|k: int| 0 <= k < keep_known(saved, known).len() ==>
            (#[trigger] keep_known(saved, known)[k] is Entry ==> known.contains(keep_known(saved, known)[k]->Entry_0)),
    decreases saved.len(),
{
    if saved.len() > 0 {
        lemma_keep_known(saved.drop_last(), known);
        let p = keep_known(saved.drop_last(), known);
        let r = keep_known(saved, known);
        assert forall|k: int| 0 <= k < r.len() && #[trigger] r[k] is Entry implies known.contains(
            r[k]->Entry_0) by {
            if k < p.len() {
                assert(r[k] == p[k]);
            }
        }
    }
}

proof fn lemma_entries_of_member(s: Seq<SlotV>, k: int)
    requires
        0 <= k < s.len(),
        s[k] is Entry,
    ensures
        entries_of(s).contains(s[k]->Entry_0),
    decreases s.len(),
{
    if k < s.len() - 1 {
        lemma_entries_of_member(s.drop_last(), k);
        let e = entries_of(s.drop_last());
        let j = choose|j: int| 0 <= j < e.len() && e[j] == s[k]->Entry_0;
        if s.last() is Entry {
            assert(entries_of(s)[j] == e[j]);
        }
    } else {
        assert(entries_of(s).last() == s[k]->Entry_0);
    }
}

pub proof fn lemma_entries_of_holds(s: Seq<SlotV>, id: Seq<char>)
    requires
        entries_of(s).contains(id),
    ensures
        holds_entry(s, id),
    decreases s.len(),
{
    if s.len() > 0 {
        let p = entries_of(s.drop_last());
        if p.contains(id) {
            lemma_entries_of_holds(s.drop_last(), id);
            let k = choose|k: int| 0 <= k < s.len() - 1 && s.drop_last()[k] == SlotV::Entry(id);
            assert(s[k] == SlotV::Entry(id));
        } else {
            let j = choose|j: int| 0 <= j < entries_of(s).len() && entries_of(s)[j] == id;
            if s.last() is Entry {
                assert(j == p.len());
            }
            assert(s[s.len() - 1] == SlotV::Entry(id));
        }
    }
}

/// Merging never loses a built-in entry and never shows one this build does
/// not have; with nothing saved it is the built-in arrangement itself.
pub proof fn lemma_merge(builtin: Seq<SlotV>, saved: Seq<SlotV>)
    ensures
        forall|id: Seq<char>| entries_of(builtin).contains(id) ==> #[trigger] holds_entry(merge_spec(builtin, saved), id),
        forall|k: int| 0 <= k < merge_spec(builtin, saved).len() ==>
            (#[trigger] merge_spec(builtin, saved)[k] is Entry ==> entries_of(builtin).contains(
                merge_spec(builtin, saved)[k]->Entry_0)),
        saved.len() == 0 ==> merge_spec(builtin, saved) == builtin,
{
    let entries = entries_of(builtin);
    let r = merge_spec(builtin, saved);
    if saved.len() == 0 {
        assert forall|id: Seq<char>| entries.contains(id) implies #[trigger] holds_entry(r, id) by {
            lemma_entries_of_holds(builtin, id);
        }
        assert forall|k: int| 0 <= k < r.len() && #[trigger] r[k] is Entry implies entries.contains(
            r[k]->Entry_0) by {
            if r[k] is Entry {
                lemma_entries_of_member(builtin, k);
            }
        }
    } else {
        let m = keep_known(saved, entries);
        lemma_reinsert(m, entries, entries.len());
        lemma_keep_known(saved, entries);
        assert forall|id: Seq<char>| entries.contains(id) implies #[trigger] holds_entry(r, id) by {
            let q = choose|q: int| 0 <= q < entries.len() && entries[q] == id;
            assert(holds_entry(r, entries[q]));
        }
        assert forall|k: int| 0 <= k < r.len() && #[trigger] r[k] is Entry implies entries.contains(
            r[k]->Entry_0) by {
            if r[k] is Entry && !entries.contains(r[k]->Entry_0) {
                assert(holds_entry(m, r[k]->Entry_0));
                let j = choose|j: int| 0 <= j < m.len() && m[j] == SlotV::Entry(r[k]->Entry_0);
                assert(m[j] is Entry);
            }
        }
    }
}

/// The views of a sequence of strings.
pub open spec fn strings_view(v: Seq<String>) -> Seq<Seq<char>> {
    v.map_values(|s: String| s@)
}

proof fn lemma_position_is(m: Seq<SlotV>, id: Seq<char>, i: int)
    requires
        0 <= i < m.len(),
        m[i] == SlotV::Entry(id),
        forall|k: int| 0 <= k < i ==> m[k] != SlotV::Entry(id),
    ensures
        position_of(m, id) == i,
{
    lemma_position_of(m, id);
    let p = position_of(m, id);
    if p < i {
        assert(m[p] == SlotV::Entry(id));
    }
    if p > i {
        assert(m[i] == SlotV::Entry(id));
    }
}

/// Index of the first slot holding entry `id`.
pub(crate) fn position_in(m: &Vec<Slot>, id: &String) -> (r: Option<usize>)
    ensures
        r matches Some(i) ==> i as int == position_of(slots_view(m@), id@),
        r is None ==> position_of(slots_view(m@), id@) == -1,
{
    let mut i: usize = 0;
    while i < m.len()
        invariant
            i <= m.len(),
            forall|k: int| 0 <= k < i ==> slots_view(m@)[k] != SlotV::Entry(id@),
        decreases m.len() - i,
    {
        let hit = match &m[i] {
            Slot::Entry(s) => s.eq(id),
            Slot::Separator => false,
        };
        if hit {
            proof {
                lemma_position_is(slots_view(m@), id@, i as int);
            }
            return Some(i);
        }
        i = i + 1;
    }
    proof {
        lemma_position_of(slots_view(m@), id@);
        if holds_entry(slots_view(m@), id@) {
            let k = choose|k: int| 0 <= k < m.len() && slots_view(m@)[k] == SlotV::Entry(id@);
            assert(slots_view(m@)[k] != SlotV::Entry(id@));
        }
    }
    None
}

/// Whether `v` holds a string equal to `s`.
fn contains_string(v: &Vec<String>, s: &String) -> (r: bool)
    ensures
        r == strings_view(v@).contains(s@),
{
    let mut i: usize = 0;
    while i < v.len()
        invariant
            i <= v.len(),
            forall|k: int| 0 <= k < i ==> strings_view(v@)[k] != s@,
        decreases v.len() - i,
    {
        if v[i].eq(s) {
            assert(strings_view(v@)[i as int] == s@);
            return true;
        }
        i = i + 1;
    }
    false
}

/// Merge a saved arrangement with the built-in one.
///
/// Every built-in entry the saved list does not mention is reinserted after
/// the built-in entry that precedes it and is present, so a command added in
/// a new version lands beside its designed neighbour rather than at the
/// bottom. An entry the saved list names but this build does not have is
/// dropped from the result.
pub fn merge(builtin: &[Item], saved: &[Slot]) -> (r: Vec<Slot>)
    ensures
        slots_view(r@) == merge_spec(items_view(builtin@), slots_view(saved@)),
        forall|id: Seq<char>|
            entries_of(items_view(builtin@)).contains(id) ==> #[trigger] holds_entry(slots_view(r@), id),
        forall|k: int|
            0 <= k < r@.len() && (#[trigger] slots_view(r@)[k]) is Entry ==> entries_of(
                items_view(builtin@),
            ).contains(slots_view(r@)[k]->Entry_0),
{
    proof {
        lemma_merge(items_view(builtin@), slots_view(saved@));
    }
    if saved.len() == 0 {
        let mut out: Vec<Slot> = Vec::with_capacity(builtin.len());
        let mut i: usize = 0;
        while i < builtin.len()
            invariant
                i <= builtin.len(),
                slots_view(out@) == items_view(builtin@).take(i as int),
            decreases builtin.len() - i,
        {
            let slot = match &builtin[i] {
                Item::Entry(id) => Slot::Entry(id.clone()),
                Item::Separator => Slot::Separator,
            };
            assert(slot@ == builtin@[i as int]@);
            let ghost before = slots_view(out@);
            out.push(slot);
            assert(slots_view(out@) =~= before.push(slot@));
            assert(items_view(builtin@).take(i + 1) =~= items_view(builtin@).take(i as int).push(
                builtin@[i as int]@,
            ));
            i = i + 1;
        }
        assert(items_view(builtin@).take(builtin.len() as int) =~= items_view(builtin@));
        return out;
    }
    let ghost bv = items_view(builtin@);
    // The built-in entries, in order.
    let mut entries: Vec<String> = Vec::new();
    let mut i: usize = 0;
    while i < builtin.len()
        invariant
            i <= builtin.len(),
            bv == items_view(builtin@),
            strings_view(entries@) == entries_of(bv.take(i as int)),
        decreases builtin.len() - i,
    {
        assert(bv.take(i + 1).drop_last() =~= bv.take(i as int));
        if let Item::Entry(id) = &builtin[i] {
            entries.push(id.clone());
        }
        assert(strings_view(entries@) =~= entries_of(bv.take(i + 1)));
        i = i + 1;
    }
    assert(bv.take(builtin.len() as int) =~= bv);
    let ghost ev = strings_view(entries@);
    // The saved slots this build can show.
    let ghost sv = slots_view(saved@);
    let mut merged: Vec<Slot> = Vec::new();
    let mut j: usize = 0;
    while j < saved.len()
        invariant
            j <= saved.len(),
            sv == slots_view(saved@),
            ev == strings_view(entries@),
            slots_view(merged@) == keep_known(sv.take(j as int), ev),
        decreases saved.len() - j,
    {
        assert(sv.take(j + 1).drop_last() =~= sv.take(j as int));
        match &saved[j] {
            Slot::Separator => {
                merged.push(Slot::Separator);
            },
            Slot::Entry(id) => {
                if contains_string(&entries, id) {
                    merged.push(Slot::Entry(id.clone()));
                }
            },
        }
        assert(slots_view(merged@) =~= keep_known(sv.take(j + 1), ev));
        j = j + 1;
    }
    assert(sv.take(saved.len() as int) =~= sv);
    let ghost m0 = slots_view(merged@);
    let mut p: usize = 0;
    while p < entries.len()
        invariant
            p <= entries.len(),
            ev == strings_view(entries@),
            slots_view(merged@) == reinsert(m0, ev, p as nat),
        decreases entries.len() - p,
    {
        let ghost m = slots_view(merged@);
        if position_in(&merged, &entries[p]).is_none() {
            let mut q: usize = p;
            let mut at: usize = 0;
            let mut done = false;
            let n = merged.len();
            while q > 0 && !done
                invariant
                    q <= p < entries.len(),
                    n == merged@.len(),
                    !done ==> at == 0,
                    done ==> at <= n,
                    ev == strings_view(entries@),
                    m == slots_view(merged@),
                    !done ==> anchor_from(m, ev, p - 1) == anchor_from(m, ev, q - 1),
                    done ==> anchor_from(m, ev, p - 1) == at,
                decreases q,
            {
                q = q - 1;
                if let Some(ix) = position_in(&merged, &entries[q]) {
                    proof {
                        assert(ev[q as int] == entries@[q as int]@);
                        lemma_position_of(m, ev[q as int]);
                        assert(ix < m.len());
                        assert(m.len() == merged@.len());
                    }
                    at = ix + 1;
                    done = true;
                }
            }
            proof {
                lemma_anchor_bounds(m, ev, p - 1);
                assert(anchor_from(m, ev, p - 1) == at as int);
                assert(ev[p as int] == entries@[p as int]@);
            }
            merged.insert(at, Slot::Entry(entries[p].clone()));
            assert(slots_view(merged@) =~= m.insert(at as int, SlotV::Entry(ev[p as int])));
        }
        p = p + 1;
    }
    merged
}

// ---------------------------------------------------------------------------
// The persisted form
// ---------------------------------------------------------------------------

/// The slot a persisted token stands for.
pub open spec fn slot_of_token(t: Seq<char>) -> SlotV {
    if t == seq!['-'] {
        SlotV::Separator
    } else {
        SlotV::Entry(t)
    }
}

/// Per-surface arrangements, folded from the usable groups of a spec: a
/// group with no slot is skipped, a repeated surface extends the first.
pub open spec fn layouts_of(secs: Seq<(Seq<char>, Seq<Seq<char>>)>) -> Seq<(Seq<char>, Seq<SlotV>)>
    decreases secs.len(),
{
    if secs.len() == 0 {
        Seq::empty()
    } else {
        let p = layouts_of(secs.drop_last());
        let slots = secs.last().1.map_values(|t: Seq<char>| slot_of_token(t));
        if slots.len() == 0 {
            p
        } else {
            add_group(p, secs.last().0, slots)
        }
    }
}

/// What [`parse`] returns.
pub open spec fn parse_spec(s: Seq<char>) -> Seq<(Seq<char>, Seq<SlotV>)> {
    layouts_of(sections_spec(s))
}

/// The views of per-surface arrangements.
pub open spec fn layouts_view(v: Seq<(String, Vec<Slot>)>) -> Seq<(Seq<char>, Seq<SlotV>)> {
    v.map_values(|p: (String, Vec<Slot>)| (p.0@, slots_view(p.1@)))
}

/// One rendered group: `surface:tok,tok`.
pub open spec fn render_group(key: Seq<char>, slots: Seq<SlotV>) -> Seq<char> {
    key + seq![':'] + join_seq(slots.map_values(|s: SlotV| slot_token(s)), seq![','])
}

/// The rendered groups of the arrangements that hold something.
pub open spec fn rendered_groups(layouts: Seq<(Seq<char>, Seq<SlotV>)>) -> Seq<Seq<char>>
    decreases layouts.len(),
{
    if layouts.len() == 0 {
        Seq::empty()
    } else {
        let p = rendered_groups(layouts.drop_last());
        if layouts.last().1.len() == 0 {
            p
        } else {
            p.push(render_group(layouts.last().0, layouts.last().1))
        }
    }
}

/// What [`serialize`] returns: `None` when nothing is arranged.
pub open spec fn serialize_spec(layouts: Seq<(Seq<char>, Seq<SlotV>)>) -> Option<Seq<char>> {
    let g = rendered_groups(layouts);
    if g.len() == 0 {
        None
    } else {
        Some(join_seq(g, seq![';']))
    }
}

/// A slot the persisted form carries unchanged: a separator, or an entry
/// whose id is a clean token other than `-`.
pub open spec fn slot_ok(s: SlotV) -> bool {
    match s {
        SlotV::Separator => true,
        SlotV::Entry(id) => token_ok(id) && id != seq!['-'],
    }
}

/// Arrangements the persisted form carries unchanged: known, distinct
/// surfaces, each with at least one clean slot.
pub open spec fn layouts_wf(l: Seq<(Seq<char>, Seq<SlotV>)>) -> bool {
    &&& forall|i: int| 0 <= i < l.len() ==> is_surface_key(#[trigger] l[i].0)
    &&& forall|i: int| 0 <= i < l.len() ==> (#[trigger] l[i]).1.len() > 0
    &&& forall|i: int, j: int| 0 <= i < l.len() && 0 <= j < l[i].1.len() ==> slot_ok(#[trigger] l[i].1[j])
    &&& forall|i: int, j: int| 0 <= i < j < l.len() ==> (#[trigger] l[i]).0 != (#[trigger] l[j]).0
}

/// The tokens of a slot list.
pub open spec fn tokens_of(slots: Seq<SlotV>) -> Seq<Seq<char>> {
    slots.map_values(|s: SlotV| slot_token(s))
}

proof fn lemma_slot_token_ok(s: SlotV)
    requires
        slot_ok(s),
    ensures
        token_ok(slot_token(s)),
        slot_of_token(slot_token(s)) == s,
{
    if s is Separator {
        let t = seq!['-'];
        lemma_trim_id(t);
        assert(!has_char(t, ',') && !has_char(t, ';')) by {
            if has_char(t, ',') || has_char(t, ';') {
                let k = choose|k: int| 0 <= k < t.len() && (t[k] == ',' || t[k] == ';');
                assert(t[k] == '-');
            }
        }
    }
}

proof fn lemma_rendered_groups(l: Seq<(Seq<char>, Seq<SlotV>)>)
    requires
        forall|i: int| 0 <= i < l.len() ==> (#[trigger] l[i]).1.len() > 0,
    ensures
        rendered_groups(l) == Seq::new(l.len(), |i: int| group_text(l[i].0, tokens_of(l[i].1))),
    decreases l.len(),
{
    if l.len() > 0 {
        let dl = l.drop_last();
        assert forall|i: int| 0 <= i < dl.len() implies (#[trigger] dl[i]).1.len() > 0 by {
            assert(dl[i] == l[i]);
        }
        lemma_rendered_groups(dl);
        assert(l[l.len() - 1].1.len() > 0);
        assert(Seq::new(l.len(), |i: int| group_text(l[i].0, tokens_of(l[i].1))) =~= Seq::new(
            dl.len(),
            |i: int| group_text(dl[i].0, tokens_of(dl[i].1)),
        ).push(render_group(l.last().0, l.last().1)));
    }
}

proof fn lemma_layouts_of_prefix(l: Seq<(Seq<char>, Seq<SlotV>)>, n: int)
    requires
        layouts_wf(l),
        0 <= n <= l.len(),
    ensures
        layouts_of(Seq::new(l.len(), |i: int| (l[i].0, tokens_of(l[i].1))).take(n)) == l.take(n),
    decreases n,
{
    let secs = Seq::new(l.len(), |i: int| (l[i].0, tokens_of(l[i].1)));
    if n == 0 {
        assert(secs.take(0) =~= Seq::<(Seq<char>, Seq<Seq<char>>)>::empty());
        assert(l.take(0) =~= Seq::<(Seq<char>, Seq<SlotV>)>::empty());
    } else {
        lemma_layouts_of_prefix(l, n - 1);
        assert(secs.take(n).drop_last() =~= secs.take(n - 1));
        let last = l[n - 1];
        assert(secs.take(n).last() == (last.0, tokens_of(last.1)));
        let slots = tokens_of(last.1).map_values(|t: Seq<char>| slot_of_token(t));
        assert forall|j: int| 0 <= j < last.1.len() implies slots[j] == last.1[j] by {
            assert(slot_ok(l[n - 1].1[j]));
            lemma_slot_token_ok(last.1[j]);
        }
        assert(slots =~= last.1);
        let prev = l.take(n - 1);
        lemma_key_index(prev, last.0);
        assert forall|k: int| 0 <= k < prev.len() implies prev[k].0 != last.0 by {
            assert(prev[k] == l[k]);
        }
        assert(l.take(n) =~= prev.push(last));
    }
}

/// Per-surface arrangements that are well formed survive being written to
/// the persisted form and read back; with nothing arranged nothing is
/// written.
pub proof fn lemma_layout_round_trip(l: Seq<(Seq<char>, Seq<SlotV>)>)
    requires
        layouts_wf(l),
    ensures
        l.len() == 0 ==> serialize_spec(l) is None,
        l.len() > 0 ==> (serialize_spec(l) matches Some(x) && parse_spec(x) == l),
{
    lemma_rendered_groups(l);
    if l.len() > 0 {
        let keys = Seq::new(l.len(), |i: int| l[i].0);
        let tokens = Seq::new(l.len(), |i: int| tokens_of(l[i].1));
        assert forall|i: int, j: int| 0 <= i < tokens.len() && 0 <= j < tokens[i].len() implies token_ok(
            #[trigger] tokens[i][j],
        ) by {
            assert(slot_ok(l[i].1[j]));
            lemma_slot_token_ok(l[i].1[j]);
        }
        assert forall|i: int| 0 <= i < tokens.len() implies (#[trigger] tokens[i]).len() > 0 by {
            assert(l[i].1.len() > 0);
        }
        lemma_sections_of_render(keys, tokens);
        assert(Seq::new(keys.len(), |i: int| group_text(keys[i], tokens[i])) =~= Seq::new(
            l.len(),
            |i: int| group_text(l[i].0, tokens_of(l[i].1)),
        ));
        assert(Seq::new(keys.len(), |i: int| (keys[i], tokens[i])) =~= Seq::new(
            l.len(),
            |i: int| (l[i].0, tokens_of(l[i].1)),
        ));
        lemma_layouts_of_prefix(l, l.len() as int);
        assert(Seq::new(l.len(), |i: int| (l[i].0, tokens_of(l[i].1))).take(l.len() as int) =~= Seq::new(
            l.len(),
            |i: int| (l[i].0, tokens_of(l[i].1)),
        ));
        assert(l.take(l.len() as int) =~= l);
    }
}

/// The slot a persisted token stands for.
fn slot_from_token(t: &String) -> (r: Slot)
    ensures
        r@ == slot_of_token(t@),
{
    let v = crate::strings::chars_of(t.as_str());
    proof {
        reveal_strlit("-");
        assert("-"@ =~= seq!['-']);
    }
    if crate::strings::chars_eq_str(&v, "-") {
        assert(t@ == seq!['-']);
        Slot::Separator
    } else {
        assert(t@ != seq!['-']);
        Slot::Entry(t.clone())
    }
}

/// Index of the first arrangement under `key`.
fn find_key(out: &Vec<(String, Vec<Slot>)>, key: &String) -> (r: Option<usize>)
    ensures
        r matches Some(i) ==> i as int == key_index(layouts_view(out@), key@),
        r is None ==> key_index(layouts_view(out@), key@) == -1,
{
    let ghost ov = layouts_view(out@);
    let mut i: usize = 0;
    while i < out.len()
        invariant
            i <= out.len(),
            ov == layouts_view(out@),
            forall|k: int| 0 <= k < i ==> ov[k].0 != key@,
        decreases out.len() - i,
    {
        if out[i].0.eq(key) {
            proof {
                lemma_key_index_is(ov, key@, i as int);
            }
            return Some(i);
        }
        i = i + 1;
    }
    proof {
        lemma_key_index(ov, key@);
    }
    None
}

/// Parse the persisted form into per-surface arrangements.
pub fn parse(spec: &str) -> (r: Vec<(String, Vec<Slot>)>)
    ensures
        layouts_view(r@) == parse_spec(spec@),
{
    let secs = parse_sections(spec);
    let ghost sv = sections_view(secs@);
    let mut out: Vec<(String, Vec<Slot>)> = Vec::new();
    let mut i: usize = 0;
    while i < secs.len()
        invariant
            i <= secs.len(),
            sv == sections_view(secs@),
            sv == sections_spec(spec@),
            layouts_view(out@) == layouts_of(sv.take(i as int)),
        decreases secs.len() - i,
    {
        assert(sv.take(i + 1).drop_last() =~= sv.take(i as int));
        let ghost sec = sv[i as int];
        assert(sv.take(i + 1).last() == sec);
        let tokens = &secs[i].1;
        let mut slots: Vec<Slot> = Vec::new();
        let mut j: usize = 0;
        while j < tokens.len()
            invariant
                j <= tokens.len(),
                sec.1 == tokens@.map_values(|s: String| s@),
                slots_view(slots@) == sec.1.take(j as int).map_values(|t: Seq<char>| slot_of_token(t)),
            decreases tokens.len() - j,
        {
            let slot = slot_from_token(&tokens[j]);
            assert(sec.1[j as int] == tokens@[j as int]@);
            assert(sec.1.take(j + 1) =~= sec.1.take(j as int).push(sec.1[j as int]));
            let ghost before = slots_view(slots@);
            slots.push(slot);
            assert(slots_view(slots@) =~= before.push(slot@));
            assert(slots_view(slots@) =~= sec.1.take(j + 1).map_values(|t: Seq<char>| slot_of_token(t)));
            j = j + 1;
        }
        assert(sec.1.take(tokens.len() as int) =~= sec.1);
        if slots.len() > 0 {
            let key = secs[i].0.clone();
            let ghost ov = layouts_view(out@);
            let ghost slv = slots_view(slots@);
            match find_key(&out, &key) {
                Some(k) => {
                    proof {
                        lemma_key_index(ov, key@);
                    }
                    let ghost old_out = out@;
                    let (kk, mut existing) = out.remove(k);
                    assert(kk@ == key@);
                    let ghost old_existing = existing@;
                    existing.append(&mut slots);
                    assert(slots_view(existing@) =~= slots_view(old_existing) + slv);
                    out.insert(k, (kk, existing));
                    assert(out@ =~= old_out.update(k as int, (kk, existing)));
                    assert(layouts_view(out@) =~= ov.update(k as int, (key@, ov[k as int].1 + slv)));
                },
                None => {
                    out.push((key, slots));
                    assert(layouts_view(out@) =~= ov.push((key@, slv)));
                },
            }
        }
        i = i + 1;
    }
    assert(sv.take(secs.len() as int) =~= sv);
    out
}

/// Render per-surface arrangements in the persisted form; `None` when no
/// surface holds anything.
pub fn serialize(layouts: &Vec<(String, Vec<Slot>)>) -> (r: Option<String>)
    ensures
        match serialize_spec(layouts_view(layouts@)) {
            None => r is None,
            Some(x) => r matches Some(y) && y@ == x,
        },
{
    let ghost lv = layouts_view(layouts@);
    let mut rendered: Vec<String> = Vec::new();
    let mut i: usize = 0;
    while i < layouts.len()
        invariant
            i <= layouts.len(),
            lv == layouts_view(layouts@),
            strs_view(rendered@) == rendered_groups(lv.take(i as int)),
        decreases layouts.len() - i,
    {
        assert(lv.take(i + 1).drop_last() =~= lv.take(i as int));
        assert(lv.take(i + 1).last() == lv[i as int]);
        let slots = &layouts[i].1;
        if slots.len() > 0 {
            let ghost sv = slots_view(slots@);
            let mut tokens: Vec<String> = Vec::new();
            let mut j: usize = 0;
            while j < slots.len()
                invariant
                    j <= slots.len(),
                    sv == slots_view(slots@),
                    strs_view(tokens@) == sv.take(j as int).map_values(|s: SlotV| slot_token(s)),
                decreases slots.len() - j,
            {
                let t = slots[j].token();
                assert(sv[j as int] == slots@[j as int]@);
                let ghost tb = strs_view(tokens@);
                tokens.push(String::from_str(t));
                assert(strs_view(tokens@) =~= tb.push(t@));
                assert(sv.take(j + 1) =~= sv.take(j as int).push(sv[j as int]));
                assert(strs_view(tokens@) =~= sv.take(j + 1).map_values(|s: SlotV| slot_token(s)));
                j = j + 1;
            }
            assert(sv.take(slots.len() as int) =~= sv);
            let mut group = layouts[i].0.clone();
            push_char(&mut group, ':');
            let joined = join_strings(&tokens, ',');
            let ghost before = group@;
            group.append(joined.as_str());
            assert(group@ =~= render_group(lv[i as int].0, lv[i as int].1));
            let ghost rb = rendered@;
            rendered.push(group);
            assert(strs_view(rendered@) =~= strs_view(rb).push(render_group(lv[i as int].0, lv[i as int].1)));
        }
        i = i + 1;
    }
    assert(lv.take(layouts.len() as int) =~= lv);
    if rendered.len() == 0 {
        None
    } else {
        Some(join_strings(&rendered, ';'))
    }
}

} // verus!
