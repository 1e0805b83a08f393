//! Table-driven context menus: a menu as data before it is a widget.
//!
//! A [`MenuPlan`] is a menu expressed as a list of slots, each carrying a
//! stable command id, built first and rendered second. The rendering step is
//! where cross-cutting rules live: the user's visibility preferences, their
//! arrangement, and separator hygiene.

use vstd::prelude::*;

use crate::menu_plan::layout::{
    Item, Slot, SlotV, entries_of, holds_entry, items_view, lemma_position_of, lemma_tidy,
    merge_spec, position_in, position_of, slots_view, tidy, tidy_spec,
};
use crate::menu_plan::prefs::{Customization, arranged, hidden_ids, saved_for};

pub mod ids;
pub mod inventory;
pub mod layout;
pub mod sections;
pub mod prefs;
pub mod types;

verus! {

/// Which menu an entry belongs to. Visibility is stored per
/// `(surface, command)`, so the surface is part of the key.
#[derive(Clone, Copy, Debug, Eq, Hash, PartialEq, Structural)]
pub enum MenuSurface {
    /// File list row and icon-grid cell.
    FileRow,
    /// Empty space in the file pane, targeting the browsed folder.
    FileBackground,
    /// A row in a trash folder.
    TrashRow,
    /// Empty space in a trash folder.
    TrashBackground,
}

/// The persisted key of a surface.
pub open spec fn surface_key(s: MenuSurface) -> Seq<char> {
    match s {
        MenuSurface::FileRow => "file.row"@,
        MenuSurface::FileBackground => "file.background"@,
        MenuSurface::TrashRow => "trash.row"@,
        MenuSurface::TrashBackground => "trash.background"@,
    }
}

/// Whether `k` is the key of some surface.
pub open spec fn is_surface_key(k: Seq<char>) -> bool {
    exists|s: MenuSurface| surface_key(s) == k
}

/// The key of every surface is a non-empty word of its own: it starts and
/// ends with a non-whitespace character and holds none of the persisted
/// form's delimiters.
pub proof fn lemma_surface_key_chars(m: MenuSurface)
    ensures
        surface_key(m).len() > 0,
        !crate::strings::is_ws(surface_key(m)[0]),
        !crate::strings::is_ws(surface_key(m).last()),
        !crate::strings::has_char(surface_key(m), ':'),
        !crate::strings::has_char(surface_key(m), ';'),
        !crate::strings::has_char(surface_key(m), ','),
{
    reveal_strlit("file.row");
    reveal_strlit("file.background");
    reveal_strlit("trash.row");
    reveal_strlit("trash.background");
    let k = surface_key(m);
    match m {
        MenuSurface::FileRow => {
            assert(k =~= seq!['f', 'i', 'l', 'e', '.', 'r', 'o', 'w']);
        },
        MenuSurface::FileBackground => {
            assert(k =~= seq![
                'f', 'i', 'l', 'e', '.', 'b', 'a', 'c', 'k', 'g', 'r', 'o', 'u', 'n', 'd',
            ]);
        },
        MenuSurface::TrashRow => {
            assert(k =~= seq!['t', 'r', 'a', 's', 'h', '.', 'r', 'o', 'w']);
        },
        MenuSurface::TrashBackground => {
            assert(k =~= seq![
                't', 'r', 'a', 's', 'h', '.', 'b', 'a', 'c', 'k', 'g', 'r', 'o', 'u', 'n', 'd',
            ]);
        },
    }
}

impl MenuSurface {
    /// Stable key for persistence. Never derived from the variant name, so
    /// renaming the variant cannot orphan a user's saved preference.
    pub fn key(self) -> (r: &'static str)
        ensures
            r@ == surface_key(self),
    {
        match self {
            MenuSurface::FileRow => "file.row",
            MenuSurface::FileBackground => "file.background",
            MenuSurface::TrashRow => "trash.row",
            MenuSurface::TrashBackground => "trash.background",
        }
    }

    /// Every surface, in the order the settings UI lists them.
    pub fn all() -> (r: [MenuSurface; 4])
        ensures
            r@ == seq![
                MenuSurface::FileRow,
                MenuSurface::FileBackground,
                MenuSurface::TrashRow,
                MenuSurface::TrashBackground,
            ],
    {
        [
            MenuSurface::FileRow,
            MenuSurface::FileBackground,
            MenuSurface::TrashRow,
            MenuSurface::TrashBackground,
        ]
    }
}

/// The entries of `items` that are not hidden, separators kept.
pub open spec fn visible_spec(
    items: Seq<SlotV>,
    h: Seq<(Seq<char>, Seq<Seq<char>>)>,
    key: Seq<char>,
) -> Seq<SlotV>
    decreases items.len(),
{
    if items.len() == 0 {
        Seq::empty()
    } else {
        let p = visible_spec(items.drop_last(), h, key);
        match items.last() {
            SlotV::Separator => p.push(SlotV::Separator),
            SlotV::Entry(id) => if hidden_ids(h, key).contains(id) {
                p
            } else {
                p.push(items.last())
            },
        }
    }
}

/// The first `n` steps of [`arrange`]: the slots placed so far, and the
/// plan items still unplaced.
pub open spec fn arrange_acc(items: Seq<SlotV>, arr: Seq<SlotV>) -> (Seq<SlotV>, Seq<SlotV>)
    decreases arr.len(),
{
    if arr.len() == 0 {
        (Seq::empty(), items)
    } else {
        let (o, rest) = arrange_acc(items, arr.drop_last());
        match arr.last() {
            SlotV::Separator => (o.push(SlotV::Separator), rest),
            SlotV::Entry(id) => {
                let p = position_of(rest, id);
                if p >= 0 {
                    (o.push(rest[p]), rest.remove(p))
                } else {
                    (o, rest)
                }
            },
        }
    }
}

/// The slots of `s` that are entries, in order.
pub open spec fn non_separators(s: Seq<SlotV>) -> Seq<SlotV>
    decreases s.len(),
{
    if s.len() == 0 {
        Seq::empty()
    } else {
        let p = non_separators(s.drop_last());
        if s.last() is Separator {
            p
        } else {
            p.push(s.last())
        }
    }
}

/// What [`arrange`] returns: the plan reordered to the arrangement, its
/// separators taken from the arrangement, and any entry the arrangement does
/// not name kept at the end.
pub open spec fn arrange_spec(items: Seq<SlotV>, arr: Seq<SlotV>) -> Seq<SlotV> {
    let (o, rest) = arrange_acc(items, arr);
    o + non_separators(rest)
}

/// What [`MenuPlan::render`] draws: the plan without its hidden entries,
/// reordered to the user's arrangement when the surface has one, tidied.
pub open spec fn render_spec(
    items: Seq<SlotV>,
    c: (Seq<(Seq<char>, Seq<Seq<char>>)>, Seq<(Seq<char>, Seq<SlotV>)>),
    key: Seq<char>,
    builtin: Seq<SlotV>,
) -> Seq<SlotV> {
    let v = if c.0.len() > 0 {
        visible_spec(items, c.0, key)
    } else {
        items
    };
    let a = if arranged(c.1, key) {
        arrange_spec(v, merge_spec(builtin, saved_for(c.1, key)))
    } else {
        v
    };
    tidy_spec(a)
}

/// Reorder a plan to the user's arrangement.
///
/// A plan holds only the entries allowed for this particular right-click,
/// so most slots of the arrangement find nothing and are skipped. The
/// separators come from the arrangement: once a user has moved anything, the
/// group boundaries are theirs. An entry the arrangement did not name keeps
/// its place at the end instead of disappearing.
pub fn arrange(items: Vec<Slot>, arrangement: &[Slot]) -> (r: Vec<Slot>)
    ensures
        slots_view(r@) == arrange_spec(slots_view(items@), slots_view(arrangement@)),
{
    let ghost iv = slots_view(items@);
    let ghost av = slots_view(arrangement@);
    let mut items = items;
    let mut ordered: Vec<Slot> = Vec::new();
    let mut i: usize = 0;
    while i < arrangement.len()
        invariant
            i <= arrangement.len(),
            av == slots_view(arrangement@),
            (slots_view(ordered@), slots_view(items@)) == arrange_acc(iv, av.take(i as int)),
        decreases arrangement.len() - i,
    {
        assert(av.take(i + 1).drop_last() =~= av.take(i as int));
        assert(av.take(i + 1).last() == arrangement@[i as int]@);
        let ghost ob = slots_view(ordered@);
        let ghost rb = slots_view(items@);
        match &arrangement[i] {
            Slot::Separator => {
                ordered.push(Slot::Separator);
                assert(slots_view(ordered@) =~= ob.push(SlotV::Separator));
            },
            Slot::Entry(id) => {
                match position_in(&items, id) {
                    Some(at) => {
                        proof {
                            lemma_position_of(rb, id@);
                        }
                        let ghost before = items@;
                        let slot = items.remove(at);
                        assert(slots_view(items@) =~= rb.remove(at as int));
                        ordered.push(slot);
                        assert(slots_view(ordered@) =~= ob.push(rb[at as int]));
                    },
                    None => {},
                }
            },
        }
        i = i + 1;
    }
    assert(av.take(arrangement.len() as int) =~= av);
    let ghost rest = slots_view(items@);
    let mut j: usize = 0;
    let ghost ob = slots_view(ordered@);
    while j < items.len()
        invariant
            j <= items.len(),
            rest == slots_view(items@),
            slots_view(ordered@) == ob + non_separators(rest.take(j as int)),
        decreases items.len() - j,
    {
        assert(rest.take(j + 1).drop_last() =~= rest.take(j as int));
        let ghost before = slots_view(ordered@);
        if !items[j].is_separator() {
            ordered.push(items[j].cloned());
            assert(slots_view(ordered@) =~= before.push(rest[j as int]));
        }
        j = j + 1;
    }
    assert(rest.take(items.len() as int) =~= rest);
    ordered
}

/// A menu, as data: the entries a right-click allows, in the order they were
/// planned, with the separators that frame their groups.
pub struct MenuPlan {
    surface: MenuSurface,
    items: Vec<Slot>,
}

impl MenuPlan {
    /// The surface this plan is for.
    pub closed spec fn surface_spec(&self) -> MenuSurface {
        self.surface
    }

    /// The planned slots, in order.
    pub closed spec fn items_spec(&self) -> Seq<SlotV> {
        slots_view(self.items@)
    }

    pub fn new(surface: MenuSurface) -> (r: MenuPlan)
        ensures
            r.surface_spec() == surface,
            r.items_spec() == Seq::<SlotV>::empty(),
    {
        let r = MenuPlan { surface, items: Vec::new() };
        assert(r.items_spec() =~= Seq::<SlotV>::empty());
        r
    }

    /// Add an entry that runs a command.
    pub fn action(self, id: &str) -> (r: MenuPlan)
        ensures
            r.surface_spec() == self.surface_spec(),
            r.items_spec() == self.items_spec().push(SlotV::Entry(id@)),
    {
        let mut me = self;
        let ghost before = slots_view(me.items@);
        me.items.push(Slot::Entry(String::from_str(id)));
        assert(slots_view(me.items@) =~= before.push(SlotV::Entry(id@)));
        me
    }

    /// Add an entry that opens a submenu.
    pub fn submenu(self, id: &str) -> (r: MenuPlan)
        ensures
            r.surface_spec() == self.surface_spec(),
            r.items_spec() == self.items_spec().push(SlotV::Entry(id@)),
    {
        self.action(id)
    }

    /// Close a group.
    pub fn separator(self) -> (r: MenuPlan)
        ensures
            r.surface_spec() == self.surface_spec(),
            r.items_spec() == self.items_spec().push(SlotV::Separator),
    {
        let mut me = self;
        let ghost before = slots_view(me.items@);
        me.items.push(Slot::Separator);
        assert(slots_view(me.items@) =~= before.push(SlotV::Separator));
        me
    }

    /// What to draw: the user's preferences applied, what is left tidied.
    pub fn render(self, custom: &Customization) -> (r: Vec<Slot>)
        ensures
            slots_view(r@) == render_spec(
                self.items_spec(),
                custom@,
                surface_key(self.surface_spec()),
                inventory::builtin_of(self.surface_spec()),
            ),
    {
        let surface = self.surface;
        let mut items = self.items;
        let ghost key = surface_key(surface);
        if custom.any_hidden() {
            let ghost iv = slots_view(items@);
            let mut kept: Vec<Slot> = Vec::new();
            let mut i: usize = 0;
            while i < items.len()
                invariant
                    i <= items.len(),
                    iv == slots_view(items@),
                    key == surface_key(surface),
                    slots_view(kept@) == visible_spec(iv.take(i as int), custom@.0, key),
                decreases items.len() - i,
            {
                assert(iv.take(i + 1).drop_last() =~= iv.take(i as int));
                assert(iv.take(i + 1).last() == iv[i as int]);
                assert(iv[i as int] == items@[i as int]@);
                let ghost before = slots_view(kept@);
                let keep = match &items[i] {
                    Slot::Separator => true,
                    Slot::Entry(id) => !custom.is_hidden(surface, id.as_str()),
                };
                proof {
                    match iv[i as int] {
                        SlotV::Separator => {
                            assert(keep);
                        },
                        SlotV::Entry(x) => {
                            assert(keep == !hidden_ids(custom@.0, key).contains(x));
                        },
                    }
                }
                if keep {
                    kept.push(items[i].cloned());
                    assert(slots_view(kept@) =~= before.push(iv[i as int]));
                }
                i = i + 1;
            }
            assert(iv.take(items.len() as int) =~= iv);
            items = kept;
        }
        if custom.surface_is_arranged(surface) {
            let builtin = inventory::items(surface);
            let arrangement = custom.arrangement(surface, builtin.as_slice());
            items = arrange(items, arrangement.as_slice());
        }
        tidy(items)
    }
}

/// The ids that occur more than once among the entries `ids`, once per
/// repeat, in order.
pub open spec fn duplicates_spec(ids: Seq<Seq<char>>) -> Seq<Seq<char>>
    decreases ids.len(),
{
    if ids.len() == 0 {
        Seq::empty()
    } else {
        let p = duplicates_spec(ids.drop_last());
        if ids.drop_last().contains(ids.last()) {
            p.push(ids.last())
        } else {
            p
        }
    }
}

/// Ids appearing more than once in the same plan; separators are never ids.
pub fn duplicate_ids(items: &[Slot]) -> (r: Vec<String>)
    ensures
        crate::strings::strs_view(r@) == duplicates_spec(entries_of(slots_view(items@))),
{
    let ghost iv = slots_view(items@);
    let mut seen: Vec<String> = Vec::new();
    let mut duplicates: Vec<String> = Vec::new();
    let mut i: usize = 0;
    while i < items.len()
        invariant
            i <= items.len(),
            iv == slots_view(items@),
            crate::strings::strs_view(seen@) == entries_of(iv.take(i as int)),
            crate::strings::strs_view(duplicates@) == duplicates_spec(entries_of(iv.take(i as int))),
        decreases items.len() - i,
    {
        assert(iv.take(i + 1).drop_last() =~= iv.take(i as int));
        assert(iv.take(i + 1).last() == items@[i as int]@);
        match &items[i] {
            Slot::Entry(id) => {
                let ghost sv = crate::strings::strs_view(seen@);
                let mut found = false;
                let mut k: usize = 0;
                while k < seen.len()
                    invariant
                        k <= seen.len(),
                        sv == crate::strings::strs_view(seen@),
                        found <==> exists|q: int| 0 <= q < k && sv[q] == id@,
                    decreases seen.len() - k,
                {
                    assert(sv[k as int] == seen@[k as int]@);
                    if seen[k].eq(id) {
                        found = true;
                    }
                    k = k + 1;
                }
                let ghost db = crate::strings::strs_view(duplicates@);
                let ghost ids_now = entries_of(iv.take(i + 1));
                assert(ids_now == sv.push(id@));
                assert(ids_now.drop_last() =~= sv);
                if found {
                    duplicates.push(id.clone());
                    assert(crate::strings::strs_view(duplicates@) =~= db.push(id@));
                } else {
                    assert(!sv.contains(id@));
                }
                let ghost sb = sv;
                seen.push(id.clone());
                assert(crate::strings::strs_view(seen@) =~= sb.push(id@));
            },
            Slot::Separator => {},
        }
        i = i + 1;
    }
    assert(iv.take(items.len() as int) =~= iv);
    duplicates
}

proof fn lemma_visible_drops(items: Seq<SlotV>, h: Seq<(Seq<char>, Seq<Seq<char>>)>, key: Seq<char>, id: Seq<char>)
    requires
        hidden_ids(h, key).contains(id),
    ensures
        !holds_entry(visible_spec(items, h, key), id),
    decreases items.len(),
{
    if items.len() > 0 {
        let p = visible_spec(items.drop_last(), h, key);
        lemma_visible_drops(items.drop_last(), h, key, id);
        let v = visible_spec(items, h, key);
        if holds_entry(v, id) {
            let k = choose|k: int| 0 <= k < v.len() && v[k] == SlotV::Entry(id);
            if k < p.len() {
                assert(v[k] == p[k]);
            }
        }
    }
}

proof fn lemma_arrange_acc_from(items: Seq<SlotV>, arr: Seq<SlotV>, id: Seq<char>)
    requires
        !holds_entry(items, id),
    ensures
        !holds_entry(arrange_acc(items, arr).0, id),
        !holds_entry(arrange_acc(items, arr).1, id),
    decreases arr.len(),
{
    if arr.len() > 0 {
        lemma_arrange_acc_from(items, arr.drop_last(), id);
        let (o, rest) = arrange_acc(items, arr.drop_last());
        let (o2, rest2) = arrange_acc(items, arr);
        if let SlotV::Entry(x) = arr.last() {
            lemma_position_of(rest, x);
        }
        if holds_entry(o2, id) {
            let k = choose|k: int| 0 <= k < o2.len() && o2[k] == SlotV::Entry(id);
            if k < o.len() {
                assert(o2[k] == o[k]);
            } else if let SlotV::Entry(x) = arr.last() {
                let p = position_of(rest, x);
                assert(o2[k] == rest[p]);
            }
        }
        if holds_entry(rest2, id) {
            let k = choose|k: int| 0 <= k < rest2.len() && rest2[k] == SlotV::Entry(id);
            if let SlotV::Entry(x) = arr.last() {
                let p = position_of(rest, x);
                if p >= 0 {
                    if k < p {
                        assert(rest2[k] == rest[k]);
                    } else {
                        assert(rest2[k] == rest[k + 1]);
                    }
                }
            }
        }
    }
}

proof fn lemma_non_separators_from(s: Seq<SlotV>, id: Seq<char>)
    requires
        !holds_entry(s, id),
    ensures
        !holds_entry(non_separators(s), id),
    decreases s.len(),
{
    if s.len() > 0 {
        let p = non_separators(s.drop_last());
        assert(!holds_entry(s.drop_last(), id)) by {
            if holds_entry(s.drop_last(), id) {
                let k = choose|k: int| 0 <= k < s.len() - 1 && s.drop_last()[k] == SlotV::Entry(id);
                assert(s[k] == SlotV::Entry(id));
            }
        }
        lemma_non_separators_from(s.drop_last(), id);
        let n = non_separators(s);
        if holds_entry(n, id) {
            let k = choose|k: int| 0 <= k < n.len() && n[k] == SlotV::Entry(id);
            if k < p.len() {
                assert(n[k] == p[k]);
            } else {
                assert(n[k] == s[s.len() - 1]);
            }
        }
    }
}

/// An entry the user hid on a surface is never drawn in that surface's
/// menu, whatever was planned and however the menu is arranged.
pub proof fn lemma_hidden_never_drawn(
    items: Seq<SlotV>,
    c: (Seq<(Seq<char>, Seq<Seq<char>>)>, Seq<(Seq<char>, Seq<SlotV>)>),
    s: MenuSurface,
    builtin: Seq<SlotV>,
    id: Seq<char>,
)
    requires
        hidden_ids(c.0, surface_key(s)).contains(id),
    ensures
        !entries_of(render_spec(items, c, surface_key(s), builtin)).contains(id),
{
    let key = surface_key(s);
    if c.0.len() == 0 {
        assert(hidden_ids(c.0, key).len() == 0);
    }
    let v = visible_spec(items, c.0, key);
    lemma_visible_drops(items, c.0, key, id);
    let a = if arranged(c.1, key) {
        arrange_spec(v, merge_spec(builtin, saved_for(c.1, key)))
    } else {
        v
    };
    if arranged(c.1, key) {
        let arr = merge_spec(builtin, saved_for(c.1, key));
        lemma_arrange_acc_from(v, arr, id);
        let (o, rest) = arrange_acc(v, arr);
        lemma_non_separators_from(rest, id);
        let ns = non_separators(rest);
        if holds_entry(a, id) {
            let k = choose|k: int| 0 <= k < a.len() && a[k] == SlotV::Entry(id);
            if k < o.len() {
                assert(a[k] == o[k]);
            } else {
                assert(a[k] == ns[k - o.len()]);
            }
        }
    }
    lemma_tidy(a);
    if entries_of(tidy_spec(a)).contains(id) {
        crate::menu_plan::layout::lemma_entries_of_holds(a, id);
    }
}

} // verus!
