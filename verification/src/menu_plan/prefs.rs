//! Which menu entries the user turned off, and the arrangements they saved.
//!
//! Storage is `(surface, command)`: the same command can be wanted in one menu
//! and not in another. The persisted form is `surface:id,id;surface:id`, and
//! it follows the rules that make a saved preference survive an upgrade:
//! unknown surfaces and ids are ignored, an entry the spec never mentions is
//! visible, and a few entries can never be hidden at all.

use vstd::prelude::*;

use crate::menu_plan::layout::{
    Item, Slot, SlotV, entries_of, holds_entry, items_view, layouts_view, merge, merge_spec,
    slots_view, tidy, tidy_spec,
};
use crate::menu_plan::sections::{
    add_group, group_text, key_index, lemma_key_index, lemma_key_index_is,
    lemma_sections_of_render, parse_sections, sections_spec, sections_view, token_ok,
};
use crate::menu_plan::{MenuSurface, ids, is_surface_key, surface_key};
use crate::strings::{chars_eq_str, chars_of, join_seq, join_strings, push_char, strs_view};

verus! {

/// Entries no preference may hide: Open and Get Info.
pub open spec fn always_visible(id: Seq<char>) -> bool {
    id == ids::OPEN@ || id == ids::GET_INFO@
}

/// Whether `id` is one of the entries no preference may hide.
pub fn is_always_visible(id: &str) -> (r: bool)
    ensures
        r == always_visible(id@),
{
    let v = chars_of(id);
    chars_eq_str(&v, ids::OPEN) || chars_eq_str(&v, ids::GET_INFO)
}

/// The hidden ids per surface key.
#[derive(Debug, PartialEq, Eq)]
pub struct Hidden {
    surfaces: Vec<(String, Vec<String>)>,
}

impl View for Hidden {
    type V = Seq<(Seq<char>, Seq<Seq<char>>)>;

    closed spec fn view(&self) -> Self::V {
        sections_view(self.surfaces@)
    }
}

/// The hidden ids of one surface in a hidden-entry table.
pub open spec fn hidden_ids(h: Seq<(Seq<char>, Seq<Seq<char>>)>, key: Seq<char>) -> Seq<Seq<char>> {
    let k = key_index(h, key);
    if k >= 0 {
        h[k].1
    } else {
        Seq::empty()
    }
}

/// The ids other than `id`, in order.
pub open spec fn without(ts: Seq<Seq<char>>, id: Seq<char>) -> Seq<Seq<char>> {
    ts.filter(|x: Seq<char>| x != id)
}

/// What [`Hidden::set`] leaves behind.
pub open spec fn set_spec(
    h: Seq<(Seq<char>, Seq<Seq<char>>)>,
    key: Seq<char>,
    id: Seq<char>,
    hidden: bool,
) -> Seq<(Seq<char>, Seq<Seq<char>>)> {
    let k = key_index(h, key);
    if hidden && always_visible(id) {
        h
    } else if k >= 0 && hidden {
        if h[k].1.contains(id) {
            h
        } else {
            h.update(k, (key, h[k].1.push(id)))
        }
    } else if k >= 0 {
        let rest = without(h[k].1, id);
        if rest.len() == 0 {
            h.remove(k)
        } else {
            h.update(k, (key, rest))
        }
    } else if hidden {
        h.push((key, seq![id]))
    } else {
        h
    }
}

/// A hidden-entry table the persisted form carries unchanged: known,
/// distinct surfaces, each with at least one clean id that may be hidden.
pub open spec fn hidden_wf(h: Seq<(Seq<char>, Seq<Seq<char>>)>) -> bool {
    &&& forall|i: int| 0 <= i < h.len() ==> is_surface_key(#[trigger] h[i].0)
    &&& forall|i: int| 0 <= i < h.len() ==> (#[trigger] h[i]).1.len() > 0
    &&& forall|i: int, j: int|
        0 <= i < h.len() && 0 <= j < h[i].1.len() ==> token_ok(#[trigger] h[i].1[j]) && !always_visible(
            h[i].1[j],
        )
    &&& forall|i: int, j: int| 0 <= i < j < h.len() ==> (#[trigger] h[i]).0 != (#[trigger] h[j]).0
}

impl Hidden {
    /// Nothing hidden anywhere.
    pub fn new() -> (r: Hidden)
        ensures
            r@ == Seq::<(Seq<char>, Seq<Seq<char>>)>::empty(),
            hidden_inv(r@),
    {
        let r = Hidden { surfaces: Vec::new() };
        assert(r@ =~= Seq::<(Seq<char>, Seq<Seq<char>>)>::empty());
        r
    }

    pub fn is_empty(&self) -> (r: bool)
        ensures
            r == (self@.len() == 0),
    {
        self.surfaces.len() == 0
    }

    fn position(&self, surface: MenuSurface) -> (r: Option<usize>)
        ensures
            r matches Some(i) ==> i as int == key_index(self@, surface_key(surface)),
            r is None ==> key_index(self@, surface_key(surface)) == -1,
    {
        let key = chars_of(surface.key());
        let mut i: usize = 0;
        while i < self.surfaces.len()
            invariant
                i <= self.surfaces.len(),
                key@ == surface_key(surface),
                forall|k: int| 0 <= k < i ==> self@[k].0 != surface_key(surface),
            decreases self.surfaces.len() - i,
        {
            let here = chars_of(self.surfaces[i].0.as_str());
            if crate::strings::chars_eq(&here, &key) {
                proof {
                    lemma_key_index_is(self@, surface_key(surface), i as int);
                }
                return Some(i);
            }
            i = i + 1;
        }
        proof {
            lemma_key_index(self@, surface_key(surface));
        }
        None
    }

    /// The hidden ids of one surface.
    pub fn ids(&self, surface: MenuSurface) -> (r: &[String])
        ensures
            strs_view(r@) == hidden_ids(self@, surface_key(surface)),
    {
        proof {
            lemma_key_index(self@, surface_key(surface));
        }
        match self.position(surface) {
            Some(i) => {
                let r = self.surfaces[i].1.as_slice();
                assert(strs_view(r@) =~= self@[i as int].1);
                r
            },
            None => {
                let r: &[String] = &[];
                assert(strs_view(r@) =~= Seq::<Seq<char>>::empty());
                r
            },
        }
    }

    /// Whether `id` is hidden on `surface`.
    pub fn contains(&self, surface: MenuSurface, id: &str) -> (r: bool)
        ensures
            r == hidden_ids(self@, surface_key(surface)).contains(id@),
    {
        let list = self.ids(surface);
        let ghost lv = strs_view(list@);
        let want = chars_of(id);
        let mut i: usize = 0;
        while i < list.len()
            invariant
                i <= list.len(),
                lv == strs_view(list@),
                lv == hidden_ids(self@, surface_key(surface)),
                want@ == id@,
                forall|k: int| 0 <= k < i ==> lv[k] != id@,
            decreases list.len() - i,
        {
            let have = chars_of(list[i].as_str());
            if crate::strings::chars_eq(&have, &want) {
                assert(lv[i as int] == id@);
                assert(lv.contains(id@));
                assert(hidden_ids(self@, surface_key(surface)) == lv);
                return true;
            }
            i = i + 1;
        }
        false
    }

    /// Hide or show `id` on `surface`. Hiding one of the always-visible
    /// entries does nothing.
    pub fn set(&mut self, surface: MenuSurface, id: &str, hidden: bool)
        ensures
            final(self)@ == set_spec(old(self)@, surface_key(surface), id@, hidden),
            hidden_inv(old(self)@) ==> hidden_inv(final(self)@),
    {
        proof {
            if hidden_inv(self@) {
                lemma_set_reads_back(self@, surface_key(surface), id@, hidden, id@);
            }
        }
        if hidden && is_always_visible(id) {
            return;
        }
        let ghost h = self@;
        let ghost key = surface_key(surface);
        proof {
            lemma_key_index(h, key);
        }
        match self.position(surface) {
            Some(index) => {
                let (k, list) = self.surfaces.remove(index);
                assert(k@ == key);
                let ghost lv = strs_view(list@);
                if hidden {
                    let mut found = false;
                    let mut i: usize = 0;
                    while i < list.len()
                        invariant
                            i <= list.len(),
                            lv == strs_view(list@),
                            found <==> exists|j: int| 0 <= j < i && lv[j] == id@,
                        decreases list.len() - i,
                    {
                        let have = chars_of(list[i].as_str());
                        let want = chars_of(id);
                        assert(lv[i as int] == list@[i as int]@);
                        if crate::strings::chars_eq(&have, &want) {
                            found = true;
                        }
                        i = i + 1;
                    }
                    let mut list = list;
                    if !found {
                        list.push(String::from_str(id));
                        assert(strs_view(list@) =~= lv.push(id@));
                    } else {
                        assert(lv.contains(id@));
                    }
                    self.surfaces.insert(index, (k, list));
                    assert(self@ =~= set_spec(h, key, id@, hidden));
                } else {
                    let mut kept: Vec<String> = Vec::new();
                    let mut i: usize = 0;
                    while i < list.len()
                        invariant
                            i <= list.len(),
                            lv == strs_view(list@),
                            strs_view(kept@) == without(lv.take(i as int), id@),
                        decreases list.len() - i,
                    {
                        assert(lv.take(i + 1).drop_last() =~= lv.take(i as int));
                        let have = chars_of(list[i].as_str());
                        let want = chars_of(id);
                        let ghost before = strs_view(kept@);
                        if !crate::strings::chars_eq(&have, &want) {
                            kept.push(list[i].clone());
                            assert(strs_view(kept@) =~= before.push(lv[i as int]));
                        }
                        proof {
                            lv.take(i as int).lemma_filter_push(lv[i as int], |x: Seq<char>| x != id@);
                            assert(lv.take(i + 1) =~= lv.take(i as int).push(lv[i as int]));
                        }
                        i = i + 1;
                    }
                    assert(lv.take(list.len() as int) =~= lv);
                    if kept.len() > 0 {
                        self.surfaces.insert(index, (k, kept));
                        assert(self@ =~= set_spec(h, key, id@, hidden));
                    } else {
                        assert(self@ =~= set_spec(h, key, id@, hidden));
                    }
                }
            },
            None => {
                if hidden {
                    let mut list: Vec<String> = Vec::new();
                    list.push(String::from_str(id));
                    self.surfaces.push((String::from_str(surface.key()), list));
                    assert(strs_view(list@) =~= seq![id@]);
                    assert(self@ =~= set_spec(h, key, id@, hidden));
                }
            },
        }
    }

    /// Show every entry of one surface again.
    pub fn clear(&mut self, surface: MenuSurface)
        ensures
            final(self)@ == drop_surface(old(self)@, surface_key(surface)),
            hidden_inv(old(self)@) ==> hidden_inv(final(self)@),
    {
        proof {
            if hidden_inv(self@) {
                lemma_clear_keeps_inv(self@, surface_key(surface));
            }
        }
        let ghost h = self@;
        let ghost key = surface_key(surface);
        let want = chars_of(surface.key());
        let mut kept: Vec<(String, Vec<String>)> = Vec::new();
        let mut i: usize = 0;
        while i < self.surfaces.len()
            invariant
                i <= self.surfaces.len(),
                h == self@,
                want@ == key,
                sections_view(kept@) == drop_surface(h.take(i as int), key),
            decreases self.surfaces.len() - i,
        {
            assert(h.take(i + 1).drop_last() =~= h.take(i as int));
            let have = chars_of(self.surfaces[i].0.as_str());
            let ghost before = sections_view(kept@);
            if !crate::strings::chars_eq(&have, &want) {
                let pair = (self.surfaces[i].0.clone(), self.surfaces[i].1.clone());
                kept.push(pair);
                assert(sections_view(kept@) =~= before.push(h[i as int]));
            }
            proof {
                lemma_drop_surface_push(h.take(i as int), h[i as int], key);
                assert(h.take(i + 1) =~= h.take(i as int).push(h[i as int]));
            }
            i = i + 1;
        }
        assert(h.take(self.surfaces.len() as int) =~= h);
        self.surfaces = kept;
    }
}

/// The ids of a group that a preference may hide, in order.
pub open spec fn hideable(ts: Seq<Seq<char>>) -> Seq<Seq<char>>
    decreases ts.len(),
{
    if ts.len() == 0 {
        Seq::empty()
    } else {
        let p = hideable(ts.drop_last());
        if always_visible(ts.last()) {
            p
        } else {
            p.push(ts.last())
        }
    }
}

/// Hidden ids per surface, folded from the usable groups of a spec: a group
/// left with no hideable id is skipped, a repeated surface extends the first.
pub open spec fn hidden_of(secs: Seq<(Seq<char>, Seq<Seq<char>>)>) -> Seq<(Seq<char>, Seq<Seq<char>>)>
    decreases secs.len(),
{
    if secs.len() == 0 {
        Seq::empty()
    } else {
        let p = hidden_of(secs.drop_last());
        let ids = hideable(secs.last().1);
        if ids.len() == 0 {
            p
        } else {
            add_group(p, secs.last().0, ids)
        }
    }
}

/// What [`parse`] returns.
pub open spec fn parse_spec(s: Seq<char>) -> Seq<(Seq<char>, Seq<Seq<char>>)> {
    hidden_of(sections_spec(s))
}

/// What [`serialize`] returns: `None` when nothing is hidden.
pub open spec fn serialize_spec(h: Seq<(Seq<char>, Seq<Seq<char>>)>) -> Option<Seq<char>> {
    if h.len() == 0 {
        None
    } else {
        Some(join_seq(Seq::new(h.len(), |i: int| group_text(h[i].0, h[i].1)), seq![';']))
    }
}

proof fn lemma_hideable_id(ts: Seq<Seq<char>>)
    requires
        forall|i: int| 0 <= i < ts.len() ==> !always_visible(#[trigger] ts[i]),
    ensures
        hideable(ts) == ts,
    decreases ts.len(),
{
    if ts.len() > 0 {
        let dl = ts.drop_last();
        assert forall|i: int| 0 <= i < dl.len() implies !always_visible(#[trigger] dl[i]) by {
            assert(dl[i] == ts[i]);
        }
        lemma_hideable_id(dl);
        assert(!always_visible(ts[ts.len() - 1]));
        assert(dl.push(ts.last()) =~= ts);
    }
}

proof fn lemma_hideable_visible(ts: Seq<Seq<char>>)
    ensures
        forall|i: int| 0 <= i < hideable(ts).len() ==> !always_visible(#[trigger] hideable(ts)[i]),
    decreases ts.len(),
{
    if ts.len() > 0 {
        let p = hideable(ts.drop_last());
        lemma_hideable_visible(ts.drop_last());
        assert forall|i: int| 0 <= i < hideable(ts).len() implies !always_visible(
            #[trigger] hideable(ts)[i],
        ) by {
            if i < p.len() {
                assert(hideable(ts)[i] == p[i]);
            }
        }
    }
}

proof fn lemma_hidden_of_prefix(h: Seq<(Seq<char>, Seq<Seq<char>>)>, n: int)
    requires
        hidden_wf(h),
        0 <= n <= h.len(),
    ensures
        hidden_of(h.take(n)) == h.take(n),
    decreases n,
{
    if n == 0 {
        assert(h.take(0) =~= Seq::<(Seq<char>, Seq<Seq<char>>)>::empty());
    } else {
        lemma_hidden_of_prefix(h, n - 1);
        assert(h.take(n).drop_last() =~= h.take(n - 1));
        let last = h[n - 1];
        assert(h.take(n).last() == last);
        assert forall|j: int| 0 <= j < last.1.len() implies !always_visible(#[trigger] last.1[j]) by {
            assert(!always_visible(h[n - 1].1[j]));
        }
        lemma_hideable_id(last.1);
        let prev = h.take(n - 1);
        lemma_key_index(prev, last.0);
        assert forall|k: int| 0 <= k < prev.len() implies prev[k].0 != last.0 by {
            assert(prev[k] == h[k]);
        }
        assert(h.take(n) =~= prev.push(last));
    }
}

/// A well-formed hidden-entry table survives being written to the persisted
/// form and read back; with nothing hidden nothing is written.
pub proof fn lemma_hidden_round_trip(h: Seq<(Seq<char>, Seq<Seq<char>>)>)
    requires
        hidden_wf(h),
    ensures
        h.len() == 0 ==> serialize_spec(h) is None,
        h.len() > 0 ==> (serialize_spec(h) matches Some(x) && parse_spec(x) == h),
{
    if h.len() > 0 {
        let keys = Seq::new(h.len(), |i: int| h[i].0);
        let tokens = Seq::new(h.len(), |i: int| h[i].1);
        assert forall|i: int, j: int| 0 <= i < tokens.len() && 0 <= j < tokens[i].len() implies token_ok(
            #[trigger] tokens[i][j],
        ) by {
            assert(token_ok(h[i].1[j]));
        }
        assert forall|i: int| 0 <= i < tokens.len() implies (#[trigger] tokens[i]).len() > 0 by {
            assert(h[i].1.len() > 0);
        }
        lemma_sections_of_render(keys, tokens);
        assert(Seq::new(keys.len(), |i: int| group_text(keys[i], tokens[i])) =~= Seq::new(
            h.len(),
            |i: int| group_text(h[i].0, h[i].1),
        ));
        assert(Seq::new(keys.len(), |i: int| (keys[i], tokens[i])) =~= h);
        lemma_hidden_of_prefix(h, h.len() as int);
        assert(h.take(h.len() as int) =~= h);
    }
}

proof fn lemma_hidden_of_visible(secs: Seq<(Seq<char>, Seq<Seq<char>>)>)
    ensures
        forall|i: int, j: int|
            0 <= i < hidden_of(secs).len() && 0 <= j < hidden_of(secs)[i].1.len() ==> !always_visible(
                #[trigger] hidden_of(secs)[i].1[j],
            ),
    decreases secs.len(),
{
    if secs.len() > 0 {
        let p = hidden_of(secs.drop_last());
        lemma_hidden_of_visible(secs.drop_last());
        let ids = hideable(secs.last().1);
        lemma_hideable_visible(secs.last().1);
        if ids.len() > 0 {
            let key = secs.last().0;
            let k = key_index(p, key);
            lemma_key_index(p, key);
            let r = hidden_of(secs);
            assert forall|i: int, j: int| 0 <= i < r.len() && 0 <= j < r[i].1.len() implies !always_visible(
                #[trigger] r[i].1[j],
            ) by {
                if k >= 0 && i == k {
                    if j < p[k].1.len() {
                        assert(r[i].1[j] == p[k].1[j]);
                    } else {
                        assert(r[i].1[j] == ids[j - p[k].1.len()]);
                    }
                } else if i < p.len() {
                    assert(r[i] == p[i]);
                } else {
                    assert(r[i].1 == ids);
                }
            }
        }
    }
}

/// Folding groups never names a surface twice nor leaves one empty.
proof fn lemma_hidden_of_inv(secs: Seq<(Seq<char>, Seq<Seq<char>>)>)
    ensures
        hidden_inv(hidden_of(secs)),
    decreases secs.len(),
{
    lemma_hidden_of_visible(secs);
    if secs.len() > 0 {
        let p = hidden_of(secs.drop_last());
        lemma_hidden_of_inv(secs.drop_last());
        let ids = hideable(secs.last().1);
        if ids.len() > 0 {
            let key = secs.last().0;
            let k = key_index(p, key);
            lemma_key_index(p, key);
            let r = hidden_of(secs);
            assert forall|i: int, j: int| 0 <= i < j < r.len() implies (#[trigger] r[i]).0 != (#[trigger] r[j]).0 by {
                if k >= 0 {
                    assert(r[i].0 == p[i].0 && r[j].0 == p[j].0);
                } else if j < p.len() {
                    assert(r[i] == p[i] && r[j] == p[j]);
                } else {
                    assert(r[i] == p[i]);
                }
            }
            assert forall|i: int| 0 <= i < r.len() implies (#[trigger] r[i]).1.len() > 0 by {
                if k >= 0 && i == k {
                    assert(r[i].1 == p[k].1 + ids);
                } else if i < p.len() {
                    assert(r[i] == p[i]);
                }
            }
        }
    }
}

/// Whatever a persisted spec says, the entries no preference may hide come
/// out of it visible.
pub proof fn lemma_parse_keeps_floor(s: Seq<char>, key: Seq<char>, id: Seq<char>)
    requires
        always_visible(id),
    ensures
        !hidden_ids(parse_spec(s), key).contains(id),
{
    let h = parse_spec(s);
    lemma_hidden_of_visible(sections_spec(s));
    lemma_key_index(h, key);
    let k = key_index(h, key);
    if k >= 0 && h[k].1.contains(id) {
        let j = choose|j: int| 0 <= j < h[k].1.len() && h[k].1[j] == id;
        assert(!always_visible(h[k].1[j]));
    }
}

/// Parse the persisted form. Anything unparseable is dropped rather than
/// failing the load: a broken preference costs the customization, never the
/// menu.
pub fn parse(spec: &str) -> (r: Hidden)
    ensures
        r@ == parse_spec(spec@),
        hidden_inv(r@),
{
    proof {
        lemma_hidden_of_inv(sections_spec(spec@));
    }
    let secs = parse_sections(spec);
    let ghost sv = sections_view(secs@);
    let mut out: Vec<(String, Vec<String>)> = Vec::new();
    let mut i: usize = 0;
    while i < secs.len()
        invariant
            i <= secs.len(),
            sv == sections_view(secs@),
            sv == sections_spec(spec@),
            sections_view(out@) == hidden_of(sv.take(i as int)),
        decreases secs.len() - i,
    {
        assert(sv.take(i + 1).drop_last() =~= sv.take(i as int));
        let ghost sec = sv[i as int];
        assert(sv.take(i + 1).last() == sec);
        let tokens = &secs[i].1;
        let mut ids: Vec<String> = Vec::new();
        let mut j: usize = 0;
        while j < tokens.len()
            invariant
                j <= tokens.len(),
                sec.1 == strs_view(tokens@),
                strs_view(ids@) == hideable(sec.1.take(j as int)),
            decreases tokens.len() - j,
        {
            assert(sec.1[j as int] == tokens@[j as int]@);
            assert(sec.1.take(j + 1).drop_last() =~= sec.1.take(j as int));
            let ghost before = strs_view(ids@);
            if !is_always_visible(tokens[j].as_str()) {
                ids.push(tokens[j].clone());
                assert(strs_view(ids@) =~= before.push(sec.1[j as int]));
            }
            j = j + 1;
        }
        assert(sec.1.take(tokens.len() as int) =~= sec.1);
        if ids.len() > 0 {
            let key = secs[i].0.clone();
            let ghost ov = sections_view(out@);
            let ghost iv = strs_view(ids@);
            match find_section(&out, &key) {
                Some(k) => {
                    proof {
                        lemma_key_index(ov, key@);
                    }
                    let ghost old_out = out@;
                    let (kk, mut existing) = out.remove(k);
                    assert(kk@ == key@);
                    let ghost old_existing = existing@;
                    existing.append(&mut ids);
                    assert(strs_view(existing@) =~= strs_view(old_existing) + iv);
                    out.insert(k, (kk, existing));
                    assert(out@ =~= old_out.update(k as int, (kk, existing)));
                    assert(sections_view(out@) =~= ov.update(k as int, (key@, ov[k as int].1 + iv)));
                },
                None => {
                    out.push((key, ids));
                    assert(sections_view(out@) =~= ov.push((key@, iv)));
                },
            }
        }
        i = i + 1;
    }
    assert(sv.take(secs.len() as int) =~= sv);
    Hidden { surfaces: out }
}

/// Index of the first group under `key`.
fn find_section(out: &Vec<(String, Vec<String>)>, key: &String) -> (r: Option<usize>)
    ensures
        r matches Some(i) ==> i as int == key_index(sections_view(out@), key@),
        r is None ==> key_index(sections_view(out@), key@) == -1,
{
    let ghost ov = sections_view(out@);
    let mut i: usize = 0;
    while i < out.len()
        invariant
            i <= out.len(),
            ov == sections_view(out@),
            forall|k: int| 0 <= k < i ==> ov[k].0 != key@,
        decreases out.len() - i,
    {
        if out[i].0.eq(key) {
            proof {
                lemma_key_index_is(ov, key@, i as int);
            }
            return Some(i);
        }
        i = i + 1;
    }
    proof {
        lemma_key_index(ov, key@);
    }
    None
}

/// Render the hidden entries in the persisted form; `None` when nothing is
/// hidden, so the key disappears from the state file.
pub fn serialize(hidden: &Hidden) -> (r: Option<String>)
    ensures
        match serialize_spec(hidden@) {
            None => r is None,
            Some(x) => r matches Some(y) && y@ == x,
        },
{
    let ghost hv = hidden@;
    let surfaces = &hidden.surfaces;
    let mut rendered: Vec<String> = Vec::new();
    let mut i: usize = 0;
    while i < surfaces.len()
        invariant
            i <= surfaces.len(),
            hv == sections_view(surfaces@),
            strs_view(rendered@) == Seq::new(i as nat, |k: int| group_text(hv[k].0, hv[k].1)),
        decreases surfaces.len() - i,
    {
        assert(hv[i as int].1 == strs_view(surfaces@[i as int].1@));
        assert(hv[i as int].0 == surfaces@[i as int].0@);
        let mut group = surfaces[i].0.clone();
        push_char(&mut group, ':');
        let joined = join_strings(&surfaces[i].1, ',');
        group.append(joined.as_str());
        assert(group@ =~= group_text(hv[i as int].0, hv[i as int].1));
        let ghost rb = strs_view(rendered@);
        let ghost g = group@;
        rendered.push(group);
        assert(strs_view(rendered@) =~= rb.push(g));
        assert(strs_view(rendered@) =~= Seq::new((i + 1) as nat, |k: int| group_text(hv[k].0, hv[k].1)));
        i = i + 1;
    }
    if rendered.len() == 0 {
        None
    } else {
        Some(join_strings(&rendered, ';'))
    }
}

/// No two surfaces share a key.
pub proof fn lemma_surface_keys_distinct(a: MenuSurface, b: MenuSurface)
    requires
        a != b,
    ensures
        surface_key(a) != surface_key(b),
{
    reveal_strlit("file.row");
    reveal_strlit("file.background");
    reveal_strlit("trash.row");
    reveal_strlit("trash.background");
    assert(surface_key(a).len() != surface_key(b).len());
}

proof fn lemma_key_index_same_keys(h: Seq<(Seq<char>, Seq<Seq<char>>)>, g: Seq<(Seq<char>, Seq<Seq<char>>)>, o: Seq<char>)
    requires
        h.len() == g.len(),
        forall|i: int| 0 <= i < h.len() ==> (#[trigger] h[i]).0 == g[i].0,
    ensures
        key_index(h, o) == key_index(g, o),
{
    lemma_key_index(h, o);
    lemma_key_index(g, o);
    let a = key_index(h, o);
    if a >= 0 {
        assert(g[a].0 == o);
        assert forall|k: int| 0 <= k < a implies g[k].0 != o by {
            assert(h[k].0 != o);
        }
        lemma_key_index_is(g, o, a);
    } else {
        assert forall|k: int| 0 <= k < g.len() implies g[k].0 != o by {
            assert(h[k].0 != o);
        }
    }
}

/// Hiding or showing an entry on one surface leaves the hidden entries of
/// every other surface as they were.
pub proof fn lemma_set_one_surface(
    h: Seq<(Seq<char>, Seq<Seq<char>>)>,
    s: MenuSurface,
    other: MenuSurface,
    id: Seq<char>,
    hidden: bool,
)
    requires
        s != other,
    ensures
        hidden_ids(set_spec(h, surface_key(s), id, hidden), surface_key(other)) == hidden_ids(
            h,
            surface_key(other),
        ),
{
    let key = surface_key(s);
    let o = surface_key(other);
    lemma_surface_keys_distinct(s, other);
    let r = set_spec(h, key, id, hidden);
    let k = key_index(h, key);
    lemma_key_index(h, key);
    lemma_key_index(h, o);
    let j = key_index(h, o);
    if r.len() == h.len() {
        if r != h {
            assert(k >= 0);
            lemma_key_index_same_keys(h, r, o);
            if j >= 0 {
                assert(j != k);
                assert(r[j] == h[j]);
            }
        }
    } else if r.len() == h.len() + 1 {
        assert(r == h.push((key, seq![id])));
        if j >= 0 {
            assert(r[j] == h[j]);
            assert forall|q: int| 0 <= q < j implies r[q].0 != o by {
                assert(r[q] == h[q]);
            }
            lemma_key_index_is(r, o, j);
        } else {
            lemma_key_index(r, o);
            assert forall|q: int| 0 <= q < r.len() implies r[q].0 != o by {
                if q < h.len() {
                    assert(r[q] == h[q]);
                }
            }
        }
    } else {
        assert(r == h.remove(k));
        if j >= 0 {
            assert(j != k);
            if j < k {
                assert(r[j] == h[j]);
                assert forall|q: int| 0 <= q < j implies r[q].0 != o by {
                    assert(r[q] == h[q]);
                }
                lemma_key_index_is(r, o, j);
            } else {
                assert(r[j - 1] == h[j]);
                assert forall|q: int| 0 <= q < j - 1 implies r[q].0 != o by {
                    if q < k {
                        assert(r[q] == h[q]);
                    } else {
                        assert(r[q] == h[q + 1]);
                    }
                }
                lemma_key_index_is(r, o, j - 1);
            }
        } else {
            lemma_key_index(r, o);
            assert forall|q: int| 0 <= q < r.len() implies r[q].0 != o by {
                if q < k {
                    assert(r[q] == h[q]);
                } else {
                    assert(r[q] == h[q + 1]);
                }
            }
        }
    }
}

proof fn lemma_without_from(ts: Seq<Seq<char>>, id: Seq<char>)
    ensures
        forall|j: int|
            0 <= j < without(ts, id).len() ==> exists|q: int| 0 <= q < ts.len() && ts[q] == #[trigger] without(ts, id)[j],
    decreases ts.len(),
{
    reveal(Seq::filter);
    if ts.len() > 0 {
        let dl = ts.drop_last();
        lemma_without_from(dl, id);
        assert(without(ts, id) == if ts.last() != id {
            without(dl, id).push(ts.last())
        } else {
            without(dl, id)
        });
        assert forall|j: int| 0 <= j < without(ts, id).len() implies exists|q: int|
            0 <= q < ts.len() && ts[q] == #[trigger] without(ts, id)[j] by {
            if j < without(dl, id).len() {
                assert(without(ts, id)[j] == without(dl, id)[j]);
                let q = choose|q: int| 0 <= q < dl.len() && dl[q] == without(dl, id)[j];
                assert(ts[q] == dl[q]);
            } else {
                assert(ts[ts.len() - 1] == without(ts, id)[j]);
            }
        }
    }
}

/// No entry that a preference may not hide is ever hidden: a table free of
/// them stays free of them, whatever is hidden or shown.
pub proof fn lemma_set_keeps_floor(
    h: Seq<(Seq<char>, Seq<Seq<char>>)>,
    key: Seq<char>,
    id: Seq<char>,
    hidden: bool,
)
    requires
        forall|i: int, j: int| 0 <= i < h.len() && 0 <= j < h[i].1.len() ==> !always_visible(#[trigger] h[i].1[j]),
    ensures
        forall|i: int, j: int|
            0 <= i < set_spec(h, key, id, hidden).len() && 0 <= j < set_spec(h, key, id, hidden)[i].1.len()
                ==> !always_visible(#[trigger] set_spec(h, key, id, hidden)[i].1[j]),
{
    let r = set_spec(h, key, id, hidden);
    let k = key_index(h, key);
    lemma_key_index(h, key);
    assert forall|i: int, j: int| 0 <= i < r.len() && 0 <= j < r[i].1.len() implies !always_visible(
        #[trigger] r[i].1[j],
    ) by {
        if hidden && always_visible(id) {
        } else if k >= 0 && hidden {
            if i == k && !h[k].1.contains(id) {
                if j < h[k].1.len() {
                    assert(r[i].1[j] == h[k].1[j]);
                }
            } else {
                assert(r[i] == h[i]);
            }
        } else if k >= 0 {
            let rest = without(h[k].1, id);
            if rest.len() == 0 {
                if i < k {
                    assert(r[i] == h[i]);
                } else {
                    assert(r[i] == h[i + 1]);
                }
            } else if i == k {
                assert(r[i].1 == rest);
                lemma_without_from(h[k].1, id);
                let q = choose|q: int| 0 <= q < h[k].1.len() && h[k].1[q] == rest[j];
                assert(!always_visible(h[k].1[q]));
            } else {
                assert(r[i] == h[i]);
            }
        } else if hidden {
            if i < h.len() {
                assert(r[i] == h[i]);
            }
        }
    }
}

/// The hidden-entry table's invariant: surfaces named once, none with an
/// empty list, and no entry a preference may not hide. (An id may be listed
/// twice in one surface: a hand-edited spec can say so, and reading it
/// keeps both.)
pub open spec fn hidden_inv(h: Seq<(Seq<char>, Seq<Seq<char>>)>) -> bool {
    &&& forall|i: int, j: int| 0 <= i < j < h.len() ==> (#[trigger] h[i]).0 != (#[trigger] h[j]).0
    &&& forall|i: int| 0 <= i < h.len() ==> (#[trigger] h[i]).1.len() > 0
    &&& forall|i: int, j: int| 0 <= i < h.len() && 0 <= j < h[i].1.len() ==> !always_visible(#[trigger] h[i].1[j])
}

proof fn lemma_without_facts(ts: Seq<Seq<char>>, id: Seq<char>)
    ensures
        forall|x: Seq<char>| #[trigger] without(ts, id).contains(x) <==> (ts.contains(x) && x != id),
    decreases ts.len(),
{
    reveal(Seq::filter);
    if ts.len() > 0 {
        let dl = ts.drop_last();
        let l = ts.last();
        lemma_without_facts(dl, id);
        assert(ts =~= dl.push(l));
        let w = without(ts, id);
        let wd = without(dl, id);
        assert(w == if l != id { wd.push(l) } else { wd });
        assert forall|x: Seq<char>| #[trigger] w.contains(x) <==> (ts.contains(x) && x != id) by {
            if w.contains(x) {
                let j = choose|j: int| 0 <= j < w.len() && w[j] == x;
                if j < wd.len() {
                    assert(wd[j] == x);
                    assert(wd.contains(x));
                    let q = choose|q: int| 0 <= q < dl.len() && dl[q] == x;
                    assert(ts[q] == x);
                } else {
                    assert(ts[ts.len() - 1] == x);
                }
            }
            if ts.contains(x) && x != id {
                let q = choose|q: int| 0 <= q < ts.len() && ts[q] == x;
                if q < dl.len() {
                    assert(dl[q] == x);
                    assert(wd.contains(x));
                    let j = choose|j: int| 0 <= j < wd.len() && wd[j] == x;
                    if l != id {
                        assert(w[j] == x);
                    }
                } else {
                    assert(w[w.len() - 1] == x);
                }
            }
        }
    }
}

/// Hiding or showing keeps the table's invariant, and reads back: on that
/// surface `id` is now hidden exactly when asked (an entry no preference
/// may hide stays shown), and every other id is as it was.
pub proof fn lemma_set_reads_back(
    h: Seq<(Seq<char>, Seq<Seq<char>>)>,
    key: Seq<char>,
    id: Seq<char>,
    hidden: bool,
    other: Seq<char>,
)
    requires
        hidden_inv(h),
    ensures
        hidden_inv(set_spec(h, key, id, hidden)),
        hidden_ids(set_spec(h, key, id, hidden), key).contains(id) == (hidden && !always_visible(id)),
        other != id ==> hidden_ids(set_spec(h, key, id, hidden), key).contains(other) == hidden_ids(
            h,
            key,
        ).contains(other),
{
    let r = set_spec(h, key, id, hidden);
    let k = key_index(h, key);
    lemma_key_index(h, key);
    lemma_set_keeps_floor(h, key, id, hidden);
    if hidden && always_visible(id) {
        if k >= 0 {
            if h[k].1.contains(id) {
                let j = choose|j: int| 0 <= j < h[k].1.len() && h[k].1[j] == id;
                assert(!always_visible(h[k].1[j]));
            }
        }
    } else if k >= 0 && hidden {
        if h[k].1.contains(id) {
        } else {
            let l = h[k].1.push(id);
            assert(r == h.update(k, (key, l)));
            lemma_key_index(r, key);
            assert(r[k].0 == key);
            assert forall|q: int| 0 <= q < k implies r[q].0 != key by {
                assert(r[q] == h[q]);
            }
            lemma_key_index_is(r, key, k);
            assert(l[l.len() - 1] == id);
            assert forall|x: Seq<char>| x != id implies l.contains(x) == h[k].1.contains(x) by {
                if l.contains(x) {
                    let j = choose|j: int| 0 <= j < l.len() && l[j] == x;
                    assert(h[k].1[j] == x);
                }
                if h[k].1.contains(x) {
                    let j = choose|j: int| 0 <= j < h[k].1.len() && h[k].1[j] == x;
                    assert(l[j] == x);
                }
            }
            assert forall|i: int, j: int| 0 <= i < j < r.len() implies (#[trigger] r[i]).0 != (#[trigger] r[j]).0 by {
                assert(r[i].0 == h[i].0 && r[j].0 == h[j].0);
            }
            assert forall|i: int| 0 <= i < r.len() implies (#[trigger] r[i]).1.len() > 0 by {
                if i != k {
                    assert(r[i] == h[i]);
                }
            }
        }
    } else if k >= 0 {
        let rest = without(h[k].1, id);
        lemma_without_facts(h[k].1, id);
        if rest.len() == 0 {
            assert(r == h.remove(k));
            assert forall|q: int| 0 <= q < r.len() implies r[q].0 != key by {
                if q < k {
                    assert(r[q] == h[q]);
                } else {
                    assert(r[q] == h[q + 1]);
                    assert(h[k].0 != h[q + 1].0);
                }
            }
            lemma_key_index(r, key);
            assert forall|x: Seq<char>| x != id implies !h[k].1.contains(x) by {
                if h[k].1.contains(x) {
                    assert(rest.contains(x));
                    let j = choose|j: int| 0 <= j < rest.len() && rest[j] == x;
                }
            }
            assert forall|i: int, j: int| 0 <= i < j < r.len() implies (#[trigger] r[i]).0 != (#[trigger] r[j]).0 by {
                let i0 = if i < k { i } else { i + 1 };
                let j0 = if j < k { j } else { j + 1 };
                assert(r[i] == h[i0] && r[j] == h[j0]);
            }
            assert forall|i: int| 0 <= i < r.len() implies (#[trigger] r[i]).1.len() > 0 by {
                let i0 = if i < k { i } else { i + 1 };
                assert(r[i] == h[i0]);
            }
        } else {
            assert(r == h.update(k, (key, rest)));
            assert forall|q: int| 0 <= q < k implies r[q].0 != key by {
                assert(r[q] == h[q]);
            }
            lemma_key_index_is(r, key, k);
            assert forall|i: int, j: int| 0 <= i < j < r.len() implies (#[trigger] r[i]).0 != (#[trigger] r[j]).0 by {
                assert(r[i].0 == h[i].0 && r[j].0 == h[j].0);
            }
            assert forall|i: int| 0 <= i < r.len() implies (#[trigger] r[i]).1.len() > 0 by {
                if i != k {
                    assert(r[i] == h[i]);
                }
            }
        }
    } else if hidden {
        assert(r == h.push((key, seq![id])));
        lemma_key_index(r, key);
        assert forall|q: int| 0 <= q < h.len() implies r[q].0 != key by {
            assert(r[q] == h[q]);
        }
        lemma_key_index_is(r, key, h.len() as int);
        assert(seq![id][0] == id);
        assert forall|x: Seq<char>| x != id implies !seq![id].contains(x) by {}
        assert forall|i: int, j: int| 0 <= i < j < r.len() implies (#[trigger] r[i]).0 != (#[trigger] r[j]).0 by {
            if j < h.len() {
                assert(r[i] == h[i] && r[j] == h[j]);
            } else {
                assert(r[i] == h[i]);
            }
        }
        assert forall|i: int| 0 <= i < r.len() implies (#[trigger] r[i]).1.len() > 0 by {
            if i < h.len() {
                assert(r[i] == h[i]);
            }
        }
    }
}

/// The groups under any key but `key`, in order.
pub open spec fn drop_surface<A>(l: Seq<(Seq<char>, A)>, key: Seq<char>) -> Seq<(Seq<char>, A)>
    decreases l.len(),
{
    if l.len() == 0 {
        Seq::empty()
    } else {
        let p = drop_surface(l.drop_last(), key);
        if l.last().0 != key {
            p.push(l.last())
        } else {
            p
        }
    }
}

proof fn lemma_drop_surface_push<A>(l: Seq<(Seq<char>, A)>, x: (Seq<char>, A), key: Seq<char>)
    ensures
        drop_surface(l.push(x), key) == if x.0 != key {
            drop_surface(l, key).push(x)
        } else {
            drop_surface(l, key)
        },
{
    assert(l.push(x).drop_last() =~= l);
}

proof fn lemma_drop_surface_from<A>(l: Seq<(Seq<char>, A)>, key: Seq<char>)
    ensures
        forall|i: int|
            0 <= i < drop_surface(l, key).len() ==> exists|j: int| 0 <= j < l.len() && l[j] == #[trigger] drop_surface(l, key)[i],
    decreases l.len(),
{
    if l.len() > 0 {
        let dl = l.drop_last();
        lemma_drop_surface_from(dl, key);
        let p = drop_surface(dl, key);
        assert forall|i: int| 0 <= i < drop_surface(l, key).len() implies exists|j: int|
            0 <= j < l.len() && l[j] == #[trigger] drop_surface(l, key)[i] by {
            if i < p.len() {
                assert(drop_surface(l, key)[i] == p[i]);
                let j = choose|j: int| 0 <= j < dl.len() && dl[j] == p[i];
                assert(l[j] == dl[j]);
            } else {
                assert(l[l.len() - 1] == drop_surface(l, key)[i]);
            }
        }
    }
}

/// Showing a whole surface again keeps the table's invariant.
pub proof fn lemma_clear_keeps_inv(h: Seq<(Seq<char>, Seq<Seq<char>>)>, key: Seq<char>)
    requires
        hidden_inv(h),
    ensures
        hidden_inv(drop_surface(h, key)),
    decreases h.len(),
{
    if h.len() > 0 {
        let dl = h.drop_last();
        assert(hidden_inv(dl)) by {
            assert forall|i: int, j: int| 0 <= i < j < dl.len() implies (#[trigger] dl[i]).0 != (#[trigger] dl[j]).0 by {
                assert(dl[i] == h[i] && dl[j] == h[j]);
            }
            assert forall|i: int| 0 <= i < dl.len() implies (#[trigger] dl[i]).1.len() > 0 by {
                assert(dl[i] == h[i]);
            }
            assert forall|i: int, j: int| 0 <= i < dl.len() && 0 <= j < dl[i].1.len() implies !always_visible(
                #[trigger] dl[i].1[j],
            ) by {
                assert(dl[i] == h[i]);
            }
        }
        lemma_clear_keeps_inv(dl, key);
        lemma_drop_surface_from(dl, key);
        let p = drop_surface(dl, key);
        let r = drop_surface(h, key);
        if h.last().0 != key {
            assert(r == p.push(h.last()));
            assert forall|i: int, j: int| 0 <= i < j < r.len() implies (#[trigger] r[i]).0 != (#[trigger] r[j]).0 by {
                if j < p.len() {
                    assert(r[i] == p[i] && r[j] == p[j]);
                } else {
                    assert(r[i] == p[i]);
                    let q = choose|q: int| 0 <= q < dl.len() && dl[q] == p[i];
                    assert(h[q] == dl[q]);
                    assert(h[q].0 != h[h.len() - 1].0);
                }
            }
            assert forall|i: int| 0 <= i < r.len() implies (#[trigger] r[i]).1.len() > 0 by {
                if i < p.len() {
                    assert(r[i] == p[i]);
                }
            }
            assert forall|i: int, j: int| 0 <= i < r.len() && 0 <= j < r[i].1.len() implies !always_visible(
                #[trigger] r[i].1[j],
            ) by {
                if i < p.len() {
                    assert(r[i] == p[i]);
                } else {
                    assert(r[i] == h[h.len() - 1]);
                }
            }
        }
    }
}

/// The saved arrangement of one surface; empty when there is none.
pub open spec fn saved_for(l: Seq<(Seq<char>, Seq<SlotV>)>, key: Seq<char>) -> Seq<SlotV> {
    let k = key_index(l, key);
    if k >= 0 {
        l[k].1
    } else {
        Seq::empty()
    }
}

/// Whether some saved arrangement of surface `key` holds a slot.
pub open spec fn arranged(l: Seq<(Seq<char>, Seq<SlotV>)>, key: Seq<char>) -> bool {
    exists|i: int| 0 <= i < l.len() && l[i].0 == key && (#[trigger] l[i]).1.len() > 0
}

/// What [`Customization::set_arrangement`] leaves as the saved arrangements.
pub open spec fn arranged_spec(
    l: Seq<(Seq<char>, Seq<SlotV>)>,
    key: Seq<char>,
    slots: Seq<SlotV>,
) -> Seq<(Seq<char>, Seq<SlotV>)> {
    let t = tidy_spec(slots);
    if t.len() == 0 {
        drop_surface(l, key)
    } else {
        drop_surface(l, key).push((key, t))
    }
}

/// An optional string that is exactly the optional text `s`.
pub open spec fn is_text(r: Option<String>, s: Option<Seq<char>>) -> bool {
    match s {
        None => r is None,
        Some(x) => r matches Some(y) && y@ == x,
    }
}

/// Everything a menu build needs to know about the user's customization:
/// the hidden entries and the saved arrangements, exactly as persisted.
#[derive(Debug)]
pub struct Customization {
    hidden: Hidden,
    layouts: Vec<(String, Vec<Slot>)>,
}

impl View for Customization {
    type V = (Seq<(Seq<char>, Seq<Seq<char>>)>, Seq<(Seq<char>, Seq<SlotV>)>);

    closed spec fn view(&self) -> Self::V {
        (self.hidden@, layouts_view(self.layouts@))
    }
}

/// The saved arrangements without those of surface `key`.
fn drop_layouts(l: &mut Vec<(String, Vec<Slot>)>, key: &str)
    ensures
        layouts_view(final(l)@) == drop_surface(layouts_view(old(l)@), key@),
{
    let ghost h = layouts_view(l@);
    let want = chars_of(key);
    let mut src: Vec<(String, Vec<Slot>)> = Vec::new();
    std::mem::swap(&mut src, l);
    let mut i: usize = 0;
    let n = src.len();
    while 0 < src.len()
        invariant
            i <= n,
            n == h.len(),
            src@.len() == n - i,
            layouts_view(src@) == h.skip(i as int),
            want@ == key@,
            layouts_view(l@) == drop_surface(h.take(i as int), key@),
        decreases src.len(),
    {
        assert(h.take(i + 1).drop_last() =~= h.take(i as int));
        let ghost rest = src@;
        let item = src.remove(0);
        assert(src@ =~= rest.skip(1));
        assert(h.skip(i as int)[0] == h[i as int]);
        assert(layouts_view(rest)[0] == (rest[0].0@, slots_view(rest[0].1@)));
        assert forall|j: int| 0 <= j < src@.len() implies #[trigger] layouts_view(src@)[j] == h.skip(i + 1)[j] by {
            assert(src@[j] == rest[j + 1]);
            assert(layouts_view(rest)[j + 1] == h.skip(i as int)[j + 1]);
        }
        assert(layouts_view(src@) =~= h.skip(i + 1));
        assert(h[i as int] == (item.0@, slots_view(item.1@)));
        let have = chars_of(item.0.as_str());
        let ghost before = layouts_view(l@);
        if !crate::strings::chars_eq(&have, &want) {
            l.push(item);
            assert(layouts_view(l@) =~= before.push(h[i as int]));
        }
        proof {
            lemma_drop_surface_push(h.take(i as int), h[i as int], key@);
            assert(h.take(i + 1) =~= h.take(i as int).push(h[i as int]));
        }
        i = i + 1;
    }
    assert(h.take(n as int) =~= h);
}

impl Customization {
    /// No customization at all: the behaviour of a fresh install.
    pub fn new() -> (r: Customization)
        ensures
            r@.0 == Seq::<(Seq<char>, Seq<Seq<char>>)>::empty(),
            r@.1 == Seq::<(Seq<char>, Seq<SlotV>)>::empty(),
            hidden_inv(r@.0),
    {
        let r = Customization { hidden: Hidden::new(), layouts: Vec::new() };
        assert(r@.1 =~= Seq::<(Seq<char>, Seq<SlotV>)>::empty());
        r
    }

    /// Adopt the persisted specs.
    pub fn init(hidden_spec: Option<&str>, layout_spec: Option<&str>) -> (r: Customization)
        ensures
            r@.0 == match hidden_spec {
                Some(s) => parse_spec(s@),
                None => Seq::empty(),
            },
            r@.1 == match layout_spec {
                Some(s) => crate::menu_plan::layout::parse_spec(s@),
                None => Seq::empty(),
            },
            hidden_inv(r@.0),
    {
        let hidden = match hidden_spec {
            Some(s) => parse(s),
            None => Hidden::new(),
        };
        let layouts = match layout_spec {
            Some(s) => crate::menu_plan::layout::parse(s),
            None => Vec::new(),
        };
        let r = Customization { hidden, layouts };
        assert(layout_spec is None ==> r@.1 =~= Seq::<(Seq<char>, Seq<SlotV>)>::empty());
        r
    }

    /// The arrangement a menu is drawn in: the saved one merged with this
    /// build's own, so an entry the user never moved keeps its designed place.
    pub fn arrangement(&self, surface: MenuSurface, builtin: &[Item]) -> (r: Vec<Slot>)
        ensures
            slots_view(r@) == merge_spec(items_view(builtin@), saved_for(self@.1, surface_key(surface))),
    {
        let ghost lv = self@.1;
        let key = surface.key();
        let mut i: usize = 0;
        while i < self.layouts.len()
            invariant
                i <= self.layouts.len(),
                lv == layouts_view(self.layouts@),
                key@ == surface_key(surface),
                forall|k: int| 0 <= k < i ==> lv[k].0 != key@,
            decreases self.layouts.len() - i,
        {
            let here = chars_of(self.layouts[i].0.as_str());
            if chars_eq_str(&here, key) {
                proof {
                    lemma_key_index_is(lv, key@, i as int);
                }
                return merge(builtin, self.layouts[i].1.as_slice());
            }
            i = i + 1;
        }
        proof {
            lemma_key_index(lv, key@);
        }
        let none: Vec<Slot> = Vec::new();
        assert(slots_view(none@) =~= Seq::<SlotV>::empty());
        merge(builtin, none.as_slice())
    }

    /// Whether this surface has a saved arrangement that holds something.
    pub fn surface_is_arranged(&self, surface: MenuSurface) -> (r: bool)
        ensures
            r == arranged(self@.1, surface_key(surface)),
    {
        let ghost lv = self@.1;
        let key = surface.key();
        let mut i: usize = 0;
        while i < self.layouts.len()
            invariant
                i <= self.layouts.len(),
                lv == layouts_view(self.layouts@),
                key@ == surface_key(surface),
                forall|k: int| 0 <= k < i ==> !(lv[k].0 == key@ && (#[trigger] lv[k]).1.len() > 0),
            decreases self.layouts.len() - i,
        {
            let here = chars_of(self.layouts[i].0.as_str());
            if chars_eq_str(&here, key) && self.layouts[i].1.len() > 0 {
                assert(lv[i as int].1.len() > 0);
                return true;
            }
            i = i + 1;
        }
        false
    }

    /// Save an arrangement, tidied so that no leading or doubled separator is
    /// kept that the drawn menu would drop. Returns both persisted forms.
    pub fn set_arrangement(&mut self, surface: MenuSurface, slots: Vec<Slot>) -> (r: (
        Option<String>,
        Option<String>,
    ))
        ensures
            final(self)@.0 == old(self)@.0,
            final(self)@.1 == arranged_spec(old(self)@.1, surface_key(surface), slots_view(slots@)),
            is_text(r.0, serialize_spec(final(self)@.0)),
            is_text(r.1, crate::menu_plan::layout::serialize_spec(final(self)@.1)),
    {
        let slots = tidy(slots);
        drop_layouts(&mut self.layouts, surface.key());
        if slots.len() > 0 {
            let ghost before = layouts_view(self.layouts@);
            self.layouts.push((String::from_str(surface.key()), slots));
            assert(layouts_view(self.layouts@) =~= before.push((surface_key(surface), slots_view(slots@))));
        }
        (serialize(&self.hidden), crate::menu_plan::layout::serialize(&self.layouts))
    }

    /// Whether anything at all is hidden: with no customization, menu
    /// rendering skips the check entirely.
    pub fn any_hidden(&self) -> (r: bool)
        ensures
            r == (self@.0.len() > 0),
    {
        !self.hidden.is_empty()
    }

    /// Whether `id` is hidden on `surface`.
    pub fn is_hidden(&self, surface: MenuSurface, id: &str) -> (r: bool)
        ensures
            r == hidden_ids(self@.0, surface_key(surface)).contains(id@),
    {
        self.hidden.contains(surface, id)
    }

    /// Hide or show one entry. Returns both persisted forms.
    pub fn set_hidden(&mut self, surface: MenuSurface, id: &str, hidden: bool) -> (r: (
        Option<String>,
        Option<String>,
    ))
        ensures
            final(self)@.0 == set_spec(old(self)@.0, surface_key(surface), id@, hidden),
            final(self)@.1 == old(self)@.1,
            hidden_inv(old(self)@.0) ==> hidden_inv(final(self)@.0),
            is_text(r.0, serialize_spec(final(self)@.0)),
            is_text(r.1, crate::menu_plan::layout::serialize_spec(final(self)@.1)),
    {
        self.hidden.set(surface, id, hidden);
        (serialize(&self.hidden), crate::menu_plan::layout::serialize(&self.layouts))
    }

    /// Show every entry of one surface again and put it back in its built-in
    /// order. Returns both persisted forms.
    pub fn reset_surface(&mut self, surface: MenuSurface) -> (r: (Option<String>, Option<String>))
        ensures
            final(self)@.0 == drop_surface(old(self)@.0, surface_key(surface)),
            final(self)@.1 == drop_surface(old(self)@.1, surface_key(surface)),
            hidden_inv(old(self)@.0) ==> hidden_inv(final(self)@.0),
            is_text(r.0, serialize_spec(final(self)@.0)),
            is_text(r.1, crate::menu_plan::layout::serialize_spec(final(self)@.1)),
    {
        self.hidden.clear(surface);
        drop_layouts(&mut self.layouts, surface.key());
        (serialize(&self.hidden), crate::menu_plan::layout::serialize(&self.layouts))
    }

    /// Whether this surface differs from the built-in menu at all.
    pub fn surface_is_customized(&self, surface: MenuSurface) -> (r: bool)
        ensures
            r == (hidden_ids(self@.0, surface_key(surface)).len() > 0 || arranged(
                self@.1,
                surface_key(surface),
            )),
    {
        self.hidden.ids(surface).len() > 0 || self.surface_is_arranged(surface)
    }
}

proof fn lemma_key_index_push<A>(l: Seq<(Seq<char>, A)>, x: (Seq<char>, A), o: Seq<char>)
    ensures
        key_index(l.push(x), o) == if key_index(l, o) >= 0 {
            key_index(l, o)
        } else if x.0 == o {
            l.len() as int
        } else {
            -1
        },
{
    assert(l.push(x).drop_last() =~= l);
}

proof fn lemma_drop_surface_gone<A>(l: Seq<(Seq<char>, A)>, key: Seq<char>)
    ensures
        forall|i: int| 0 <= i < drop_surface(l, key).len() ==> (#[trigger] drop_surface(l, key)[i]).0 != key,
        key_index(drop_surface(l, key), key) == -1,
    decreases l.len(),
{
    if l.len() > 0 {
        lemma_drop_surface_gone(l.drop_last(), key);
        let p = drop_surface(l.drop_last(), key);
        assert forall|i: int| 0 <= i < drop_surface(l, key).len() implies (#[trigger] drop_surface(l, key)[i]).0 != key by {
            if i < p.len() {
                assert(drop_surface(l, key)[i] == p[i]);
            }
        }
    }
    lemma_key_index(drop_surface(l, key), key);
}

proof fn lemma_drop_surface_lookup<A>(l: Seq<(Seq<char>, A)>, key: Seq<char>, o: Seq<char>)
    requires
        o != key,
    ensures
        (key_index(drop_surface(l, key), o) >= 0) == (key_index(l, o) >= 0),
        key_index(l, o) >= 0 ==> drop_surface(l, key)[key_index(drop_surface(l, key), o)].1 == l[key_index(
            l,
            o,
        )].1,
    decreases l.len(),
{
    if l.len() > 0 {
        let dl = l.drop_last();
        let x = l.last();
        lemma_drop_surface_lookup(dl, key, o);
        assert(dl.push(x) =~= l);
        lemma_key_index_push(dl, x, o);
        lemma_key_index(dl, o);
        let p = drop_surface(dl, key);
        lemma_key_index(p, o);
        if x.0 != key {
            lemma_key_index_push(p, x, o);
            if key_index(dl, o) >= 0 {
                assert(l[key_index(dl, o)] == dl[key_index(dl, o)]);
                assert(drop_surface(l, key)[key_index(p, o)] == p[key_index(p, o)]);
            }
        } else if key_index(dl, o) >= 0 {
            assert(l[key_index(dl, o)] == dl[key_index(dl, o)]);
        }
    }
}

/// Saving an arrangement is what that surface is drawn from afterwards (tidied,
/// and nothing at all when it tidies to nothing), and every other surface
/// keeps the arrangement it had.
pub proof fn lemma_set_arrangement_read_back(
    l: Seq<(Seq<char>, Seq<SlotV>)>,
    s: MenuSurface,
    other: MenuSurface,
    slots: Seq<SlotV>,
)
    ensures
        saved_for(arranged_spec(l, surface_key(s), slots), surface_key(s)) == tidy_spec(slots),
        other != s ==> saved_for(arranged_spec(l, surface_key(s), slots), surface_key(other)) == saved_for(
            l,
            surface_key(other),
        ),
{
    let key = surface_key(s);
    let t = tidy_spec(slots);
    let d = drop_surface(l, key);
    lemma_drop_surface_gone(l, key);
    lemma_key_index_push(d, (key, t), key);
    if other != s {
        lemma_surface_keys_distinct(s, other);
        let o = surface_key(other);
        lemma_drop_surface_lookup(l, key, o);
        lemma_key_index_push(d, (key, t), o);
        lemma_key_index(d, o);
        if key_index(d, o) >= 0 {
            assert(d.push((key, t))[key_index(d, o)] == d[key_index(d, o)]);
        }
    }
}

/// Resetting a surface shows every one of its entries again and draws it in
/// the built-in arrangement.
pub proof fn lemma_reset_restores(
    h: Seq<(Seq<char>, Seq<Seq<char>>)>,
    l: Seq<(Seq<char>, Seq<SlotV>)>,
    s: MenuSurface,
    builtin: Seq<SlotV>,
)
    ensures
        hidden_ids(drop_surface(h, surface_key(s)), surface_key(s)).len() == 0,
        !arranged(drop_surface(l, surface_key(s)), surface_key(s)),
        merge_spec(builtin, saved_for(drop_surface(l, surface_key(s)), surface_key(s))) == builtin,
{
    let key = surface_key(s);
    lemma_drop_surface_gone(h, key);
    lemma_drop_surface_gone(l, key);
    crate::menu_plan::layout::lemma_merge(builtin, Seq::empty());
}

/// Resetting one surface leaves the hidden entries and the arrangement of
/// every other surface as they were.
pub proof fn lemma_reset_one_surface(
    h: Seq<(Seq<char>, Seq<Seq<char>>)>,
    l: Seq<(Seq<char>, Seq<SlotV>)>,
    s: MenuSurface,
    other: MenuSurface,
)
    requires
        s != other,
    ensures
        hidden_ids(drop_surface(h, surface_key(s)), surface_key(other)) == hidden_ids(h, surface_key(other)),
        saved_for(drop_surface(l, surface_key(s)), surface_key(other)) == saved_for(l, surface_key(other)),
{
    lemma_surface_keys_distinct(s, other);
    lemma_drop_surface_lookup(h, surface_key(s), surface_key(other));
    lemma_drop_surface_lookup(l, surface_key(s), surface_key(other));
}

} // verus!
