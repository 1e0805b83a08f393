//! The persisted `surface:tok,tok;surface:tok` form shared by the saved
//! arrangements and the hidden-entry preferences: groups separated by `;`, a
//! surface key before the first `:`, then `,`-separated tokens. Whitespace
//! around keys and tokens is ignored, as are empty groups and tokens, groups
//! without a `:` and groups whose surface this build does not know.

use vstd::prelude::*;

use crate::menu_plan::{MenuSurface, is_surface_key, lemma_surface_key_chars, surface_key};
use crate::strings::{
    chars_eq_str, chars_of, find_char, first_index, has_char, is_ws, join_seq, lemma_first_index,
    lemma_first_index_at, lemma_join_no_char, lemma_split_join, lemma_trim_id, lemma_trim_nonempty,
    slice_to_vec, split, split_seq, string_of, trim, trim_seq,
};

verus! {

/// The tokens, trimmed, with the empty ones left out.
pub open spec fn clean_tokens(ts: Seq<Seq<char>>) -> Seq<Seq<char>>
    decreases ts.len(),
{
    if ts.len() == 0 {
        Seq::<Seq<char>>::empty()
    } else {
        let p = clean_tokens(ts.drop_last());
        let t = trim_seq(ts.last());
        if t.len() == 0 {
            p
        } else {
            p.push(t)
        }
    }
}

/// The surface key and tokens of one group, if the group is usable.
pub open spec fn section_of(group: Seq<char>) -> Option<(Seq<char>, Seq<Seq<char>>)> {
    let c = first_index(group, ':');
    if trim_seq(group).len() == 0 || c < 0 {
        None
    } else {
        let surface = trim_seq(group.take(c));
        if !is_surface_key(surface) {
            None
        } else {
            Some((surface, clean_tokens(split_seq(group.skip(c + 1), ','))))
        }
    }
}

/// The usable groups among `groups`, in order.
pub open spec fn sections_of(groups: Seq<Seq<char>>) -> Seq<(Seq<char>, Seq<Seq<char>>)>
    decreases groups.len(),
{
    if groups.len() == 0 {
        Seq::empty()
    } else {
        let p = sections_of(groups.drop_last());
        match section_of(groups.last()) {
            Some(x) => p.push(x),
            None => p,
        }
    }
}

/// The usable groups of a persisted spec, in order.
pub open spec fn sections_spec(s: Seq<char>) -> Seq<(Seq<char>, Seq<Seq<char>>)> {
    sections_of(split_seq(s, ';'))
}

/// Index of the first pair whose key is `key`, or -1.
pub open spec fn key_index<A>(out: Seq<(Seq<char>, A)>, key: Seq<char>) -> int
    decreases out.len(),
{
    if out.len() == 0 {
        -1
    } else {
        let p = key_index(out.drop_last(), key);
        if p >= 0 {
            p
        } else if out.last().0 == key {
            out.len() - 1
        } else {
            -1
        }
    }
}

/// Add `items` under `key`: appended to the existing group, or a new one.
pub open spec fn add_group<A>(out: Seq<(Seq<char>, Seq<A>)>, key: Seq<char>, items: Seq<A>) -> Seq<
    (Seq<char>, Seq<A>),
> {
    let k = key_index(out, key);
    if k >= 0 {
        out.update(k, (key, out[k].1 + items))
    } else {
        out.push((key, items))
    }
}

pub proof fn lemma_key_index<A>(out: Seq<(Seq<char>, A)>, key: Seq<char>)
    ensures
        -1 <= key_index(out, key) < out.len(),
        key_index(out, key) >= 0 ==> out[key_index(out, key)].0 == key,
        key_index(out, key) >= 0 ==> forall|k: int| 0 <= k < key_index(out, key) ==> out[k].0 != key,
        key_index(out, key) < 0 <==> forall|k: int| 0 <= k < out.len() ==> out[k].0 != key,
    decreases out.len(),
{
    if out.len() > 0 {
        lemma_key_index(out.drop_last(), key);
        if key_index(out.drop_last(), key) >= 0 {
            assert(out.drop_last()[key_index(out.drop_last(), key)] == out[key_index(out.drop_last(), key)]);
            assert forall|k: int| 0 <= k < key_index(out, key) implies out[k].0 != key by {
                assert(out[k] == out.drop_last()[k]);
            }
        } else {
            assert forall|k: int| 0 <= k < out.len() - 1 implies out[k].0 != key by {
                assert(out[k] == out.drop_last()[k]);
            }
        }
    }
}

pub proof fn lemma_key_index_is<A>(out: Seq<(Seq<char>, A)>, key: Seq<char>, i: int)
    requires
        0 <= i < out.len(),
        out[i].0 == key,
        forall|k: int| 0 <= k < i ==> out[k].0 != key,
    ensures
        key_index(out, key) == i,
{
    lemma_key_index(out, key);
    let p = key_index(out, key);
    if p < i {
        assert(out[p].0 == key);
    }
    if p > i {
        assert(out[i].0 == key);
    }
}

/// A token the persisted form can carry unchanged: non-empty, without
/// surrounding whitespace, and free of the group and token delimiters.
pub open spec fn token_ok(t: Seq<char>) -> bool {
    &&& t.len() > 0
    &&& trim_seq(t) == t
    &&& !has_char(t, ',')
    &&& !has_char(t, ';')
}

/// One rendered group.
pub open spec fn group_text(key: Seq<char>, tokens: Seq<Seq<char>>) -> Seq<char> {
    key + seq![':'] + join_seq(tokens, seq![','])
}

pub proof fn lemma_clean_tokens_id(ts: Seq<Seq<char>>)
    requires
        forall|i: int| 0 <= i < ts.len() ==> token_ok(#[trigger] ts[i]),
    ensures
        clean_tokens(ts) == ts,
    decreases ts.len(),
{
    if ts.len() > 0 {
        let dl = ts.drop_last();
        assert forall|i: int| 0 <= i < dl.len() implies token_ok(#[trigger] dl[i]) by {
            assert(dl[i] == ts[i]);
        }
        lemma_clean_tokens_id(dl);
        assert(token_ok(ts[ts.len() - 1]));
        assert(dl.push(ts.last()) =~= ts);
    }
}

/// A rendered group parses back to its surface key and tokens.
pub proof fn lemma_section_of_group(key: Seq<char>, tokens: Seq<Seq<char>>)
    requires
        is_surface_key(key),
        tokens.len() > 0,
        forall|i: int| 0 <= i < tokens.len() ==> token_ok(#[trigger] tokens[i]),
    ensures
        section_of(group_text(key, tokens)) == Some((key, tokens)),
        !has_char(group_text(key, tokens), ';'),
{
    let m = choose|m: MenuSurface| surface_key(m) == key;
    lemma_surface_key_chars(m);
    let g = group_text(key, tokens);
    let body = join_seq(tokens, seq![',']);
    assert(g[0] == key[0]);
    lemma_trim_nonempty(g);
    assert forall|k: int| 0 <= k < key.len() implies g[k] != ':' by {
        assert(g[k] == key[k]);
    }
    assert(g[key.len() as int] == ':');
    lemma_first_index_at(g, ':', key.len() as int);
    assert(g.take(key.len() as int) =~= key);
    lemma_trim_id(key);
    assert(g.skip(key.len() as int + 1) =~= body);
    assert forall|i: int| 0 <= i < tokens.len() implies !has_char(#[trigger] tokens[i], ',') by {
        assert(token_ok(tokens[i]));
    }
    lemma_split_join(tokens, ',');
    lemma_clean_tokens_id(tokens);
    assert forall|i: int| 0 <= i < tokens.len() implies !has_char(#[trigger] tokens[i], ';') by {
        assert(token_ok(tokens[i]));
    }
    lemma_join_no_char(tokens, ',', ';');
    if has_char(g, ';') {
        let k = choose|k: int| 0 <= k < g.len() && g[k] == ';';
        if k < key.len() {
            assert(key[k] == ';');
        } else if k > key.len() {
            assert(body[k - key.len() - 1] == ';');
        }
    }
}

/// Rendered groups joined with `;` parse back to their keys and tokens.
pub proof fn lemma_sections_of_render(keys: Seq<Seq<char>>, tokens: Seq<Seq<Seq<char>>>)
    requires
        keys.len() == tokens.len(),
        keys.len() > 0,
        forall|i: int| 0 <= i < keys.len() ==> is_surface_key(#[trigger] keys[i]),
        forall|i: int| 0 <= i < tokens.len() ==> (#[trigger] tokens[i]).len() > 0,
        forall|i: int, j: int| 0 <= i < tokens.len() && 0 <= j < tokens[i].len() ==> token_ok(#[trigger] tokens[i][j]),
    ensures
        sections_spec(join_seq(Seq::new(keys.len(), |i: int| group_text(keys[i], tokens[i])), seq![';']))
            == Seq::new(keys.len(), |i: int| (keys[i], tokens[i])),
{
    let groups = Seq::new(keys.len(), |i: int| group_text(keys[i], tokens[i]));
    assert forall|i: int| 0 <= i < groups.len() implies !has_char(#[trigger] groups[i], ';') by {
        assert forall|j: int| 0 <= j < tokens[i].len() implies token_ok(#[trigger] tokens[i][j]) by {}
        lemma_section_of_group(keys[i], tokens[i]);
    }
    lemma_split_join(groups, ';');
    lemma_sections_of_prefix(keys, tokens, keys.len() as int);
    assert(groups.take(keys.len() as int) =~= groups);
}

proof fn lemma_sections_of_prefix(keys: Seq<Seq<char>>, tokens: Seq<Seq<Seq<char>>>, n: int)
    requires
        keys.len() == tokens.len(),
        0 <= n <= keys.len(),
        forall|i: int| 0 <= i < keys.len() ==> is_surface_key(#[trigger] keys[i]),
        forall|i: int| 0 <= i < tokens.len() ==> (#[trigger] tokens[i]).len() > 0,
        forall|i: int, j: int| 0 <= i < tokens.len() && 0 <= j < tokens[i].len() ==> token_ok(#[trigger] tokens[i][j]),
    ensures
        sections_of(Seq::new(keys.len(), |i: int| group_text(keys[i], tokens[i])).take(n))
            == Seq::new(n as nat, |i: int| (keys[i], tokens[i])),
    decreases n,
{
    let groups = Seq::new(keys.len(), |i: int| group_text(keys[i], tokens[i]));
    if n == 0 {
        assert(groups.take(0) =~= Seq::<Seq<char>>::empty());
        assert(Seq::new(0, |i: int| (keys[i], tokens[i])) =~= Seq::<(Seq<char>, Seq<Seq<char>>)>::empty());
    } else {
        lemma_sections_of_prefix(keys, tokens, n - 1);
        assert(groups.take(n).drop_last() =~= groups.take(n - 1));
        assert(groups.take(n).last() == group_text(keys[n - 1], tokens[n - 1]));
        assert forall|j: int| 0 <= j < tokens[n - 1].len() implies token_ok(#[trigger] tokens[n - 1][j]) by {}
        lemma_section_of_group(keys[n - 1], tokens[n - 1]);
        assert(Seq::new(n as nat, |i: int| (keys[i], tokens[i])) =~= Seq::new((n - 1) as nat, |i: int| (keys[i], tokens[i])).push((keys[n - 1], tokens[n - 1])));
    }
}

/// The views of parsed sections.
pub open spec fn sections_view(v: Seq<(String, Vec<String>)>) -> Seq<(Seq<char>, Seq<Seq<char>>)> {
    v.map_values(|p: (String, Vec<String>)| (p.0@, p.1@.map_values(|s: String| s@)))
}

/// Whether `s` is the key of one of the menu surfaces.
pub fn is_known_surface(s: &[char]) -> (r: bool)
    ensures
        r == is_surface_key(s@),
{
    let all = MenuSurface::all();
    let mut i: usize = 0;
    while i < 4
        invariant
            i <= 4,
            all@ == seq![
                MenuSurface::FileRow,
                MenuSurface::FileBackground,
                MenuSurface::TrashRow,
                MenuSurface::TrashBackground,
            ],
            forall|k: int| 0 <= k < i ==> surface_key(#[trigger] all@[k]) != s@,
        decreases 4 - i,
    {
        if chars_eq_str(s, all[i].key()) {
            return true;
        }
        i = i + 1;
    }
    assert forall|m: MenuSurface| surface_key(m) != s@ by {
        match m {
            MenuSurface::FileRow => assert(all@[0] == m),
            MenuSurface::FileBackground => assert(all@[1] == m),
            MenuSurface::TrashRow => assert(all@[2] == m),
            MenuSurface::TrashBackground => assert(all@[3] == m),
        }
    }
    false
}

/// The tokens, trimmed, empty ones left out.
fn clean(ts: &Vec<Vec<char>>) -> (r: Vec<String>)
    ensures
        r@.map_values(|s: String| s@) == clean_tokens(ts@.map_values(|t: Vec<char>| t@)),
{
    let ghost tv = ts@.map_values(|t: Vec<char>| t@);
    let mut r: Vec<String> = Vec::new();
    let mut i: usize = 0;
    while i < ts.len()
        invariant
            i <= ts.len(),
            tv == ts@.map_values(|t: Vec<char>| t@),
            r@.map_values(|s: String| s@) == clean_tokens(tv.take(i as int)),
        decreases ts.len() - i,
    {
        assert(tv.take(i + 1).drop_last() =~= tv.take(i as int));
        assert(tv.take(i + 1).last() == ts@[i as int]@);
        let t = trim(&ts[i]);
        if t.len() > 0 {
            let ghost before = r@;
            r.push(string_of(&t));
            assert(r@.map_values(|s: String| s@) =~= before.map_values(|s: String| s@).push(t@));
        }
        i = i + 1;
    }
    assert(tv.take(ts.len() as int) =~= tv);
    r
}

/// The surface key and tokens of one group, if usable.
fn section(group: &[char]) -> (r: Option<(String, Vec<String>)>)
    ensures
        match section_of(group@) {
            None => r is None,
            Some(x) => r matches Some(y) && y.0@ == x.0 && y.1@.map_values(|s: String| s@) == x.1,
        },
{
    let whole = trim(group);
    if whole.len() == 0 {
        return None;
    }
    let c = match find_char(group, ':') {
        None => {
            return None;
        },
        Some(c) => c,
    };
    proof {
        lemma_first_index(group@, ':');
    }
    let head = slice_to_vec(group, 0, c);
    assert(head@ =~= group@.take(c as int));
    let surface = trim(&head);
    if !is_known_surface(&surface) {
        return None;
    }
    let n = group.len();
    assert(c < n);
    let rest = slice_to_vec(group, c + 1, n);
    assert(rest@ =~= group@.skip(c + 1));
    let pieces = split(&rest, ',');
    assert(pieces@.map_values(|t: Vec<char>| t@) =~= split_seq(rest@, ','));
    let tokens = clean(&pieces);
    Some((string_of(&surface), tokens))
}

/// The usable groups of a persisted spec, in order.
pub fn parse_sections(spec: &str) -> (r: Vec<(String, Vec<String>)>)
    ensures
        sections_view(r@) == sections_spec(spec@),
{
    let chars = chars_of(spec);
    let groups = split(&chars, ';');
    let ghost gv = split_seq(spec@, ';');
    let mut r: Vec<(String, Vec<String>)> = Vec::new();
    let mut i: usize = 0;
    while i < groups.len()
        invariant
            i <= groups.len(),
            chars@ == spec@,
            groups@.len() == gv.len(),
            gv == split_seq(spec@, ';'),
            forall|k: int| 0 <= k < groups@.len() ==> (#[trigger] groups@[k])@ == gv[k],
            sections_view(r@) == sections_of(gv.take(i as int)),
        decreases groups.len() - i,
    {
        assert(gv.take(i + 1).drop_last() =~= gv.take(i as int));
        assert(gv.take(i + 1).last() == groups@[i as int]@);
        match section(&groups[i]) {
            Some(x) => {
                let ghost before = r@;
                r.push(x);
                assert(sections_view(r@) =~= sections_view(before).push(
                    (r@.last().0@, r@.last().1@.map_values(|s: String| s@)),
                ));
            },
            None => {},
        }
        i = i + 1;
    }
    assert(gv.take(groups.len() as int) =~= gv);
    r
}

} // verus!
