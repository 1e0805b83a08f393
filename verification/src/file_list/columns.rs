//! The file table's column layout and its persisted `key:width:vis,…` form.
//!
//! Unknown keys are ignored, default columns the spec never mentions trail
//! as visible, the `name` column can never be hidden, and the visible set is
//! never left empty: forward- and backward-compatible by construction. A
//! width is carried as the persisted token; turning it into pixels, and
//! clamping it, is the renderer's business.

use vstd::prelude::*;

use crate::strings::{
    chars_eq_str, chars_of, find_char, first_index, has_char, join_seq, join_strings,
    is_ws, lemma_first_index, push_char, slice_to_vec, split, split_seq, string_of, strs_view, trim,
    trim_seq,
};

verus! {

/// One column of the table: its key and, when the persisted spec gave
/// one, its width token.
#[derive(Debug)]
pub struct ColumnSlot {
    pub key: String,
    pub width: Option<String>,
}

/// What a column slot is, as a mathematical value.
pub struct ColumnV {
    pub key: Seq<char>,
    pub width: Option<Seq<char>>,
}

impl View for ColumnSlot {
    type V = ColumnV;

    open spec fn view(&self) -> ColumnV {
        ColumnV {
            key: self.key@,
            width: match self.width {
                Some(w) => Some(w@),
                None => None,
            },
        }
    }
}

/// The views of a list of columns.
pub open spec fn cols_view(v: Seq<ColumnSlot>) -> Seq<ColumnV> {
    v.map_values(|c: ColumnSlot| c@)
}

/// The keys of a list of columns.
pub open spec fn keys_of(v: Seq<ColumnV>) -> Seq<Seq<char>> {
    v.map_values(|c: ColumnV| c.key)
}

/// The built-in columns, in default order, with their default widths.
pub open spec fn default_keys() -> Seq<Seq<char>> {
    seq!["name"@, "size"@, "format"@, "modified"@, "description"@]
}

/// The built-in columns, in default order.
pub open spec fn default_cols() -> Seq<ColumnV> {
    default_keys().map_values(|k: Seq<char>| ColumnV { key: k, width: None })
}

/// The built-in columns, in default order.
pub fn default_columns() -> (r: Vec<ColumnSlot>)
    ensures
        cols_view(r@) == default_cols(),
{
    let r = vec![
        ColumnSlot { key: String::from_str("name"), width: None },
        ColumnSlot { key: String::from_str("size"), width: None },
        ColumnSlot { key: String::from_str("format"), width: None },
        ColumnSlot { key: String::from_str("modified"), width: None },
        ColumnSlot { key: String::from_str("description"), width: None },
    ];
    assert(cols_view(r@) =~= default_cols());
    r
}

/// The extra column of a flat listing: each row's relative directory.
pub fn flat_path_column() -> (r: ColumnSlot)
    ensures
        r@ == (ColumnV { key: "path"@, width: None }),
{
    ColumnSlot { key: String::from_str("path"), width: None }
}

/// The header label of a column key; empty for an unknown key.
pub fn column_title(key: &str) -> (r: &'static str)
    ensures
        r@ == if key@ == "name"@ {
            "Name"@
        } else if key@ == "size"@ {
            "Size"@
        } else if key@ == "format"@ {
            "Format"@
        } else if key@ == "modified"@ {
            "Modified"@
        } else if key@ == "description"@ {
            "Description"@
        } else if key@ == "path"@ {
            "Path"@
        } else {
            ""@
        },
{
    let k = chars_of(key);
    if chars_eq_str(&k, "name") {
        "Name"
    } else if chars_eq_str(&k, "size") {
        "Size"
    } else if chars_eq_str(&k, "format") {
        "Format"
    } else if chars_eq_str(&k, "modified") {
        "Modified"
    } else if chars_eq_str(&k, "description") {
        "Description"
    } else if chars_eq_str(&k, "path") {
        "Path"
    } else {
        ""
    }
}

/// The first `:`-separated piece of a token, as `splitn(3, ':')` gives it.
pub open spec fn piece1(e: Seq<char>) -> Seq<char> {
    let c = first_index(e, ':');
    if c < 0 {
        e
    } else {
        e.take(c)
    }
}

/// What follows the first `:` of a token, if there is one.
pub open spec fn after1(e: Seq<char>) -> Option<Seq<char>> {
    let c = first_index(e, ':');
    if c < 0 {
        None
    } else {
        Some(e.skip(c + 1))
    }
}

/// The second piece of a token, as `splitn(3, ':')` gives it.
pub open spec fn piece2(e: Seq<char>) -> Option<Seq<char>> {
    match after1(e) {
        None => None,
        Some(r) => Some(piece1(r)),
    }
}

/// The third piece of a token, as `splitn(3, ':')` gives it: all that
/// follows the second `:`.
pub open spec fn piece3(e: Seq<char>) -> Option<Seq<char>> {
    match after1(e) {
        None => None,
        Some(r) => after1(r),
    }
}

/// Index of the first column with key `k`, or -1.
pub open spec fn col_index(v: Seq<ColumnV>, k: Seq<char>) -> int
    decreases v.len(),
{
    if v.len() == 0 {
        -1
    } else {
        let p = col_index(v.drop_last(), k);
        if p >= 0 {
            p
        } else if v.last().key == k {
            v.len() - 1
        } else {
            -1
        }
    }
}

/// Where the split of a spec stands: the visible and hidden columns placed
/// so far, and the built-in columns not yet named.
pub struct SplitState {
    pub visible: Seq<ColumnV>,
    pub hidden: Seq<ColumnV>,
    pub pool: Seq<ColumnV>,
}

/// One `key:width:vis` token through the split.
pub open spec fn split_step(st: SplitState, e: Seq<char>) -> SplitState {
    let key = trim_seq(piece1(e));
    let p = col_index(st.pool, key);
    if key.len() == 0 || p < 0 {
        st
    } else {
        let col = ColumnV {
            key: st.pool[p].key,
            width: match piece2(e) {
                Some(w) => Some(trim_seq(w)),
                None => st.pool[p].width,
            },
        };
        let vis = match piece3(e) {
            Some(v) => trim_seq(v) != "0"@,
            None => true,
        };
        if vis || key == "name"@ {
            SplitState { visible: st.visible.push(col), hidden: st.hidden, pool: st.pool.remove(p) }
        } else {
            SplitState { visible: st.visible, hidden: st.hidden.push(col), pool: st.pool.remove(p) }
        }
    }
}

/// The split after the tokens `es`.
pub open spec fn split_fold(es: Seq<Seq<char>>) -> SplitState
    decreases es.len(),
{
    if es.len() == 0 {
        SplitState { visible: Seq::empty(), hidden: Seq::empty(), pool: default_cols() }
    } else {
        split_step(split_fold(es.drop_last()), es.last())
    }
}

/// What [`split_persisted_columns`] returns: the visible columns in the
/// spec's order followed by the built-in ones it never named, and the
/// hidden ones; with no spec, the built-in layout.
pub open spec fn split_spec(spec: Option<Seq<char>>) -> (Seq<ColumnV>, Seq<ColumnV>) {
    match spec {
        None => (default_cols(), Seq::empty()),
        Some(s) => {
            let st = split_fold(split_seq(s, ','));
            let visible = st.visible + st.pool;
            if visible.len() == 0 && st.hidden.len() > 0 {
                let n = col_index(st.hidden, "name"@);
                let at = if n >= 0 { n } else { 0 };
                (seq![st.hidden[at]], st.hidden.remove(at))
            } else {
                (visible, st.hidden)
            }
        },
    }
}

proof fn lemma_col_index(v: Seq<ColumnV>, k: Seq<char>)
    ensures
        -1 <= col_index(v, k) < v.len(),
        col_index(v, k) >= 0 ==> v[col_index(v, k)].key == k,
        col_index(v, k) >= 0 ==> forall|q: int| 0 <= q < col_index(v, k) ==> v[q].key != k,
        col_index(v, k) < 0 ==> forall|q: int| 0 <= q < v.len() ==> v[q].key != k,
    decreases v.len(),
{
    if v.len() > 0 {
        lemma_col_index(v.drop_last(), k);
        let p = col_index(v.drop_last(), k);
        if p >= 0 {
            assert(v.drop_last()[p] == v[p]);
            assert forall|q: int| 0 <= q < col_index(v, k) implies v[q].key != k by {
                assert(v[q] == v.drop_last()[q]);
            }
        } else {
            assert forall|q: int| 0 <= q < v.len() - 1 implies v[q].key != k by {
                assert(v[q] == v.drop_last()[q]);
            }
        }
    }
}

fn find_col(v: &Vec<ColumnSlot>, k: &[char]) -> (r: Option<usize>)
    ensures
        match r {
            Some(i) => i as int == col_index(cols_view(v@), k@),
            None => col_index(cols_view(v@), k@) == -1,
        },
{
    let ghost cv = cols_view(v@);
    proof {
        lemma_col_index(cv, k@);
    }
    let mut i: usize = 0;
    while i < v.len()
        invariant
            i <= v.len(),
            cv == cols_view(v@),
            forall|q: int| 0 <= q < i ==> cv[q].key != k@,
        decreases v.len() - i,
    {
        let have = chars_of(v[i].key.as_str());
        if crate::strings::chars_eq(&have, k) {
            proof {
                lemma_col_index(cv, k@);
                let p = col_index(cv, k@);
                if p != i {
                    assert(cv[i as int].key == k@);
                }
            }
            return Some(i);
        }
        i = i + 1;
    }
    proof {
        lemma_col_index(cv, k@);
        if col_index(cv, k@) >= 0 {
            assert(cv[col_index(cv, k@)].key == k@);
        }
    }
    None
}

/// The pieces of a token as `splitn(3, ':')` gives them.
fn pieces(e: &[char]) -> (r: (Vec<char>, Option<Vec<char>>, Option<Vec<char>>))
    ensures
        r.0@ == piece1(e@),
        match piece2(e@) {
            None => r.1 is None,
            Some(w) => r.1 matches Some(x) && x@ == w,
        },
        match piece3(e@) {
            None => r.2 is None,
            Some(w) => r.2 matches Some(x) && x@ == w,
        },
{
    proof {
        lemma_first_index(e@, ':');
    }
    let n = e.len();
    match find_char(e, ':') {
        None => {
            let all = slice_to_vec(e, 0, e.len());
            assert(all@ =~= e@);
            (all, None, None)
        },
        Some(c) => {
            assert(c < n);
            let first = slice_to_vec(e, 0, c);
            let rest = slice_to_vec(e, c + 1, e.len());
            assert(first@ =~= e@.take(c as int));
            assert(rest@ =~= e@.skip(c + 1));
            proof {
                lemma_first_index(rest@, ':');
            }
            let rn = rest.len();
            match find_char(&rest, ':') {
                None => {
                    let second = slice_to_vec(&rest, 0, rest.len());
                    assert(second@ =~= rest@);
                    (first, Some(second), None)
                },
                Some(c2) => {
                    assert(c2 < rn);
                    let second = slice_to_vec(&rest, 0, c2);
                    let third = slice_to_vec(&rest, c2 + 1, rest.len());
                    assert(second@ =~= rest@.take(c2 as int));
                    assert(third@ =~= rest@.skip(c2 + 1));
                    (first, Some(second), Some(third))
                },
            }
        },
    }
}

/// Split a persisted `key:width:vis,…` spec into the visible columns (in
/// the spec's order, with its width tokens) and the hidden ones. A token
/// without a flag is visible; `0` hides. Unknown keys are ignored; built-in
/// columns the spec never names trail as visible; `name` is never hidden,
/// and the visible set never ends up empty.
pub fn split_persisted_columns(spec: Option<&str>) -> (r: (Vec<ColumnSlot>, Vec<ColumnSlot>))
    ensures
        (cols_view(r.0@), cols_view(r.1@)) == split_spec(
            match spec {
                Some(s) => Some(s@),
                None => None,
            },
        ),
        layout_inv(cols_view(r.0@), cols_view(r.1@)),
{
    proof {
        let given = match spec {
            Some(s) => Some(s@),
            None => None,
        };
        lemma_name_always_visible(given);
        lemma_split_distinct(given);
    }
    let mut pool = default_columns();
    let spec = match spec {
        None => {
            let hidden: Vec<ColumnSlot> = Vec::new();
            assert(cols_view(hidden@) =~= Seq::<ColumnV>::empty());
            return (pool, hidden);
        },
        Some(s) => s,
    };
    let chars = chars_of(spec);
    let entries = split(&chars, ',');
    let ghost ev = split_seq(spec@, ',');
    let mut visible: Vec<ColumnSlot> = Vec::new();
    let mut hidden: Vec<ColumnSlot> = Vec::new();
    let mut i: usize = 0;
    proof {
        assert(cols_view(visible@) =~= Seq::<ColumnV>::empty());
        assert(cols_view(hidden@) =~= Seq::<ColumnV>::empty());
        assert(ev.take(0) =~= Seq::<Seq<char>>::empty());
    }
    while i < entries.len()
        invariant
            i <= entries.len(),
            chars@ == spec@,
            entries@.len() == ev.len(),
            ev == split_seq(spec@, ','),
            forall|k: int| 0 <= k < entries@.len() ==> (#[trigger] entries@[k])@ == ev[k],
            split_fold(ev.take(i as int)) == (SplitState {
                visible: cols_view(visible@),
                hidden: cols_view(hidden@),
                pool: cols_view(pool@),
            }),
        decreases entries.len() - i,
    {
        assert(ev.take(i + 1).drop_last() =~= ev.take(i as int));
        assert(ev.take(i + 1).last() == entries@[i as int]@);
        let ghost st = split_fold(ev.take(i as int));
        let (p1, p2, p3) = pieces(&entries[i]);
        let key = trim(&p1);
        if key.len() == 0 {
            i = i + 1;
            continue;
        }
        let pos = match find_col(&pool, &key) {
            Some(p) => p,
            None => {
                i = i + 1;
                continue;
            },
        };
        proof {
            lemma_col_index(cols_view(pool@), key@);
        }
        let ghost pv = cols_view(pool@);
        let mut col = pool.remove(pos);
        assert(cols_view(pool@) =~= pv.remove(pos as int));
        assert(col@ == pv[pos as int]);
        match p2 {
            Some(w) => {
                let t = trim(&w);
                col.width = Some(string_of(&t));
            },
            None => {},
        }
        let vis = match p3 {
            Some(v) => {
                let t = trim(&v);
                !chars_eq_str(&t, "0")
            },
            None => true,
        };
        let is_name = chars_eq_str(&key, "name");
        let ghost vb = cols_view(visible@);
        let ghost hb = cols_view(hidden@);
        if vis || is_name {
            visible.push(col);
            assert(cols_view(visible@) =~= vb.push(visible@.last()@));
        } else {
            hidden.push(col);
            assert(cols_view(hidden@) =~= hb.push(hidden@.last()@));
        }
        i = i + 1;
    }
    assert(ev.take(entries.len() as int) =~= ev);
    let ghost st = split_fold(ev);
    let ghost vb = cols_view(visible@);
    visible.append(&mut pool);
    assert(cols_view(visible@) =~= vb + st.pool);
    if visible.len() == 0 && hidden.len() > 0 {
        let name = chars_of("name");
        let at = match find_col(&hidden, &name) {
            Some(p) => p,
            None => 0,
        };
        proof {
            lemma_col_index(cols_view(hidden@), "name"@);
        }
        let ghost hv = cols_view(hidden@);
        let moved = hidden.remove(at);
        assert(cols_view(hidden@) =~= hv.remove(at as int));
        visible.push(moved);
        assert(cols_view(visible@) =~= seq![hv[at as int]]);
    }
    (visible, hidden)
}

/// One persisted token: `key:width:flag`.
pub open spec fn token(key: Seq<char>, width: Seq<char>, visible: bool) -> Seq<char> {
    key + seq![':'] + width + seq![':', if visible { '1' } else { '0' }]
}

/// What [`columns_spec`] returns: the visible columns first, in order,
/// then the hidden ones, each with its width.
pub open spec fn columns_spec_spec(
    visible: Seq<(Seq<char>, Seq<char>)>,
    hidden: Seq<(Seq<char>, Seq<char>)>,
) -> Seq<char> {
    join_seq(
        visible.map_values(|p: (Seq<char>, Seq<char>)| token(p.0, p.1, true)) + hidden.map_values(
            |p: (Seq<char>, Seq<char>)| token(p.0, p.1, false),
        ),
        seq![','],
    )
}

/// The views of `(key, width)` pairs.
pub open spec fn pairs_view(v: Seq<(String, String)>) -> Seq<(Seq<char>, Seq<char>)> {
    v.map_values(|p: (String, String)| (p.0@, p.1@))
}

/// Serialize a column layout into the persisted `key:width:vis` spec:
/// visible columns first, in order, then hidden ones. Each width is the
/// column's current width as the caller rounded it to whole pixels.
pub fn columns_spec(visible: &Vec<(String, String)>, hidden: &Vec<(String, String)>) -> (r: String)
    ensures
        r@ == columns_spec_spec(pairs_view(visible@), pairs_view(hidden@)),
{
    let ghost vv = pairs_view(visible@);
    let ghost hv = pairs_view(hidden@);
    let mut parts: Vec<String> = Vec::new();
    let mut i: usize = 0;
    while i < visible.len()
        invariant
            i <= visible.len(),
            vv == pairs_view(visible@),
            strs_view(parts@) == vv.take(i as int).map_values(|p: (Seq<char>, Seq<char>)| token(p.0, p.1, true)),
        decreases visible.len() - i,
    {
        let mut t = visible[i].0.clone();
        push_char(&mut t, ':');
        t.append(visible[i].1.as_str());
        push_char(&mut t, ':');
        push_char(&mut t, '1');
        assert(t@ =~= token(vv[i as int].0, vv[i as int].1, true));
        let ghost pb = strs_view(parts@);
        parts.push(t);
        assert(strs_view(parts@) =~= pb.push(token(vv[i as int].0, vv[i as int].1, true)));
        assert(vv.take(i + 1) =~= vv.take(i as int).push(vv[i as int]));
        assert(strs_view(parts@) =~= vv.take(i + 1).map_values(|p: (Seq<char>, Seq<char>)| token(p.0, p.1, true)));
        i = i + 1;
    }
    assert(vv.take(visible.len() as int) =~= vv);
    let ghost vis_tokens = strs_view(parts@);
    let mut j: usize = 0;
    while j < hidden.len()
        invariant
            j <= hidden.len(),
            hv == pairs_view(hidden@),
            strs_view(parts@) == vis_tokens + hv.take(j as int).map_values(|p: (Seq<char>, Seq<char>)| token(p.0, p.1, false)),
        decreases hidden.len() - j,
    {
        let mut t = hidden[j].0.clone();
        push_char(&mut t, ':');
        t.append(hidden[j].1.as_str());
        push_char(&mut t, ':');
        push_char(&mut t, '0');
        assert(t@ =~= token(hv[j as int].0, hv[j as int].1, false));
        let ghost pb = strs_view(parts@);
        parts.push(t);
        assert(strs_view(parts@) =~= pb.push(token(hv[j as int].0, hv[j as int].1, false)));
        assert(hv.take(j + 1) =~= hv.take(j as int).push(hv[j as int]));
        assert(strs_view(parts@) =~= vis_tokens + hv.take(j + 1).map_values(|p: (Seq<char>, Seq<char>)| token(p.0, p.1, false)));
        j = j + 1;
    }
    assert(hv.take(hidden.len() as int) =~= hv);
    join_strings(&parts, ',')
}

/// Every key the split has placed or still holds is a built-in one and
/// every built-in one is still somewhere, and `name` is never hidden.
pub open spec fn split_inv(st: SplitState) -> bool {
    &&& forall|k: Seq<char>|
        (keys_of(st.visible).contains(k) || keys_of(st.hidden).contains(k) || keys_of(st.pool).contains(k))
            <==> #[trigger] default_keys().contains(k)
    &&& !keys_of(st.hidden).contains("name"@)
}

proof fn lemma_keys_push(v: Seq<ColumnV>, c: ColumnV, k: Seq<char>)
    ensures
        keys_of(v.push(c)).contains(k) == (keys_of(v).contains(k) || c.key == k),
{
    let a = keys_of(v.push(c));
    assert(a =~= keys_of(v).push(c.key));
    if a.contains(k) {
        let i = choose|i: int| 0 <= i < a.len() && a[i] == k;
        if i < v.len() {
            assert(keys_of(v)[i] == k);
        }
    }
    if keys_of(v).contains(k) {
        let i = choose|i: int| 0 <= i < keys_of(v).len() && keys_of(v)[i] == k;
        assert(a[i] == k);
    }
    if c.key == k {
        assert(a[v.len() as int] == k);
    }
}

proof fn lemma_keys_remove(v: Seq<ColumnV>, p: int, k: Seq<char>)
    requires
        0 <= p < v.len(),
    ensures
        keys_of(v).contains(k) == (keys_of(v.remove(p)).contains(k) || v[p].key == k),
{
    let a = keys_of(v);
    let b = keys_of(v.remove(p));
    if a.contains(k) {
        let i = choose|i: int| 0 <= i < a.len() && a[i] == k;
        if i < p {
            assert(b[i] == k);
        } else if i > p {
            assert(b[i - 1] == k);
        }
    }
    if b.contains(k) {
        let i = choose|i: int| 0 <= i < b.len() && b[i] == k;
        if i < p {
            assert(a[i] == k);
        } else {
            assert(a[i + 1] == k);
        }
    }
    if v[p].key == k {
        assert(a[p] == k);
    }
}

proof fn lemma_split_fold_inv(es: Seq<Seq<char>>)
    ensures
        split_inv(split_fold(es)),
    decreases es.len(),
{
    reveal_strlit("name");
    if es.len() == 0 {
        assert(keys_of(default_cols()) =~= default_keys());
        assert(keys_of(Seq::<ColumnV>::empty()) =~= Seq::<Seq<char>>::empty());
    } else {
        lemma_split_fold_inv(es.drop_last());
        let st = split_fold(es.drop_last());
        let e = es.last();
        let key = trim_seq(piece1(e));
        let p = col_index(st.pool, key);
        lemma_col_index(st.pool, key);
        if key.len() > 0 && p >= 0 {
            let r = split_fold(es);
            assert forall|k: Seq<char>|
                (keys_of(r.visible).contains(k) || keys_of(r.hidden).contains(k) || keys_of(r.pool).contains(k))
                    <==> #[trigger] default_keys().contains(k) by {
                lemma_keys_remove(st.pool, p, k);
                let col = if r.visible.len() > st.visible.len() { r.visible.last() } else { r.hidden.last() };
                lemma_keys_push(st.visible, col, k);
                lemma_keys_push(st.hidden, col, k);
            }
            lemma_keys_push(st.hidden, r.hidden.last(), "name"@);
        }
    }
}

/// The split never hides `name`, always shows it, and every column it
/// returns is a built-in one.
pub proof fn lemma_name_always_visible(spec: Option<Seq<char>>)
    ensures
        keys_of(split_spec(spec).0).contains("name"@),
        !keys_of(split_spec(spec).1).contains("name"@),
        split_spec(spec).0.len() > 0,
        forall|k: Seq<char>|
            keys_of(split_spec(spec).0).contains(k) || keys_of(split_spec(spec).1).contains(k) ==> #[trigger] default_keys().contains(k),
{
    reveal_strlit("name");
    assert(default_keys()[0] == "name"@);
    assert(default_keys().contains("name"@));
    match spec {
        None => {
            assert(keys_of(default_cols()) =~= default_keys());
            assert(keys_of(Seq::<ColumnV>::empty()) =~= Seq::<Seq<char>>::empty());
        },
        Some(s) => {
            let st = split_fold(split_seq(s, ','));
            lemma_split_fold_inv(split_seq(s, ','));
            let visible = st.visible + st.pool;
            assert(keys_of(visible) =~= keys_of(st.visible) + keys_of(st.pool));
            assert(keys_of(visible).contains("name"@)) by {
                if keys_of(st.visible).contains("name"@) {
                    let i = choose|i: int| 0 <= i < keys_of(st.visible).len() && keys_of(st.visible)[i] == "name"@;
                    assert(keys_of(visible)[i] == "name"@);
                } else {
                    assert(keys_of(st.pool).contains("name"@));
                    let i = choose|i: int| 0 <= i < keys_of(st.pool).len() && keys_of(st.pool)[i] == "name"@;
                    assert(keys_of(visible)[st.visible.len() + i] == "name"@);
                }
            }
            assert forall|k: Seq<char>|
                keys_of(visible).contains(k) || keys_of(st.hidden).contains(k) implies #[trigger] default_keys().contains(k) by {
                if keys_of(visible).contains(k) {
                    let i = choose|i: int| 0 <= i < keys_of(visible).len() && keys_of(visible)[i] == k;
                    if i < st.visible.len() {
                        assert(keys_of(st.visible)[i] == k);
                    } else {
                        assert(keys_of(st.pool)[i - st.visible.len()] == k);
                    }
                }
            }
        },
    }
}

/// Two arrangements of the same items: when one has no repeats, neither
/// has the other.
proof fn lemma_rearranged_distinct<A>(o: Seq<A>, r: Seq<A>)
    requires
        o.no_duplicates(),
        o.to_multiset() =~= r.to_multiset(),
    ensures
        r.no_duplicates(),
{
    o.lemma_multiset_has_no_duplicates();
    r.lemma_multiset_has_no_duplicates_conv();
}

/// No key twice among the placed, hidden and pooled columns of a split.
spec fn split_distinct(st: SplitState) -> bool {
    (keys_of(st.visible) + keys_of(st.hidden) + keys_of(st.pool)).no_duplicates()
}

proof fn lemma_split_fold_distinct(es: Seq<Seq<char>>)
    ensures
        split_distinct(split_fold(es)),
    decreases es.len(),
{
    broadcast use vstd::seq_lib::group_to_multiset_ensures;
    broadcast use vstd::seq_lib::lemma_multiset_commutative;
    broadcast use vstd::multiset::group_multiset_axioms;

    if es.len() == 0 {
        lemma_default_keys_distinct();
        assert(keys_of(default_cols()) =~= default_keys());
        assert(keys_of(Seq::<ColumnV>::empty()) =~= Seq::<Seq<char>>::empty());
        assert(Seq::<Seq<char>>::empty() + Seq::<Seq<char>>::empty() + default_keys() =~= default_keys());
    } else {
        lemma_split_fold_distinct(es.drop_last());
        let st = split_fold(es.drop_last());
        let key = trim_seq(piece1(es.last()));
        let p = col_index(st.pool, key);
        lemma_col_index(st.pool, key);
        if key.len() > 0 && p >= 0 {
            let r = split_fold(es);
            let a = keys_of(st.visible);
            let b = keys_of(st.hidden);
            let c = keys_of(st.pool);
            let x = c[p];
            assert(keys_of(r.pool) =~= c.remove(p));
            assert(c.to_multiset().count(x) > 0);
            let o = a + b + c;
            let n = keys_of(r.visible) + keys_of(r.hidden) + keys_of(r.pool);
            if r.visible.len() > st.visible.len() {
                assert(keys_of(r.visible) =~= a.push(x));
                assert(keys_of(r.hidden) =~= b);
                assert(o.to_multiset() =~= n.to_multiset());
            } else {
                assert(keys_of(r.visible) =~= a);
                assert(keys_of(r.hidden) =~= b.push(x));
                assert(o.to_multiset() =~= n.to_multiset());
            }
            lemma_rearranged_distinct(o, n);
        }
    }
}

/// The split never names a column twice across the shown and hidden lists.
proof fn lemma_split_distinct(spec: Option<Seq<char>>)
    ensures
        (keys_of(split_spec(spec).0) + keys_of(split_spec(spec).1)).no_duplicates(),
{
    broadcast use vstd::seq_lib::group_to_multiset_ensures;
    broadcast use vstd::seq_lib::lemma_multiset_commutative;
    broadcast use vstd::multiset::group_multiset_axioms;

    match spec {
        None => {
            lemma_default_keys_distinct();
            assert(keys_of(default_cols()) =~= default_keys());
            assert(keys_of(Seq::<ColumnV>::empty()) =~= Seq::<Seq<char>>::empty());
            assert(default_keys() + Seq::<Seq<char>>::empty() =~= default_keys());
        },
        Some(s) => {
            let st = split_fold(split_seq(s, ','));
            lemma_split_fold_distinct(split_seq(s, ','));
            let a = keys_of(st.visible);
            let b = keys_of(st.hidden);
            let c = keys_of(st.pool);
            let visible = st.visible + st.pool;
            assert(keys_of(visible) =~= a + c);
            if visible.len() == 0 && st.hidden.len() > 0 {
                let n = col_index(st.hidden, "name"@);
                lemma_col_index(st.hidden, "name"@);
                let at = if n >= 0 { n } else { 0 };
                assert(keys_of(seq![st.hidden[at]]) =~= Seq::<Seq<char>>::empty().push(b[at]));
                assert(keys_of(st.hidden.remove(at)) =~= b.remove(at));
                assert(a + b + c =~= b);
                let r = Seq::<Seq<char>>::empty().push(b[at]) + b.remove(at);
                assert(b.to_multiset().count(b[at]) > 0);
                assert(b.to_multiset() =~= r.to_multiset());
                lemma_rearranged_distinct(b, r);
            } else {
                assert((a + b + c).to_multiset() =~= ((a + c) + b).to_multiset());
                lemma_rearranged_distinct(a + b + c, (a + c) + b);
            }
        },
    }
}

/// The table's columns: the shown ones in order, and the hidden ones.
#[derive(Debug)]
pub struct ColumnLayout {
    pub visible: Vec<ColumnSlot>,
    pub hidden: Vec<ColumnSlot>,
}

/// What [`ColumnLayout::toggle_column`] leaves: a shown column other than
/// `name`, and not the last one, moves to the end of the hidden ones; a
/// hidden one moves to the end of the shown ones; anything else stays.
pub open spec fn toggle_spec(v: Seq<ColumnV>, h: Seq<ColumnV>, key: Seq<char>) -> (Seq<ColumnV>, Seq<ColumnV>) {
    let p = col_index(v, key);
    let q = col_index(h, key);
    if p >= 0 {
        if key == "name"@ || v.len() <= 1 {
            (v, h)
        } else {
            (v.remove(p), h.push(v[p]))
        }
    } else if q >= 0 {
        (v.push(h[q]), h.remove(q))
    } else {
        (v, h)
    }
}

impl ColumnLayout {
    /// Whether column `key` is shown.
    pub fn is_column_visible(&self, key: &str) -> (r: bool)
        ensures
            r == (col_index(cols_view(self.visible@), key@) >= 0),
    {
        let k = chars_of(key);
        find_col(&self.visible, &k).is_some()
    }

    /// Show or hide column `key`; whether anything changed. `name` cannot
    /// be hidden, nor can the last shown column.
    pub fn toggle_column(&mut self, key: &str) -> (r: bool)
        ensures
            (cols_view(final(self).visible@), cols_view(final(self).hidden@)) == toggle_spec(
                cols_view(old(self).visible@),
                cols_view(old(self).hidden@),
                key@,
            ),
            r == ((cols_view(final(self).visible@), cols_view(final(self).hidden@)) != (
                cols_view(old(self).visible@),
                cols_view(old(self).hidden@),
            )),
            layout_inv(cols_view(old(self).visible@), cols_view(old(self).hidden@)) ==> layout_inv(
                cols_view(final(self).visible@),
                cols_view(final(self).hidden@),
            ),
    {
        let k = chars_of(key);
        let ghost v0 = cols_view(self.visible@);
        let ghost h0 = cols_view(self.hidden@);
        proof {
            lemma_col_index(v0, key@);
            lemma_col_index(h0, key@);
            if layout_inv(v0, h0) {
                lemma_toggle_keeps_layout(v0, h0, key@);
            }
        }
        match find_col(&self.visible, &k) {
            Some(pos) => {
                if chars_eq_str(&k, "name") || self.visible.len() <= 1 {
                    return false;
                }
                let col = self.visible.remove(pos);
                assert(cols_view(self.visible@) =~= v0.remove(pos as int));
                self.hidden.push(col);
                assert(cols_view(self.hidden@) =~= h0.push(v0[pos as int]));
                assert(cols_view(self.visible@).len() != v0.len());
                true
            },
            None => match find_col(&self.hidden, &k) {
                Some(pos) => {
                    let col = self.hidden.remove(pos);
                    assert(cols_view(self.hidden@) =~= h0.remove(pos as int));
                    self.visible.push(col);
                    assert(cols_view(self.visible@) =~= v0.push(h0[pos as int]));
                    assert(cols_view(self.visible@).len() != v0.len());
                    true
                },
                None => false,
            },
        }
    }

    /// Restore the built-in columns, all shown, with the flat listing's
    /// path column when the listing is flat.
    pub fn reset_columns(&mut self, flat: bool)
        ensures
            cols_view(final(self).visible@) == if flat {
                default_cols().push(ColumnV { key: "path"@, width: None })
            } else {
                default_cols()
            },
            cols_view(final(self).hidden@) == Seq::<ColumnV>::empty(),
            layout_inv(cols_view(final(self).visible@), cols_view(final(self).hidden@)),
    {
        self.visible = default_columns();
        self.hidden = Vec::new();
        assert(cols_view(self.hidden@) =~= Seq::<ColumnV>::empty());
        proof {
            reveal_strlit("name");
            lemma_default_keys_distinct();
            assert(keys_of(default_cols()) =~= default_keys());
            assert(keys_of(Seq::<ColumnV>::empty()) =~= Seq::<Seq<char>>::empty());
            assert(default_keys() + Seq::<Seq<char>>::empty() =~= default_keys());
            assert(default_keys()[0] == "name"@);
        }
        if flat {
            let ghost vb = cols_view(self.visible@);
            self.visible.push(flat_path_column());
            assert(cols_view(self.visible@) =~= vb.push(ColumnV { key: "path"@, width: None }));
            proof {
                reveal_strlit("path");
                reveal_strlit("size");
                reveal_strlit("format");
                reveal_strlit("modified");
                reveal_strlit("description");
                let d = default_keys();
                let k = d.push("path"@);
                assert(keys_of(vb.push(ColumnV { key: "path"@, width: None })) =~= k);
                assert(k + Seq::<Seq<char>>::empty() =~= k);
                assert(k[5] == "path"@);
                assert(k[0] == "name"@);
                assert forall|i: int, j: int| 0 <= i < k.len() && 0 <= j < k.len() && i != j implies k[i] != k[j] by {
                    if i < 5 && j < 5 {
                        assert(d[i] != d[j]);
                    } else {
                        assert(k[i][0] != k[j][0]);
                    }
                }
            }
        }
    }
}

/// A column layout's invariant: some column shown, `name` among the shown
/// ones, and no key twice across the shown and hidden lists (so the two
/// are disjoint and `name` is never hidden).
pub open spec fn layout_inv(v: Seq<ColumnV>, h: Seq<ColumnV>) -> bool {
    &&& v.len() > 0
    &&& keys_of(v).contains("name"@)
    &&& (keys_of(v) + keys_of(h)).no_duplicates()
}

/// The position in `a + b` that position `i` of the arrangement after
/// moving `a[p]` to the end of `b` came from.
spec fn moved_from(a_len: int, b_len: int, p: int, i: int) -> int {
    if i < a_len - 1 {
        if i < p { i } else { i + 1 }
    } else if i < a_len - 1 + b_len {
        i + 1
    } else {
        p
    }
}

proof fn lemma_move_keeps_distinct<A>(a: Seq<A>, b: Seq<A>, p: int)
    requires
        (a + b).no_duplicates(),
        0 <= p < a.len(),
    ensures
        (a.remove(p) + b.push(a[p])).no_duplicates(),
{
    let o = a + b;
    let r = a.remove(p) + b.push(a[p]);
    assert forall|i: int| 0 <= i < r.len() implies r[i] == o[moved_from(a.len() as int, b.len() as int, p, i)]
        && 0 <= moved_from(a.len() as int, b.len() as int, p, i) < o.len() by {
        if i < a.len() - 1 {
        } else if i < a.len() - 1 + b.len() {
            assert(r[i] == b[i - (a.len() - 1)]);
        } else {
            assert(r[i] == a[p]);
        }
    }
    assert forall|i: int, j: int| 0 <= i < r.len() && 0 <= j < r.len() && i != j implies r[i] != r[j] by {
        let fi = moved_from(a.len() as int, b.len() as int, p, i);
        let fj = moved_from(a.len() as int, b.len() as int, p, j);
        assert(fi != fj);
        assert(o[fi] != o[fj]);
    }
}

/// The position in `a + b` that position `i` of the arrangement after
/// moving `b[q]` to the end of `a` came from.
spec fn moved_back_from(a_len: int, q: int, i: int) -> int {
    if i < a_len {
        i
    } else if i == a_len {
        a_len + q
    } else if i - a_len - 1 < q {
        i - 1
    } else {
        i
    }
}

proof fn lemma_move_back_keeps_distinct<A>(a: Seq<A>, b: Seq<A>, q: int)
    requires
        (a + b).no_duplicates(),
        0 <= q < b.len(),
    ensures
        (a.push(b[q]) + b.remove(q)).no_duplicates(),
{
    let o = a + b;
    let r = a.push(b[q]) + b.remove(q);
    assert forall|i: int| 0 <= i < r.len() implies r[i] == o[moved_back_from(a.len() as int, q, i)]
        && 0 <= moved_back_from(a.len() as int, q, i) < o.len() by {
        if i < a.len() {
        } else if i == a.len() {
            assert(r[i] == b[q]);
        } else {
            assert(r[i] == b.remove(q)[i - a.len() - 1]);
        }
    }
    assert forall|i: int, j: int| 0 <= i < r.len() && 0 <= j < r.len() && i != j implies r[i] != r[j] by {
        let fi = moved_back_from(a.len() as int, q, i);
        let fj = moved_back_from(a.len() as int, q, j);
        assert(fi != fj);
        assert(o[fi] != o[fj]);
    }
}

/// Toggling keeps the layout's invariant: the shown and hidden lists stay
/// disjoint, every key named once, `name` shown, and some column shown.
pub proof fn lemma_toggle_keeps_layout(v: Seq<ColumnV>, h: Seq<ColumnV>, key: Seq<char>)
    requires
        layout_inv(v, h),
    ensures
        layout_inv(toggle_spec(v, h, key).0, toggle_spec(v, h, key).1),
{
    lemma_col_index(v, key);
    lemma_col_index(h, key);
    let p = col_index(v, key);
    let q = col_index(h, key);
    let (v1, h1) = toggle_spec(v, h, key);
    if p >= 0 && !(key == "name"@ || v.len() <= 1) {
        assert(keys_of(v1) =~= keys_of(v).remove(p));
        assert(keys_of(h1) =~= keys_of(h).push(keys_of(v)[p]));
        lemma_move_keeps_distinct(keys_of(v), keys_of(h), p);
        lemma_keys_remove(v, p, "name"@);
    } else if p < 0 && q >= 0 {
        assert(keys_of(v1) =~= keys_of(v).push(keys_of(h)[q]));
        assert(keys_of(h1) =~= keys_of(h).remove(q));
        lemma_move_back_keeps_distinct(keys_of(v), keys_of(h), q);
        lemma_keys_push(v, h[q], "name"@);
    }
}

/// Toggling never hides `name` and never leaves the table without a shown
/// column.
pub proof fn lemma_toggle_keeps_name_and_a_column(v: Seq<ColumnV>, h: Seq<ColumnV>, key: Seq<char>)
    requires
        v.len() > 0,
        !keys_of(h).contains("name"@),
    ensures
        toggle_spec(v, h, key).0.len() > 0,
        !keys_of(toggle_spec(v, h, key).1).contains("name"@),
{
    lemma_col_index(v, key);
    lemma_col_index(h, key);
    let p = col_index(v, key);
    let q = col_index(h, key);
    if p >= 0 && !(key == "name"@ || v.len() <= 1) {
        lemma_keys_push(h, v[p], "name"@);
    } else if p < 0 && q >= 0 {
        lemma_keys_remove(h, q, "name"@);
    }
}

/// A layout's `(key, width)` pairs as columns carrying their widths.
pub open spec fn with_widths(v: Seq<(Seq<char>, Seq<char>)>) -> Seq<ColumnV> {
    v.map_values(|p: (Seq<char>, Seq<char>)| ColumnV { key: p.0, width: Some(p.1) })
}

/// The keys of `(key, width)` pairs.
pub open spec fn pair_keys(v: Seq<(Seq<char>, Seq<char>)>) -> Seq<Seq<char>> {
    v.map_values(|p: (Seq<char>, Seq<char>)| p.0)
}

/// Whether a width token survives the persisted form: no separator in
/// it and no surrounding whitespace.
pub open spec fn plain_width(w: Seq<char>) -> bool {
    !has_char(w, ':') && !has_char(w, ',') && trim_seq(w) == w
}

/// A layout the persisted form restores as it is: every key a built-in
/// column named once, `name` among the shown ones, every width plain.
pub open spec fn persistable(visible: Seq<(Seq<char>, Seq<char>)>, hidden: Seq<(Seq<char>, Seq<char>)>) -> bool {
    let all = visible + hidden;
    &&& forall|i: int| 0 <= i < all.len() ==> #[trigger] default_keys().contains(all[i].0)
    &&& forall|i: int, j: int| 0 <= i < j < all.len() ==> #[trigger] all[i].0 != #[trigger] all[j].0
    &&& forall|i: int| 0 <= i < all.len() ==> #[trigger] plain_width(all[i].1)
    &&& pair_keys(visible).contains("name"@)
}

/// The built-in keys are plain words.
proof fn lemma_default_key_plain(k: Seq<char>)
    requires
        default_keys().contains(k),
    ensures
        !has_char(k, ':'),
        !has_char(k, ','),
        trim_seq(k) == k,
        k.len() > 0,
        k != "0"@,
{
    reveal_strlit("name");
    reveal_strlit("size");
    reveal_strlit("format");
    reveal_strlit("modified");
    reveal_strlit("description");
    reveal_strlit("0");
    let i = choose|i: int| 0 <= i < default_keys().len() && #[trigger] default_keys()[i] == k;
    assert(0 <= i < 5);
    assert(k.len() > 0);
    assert(!is_ws(k[0]));
    assert(!is_ws(k.last()));
    assert(crate::strings::trim_start_seq(k) == k);
    assert(crate::strings::trim_end_seq(k) == k);
    assert forall|j: int| 0 <= j < k.len() implies #[trigger] k[j] != ':' && k[j] != ',' by {
        if i == 0 {
            assert(k == "name"@);
        } else if i == 1 {
            assert(k == "size"@);
        } else if i == 2 {
            assert(k == "format"@);
        } else if i == 3 {
            assert(k == "modified"@);
        } else {
            assert(k == "description"@);
        }
    }
}

/// The first `c` of `a`, `c`, `b` is the one after `a` when `a` has none.
proof fn lemma_first_index_after(a: Seq<char>, c: char, b: Seq<char>)
    requires
        !has_char(a, c),
    ensures
        first_index(a + seq![c] + b, c) == a.len(),
    decreases a.len(),
{
    let s = a + seq![c] + b;
    if a.len() == 0 {
        assert(s[0] == c);
    } else {
        assert(s[0] == a[0]);
        assert(a[0] != c);
        assert(!has_char(a.drop_first(), c)) by {
            if has_char(a.drop_first(), c) {
                let j = choose|j: int| 0 <= j < a.drop_first().len() && #[trigger] a.drop_first()[j] == c;
                assert(a[j + 1] == c);
            }
        }
        lemma_first_index_after(a.drop_first(), c, b);
        assert(s.drop_first() =~= a.drop_first() + seq![c] + b);
    }
}

/// A persisted token splits back into its key, width and flag.
proof fn lemma_token_pieces(k: Seq<char>, w: Seq<char>, vis: bool)
    requires
        !has_char(k, ':'),
        !has_char(w, ':'),
    ensures
        piece1(token(k, w, vis)) == k,
        piece2(token(k, w, vis)) == Some(w),
        piece3(token(k, w, vis)) == Some(seq![if vis { '1' } else { '0' }]),
{
    let f = if vis { '1' } else { '0' };
    let t = token(k, w, vis);
    assert(t =~= k + seq![':'] + (w + seq![':', f]));
    lemma_first_index_after(k, ':', w + seq![':', f]);
    assert(t.take(k.len() as int) =~= k);
    let r = t.skip(k.len() as int + 1);
    assert(r =~= w + seq![':'] + seq![f]);
    lemma_first_index_after(w, ':', seq![f]);
    assert(r.take(w.len() as int) =~= w);
    assert(r.skip(w.len() as int + 1) =~= seq![f]);
}

/// The tokens of a layout: the shown columns', then the hidden ones'.
pub open spec fn layout_tokens(visible: Seq<(Seq<char>, Seq<char>)>, hidden: Seq<(Seq<char>, Seq<char>)>) -> Seq<Seq<char>> {
    visible.map_values(|p: (Seq<char>, Seq<char>)| token(p.0, p.1, true)) + hidden.map_values(
        |p: (Seq<char>, Seq<char>)| token(p.0, p.1, false),
    )
}

/// The split after the first `n` tokens of a persistable layout.
proof fn lemma_fold_prefix(visible: Seq<(Seq<char>, Seq<char>)>, hidden: Seq<(Seq<char>, Seq<char>)>, n: int)
    requires
        persistable(visible, hidden),
        0 <= n <= visible.len() + hidden.len(),
    ensures
        ({
            let st = split_fold(layout_tokens(visible, hidden).take(n));
            let all = visible + hidden;
            &&& st.visible == with_widths(visible.take(if n < visible.len() { n } else { visible.len() as int }))
            &&& st.hidden == with_widths(hidden.take(if n < visible.len() { 0 } else { n - visible.len() }))
            &&& forall|k: Seq<char>|
                #[trigger] keys_of(st.pool).contains(k) <==> (default_keys().contains(k) && !pair_keys(all.take(n)).contains(k))
            &&& forall|q: int| 0 <= q < st.pool.len() ==> (#[trigger] st.pool[q]).width is None
            &&& forall|a: int, b: int| 0 <= a < b < st.pool.len() ==> #[trigger] st.pool[a].key != #[trigger] st.pool[b].key
        }),
    decreases n,
{
    let toks = layout_tokens(visible, hidden);
    let all = visible + hidden;
    if n == 0 {
        assert(toks.take(0) =~= Seq::<Seq<char>>::empty());
        assert(with_widths(visible.take(0)) =~= Seq::<ColumnV>::empty());
        assert(with_widths(hidden.take(0)) =~= Seq::<ColumnV>::empty());
        assert(keys_of(default_cols()) =~= default_keys());
        assert(pair_keys(all.take(0)) =~= Seq::<Seq<char>>::empty());
        lemma_default_keys_distinct();
        assert forall|a: int, b: int| 0 <= a < b < default_cols().len() implies #[trigger] default_cols()[a].key
            != #[trigger] default_cols()[b].key by {
            assert(default_cols()[a].key == default_keys()[a]);
            assert(default_cols()[b].key == default_keys()[b]);
        }
    } else {
        lemma_fold_prefix(visible, hidden, n - 1);
        let st = split_fold(toks.take(n - 1));
        assert(toks.take(n).drop_last() =~= toks.take(n - 1));
        let e = toks[n - 1];
        assert(toks.take(n).last() == e);
        let (k, w) = all[n - 1];
        let vis = n - 1 < visible.len();
        assert(e == token(k, w, vis)) by {
            if vis {
                assert(all[n - 1] == visible[n - 1]);
            } else {
                assert(all[n - 1] == hidden[n - 1 - visible.len()]);
            }
        }
        assert(default_keys().contains(all[n - 1].0));
        lemma_default_key_plain(k);
        assert(plain_width(all[n - 1].1));
        lemma_token_pieces(k, w, vis);
        let key = trim_seq(piece1(e));
        assert(key == k);
        assert(!pair_keys(all.take(n - 1)).contains(k)) by {
            if pair_keys(all.take(n - 1)).contains(k) {
                let j = choose|j: int| 0 <= j < pair_keys(all.take(n - 1)).len() && #[trigger] pair_keys(all.take(n - 1))[j] == k;
                assert(all[j].0 == all[n - 1].0);
            }
        }
        assert(keys_of(st.pool).contains(k));
        lemma_col_index(st.pool, k);
        let p = col_index(st.pool, k);
        if p < 0 {
            let j = choose|j: int| 0 <= j < keys_of(st.pool).len() && #[trigger] keys_of(st.pool)[j] == k;
            assert(st.pool[j].key == k);
        }
        assert(p >= 0);
        let col = ColumnV { key: k, width: Some(w) };
        let flag = seq![if vis { '1' } else { '0' }];
        reveal_strlit("0");
        reveal_strlit("name");
        assert(trim_seq(flag) == flag) by {
            assert(!is_ws(flag[0]));
            assert(crate::strings::trim_start_seq(flag) == flag);
            assert(crate::strings::trim_end_seq(flag) == flag);
        }
        if vis {
            assert(flag[0] != "0"@[0]);
        } else {
            assert(flag =~= "0"@);
        }
        assert((trim_seq(flag) != "0"@) == vis);
        if !vis {
            assert(k != "name"@) by {
                let j = choose|j: int| 0 <= j < pair_keys(visible).len() && #[trigger] pair_keys(visible)[j] == "name"@;
                assert(all[j].0 == "name"@);
                assert(all[j].0 != all[n - 1].0);
            }
        }
        let r = split_fold(toks.take(n));
        assert(r == split_step(st, e));
        assert(r.pool == st.pool.remove(p));
        if vis {
            assert(r.visible == st.visible.push(col));
            assert(visible.take(n) =~= visible.take(n - 1).push(visible[n - 1]));
            assert(with_widths(visible.take(n)) =~= with_widths(visible.take(n - 1)).push(col));
        } else {
            assert(r.hidden == st.hidden.push(col));
            let m = n - visible.len();
            assert(hidden.take(m) =~= hidden.take(m - 1).push(hidden[m - 1]));
            assert(with_widths(hidden.take(m)) =~= with_widths(hidden.take(m - 1)).push(col));
            assert(visible.take(visible.len() as int) =~= visible);
        }
        assert(all.take(n) =~= all.take(n - 1).push(all[n - 1]));
        assert(pair_keys(all.take(n)) =~= pair_keys(all.take(n - 1)).push(k));
        assert forall|kk: Seq<char>|
            #[trigger] keys_of(r.pool).contains(kk) <==> (default_keys().contains(kk) && !pair_keys(all.take(n)).contains(kk)) by {
            lemma_keys_remove(st.pool, p, kk);
            let pk = pair_keys(all.take(n - 1));
            assert(pair_keys(all.take(n)) =~= pk.push(k));
            if pk.push(k).contains(kk) {
                let j = choose|j: int| 0 <= j < pk.push(k).len() && #[trigger] pk.push(k)[j] == kk;
                if j < pk.len() {
                    assert(pk[j] == kk);
                }
            }
            if pk.contains(kk) {
                let j = choose|j: int| 0 <= j < pk.len() && #[trigger] pk[j] == kk;
                assert(pk.push(k)[j] == kk);
            }
            if kk == k {
                assert(pk.push(k)[pk.len() as int] == kk);
                if keys_of(r.pool).contains(kk) {
                    let j = choose|j: int| 0 <= j < keys_of(r.pool).len() && #[trigger] keys_of(r.pool)[j] == kk;
                    if j < p {
                        assert(r.pool[j] == st.pool[j]);
                        assert(st.pool[j].key != st.pool[p].key);
                    } else {
                        assert(r.pool[j] == st.pool[j + 1]);
                        assert(st.pool[p].key != st.pool[j + 1].key);
                    }
                }
            }
        }
        assert forall|a: int, b: int| 0 <= a < b < r.pool.len() implies #[trigger] r.pool[a].key
            != #[trigger] r.pool[b].key by {
            let a0 = if a < p { a } else { a + 1 };
            let b0 = if b < p { b } else { b + 1 };
            assert(r.pool[a] == st.pool[a0]);
            assert(r.pool[b] == st.pool[b0]);
            assert(st.pool[a0].key != st.pool[b0].key);
        }
        assert forall|q: int| 0 <= q < r.pool.len() implies (#[trigger] r.pool[q]).width is None by {
            if q < p {
                assert(r.pool[q] == st.pool[q]);
            } else {
                assert(r.pool[q] == st.pool[q + 1]);
            }
        }
    }
}

/// Writing a layout and reading it back restores it: the shown columns in
/// their order with their widths, then the built-in ones the layout never
/// named, and the hidden columns with their widths. A layout naming every
/// built-in column comes back exactly.
pub proof fn lemma_spec_round_trip(visible: Seq<(Seq<char>, Seq<char>)>, hidden: Seq<(Seq<char>, Seq<char>)>)
    requires
        persistable(visible, hidden),
    ensures
        ({
            let (v, h) = split_spec(Some(columns_spec_spec(visible, hidden)));
            &&& v.take(visible.len() as int) == with_widths(visible)
            &&& h == with_widths(hidden)
            &&& forall|q: int|
                visible.len() <= q < v.len() ==> default_keys().contains(#[trigger] v[q].key) && v[q].width is None
                    && !pair_keys(visible + hidden).contains(v[q].key)
            &&& visible.len() + hidden.len() == default_keys().len() ==> v == with_widths(visible)
        }),
{
    let toks = layout_tokens(visible, hidden);
    let all = visible + hidden;
    let n = all.len() as int;
    assert(visible.len() > 0) by {
        let j = choose|j: int| 0 <= j < pair_keys(visible).len() && #[trigger] pair_keys(visible)[j] == "name"@;
    }
    assert forall|i: int| 0 <= i < toks.len() implies !has_char(#[trigger] toks[i], ',') by {
        let (k, w) = all[i];
        assert(default_keys().contains(all[i].0));
        lemma_default_key_plain(k);
        assert(plain_width(all[i].1));
        let vis = i < visible.len();
        assert(toks[i] == token(k, w, vis)) by {
            if vis {
                assert(all[i] == visible[i]);
            } else {
                assert(all[i] == hidden[i - visible.len()]);
            }
        }
        let t = token(k, w, vis);
        if has_char(t, ',') {
            let j = choose|j: int| 0 <= j < t.len() && #[trigger] t[j] == ',';
            if j < k.len() {
                assert(k[j] == ',');
            } else if j > k.len() && j < k.len() + 1 + w.len() {
                assert(w[j - k.len() - 1] == ',');
            }
        }
    }
    assert(columns_spec_spec(visible, hidden) == join_seq(toks, seq![',']));
    crate::strings::lemma_split_join(toks, ',');
    assert(toks.take(n) =~= toks);
    lemma_fold_prefix(visible, hidden, n);
    let st = split_fold(toks);
    assert(visible.take(visible.len() as int) =~= visible);
    assert(hidden.take(n - visible.len()) =~= hidden);
    assert(all.take(n) =~= all);
    assert(st.visible.len() > 0);
    let v = st.visible + st.pool;
    assert(v.take(visible.len() as int) =~= st.visible);
    assert forall|q: int| visible.len() <= q < v.len() implies default_keys().contains(#[trigger] v[q].key)
        && v[q].width is None && !pair_keys(visible + hidden).contains(v[q].key) by {
        let pq = q - visible.len();
        assert(v[q] == st.pool[pq]);
        assert(keys_of(st.pool)[pq] == v[q].key);
        assert(keys_of(st.pool).contains(v[q].key));
    }
    if n == default_keys().len() {
        assert(st.pool.len() == 0) by {
            if st.pool.len() > 0 {
                let k0 = st.pool[0].key;
                assert(keys_of(st.pool)[0] == k0);
                assert(keys_of(st.pool).contains(k0));
                assert(default_keys().contains(k0));
                assert(!pair_keys(all).contains(k0));
                // all five built-in keys are named, distinct, so k0 is one of them
                lemma_five_distinct_cover(all, k0);
            }
        }
        assert(v =~= st.visible);
    }
}

/// The built-in keys are distinct.
proof fn lemma_default_keys_distinct()
    ensures
        default_keys().no_duplicates(),
{
    reveal_strlit("name");
    reveal_strlit("size");
    reveal_strlit("format");
    reveal_strlit("modified");
    reveal_strlit("description");
    let d = default_keys();
    assert("name"@[0] == 'n' && "size"@[0] == 's' && "format"@[0] == 'f' && "modified"@[0] == 'm'
        && "description"@[0] == 'd');
    assert forall|i: int, j: int| 0 <= i < d.len() && 0 <= j < d.len() && i != j implies d[i] != d[j] by {
        assert(d[i][0] != d[j][0]);
    }
}

/// Five distinct built-in keys name every built-in key.
proof fn lemma_five_distinct_cover(all: Seq<(Seq<char>, Seq<char>)>, k0: Seq<char>)
    requires
        all.len() == default_keys().len(),
        forall|i: int| 0 <= i < all.len() ==> #[trigger] default_keys().contains(all[i].0),
        forall|i: int, j: int| 0 <= i < j < all.len() ==> #[trigger] all[i].0 != #[trigger] all[j].0,
        default_keys().contains(k0),
    ensures
        pair_keys(all).contains(k0),
{
    broadcast use vstd::seq_lib::seq_to_set_is_finite;
    broadcast use vstd::set::group_set_axioms;

    reveal_strlit("name");
    reveal_strlit("size");
    reveal_strlit("format");
    reveal_strlit("modified");
    reveal_strlit("description");
    let ks = pair_keys(all);
    let d = default_keys();
    assert(ks.no_duplicates()) by {
        assert forall|i: int, j: int| 0 <= i < ks.len() && 0 <= j < ks.len() && i != j implies ks[i] != ks[j] by {
            if i < j {
                assert(all[i].0 != all[j].0);
            } else {
                assert(all[j].0 != all[i].0);
            }
        }
    }
    lemma_default_keys_distinct();
    ks.unique_seq_to_set();
    d.unique_seq_to_set();
    assert(ks.to_set().subset_of(d.to_set())) by {
        assert forall|k: Seq<char>| ks.to_set().contains(k) implies d.to_set().contains(k) by {
            let i = choose|i: int| 0 <= i < ks.len() && #[trigger] ks[i] == k;
            assert(d.contains(all[i].0));
        }
    }
    vstd::set_lib::lemma_subset_equality(ks.to_set(), d.to_set());
    assert(d.to_set().contains(k0));
    assert(ks.to_set().contains(k0));
}

} // verus!
