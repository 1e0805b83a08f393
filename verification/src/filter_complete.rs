//! Filter-field token autocomplete: typing a prefix of a token key offers
//! the keys (`loc` → `locked:`), an accepted key chains into its example
//! values (`locked:` → `yes` / `no`), and an empty field lists every token.
//! Suggestions come from the token table the filter parser understands,
//! handed in by the caller; ranges are UTF-8 byte ranges of the field.

use vstd::prelude::*;

use crate::strings::{chars_eq_str, chars_of, is_whitespace, is_ws, lowercase, string_of, to_lowercase};

verus! {

/// One structured filter token: its key (`size:`), the msgid of its
/// description, and example values.
#[derive(Debug)]
pub struct TokenHelp {
    pub key: String,
    pub detail: String,
    pub values: Vec<String>,
}

/// One completion: what the menu shows, its description's msgid, the byte
/// range of the field it replaces, and the text it inserts there.
#[derive(Debug)]
pub struct SingleLineSuggestion {
    pub label: String,
    pub detail: Option<String>,
    pub replacement: (usize, usize),
    pub insertion: String,
}

/// A suggestion as a mathematical value.
pub struct SuggestionV {
    pub label: Seq<char>,
    pub detail: Option<Seq<char>>,
    pub replacement: (int, int),
    pub insertion: Seq<char>,
}

impl View for SingleLineSuggestion {
    type V = SuggestionV;

    open spec fn view(&self) -> SuggestionV {
        SuggestionV {
            label: self.label@,
            detail: match self.detail {
                Some(d) => Some(d@),
                None => None,
            },
            replacement: (self.replacement.0 as int, self.replacement.1 as int),
            insertion: self.insertion@,
        }
    }
}

/// A token as a mathematical value: key, detail msgid, values.
pub open spec fn help_view(h: TokenHelp) -> (Seq<char>, Seq<char>, Seq<Seq<char>>) {
    (h.key@, h.detail@, h.values@.map_values(|v: String| v@))
}

/// The friendly spelling the parser accepts for a key, and the key it
/// stands for.
pub open spec fn alias_spec() -> (Seq<char>, Seq<char>) {
    ("type:"@, "kind:"@)
}

/// The key a spelling stands for.
pub open spec fn canonical_spec(key: Seq<char>) -> Seq<char> {
    if key == alias_spec().0 {
        alias_spec().1
    } else {
        key
    }
}

/// The number of UTF-8 bytes of a character.
pub open spec fn utf8_width(c: char) -> nat {
    if (c as u32) < 0x80 {
        1
    } else if (c as u32) < 0x800 {
        2
    } else if (c as u32) < 0x10000 {
        3
    } else {
        4
    }
}

/// The number of UTF-8 bytes of a text.
pub open spec fn byte_len(s: Seq<char>) -> nat
    decreases s.len(),
{
    if s.len() == 0 {
        0
    } else {
        byte_len(s.drop_last()) + utf8_width(s.last())
    }
}

/// Index of the last whitespace character of `s`, or -1.
pub open spec fn last_ws(s: Seq<char>) -> int
    decreases s.len(),
{
    if s.len() == 0 {
        -1
    } else if is_ws(s.last()) {
        s.len() - 1
    } else {
        last_ws(s.drop_last())
    }
}

/// Whether `p` is a prefix of `s`.
pub open spec fn starts_with(s: Seq<char>, p: Seq<char>) -> bool {
    p.len() <= s.len() && s.take(p.len() as int) == p
}

/// Index of the first token whose key is `key`, or -1.
pub open spec fn help_index(t: Seq<(Seq<char>, Seq<char>, Seq<Seq<char>>)>, key: Seq<char>) -> int
    decreases t.len(),
{
    if t.len() == 0 {
        -1
    } else {
        let p = help_index(t.drop_last(), key);
        if p >= 0 {
            p
        } else if t.last().0 == key {
            t.len() - 1
        } else {
            -1
        }
    }
}

/// The value suggestions for an accepted key: each value starting with the
/// typed partial value (ignoring case), replacing just that partial.
pub open spec fn value_suggestions(
    values: Seq<Seq<char>>,
    key_lower: Seq<char>,
    partial: Seq<char>,
    value_start: int,
    cursor: int,
) -> Seq<SuggestionV>
    decreases values.len(),
{
    if values.len() == 0 {
        Seq::empty()
    } else {
        let p = value_suggestions(values.drop_last(), key_lower, partial, value_start, cursor);
        let v = values.last();
        if partial.len() == 0 || starts_with(lowercase(v), lowercase(partial)) {
            p.push(
                SuggestionV {
                    label: key_lower + v,
                    detail: None,
                    replacement: (value_start, cursor),
                    insertion: v + seq![' '],
                },
            )
        } else {
            p
        }
    }
}

/// Whether a value is offered for the typed partial value: anything when
/// nothing is typed, else a value beginning with it, ignoring case.
pub open spec fn offered(v: Seq<char>, partial: Seq<char>) -> bool {
    partial.len() == 0 || starts_with(lowercase(v), lowercase(partial))
}

/// The value suggestions are exactly the offered values, each once, in
/// the table's order: every suggestion completes an offered value of the
/// key, replacing the partial value up to the caret, and every offered
/// value is suggested.
pub proof fn lemma_value_suggestions_offered(
    values: Seq<Seq<char>>,
    key_lower: Seq<char>,
    partial: Seq<char>,
    value_start: int,
    cursor: int,
)
    ensures
        ({
            let r = value_suggestions(values, key_lower, partial, value_start, cursor);
            &&& r.len() <= values.len()
            &&& forall|j: int|
                0 <= j < r.len() ==> exists|i: int|
                    0 <= i < values.len() && offered(values[i], partial) && #[trigger] r[j] == (SuggestionV {
                        label: key_lower + values[i],
                        detail: None,
                        replacement: (value_start, cursor),
                        insertion: values[i] + seq![' '],
                    })
            &&& forall|i: int|
                0 <= i < values.len() && #[trigger] offered(values[i], partial) ==> exists|j: int|
                    0 <= j < r.len() && r[j] == (SuggestionV {
                        label: key_lower + values[i],
                        detail: None,
                        replacement: (value_start, cursor),
                        insertion: values[i] + seq![' '],
                    })
        }),
    decreases values.len(),
{
    if values.len() > 0 {
        let d = values.drop_last();
        lemma_value_suggestions_offered(d, key_lower, partial, value_start, cursor);
        let p = value_suggestions(d, key_lower, partial, value_start, cursor);
        let r = value_suggestions(values, key_lower, partial, value_start, cursor);
        let n = values.len() - 1;
        assert forall|j: int| 0 <= j < r.len() implies exists|i: int|
            0 <= i < values.len() && offered(values[i], partial) && #[trigger] r[j] == (SuggestionV {
                label: key_lower + values[i],
                detail: None,
                replacement: (value_start, cursor),
                insertion: values[i] + seq![' '],
            }) by {
            if j < p.len() {
                assert(r[j] == p[j]);
                let i = choose|i: int|
                    0 <= i < d.len() && offered(d[i], partial) && #[trigger] p[j] == (SuggestionV {
                        label: key_lower + d[i],
                        detail: None,
                        replacement: (value_start, cursor),
                        insertion: d[i] + seq![' '],
                    });
                assert(values[i] == d[i]);
            } else {
                assert(values[n] == values.last());
            }
        }
        assert forall|i: int| 0 <= i < values.len() && #[trigger] offered(values[i], partial) implies exists|j: int|
            0 <= j < r.len() && r[j] == (SuggestionV {
                label: key_lower + values[i],
                detail: None,
                replacement: (value_start, cursor),
                insertion: values[i] + seq![' '],
            }) by {
            if i < n {
                assert(values[i] == d[i]);
                assert(offered(d[i], partial));
                let j = choose|j: int|
                    0 <= j < p.len() && p[j] == (SuggestionV {
                        label: key_lower + d[i],
                        detail: None,
                        replacement: (value_start, cursor),
                        insertion: d[i] + seq![' '],
                    });
                assert(r[j] == p[j]);
            } else {
                assert(r[p.len() as int] == r.last());
            }
        }
    }
}

/// The value suggestions do not depend on the case of what was typed.
pub proof fn lemma_value_suggestions_ignore_case(
    values: Seq<Seq<char>>,
    key_lower: Seq<char>,
    typed: Seq<char>,
    other: Seq<char>,
    value_start: int,
    cursor: int,
)
    requires
        lowercase(typed) == lowercase(other),
        (typed.len() == 0) == (other.len() == 0),
    ensures
        value_suggestions(values, key_lower, typed, value_start, cursor) == value_suggestions(
            values,
            key_lower,
            other,
            value_start,
            cursor,
        ),
    decreases values.len(),
{
    if values.len() > 0 {
        lemma_value_suggestions_ignore_case(values.drop_last(), key_lower, typed, other, value_start, cursor);
    }
}

/// The key suggestions: every token whose key starts with `key_prefix`.
pub open spec fn key_suggestions(
    t: Seq<(Seq<char>, Seq<char>, Seq<Seq<char>>)>,
    key_prefix: Seq<char>,
    insertion_prefix: Seq<char>,
    replacement: (int, int),
) -> Seq<SuggestionV>
    decreases t.len(),
{
    if t.len() == 0 {
        Seq::empty()
    } else {
        let p = key_suggestions(t.drop_last(), key_prefix, insertion_prefix, replacement);
        let h = t.last();
        if key_prefix.len() == 0 || starts_with(h.0, key_prefix) {
            p.push(
                SuggestionV { label: h.0, detail: Some(h.1), replacement, insertion: insertion_prefix + h.0 },
            )
        } else {
            p
        }
    }
}

/// What [`single_line_suggestions`] returns for the field `value` with the
/// caret at byte `cursor`, given the token table.
pub open spec fn suggestions_spec(
    value: Seq<char>,
    cursor: int,
    t: Seq<(Seq<char>, Seq<char>, Seq<Seq<char>>)>,
) -> Seq<SuggestionV> {
    let c = if cursor > byte_len(value) { byte_len(value) as int } else { cursor };
    if !(exists|k: int| 0 <= k <= value.len() && byte_len(value.take(k)) == c) {
        Seq::empty()
    } else {
        let k = choose|k: int| 0 <= k <= value.len() && byte_len(value.take(k)) == c;
        let upto = value.take(k);
        let ws = last_ws(upto);
        let ws_start = if ws < 0 { 0 } else { ws + 1 };
        let word = upto.skip(ws_start);
        let word_start = byte_len(upto.take(ws_start)) as int;
        word_suggestions(t, upto.len() > 0, word, word_start, c)
    }
}

/// The suggestions for the word being typed, `word`, starting at byte
/// `word_start`, with the caret at byte `c`; `typed` is whether anything
/// precedes the caret.
pub open spec fn word_suggestions(
    t: Seq<(Seq<char>, Seq<char>, Seq<Seq<char>>)>,
    typed: bool,
    word: Seq<char>,
    word_start: int,
    c: int,
) -> Seq<SuggestionV> {
    let colon = crate::strings::first_index(word, ':');
    if colon >= 0 {
        let key_lower = lowercase(word.take(colon)) + seq![':'];
        let partial = word.skip(colon + 1);
        let hi = help_index(t, canonical_spec(key_lower));
        if hi < 0 {
            Seq::empty()
        } else {
            value_suggestions(t[hi].2, key_lower, partial, word_start + byte_len(word.take(colon + 1)), c)
        }
    } else {
        let word_lower = lowercase(word);
        let matching = (exists|i: int| 0 <= i < t.len() && starts_with(t[i].0, word_lower)) || starts_with(
            alias_spec().0,
            word_lower,
        );
        let append = word.len() > 0 && !matching;
        let trailing_space = word.len() == 0 && typed;
        let replacement = if append || trailing_space { (c, c) } else { (word_start, c) };
        let insertion_prefix = if append { seq![' '] } else { Seq::empty() };
        let key_prefix = if append || trailing_space { Seq::empty() } else { word_lower };
        let canonical = key_suggestions(t, key_prefix, insertion_prefix, replacement);
        let target = help_index(t, alias_spec().1);
        if (key_prefix.len() == 0 || starts_with(alias_spec().0, key_prefix)) && target >= 0 {
            canonical.push(
                SuggestionV {
                    label: alias_spec().0,
                    detail: Some(t[target].1),
                    replacement,
                    insertion: insertion_prefix + alias_spec().0,
                },
            )
        } else {
            canonical
        }
    }
}

fn width(c: char) -> (r: usize)
    ensures
        r == utf8_width(c),
{
    let u = c as u32;
    if u < 0x80 {
        1
    } else if u < 0x800 {
        2
    } else if u < 0x10000 {
        3
    } else {
        4
    }
}

proof fn lemma_byte_len_mono(s: Seq<char>, k: int)
    requires
        0 <= k <= s.len(),
    ensures
        byte_len(s.take(k)) <= byte_len(s),
        byte_len(s) <= 4 * s.len(),
    decreases s.len(),
{
    if s.len() > 0 {
        if k < s.len() {
            lemma_byte_len_mono(s.drop_last(), k);
            assert(s.drop_last().take(k) =~= s.take(k));
        } else {
            assert(s.take(k) =~= s);
            lemma_byte_len_mono(s.drop_last(), 0);
        }
    }
}

proof fn lemma_last_ws(s: Seq<char>)
    ensures
        -1 <= last_ws(s) < s.len(),
    decreases s.len(),
{
    if s.len() > 0 {
        lemma_last_ws(s.drop_last());
    }
}

proof fn lemma_byte_len_concat(a: Seq<char>, b: Seq<char>)
    ensures
        byte_len(a + b) == byte_len(a) + byte_len(b),
    decreases b.len(),
{
    if b.len() > 0 {
        lemma_byte_len_concat(a, b.drop_last());
        assert((a + b).drop_last() =~= a + b.drop_last());
    } else {
        assert(a + b =~= a);
    }
}

proof fn lemma_byte_len_strict(s: Seq<char>, a: int, b: int)
    requires
        0 <= a < b <= s.len(),
    ensures
        byte_len(s.take(a)) < byte_len(s.take(b)),
    decreases b,
{
    assert(s.take(b).drop_last() =~= s.take(b - 1));
    if a < b - 1 {
        lemma_byte_len_strict(s, a, b - 1);
    }
}

/// Starts-with over character sequences.
fn prefix_of(s: &[char], p: &[char]) -> (r: bool)
    ensures
        r == starts_with(s@, p@),
{
    if p.len() > s.len() {
        return false;
    }
    let mut i: usize = 0;
    while i < p.len()
        invariant
            p.len() <= s.len(),
            i <= p.len(),
            forall|q: int| 0 <= q < i ==> s@[q] == p@[q],
        decreases p.len() - i,
    {
        if s[i] != p[i] {
            assert(s@.take(p@.len() as int)[i as int] != p@[i as int]);
            return false;
        }
        i = i + 1;
    }
    assert(s@.take(p@.len() as int) =~= p@);
    true
}

fn lower_chars(s: &[char]) -> (r: Vec<char>)
    ensures
        r@ == lowercase(s@),
{
    let t = string_of(s);
    let l = to_lowercase(t.as_str());
    chars_of(l.as_str())
}

fn find_help(t: &[TokenHelp], key: &[char]) -> (r: Option<usize>)
    ensures
        match r {
            Some(i) => i as int == help_index(t@.map_values(|h: TokenHelp| help_view(h)), key@),
            None => help_index(t@.map_values(|h: TokenHelp| help_view(h)), key@) == -1,
        },
{
    let ghost tv = t@.map_values(|h: TokenHelp| help_view(h));
    let mut i: usize = 0;
    while i < t.len()
        invariant
            i <= t.len(),
            tv == t@.map_values(|h: TokenHelp| help_view(h)),
            help_index(tv.take(i as int), key@) == -1,
        decreases t.len() - i,
    {
        assert(tv.take(i + 1).drop_last() =~= tv.take(i as int));
        let k = chars_of(t[i].key.as_str());
        if crate::strings::chars_eq(&k, key) {
            proof {
                assert(help_index(tv.take(i + 1), key@) == i);
                lemma_help_index_prefix(tv, key@, i + 1);
            }
            return Some(i);
        }
        i = i + 1;
    }
    assert(tv.take(t.len() as int) =~= tv);
    None
}

proof fn lemma_help_index_prefix(t: Seq<(Seq<char>, Seq<char>, Seq<Seq<char>>)>, key: Seq<char>, n: int)
    requires
        0 < n <= t.len(),
        help_index(t.take(n), key) >= 0,
    ensures
        help_index(t, key) == help_index(t.take(n), key),
    decreases t.len() - n,
{
    if n < t.len() {
        assert(t.take(n + 1).drop_last() =~= t.take(n));
        assert(help_index(t.take(n + 1), key) == help_index(t.take(n), key));
        lemma_help_index_prefix(t, key, n + 1);
    } else {
        assert(t.take(n) =~= t);
    }
}

proof fn lemma_help_index_bounds(t: Seq<(Seq<char>, Seq<char>, Seq<Seq<char>>)>, key: Seq<char>)
    ensures
        -1 <= help_index(t, key) < t.len(),
    decreases t.len(),
{
    if t.len() > 0 {
        lemma_help_index_bounds(t.drop_last(), key);
    }
}

/// The caret's character index: the clamped byte offset `c` and the number
/// of characters before it, when `c` falls between characters.
fn locate(chars: &Vec<char>, cursor: usize) -> (r: Option<(usize, usize)>)
    requires
        4 * chars@.len() <= usize::MAX,
    ensures
        ({
            let c = if cursor > byte_len(chars@) { byte_len(chars@) as int } else { cursor as int };
            match r {
                None => !(exists|k: int| 0 <= k <= chars@.len() && byte_len(chars@.take(k)) == c),
                Some((k, cc)) => cc == c && k <= chars@.len() && byte_len(chars@.take(k as int)) == c
                    && forall|q: int| 0 <= q <= chars@.len() && byte_len(chars@.take(q)) == c ==> q == k,
            }
        }),
{
    let n = chars.len();
    let mut total: usize = 0;
    let mut i: usize = 0;
    while i < n
        invariant
            i <= n,
            n == chars@.len(),
            4 * chars@.len() <= usize::MAX,
            total == byte_len(chars@.take(i as int)),
            total <= 4 * i,
        decreases n - i,
    {
        assert(chars@.take(i + 1).drop_last() =~= chars@.take(i as int));
        total = total + width(chars[i]);
        i = i + 1;
    }
    assert(chars@.take(n as int) =~= chars@);
    let c = if cursor > total {
        total
    } else {
        cursor
    };
    let mut k: usize = 0;
    let mut bytes: usize = 0;
    while k < n && bytes < c
        invariant
            k <= n,
            n == chars@.len(),
            bytes == byte_len(chars@.take(k as int)),
            bytes <= total,
            total == byte_len(chars@),
            k > 0 ==> byte_len(chars@.take(k - 1)) < c,
        decreases n - k,
    {
        assert(chars@.take(k + 1).drop_last() =~= chars@.take(k as int));
        proof {
            lemma_byte_len_mono(chars@, k + 1);
        }
        bytes = bytes + width(chars[k]);
        k = k + 1;
    }
    if bytes != c {
        proof {
            assert forall|q: int| 0 <= q <= chars@.len() implies byte_len(chars@.take(q)) != c by {
                if q < k {
                    lemma_byte_len_strict(chars@, q, k as int);
                    if q < k - 1 {
                        lemma_byte_len_strict(chars@, q, k - 1);
                    }
                } else if q > k {
                    lemma_byte_len_strict(chars@, k as int, q);
                }
            }
        }
        return None;
    }
    proof {
        assert forall|q: int| 0 <= q <= chars@.len() && byte_len(chars@.take(q)) == c implies q == k by {
            if q < k {
                lemma_byte_len_strict(chars@, q, k as int);
            } else if q > k {
                lemma_byte_len_strict(chars@, k as int, q);
            }
        }
    }
    Some((k, c))
}

/// Where the word being typed starts: the character index after the last
/// whitespace before the caret, and its byte offset.
fn word_bounds(upto: &[char]) -> (r: (usize, usize))
    requires
        4 * upto@.len() <= usize::MAX,
    ensures
        r.0 as int == (if last_ws(upto@) < 0 { 0 } else { last_ws(upto@) + 1 }),
        r.1 == byte_len(upto@.take(r.0 as int)),
        r.1 + byte_len(upto@.skip(r.0 as int)) == byte_len(upto@),
{
    let k = upto.len();
    let mut j: usize = k;
    assert(upto@.take(k as int) =~= upto@);
    while j > 0 && !is_whitespace(upto[j - 1])
        invariant
            j <= k,
            k == upto@.len(),
            last_ws(upto@) == last_ws(upto@.take(j as int)),
        decreases j,
    {
        assert(upto@.take(j as int).drop_last() =~= upto@.take(j - 1));
        assert(upto@.take(j as int).last() == upto@[j - 1]);
        j = j - 1;
    }
    assert(j == if last_ws(upto@) < 0 { 0 } else { last_ws(upto@) + 1 }) by {
        if j == 0 {
            assert(upto@.take(0) =~= Seq::<char>::empty());
        } else {
            assert(upto@.take(j as int).last() == upto@[j - 1]);
        }
    }
    let mut word_start: usize = 0;
    let mut q: usize = 0;
    proof {
        lemma_byte_len_mono(upto@, j as int);
    }
    while q < j
        invariant
            q <= j,
            j <= k,
            k == upto@.len(),
            4 * upto@.len() <= usize::MAX,
            word_start == byte_len(upto@.take(q as int)),
            word_start <= 4 * q,
        decreases j - q,
    {
        assert(upto@.take(q + 1).drop_last() =~= upto@.take(q as int));
        word_start = word_start + width(upto[q]);
        q = q + 1;
    }
    proof {
        lemma_byte_len_concat(upto@.take(j as int), upto@.skip(j as int));
        assert(upto@.take(j as int) + upto@.skip(j as int) =~= upto@);
    }
    (j, word_start)
}

/// The suggestions for the values of the token at `hi`.
fn values_of(
    table: &[TokenHelp],
    hi: usize,
    key_lower: &String,
    partial: &[char],
    value_start: usize,
    c: usize,
) -> (r: Vec<SingleLineSuggestion>)
    requires
        hi < table@.len(),
    ensures
        r@.map_values(|s: SingleLineSuggestion| s@) == value_suggestions(
            help_view(table@[hi as int]).2,
            key_lower@,
            partial@,
            value_start as int,
            c as int,
        ),
{
    let partial_lower = lower_chars(partial);
    let values = &table[hi].values;
    let ghost vv = values@.map_values(|v: String| v@);
    let mut out: Vec<SingleLineSuggestion> = Vec::new();
    let mut x: usize = 0;
    while x < values.len()
        invariant
            x <= values.len(),
            vv == values@.map_values(|v: String| v@),
            out@.map_values(|s: SingleLineSuggestion| s@) == value_suggestions(
                vv.take(x as int),
                key_lower@,
                partial@,
                value_start as int,
                c as int,
            ),
            partial_lower@ == lowercase(partial@),
        decreases values.len() - x,
    {
        assert(vv.take(x + 1).drop_last() =~= vv.take(x as int));
        assert(vv.take(x + 1).last() == values@[x as int]@);
        let vc = chars_of(values[x].as_str());
        let keep = partial.len() == 0 || {
            let vl = lower_chars(&vc);
            prefix_of(&vl, &partial_lower)
        };
        if keep {
            let mut label = key_lower.clone();
            label.append(values[x].as_str());
            let mut ins = values[x].clone();
            crate::strings::push_char(&mut ins, ' ');
            let s = SingleLineSuggestion { label, detail: None, replacement: (value_start, c), insertion: ins };
            assert(s@.label == key_lower@ + vv[x as int]);
            assert(s@.insertion == vv[x as int] + seq![' ']);
            assert(s@.detail is None);
            let ghost ob = out@.map_values(|s: SingleLineSuggestion| s@);
            out.push(s);
            assert(out@.map_values(|s: SingleLineSuggestion| s@) =~= ob.push(out@.last()@));
        }
        x = x + 1;
    }
    assert(vv.take(values.len() as int) =~= vv);
    out
}

/// The key suggestions, then the alias's when it matches too.
fn keys_of(
    table: &[TokenHelp],
    key_prefix: &Vec<char>,
    ins_prefix: &Vec<char>,
    replacement: (usize, usize),
) -> (r: Vec<SingleLineSuggestion>)
    ensures
        ({
            let tv = table@.map_values(|h: TokenHelp| help_view(h));
            let rep = (replacement.0 as int, replacement.1 as int);
            let canonical = key_suggestions(tv, key_prefix@, ins_prefix@, rep);
            let target = help_index(tv, alias_spec().1);
            r@.map_values(|s: SingleLineSuggestion| s@) == if (key_prefix@.len() == 0 || starts_with(
                alias_spec().0,
                key_prefix@,
            )) && target >= 0 {
                canonical.push(
                    SuggestionV {
                        label: alias_spec().0,
                        detail: Some(tv[target].1),
                        replacement: rep,
                        insertion: ins_prefix@ + alias_spec().0,
                    },
                )
            } else {
                canonical
            }
        }),
{
    let ghost tv = table@.map_values(|h: TokenHelp| help_view(h));
    let ghost rep = (replacement.0 as int, replacement.1 as int);
    let mut out: Vec<SingleLineSuggestion> = Vec::new();
    let mut z: usize = 0;
    while z < table.len()
        invariant
            z <= table.len(),
            tv == table@.map_values(|h: TokenHelp| help_view(h)),
            rep == (replacement.0 as int, replacement.1 as int),
            out@.map_values(|s: SingleLineSuggestion| s@) == key_suggestions(tv.take(z as int), key_prefix@, ins_prefix@, rep),
        decreases table.len() - z,
    {
        assert(tv.take(z + 1).drop_last() =~= tv.take(z as int));
        assert(tv.take(z + 1).last() == tv[z as int]);
        let kc = chars_of(table[z].key.as_str());
        assert(kc@ == tv[z as int].0);
        if key_prefix.len() == 0 || prefix_of(&kc, key_prefix) {
            let mut ins = string_of(ins_prefix);
            ins.append(table[z].key.as_str());
            let s = SingleLineSuggestion {
                label: table[z].key.clone(),
                detail: Some(table[z].detail.clone()),
                replacement,
                insertion: ins,
            };
            let ghost ob = out@.map_values(|s: SingleLineSuggestion| s@);
            out.push(s);
            assert(out@.map_values(|s: SingleLineSuggestion| s@) =~= ob.push(out@.last()@));
        }
        z = z + 1;
    }
    assert(tv.take(table.len() as int) =~= tv);
    let alias = chars_of("type:");
    if key_prefix.len() == 0 || prefix_of(&alias, key_prefix) {
        let target = chars_of("kind:");
        proof {
            lemma_help_index_bounds(tv, target@);
        }
        match find_help(table, &target) {
            Some(t) => {
                let mut ins = string_of(ins_prefix);
                ins.append("type:");
                let s = SingleLineSuggestion {
                    label: String::from_str("type:"),
                    detail: Some(table[t].detail.clone()),
                    replacement,
                    insertion: ins,
                };
                let ghost ob = out@.map_values(|s: SingleLineSuggestion| s@);
                out.push(s);
                assert(out@.map_values(|s: SingleLineSuggestion| s@) =~= ob.push(out@.last()@));
            },
            None => {},
        }
    }
    out
}

/// Suggestions for the toolbar's filter field `value` with the caret at
/// byte `cursor`, from the token table `table`. A caret inside a character
/// gets none.
pub fn single_line_suggestions(value: &str, cursor: usize, table: &[TokenHelp]) -> (r: Vec<SingleLineSuggestion>)
    requires
        4 * value@.len() <= usize::MAX,
    ensures
        r@.map_values(|s: SingleLineSuggestion| s@) == suggestions_spec(
            value@,
            cursor as int,
            table@.map_values(|h: TokenHelp| help_view(h)),
        ),
{
    let ghost tv = table@.map_values(|h: TokenHelp| help_view(h));
    let chars = chars_of(value);
    let (k, c) = match locate(&chars, cursor) {
        None => return Vec::new(),
        Some(p) => p,
    };
    let upto = crate::strings::slice_to_vec(&chars, 0, k);
    assert(upto@ =~= value@.take(k as int));
    assert(upto@.len() <= value@.len());
    proof {
        lemma_last_ws(upto@);
        assert(byte_len(value@.take(k as int)) == c);
        let kk = choose|q: int| 0 <= q <= value@.len() && byte_len(value@.take(q)) == c;
        assert(kk == k);
    }
    let (ws_start, word_start) = word_bounds(&upto);
    let word = crate::strings::slice_to_vec(&upto, ws_start, k);
    assert(word@ =~= upto@.skip(ws_start as int));
    proof {
        crate::strings::lemma_first_index(word@, ':');
    }
    suggest_for_word(table, k > 0, &word, word_start, c)
}

fn suggest_for_word(table: &[TokenHelp], typed: bool, word: &Vec<char>, word_start: usize, c: usize) -> (r: Vec<
    SingleLineSuggestion,
>)
    requires
        word_start + byte_len(word@) <= c,
    ensures
        r@.map_values(|s: SingleLineSuggestion| s@) == word_suggestions(
            table@.map_values(|h: TokenHelp| help_view(h)),
            typed,
            word@,
            word_start as int,
            c as int,
        ),
{
    let ghost tv = table@.map_values(|h: TokenHelp| help_view(h));
    proof {
        crate::strings::lemma_first_index(word@, ':');
    }
    let wn = word.len();
    match crate::strings::find_char(word, ':') {
        Some(colon) => {
            assert(colon < wn);
            let key = crate::strings::slice_to_vec(word, 0, colon);
            let partial = crate::strings::slice_to_vec(word, colon + 1, word.len());
            assert(key@ =~= word@.take(colon as int));
            assert(partial@ =~= word@.skip(colon + 1));
            let mut key_lower = lower_chars(&key);
            key_lower.push(':');
            let key_lower_str = string_of(&key_lower);
            let alias = chars_of("type:");
            let lookup = if crate::strings::chars_eq(&key_lower, &alias) {
                chars_of("kind:")
            } else {
                chars_of(key_lower_str.as_str())
            };
            assert(colon as int == crate::strings::first_index(word@, ':'));
            assert(key_lower@ == lowercase(word@.take(colon as int)) + seq![':']);
            assert(lookup@ == canonical_spec(key_lower@));
            let hi = match find_help(table, &lookup) {
                Some(h) => h,
                None => {
                    let r: Vec<SingleLineSuggestion> = Vec::new();
                    assert(r@.map_values(|s: SingleLineSuggestion| s@) =~= Seq::<SuggestionV>::empty());
                    return r;
                },
            };
            proof {
                lemma_help_index_bounds(tv, lookup@);
                lemma_byte_len_mono(word@, colon + 1);
            }
            let head = crate::strings::slice_to_vec(word, 0, colon + 1);
            assert(head@ =~= word@.take(colon + 1));
            let mut value_start = word_start;
            let mut w: usize = 0;
            while w < head.len()
                invariant
                    w <= head@.len(),
                    value_start == word_start + byte_len(head@.take(w as int)),
                    word_start + byte_len(head@) <= c,
                decreases head.len() - w,
            {
                assert(head@.take(w + 1).drop_last() =~= head@.take(w as int));
                assert(head@.take(w + 1).last() == head@[w as int]);
                proof {
                    lemma_byte_len_mono(head@, w + 1);
                }
                value_start = value_start + width(head[w]);
                w = w + 1;
            }
            assert(head@.take(head@.len() as int) =~= head@);
            assert(tv[hi as int] == help_view(table@[hi as int]));
            assert(colon as int == crate::strings::first_index(word@, ':'));
            assert(key_lower@ == lowercase(word@.take(colon as int)) + seq![':']);
            assert(hi as int == help_index(tv, canonical_spec(key_lower@)));
            assert(value_start == word_start + byte_len(word@.take(colon + 1)));
            let r = values_of(table, hi, &key_lower_str, &partial, value_start, c);
            assert(r@.map_values(|s: SingleLineSuggestion| s@) == word_suggestions(tv, typed, word@, word_start as int, c as int));
            r
        },
        None => {
            let word_lower = lower_chars(word);
            let mut matching = false;
            let mut y: usize = 0;
            while y < table.len()
                invariant
                    y <= table.len(),
                    tv == table@.map_values(|h: TokenHelp| help_view(h)),
                    matching == exists|i: int| 0 <= i < y && starts_with(tv[i].0, word_lower@),
                decreases table.len() - y,
            {
                let kc = chars_of(table[y].key.as_str());
                assert(kc@ == tv[y as int].0);
                if prefix_of(&kc, &word_lower) {
                    matching = true;
                }
                y = y + 1;
            }
            let alias = chars_of("type:");
            if prefix_of(&alias, &word_lower) {
                matching = true;
            }
            let append = word.len() > 0 && !matching;
            let trailing = word.len() == 0 && typed;
            let replacement: (usize, usize) = if append || trailing {
                (c, c)
            } else {
                (word_start, c)
            };
            let key_prefix: Vec<char> = if append || trailing {
                Vec::new()
            } else {
                lower_chars(word)
            };
            let ins_prefix: Vec<char> = if append {
                vec![' ']
            } else {
                Vec::new()
            };
            assert(ins_prefix@ =~= if append { seq![' '] } else { Seq::<char>::empty() });
            assert(crate::strings::first_index(word@, ':') < 0);
            assert(tv.len() == table@.len());
            assert(matching == ((exists|i: int| 0 <= i < tv.len() && starts_with(tv[i].0, word_lower@)) || starts_with(
                alias_spec().0,
                word_lower@,
            )));
            let r = keys_of(table, &key_prefix, &ins_prefix, replacement);
            assert(r@.map_values(|s: SingleLineSuggestion| s@) == word_suggestions(tv, typed, word@, word_start as int, c as int));
            r
        },
    }
}

} // verus!
