//! The language registry: installed packs, the user's selection, and how a
//! selection resolves to a pack. Loading and parsing packs, the folders they
//! live in and the catalog itself stay with the caller.

use vstd::prelude::*;

use crate::file_list::sort::{order_seq, sort_by_two_texts, then};
use crate::strings::{
    chars_eq_str, chars_of, decimal, join_seq, lowercase, push_char, push_decimal, split, split_seq,
    string_of, to_lowercase, trim, trim_seq,
};

verus! {

/// Selection value meaning "follow the OS language".
pub const SYSTEM: &'static str = "system";
/// Selection value and code of the built-in source language.
pub const ENGLISH: &'static str = "en";

/// Where an installed language comes from.
#[derive(Clone, Copy, Debug, PartialEq, Eq, Structural)]
pub enum Origin {
    /// Compiled into the binary.
    Bundled,
    /// A file in the user's languages folder.
    User,
}

/// One installed language, as listed in Settings.
#[derive(Debug)]
pub struct LanguageInfo {
    pub code: String,
    /// The language's own name; falls back to the code.
    pub name: String,
    pub english_name: String,
    pub translated: usize,
    pub total: usize,
    pub origin: Origin,
    /// The file, for user packs.
    pub path: Option<String>,
}

/// The label of a language: its name and, when it has strings at all, the
/// share of them translated, rounded down: `Français (87 %)`.
pub open spec fn label_spec(name: Seq<char>, translated: nat, total: nat) -> Seq<char> {
    if total == 0 {
        name
    } else {
        name + seq![' ', '('] + decimal((translated * 100) / total) + seq![' ', '%', ')']
    }
}

/// Whether two infos hold the same values.
pub open spec fn same_info(a: LanguageInfo, b: LanguageInfo) -> bool {
    &&& a.code@ == b.code@
    &&& a.name@ == b.name@
    &&& a.english_name@ == b.english_name@
    &&& a.translated == b.translated
    &&& a.total == b.total
    &&& a.origin == b.origin
    &&& match (a.path, b.path) {
        (None, None) => true,
        (Some(x), Some(y)) => x@ == y@,
        _ => false,
    }
}

impl LanguageInfo {
    /// The registry entry of a parsed pack: its code and names, its coverage
    /// `(translated, total)`, where it came from, and its file for a user
    /// pack. A blank name falls back to the code.
    pub fn from_pack(
        code: &str,
        name: &str,
        english_name: &str,
        coverage: (usize, usize),
        origin: Origin,
        path: Option<&str>,
    ) -> (r: LanguageInfo)
        ensures
            r.code@ == code@,
            r.name@ == if trim_seq(name@).len() == 0 { code@ } else { name@ },
            r.english_name@ == english_name@,
            r.translated == coverage.0,
            r.total == coverage.1,
            r.origin == origin,
            match path {
                None => r.path is None,
                Some(p) => r.path matches Some(q) && q@ == p@,
            },
    {
        let nv = chars_of(name);
        let blank = trim(&nv).len() == 0;
        LanguageInfo {
            code: String::from_str(code),
            name: if blank {
                String::from_str(code)
            } else {
                String::from_str(name)
            },
            english_name: String::from_str(english_name),
            translated: coverage.0,
            total: coverage.1,
            origin,
            path: match path {
                Some(p) => Some(String::from_str(p)),
                None => None,
            },
        }
    }

    /// A copy of this entry.
    pub fn duplicate(&self) -> (r: LanguageInfo)
        ensures
            same_info(r, *self),
    {
        LanguageInfo {
            code: self.code.clone(),
            name: self.name.clone(),
            english_name: self.english_name.clone(),
            translated: self.translated,
            total: self.total,
            origin: self.origin,
            path: match &self.path {
                Some(p) => Some(p.clone()),
                None => None,
            },
        }
    }

    /// `Français (87 %)`.
    pub fn label(&self) -> (r: String)
        requires
            self.translated * 100 <= usize::MAX,
        ensures
            r@ == label_spec(self.name@, self.translated as nat, self.total as nat),
    {
        if self.total == 0 {
            return self.name.clone();
        }
        let pct = (self.translated * 100) / self.total;
        let mut r = self.name.clone();
        push_char(&mut r, ' ');
        push_char(&mut r, '(');
        push_decimal(&mut r, pct as u64);
        push_char(&mut r, ' ');
        push_char(&mut r, '%');
        push_char(&mut r, ')');
        assert(r@ =~= label_spec(self.name@, self.translated as nat, self.total as nat));
        r
    }
}

/// Language state read by the settings page.
#[derive(Debug)]
pub struct Languages {
    /// Installed packs, one per code.
    pub packs: Vec<LanguageInfo>,
    /// What the user chose: [`SYSTEM`], [`ENGLISH`], or a pack code.
    pub selection: String,
    /// Code of the catalog currently installed (`en` when nothing is).
    pub active: String,
    /// The OS UI language, probed once at boot.
    pub system_locale: Option<String>,
    /// Bumped on every (re)load so a slow load cannot overwrite a newer
    /// choice.
    pub generation: u64,
}

impl Languages {
    /// The registry before any pack was scanned: following the OS
    /// language, with English active.
    pub fn new() -> (r: Languages)
        ensures
            r.packs@.len() == 0,
            r.selection@ == SYSTEM@,
            r.active@ == ENGLISH@,
            r.system_locale is None,
            r.generation == 0,
    {
        Languages {
            packs: Vec::new(),
            selection: String::from_str(SYSTEM),
            active: String::from_str(ENGLISH),
            system_locale: None,
            generation: 0,
        }
    }

    /// Start a new load; loads from earlier generations are then stale.
    pub fn next_generation(&mut self) -> (r: u64)
        requires
            old(self).generation < u64::MAX,
        ensures
            r == old(self).generation + 1,
            final(self).generation == r,
            final(self).packs == old(self).packs,
            final(self).selection == old(self).selection,
            final(self).active == old(self).active,
            final(self).system_locale == old(self).system_locale,
    {
        self.generation = self.generation + 1;
        self.generation
    }

    /// Whether a load started at `generation` is still the latest.
    pub fn is_current(&self, generation: u64) -> (r: bool)
        ensures
            r == (self.generation == generation),
    {
        self.generation == generation
    }
}

/// `c` in ASCII lower case.
pub open spec fn ascii_lower(c: char) -> char {
    if 'A' <= c && c <= 'Z' {
        ((c as u32) + 32) as char
    } else {
        c
    }
}

/// Whether two strings are equal ignoring ASCII case.
pub open spec fn eq_ci(a: Seq<char>, b: Seq<char>) -> bool {
    a.len() == b.len() && forall|i: int| 0 <= i < a.len() ==> ascii_lower(#[trigger] a[i]) == ascii_lower(b[i])
}

pub(crate) fn lower_char(c: char) -> (r: char)
    ensures
        r == ascii_lower(c),
{
    if 'A' <= c && c <= 'Z' {
        let b = c as u8;
        let l = (b + 32) as char;
        assert(l == ((c as u32) + 32) as char);
        l
    } else {
        c
    }
}

/// Whether two strings are equal ignoring ASCII case.
pub fn eq_ignore_ascii_case(a: &[char], b: &[char]) -> (r: bool)
    ensures
        r == eq_ci(a@, b@),
{
    if a.len() != b.len() {
        return false;
    }
    let mut i: usize = 0;
    while i < a.len()
        invariant
            a.len() == b.len(),
            i <= a.len(),
            forall|k: int| 0 <= k < i ==> ascii_lower(#[trigger] a@[k]) == ascii_lower(b@[k]),
        decreases a.len() - i,
    {
        if lower_char(a[i]) != lower_char(b[i]) {
            return false;
        }
        i = i + 1;
    }
    true
}

/// Index of the first code equal to `c` ignoring ASCII case, or -1.
pub open spec fn find_ci(codes: Seq<Seq<char>>, c: Seq<char>) -> int
    decreases codes.len(),
{
    if codes.len() == 0 {
        -1
    } else {
        let p = find_ci(codes.drop_last(), c);
        if p >= 0 {
            p
        } else if eq_ci(codes.last(), c) {
            codes.len() - 1
        } else {
            -1
        }
    }
}

/// Index of the first code exactly `c`, or -1.
pub open spec fn find_exact(codes: Seq<Seq<char>>, c: Seq<char>) -> int
    decreases codes.len(),
{
    if codes.len() == 0 {
        -1
    } else {
        let p = find_exact(codes.drop_last(), c);
        if p >= 0 {
            p
        } else if codes.last() == c {
            codes.len() - 1
        } else {
            -1
        }
    }
}

/// The longest prefix of the locale's subtags, `n` of them or fewer, that
/// some code equals ignoring case.
pub open spec fn prefix_match(parts: Seq<Seq<char>>, codes: Seq<Seq<char>>, n: nat) -> int
    decreases n,
{
    if n == 0 {
        -1
    } else {
        let k = find_ci(codes, join_seq(parts.take(n as int), seq!['-']));
        if k >= 0 {
            k
        } else {
            prefix_match(parts, codes, (n - 1) as nat)
        }
    }
}

/// Which pack a selection resolves to, as an index into the packs, or -1
/// for the built-in English: English itself; for the system language, the
/// longest prefix of its subtags naming a pack (`_` read as `-`), else the
/// first pack in the same language; otherwise the pack with that exact
/// code. `locale_subtag` is the language subtag of the system locale and
/// `pack_subtags` those of the pack codes.
pub open spec fn resolve_spec(
    selection: Seq<char>,
    codes: Seq<Seq<char>>,
    system_locale: Option<Seq<char>>,
    locale_subtag: Seq<char>,
    pack_subtags: Seq<Seq<char>>,
) -> int {
    if selection == ENGLISH@ {
        -1
    } else if selection == SYSTEM@ {
        match system_locale {
            None => -1,
            Some(l) => {
                let tag = dash_tag(l);
                let parts = split_seq(tag, '-');
                let k = prefix_match(parts, codes, parts.len());
                if k >= 0 {
                    k
                } else {
                    find_ci(pack_subtags, locale_subtag)
                }
            },
        }
    } else {
        find_exact(codes, selection)
    }
}

/// A locale tag with `_` read as `-`.
pub open spec fn dash_tag(l: Seq<char>) -> Seq<char> {
    l.map_values(|c: char| if c == '_' { '-' } else { c })
}

/// A locale tag's first `m` subtags joined with `-`.
pub open spec fn tag_prefix(parts: Seq<Seq<char>>, m: int) -> Seq<char> {
    join_seq(parts.take(m), seq!['-'])
}

/// Whether some code equals, ignoring ASCII case, the locale tag's first
/// `m` subtags.
pub open spec fn prefix_names_a_pack(parts: Seq<Seq<char>>, codes: Seq<Seq<char>>, m: int) -> bool {
    exists|j: int| 0 <= j < codes.len() && #[trigger] eq_ci(codes[j], tag_prefix(parts, m))
}

proof fn lemma_find_ci_meaning(codes: Seq<Seq<char>>, c: Seq<char>)
    ensures
        find_ci(codes, c) >= 0 ==> find_ci(codes, c) < codes.len() && eq_ci(codes[find_ci(codes, c)], c),
        find_ci(codes, c) < 0 ==> forall|j: int| 0 <= j < codes.len() ==> !#[trigger] eq_ci(codes[j], c),
    decreases codes.len(),
{
    if codes.len() > 0 {
        let d = codes.drop_last();
        lemma_find_ci_meaning(d, c);
        lemma_find_ci_bounds(d, c);
        if find_ci(codes, c) < 0 {
            assert forall|j: int| 0 <= j < codes.len() implies !#[trigger] eq_ci(codes[j], c) by {
                if j < d.len() {
                    assert(codes[j] == d[j]);
                }
            }
        } else if find_ci(d, c) >= 0 {
            assert(codes[find_ci(d, c)] == d[find_ci(d, c)]);
        }
    }
}

proof fn lemma_prefix_match_longest(parts: Seq<Seq<char>>, codes: Seq<Seq<char>>, n: nat)
    ensures
        prefix_match(parts, codes, n) >= 0 ==> exists|m: int|
            1 <= m <= n && eq_ci(codes[prefix_match(parts, codes, n)], tag_prefix(parts, m)) && forall|m2: int|
                m < m2 <= n ==> !#[trigger] prefix_names_a_pack(parts, codes, m2),
        prefix_match(parts, codes, n) < 0 ==> forall|m: int| 1 <= m <= n ==> !#[trigger] prefix_names_a_pack(parts, codes, m),
    decreases n,
{
    if n > 0 {
        lemma_prefix_match_longest(parts, codes, (n - 1) as nat);
        let c = tag_prefix(parts, n as int);
        lemma_find_ci_meaning(codes, c);
        let k = find_ci(codes, c);
        if k >= 0 {
            assert(eq_ci(codes[prefix_match(parts, codes, n)], tag_prefix(parts, n as int)));
        } else {
            assert(!prefix_names_a_pack(parts, codes, n as int));
            let pm = prefix_match(parts, codes, n);
            if pm >= 0 {
                let m = choose|m: int|
                    1 <= m <= n - 1 && eq_ci(codes[pm], tag_prefix(parts, m)) && forall|m2: int|
                        m < m2 <= n - 1 ==> !#[trigger] prefix_names_a_pack(parts, codes, m2);
                assert forall|m2: int| m < m2 <= n implies !#[trigger] prefix_names_a_pack(parts, codes, m2) by {
                    if m2 < n {
                    }
                }
            }
        }
    }
}

/// Following the system language: when some pack's code equals, ignoring
/// ASCII case, a leading run of the locale's subtags (`_` read as `-`),
/// the pack chosen matches such a run, and no longer run names any pack;
/// only when no run names a pack does the language subtag decide, and
/// then the pack chosen shares the locale's language subtag, and none is
/// chosen only when no pack does.
pub proof fn lemma_system_locale_longest_match(
    codes: Seq<Seq<char>>,
    locale: Seq<char>,
    locale_subtag: Seq<char>,
    pack_subtags: Seq<Seq<char>>,
)
    ensures
        ({
            let parts = split_seq(dash_tag(locale), '-');
            let k = resolve_spec(SYSTEM@, codes, Some(locale), locale_subtag, pack_subtags);
            &&& (exists|m: int| 1 <= m <= parts.len() && #[trigger] prefix_names_a_pack(parts, codes, m)) ==> {
                &&& 0 <= k < codes.len()
                &&& exists|m: int|
                    1 <= m <= parts.len() && eq_ci(codes[k], tag_prefix(parts, m)) && forall|m2: int|
                        m < m2 <= parts.len() ==> !#[trigger] prefix_names_a_pack(parts, codes, m2)
            }
            &&& !(exists|m: int| 1 <= m <= parts.len() && #[trigger] prefix_names_a_pack(parts, codes, m)) ==> {
                &&& k >= 0 ==> k < pack_subtags.len() && eq_ci(pack_subtags[k], locale_subtag)
                &&& k < 0 ==> forall|j: int| 0 <= j < pack_subtags.len() ==> !#[trigger] eq_ci(pack_subtags[j], locale_subtag)
            }
        }),
{
    reveal_strlit("system");
    reveal_strlit("en");
    assert(SYSTEM@ != ENGLISH@) by {
        assert(SYSTEM@.len() != ENGLISH@.len());
    }
    let parts = split_seq(dash_tag(locale), '-');
    lemma_prefix_match_longest(parts, codes, parts.len());
    lemma_prefix_bounds(parts, codes, parts.len());
    lemma_find_ci_meaning(pack_subtags, locale_subtag);
    if exists|m: int| 1 <= m <= parts.len() && #[trigger] prefix_names_a_pack(parts, codes, m) {
        let m = choose|m: int| 1 <= m <= parts.len() && #[trigger] prefix_names_a_pack(parts, codes, m);
        assert(prefix_match(parts, codes, parts.len()) >= 0);
    } else {
        let pm = prefix_match(parts, codes, parts.len());
        if pm >= 0 {
            let m = choose|m: int|
                1 <= m <= parts.len() && eq_ci(codes[pm], tag_prefix(parts, m)) && forall|m2: int|
                    m < m2 <= parts.len() ==> !#[trigger] prefix_names_a_pack(parts, codes, m2);
            assert(prefix_names_a_pack(parts, codes, m));
        }
    }
}

proof fn lemma_find_exact_meaning(codes: Seq<Seq<char>>, c: Seq<char>)
    ensures
        find_exact(codes, c) >= 0 ==> find_exact(codes, c) < codes.len() && codes[find_exact(codes, c)] == c,
        find_exact(codes, c) < 0 ==> forall|j: int| 0 <= j < codes.len() ==> #[trigger] codes[j] != c,
    decreases codes.len(),
{
    if codes.len() > 0 {
        let d = codes.drop_last();
        lemma_find_exact_meaning(d, c);
        lemma_find_exact_bounds(d, c);
        if find_exact(codes, c) < 0 {
            assert forall|j: int| 0 <= j < codes.len() implies #[trigger] codes[j] != c by {
                if j < d.len() {
                    assert(codes[j] == d[j]);
                }
            }
        } else if find_exact(d, c) >= 0 {
            assert(codes[find_exact(d, c)] == d[find_exact(d, c)]);
        }
    }
}

/// English selects the built-in language; any other selection but the
/// system language selects the pack whose code is exactly the selection,
/// and the built-in language only when no pack has that code.
pub proof fn lemma_named_selection(
    selection: Seq<char>,
    codes: Seq<Seq<char>>,
    system_locale: Option<Seq<char>>,
    locale_subtag: Seq<char>,
    pack_subtags: Seq<Seq<char>>,
)
    ensures
        ({
            let k = resolve_spec(selection, codes, system_locale, locale_subtag, pack_subtags);
            &&& selection == ENGLISH@ ==> k == -1
            &&& selection != ENGLISH@ && selection != SYSTEM@ ==> {
                &&& k >= 0 ==> k < codes.len() && codes[k] == selection
                &&& k < 0 ==> forall|j: int| 0 <= j < codes.len() ==> #[trigger] codes[j] != selection
            }
        }),
{
    lemma_find_exact_meaning(codes, selection);
}

/// The codes of the packs.
pub open spec fn codes_of(packs: Seq<LanguageInfo>) -> Seq<Seq<char>> {
    packs.map_values(|p: LanguageInfo| p.code@)
}

proof fn lemma_find_ci_bounds(codes: Seq<Seq<char>>, c: Seq<char>)
    ensures
        -1 <= find_ci(codes, c) < codes.len(),
    decreases codes.len(),
{
    if codes.len() > 0 {
        lemma_find_ci_bounds(codes.drop_last(), c);
    }
}

proof fn lemma_find_exact_bounds(codes: Seq<Seq<char>>, c: Seq<char>)
    ensures
        -1 <= find_exact(codes, c) < codes.len(),
    decreases codes.len(),
{
    if codes.len() > 0 {
        lemma_find_exact_bounds(codes.drop_last(), c);
    }
}

proof fn lemma_prefix_bounds(parts: Seq<Seq<char>>, codes: Seq<Seq<char>>, n: nat)
    ensures
        -1 <= prefix_match(parts, codes, n) < codes.len(),
    decreases n,
{
    if n > 0 {
        lemma_find_ci_bounds(codes, join_seq(parts.take(n as int), seq!['-']));
        lemma_prefix_bounds(parts, codes, (n - 1) as nat);
    }
}

fn find_ci_in(codes: &Vec<Vec<char>>, c: &[char]) -> (r: i64)
    requires
        codes@.len() < i64::MAX,
    ensures
        r == find_ci(codes@.map_values(|v: Vec<char>| v@), c@),
{
    let ghost cv = codes@.map_values(|v: Vec<char>| v@);
    let mut i: usize = 0;
    while i < codes.len()
        invariant
            i <= codes.len(),
            codes@.len() < i64::MAX,
            cv == codes@.map_values(|v: Vec<char>| v@),
            find_ci(cv.take(i as int), c@) == -1,
        decreases codes.len() - i,
    {
        assert(cv.take(i + 1).drop_last() =~= cv.take(i as int));
        assert(cv[i as int] == codes@[i as int]@);
        if eq_ignore_ascii_case(&codes[i], c) {
            proof {
                assert(find_ci(cv.take(i + 1), c@) == i);
                lemma_find_ci_prefix(cv, c@, i + 1);
            }
            return i as i64;
        }
        i = i + 1;
    }
    assert(cv.take(codes.len() as int) =~= cv);
    -1
}

proof fn lemma_find_ci_prefix(codes: Seq<Seq<char>>, c: Seq<char>, n: int)
    requires
        0 < n <= codes.len(),
        find_ci(codes.take(n), c) >= 0,
    ensures
        find_ci(codes, c) == find_ci(codes.take(n), c),
    decreases codes.len() - n,
{
    if n < codes.len() {
        assert(codes.take(n + 1).drop_last() =~= codes.take(n));
        assert(find_ci(codes.take(n + 1), c) == find_ci(codes.take(n), c));
        lemma_find_ci_prefix(codes, c, n + 1);
    } else {
        assert(codes.take(n) =~= codes);
    }
}

/// Resolve a selection against the installed packs: `None` is the built-in
/// English. `locale_subtag` is the language subtag of the system locale and
/// `pack_subtags` those of the packs' codes, one per pack.
pub fn resolve(
    selection: &str,
    packs: &[LanguageInfo],
    system_locale: Option<&str>,
    locale_subtag: &str,
    pack_subtags: &[String],
) -> (r: Option<LanguageInfo>)
    requires
        pack_subtags@.len() == packs@.len(),
        packs@.len() < i64::MAX,
    ensures
        ({
            let k = resolve_spec(
                selection@,
                codes_of(packs@),
                match system_locale {
                    Some(l) => Some(l@),
                    None => None,
                },
                locale_subtag@,
                crate::strings::strs_view(pack_subtags@),
            );
            &&& -1 <= k < packs@.len()
            &&& k < 0 ==> r is None
            &&& k >= 0 ==> (r matches Some(info) && same_info(info, packs@[k]))
        }),
{
    let ghost codes = codes_of(packs@);
    let ghost sk = resolve_spec(
        selection@,
        codes_of(packs@),
        match system_locale {
            Some(l) => Some(l@),
            None => None,
        },
        locale_subtag@,
        crate::strings::strs_view(pack_subtags@),
    );
    let sel = chars_of(selection);
    let mut code_chars: Vec<Vec<char>> = Vec::new();
    let mut i: usize = 0;
    while i < packs.len()
        invariant
            i <= packs.len(),
            codes == codes_of(packs@),
            code_chars@.map_values(|v: Vec<char>| v@) == codes.take(i as int),
        decreases packs.len() - i,
    {
        let ghost before = code_chars@.map_values(|v: Vec<char>| v@);
        code_chars.push(chars_of(packs[i].code.as_str()));
        assert(code_chars@.map_values(|v: Vec<char>| v@) =~= before.push(codes[i as int]));
        assert(codes.take(i + 1) =~= codes.take(i as int).push(codes[i as int]));
        i = i + 1;
    }
    assert(codes.take(packs.len() as int) =~= codes);
    let k: i64 = if chars_eq_str(&sel, ENGLISH) {
        assert(-1 == sk);
        -1
    } else if chars_eq_str(&sel, SYSTEM) {
        match system_locale {
            None => {
                assert(-1 == sk);
                -1
            },
            Some(l) => {
                let lv = chars_of(l);
                let mut tag: Vec<char> = Vec::new();
                let mut j: usize = 0;
                while j < lv.len()
                    invariant
                        j <= lv.len(),
                        tag@ == lv@.take(j as int).map_values(|c: char| if c == '_' { '-' } else { c }),
                    decreases lv.len() - j,
                {
                    tag.push(if lv[j] == '_' { '-' } else { lv[j] });
                    assert(tag@ =~= lv@.take(j + 1).map_values(|c: char| if c == '_' { '-' } else { c }));
                    j = j + 1;
                }
                assert(lv@.take(lv.len() as int) =~= lv@);
                let parts = split(&tag, '-');
                let ghost pv = parts@.map_values(|v: Vec<char>| v@);
                assert(pv =~= split_seq(tag@, '-'));
                let mut n: usize = parts.len();
                let mut found: i64 = -1;
                while n > 0 && found < 0
                    invariant
                        n <= parts@.len(),
                        pv == parts@.map_values(|v: Vec<char>| v@),
                        code_chars@.map_values(|v: Vec<char>| v@) == codes,
                        codes.len() == packs@.len(),
                        packs@.len() < i64::MAX,
                        found < 0 ==> prefix_match(pv, codes, pv.len()) == prefix_match(pv, codes, n as nat),
                        found >= 0 ==> found == prefix_match(pv, codes, pv.len()),
                    decreases n,
                {
                    let mut cand: Vec<char> = Vec::new();
                    let mut q: usize = 0;
                    while q < n
                        invariant
                            q <= n,
                            n <= parts@.len(),
                            n <= parts.len(),
                            pv == parts@.map_values(|v: Vec<char>| v@),
                            cand@ == join_seq(pv.take(q as int), seq!['-']),
                        decreases n - q,
                    {
                        assert(pv.take(q + 1).drop_last() =~= pv.take(q as int));
                        assert(pv[q as int] == parts@[q as int]@);
                        if q > 0 {
                            cand.push('-');
                        }
                        let mut w: usize = 0;
                        let ghost base = cand@;
                        while w < parts[q].len()
                            invariant
                                q < n <= parts.len(),
                                w <= parts@[q as int]@.len(),
                                cand@ == base + parts@[q as int]@.take(w as int),
                            decreases parts@[q as int]@.len() - w,
                        {
                            cand.push(parts[q][w]);
                            assert(cand@ =~= base + parts@[q as int]@.take(w + 1));
                            w = w + 1;
                        }
                        assert(parts@[q as int]@.take(parts@[q as int]@.len() as int) =~= parts@[q as int]@);
                        if q == 0 {
                            assert(pv.take(1) =~= seq![pv[0]]);
                            assert(cand@ =~= join_seq(pv.take(1), seq!['-']));
                        } else {
                            assert(cand@ =~= join_seq(pv.take(q as int), seq!['-']) + seq!['-'] + pv[q as int]);
                        }
                        q = q + 1;
                    }
                    let hit = find_ci_in(&code_chars, &cand);
                    if hit >= 0 {
                        found = hit;
                    }
                    assert(prefix_match(pv, codes, n as nat) == if hit >= 0 {
                        hit as int
                    } else {
                        prefix_match(pv, codes, (n - 1) as nat)
                    });
                    n = n - 1;
                }
                proof {
                    lemma_prefix_bounds(pv, codes, pv.len());
                    assert(lv@ == l@);
                    assert(tag@ == dash_tag(l@));
                }
                assert(found < 0 ==> prefix_match(pv, codes, pv.len()) == -1);
                if found >= 0 {
                    assert(found == sk);
                    found
                } else {
                    let mut subs: Vec<Vec<char>> = Vec::new();
                    let mut t: usize = 0;
                    while t < pack_subtags.len()
                        invariant
                            t <= pack_subtags.len(),
                            subs@.map_values(|v: Vec<char>| v@) == crate::strings::strs_view(pack_subtags@).take(t as int),
                        decreases pack_subtags.len() - t,
                    {
                        let ghost before = subs@.map_values(|v: Vec<char>| v@);
                        subs.push(chars_of(pack_subtags[t].as_str()));
                        assert(subs@.map_values(|v: Vec<char>| v@) =~= before.push(pack_subtags@[t as int]@));
                        assert(crate::strings::strs_view(pack_subtags@).take(t + 1) =~= crate::strings::strs_view(pack_subtags@).take(t as int).push(pack_subtags@[t as int]@));
                        t = t + 1;
                    }
                    assert(crate::strings::strs_view(pack_subtags@).take(pack_subtags.len() as int) =~= crate::strings::strs_view(pack_subtags@));
                    let ls = chars_of(locale_subtag);
                    proof {
                        lemma_find_ci_bounds(crate::strings::strs_view(pack_subtags@), locale_subtag@);
                    }
                    let f = find_ci_in(&subs, &ls);
                    assert(f == find_ci(crate::strings::strs_view(pack_subtags@), locale_subtag@));
                    assert(f == sk);
                    f
                }
            },
        }
    } else {
        let mut e: usize = 0;
        let mut hit: i64 = -1;
        while e < packs.len() && hit < 0
            invariant
                e <= packs.len(),
                packs@.len() < i64::MAX,
                codes == codes_of(packs@),
                sel@ == selection@,
                hit >= -1,
                hit < 0 ==> find_exact(codes.take(e as int), selection@) == -1,
                hit >= 0 ==> hit == find_exact(codes, selection@),
            decreases packs.len() - e,
        {
            assert(codes.take(e + 1).drop_last() =~= codes.take(e as int));
            let c = chars_of(packs[e].code.as_str());
            if crate::strings::chars_eq(&c, &sel) {
                proof {
                    assert(codes[e as int] == packs@[e as int].code@);
                    assert(find_exact(codes.take(e + 1), selection@) == e);
                    lemma_find_exact_prefix(codes, selection@, e + 1);
                }
                hit = e as i64;
            }
            e = e + 1;
        }
        proof {
            if hit < 0 {
                assert(codes.take(e as int) =~= codes);
            }
            lemma_find_exact_bounds(codes, selection@);
        }
        assert(hit == sk);
        hit
    };
    assert(k == sk);
    if k < 0 {
        None
    } else {
        Some(packs[k as usize].duplicate())
    }
}

proof fn lemma_find_exact_prefix(codes: Seq<Seq<char>>, c: Seq<char>, n: int)
    requires
        0 < n <= codes.len(),
        find_exact(codes.take(n), c) >= 0,
    ensures
        find_exact(codes, c) == find_exact(codes.take(n), c),
    decreases codes.len() - n,
{
    if n < codes.len() {
        assert(codes.take(n + 1).drop_last() =~= codes.take(n));
        assert(find_exact(codes.take(n + 1), c) == find_exact(codes.take(n), c));
        lemma_find_exact_prefix(codes, c, n + 1);
    } else {
        assert(codes.take(n) =~= codes);
    }
}

/// Whether `c` separates path components on some platform: `/`
/// everywhere, `\\` on Windows too.
pub open spec fn is_path_sep(c: char) -> bool {
    c == '/' || c == '\\'
}

/// A leaf that `Path::join` appends rather than substitutes: empty, or
/// neither starting with a separator nor with a drive (`X:`).
pub open spec fn appendable_leaf(leaf: Seq<char>) -> bool {
    leaf.len() == 0 || (!is_path_sep(leaf[0]) && !(leaf.len() >= 2 && leaf[1] == ':'))
}

/// A base that `Path::join` extends as written: one without the verbatim
/// prefix `\\?\` (whose joins Windows normalizes).
pub open spec fn extendable_base(base: Seq<char>) -> bool {
    !(base.len() >= 4 && base.take(4) == seq!['\\', '\\', '?', '\\'])
}

/// `r` is `leaf` joined onto `base` as `Path::join` documents it, for an
/// extendable base and an appendable leaf: the base, then a separator
/// where the base does not already end in one, then the leaf. Which
/// separator, and whether a trailing `\\` or a bare drive `X:` counts as
/// ending in one, depends on the platform, so of those cases only the
/// three possible shapes are stated.
pub open spec fn joins(base: Seq<char>, leaf: Seq<char>, r: Seq<char>) -> bool {
    extendable_base(base) && appendable_leaf(leaf) ==> {
        &&& r == base + leaf || r == base + seq!['/'] + leaf || r == base + seq!['\\'] + leaf
        &&& base.len() == 0 ==> r == leaf
        &&& base.len() > 0 && base.last() == '/' ==> r == base + leaf
        &&& base.len() > 0 && !is_path_sep(base.last()) && base.last() != ':' ==> r.len() == base.len()
            + leaf.len() + 1
    }
}

/// Calls `Path::join` of std and converts the result to a string (without
/// loss: both parts are valid UTF-8 and separators are ASCII). For an
/// extendable base and an appendable leaf the result [`joins`] them: the
/// base, a separator unless the base already ends in one, the leaf. Which
/// separator is used, and what joining an absolute or drive-relative leaf
/// or onto a verbatim base gives, depend on the platform and are not
/// stated.
#[verifier::external_body]
pub(crate) fn join_path(base: &str, leaf: &str) -> (r: String)
    ensures
        joins(base@, leaf@, r@),
{
    std::path::Path::new(base).join(leaf).to_string_lossy().into_owned()
}

/// The folder user language packs live in: `languages` inside the
/// configuration directory, when there is one.
pub fn user_dir(config_dir: Option<&str>) -> (r: Option<String>)
    ensures
        match config_dir {
            Some(d) => r matches Some(p) && joins(d@, "languages"@, p@),
            None => r is None,
        },
{
    match config_dir {
        Some(d) => Some(join_path(d, "languages")),
        None => None,
    }
}

/// Packs whose code is `c`.
pub open spec fn has_code(c: Seq<char>) -> spec_fn(LanguageInfo) -> bool {
    |p: LanguageInfo| p.code@ == c
}

/// Packs whose code is not `c`.
pub open spec fn lacks_code(c: Seq<char>) -> spec_fn(LanguageInfo) -> bool {
    |p: LanguageInfo| p.code@ != c
}

/// The installed packs after the user packs are added in order: each one
/// replaces any pack with its code, and joins at the end.
pub open spec fn merged(packs: Seq<LanguageInfo>, user: Seq<LanguageInfo>) -> Seq<LanguageInfo>
    decreases user.len(),
{
    if user.len() == 0 {
        packs
    } else {
        let u = user.last();
        merged(packs, user.drop_last()).filter(lacks_code(u.code@)).push(u)
    }
}

fn drop_code(packs: Vec<LanguageInfo>, code: &str) -> (r: Vec<LanguageInfo>)
    ensures
        r@ == packs@.filter(lacks_code(code@)),
{
    let ghost orig = packs@;
    assert(orig.len() == packs.len());
    let want = chars_of(code);
    let mut packs = packs;
    let mut kept: Vec<LanguageInfo> = Vec::new();
    let mut k: usize = 0;
    while packs.len() > 0
        invariant
            k + packs.len() == orig.len(),
            orig.len() <= usize::MAX,
            packs@ == orig.skip(k as int),
            kept@ == orig.take(k as int).filter(lacks_code(code@)),
            want@ == code@,
        decreases packs.len(),
    {
        let p = packs.remove(0);
        assert(p == orig[k as int]);
        assert(packs@ =~= orig.skip(k + 1));
        let have = chars_of(p.code.as_str());
        let same = crate::strings::chars_eq(&have, &want);
        proof {
            orig.take(k as int).lemma_filter_push(p, lacks_code(code@));
            assert(orig.take(k + 1) =~= orig.take(k as int).push(p));
        }
        if !same {
            kept.push(p);
        }
        k = k + 1;
    }
    assert(orig.take(k as int) =~= orig);
    kept
}

/// The installed packs: the bundled ones with the user's on top, a user
/// pack replacing any pack with its code, in the order the user packs are
/// given.
pub fn merge_packs(bundled: Vec<LanguageInfo>, user: Vec<LanguageInfo>) -> (r: Vec<LanguageInfo>)
    ensures
        r@ == merged(bundled@, user@),
{
    let ghost b0 = bundled@;
    let ghost u0 = user@;
    assert(u0.len() == user.len());
    let mut out = bundled;
    let mut user = user;
    let mut k: usize = 0;
    assert(u0.take(0) =~= Seq::<LanguageInfo>::empty());
    while user.len() > 0
        invariant
            k + user.len() == u0.len(),
            u0.len() <= usize::MAX,
            user@ == u0.skip(k as int),
            out@ == merged(b0, u0.take(k as int)),
        decreases user.len(),
    {
        let u = user.remove(0);
        assert(u == u0[k as int]);
        assert(user@ =~= u0.skip(k + 1));
        let kept = drop_code(out, u.code.as_str());
        out = kept;
        out.push(u);
        proof {
            assert(u0.take(k + 1).drop_last() =~= u0.take(k as int));
            assert(u0.take(k + 1).last() == u);
        }
        k = k + 1;
    }
    assert(u0.take(k as int) =~= u0);
    out
}

/// Whether languages are listed in order: by English name, case-folded,
/// then by code.
pub open spec fn packs_sorted(packs: Seq<LanguageInfo>) -> bool {
    forall|i: int, j: int|
        0 <= i < j < packs.len() ==> then(
            order_seq(lowercase(packs[i].english_name@), lowercase(packs[j].english_name@)),
            order_seq(packs[i].code@, packs[j].code@),
        ) <= 0
}

/// The packs as the settings page lists them: by English name,
/// case-folded, then by code.
pub fn sort_packs(packs: Vec<LanguageInfo>) -> (r: Vec<LanguageInfo>)
    ensures
        r@.to_multiset() == packs@.to_multiset(),
        packs_sorted(r@),
{
    broadcast use vstd::multiset::group_multiset_axioms;

    let ghost orig = packs@;
    let mut packs = packs;
    let mut triples: Vec<(Vec<char>, Vec<char>, LanguageInfo)> = Vec::new();
    while packs.len() > 0
        invariant
            triples.len() + packs.len() == orig.len(),
            packs@ == orig.skip(triples.len() as int),
            forall|k: int| 0 <= k < triples.len() ==> (#[trigger] triples@[k]).2 == orig[k],
            forall|k: int| 0 <= k < triples.len() ==> (#[trigger] triples@[k]).0@ == lowercase(orig[k].english_name@),
            forall|k: int| 0 <= k < triples.len() ==> (#[trigger] triples@[k]).1@ == orig[k].code@,
        decreases packs.len(),
    {
        let ghost k = triples.len();
        let p = packs.remove(0);
        assert(p == orig[k as int]);
        assert(packs@ =~= orig.skip(k + 1));
        let folded = to_lowercase(p.english_name.as_str());
        let a = chars_of(folded.as_str());
        let b = chars_of(p.code.as_str());
        triples.push((a, b, p));
    }
    let ghost tv = triples@;
    let sorted = sort_by_two_texts(triples);
    let ghost sv = sorted@;
    let mut sorted = sorted;
    let mut out: Vec<LanguageInfo> = Vec::new();
    while sorted.len() > 0
        invariant
            out.len() + sorted.len() == sv.len(),
            sorted@ == sv.skip(out.len() as int),
            forall|k: int| 0 <= k < out.len() ==> #[trigger] out@[k] == sv[k].2,
        decreases sorted.len(),
    {
        let ghost k = out.len();
        let t = sorted.remove(0);
        assert(t == sv[k as int]);
        assert(sorted@ =~= sv.skip(k + 1));
        out.push(t.2);
    }
    proof {
        broadcast use vstd::seq_lib::group_to_multiset_ensures;

        let payload = |t: (Vec<char>, Vec<char>, LanguageInfo)| t.2;
        crate::file_list::sort::lemma_map_multiset(tv, sv, payload);
        assert(out@ =~= sv.map_values(payload));
        assert(tv.map_values(payload) =~= orig);
        assert forall|k: int| 0 <= k < sv.len() implies #[trigger] tv.contains(sv[k]) by {
            assert(sv.to_multiset().count(sv[k]) > 0);
        }
        assert forall|i: int, j: int| 0 <= i < j < out.len() implies then(
            order_seq(lowercase(out@[i].english_name@), lowercase(out@[j].english_name@)),
            order_seq(out@[i].code@, out@[j].code@),
        ) <= 0 by {
            assert(tv.contains(sv[i]));
            assert(tv.contains(sv[j]));
            let a = choose|q: int| 0 <= q < tv.len() && tv[q] == sv[i];
            let b = choose|q: int| 0 <= q < tv.len() && tv[q] == sv[j];
        }
    }
    out
}

/// The languages Settings lists: the bundled packs with the user packs on
/// top (a user pack replacing a bundled one with its code), sorted by
/// English name and then code.
pub fn installed_packs(bundled: Vec<LanguageInfo>, user: Vec<LanguageInfo>) -> (r: Vec<LanguageInfo>)
    ensures
        r@.to_multiset() == merged(bundled@, user@).to_multiset(),
        packs_sorted(r@),
{
    sort_packs(merge_packs(bundled, user))
}

/// The last user pack with code `c`, or -1.
pub open spec fn last_with_code(user: Seq<LanguageInfo>, c: Seq<char>) -> int
    decreases user.len(),
{
    if user.len() == 0 {
        -1
    } else if user.last().code@ == c {
        user.len() - 1
    } else {
        last_with_code(user.drop_last(), c)
    }
}

proof fn lemma_filter_twice(s: Seq<LanguageInfo>, d: Seq<char>, c: Seq<char>)
    ensures
        s.filter(lacks_code(d)).filter(has_code(c)) == if c == d {
            Seq::<LanguageInfo>::empty()
        } else {
            s.filter(has_code(c))
        },
    decreases s.len(),
{
    if s.len() == 0 {
        assert(s.filter(lacks_code(d)) =~= Seq::<LanguageInfo>::empty());
        assert(s.filter(lacks_code(d)).filter(has_code(c)) =~= Seq::<LanguageInfo>::empty());
        assert(s.filter(has_code(c)) =~= Seq::<LanguageInfo>::empty());
    } else {
        let t = s.drop_last();
        let x = s.last();
        assert(s =~= t.push(x));
        lemma_filter_twice(t, d, c);
        t.lemma_filter_push(x, lacks_code(d));
        t.lemma_filter_push(x, has_code(c));
        t.filter(lacks_code(d)).lemma_filter_push(x, has_code(c));
    }
}

/// A user pack replaces every other pack with its code: when any user
/// pack has code `c`, the installed packs hold exactly one pack with that
/// code, the last such user pack; otherwise the packs with code `c` are
/// those the list started with.
pub proof fn lemma_user_pack_wins(packs: Seq<LanguageInfo>, user: Seq<LanguageInfo>, c: Seq<char>)
    ensures
        last_with_code(user, c) >= 0 ==> merged(packs, user).filter(has_code(c)) == seq![
            user[last_with_code(user, c)],
        ],
        last_with_code(user, c) < 0 ==> merged(packs, user).filter(has_code(c)) == packs.filter(
            has_code(c),
        ),
        last_with_code(user, c) < user.len(),
    decreases user.len(),
{
    if user.len() > 0 {
        let t = user.drop_last();
        let u = user.last();
        let m = merged(packs, t);
        lemma_user_pack_wins(packs, t, c);
        lemma_filter_twice(m, u.code@, c);
        m.filter(lacks_code(u.code@)).lemma_filter_push(u, has_code(c));
        if u.code@ == c {
            assert(merged(packs, user).filter(has_code(c)) =~= seq![u]);
        } else if last_with_code(t, c) >= 0 {
            assert(t[last_with_code(t, c)] == user[last_with_code(t, c)]);
        }
    }
}

} // verus!
