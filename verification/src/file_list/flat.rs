//! The path arena of a flat listing ("Include Subfolders"): one entry per
//! distinct relative directory, and per row the index of its directory,
//! its leaf name and where its details stand. A row's full path is
//! rebuilt from these without touching the file system.

use vstd::prelude::*;

use crate::file_list::sort::{lemma_order_seq, order_by_text, order_seq};
use crate::i18n::{join_path, joins};
use crate::strings::{chars_eq, chars_of, lowercase, strs_view, to_lowercase};

verus! {

/// Position of the first `x` in `s`, or -1.
pub open spec fn first_pos(s: Seq<Seq<char>>, x: Seq<char>) -> int
    decreases s.len(),
{
    if s.len() == 0 {
        -1
    } else {
        let p = first_pos(s.drop_last(), x);
        if p >= 0 {
            p
        } else if s.last() == x {
            s.len() - 1
        } else {
            -1
        }
    }
}

proof fn lemma_first_pos_basic(s: Seq<Seq<char>>, x: Seq<char>)
    ensures
        -1 <= first_pos(s, x) < s.len(),
        first_pos(s, x) >= 0 <==> s.contains(x),
        first_pos(s, x) >= 0 ==> s[first_pos(s, x)] == x,
    decreases s.len(),
{
    if s.len() > 0 {
        let d = s.drop_last();
        lemma_first_pos_basic(d, x);
        if d.contains(x) {
            let i = choose|i: int| 0 <= i < d.len() && d[i] == x;
            assert(s[i] == x);
            assert(s.contains(x));
            assert(s[first_pos(s, x)] == d[first_pos(d, x)]);
        } else if s.last() == x {
            assert(s[s.len() - 1] == x);
            assert(s.contains(x));
        } else {
            assert(!s.contains(x)) by {
                if s.contains(x) {
                    let i = choose|i: int| 0 <= i < s.len() && s[i] == x;
                    if i < s.len() - 1 {
                        assert(d[i] == x);
                    }
                }
            }
        }
    }
}

proof fn lemma_first_pos(s: Seq<Seq<char>>, x: Seq<char>)
    ensures
        -1 <= first_pos(s, x) < s.len(),
        first_pos(s, x) >= 0 <==> s.contains(x),
        first_pos(s, x) >= 0 ==> s[first_pos(s, x)] == x,
        forall|y: Seq<char>| #[trigger] first_pos(s.push(y), x) == if s.contains(x) {
            first_pos(s, x)
        } else if y == x {
            s.len() as int
        } else {
            -1
        },
{
    lemma_first_pos_basic(s, x);
    assert forall|y: Seq<char>| #[trigger] first_pos(s.push(y), x) == if s.contains(x) {
        first_pos(s, x)
    } else if y == x {
        s.len() as int
    } else {
        -1
    } by {
        assert(s.push(y).drop_last() =~= s);
        assert(s.push(y).last() == y);
    }
}

/// The arena after appending directories in order: each one not there yet
/// is added at the end.
pub open spec fn add_dirs(dirs: Seq<Seq<char>>, rels: Seq<Seq<char>>) -> Seq<Seq<char>>
    decreases rels.len(),
{
    if rels.len() == 0 {
        dirs
    } else {
        let d = add_dirs(dirs, rels.drop_last());
        if d.contains(rels.last()) {
            d
        } else {
            d.push(rels.last())
        }
    }
}

/// No directory occurs twice.
pub open spec fn distinct(s: Seq<Seq<char>>) -> bool {
    forall|i: int, j: int| 0 <= i < j < s.len() ==> s[i] != s[j]
}

/// `r` is `name` joined onto `dir` joined onto `root`, as `Path::join`
/// joins each pair.
pub open spec fn joins_three(root: Seq<char>, dir: Seq<char>, name: Seq<char>, r: Seq<char>) -> bool {
    exists|parent: Seq<char>| joins(root, dir, parent) && #[trigger] joins(parent, name, r)
}

/// The path arena of a flat listing.
#[derive(Debug)]
pub struct FlatPathStore {
    root: String,
    id_base: u64,
    directories: Vec<String>,
    appendable: bool,
    row_directories: Vec<u32>,
    row_names: Vec<String>,
    /// 0 = unseen, 1 = details being derived, 2 = derived.
    detail_states: Vec<u8>,
}

/// One row: its directory's index in the arena and its leaf name.
pub struct RowV {
    pub dir: int,
    pub name: Seq<char>,
}

impl FlatPathStore {
    /// The listing's root directory.
    pub closed spec fn root(&self) -> Seq<char> {
        self.root@
    }

    /// Row `k` has id `id_base + k + 1`.
    pub closed spec fn id_base(&self) -> u64 {
        self.id_base
    }

    /// The distinct relative directories, in order of first appearance.
    pub closed spec fn dirs(&self) -> Seq<Seq<char>> {
        strs_view(self.directories@)
    }

    /// The rows, in append order.
    pub closed spec fn rows(&self) -> Seq<RowV> {
        Seq::new(
            self.row_directories@.len(),
            |k: int| RowV { dir: self.row_directories@[k] as int, name: self.row_names@[k]@ },
        )
    }

    /// Where each row's details stand.
    pub closed spec fn states(&self) -> Seq<u8> {
        self.detail_states@
    }

    /// Whether rows may still be appended (the scan is not finished).
    pub closed spec fn appendable(&self) -> bool {
        self.appendable
    }

    /// The arena's invariant: one name and one state per row, every row's
    /// directory in the arena, no directory twice, every index a `u32`.
    pub closed spec fn wf(&self) -> bool {
        &&& self.row_names@.len() == self.row_directories@.len()
        &&& self.detail_states@.len() == self.row_directories@.len()
        &&& forall|k: int|
            0 <= k < self.row_directories@.len() ==> (#[trigger] self.row_directories@[k])
                < self.directories@.len()
        &&& distinct(strs_view(self.directories@))
        &&& self.directories@.len() <= u32::MAX as nat + 1
    }

    /// The row an id names, if it is one of this listing's.
    pub open spec fn row_of(&self, id: u64) -> Option<int> {
        if id > self.id_base() && id - self.id_base() - 1 < self.rows().len() {
            Some(id - self.id_base() - 1)
        } else {
            None
        }
    }

    /// An empty arena for a listing of `root` whose ids start after
    /// `id_base`.
    pub fn new(root: &str, id_base: u64) -> (r: FlatPathStore)
        ensures
            r.wf(),
            r.root() == root@,
            r.id_base() == id_base,
            r.dirs() == Seq::<Seq<char>>::empty(),
            r.rows().len() == 0,
            r.appendable(),
    {
        let r = FlatPathStore {
            root: crate::strings::string_of(&chars_of(root)),
            id_base,
            directories: Vec::new(),
            appendable: true,
            row_directories: Vec::new(),
            row_names: Vec::new(),
            detail_states: Vec::new(),
        };
        assert(r.dirs() =~= Seq::<Seq<char>>::empty());
        r
    }

    fn find_dir(&self, rel: &str) -> (r: Option<usize>)
        requires
            self.wf(),
        ensures
            match r {
                Some(i) => i as int == first_pos(self.dirs(), rel@),
                None => first_pos(self.dirs(), rel@) == -1,
            },
    {
        proof {
            lemma_first_pos(self.dirs(), rel@);
        }
        let want = chars_of(rel);
        let mut i: usize = 0;
        while i < self.directories.len()
            invariant
                i <= self.directories.len(),
                want@ == rel@,
                self.wf(),
                forall|k: int| 0 <= k < i ==> self.dirs()[k] != rel@,
            decreases self.directories.len() - i,
        {
            let have = chars_of(self.directories[i].as_str());
            assert(have@ == self.dirs()[i as int]);
            if chars_eq(&have, &want) {
                proof {
                    assert(self.dirs().contains(rel@)) by {
                        assert(self.dirs()[i as int] == rel@);
                    }
                    lemma_first_pos(self.dirs(), rel@);
                    let p = first_pos(self.dirs(), rel@);
                    if p != i {
                        assert(self.dirs()[p] == rel@);
                    }
                }
                return Some(i);
            }
            i = i + 1;
        }
        proof {
            lemma_first_pos(self.dirs(), rel@);
            if self.dirs().contains(rel@) {
                let k = choose|k: int| 0 <= k < self.dirs().len() && self.dirs()[k] == rel@;
                assert(self.dirs()[k] != rel@);
            }
        }
        None
    }

    /// Append rows, each a leaf name and its directory relative to the
    /// root. A directory not in the arena yet is added once.
    pub fn append(&mut self, rows: &Vec<(String, String)>)
        requires
            old(self).wf(),
            old(self).appendable(),
            add_dirs(old(self).dirs(), rows@.map_values(|r: (String, String)| r.1@)).len()
                <= u32::MAX as nat + 1,
        ensures
            final(self).wf(),
            final(self).appendable(),
            final(self).root() == old(self).root(),
            final(self).id_base() == old(self).id_base(),
            final(self).dirs() == add_dirs(old(self).dirs(), rows@.map_values(|r: (String, String)| r.1@)),
            final(self).rows().len() == old(self).rows().len() + rows.len(),
            forall|k: int| 0 <= k < old(self).rows().len() ==> #[trigger] final(self).rows()[k] == old(self).rows()[k],
            forall|k: int| 0 <= k < rows.len() ==> #[trigger] final(self).rows()[old(self).rows().len() + k] == (RowV {
                dir: first_pos(final(self).dirs(), rows@[k].1@),
                name: rows@[k].0@,
            }),
            final(self).states() == old(self).states() + Seq::new(rows.len() as nat, |k: int| 0u8),
    {
        let ghost rels = rows@.map_values(|r: (String, String)| r.1@);
        let ghost d0 = self.dirs();
        let ghost r0 = self.rows();
        let ghost s0 = self.states();
        let n0 = self.row_directories.len();
        proof {
            lemma_add_dirs_prefix(d0, rels, 0);
            assert(rels.take(0) =~= Seq::<Seq<char>>::empty());
        }
        let mut i: usize = 0;
        while i < rows.len()
            invariant
                i <= rows.len(),
                self.wf(),
                self.appendable(),
                rels == rows@.map_values(|r: (String, String)| r.1@),
                add_dirs(d0, rels).len() <= u32::MAX as nat + 1,
                add_dirs(d0, rels.take(i as int)).len() <= add_dirs(d0, rels).len(),
                self.dirs() == add_dirs(d0, rels.take(i as int)),
                n0 == r0.len(),
                self.rows().len() == r0.len() + i,
                forall|k: int| 0 <= k < r0.len() ==> #[trigger] self.rows()[k] == r0[k],
                forall|k: int| 0 <= k < i ==> #[trigger] self.rows()[n0 + k] == (RowV {
                    dir: first_pos(self.dirs(), rels[k]),
                    name: rows@[k].0@,
                }),
                forall|k: int| 0 <= k < i ==> self.dirs().contains(#[trigger] rels[k]),
                self.states() == s0 + Seq::new(i as nat, |k: int| 0u8),
                self.root() == old(self).root(),
                self.id_base() == old(self).id_base(),
            decreases rows.len() - i,
        {
            proof {
                assert(rels.take(i + 1).drop_last() =~= rels.take(i as int));
                assert(rels.take(i + 1).last() == rels[i as int]);
                lemma_add_dirs_prefix(d0, rels, (i + 1) as nat);
                lemma_first_pos(self.dirs(), rels[i as int]);
            }
            let rel = rows[i].1.as_str();
            assert(rels[i as int] == rel@);
            let ghost before_dirs = self.dirs();
            let ghost before_rows = self.rows();
            let dir: u32 = match self.find_dir(rel) {
                Some(d) => {
                    assert(d < self.directories.len());
                    d as u32
                },
                None => {
                    let next = self.directories.len() as u32;
                    self.directories.push(crate::strings::string_of(&chars_of(rel)));
                    proof {
                        assert(self.dirs() =~= before_dirs.push(rel@));
                        assert forall|a: int, b: int| 0 <= a < b < self.dirs().len() implies self.dirs()[a] != self.dirs()[b] by {
                            if b == self.dirs().len() - 1 {
                                assert(before_dirs[a] != rel@) by {
                                    if before_dirs[a] == rel@ {
                                        assert(before_dirs.contains(rel@));
                                    }
                                }
                            }
                        }
                    }
                    next
                },
            };
            self.row_directories.push(dir);
            self.row_names.push(rows[i].0.clone());
            self.detail_states.push(0);
            proof {
                lemma_first_pos(before_dirs, rel@);
                assert forall|k: int| 0 <= k < r0.len() implies #[trigger] self.rows()[k] == r0[k] by {
                    assert(self.rows()[k] == before_rows[k]);
                }
                assert forall|k: int| 0 <= k < i + 1 implies #[trigger] self.rows()[n0 + k] == (RowV {
                    dir: first_pos(self.dirs(), rels[k]),
                    name: rows@[k].0@,
                }) by {
                    if k < i {
                        assert(self.rows()[n0 + k] == before_rows[n0 + k]);
                        assert(before_dirs.contains(rels[k]));
                        if self.dirs() != before_dirs {
                            lemma_first_pos(before_dirs, rels[k]);
                            assert(first_pos(before_dirs.push(rel@), rels[k]) == first_pos(before_dirs, rels[k]));
                        }
                    }
                }
                assert forall|k: int| 0 <= k < i + 1 implies self.dirs().contains(#[trigger] rels[k]) by {
                    if k < i {
                        let j = choose|j: int| 0 <= j < before_dirs.len() && before_dirs[j] == rels[k];
                        assert(self.dirs()[j] == rels[k]);
                    } else {
                        lemma_first_pos(self.dirs(), rel@);
                        assert(self.dirs()[dir as int] == rel@);
                    }
                }
                assert(self.states() =~= s0 + Seq::new((i + 1) as nat, |k: int| 0u8));
            }
            i = i + 1;
        }
        proof {
            assert(rels.take(rows.len() as int) =~= rels);
        }
    }

    fn row_index(&self, id: u64) -> (r: Option<usize>)
        requires
            self.wf(),
        ensures
            match r {
                Some(k) => self.row_of(id) == Some(k as int),
                None => self.row_of(id) is None,
            },
    {
        if id <= self.id_base {
            return None;
        }
        let offset = id - self.id_base - 1;
        if offset < self.row_directories.len() as u64 {
            Some(offset as usize)
        } else {
            None
        }
    }

    /// A row's relative directory and leaf name.
    pub fn entry_location(&self, id: u64) -> (r: Option<(String, String)>)
        requires
            self.wf(),
        ensures
            match self.row_of(id) {
                Some(k) => r matches Some(p) && p.0@ == self.dirs()[self.rows()[k].dir] && p.1@
                    == self.rows()[k].name,
                None => r is None,
            },
    {
        match self.row_index(id) {
            None => None,
            Some(row) => {
                let dir = self.row_directories[row] as usize;
                Some((self.directories[dir].clone(), self.row_names[row].clone()))
            },
        }
    }

    /// A row's full path: the root, its relative directory and its leaf,
    /// joined by the platform's rules.
    pub fn path_for(&self, id: u64) -> (r: Option<String>)
        requires
            self.wf(),
        ensures
            match self.row_of(id) {
                Some(k) => r matches Some(p) && joins_three(
                    self.root(),
                    self.dirs()[self.rows()[k].dir],
                    self.rows()[k].name,
                    p@,
                ),
                None => r is None,
            },
    {
        match self.entry_location(id) {
            None => None,
            Some((dir, name)) => {
                let parent = join_path(self.root.as_str(), dir.as_str());
                let p = join_path(parent.as_str(), name.as_str());
                assert(joins(self.root(), dir@, parent@) && joins(parent@, name@, p@));
                Some(p)
            },
        }
    }

    /// A row's directory as the Path column shows it: `·` for the root
    /// itself.
    pub fn display_directory(&self, id: u64) -> (r: Option<String>)
        requires
            self.wf(),
        ensures
            match self.row_of(id) {
                Some(k) => r matches Some(s) && s@ == if self.dirs()[self.rows()[k].dir].len() == 0 {
                    seq!['\u{b7}']
                } else {
                    self.dirs()[self.rows()[k].dir]
                },
                None => r is None,
            },
    {
        match self.row_index(id) {
            None => None,
            Some(row) => {
                let dir = self.row_directories[row] as usize;
                let rel = &self.directories[dir];
                if rel.unicode_len() == 0 {
                    Some(crate::strings::string_of(&['\u{b7}']))
                } else {
                    Some(rel.clone())
                }
            },
        }
    }

    /// Claim a row for the details worker: `true` only for a row nobody
    /// claimed yet, which is then marked in flight.
    pub fn claim_detail(&mut self, id: u64) -> (r: bool)
        requires
            old(self).wf(),
        ensures
            final(self).wf(),
            final(self).dirs() == old(self).dirs(),
            final(self).rows() == old(self).rows(),
            final(self).root() == old(self).root(),
            final(self).id_base() == old(self).id_base(),
            final(self).appendable() == old(self).appendable(),
            r == (old(self).row_of(id) matches Some(k) && old(self).states()[k] == 0),
            final(self).states() == if r {
                old(self).states().update(old(self).row_of(id)->Some_0, 1u8)
            } else {
                old(self).states()
            },
    {
        match self.row_index(id) {
            None => false,
            Some(row) => {
                if self.detail_states[row] != 0 {
                    false
                } else {
                    self.detail_states.set(row, 1);
                    true
                }
            },
        }
    }

    /// Mark a row's details as derived.
    pub fn finish_detail(&mut self, id: u64)
        requires
            old(self).wf(),
        ensures
            final(self).wf(),
            final(self).dirs() == old(self).dirs(),
            final(self).rows() == old(self).rows(),
            final(self).root() == old(self).root(),
            final(self).id_base() == old(self).id_base(),
            final(self).appendable() == old(self).appendable(),
            final(self).states() == match old(self).row_of(id) {
                Some(k) => old(self).states().update(k, 2u8),
                None => old(self).states(),
            },
    {
        if let Some(row) = self.row_index(id) {
            self.detail_states.set(row, 2);
        }
    }

    /// The scan is complete: no more rows are appended.
    pub fn finish(&mut self)
        requires
            old(self).wf(),
        ensures
            final(self).wf(),
            final(self).dirs() == old(self).dirs(),
            final(self).rows() == old(self).rows(),
            final(self).states() == old(self).states(),
            final(self).root() == old(self).root(),
            final(self).id_base() == old(self).id_base(),
            !final(self).appendable(),
    {
        self.appendable = false;
    }

    /// The rank of every arena directory in case-folded lexical order:
    /// distinct ranks `0..n`, a directory that folds lower ranking lower.
    pub fn directory_ranks(&self) -> (r: Vec<u32>)
        requires
            self.wf(),
        ensures
            r.len() == self.dirs().len(),
            forall|a: int| 0 <= a < r.len() ==> #[trigger] r@[a] < r.len(),
            forall|a: int, b: int| 0 <= a < b < r.len() ==> #[trigger] r@[a] != #[trigger] r@[b],
            forall|a: int, b: int|
                0 <= a < r.len() && 0 <= b < r.len() && order_seq(
                    lowercase(self.dirs()[a]),
                    lowercase(self.dirs()[b]),
                ) < 0 ==> #[trigger] r@[a] < #[trigger] r@[b],
    {
        let n = self.directories.len();
        let mut folded: Vec<Vec<char>> = Vec::new();
        let mut i: usize = 0;
        while i < n
            invariant
                i <= n,
                n == self.directories.len(),
                folded.len() == i,
                forall|k: int| 0 <= k < i ==> (#[trigger] folded@[k])@ == lowercase(self.dirs()[k]),
            decreases n - i,
        {
            let low = to_lowercase(self.directories[i].as_str());
            folded.push(chars_of(low.as_str()));
            i = i + 1;
        }
        let order = order_by_text(&folded);
        let mut ranks: Vec<u32> = Vec::new();
        let mut k: usize = 0;
        while k < n
            invariant
                k <= n,
                ranks.len() == k,
                forall|j: int| 0 <= j < k ==> ranks@[j] == 0,
            decreases n - k,
        {
            ranks.push(0);
            k = k + 1;
        }
        let mut k: usize = 0;
        while k < n
            invariant
                k <= n,
                n == self.directories.len(),
                n <= u32::MAX as nat + 1,
                ranks.len() == n,
                order.len() == n,
                forall|j: int| 0 <= j < n ==> #[trigger] order@[j] < n,
                forall|a: int, b: int| 0 <= a < b < n ==> #[trigger] order@[a] != #[trigger] order@[b],
                forall|j: int| 0 <= j < k ==> #[trigger] ranks@[order@[j] as int] == j,
            decreases n - k,
        {
            let d = order[k];
            ranks.set(d, k as u32);
            proof {
                assert forall|j: int| 0 <= j < k + 1 implies #[trigger] ranks@[order@[j] as int] == j by {
                    if j < k {
                        assert(order@[j] != order@[k as int]);
                    }
                }
            }
            k = k + 1;
        }
        proof {
            lemma_inverse_of_permutation(order@, n as nat);
            assert forall|a: int| 0 <= a < n implies #[trigger] ranks@[a] < n by {
                assert(names(order@, n as nat, a));
                let j = choose|j: int| 0 <= j < n && order@[j] == a;
                assert(ranks@[order@[j] as int] == j);
            }
            assert forall|a: int, b: int| 0 <= a < b < n implies #[trigger] ranks@[a] != #[trigger] ranks@[b] by {
                assert(names(order@, n as nat, a));
                assert(names(order@, n as nat, b));
                let ja = choose|j: int| 0 <= j < n && order@[j] == a;
                let jb = choose|j: int| 0 <= j < n && order@[j] == b;
                assert(ranks@[order@[ja] as int] == ja);
                assert(ranks@[order@[jb] as int] == jb);
            }
            assert forall|a: int, b: int|
                0 <= a < n && 0 <= b < n && order_seq(lowercase(self.dirs()[a]), lowercase(self.dirs()[b]))
                    < 0 implies #[trigger] ranks@[a] < #[trigger] ranks@[b] by {
                assert(names(order@, n as nat, a));
                assert(names(order@, n as nat, b));
                let ja = choose|j: int| 0 <= j < n && order@[j] == a;
                let jb = choose|j: int| 0 <= j < n && order@[j] == b;
                assert(ranks@[order@[ja] as int] == ja);
                assert(ranks@[order@[jb] as int] == jb);
                assert(folded@[a]@ == lowercase(self.dirs()[a]));
                assert(folded@[b]@ == lowercase(self.dirs()[b]));
                if jb < ja {
                    lemma_order_seq(folded@[b]@, folded@[a]@);
                    assert(order_seq(folded@[order@[jb] as int]@, folded@[order@[ja] as int]@) <= 0);
                } else if ja == jb {
                    lemma_order_seq(folded@[a]@, folded@[b]@);
                }
            }
        }
        ranks
    }

    /// A row's directory rank from [`directory_ranks`](Self::directory_ranks),
    /// `u32::MAX` for an id this listing does not have.
    pub fn directory_rank(&self, id: u64, ranks: &Vec<u32>) -> (r: u32)
        requires
            self.wf(),
        ensures
            r == match self.row_of(id) {
                Some(k) => if self.rows()[k].dir < ranks.len() {
                    ranks@[self.rows()[k].dir]
                } else {
                    u32::MAX
                },
                None => u32::MAX,
            },
    {
        match self.row_index(id) {
            None => u32::MAX,
            Some(row) => {
                let dir = self.row_directories[row] as usize;
                if dir < ranks.len() {
                    ranks[dir]
                } else {
                    u32::MAX
                }
            },
        }
    }
}

proof fn lemma_add_dirs_prefix(d0: Seq<Seq<char>>, rels: Seq<Seq<char>>, i: nat)
    requires
        i <= rels.len(),
    ensures
        add_dirs(d0, rels.take(i as int)).len() <= add_dirs(d0, rels).len(),
    decreases rels.len() - i,
{
    if i < rels.len() {
        lemma_add_dirs_prefix(d0, rels, i + 1);
        assert(rels.take((i + 1) as int).drop_last() =~= rels.take(i as int));
    } else {
        assert(rels.take(i as int) =~= rels);
    }
}

/// Whether `d` occurs among the first `n` positions of `order`.
pub open spec fn names(order: Seq<usize>, n: nat, d: int) -> bool {
    exists|j: int| 0 <= j < n && order[j] == d
}

/// A sequence of `n` distinct positions below `n` names every position.
proof fn lemma_inverse_of_permutation(order: Seq<usize>, n: nat)
    requires
        order.len() == n,
        n <= usize::MAX,
        forall|j: int| 0 <= j < n ==> #[trigger] order[j] < n,
        forall|a: int, b: int| 0 <= a < b < n ==> #[trigger] order[a] != #[trigger] order[b],
    ensures
        forall|d: int| 0 <= d < n ==> #[trigger] names(order, n, d),
{
    assert(order.no_duplicates()) by {
        assert forall|a: int, b: int| 0 <= a < order.len() && 0 <= b < order.len() && a != b implies order[a]
            != order[b] by {
            if a < b {
                assert(order[a] != order[b]);
            } else {
                assert(order[b] != order[a]);
            }
        }
    }
    order.unique_seq_to_set();
    lemma_range_len(n);
    assert forall|d: int| 0 <= d < n implies #[trigger] names(order, n, d) by {
        if !names(order, n, d) {
            let range = Set::new(|x: usize| x < n);
            let universe = range.remove(d as usize);
            assert(order.to_set().subset_of(universe)) by {
                assert forall|x: usize| order.to_set().contains(x) implies universe.contains(x) by {
                    let j = choose|j: int| 0 <= j < order.len() && order[j] == x;
                    assert(order[j] < n && order[j] != d);
                }
            }
            assert(range.contains(d as usize));
            vstd::set_lib::lemma_len_subset(order.to_set(), universe);
        }
    }
}

/// The naturals below `n`, as `usize`, number `n`.
proof fn lemma_range_len(n: nat)
    requires
        n <= usize::MAX + 1,
    ensures
        Set::new(|x: usize| x < n).finite(),
        Set::new(|x: usize| x < n).len() == n,
    decreases n,
{
    if n == 0 {
        assert(Set::new(|x: usize| x < n) =~= Set::<usize>::empty());
    } else {
        lemma_range_len((n - 1) as nat);
        assert(Set::new(|x: usize| x < n) =~= Set::new(|x: usize| x < (n - 1) as nat).insert(
            (n - 1) as usize,
        ));
    }
}

} // verus!
