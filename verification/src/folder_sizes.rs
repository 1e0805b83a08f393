//! Decisions of the background folder-size pass: whether the walker may
//! run, which cached sizes are still trusted, how cache hits are batched
//! back to the list, and which rows a batch of results lands on.
//!
//! The walk itself, the metadata database and the channel are I/O; they
//! hand this module plain records and take plain answers back.

use vstd::prelude::*;

use crate::file_list::{EntryKind, FileEntry};

verus! {

/// How long (seconds) a cached folder size is trusted before a revisit
/// recomputes it.
pub const FOLDER_SIZE_TTL_SECS: i64 = 600;

/// Most rows in one batch sent back to the list.
pub const SIZE_ROWS_PER_BATCH: usize = 64;

/// Process-wide master switch for the background folder-size walker.
#[derive(Clone, Copy, PartialEq, Eq, Debug, Structural)]
pub struct FolderSizingEnabled(pub bool);

/// Whether the walker may run: the stored switch, on by default.
pub fn folder_sizing_enabled(stored: Option<FolderSizingEnabled>) -> (r: bool)
    ensures
        r == match stored {
            Some(s) => s.0,
            None => true,
        },
{
    match stored {
        Some(s) => s.0,
        None => true,
    }
}

/// Whether an opt-in switch value turns the walker on: any non-empty
/// value except `0`.
pub fn walker_switch_enabled(value: Option<&str>) -> (r: bool)
    ensures
        r == match value {
            Some(v) => v@.len() > 0 && v@ != seq!['0'],
            None => false,
        },
{
    match value {
        Some(v) => {
            let n = v.unicode_len();
            if n == 0 {
                false
            } else if n == 1 {
                let c = v.get_char(0);
                proof {
                    assert(v@ =~= seq![c]);
                }
                c != '0'
            } else {
                true
            }
        },
        None => false,
    }
}

/// One folder row to size, snapshotted from the list.
#[derive(Clone, Copy, PartialEq, Eq, Debug, Structural)]
pub struct SizeSeed {
    pub row_ix: usize,
    pub node: u64,
    /// The folder's own mtime at enumerate time.
    pub mtime_unix: i64,
}

/// A cached folder size as the metadata store keeps it.
#[derive(Clone, Copy, PartialEq, Eq, Debug, Structural)]
pub struct FolderSizeRecord {
    pub mtime_unix: i64,
    pub size: u64,
    pub computed_at_unix: i64,
    pub file_count: u64,
    pub dir_count: u64,
}

/// One resolved folder size, keyed by node so rows may re-sort while a
/// pass is in flight.
#[derive(Clone, Copy, PartialEq, Eq, Debug, Structural)]
pub struct SizeRow {
    pub row_ix: usize,
    pub node: u64,
    pub size: u64,
    pub file_count: u64,
    pub dir_count: u64,
}

/// A cached row counts while the folder's mtime is unchanged and the row
/// is younger than the time-to-live.
pub open spec fn is_fresh(rec: FolderSizeRecord, live_mtime: i64, now: i64) -> bool {
    rec.mtime_unix == live_mtime && now - rec.computed_at_unix < FOLDER_SIZE_TTL_SECS
}

/// Whether a cached record still answers for a folder whose live mtime is
/// `live_mtime` at time `now`.
pub fn cache_is_fresh(rec: &FolderSizeRecord, live_mtime: i64, now: i64) -> (r: bool)
    ensures
        r == is_fresh(*rec, live_mtime, now),
{
    let age: i128 = now as i128 - rec.computed_at_unix as i128;
    rec.mtime_unix == live_mtime && age < FOLDER_SIZE_TTL_SECS as i128
}

/// The size a single-folder lookup answers from the cache, if the cached
/// record is still fresh; `None` means the folder must be walked.
pub fn cached_folder_size(live_mtime: i64, cached: Option<FolderSizeRecord>, now: i64) -> (r:
    Option<u64>)
    ensures
        r == match cached {
            Some(rec) => if is_fresh(rec, live_mtime, now) {
                Some(rec.size)
            } else {
                None
            },
            None => None,
        },
{
    match cached {
        Some(rec) => if cache_is_fresh(&rec, live_mtime, now) {
            Some(rec.size)
        } else {
            None
        },
        None => None,
    }
}

/// Whether seed `i` is answered from the cache in a sweep.
pub open spec fn is_hit(
    seeds: Seq<SizeSeed>,
    cached: Seq<Option<FolderSizeRecord>>,
    force: bool,
    now: i64,
    i: int,
) -> bool {
    !force && match cached[i] {
        Some(rec) => is_fresh(rec, seeds[i].mtime_unix, now),
        None => false,
    }
}

/// The row a cache hit on seed `i` reports.
pub open spec fn hit_row(seed: SizeSeed, rec: FolderSizeRecord) -> SizeRow {
    SizeRow {
        row_ix: seed.row_ix,
        node: seed.node,
        size: rec.size,
        file_count: rec.file_count,
        dir_count: rec.dir_count,
    }
}

/// The cache hits among the first `n` seeds, in seed order.
pub open spec fn hits_upto(
    seeds: Seq<SizeSeed>,
    cached: Seq<Option<FolderSizeRecord>>,
    force: bool,
    now: i64,
    n: nat,
) -> Seq<SizeRow>
    decreases n,
{
    if n == 0 {
        Seq::empty()
    } else {
        let prev = hits_upto(seeds, cached, force, now, (n - 1) as nat);
        if is_hit(seeds, cached, force, now, n - 1) {
            prev.push(hit_row(seeds[n - 1], cached[n - 1]->Some_0))
        } else {
            prev
        }
    }
}

/// The positions of the seeds among the first `n` that must be walked.
pub open spec fn misses_upto(
    seeds: Seq<SizeSeed>,
    cached: Seq<Option<FolderSizeRecord>>,
    force: bool,
    now: i64,
    n: nat,
) -> Seq<usize>
    decreases n,
{
    if n == 0 {
        Seq::empty()
    } else {
        let prev = misses_upto(seeds, cached, force, now, (n - 1) as nat);
        if is_hit(seeds, cached, force, now, n - 1) {
            prev
        } else {
            prev.push((n - 1) as usize)
        }
    }
}

/// All rows of a list of batches, in order.
pub open spec fn flatten(batches: Seq<Vec<SizeRow>>) -> Seq<SizeRow>
    decreases batches.len(),
{
    if batches.len() == 0 {
        Seq::empty()
    } else {
        flatten(batches.drop_last()) + batches.last()@
    }
}

/// What a cache sweep hands back: the hits in bounded batches, and the
/// positions of the seeds that still need a walk.
pub struct CacheSweep {
    pub hit_batches: Vec<Vec<SizeRow>>,
    pub misses: Vec<usize>,
}

/// The first phase of a folder-size pass. `cached[i]` is what the store
/// holds for `seeds[i]`; `force` (an explicit refresh) bypasses the cache.
/// Hits come back in order, in batches of [`SIZE_ROWS_PER_BATCH`] rows with
/// only the last one shorter and none empty; the misses are every other
/// seed, in order.
pub fn sweep_cache(
    seeds: &Vec<SizeSeed>,
    cached: &Vec<Option<FolderSizeRecord>>,
    force: bool,
    now: i64,
) -> (r: CacheSweep)
    requires
        seeds.len() == cached.len(),
    ensures
        flatten(r.hit_batches@) == hits_upto(seeds@, cached@, force, now, seeds.len() as nat),
        r.misses@ == misses_upto(seeds@, cached@, force, now, seeds.len() as nat),
        forall|b: int|
            0 <= b < r.hit_batches.len() ==> 0 < (#[trigger] r.hit_batches@[b]).len()
                <= SIZE_ROWS_PER_BATCH,
        forall|b: int|
            0 <= b < r.hit_batches.len() - 1 ==> (#[trigger] r.hit_batches@[b]).len()
                == SIZE_ROWS_PER_BATCH,
{
    let n = seeds.len();
    let mut batches: Vec<Vec<SizeRow>> = Vec::new();
    let mut current: Vec<SizeRow> = Vec::new();
    let mut misses: Vec<usize> = Vec::new();
    let mut i: usize = 0;
    while i < n
        invariant
            n == seeds.len(),
            seeds.len() == cached.len(),
            i <= n,
            flatten(batches@) + current@ == hits_upto(seeds@, cached@, force, now, i as nat),
            misses@ == misses_upto(seeds@, cached@, force, now, i as nat),
            current.len() < SIZE_ROWS_PER_BATCH,
            forall|b: int|
                0 <= b < batches.len() ==> (#[trigger] batches@[b]).len() == SIZE_ROWS_PER_BATCH,
        decreases n - i,
    {
        let seed = seeds[i];
        let hit = if force {
            false
        } else {
            match cached[i] {
                Some(rec) => cache_is_fresh(&rec, seed.mtime_unix, now),
                None => false,
            }
        };
        let ghost before = flatten(batches@) + current@;
        if hit {
            let rec = cached[i].unwrap();
            let row = SizeRow {
                row_ix: seed.row_ix,
                node: seed.node,
                size: rec.size,
                file_count: rec.file_count,
                dir_count: rec.dir_count,
            };
            current.push(row);
            assert(flatten(batches@) + current@ =~= before.push(row));
            if current.len() >= SIZE_ROWS_PER_BATCH {
                let full = current;
                current = Vec::new();
                let ghost old_batches = batches@;
                batches.push(full);
                assert(batches@.drop_last() =~= old_batches);
                assert(flatten(batches@) + current@ =~= flatten(old_batches) + full@);
            }
        } else {
            misses.push(i);
        }
        i = i + 1;
    }
    if current.len() > 0 {
        let ghost old_batches = batches@;
        let last = current;
        batches.push(last);
        assert(batches@.drop_last() =~= old_batches);
    } else {
        assert(current@ =~= Seq::<SizeRow>::empty());
        assert(flatten(batches@) + current@ =~= flatten(batches@));
    }
    CacheSweep { hit_batches: batches, misses }
}

/// The row a resolved size lands on: the last list row holding the node.
pub open spec fn last_row_of(ids: Seq<u64>, node: u64, n: nat) -> Option<usize>
    decreases n,
{
    if n == 0 {
        None
    } else if ids[n - 1] == node {
        Some((n - 1) as usize)
    } else {
        last_row_of(ids, node, (n - 1) as nat)
    }
}

/// Whether every row of a batch still sits at the position it was
/// snapshotted from.
pub open spec fn rows_in_place(ids: Seq<u64>, batch: Seq<SizeRow>) -> bool {
    forall|k: int|
        0 <= k < batch.len() ==> (#[trigger] batch[k]).row_ix < ids.len() && ids[batch[k].row_ix
            as int] == batch[k].node
}

/// Where each result of a batch is applied. While every row still sits
/// where it was snapshotted, that position; otherwise (the list
/// re-sorted or reloaded) the row now holding the node, or nothing for a
/// node that left the list.
pub fn batch_row_targets(ids: &Vec<u64>, batch: &Vec<SizeRow>) -> (r: Vec<Option<usize>>)
    ensures
        r.len() == batch.len(),
        forall|k: int|
            0 <= k < batch.len() ==> #[trigger] r@[k] == if rows_in_place(ids@, batch@) {
                Some(batch@[k].row_ix)
            } else {
                last_row_of(ids@, batch@[k].node, ids.len() as nat)
            },
{
    let mut in_place = true;
    let mut k: usize = 0;
    while k < batch.len()
        invariant
            k <= batch.len(),
            in_place == forall|j: int|
                0 <= j < k ==> (#[trigger] batch@[j]).row_ix < ids.len() && ids@[batch@[j].row_ix
                    as int] == batch@[j].node,
        decreases batch.len() - k,
    {
        let row = batch[k];
        if row.row_ix >= ids.len() || ids[row.row_ix] != row.node {
            in_place = false;
        }
        k = k + 1;
    }
    let mut out: Vec<Option<usize>> = Vec::new();
    let mut k: usize = 0;
    while k < batch.len()
        invariant
            k <= batch.len(),
            out.len() == k,
            in_place == rows_in_place(ids@, batch@),
            forall|j: int|
                0 <= j < k ==> #[trigger] out@[j] == if in_place {
                    Some(batch@[j].row_ix)
                } else {
                    last_row_of(ids@, batch@[j].node, ids.len() as nat)
                },
        decreases batch.len() - k,
    {
        let row = batch[k];
        if in_place {
            out.push(Some(row.row_ix));
        } else {
            out.push(find_last_row(ids, row.node));
        }
        k = k + 1;
    }
    out
}

fn find_last_row(ids: &Vec<u64>, node: u64) -> (r: Option<usize>)
    ensures
        r == last_row_of(ids@, node, ids.len() as nat),
{
    let mut n: usize = ids.len();
    while n > 0
        invariant
            n <= ids.len(),
            last_row_of(ids@, node, ids.len() as nat) == last_row_of(ids@, node, n as nat),
        decreases n,
    {
        if ids[n - 1] == node {
            return Some(n - 1);
        }
        n = n - 1;
    }
    None
}

/// Every seed of a sweep is answered exactly once: from the cache or by a
/// walk.
pub proof fn lemma_sweep_partitions(
    seeds: Seq<SizeSeed>,
    cached: Seq<Option<FolderSizeRecord>>,
    force: bool,
    now: i64,
    n: nat,
)
    ensures
        hits_upto(seeds, cached, force, now, n).len() + misses_upto(seeds, cached, force, now, n).len()
            == n,
    decreases n,
{
    if n > 0 {
        lemma_sweep_partitions(seeds, cached, force, now, (n - 1) as nat);
    }
}

/// A forced sweep answers nothing from the cache.
pub proof fn lemma_forced_sweep_walks_everything(
    seeds: Seq<SizeSeed>,
    cached: Seq<Option<FolderSizeRecord>>,
    now: i64,
    n: nat,
)
    ensures
        hits_upto(seeds, cached, true, now, n).len() == 0,
    decreases n,
{
    if n > 0 {
        lemma_forced_sweep_walks_everything(seeds, cached, now, (n - 1) as nat);
    }
}

/// The seeds of a sizing pass over the first `n` rows: every directory row
/// whose path is known, in row order. Symbolic links to directories are
/// never followed.
pub open spec fn seeds_upto(entries: Seq<FileEntry>, known: Seq<bool>, n: nat) -> Seq<SizeSeed>
    decreases n,
{
    if n == 0 {
        Seq::empty()
    } else {
        let i = (n - 1) as int;
        let rest = seeds_upto(entries, known, (n - 1) as nat);
        if entries[i].kind == EntryKind::Directory && known[i] {
            rest.push(SizeSeed { row_ix: i as usize, node: entries[i].id, mtime_unix: entries[i].mtime_unix })
        } else {
            rest
        }
    }
}

/// Snapshot the folder rows to size: each directory row whose path is
/// known (`known`, parallel to the rows), with its row, node and mtime.
pub fn size_seeds(entries: &[FileEntry], known: &[bool]) -> (r: Vec<SizeSeed>)
    requires
        known@.len() == entries@.len(),
    ensures
        r@ == seeds_upto(entries@, known@, entries@.len() as nat),
{
    let mut out: Vec<SizeSeed> = Vec::new();
    let mut i: usize = 0;
    while i < entries.len()
        invariant
            i <= entries@.len(),
            known@.len() == entries@.len(),
            out@ == seeds_upto(entries@, known@, i as nat),
        decreases entries@.len() - i,
    {
        if entries[i].kind == EntryKind::Directory && known[i] {
            out.push(SizeSeed { row_ix: i, node: entries[i].id, mtime_unix: entries[i].mtime_unix });
        }
        i = i + 1;
    }
    out
}

} // verus!
