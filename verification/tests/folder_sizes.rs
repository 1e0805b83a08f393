use ferail_gpui::file_list::{EntryKind, FileEntry};
use ferail_gpui::folder_sizes::{
    batch_row_targets, cache_is_fresh, size_seeds, cached_folder_size, folder_sizing_enabled, sweep_cache,
    walker_switch_enabled, FolderSizeRecord, FolderSizingEnabled, SizeRow, SizeSeed,
    FOLDER_SIZE_TTL_SECS, SIZE_ROWS_PER_BATCH,
};

fn record(mtime: i64, size: u64, computed_at: i64) -> FolderSizeRecord {
    FolderSizeRecord {
        mtime_unix: mtime,
        size,
        computed_at_unix: computed_at,
        file_count: 1,
        dir_count: 0,
    }
}

#[test]
fn cached_folder_results_are_emitted_in_bounded_batches() {
    let now = 1_700_000_000;
    let mut seeds = Vec::new();
    let mut cached = Vec::new();
    for index in 0..(SIZE_ROWS_PER_BATCH * 2 + 3) {
        seeds.push(SizeSeed { row_ix: index, node: index as u64 + 1, mtime_unix: 123 });
        cached.push(Some(record(123, index as u64, now)));
    }
    let sweep = sweep_cache(&seeds, &cached, false, now);
    assert_eq!(sweep.hit_batches.len(), 3);
    assert!(sweep.hit_batches.iter().all(|batch| batch.len() <= SIZE_ROWS_PER_BATCH));
    assert_eq!(sweep.hit_batches.iter().map(Vec::len).sum::<usize>(), 131);
    assert!(sweep.misses.is_empty());
}

#[test]
fn stale_changed_or_missing_rows_are_walked_and_force_walks_everything() {
    let now = 10_000;
    let seeds = vec![
        SizeSeed { row_ix: 0, node: 1, mtime_unix: 5 },
        SizeSeed { row_ix: 1, node: 2, mtime_unix: 5 },
        SizeSeed { row_ix: 2, node: 3, mtime_unix: 5 },
        SizeSeed { row_ix: 3, node: 4, mtime_unix: 5 },
    ];
    let cached = vec![
        Some(record(5, 42, now - 10)),
        Some(record(6, 42, now - 10)),
        Some(record(5, 42, now - FOLDER_SIZE_TTL_SECS)),
        None,
    ];
    let sweep = sweep_cache(&seeds, &cached, false, now);
    assert_eq!(sweep.hit_batches.len(), 1);
    assert_eq!(
        sweep.hit_batches[0],
        vec![SizeRow { row_ix: 0, node: 1, size: 42, file_count: 1, dir_count: 0 }]
    );
    assert_eq!(sweep.misses, vec![1, 2, 3]);
    let forced = sweep_cache(&seeds, &cached, true, now);
    assert!(forced.hit_batches.is_empty());
    assert_eq!(forced.misses, vec![0, 1, 2, 3]);
}

#[test]
fn freshness_needs_the_same_mtime_and_a_young_row() {
    let rec = record(7, 9, 1_000);
    assert!(cache_is_fresh(&rec, 7, 1_000 + FOLDER_SIZE_TTL_SECS - 1));
    assert!(!cache_is_fresh(&rec, 7, 1_000 + FOLDER_SIZE_TTL_SECS));
    assert!(!cache_is_fresh(&rec, 8, 1_000));
    assert!(cache_is_fresh(&record(7, 9, i64::MAX), 7, i64::MIN));
    assert_eq!(cached_folder_size(7, Some(rec), 1_001), Some(9));
    assert_eq!(cached_folder_size(8, Some(rec), 1_001), None);
    assert_eq!(cached_folder_size(7, None, 1_001), None);
}

#[test]
fn results_follow_their_node_when_rows_moved() {
    let row = |row_ix: usize, node: u64| SizeRow { row_ix, node, size: 1, file_count: 0, dir_count: 0 };
    let ids = vec![10, 20, 30];
    assert_eq!(batch_row_targets(&ids, &vec![row(0, 10), row(2, 30)]), vec![Some(0), Some(2)]);
    // The list re-sorted: every row is located by its node again.
    let moved = vec![30, 10, 20];
    assert_eq!(
        batch_row_targets(&moved, &vec![row(0, 10), row(2, 30), row(1, 99)]),
        vec![Some(1), Some(0), None]
    );
    assert_eq!(batch_row_targets(&ids, &vec![row(7, 10)]), vec![Some(0)]);
}

#[test]
fn the_walker_switches() {
    assert!(folder_sizing_enabled(None));
    assert!(!folder_sizing_enabled(Some(FolderSizingEnabled(false))));
    assert!(folder_sizing_enabled(Some(FolderSizingEnabled(true))));
    assert!(walker_switch_enabled(Some("1")));
    assert!(walker_switch_enabled(Some("yes")));
    assert!(!walker_switch_enabled(Some("0")));
    assert!(!walker_switch_enabled(Some("")));
    assert!(!walker_switch_enabled(None));
}

#[test]
fn only_known_directory_rows_are_sized() {
    let mk = |id: u64, kind: EntryKind, mtime: i64| FileEntry {
        id,
        kind,
        display_name: format!("e{id}"),
        size: 0,
        mtime_unix: mtime,
        is_quarantined: false,
        is_archive_name: false,
        format_label: String::new(),
    };
    let entries = vec![
        mk(1, EntryKind::Directory, 10),
        mk(2, EntryKind::File, 20),
        mk(3, EntryKind::Symlink, 30),
        mk(4, EntryKind::Directory, 40),
        mk(5, EntryKind::Directory, 50),
    ];
    let seeds = size_seeds(&entries, &[true, true, true, false, true]);
    assert_eq!(seeds.len(), 2);
    assert_eq!((seeds[0].row_ix, seeds[0].node, seeds[0].mtime_unix), (0, 1, 10));
    assert_eq!((seeds[1].row_ix, seeds[1].node, seeds[1].mtime_unix), (4, 5, 50));
}
