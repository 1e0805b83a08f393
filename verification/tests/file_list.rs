use std::collections::HashSet;

use ferail_gpui::file_list::columns::{
    columns_spec, default_columns, split_persisted_columns, ColumnLayout, ColumnSlot,
};
use ferail_gpui::file_list::sort::{sort_action, sort_by_heat, sort_by_path, sort_in_place, SortAction};
use ferail_gpui::file_list::{
    archive_drop_target, archive_promise_names, clear_row_buffer, native_archive_drag,
    native_archive_drag_active, resolve_ant_sort, resolve_menu_targets, resolve_menu_targets_with_mode,
    set_native_archive_drag, take_native_archive_drag, ArchiveDropTarget, ArchiveEntryDrag, Availability,
    EntryKind, FileEntry, MenuCapCounts, MenuTargets, SortColumn, TargetCap,
};

fn entry(id: u64, name: &str, kind: EntryKind, size: u64, mtime: i64) -> FileEntry {
    FileEntry {
        id,
        kind,
        display_name: name.to_string(),
        size,
        mtime_unix: mtime,
        is_quarantined: false,
        is_archive_name: name.ends_with(".zip"),
        format_label: String::new(),
    }
}

fn ids(entries: &[FileEntry]) -> Vec<u64> {
    entries.iter().map(|e| e.id).collect()
}

#[test]
fn promise_names_preserve_real_leafs_and_disambiguate_collisions() {
    let names = archive_promise_names(
        &[
            "first/report.pdf".into(),
            "second/report.pdf".into(),
            "folder/".into(),
            "other/folder/".into(),
            "safe\u{202e}fdp.exe".into(),
        ],
        &[false, false, true, true, false],
    );
    assert_eq!(
        names,
        ["report.pdf", "report 2.pdf", "folder", "folder 2", "safe\u{202e}fdp.exe"]
    );
}

#[test]
fn promise_names_fall_back_and_count_case_insensitively() {
    let names = archive_promise_names(
        &["/".into(), "A/Notes.TXT".into(), "b/notes.txt".into(), ".hidden".into(), "x/.hidden".into()],
        &[false, false, false, false, true],
    );
    assert_eq!(names, ["archive-item", "Notes.TXT", "notes 2.txt", ".hidden", ".hidden 2"]);
}

#[test]
fn flat_per_row_indexes_stay_small() {
    let bytes = std::mem::size_of::<u32>()
        + std::mem::size_of::<std::sync::Arc<str>>()
        + std::mem::size_of::<u8>();
    assert_eq!(bytes, 21);
}

#[test]
fn flat_exit_releases_row_buffer_capacity() {
    let mut rows = Vec::with_capacity(4_096);
    rows.extend([1_u8, 2, 3]);

    clear_row_buffer(&mut rows, true);

    assert!(rows.is_empty());
    assert_eq!(rows.capacity(), 0);
}

#[test]
fn ordinary_reload_keeps_row_buffer_capacity() {
    let mut rows = Vec::with_capacity(4_096);
    rows.extend([1_u8, 2, 3]);
    let capacity = rows.capacity();

    clear_row_buffer(&mut rows, false);

    assert!(rows.is_empty());
    assert_eq!(rows.capacity(), capacity);
}

fn keys(cols: &[ColumnSlot]) -> Vec<String> {
    cols.iter().map(|c| c.key.clone()).collect()
}

fn widths(cols: &[ColumnSlot]) -> Vec<(String, String)> {
    // The caller formats each column's live width; here a missing token
    // stands for the built-in default.
    cols.iter()
        .map(|c| {
            let default = match c.key.as_str() {
                "name" => "360",
                "size" => "100",
                "format" => "220",
                "modified" => "160",
                _ => "300",
            };
            (c.key.clone(), c.width.clone().unwrap_or_else(|| default.to_string()))
        })
        .collect()
}

#[test]
fn spec_round_trips_order_and_widths() {
    let (cols, hidden) = split_persisted_columns(Some("modified:200,name:420,size:90"));
    assert!(hidden.is_empty());
    // Listed keys in spec order; unlisted (format, description) trail in
    // default relative order.
    assert_eq!(keys(&cols), ["modified", "name", "size", "format", "description"]);
    assert_eq!(cols[0].width.as_deref(), Some("200"));
    assert_eq!(cols[1].width.as_deref(), Some("420"));
    assert_eq!(cols[2].width.as_deref(), Some("90"));
    // Serialize → re-split gives the same layout.
    let spec = columns_spec(&widths(&cols), &widths(&hidden));
    let (again, _) = split_persisted_columns(Some(&spec));
    assert_eq!(keys(&again), keys(&cols));
    assert_eq!(again[0].width, cols[0].width);
}

#[test]
fn hidden_columns_round_trip() {
    let (visible, hidden) =
        split_persisted_columns(Some("name:360:1,size:100:1,format:220:0,modified:160:1"));
    assert!(visible.iter().all(|c| c.key != "format"));
    assert_eq!(hidden.len(), 1);
    assert_eq!(hidden[0].key, "format");
    let spec = columns_spec(&widths(&visible), &widths(&hidden));
    let (v2, h2) = split_persisted_columns(Some(&spec));
    assert!(v2.iter().all(|c| c.key != "format"));
    assert_eq!(h2.len(), 1);
    assert_eq!(h2[0].key, "format");
}

#[test]
fn name_column_is_never_hidden() {
    let (visible, hidden) = split_persisted_columns(Some("name:360:0,size:100:1"));
    assert!(visible.iter().any(|c| c.key == "name"));
    assert!(hidden.iter().all(|c| c.key != "name"));
}

#[test]
fn hostile_specs_cannot_wedge_the_table() {
    // Unknown keys, garbage widths, empty entries: the built-in columns
    // survive, in default order; width tokens are the caller's to parse
    // and clamp.
    let (cols, hidden) = split_persisted_columns(Some("bogus:10,,name:NaN,size:-50,modified:99999"));
    assert!(hidden.is_empty());
    assert_eq!(cols.len(), default_columns().len());
    assert_eq!(cols[0].key, "name");
    assert_eq!(cols[1].key, "size");
    assert_eq!(cols[2].key, "modified");
    // Live widths go into the spec, each visible token with its `:1` flag.
    let live = vec![
        ("name".to_string(), "111".to_string()),
        ("size".to_string(), "222".to_string()),
    ];
    let spec = columns_spec(&live, &Vec::new());
    assert!(spec.starts_with("name:111:1,size:222:1"));
}

#[test]
fn missing_spec_is_the_default_layout() {
    let (cols, hidden) = split_persisted_columns(None);
    assert!(hidden.is_empty());
    assert_eq!(keys(&cols), keys(&default_columns()));
}

#[test]
fn reapplying_sort_is_order_independent() {
    let mk = || {
        vec![
            entry(1, "bravo.txt", EntryKind::File, 30, 100),
            entry(2, "alpha.txt", EntryKind::File, 10, 300),
            entry(3, "charlie.txt", EntryKind::File, 20, 200),
            entry(4, "sub", EntryKind::Directory, 0, 50),
        ]
    };
    for (col, asc) in [
        (SortColumn::Name, true),
        (SortColumn::Size, false),
        (SortColumn::Modified, false),
    ] {
        let mut from_load_order = mk();
        sort_in_place(&mut from_load_order, col, asc);

        let mut reshuffled = mk();
        reshuffled.reverse();
        sort_in_place(&mut reshuffled, col, asc);

        assert_eq!(
            ids(&from_load_order),
            ids(&reshuffled),
            "sort {col:?} asc={asc} must be independent of arrival order"
        );
    }
}

#[test]
fn sort_orders_by_the_column_within_each_group() {
    let mut rows = vec![
        entry(1, "bravo.txt", EntryKind::File, 30, 100),
        entry(2, "alpha.txt", EntryKind::File, 10, 300),
        entry(3, "charlie.txt", EntryKind::File, 20, 200),
        entry(4, "sub", EntryKind::Directory, 0, 50),
    ];
    sort_in_place(&mut rows, SortColumn::Name, true);
    assert_eq!(ids(&rows), vec![4, 2, 1, 3]);
    sort_in_place(&mut rows, SortColumn::Size, false);
    assert_eq!(ids(&rows), vec![4, 1, 3, 2]);
    sort_in_place(&mut rows, SortColumn::Modified, true);
    assert_eq!(ids(&rows), vec![4, 1, 3, 2]);
}

#[test]
fn folders_lead_in_both_directions() {
    let mut rows = vec![
        entry(1, "zeta.txt", EntryKind::File, 0, 0),
        entry(2, "dir-b", EntryKind::Directory, 0, 0),
        entry(3, "alpha.txt", EntryKind::File, 0, 0),
        entry(4, "dir-a", EntryKind::Directory, 0, 0),
    ];
    sort_in_place(&mut rows, SortColumn::Name, false);
    assert!(
        matches!(rows[0].kind, EntryKind::Directory) && matches!(rows[1].kind, EntryKind::Directory),
        "directories must lead even on a descending sort"
    );
}

fn heat_of(id: u64) -> u32 {
    // Visit heat quantized to thousandths.
    match id {
        3 => 1000,
        5 => 400,
        _ => 0,
    }
}

#[test]
fn ant_trail_sort_ranks_hot_folders_first() {
    let mut rows = vec![
        entry(1, "cold", EntryKind::Directory, 0, 0),
        entry(2, "zeta.txt", EntryKind::File, 0, 0),
        entry(3, "hot", EntryKind::Directory, 0, 0),
        entry(4, "alpha.txt", EntryKind::File, 0, 0),
        entry(5, "warm", EntryKind::Directory, 0, 0),
    ];
    let mut heats: Vec<u32> = rows.iter().map(|e| heat_of(e.id)).collect();
    sort_by_heat(&mut rows, &mut heats, false);
    assert_eq!(ids(&rows), vec![3, 5, 1, 4, 2]);

    let mut heats: Vec<u32> = rows.iter().map(|e| heat_of(e.id)).collect();
    sort_by_heat(&mut rows, &mut heats, true);
    assert_eq!(ids(&rows), vec![1, 5, 3, 4, 2]);
    assert_eq!(heats, rows.iter().map(|e| heat_of(e.id)).collect::<Vec<_>>());
}

#[test]
fn a_stale_surface_flag_cannot_swallow_an_ant_trail_pick() {
    assert_eq!(
        resolve_ant_sort(SortColumn::AntTrail, false, true),
        (SortColumn::AntTrail, false)
    );
    assert_eq!(
        resolve_ant_sort(SortColumn::AntTrail, true, true),
        (SortColumn::AntTrail, true)
    );
    assert_eq!(
        resolve_ant_sort(SortColumn::AntTrail, false, false),
        (SortColumn::Name, true)
    );
    for col in [
        SortColumn::Name,
        SortColumn::Size,
        SortColumn::Format,
        SortColumn::Modified,
        SortColumn::Path,
    ] {
        assert_eq!(resolve_ant_sort(col, false, false), (col, false));
        assert_eq!(resolve_ant_sort(col, true, true), (col, true));
    }
}

#[test]
fn ant_trail_sort_falls_back_to_name_when_cold() {
    let mut rows = vec![
        entry(1, "delta", EntryKind::Directory, 0, 0),
        entry(2, "bravo", EntryKind::Directory, 0, 0),
        entry(3, "charlie", EntryKind::Directory, 0, 0),
    ];
    let mut heats = vec![0u32; 3];
    sort_by_heat(&mut rows, &mut heats, false);
    assert_eq!(ids(&rows), vec![2, 3, 1]);
}

#[test]
fn sort_column_names_and_aliases_parse() {
    assert_eq!(SortColumn::parse("kind"), Some(SortColumn::Format));
    assert_eq!(SortColumn::parse("mtime"), Some(SortColumn::Modified));
    assert_eq!(SortColumn::parse("heat"), Some(SortColumn::AntTrail));
    assert_eq!(SortColumn::parse("bogus"), None);
}

fn cap(is_quarantined: bool) -> TargetCap {
    TargetCap {
        kind: EntryKind::File,
        is_quarantined,
        is_archive: false,
    }
}

fn dir_cap() -> TargetCap {
    TargetCap {
        kind: EntryKind::Directory,
        is_quarantined: false,
        is_archive: false,
    }
}

fn rows() -> Vec<FileEntry> {
    vec![
        entry(1, "notes.txt", EntryKind::File, 0, 0),
        entry(2, "bundle.zip", EntryKind::File, 0, 0),
        entry(3, "sub", EntryKind::Directory, 0, 0),
    ]
}

fn selection(ids: &[u64]) -> HashSet<u64> {
    ids.iter().copied().collect()
}

fn targets(caps: Vec<TargetCap>) -> MenuTargets {
    MenuTargets {
        count: caps.len(),
        any_quarantined: caps.iter().any(|cap| cap.is_quarantined),
        any_archive: caps.iter().any(|cap| cap.is_archive),
        anchor: None,
    }
}

fn with_anchor(anchor: TargetCap) -> MenuTargets {
    MenuTargets {
        count: 1,
        any_quarantined: anchor.is_quarantined,
        any_archive: anchor.is_archive,
        anchor: Some(anchor),
    }
}

#[test]
fn clicked_row_resolves_with_no_selection() {
    let t = resolve_menu_targets(&rows(), &selection(&[]), 1);
    assert!(t.is_single());
    assert!(t.any_archive());
    assert!(Availability::SingleOnly.allows(&t));
    assert!(Availability::AnchorFile.allows(&t));
}

#[test]
fn click_outside_selection_targets_only_that_row() {
    let t = resolve_menu_targets(&rows(), &selection(&[1, 3]), 1);
    assert!(t.is_single());
    assert!(t.any_archive());
}

#[test]
fn click_inside_selection_targets_whole_set() {
    let t = resolve_menu_targets(&rows(), &selection(&[1, 3]), 2);
    assert_eq!(t.len(), 2);
    assert!(t.is_multi());
    assert!(!Availability::SingleOnly.allows(&t));
    assert!(Availability::AnchorDir.allows(&t));
}

#[test]
fn out_of_range_row_resolves_empty() {
    let t = resolve_menu_targets(&rows(), &selection(&[1]), 9);
    assert!(t.is_empty());
    assert!(t.anchor.is_none());
}

#[test]
fn any_shows_on_mixed_selection_regardless_of_order() {
    let quarantined_first = targets(vec![cap(true), cap(false)]);
    let clean_first = targets(vec![cap(false), cap(true)]);
    assert!(quarantined_first.any_quarantined());
    assert!(clean_first.any_quarantined());
}

#[test]
fn any_hidden_when_no_target_qualifies() {
    assert!(!targets(vec![cap(false), cap(false)]).any_quarantined());
    assert!(!targets(vec![]).any_quarantined());
}

#[test]
fn count_helpers() {
    assert!(targets(vec![]).is_empty());
    assert!(targets(vec![cap(false)]).is_single());
    assert!(!targets(vec![cap(false)]).is_multi());
    assert!(targets(vec![cap(false), cap(false)]).is_multi());
    assert_eq!(targets(vec![cap(false), cap(false)]).len(), 2);
}

#[test]
fn symbolic_select_all_uses_constant_size_summary() {
    let rows = rows();
    let counts = MenuCapCounts::from_entries(&rows);
    let targets = resolve_menu_targets_with_mode(&rows, &selection(&[]), true, 0, counts);
    assert_eq!(targets.len(), rows.len());
    assert!(targets.any_archive());
    assert!(std::mem::size_of::<MenuTargets>() <= 64);
}

#[test]
fn single_only_shows_for_exactly_one() {
    assert!(!Availability::SingleOnly.allows(&targets(vec![])));
    assert!(Availability::SingleOnly.allows(&targets(vec![cap(false)])));
    assert!(!Availability::SingleOnly.allows(&targets(vec![cap(false), cap(false)])));
}

#[test]
fn when_callbacks_for_capability_and_anchor() {
    let quar = Availability::AnyQuarantined;
    assert!(quar.allows(&targets(vec![cap(false), cap(true)])));
    assert!(!quar.allows(&targets(vec![cap(false), cap(false)])));
    assert!(quar.allows(&with_anchor(dir_cap())));

    assert!(Availability::AnchorDir.allows(&with_anchor(dir_cap())));
    assert!(!Availability::AnchorDir.allows(&with_anchor(cap(false))));
    assert!(Availability::AnchorFile.allows(&with_anchor(cap(false))));
    assert!(!Availability::AnchorFile.allows(&with_anchor(dir_cap())));
    assert!(!Availability::AnchorDir.allows(&targets(vec![])));
    assert!(!Availability::AnchorFile.allows(&targets(vec![])));
}

#[test]
fn any_archive_needs_an_archive_target() {
    assert!(!Availability::AnyArchive.allows(&targets(vec![cap(false)])));
    let t = resolve_menu_targets(&rows(), &selection(&[]), 1);
    assert!(Availability::AnyArchive.allows(&t));
}

#[test]
fn cap_counts_extend_with_more_rows() {
    let mut counts = MenuCapCounts::from_entries(&rows());
    assert_eq!((counts.quarantined, counts.archives), (0, 1));
    let mut more = rows();
    more[0].is_quarantined = true;
    counts.extend(&more);
    assert_eq!((counts.quarantined, counts.archives), (1, 2));
}

fn drag() -> ArchiveEntryDrag {
    ArchiveEntryDrag {
        archive: "/tmp/a.zip".to_string(),
        entries: vec!["docs/".to_string(), "docs/readme.txt".to_string()],
        directories: vec![true, false],
        password: Some("pw".to_string()),
    }
}

#[test]
fn a_parked_drag_is_read_without_being_taken() {
    let mut slot: Option<ArchiveEntryDrag> = None;
    assert!(!native_archive_drag_active(&slot));
    assert!(native_archive_drag(&slot).is_none());
    set_native_archive_drag(&mut slot, Some(drag()));
    assert!(native_archive_drag_active(&slot));
    let copy = native_archive_drag(&slot).unwrap();
    assert_eq!(copy.archive, "/tmp/a.zip");
    assert_eq!(copy.entries, drag().entries);
    assert_eq!(copy.directories, vec![true, false]);
    assert_eq!(copy.password.as_deref(), Some("pw"));
    assert!(native_archive_drag_active(&slot));
    let taken = take_native_archive_drag(&mut slot).unwrap();
    assert_eq!(taken.entries.len(), 2);
    assert!(!native_archive_drag_active(&slot));
    assert!(take_native_archive_drag(&mut slot).is_none());
}

#[test]
fn only_recognized_archive_files_are_drop_targets() {
    assert_eq!(archive_drop_target(EntryKind::File, Some(true)), ArchiveDropTarget::Accepts);
    assert_eq!(archive_drop_target(EntryKind::File, Some(false)), ArchiveDropTarget::ReadOnly);
    assert_eq!(archive_drop_target(EntryKind::File, None), ArchiveDropTarget::No);
    assert_eq!(archive_drop_target(EntryKind::Directory, Some(true)), ArchiveDropTarget::No);
    assert_eq!(archive_drop_target(EntryKind::Symlink, Some(false)), ArchiveDropTarget::ReadOnly);
}

#[test]
fn flat_rows_sort_by_directory_rank_then_name_without_grouping_folders() {
    let mut rows = vec![
        entry(1, "b.txt", EntryKind::File, 0, 0),
        entry(2, "sub", EntryKind::Directory, 0, 0),
        entry(3, "A.txt", EntryKind::File, 0, 0),
        entry(4, "c.txt", EntryKind::File, 0, 0),
    ];
    let mut ranks = vec![1, 1, 0, 1];
    sort_by_path(&mut rows, &mut ranks, true);
    assert_eq!(ids(&rows), vec![3, 1, 4, 2]);
    assert_eq!(ranks, vec![0, 1, 1, 1]);
    sort_by_path(&mut rows, &mut ranks, false);
    assert_eq!(ids(&rows), vec![1, 4, 2, 3]);
}

#[test]
fn the_sort_pick_becomes_an_action() {
    assert_eq!(sort_action(1, SortColumn::Size, true, false, false), SortAction::Keep);
    assert_eq!(sort_action(5, SortColumn::Path, false, false, true), SortAction::ByPath(false));
    assert_eq!(sort_action(5, SortColumn::AntTrail, false, true, true), SortAction::ByHeat(false));
    assert_eq!(sort_action(5, SortColumn::AntTrail, false, false, false), SortAction::ByColumn(SortColumn::Name, true));
    assert_eq!(sort_action(5, SortColumn::Size, false, true, true), SortAction::ByColumn(SortColumn::Size, false));
}

#[test]
fn quarantine_changes_adjust_the_count_without_underflow() {
    let mut counts = MenuCapCounts::new();
    counts.note_quarantine_change(false, true);
    counts.note_quarantine_change(false, true);
    assert_eq!(counts.quarantined, 2);
    counts.note_quarantine_change(true, true);
    assert_eq!(counts.quarantined, 2);
    counts.note_quarantine_change(true, false);
    assert_eq!(counts.quarantined, 1);
    counts.note_quarantine_cleared(5);
    assert_eq!(counts.quarantined, 0);
    counts.note_quarantine_change(true, false);
    assert_eq!(counts.quarantined, 0);
    assert_eq!(counts.archives, 0);
}

#[test]
fn repeated_keys_in_a_spec_are_placed_once() {
    let (visible, hidden) = split_persisted_columns(Some("size:1:0,size:2:1,name:3,name:4:0,format:5:0"));
    let mut all = keys(&visible);
    all.extend(keys(&hidden));
    let distinct: HashSet<&String> = all.iter().collect();
    assert_eq!(distinct.len(), all.len());
    assert_eq!(keys(&visible), ["name", "modified", "description"]);
    assert_eq!(keys(&hidden), ["size", "format"]);
}

#[test]
fn toggling_moves_a_column_across_and_back() {
    let (visible, hidden) = split_persisted_columns(Some("name:360:1,size:100:1,format:220:0"));
    let mut layout = ColumnLayout { visible, hidden };
    assert!(layout.toggle_column("size"));
    assert_eq!(keys(&layout.visible), ["name", "modified", "description"]);
    assert_eq!(keys(&layout.hidden), ["format", "size"]);
    assert_eq!(layout.hidden[1].width.as_deref(), Some("100"));
    assert!(layout.toggle_column("format"));
    assert_eq!(keys(&layout.visible), ["name", "modified", "description", "format"]);
    assert_eq!(keys(&layout.hidden), ["size"]);
    assert!(!layout.toggle_column("name"));
    assert!(!layout.toggle_column("bogus"));
    assert_eq!(keys(&layout.hidden), ["size"]);
    assert!(layout.is_column_visible("format"));
    assert!(!layout.is_column_visible("size"));
}

#[test]
fn last_shown_column_stays() {
    let mut layout = ColumnLayout { visible: split_persisted_columns(None).0, hidden: Vec::new() };
    layout.visible.truncate(1);
    assert!(!layout.toggle_column("name"));
    assert_eq!(layout.visible.len(), 1);
}

#[test]
fn reset_restores_the_built_in_columns() {
    let (visible, hidden) = split_persisted_columns(Some("size:1:0,format:2:0"));
    let mut layout = ColumnLayout { visible, hidden };
    layout.reset_columns(true);
    assert!(layout.hidden.is_empty());
    assert_eq!(keys(&layout.visible), ["name", "size", "format", "modified", "description", "path"]);
    layout.reset_columns(false);
    assert_eq!(keys(&layout.visible), keys(&default_columns()));
}
