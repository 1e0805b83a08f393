use ferail_gpui::file_list::flat::FlatPathStore;
use ferail_gpui::file_list::model::{apply_sort, apply_sort_named, reset_sort, sort_model, RowDecor, TagColor};
use ferail_gpui::file_list::{EntryKind, FileEntry, SortColumn};

fn entry(id: u64, name: &str, kind: EntryKind, size: u64) -> FileEntry {
    FileEntry {
        id,
        kind,
        display_name: name.to_string(),
        size,
        mtime_unix: 0,
        is_quarantined: false,
        is_archive_name: false,
        format_label: String::new(),
    }
}

fn ids(entries: &[FileEntry]) -> Vec<u64> {
    entries.iter().map(|e| e.id).collect()
}

fn no_decor() -> RowDecor {
    RowDecor {
        heats: Vec::new(),
        tags: Vec::new(),
        favorited: Vec::new(),
    }
}

#[test]
fn decorations_travel_with_their_rows() {
    let mut entries = vec![
        entry(1, "c.txt", EntryKind::File, 10),
        entry(2, "a.txt", EntryKind::File, 30),
        entry(3, "b.txt", EntryKind::File, 20),
    ];
    let mut decor = RowDecor {
        heats: vec![7, 8, 9],
        tags: vec![vec![TagColor::Red], vec![], vec![TagColor::Blue, TagColor::Gray]],
        favorited: vec![true, false, false],
    };
    sort_model(&mut entries, &mut decor, None, &Vec::new(), SortColumn::Name, true);
    assert_eq!(ids(&entries), vec![2, 3, 1]);
    assert_eq!(decor.heats, vec![8, 9, 7]);
    assert_eq!(
        decor.tags,
        vec![vec![], vec![TagColor::Blue, TagColor::Gray], vec![TagColor::Red]]
    );
    assert_eq!(decor.favorited, vec![false, false, true]);
}

#[test]
fn unfilled_decorations_stay_empty_and_short_ones_are_padded() {
    let mut entries = vec![
        entry(1, "b", EntryKind::File, 1),
        entry(2, "a", EntryKind::File, 2),
    ];
    let mut decor = RowDecor {
        heats: Vec::new(),
        tags: Vec::new(),
        favorited: vec![true],
    };
    sort_model(&mut entries, &mut decor, None, &Vec::new(), SortColumn::Size, false);
    assert_eq!(ids(&entries), vec![2, 1]);
    assert!(decor.heats.is_empty());
    assert!(decor.tags.is_empty());
    assert_eq!(decor.favorited, vec![false, true]);
}

#[test]
fn heat_order_without_heat_falls_back_to_name() {
    let mut entries = vec![
        entry(1, "zeta", EntryKind::File, 0),
        entry(2, "alpha", EntryKind::File, 0),
        entry(3, "mid", EntryKind::Directory, 0),
    ];
    let mut decor = no_decor();
    sort_model(&mut entries, &mut decor, None, &Vec::new(), SortColumn::AntTrail, false);
    assert_eq!(ids(&entries), vec![3, 2, 1]);
}

#[test]
fn heat_order_puts_the_hottest_folder_first_when_descending() {
    let mut entries = vec![
        entry(1, "cold", EntryKind::Directory, 0),
        entry(2, "file", EntryKind::File, 0),
        entry(3, "hot", EntryKind::Directory, 0),
    ];
    let mut decor = RowDecor {
        heats: vec![1, 0, 5],
        tags: Vec::new(),
        favorited: vec![false, true, false],
    };
    sort_model(&mut entries, &mut decor, None, &Vec::new(), SortColumn::AntTrail, false);
    assert_eq!(ids(&entries), vec![3, 1, 2]);
    assert_eq!(decor.heats, vec![5, 1, 0]);
    assert_eq!(decor.favorited, vec![false, false, true]);
}

#[test]
fn a_single_row_is_left_alone() {
    let mut entries = vec![entry(1, "only", EntryKind::File, 0)];
    let mut decor = RowDecor {
        heats: vec![3, 4],
        tags: Vec::new(),
        favorited: Vec::new(),
    };
    sort_model(&mut entries, &mut decor, None, &Vec::new(), SortColumn::Name, true);
    assert_eq!(ids(&entries), vec![1]);
    assert_eq!(decor.heats, vec![3, 4]);
}

#[test]
fn flat_path_order_follows_directory_ranks() {
    let base = 1000;
    let mut store = FlatPathStore::new("/r", base);
    let rows: Vec<(String, String)> = [("x", "b"), ("y", "a"), ("z", "b")]
        .iter()
        .map(|(n, d)| (n.to_string(), d.to_string()))
        .collect();
    store.append(&rows);
    let ranks = store.directory_ranks();
    let mut entries = vec![
        entry(base + 1, "x", EntryKind::File, 0),
        entry(base + 2, "y", EntryKind::File, 0),
        entry(base + 3, "z", EntryKind::File, 0),
    ];
    let mut decor = no_decor();
    sort_model(&mut entries, &mut decor, Some(&store), &ranks, SortColumn::Path, true);
    assert_eq!(ids(&entries), vec![base + 2, base + 1, base + 3]);
    sort_model(&mut entries, &mut decor, Some(&store), &ranks, SortColumn::Path, false);
    assert_eq!(ids(&entries), vec![base + 1, base + 3, base + 2]);
    sort_model(&mut entries, &mut decor, Some(&store), &ranks, SortColumn::Name, false);
    assert_eq!(ids(&entries), vec![base + 3, base + 2, base + 1]);
}

#[test]
fn path_outside_a_flat_listing_keeps_the_order() {
    let mut entries = vec![
        entry(1, "b", EntryKind::File, 0),
        entry(2, "a", EntryKind::File, 0),
    ];
    let mut decor = RowDecor {
        heats: Vec::new(),
        tags: vec![vec![TagColor::Green]],
        favorited: Vec::new(),
    };
    sort_model(&mut entries, &mut decor, None, &Vec::new(), SortColumn::Path, true);
    assert_eq!(ids(&entries), vec![1, 2]);
    assert_eq!(decor.tags, vec![vec![TagColor::Green], vec![]]);
}

#[test]
fn picking_and_resetting_a_sort_is_remembered() {
    let mut entries = vec![
        entry(1, "b", EntryKind::File, 5),
        entry(2, "a", EntryKind::File, 9),
    ];
    let mut decor = no_decor();
    let mut current = None;
    apply_sort(&mut entries, &mut decor, None, &Vec::new(), &mut current, SortColumn::Size, false);
    assert_eq!(current, Some((SortColumn::Size, false)));
    assert_eq!(ids(&entries), vec![2, 1]);
    reset_sort(&mut entries, &mut decor, None, &Vec::new(), &mut current);
    assert_eq!(current, None);
    assert_eq!(ids(&entries), vec![2, 1]);
    assert!(apply_sort_named(&mut entries, &mut decor, None, &Vec::new(), &mut current, "size", true));
    assert_eq!(ids(&entries), vec![1, 2]);
    assert_eq!(current, Some((SortColumn::Size, true)));
    assert!(!apply_sort_named(&mut entries, &mut decor, None, &Vec::new(), &mut current, "colour", false));
    assert_eq!(ids(&entries), vec![1, 2]);
    assert_eq!(current, Some((SortColumn::Size, true)));
}
