use std::collections::HashSet;

use ferail_gpui::file_list::{
    archive_drag_for_row, drag_snapshot_rows, EntryKind, FileEntry, Selection, MAX_EAGER_DRAG_ITEMS,
};

fn sel(ids: &[u64]) -> Selection {
    Selection {
        selected_set: ids.iter().copied().collect(),
        selection_all: false,
        lead: None,
    }
}

fn sorted(s: &HashSet<u64>) -> Vec<u64> {
    let mut v: Vec<u64> = s.iter().copied().collect();
    v.sort();
    v
}

#[test]
fn plain_cmd_and_shift_clicks() {
    let ids = [10, 20, 30, 40, 50];
    let mut s = sel(&[10, 20]);
    s.apply_click_gesture(&ids, 2, false, false);
    assert_eq!(sorted(&s.selected_set), vec![30]);
    assert_eq!(s.lead, Some(30));

    s.apply_click_gesture(&ids, 0, false, true);
    assert_eq!(sorted(&s.selected_set), vec![10, 30]);
    s.apply_click_gesture(&ids, 2, false, true);
    assert_eq!(sorted(&s.selected_set), vec![10]);
    assert_eq!(s.lead, Some(30));

    // Shift from the lead (row 2) up to row 4, replacing the selection.
    s.apply_click_gesture(&ids, 4, true, false);
    assert_eq!(sorted(&s.selected_set), vec![30, 40, 50]);
    // Cmd+Shift adds the range from the new lead (row 4) back to row 0.
    let mut t = sel(&[99]);
    t.lead = Some(20);
    t.apply_click_gesture(&ids, 0, true, true);
    assert_eq!(sorted(&t.selected_set), vec![10, 20, 99]);
}

#[test]
fn a_click_ends_select_all_and_a_missing_lead_selects_one_row() {
    let ids = [1, 2, 3];
    let mut s = sel(&[2]);
    s.selection_all = true;
    s.lead = Some(77);
    s.apply_click_gesture(&ids, 1, true, false);
    assert!(!s.selection_all);
    assert_eq!(sorted(&s.selected_set), vec![2]);
    let before = sorted(&s.selected_set);
    s.apply_click_gesture(&ids, 9, false, false);
    assert_eq!(sorted(&s.selected_set), before);
    assert_eq!(s.lead, Some(2));
}

fn row_entry(id: u64) -> FileEntry {
    FileEntry {
        id,
        kind: EntryKind::File,
        display_name: format!("r{id}"),
        size: 0,
        mtime_unix: 0,
        is_quarantined: false,
        is_archive_name: false,
        format_label: String::new(),
    }
}

#[test]
fn archive_drags_carry_the_selection_or_the_pressed_row() {
    let entries = vec![row_entry(1), row_entry(2), row_entry(3)];
    let rows = vec![
        ("docs/".to_string(), true),
        ("docs/a.txt".to_string(), false),
        ("b.txt".to_string(), false),
    ];
    let s = sel(&[1, 3]);
    let drag = archive_drag_for_row("/x.zip", &rows, &entries, &s, 0, true, Some("pw".to_string())).unwrap();
    assert_eq!(drag.archive, "/x.zip");
    assert_eq!(drag.entries, vec!["docs/".to_string(), "b.txt".to_string()]);
    assert_eq!(drag.directories, vec![true, false]);
    assert_eq!(drag.password.as_deref(), Some("pw"));

    let single = archive_drag_for_row("/x.zip", &rows, &entries, &s, 1, false, None).unwrap();
    assert_eq!(single.entries, vec!["docs/a.txt".to_string()]);
    assert_eq!(single.directories, vec![false]);
    assert!(single.password.is_none());

    assert!(archive_drag_for_row("/x.zip", &rows, &entries, &s, 7, false, None).is_none());
    assert!(archive_drag_for_row("/x.zip", &rows, &entries, &sel(&[]), 0, true, None).is_none());
}

#[test]
fn drag_snapshots_take_known_selected_rows_in_order() {
    let entries = vec![row_entry(1), row_entry(2), row_entry(3), row_entry(4)];
    let s = sel(&[4, 2, 1]);
    assert_eq!(drag_snapshot_rows(&entries, &s, &[true, true, true, false], false), vec![0, 1]);
    assert!(drag_snapshot_rows(&entries, &s, &[true; 4], true).is_empty());
    let all = Selection {
        selected_set: [3].into_iter().collect(),
        selection_all: true,
        lead: None,
    };
    assert_eq!(drag_snapshot_rows(&entries, &all, &[true; 4], false), vec![0, 1, 3]);
    let big: Vec<u64> = (0..=MAX_EAGER_DRAG_ITEMS as u64).collect();
    let huge = sel(&big);
    let many: Vec<FileEntry> = (0..=MAX_EAGER_DRAG_ITEMS as u64).map(row_entry).collect();
    let known = vec![true; many.len()];
    assert!(drag_snapshot_rows(&many, &huge, &known, false).is_empty());
}
