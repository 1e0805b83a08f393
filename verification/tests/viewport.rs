use ferail_gpui::file_list::viewport::{
    detail_seed_rows, overscan_window, thumbnail_priority, AssetPriority, DetailWarmer, RowSpan, ScanOutcome,
    DETAIL_OVERSCAN, THUMB_OVERSCAN,
};
use ferail_gpui::file_list::{EntryKind, FileEntry};

fn entry(id: u64) -> FileEntry {
    FileEntry {
        id,
        kind: EntryKind::File,
        display_name: format!("f{id}"),
        size: 0,
        mtime_unix: 0,
        is_quarantined: false,
        is_archive_name: false,
        format_label: String::new(),
    }
}

#[test]
fn windows_are_widened_and_clipped() {
    assert_eq!(overscan_window(40, 60, DETAIL_OVERSCAN, 1000), (24, 76));
    assert_eq!(overscan_window(3, 10, DETAIL_OVERSCAN, 20), (0, 20));
    assert_eq!(overscan_window(0, 5, THUMB_OVERSCAN, 100), (0, 13));
    assert_eq!(overscan_window(10, usize::MAX, 8, 50), (2, 50));
}

#[test]
fn selected_rows_come_first_then_visible_ones() {
    assert_eq!(thumbnail_priority(true, 0, 5, 9), AssetPriority::Selected);
    assert_eq!(thumbnail_priority(false, 5, 5, 9), AssetPriority::Visible);
    assert_eq!(thumbnail_priority(false, 9, 5, 9), AssetPriority::Overscan);
    assert_eq!(thumbnail_priority(false, 2, 5, 9), AssetPriority::Overscan);
}

#[test]
fn nothing_is_scanned_until_enabled() {
    let mut w = DetailWarmer::new();
    assert_eq!(w.request(true, 0, 10, 100), None);
    w.enable_visible_details(false);
    assert_eq!(w.request(false, 0, 10, 100), None);
    assert_eq!(w.request(true, 0, 10, 100), Some((0, 26)));
}

#[test]
fn a_request_during_a_scan_is_deferred_and_rewarmed() {
    let mut w = DetailWarmer::new();
    w.enable_visible_details(true);
    assert_eq!(w.request(true, 0, 10, 100), Some((0, 26)));
    let (rev, force) = w.launch();
    assert!(force);
    assert_eq!(w.request(true, 30, 40, 100), None);
    assert_eq!(w.request(true, 50, 60, 100), None);
    assert_eq!(
        w.finish(true, rev, 50, 60),
        ScanOutcome::Done {
            apply: true,
            rewarm: Some(RowSpan { start: 50, end: 60 })
        }
    );
    assert!(!w.in_flight);
    assert_eq!(w.request(true, 50, 60, 100), Some((34, 76)));
}

#[test]
fn results_for_reordered_rows_are_dropped_and_the_view_rescanned() {
    let mut w = DetailWarmer::new();
    w.enable_visible_details(false);
    let (rev, _) = w.launch();
    w.invalidate();
    assert_eq!(
        w.finish(true, rev, 3, 7),
        ScanOutcome::Done {
            apply: false,
            rewarm: Some(RowSpan { start: 3, end: 7 })
        }
    );
}

#[test]
fn a_superseded_scan_changes_nothing() {
    let mut w = DetailWarmer::new();
    w.enable_visible_details(false);
    let (rev, _) = w.launch();
    let before = w;
    assert_eq!(w.finish(false, rev, 0, 1), ScanOutcome::Stale);
    assert_eq!(w, before);
}

#[test]
fn cancelling_resets_and_moves_the_revision_on() {
    let mut w = DetailWarmer::new();
    w.enable_visible_details(true);
    w.launch();
    w.cancel_visible_details();
    assert_eq!(
        w,
        DetailWarmer {
            ready: false,
            force: false,
            in_flight: false,
            pending: None,
            revision: 1
        }
    );
    w.begin_flat();
    assert!(w.ready);
    assert_eq!(w.revision, 2);
}

#[test]
fn thumbnails_land_only_on_their_own_row_and_revision() {
    let mut w = DetailWarmer::new();
    let entries = vec![entry(11), entry(12)];
    assert!(w.accepts_thumbnail_result(Some(4), 4, 0, &entries, 1, 12));
    assert!(!w.accepts_thumbnail_result(Some(4), 5, 0, &entries, 1, 12));
    assert!(!w.accepts_thumbnail_result(None, 4, 0, &entries, 1, 12));
    assert!(!w.accepts_thumbnail_result(Some(4), 4, 0, &entries, 0, 12));
    assert!(!w.accepts_thumbnail_result(Some(4), 4, 0, &entries, 2, 12));
    w.invalidate();
    assert!(!w.accepts_thumbnail_result(Some(4), 4, 0, &entries, 1, 12));
}

#[test]
fn detail_scans_seed_unloaded_rows_with_a_path() {
    let loaded = [false, true, false, false, false];
    let known = [true, true, false, true, true];
    assert_eq!(detail_seed_rows(&loaded, &known, 0, 5), vec![0, 3, 4]);
    assert_eq!(detail_seed_rows(&loaded, &known, 1, 4), vec![3]);
    assert!(detail_seed_rows(&loaded, &known, 2, 2).is_empty());
}
