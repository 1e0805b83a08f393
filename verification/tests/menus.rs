use std::collections::HashSet;

use ferail_gpui::file_list::menus::{background_menu_plan, row_menu_plan, trash_row_menu_plan, RowMenuFacts};
use ferail_gpui::file_list::{resolve_menu_targets, EntryKind, FileEntry};
use ferail_gpui::menu_plan::layout::Slot;
use ferail_gpui::menu_plan::prefs::Customization;

fn entry(id: u64, name: &str, kind: EntryKind) -> FileEntry {
    FileEntry {
        id,
        kind,
        display_name: name.to_string(),
        size: 0,
        mtime_unix: 0,
        is_quarantined: false,
        is_archive_name: name.ends_with(".zip"),
        format_label: String::new(),
    }
}

fn tokens(slots: &[Slot]) -> Vec<String> {
    slots.iter().map(|s| s.id().unwrap_or("-").to_string()).collect()
}

fn facts() -> RowMenuFacts {
    RowMenuFacts {
        anchor_is_manifest: false,
        has_target_path: true,
        lock_diagnostics: false,
        supports_tags: true,
        platform_shell_menu: false,
    }
}

fn rows() -> Vec<FileEntry> {
    vec![
        entry(1, "photo.png", EntryKind::File),
        entry(2, "bundle.zip", EntryKind::File),
        entry(3, "sub", EntryKind::Directory),
    ]
}

#[test]
fn a_single_image_offers_the_editors_and_single_target_commands() {
    let rows = rows();
    let t = resolve_menu_targets(&rows, &HashSet::new(), 0);
    let plan = row_menu_plan(&rows, 0, &t, &facts()).render(&Customization::new());
    assert_eq!(
        tokens(&plan),
        [
            "file.open",
            "file.open_in_new_tab",
            "file.edit",
            "file.edit_image",
            "file.edit_in_system_editor",
            "-",
            "file.get_info",
            "file.quick_look",
            "file.slideshow_from_here",
            "-",
            "file.reveal_in_finder",
            "file.copy_path",
            "file.generate_sha256",
            "file.create_checksum_file",
            "-",
            "file.rename",
            "file.duplicate",
            "file.make_alias",
            "file.compress",
            "file.open_as_archive",
            "file.open_with_app",
            "file.set_tag",
            "-",
            "file.move_to_trash",
            "file.delete_immediately",
        ]
    );
}

#[test]
fn a_multi_selection_drops_single_target_commands() {
    let rows = rows();
    let selected: HashSet<u64> = [2, 3].into_iter().collect();
    let t = resolve_menu_targets(&rows, &selected, 2);
    let plan = tokens(&row_menu_plan(&rows, 2, &t, &facts()).render(&Customization::new()));
    assert!(plan.contains(&"file.bulk_rename".to_string()));
    assert!(plan.contains(&"file.extract".to_string()));
    assert!(plan.contains(&"file.open_terminal_here".to_string()));
    assert!(plan.contains(&"file.toggle_favorite".to_string()));
    assert!(!plan.contains(&"file.rename".to_string()));
    assert!(!plan.contains(&"file.copy_path".to_string()));
    assert!(!plan.contains(&"file.convert_archive".to_string()));
    assert!(!plan.contains(&"file.open_with_app".to_string()));
}

#[test]
fn hidden_entries_and_platform_extras() {
    let rows = rows();
    let t = resolve_menu_targets(&rows, &HashSet::new(), 1);
    let mut f = facts();
    f.anchor_is_manifest = true;
    f.lock_diagnostics = true;
    f.platform_shell_menu = true;
    let custom = Customization::init(Some("file.row:file.make_alias"), None);
    let plan = tokens(&row_menu_plan(&rows, 1, &t, &f).render(&custom));
    assert!(plan.contains(&"file.verify_checksums".to_string()));
    assert!(plan.contains(&"file.show_lock_holders".to_string()));
    assert!(plan.contains(&"file.convert_archive".to_string()));
    assert!(!plan.contains(&"file.make_alias".to_string()));
    assert!(!plan.contains(&"file.edit_image".to_string()));
    assert_eq!(plan.last().map(String::as_str), Some("file.windows_context_menu"));
}

#[test]
fn background_and_trash_menus() {
    let plain = tokens(&background_menu_plan(false).render(&Customization::new()));
    assert_eq!(plain[0], "file.new_folder");
    assert_eq!(plain.last().map(String::as_str), Some("file.refresh"));
    let trash = tokens(&background_menu_plan(true).render(&Customization::new()));
    assert_eq!(trash, ["selection.select_all", "-", "file.reveal_in_finder", "file.copy_path", "-", "file.empty_trash", "file.refresh"]);
    let rows = rows();
    let dir = tokens(&trash_row_menu_plan(&rows, 2).render(&Customization::new()));
    assert_eq!(&dir[..3], ["file.open", "file.open_in_new_tab", "-"]);
    let file = tokens(&trash_row_menu_plan(&rows, 0).render(&Customization::new()));
    assert_eq!(&file[..3], ["file.open", "-", "file.restore_from_trash"]);
}
