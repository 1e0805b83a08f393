use ferail_gpui::keymap::local::{
    base_bindings, install, install_extras, BindContext, CatalogueCommand, LocalAction,
};
use ferail_gpui::keymap::{ShellAction, Shortcut};

fn sc(key: &str, primary: bool, shift: bool, alt: bool) -> Shortcut {
    Shortcut {
        key: key.to_string(),
        primary,
        shift,
        alt,
    }
}

fn find<'a>(
    list: &'a [ferail_gpui::keymap::local::LocalBinding],
    keys: &str,
    context: BindContext,
) -> Option<LocalAction> {
    list.iter()
        .find(|b| b.keys == keys && b.context == context)
        .map(|b| b.action)
}

#[test]
fn permanent_delete_follows_the_platform_convention() {
    let mac = install_extras(true);
    let other = install_extras(false);
    assert_eq!(mac.len(), other.len());
    assert_eq!(
        find(&mac, "secondary-alt-backspace", BindContext::Shell),
        Some(LocalAction::DeleteImmediately)
    );
    assert_eq!(find(&mac, "shift-delete", BindContext::Shell), None);
    assert_eq!(
        find(&other, "shift-delete", BindContext::Shell),
        Some(LocalAction::DeleteImmediately)
    );
    assert_eq!(find(&other, "secondary-alt-backspace", BindContext::Shell), None);
}

#[test]
fn extras_keep_contexts_apart() {
    let extras = install_extras(true);
    assert_eq!(extras.len(), 51);
    assert_eq!(extras[0].keys, "secondary-t");
    assert_eq!(extras[0].action, LocalAction::NewTab);
    assert_eq!(find(&extras, "up", BindContext::Favorites), Some(LocalAction::FocusFavoriteUp));
    assert_eq!(find(&extras, "up", BindContext::Viewer), Some(LocalAction::ViewerPrev));
    assert_eq!(find(&extras, "escape", BindContext::EntryInfo), Some(LocalAction::EntryInfoDismiss));
    assert_eq!(find(&extras, "space", BindContext::Shell), Some(LocalAction::QuickLook));
    assert_eq!(find(&extras, "space", BindContext::Viewer), Some(LocalAction::ViewerTogglePlay));
    assert_eq!(
        find(&extras, "secondary-shift-0", BindContext::Shell),
        Some(LocalAction::ZoomReset)
    );
    let last = extras.last().unwrap();
    assert_eq!(last.keys, "secondary-shift-=");
    assert_eq!(last.action, LocalAction::ViewerZoomIn);
}

#[test]
fn windows_adds_the_context_menu_key() {
    let win = base_bindings(true);
    let other = base_bindings(false);
    assert_eq!(win.len(), 17);
    assert_eq!(other.len(), 16);
    assert_eq!(win[0].action, LocalAction::ClearFilter);
    assert_eq!(win[1].keys, "shift-f10");
    assert_eq!(win[1].action, LocalAction::ShowWindowsContextMenu);
    assert_eq!(find(&other, "shift-f10", BindContext::Shell), None);
    assert_eq!(find(&other, "left", BindContext::Grid), Some(LocalAction::GridLeft));
    assert_eq!(find(&other, "enter", BindContext::DiskUsage), Some(LocalAction::DuZoomIn));
}

#[test]
fn install_walks_the_catalogue_and_reports_unknown_commands() {
    let commands = vec![
        CatalogueCommand {
            id: "file.new_tab".to_string(),
            shortcuts: vec![sc("T", true, false, false), sc("+", true, false, false)],
        },
        CatalogueCommand {
            id: "help.shortcuts".to_string(),
            shortcuts: vec![sc("/", true, false, false)],
        },
        CatalogueCommand {
            id: "bogus.command".to_string(),
            shortcuts: vec![sc("Q", true, true, false)],
        },
    ];
    let plan = install(&commands, false);
    assert_eq!(plan.local.len(), 16);
    let keys: Vec<&str> = plan.catalogue.iter().map(|b| b.keys.as_str()).collect();
    assert_eq!(keys, vec!["secondary-t", "secondary-/", "secondary-k"]);
    assert_eq!(plan.catalogue[0].action, ShellAction::NewTab);
    assert_eq!(plan.catalogue[1].action, ShellAction::ShortcutsHelp);
    assert_eq!(plan.catalogue[2].action, ShellAction::ShortcutsHelp);
    assert_eq!(
        plan.unresolved,
        vec![("bogus.command".to_string(), "secondary-shift-q".to_string())]
    );
}

#[test]
fn a_known_catalogue_installs_cleanly() {
    let commands = vec![CatalogueCommand {
        id: "file.new_tab".to_string(),
        shortcuts: vec![sc("T", true, false, false)],
    }];
    assert!(install(&commands, true).unresolved.is_empty());
}
