use ferail_gpui::keymap::{
    action_for_command, command_route, format_shortcut, install_binding, translate_key,
    translate_shortcut, ChordStyle, CommandRoute, ShellAction, Shortcut,
};

fn sc(key: &str, primary: bool, shift: bool, alt: bool) -> Shortcut {
    Shortcut {
        key: key.to_string(),
        primary,
        shift,
        alt,
    }
}

#[test]
fn keys_translate_to_the_binding_names() {
    assert_eq!(translate_key("Up").as_deref(), Some("up"));
    assert_eq!(translate_key("F12").as_deref(), Some("f12"));
    assert_eq!(translate_key("PageDown").as_deref(), Some("pagedown"));
    assert_eq!(translate_key("K").as_deref(), Some("k"));
    assert_eq!(translate_key("/").as_deref(), Some("/"));
    assert_eq!(translate_key("+"), None);
    assert_eq!(translate_key("Media-Play"), None);
    assert_eq!(translate_key(""), None);
}

#[test]
fn shortcuts_become_binding_strings() {
    assert_eq!(
        translate_shortcut(&sc("H", true, true, false)).as_deref(),
        Some("secondary-shift-h")
    );
    assert_eq!(translate_shortcut(&sc("Backspace", true, false, true)).as_deref(), Some("secondary-alt-backspace"));
    assert_eq!(translate_shortcut(&sc("F2", false, false, false)).as_deref(), Some("f2"));
    assert_eq!(translate_shortcut(&sc("+", true, false, false)), None);
}

#[test]
fn chords_read_as_glyphs_on_macos_and_text_elsewhere() {
    let s = sc("h", true, true, false);
    assert_eq!(format_shortcut(&s, ChordStyle::Glyphs), "\u{21E7}\u{2318}H");
    assert_eq!(format_shortcut(&s, ChordStyle::Text), "Ctrl+Shift+H");
    let a = sc("Up", true, false, true);
    assert_eq!(format_shortcut(&a, ChordStyle::Glyphs), "\u{2325}\u{2318}\u{2191}");
    assert_eq!(format_shortcut(&a, ChordStyle::Text), "Ctrl+Alt+\u{2191}");
    assert_eq!(format_shortcut(&sc("Space", false, false, false), ChordStyle::Text), "Space");
    assert_eq!(format_shortcut(&sc("Backspace", true, false, false), ChordStyle::Text), "Ctrl+\u{232B}");
}

#[test]
fn catalogued_commands_route_to_their_actions() {
    assert_eq!(command_route("file.new_tab"), CommandRoute::Bind(ShellAction::NewTab, false));
    assert_eq!(command_route("app.settings"), CommandRoute::Bind(ShellAction::OpenSettings, true));
    assert_eq!(command_route("go.go_to_folder"), CommandRoute::Bind(ShellAction::GoToFolder, true));
    assert_eq!(
        command_route("selection.collapse_or_parent"),
        CommandRoute::Bind(ShellAction::NavigateParent, false)
    );
    assert_eq!(command_route("view.sort_name"), CommandRoute::Handled);
    assert_eq!(command_route("help.github"), CommandRoute::Handled);
    assert_eq!(command_route("file.teleport"), CommandRoute::Unknown);
}

#[test]
fn the_shortcuts_overlay_also_takes_the_palette_key() {
    let (recognized, bindings) = install_binding("help.shortcuts", "secondary-/");
    assert!(recognized);
    let keys: Vec<&str> = bindings.iter().map(|b| b.keys.as_str()).collect();
    assert_eq!(keys, vec!["secondary-/", "secondary-k"]);
    assert!(bindings.iter().all(|b| b.action == ShellAction::ShortcutsHelp && !b.app_wide));

    let (recognized, bindings) = install_binding("file.empty_trash", "x");
    assert!(recognized);
    assert!(bindings.is_empty());

    let (recognized, bindings) = install_binding("nope.nothing", "x");
    assert!(!recognized);
    assert!(bindings.is_empty());
}

#[test]
fn the_palette_dispatches_what_it_can() {
    assert_eq!(action_for_command("file.open"), Some(ShellAction::OpenSelected));
    assert_eq!(action_for_command("selection.activate"), Some(ShellAction::OpenSelected));
    assert_eq!(action_for_command("view.sort_size"), Some(ShellAction::SortBySize));
    assert_eq!(action_for_command("window.bring_all_to_front"), Some(ShellAction::BringAllToFront));
    assert_eq!(action_for_command("file.set_tag_red"), None);
}
