//! Keyboard shortcuts: a catalogue shortcut as the key-binding string the
//! windowing layer parses, as a human-readable chord, and which shell
//! action each catalogued command binds to or dispatches.

use vstd::prelude::*;

use crate::i18n::lower_char;
use crate::image_edit::lower_seq;
use crate::strings::{chars_eq_str, chars_of, push_chars, string_of, to_uppercase, uppercase};

pub mod local;

verus! {

/// A catalogue shortcut: a key name and its modifiers. `primary` is Cmd on
/// macOS and Ctrl elsewhere.
#[derive(Debug)]
pub struct Shortcut {
    pub key: String,
    pub primary: bool,
    pub shift: bool,
    pub alt: bool,
}

/// Named keys the binding parser accepts, lower case.
pub open spec fn is_named_key(k: Seq<char>) -> bool {
    ||| k == "up"@
    ||| k == "down"@
    ||| k == "left"@
    ||| k == "right"@
    ||| k == "home"@
    ||| k == "end"@
    ||| k == "pageup"@
    ||| k == "pagedown"@
    ||| k == "escape"@
    ||| k == "enter"@
    ||| k == "tab"@
    ||| k == "space"@
    ||| k == "backspace"@
    ||| k == "delete"@
    ||| k == "f1"@
    ||| k == "f2"@
    ||| k == "f3"@
    ||| k == "f4"@
    ||| k == "f5"@
    ||| k == "f6"@
    ||| k == "f7"@
    ||| k == "f8"@
    ||| k == "f9"@
    ||| k == "f10"@
    ||| k == "f11"@
    ||| k == "f12"@
}

fn named_key(k: &[char]) -> (r: bool)
    ensures
        r == is_named_key(k@),
{
    chars_eq_str(k, "up") || chars_eq_str(k, "down") || chars_eq_str(k, "left") || chars_eq_str(
        k,
        "right",
    ) || chars_eq_str(k, "home") || chars_eq_str(k, "end") || chars_eq_str(k, "pageup")
        || chars_eq_str(k, "pagedown") || chars_eq_str(k, "escape") || chars_eq_str(k, "enter")
        || chars_eq_str(k, "tab") || chars_eq_str(k, "space") || chars_eq_str(k, "backspace")
        || chars_eq_str(k, "delete") || chars_eq_str(k, "f1") || chars_eq_str(k, "f2")
        || chars_eq_str(k, "f3") || chars_eq_str(k, "f4") || chars_eq_str(k, "f5") || chars_eq_str(
        k,
        "f6",
    ) || chars_eq_str(k, "f7") || chars_eq_str(k, "f8") || chars_eq_str(k, "f9") || chars_eq_str(
        k,
        "f10",
    ) || chars_eq_str(k, "f11") || chars_eq_str(k, "f12")
}

/// The binding parser's name for a catalogue key: named keys and single
/// characters pass through in ASCII lower case; `+` (the parser's chord
/// separator) and anything else have none.
pub open spec fn key_token(key: Seq<char>) -> Option<Seq<char>> {
    let low = lower_seq(key);
    if is_named_key(low) {
        Some(low)
    } else if low == "+"@ {
        None
    } else if low.len() == 1 {
        Some(low)
    } else {
        None
    }
}

fn lower_all(v: &[char]) -> (r: Vec<char>)
    ensures
        r@ == lower_seq(v@),
{
    let mut out: Vec<char> = Vec::new();
    let mut i: usize = 0;
    while i < v.len()
        invariant
            i <= v.len(),
            out.len() == i,
            forall|j: int| 0 <= j < i ==> #[trigger] out@[j] == crate::i18n::ascii_lower(v@[j]),
        decreases v.len() - i,
    {
        out.push(lower_char(v[i]));
        i = i + 1;
    }
    assert(out@ =~= lower_seq(v@));
    out
}

/// Map a catalogue key name to the binding parser's name, or `None` for a
/// key that is not bound.
pub fn translate_key(key: &str) -> (r: Option<String>)
    ensures
        match r {
            Some(s) => key_token(key@) == Some(s@),
            None => key_token(key@) is None,
        },
{
    let low = lower_all(&chars_of(key));
    if named_key(&low) {
        Some(string_of(&low))
    } else if chars_eq_str(&low, "+") {
        None
    } else if low.len() == 1 {
        Some(string_of(&low))
    } else {
        None
    }
}

/// The modifier prefix of a binding string: `secondary-`, `shift-`, `alt-`
/// in that order, each when set.
pub open spec fn modifier_prefix(primary: bool, shift: bool, alt: bool) -> Seq<char> {
    (if primary {
        "secondary-"@
    } else {
        Seq::empty()
    }) + (if shift {
        "shift-"@
    } else {
        Seq::empty()
    }) + (if alt {
        "alt-"@
    } else {
        Seq::empty()
    })
}

/// The binding string of a shortcut: its modifiers and key joined by `-`,
/// or `None` when the key does not translate.
pub open spec fn binding_string(s: Shortcut) -> Option<Seq<char>> {
    match key_token(s.key@) {
        Some(k) => Some(modifier_prefix(s.primary, s.shift, s.alt) + k),
        None => None,
    }
}

/// Translate a catalogue shortcut to the binding-string syntax.
pub fn translate_shortcut(s: &Shortcut) -> (r: Option<String>)
    ensures
        match r {
            Some(b) => binding_string(*s) == Some(b@),
            None => binding_string(*s) is None,
        },
{
    match translate_key(s.key.as_str()) {
        None => None,
        Some(key) => {
            let mut out = String::new();
            if s.primary {
                push_chars(&mut out, &chars_of("secondary-"));
            }
            if s.shift {
                push_chars(&mut out, &chars_of("shift-"));
            }
            if s.alt {
                push_chars(&mut out, &chars_of("alt-"));
            }
            push_chars(&mut out, &chars_of(key.as_str()));
            assert(out@ =~= modifier_prefix(s.primary, s.shift, s.alt) + key@);
            Some(out)
        },
    }
}

/// How a chord is written: macOS modifier glyphs with no separators, or
/// `Ctrl+Shift+` text elsewhere.
#[derive(Clone, Copy, PartialEq, Eq, Debug, Structural)]
pub enum ChordStyle {
    Glyphs,
    Text,
}

/// The label of a key in a chord: arrows and a few named keys as symbols,
/// anything else upper-cased.
pub open spec fn key_label(key: Seq<char>) -> Seq<char> {
    if key == "Up"@ {
        seq!['\u{2191}']
    } else if key == "Down"@ {
        seq!['\u{2193}']
    } else if key == "Left"@ {
        seq!['\u{2190}']
    } else if key == "Right"@ {
        seq!['\u{2192}']
    } else if key == "Backspace"@ {
        seq!['\u{232B}']
    } else if key == "Enter"@ {
        seq!['\u{21B5}']
    } else if key == "Escape"@ {
        seq!['\u{238B}']
    } else if key == "Space"@ {
        "Space"@
    } else {
        uppercase(key)
    }
}

/// A shortcut as a human-readable chord.
pub open spec fn chord(s: Shortcut, style: ChordStyle) -> Seq<char> {
    match style {
        ChordStyle::Glyphs => (if s.alt {
            seq!['\u{2325}']
        } else {
            Seq::empty()
        }) + (if s.shift {
            seq!['\u{21E7}']
        } else {
            Seq::empty()
        }) + (if s.primary {
            seq!['\u{2318}']
        } else {
            Seq::empty()
        }) + key_label(s.key@),
        ChordStyle::Text => (if s.primary {
            "Ctrl+"@
        } else {
            Seq::empty()
        }) + (if s.shift {
            "Shift+"@
        } else {
            Seq::empty()
        }) + (if s.alt {
            "Alt+"@
        } else {
            Seq::empty()
        }) + key_label(s.key@),
    }
}

fn key_label_of(key: &str) -> (r: String)
    ensures
        r@ == key_label(key@),
{
    let v = chars_of(key);
    if chars_eq_str(&v, "Up") {
        string_of(&['\u{2191}'])
    } else if chars_eq_str(&v, "Down") {
        string_of(&['\u{2193}'])
    } else if chars_eq_str(&v, "Left") {
        string_of(&['\u{2190}'])
    } else if chars_eq_str(&v, "Right") {
        string_of(&['\u{2192}'])
    } else if chars_eq_str(&v, "Backspace") {
        string_of(&['\u{232B}'])
    } else if chars_eq_str(&v, "Enter") {
        string_of(&['\u{21B5}'])
    } else if chars_eq_str(&v, "Escape") {
        string_of(&['\u{238B}'])
    } else if chars_eq_str(&v, "Space") {
        string_of(&chars_of("Space"))
    } else {
        to_uppercase(key)
    }
}

/// Render a shortcut as a human-readable chord: on macOS the modifier
/// glyphs (Option, Shift, Cmd) before the key label; elsewhere
/// `Ctrl+`, `Shift+`, `Alt+` before it.
pub fn format_shortcut(s: &Shortcut, style: ChordStyle) -> (r: String)
    ensures
        r@ == chord(*s, style),
{
    let label = key_label_of(s.key.as_str());
    let mut out = String::new();
    match style {
        ChordStyle::Glyphs => {
            if s.alt {
                push_chars(&mut out, &['\u{2325}']);
            }
            if s.shift {
                push_chars(&mut out, &['\u{21E7}']);
            }
            if s.primary {
                push_chars(&mut out, &['\u{2318}']);
            }
        },
        ChordStyle::Text => {
            if s.primary {
                push_chars(&mut out, &chars_of("Ctrl+"));
            }
            if s.shift {
                push_chars(&mut out, &chars_of("Shift+"));
            }
            if s.alt {
                push_chars(&mut out, &chars_of("Alt+"));
            }
        },
    }
    push_chars(&mut out, &chars_of(label.as_str()));
    assert(out@ =~= chord(*s, style));
    out
}

/// How the key-binding installer treats a catalogued command: bound to a
/// shell action (`true`: app-wide, `false`: in the shell's context),
/// recognized but bound elsewhere or deliberately unbound, or unknown to
/// this build.
#[derive(Clone, Copy, PartialEq, Eq, Debug, Structural)]
pub enum CommandRoute {
    Bind(ShellAction, bool),
    Handled,
    Unknown,
}

/// One key binding to install: the binding string, the action it fires,
/// and whether it is app-wide rather than in the shell's context.
#[derive(Debug)]
pub struct KeyBinding {
    pub keys: String,
    pub action: ShellAction,
    pub app_wide: bool,
}

/// The bindings installed for a route under a binding string. The
/// shortcuts overlay doubles as the command palette and also takes the
/// palette key `secondary-k`.
pub open spec fn bindings_of(route: CommandRoute, keys: Seq<char>) -> Seq<(Seq<char>, ShellAction, bool)> {
    match route {
        CommandRoute::Bind(a, g) => if a == ShellAction::ShortcutsHelp {
            seq![(keys, a, g), ("secondary-k"@, a, g)]
        } else {
            seq![(keys, a, g)]
        },
        _ => Seq::empty(),
    }
}

/// A binding as plain values.
pub open spec fn binding_view(b: KeyBinding) -> (Seq<char>, ShellAction, bool) {
    (b.keys@, b.action, b.app_wide)
}

/// The bindings a catalogued command installs under a binding string, and
/// whether its id is recognized at all (an unrecognized one is reported
/// and skipped).
pub fn install_binding(id: &str, keys: &str) -> (r: (bool, Vec<KeyBinding>))
    ensures
        r.0 == !(route_of(id@) is Unknown),
        r.1@.map_values(|b: KeyBinding| binding_view(b)) == bindings_of(route_of(id@), keys@),
{
    let route = command_route(id);
    let mut out: Vec<KeyBinding> = Vec::new();
    match route {
        CommandRoute::Bind(a, g) => {
            out.push(KeyBinding { keys: string_of(&chars_of(keys)), action: a, app_wide: g });
            if let ShellAction::ShortcutsHelp = a {
                out.push(
                    KeyBinding { keys: string_of(&chars_of("secondary-k")), action: a, app_wide: g },
                );
            }
        },
        _ => {},
    }
    assert(out@.map_values(|b: KeyBinding| binding_view(b)) =~= bindings_of(route, keys@));
    let recognized = match route {
        CommandRoute::Unknown => false,
        _ => true,
    };
    (recognized, out)
}

/// Every shell action a command can be bound to or dispatch.
#[derive(Clone, Copy, PartialEq, Eq, Debug, Structural)]
pub enum ShellAction {
    OpenSettings,
    NewTab,
    CloseTab,
    ReopenClosedTab,
    NewFolder,
    MoveToTrash,
    CopyPath,
    CopyFiles,
    CutFiles,
    PasteFiles,
    MovePasteFiles,
    RevealInFinder,
    Refresh,
    FocusFilter,
    ToggleHidden,
    TogglePrivateMode,
    EditBreadcrumb,
    TogglePreview,
    ToggleFlatView,
    OpenViewer,
    ZoomIn,
    ZoomOut,
    ZoomReset,
    GetInfo,
    CursorUp,
    CursorDown,
    CursorFirst,
    CursorLast,
    PageUp,
    PageDown,
    ShortcutsHelp,
    OpenDiskUsage,
    CloseToolResult,
    PopOutDiskUsage,
    FindDuplicates,
    FindSimilarImages,
    NavigateBack,
    NavigateForward,
    NavigateParent,
    GoHome,
    GoToFolder,
    OpenSelected,
    RenameSelected,
    ClearFilter,
    NextTab,
    PrevTab,
    CloseWindow,
    OpenInNewTab,
    GenerateSha256,
    VerifyChecksums,
    CreateChecksumFile,
    CopyFileList,
    EditFile,
    EditImage,
    Duplicate,
    MakeAlias,
    Compress,
    Extract,
    QuickLook,
    TogglePerformanceHud,
    SortByName,
    SortBySize,
    SortByKind,
    SortByModified,
    SortByAntTrail,
    DeleteImmediately,
    EmptyTrash,
    ClearRecents,
    BringAllToFront,
}

/// How the key-binding installer treats a catalogued command id.
pub open spec fn route_of(id: Seq<char>) -> CommandRoute {
    if id == "app.settings"@ {
        CommandRoute::Bind(ShellAction::OpenSettings, true)
    } else if id == "file.new_tab"@ {
        CommandRoute::Bind(ShellAction::NewTab, false)
    } else if id == "file.close_tab"@ {
        CommandRoute::Bind(ShellAction::CloseTab, false)
    } else if id == "file.reopen_closed_tab"@ {
        CommandRoute::Bind(ShellAction::ReopenClosedTab, false)
    } else if id == "file.new_folder"@ {
        CommandRoute::Bind(ShellAction::NewFolder, false)
    } else if id == "file.move_to_trash"@ {
        CommandRoute::Bind(ShellAction::MoveToTrash, false)
    } else if id == "file.delete_immediately"@ {
        CommandRoute::Handled
    } else if id == "file.empty_trash"@ {
        CommandRoute::Handled
    } else if id == "file.copy_path"@ {
        CommandRoute::Bind(ShellAction::CopyPath, false)
    } else if id == "file.copy"@ {
        CommandRoute::Bind(ShellAction::CopyFiles, false)
    } else if id == "file.cut"@ {
        CommandRoute::Bind(ShellAction::CutFiles, false)
    } else if id == "file.paste"@ {
        CommandRoute::Bind(ShellAction::PasteFiles, false)
    } else if id == "file.move_paste"@ {
        CommandRoute::Bind(ShellAction::MovePasteFiles, false)
    } else if id == "file.reveal_in_finder"@ {
        CommandRoute::Bind(ShellAction::RevealInFinder, false)
    } else if id == "file.refresh"@ {
        CommandRoute::Bind(ShellAction::Refresh, false)
    } else if id == "view.search"@ {
        CommandRoute::Bind(ShellAction::FocusFilter, false)
    } else if id == "view.toggle_hidden"@ {
        CommandRoute::Bind(ShellAction::ToggleHidden, false)
    } else if id == "view.toggle_private"@ {
        CommandRoute::Bind(ShellAction::TogglePrivateMode, true)
    } else if id == "view.edit_breadcrumb"@ {
        CommandRoute::Bind(ShellAction::EditBreadcrumb, false)
    } else if id == "view.toggle_preview"@ {
        CommandRoute::Bind(ShellAction::TogglePreview, false)
    } else if id == "view.toggle_flat"@ {
        CommandRoute::Bind(ShellAction::ToggleFlatView, false)
    } else if id == "view.open_viewer"@ {
        CommandRoute::Bind(ShellAction::OpenViewer, false)
    } else if id == "view.sort_name"@ {
        CommandRoute::Handled
    } else if id == "view.sort_size"@ {
        CommandRoute::Handled
    } else if id == "view.sort_kind"@ {
        CommandRoute::Handled
    } else if id == "view.sort_modified"@ {
        CommandRoute::Handled
    } else if id == "view.sort_ant_trail"@ {
        CommandRoute::Handled
    } else if id == "view.zoom_in"@ {
        CommandRoute::Bind(ShellAction::ZoomIn, false)
    } else if id == "view.zoom_out"@ {
        CommandRoute::Bind(ShellAction::ZoomOut, false)
    } else if id == "view.zoom_reset"@ {
        CommandRoute::Bind(ShellAction::ZoomReset, false)
    } else if id == "file.get_info"@ {
        CommandRoute::Bind(ShellAction::GetInfo, false)
    } else if id == "selection.cursor_up"@ {
        CommandRoute::Bind(ShellAction::CursorUp, false)
    } else if id == "selection.cursor_down"@ {
        CommandRoute::Bind(ShellAction::CursorDown, false)
    } else if id == "selection.cursor_first"@ {
        CommandRoute::Bind(ShellAction::CursorFirst, false)
    } else if id == "selection.cursor_last"@ {
        CommandRoute::Bind(ShellAction::CursorLast, false)
    } else if id == "selection.page_up"@ {
        CommandRoute::Bind(ShellAction::PageUp, false)
    } else if id == "selection.page_down"@ {
        CommandRoute::Bind(ShellAction::PageDown, false)
    } else if id == "help.shortcuts"@ {
        CommandRoute::Bind(ShellAction::ShortcutsHelp, false)
    } else if id == "view.disk_usage"@ {
        CommandRoute::Bind(ShellAction::OpenDiskUsage, false)
    } else if id == "view.close_results"@ {
        CommandRoute::Bind(ShellAction::CloseToolResult, false)
    } else if id == "disk_usage.open_in_window"@ {
        CommandRoute::Bind(ShellAction::PopOutDiskUsage, false)
    } else if id == "view.find_duplicates"@ {
        CommandRoute::Bind(ShellAction::FindDuplicates, false)
    } else if id == "view.find_similar_images"@ {
        CommandRoute::Bind(ShellAction::FindSimilarImages, false)
    } else if id == "go.back"@ {
        CommandRoute::Bind(ShellAction::NavigateBack, false)
    } else if id == "go.forward"@ {
        CommandRoute::Bind(ShellAction::NavigateForward, false)
    } else if id == "go.parent"@ {
        CommandRoute::Bind(ShellAction::NavigateParent, false)
    } else if id == "go.home"@ {
        CommandRoute::Bind(ShellAction::GoHome, false)
    } else if id == "go.go_to_folder"@ {
        CommandRoute::Bind(ShellAction::GoToFolder, true)
    } else if id == "selection.activate"@ {
        CommandRoute::Bind(ShellAction::OpenSelected, false)
    } else if id == "selection.rename"@ {
        CommandRoute::Bind(ShellAction::RenameSelected, false)
    } else if id == "selection.start_rename"@ {
        CommandRoute::Bind(ShellAction::RenameSelected, false)
    } else if id == "selection.collapse_or_parent"@ {
        CommandRoute::Bind(ShellAction::NavigateParent, false)
    } else if id == "selection.expand_or_first_child"@ {
        CommandRoute::Bind(ShellAction::OpenSelected, false)
    } else if id == "selection.dismiss"@ {
        CommandRoute::Bind(ShellAction::ClearFilter, false)
    } else if id == "window.next_tab"@ {
        CommandRoute::Bind(ShellAction::NextTab, false)
    } else if id == "window.prev_tab"@ {
        CommandRoute::Bind(ShellAction::PrevTab, false)
    } else if id == "window.close_window"@ {
        CommandRoute::Bind(ShellAction::CloseWindow, false)
    } else if id == "file.open_in_new_tab"@ {
        CommandRoute::Bind(ShellAction::OpenInNewTab, false)
    } else if is_deferred(id) {
        CommandRoute::Handled
    } else {
        CommandRoute::Unknown
    }
}

/// The catalogued commands that bind each shell action: an action is
/// bound by the commands named for it (`file.copy` copies, `file.cut`
/// cuts), the rename commands share renaming, and stepping out of or into
/// a row shares going to the parent or opening.
pub open spec fn commands_for(a: ShellAction) -> Set<Seq<char>> {
    match a {
        ShellAction::OpenSettings => set!["app.settings"@],
        ShellAction::NewTab => set!["file.new_tab"@],
        ShellAction::CloseTab => set!["file.close_tab"@],
        ShellAction::ReopenClosedTab => set!["file.reopen_closed_tab"@],
        ShellAction::NewFolder => set!["file.new_folder"@],
        ShellAction::MoveToTrash => set!["file.move_to_trash"@],
        ShellAction::CopyPath => set!["file.copy_path"@],
        ShellAction::CopyFiles => set!["file.copy"@],
        ShellAction::CutFiles => set!["file.cut"@],
        ShellAction::PasteFiles => set!["file.paste"@],
        ShellAction::MovePasteFiles => set!["file.move_paste"@],
        ShellAction::RevealInFinder => set!["file.reveal_in_finder"@],
        ShellAction::Refresh => set!["file.refresh"@],
        ShellAction::FocusFilter => set!["view.search"@],
        ShellAction::ToggleHidden => set!["view.toggle_hidden"@],
        ShellAction::TogglePrivateMode => set!["view.toggle_private"@],
        ShellAction::EditBreadcrumb => set!["view.edit_breadcrumb"@],
        ShellAction::TogglePreview => set!["view.toggle_preview"@],
        ShellAction::ToggleFlatView => set!["view.toggle_flat"@],
        ShellAction::OpenViewer => set!["view.open_viewer"@],
        ShellAction::ZoomIn => set!["view.zoom_in"@],
        ShellAction::ZoomOut => set!["view.zoom_out"@],
        ShellAction::ZoomReset => set!["view.zoom_reset"@],
        ShellAction::GetInfo => set!["file.get_info"@],
        ShellAction::CursorUp => set!["selection.cursor_up"@],
        ShellAction::CursorDown => set!["selection.cursor_down"@],
        ShellAction::CursorFirst => set!["selection.cursor_first"@],
        ShellAction::CursorLast => set!["selection.cursor_last"@],
        ShellAction::PageUp => set!["selection.page_up"@],
        ShellAction::PageDown => set!["selection.page_down"@],
        ShellAction::ShortcutsHelp => set!["help.shortcuts"@],
        ShellAction::OpenDiskUsage => set!["view.disk_usage"@],
        ShellAction::CloseToolResult => set!["view.close_results"@],
        ShellAction::PopOutDiskUsage => set!["disk_usage.open_in_window"@],
        ShellAction::FindDuplicates => set!["view.find_duplicates"@],
        ShellAction::FindSimilarImages => set!["view.find_similar_images"@],
        ShellAction::NavigateBack => set!["go.back"@],
        ShellAction::NavigateForward => set!["go.forward"@],
        ShellAction::NavigateParent => set!["go.parent"@, "selection.collapse_or_parent"@],
        ShellAction::GoHome => set!["go.home"@],
        ShellAction::GoToFolder => set!["go.go_to_folder"@],
        ShellAction::OpenSelected => set!["selection.activate"@, "selection.expand_or_first_child"@],
        ShellAction::RenameSelected => set!["selection.rename"@, "selection.start_rename"@],
        ShellAction::ClearFilter => set!["selection.dismiss"@],
        ShellAction::NextTab => set!["window.next_tab"@],
        ShellAction::PrevTab => set!["window.prev_tab"@],
        ShellAction::CloseWindow => set!["window.close_window"@],
        ShellAction::OpenInNewTab => set!["file.open_in_new_tab"@],
        _ => Set::empty(),
    }
}

/// The actions bound app-wide rather than in the shell's context: the
/// settings, private mode and go-to-folder.
pub open spec fn app_wide(a: ShellAction) -> bool {
    a == ShellAction::OpenSettings || a == ShellAction::TogglePrivateMode || a == ShellAction::GoToFolder
}

/// A command is bound only to the action it is named for: whenever a
/// catalogued id routes to a binding, the id is one of the commands of
/// that action, app-wide exactly for the app-wide actions. So the copy,
/// cut and paste commands bind copying, cutting and pasting, and no two
/// of them share an action.
pub proof fn lemma_routes_follow_names(id: Seq<char>)
    ensures
        route_of(id) matches CommandRoute::Bind(a, wide) ==> commands_for(a).contains(id) && wide == app_wide(a),
{
}

/// Catalogued commands whose binding lives elsewhere or lands later.
pub open spec fn is_deferred(id: Seq<char>) -> bool {
    ||| id == "window.new_window"@
    ||| id == "app.about"@
    ||| id == "view.cycle_focus"@
    ||| id == "view.theme_light"@
    ||| id == "view.theme_dark"@
    ||| id == "view.theme_system"@
    ||| id == "disk_usage.refresh"@
    ||| id == "disk_usage.zoom_out"@
    ||| id == "disk_usage.toggle_topn"@
    ||| id == "disk_usage.toggle_packages"@
    ||| id == "disk_usage.toggle_follow_navigation"@
    ||| id == "disk_usage.coloring_category"@
    ||| id == "disk_usage.coloring_age"@
    ||| id == "disk_usage.coloring_depth"@
    ||| id == "disk_usage.size_apparent"@
    ||| id == "disk_usage.size_allocated"@
    ||| id == "help.github"@
}

fn deferred_id(id: &[char]) -> (r: bool)
    ensures
        r == is_deferred(id@),
{
    chars_eq_str(id, "window.new_window")
        || chars_eq_str(id, "app.about")
        || chars_eq_str(id, "view.cycle_focus")
        || chars_eq_str(id, "view.theme_light")
        || chars_eq_str(id, "view.theme_dark")
        || chars_eq_str(id, "view.theme_system")
        || chars_eq_str(id, "disk_usage.refresh")
        || chars_eq_str(id, "disk_usage.zoom_out")
        || chars_eq_str(id, "disk_usage.toggle_topn")
        || chars_eq_str(id, "disk_usage.toggle_packages")
        || chars_eq_str(id, "disk_usage.toggle_follow_navigation")
        || chars_eq_str(id, "disk_usage.coloring_category")
        || chars_eq_str(id, "disk_usage.coloring_age")
        || chars_eq_str(id, "disk_usage.coloring_depth")
        || chars_eq_str(id, "disk_usage.size_apparent")
        || chars_eq_str(id, "disk_usage.size_allocated")
        || chars_eq_str(id, "help.github")
}

/// How the key-binding installer treats a catalogued command id: bound to a
/// shell action (in the shell's context, or app-wide), recognized but bound
/// elsewhere, or unknown to this build.
pub fn command_route(id: &str) -> (r: CommandRoute)
    ensures
        r == route_of(id@),
{
    let v = chars_of(id);
    if chars_eq_str(&v, "app.settings") {
        CommandRoute::Bind(ShellAction::OpenSettings, true)
    } else if chars_eq_str(&v, "file.new_tab") {
        CommandRoute::Bind(ShellAction::NewTab, false)
    } else if chars_eq_str(&v, "file.close_tab") {
        CommandRoute::Bind(ShellAction::CloseTab, false)
    } else if chars_eq_str(&v, "file.reopen_closed_tab") {
        CommandRoute::Bind(ShellAction::ReopenClosedTab, false)
    } else if chars_eq_str(&v, "file.new_folder") {
        CommandRoute::Bind(ShellAction::NewFolder, false)
    } else if chars_eq_str(&v, "file.move_to_trash") {
        CommandRoute::Bind(ShellAction::MoveToTrash, false)
    } else if chars_eq_str(&v, "file.delete_immediately") {
        CommandRoute::Handled
    } else if chars_eq_str(&v, "file.empty_trash") {
        CommandRoute::Handled
    } else if chars_eq_str(&v, "file.copy_path") {
        CommandRoute::Bind(ShellAction::CopyPath, false)
    } else if chars_eq_str(&v, "file.copy") {
        CommandRoute::Bind(ShellAction::CopyFiles, false)
    } else if chars_eq_str(&v, "file.cut") {
        CommandRoute::Bind(ShellAction::CutFiles, false)
    } else if chars_eq_str(&v, "file.paste") {
        CommandRoute::Bind(ShellAction::PasteFiles, false)
    } else if chars_eq_str(&v, "file.move_paste") {
        CommandRoute::Bind(ShellAction::MovePasteFiles, false)
    } else if chars_eq_str(&v, "file.reveal_in_finder") {
        CommandRoute::Bind(ShellAction::RevealInFinder, false)
    } else if chars_eq_str(&v, "file.refresh") {
        CommandRoute::Bind(ShellAction::Refresh, false)
    } else if chars_eq_str(&v, "view.search") {
        CommandRoute::Bind(ShellAction::FocusFilter, false)
    } else if chars_eq_str(&v, "view.toggle_hidden") {
        CommandRoute::Bind(ShellAction::ToggleHidden, false)
    } else if chars_eq_str(&v, "view.toggle_private") {
        CommandRoute::Bind(ShellAction::TogglePrivateMode, true)
    } else if chars_eq_str(&v, "view.edit_breadcrumb") {
        CommandRoute::Bind(ShellAction::EditBreadcrumb, false)
    } else if chars_eq_str(&v, "view.toggle_preview") {
        CommandRoute::Bind(ShellAction::TogglePreview, false)
    } else if chars_eq_str(&v, "view.toggle_flat") {
        CommandRoute::Bind(ShellAction::ToggleFlatView, false)
    } else if chars_eq_str(&v, "view.open_viewer") {
        CommandRoute::Bind(ShellAction::OpenViewer, false)
    } else if chars_eq_str(&v, "view.sort_name") {
        CommandRoute::Handled
    } else if chars_eq_str(&v, "view.sort_size") {
        CommandRoute::Handled
    } else if chars_eq_str(&v, "view.sort_kind") {
        CommandRoute::Handled
    } else if chars_eq_str(&v, "view.sort_modified") {
        CommandRoute::Handled
    } else if chars_eq_str(&v, "view.sort_ant_trail") {
        CommandRoute::Handled
    } else if chars_eq_str(&v, "view.zoom_in") {
        CommandRoute::Bind(ShellAction::ZoomIn, false)
    } else if chars_eq_str(&v, "view.zoom_out") {
        CommandRoute::Bind(ShellAction::ZoomOut, false)
    } else if chars_eq_str(&v, "view.zoom_reset") {
        CommandRoute::Bind(ShellAction::ZoomReset, false)
    } else if chars_eq_str(&v, "file.get_info") {
        CommandRoute::Bind(ShellAction::GetInfo, false)
    } else if chars_eq_str(&v, "selection.cursor_up") {
        CommandRoute::Bind(ShellAction::CursorUp, false)
    } else if chars_eq_str(&v, "selection.cursor_down") {
        CommandRoute::Bind(ShellAction::CursorDown, false)
    } else if chars_eq_str(&v, "selection.cursor_first") {
        CommandRoute::Bind(ShellAction::CursorFirst, false)
    } else if chars_eq_str(&v, "selection.cursor_last") {
        CommandRoute::Bind(ShellAction::CursorLast, false)
    } else if chars_eq_str(&v, "selection.page_up") {
        CommandRoute::Bind(ShellAction::PageUp, false)
    } else if chars_eq_str(&v, "selection.page_down") {
        CommandRoute::Bind(ShellAction::PageDown, false)
    } else if chars_eq_str(&v, "help.shortcuts") {
        CommandRoute::Bind(ShellAction::ShortcutsHelp, false)
    } else if chars_eq_str(&v, "view.disk_usage") {
        CommandRoute::Bind(ShellAction::OpenDiskUsage, false)
    } else if chars_eq_str(&v, "view.close_results") {
        CommandRoute::Bind(ShellAction::CloseToolResult, false)
    } else if chars_eq_str(&v, "disk_usage.open_in_window") {
        CommandRoute::Bind(ShellAction::PopOutDiskUsage, false)
    } else if chars_eq_str(&v, "view.find_duplicates") {
        CommandRoute::Bind(ShellAction::FindDuplicates, false)
    } else if chars_eq_str(&v, "view.find_similar_images") {
        CommandRoute::Bind(ShellAction::FindSimilarImages, false)
    } else if chars_eq_str(&v, "go.back") {
        CommandRoute::Bind(ShellAction::NavigateBack, false)
    } else if chars_eq_str(&v, "go.forward") {
        CommandRoute::Bind(ShellAction::NavigateForward, false)
    } else if chars_eq_str(&v, "go.parent") {
        CommandRoute::Bind(ShellAction::NavigateParent, false)
    } else if chars_eq_str(&v, "go.home") {
        CommandRoute::Bind(ShellAction::GoHome, false)
    } else if chars_eq_str(&v, "go.go_to_folder") {
        CommandRoute::Bind(ShellAction::GoToFolder, true)
    } else if chars_eq_str(&v, "selection.activate") {
        CommandRoute::Bind(ShellAction::OpenSelected, false)
    } else if chars_eq_str(&v, "selection.rename") {
        CommandRoute::Bind(ShellAction::RenameSelected, false)
    } else if chars_eq_str(&v, "selection.start_rename") {
        CommandRoute::Bind(ShellAction::RenameSelected, false)
    } else if chars_eq_str(&v, "selection.collapse_or_parent") {
        CommandRoute::Bind(ShellAction::NavigateParent, false)
    } else if chars_eq_str(&v, "selection.expand_or_first_child") {
        CommandRoute::Bind(ShellAction::OpenSelected, false)
    } else if chars_eq_str(&v, "selection.dismiss") {
        CommandRoute::Bind(ShellAction::ClearFilter, false)
    } else if chars_eq_str(&v, "window.next_tab") {
        CommandRoute::Bind(ShellAction::NextTab, false)
    } else if chars_eq_str(&v, "window.prev_tab") {
        CommandRoute::Bind(ShellAction::PrevTab, false)
    } else if chars_eq_str(&v, "window.close_window") {
        CommandRoute::Bind(ShellAction::CloseWindow, false)
    } else if chars_eq_str(&v, "file.open_in_new_tab") {
        CommandRoute::Bind(ShellAction::OpenInNewTab, false)
    } else if deferred_id(&v) {
        CommandRoute::Handled
    } else {
        CommandRoute::Unknown
    }
}

/// The action the command palette dispatches for a command id.
pub open spec fn palette_action_of(id: Seq<char>) -> Option<ShellAction> {
    if id == "file.new_tab"@ {
        Some(ShellAction::NewTab)
    } else if id == "file.close_tab"@ {
        Some(ShellAction::CloseTab)
    } else if id == "file.new_folder"@ {
        Some(ShellAction::NewFolder)
    } else if id == "file.get_info"@ {
        Some(ShellAction::GetInfo)
    } else if id == "file.move_to_trash"@ {
        Some(ShellAction::MoveToTrash)
    } else if id == "file.copy_path"@ {
        Some(ShellAction::CopyPath)
    } else if id == "file.generate_sha256"@ {
        Some(ShellAction::GenerateSha256)
    } else if id == "file.verify_checksums"@ {
        Some(ShellAction::VerifyChecksums)
    } else if id == "file.create_checksum_file"@ {
        Some(ShellAction::CreateChecksumFile)
    } else if id == "file.copy_file_list"@ {
        Some(ShellAction::CopyFileList)
    } else if id == "file.reveal_in_finder"@ {
        Some(ShellAction::RevealInFinder)
    } else if id == "file.refresh"@ {
        Some(ShellAction::Refresh)
    } else if id == "file.edit"@ {
        Some(ShellAction::EditFile)
    } else if id == "file.edit_image"@ {
        Some(ShellAction::EditImage)
    } else if id == "file.open"@ {
        Some(ShellAction::OpenSelected)
    } else if id == "selection.activate"@ {
        Some(ShellAction::OpenSelected)
    } else if id == "file.duplicate"@ {
        Some(ShellAction::Duplicate)
    } else if id == "file.make_alias"@ {
        Some(ShellAction::MakeAlias)
    } else if id == "file.compress"@ {
        Some(ShellAction::Compress)
    } else if id == "file.extract"@ {
        Some(ShellAction::Extract)
    } else if id == "file.rename"@ {
        Some(ShellAction::RenameSelected)
    } else if id == "selection.start_rename"@ {
        Some(ShellAction::RenameSelected)
    } else if id == "file.quick_look"@ {
        Some(ShellAction::QuickLook)
    } else if id == "file.open_in_new_tab"@ {
        Some(ShellAction::OpenInNewTab)
    } else if id == "view.search"@ {
        Some(ShellAction::FocusFilter)
    } else if id == "view.edit_breadcrumb"@ {
        Some(ShellAction::EditBreadcrumb)
    } else if id == "view.toggle_preview"@ {
        Some(ShellAction::TogglePreview)
    } else if id == "view.toggle_hidden"@ {
        Some(ShellAction::ToggleHidden)
    } else if id == "view.toggle_flat"@ {
        Some(ShellAction::ToggleFlatView)
    } else if id == "view.zoom_in"@ {
        Some(ShellAction::ZoomIn)
    } else if id == "view.zoom_out"@ {
        Some(ShellAction::ZoomOut)
    } else if id == "view.zoom_reset"@ {
        Some(ShellAction::ZoomReset)
    } else if id == "view.disk_usage"@ {
        Some(ShellAction::OpenDiskUsage)
    } else if id == "view.performance_hud"@ {
        Some(ShellAction::TogglePerformanceHud)
    } else if id == "view.find_duplicates"@ {
        Some(ShellAction::FindDuplicates)
    } else if id == "view.find_similar_images"@ {
        Some(ShellAction::FindSimilarImages)
    } else if id == "view.open_viewer"@ {
        Some(ShellAction::OpenViewer)
    } else if id == "view.sort_name"@ {
        Some(ShellAction::SortByName)
    } else if id == "view.sort_size"@ {
        Some(ShellAction::SortBySize)
    } else if id == "view.sort_kind"@ {
        Some(ShellAction::SortByKind)
    } else if id == "view.sort_modified"@ {
        Some(ShellAction::SortByModified)
    } else if id == "view.sort_ant_trail"@ {
        Some(ShellAction::SortByAntTrail)
    } else if id == "file.copy"@ {
        Some(ShellAction::CopyFiles)
    } else if id == "file.paste"@ {
        Some(ShellAction::PasteFiles)
    } else if id == "file.move_paste"@ {
        Some(ShellAction::MovePasteFiles)
    } else if id == "file.delete_immediately"@ {
        Some(ShellAction::DeleteImmediately)
    } else if id == "file.empty_trash"@ {
        Some(ShellAction::EmptyTrash)
    } else if id == "file.reopen_closed_tab"@ {
        Some(ShellAction::ReopenClosedTab)
    } else if id == "window.close_window"@ {
        Some(ShellAction::CloseWindow)
    } else if id == "app.settings"@ {
        Some(ShellAction::OpenSettings)
    } else if id == "go.back"@ {
        Some(ShellAction::NavigateBack)
    } else if id == "go.forward"@ {
        Some(ShellAction::NavigateForward)
    } else if id == "go.parent"@ {
        Some(ShellAction::NavigateParent)
    } else if id == "go.home"@ {
        Some(ShellAction::GoHome)
    } else if id == "go.go_to_folder"@ {
        Some(ShellAction::GoToFolder)
    } else if id == "go.clear_recents"@ {
        Some(ShellAction::ClearRecents)
    } else if id == "help.shortcuts"@ {
        Some(ShellAction::ShortcutsHelp)
    } else if id == "selection.cursor_up"@ {
        Some(ShellAction::CursorUp)
    } else if id == "selection.cursor_down"@ {
        Some(ShellAction::CursorDown)
    } else if id == "selection.cursor_first"@ {
        Some(ShellAction::CursorFirst)
    } else if id == "selection.cursor_last"@ {
        Some(ShellAction::CursorLast)
    } else if id == "selection.page_up"@ {
        Some(ShellAction::PageUp)
    } else if id == "selection.page_down"@ {
        Some(ShellAction::PageDown)
    } else if id == "window.next_tab"@ {
        Some(ShellAction::NextTab)
    } else if id == "window.prev_tab"@ {
        Some(ShellAction::PrevTab)
    } else if id == "window.bring_all_to_front"@ {
        Some(ShellAction::BringAllToFront)
    } else {
        None
    }
}

/// The action the command palette dispatches for a command id; `None`
/// for commands without a shell-level handler, which the palette lists
/// disabled.
pub fn action_for_command(id: &str) -> (r: Option<ShellAction>)
    ensures
        r == palette_action_of(id@),
{
    let v = chars_of(id);
    if chars_eq_str(&v, "file.new_tab") {
        Some(ShellAction::NewTab)
    } else if chars_eq_str(&v, "file.close_tab") {
        Some(ShellAction::CloseTab)
    } else if chars_eq_str(&v, "file.new_folder") {
        Some(ShellAction::NewFolder)
    } else if chars_eq_str(&v, "file.get_info") {
        Some(ShellAction::GetInfo)
    } else if chars_eq_str(&v, "file.move_to_trash") {
        Some(ShellAction::MoveToTrash)
    } else if chars_eq_str(&v, "file.copy_path") {
        Some(ShellAction::CopyPath)
    } else if chars_eq_str(&v, "file.generate_sha256") {
        Some(ShellAction::GenerateSha256)
    } else if chars_eq_str(&v, "file.verify_checksums") {
        Some(ShellAction::VerifyChecksums)
    } else if chars_eq_str(&v, "file.create_checksum_file") {
        Some(ShellAction::CreateChecksumFile)
    } else if chars_eq_str(&v, "file.copy_file_list") {
        Some(ShellAction::CopyFileList)
    } else if chars_eq_str(&v, "file.reveal_in_finder") {
        Some(ShellAction::RevealInFinder)
    } else if chars_eq_str(&v, "file.refresh") {
        Some(ShellAction::Refresh)
    } else if chars_eq_str(&v, "file.edit") {
        Some(ShellAction::EditFile)
    } else if chars_eq_str(&v, "file.edit_image") {
        Some(ShellAction::EditImage)
    } else if chars_eq_str(&v, "file.open") {
        Some(ShellAction::OpenSelected)
    } else if chars_eq_str(&v, "selection.activate") {
        Some(ShellAction::OpenSelected)
    } else if chars_eq_str(&v, "file.duplicate") {
        Some(ShellAction::Duplicate)
    } else if chars_eq_str(&v, "file.make_alias") {
        Some(ShellAction::MakeAlias)
    } else if chars_eq_str(&v, "file.compress") {
        Some(ShellAction::Compress)
    } else if chars_eq_str(&v, "file.extract") {
        Some(ShellAction::Extract)
    } else if chars_eq_str(&v, "file.rename") {
        Some(ShellAction::RenameSelected)
    } else if chars_eq_str(&v, "selection.start_rename") {
        Some(ShellAction::RenameSelected)
    } else if chars_eq_str(&v, "file.quick_look") {
        Some(ShellAction::QuickLook)
    } else if chars_eq_str(&v, "file.open_in_new_tab") {
        Some(ShellAction::OpenInNewTab)
    } else if chars_eq_str(&v, "view.search") {
        Some(ShellAction::FocusFilter)
    } else if chars_eq_str(&v, "view.edit_breadcrumb") {
        Some(ShellAction::EditBreadcrumb)
    } else if chars_eq_str(&v, "view.toggle_preview") {
        Some(ShellAction::TogglePreview)
    } else if chars_eq_str(&v, "view.toggle_hidden") {
        Some(ShellAction::ToggleHidden)
    } else if chars_eq_str(&v, "view.toggle_flat") {
        Some(ShellAction::ToggleFlatView)
    } else if chars_eq_str(&v, "view.zoom_in") {
        Some(ShellAction::ZoomIn)
    } else if chars_eq_str(&v, "view.zoom_out") {
        Some(ShellAction::ZoomOut)
    } else if chars_eq_str(&v, "view.zoom_reset") {
        Some(ShellAction::ZoomReset)
    } else if chars_eq_str(&v, "view.disk_usage") {
        Some(ShellAction::OpenDiskUsage)
    } else if chars_eq_str(&v, "view.performance_hud") {
        Some(ShellAction::TogglePerformanceHud)
    } else if chars_eq_str(&v, "view.find_duplicates") {
        Some(ShellAction::FindDuplicates)
    } else if chars_eq_str(&v, "view.find_similar_images") {
        Some(ShellAction::FindSimilarImages)
    } else if chars_eq_str(&v, "view.open_viewer") {
        Some(ShellAction::OpenViewer)
    } else if chars_eq_str(&v, "view.sort_name") {
        Some(ShellAction::SortByName)
    } else if chars_eq_str(&v, "view.sort_size") {
        Some(ShellAction::SortBySize)
    } else if chars_eq_str(&v, "view.sort_kind") {
        Some(ShellAction::SortByKind)
    } else if chars_eq_str(&v, "view.sort_modified") {
        Some(ShellAction::SortByModified)
    } else if chars_eq_str(&v, "view.sort_ant_trail") {
        Some(ShellAction::SortByAntTrail)
    } else if chars_eq_str(&v, "file.copy") {
        Some(ShellAction::CopyFiles)
    } else if chars_eq_str(&v, "file.paste") {
        Some(ShellAction::PasteFiles)
    } else if chars_eq_str(&v, "file.move_paste") {
        Some(ShellAction::MovePasteFiles)
    } else if chars_eq_str(&v, "file.delete_immediately") {
        Some(ShellAction::DeleteImmediately)
    } else if chars_eq_str(&v, "file.empty_trash") {
        Some(ShellAction::EmptyTrash)
    } else if chars_eq_str(&v, "file.reopen_closed_tab") {
        Some(ShellAction::ReopenClosedTab)
    } else if chars_eq_str(&v, "window.close_window") {
        Some(ShellAction::CloseWindow)
    } else if chars_eq_str(&v, "app.settings") {
        Some(ShellAction::OpenSettings)
    } else if chars_eq_str(&v, "go.back") {
        Some(ShellAction::NavigateBack)
    } else if chars_eq_str(&v, "go.forward") {
        Some(ShellAction::NavigateForward)
    } else if chars_eq_str(&v, "go.parent") {
        Some(ShellAction::NavigateParent)
    } else if chars_eq_str(&v, "go.home") {
        Some(ShellAction::GoHome)
    } else if chars_eq_str(&v, "go.go_to_folder") {
        Some(ShellAction::GoToFolder)
    } else if chars_eq_str(&v, "go.clear_recents") {
        Some(ShellAction::ClearRecents)
    } else if chars_eq_str(&v, "help.shortcuts") {
        Some(ShellAction::ShortcutsHelp)
    } else if chars_eq_str(&v, "selection.cursor_up") {
        Some(ShellAction::CursorUp)
    } else if chars_eq_str(&v, "selection.cursor_down") {
        Some(ShellAction::CursorDown)
    } else if chars_eq_str(&v, "selection.cursor_first") {
        Some(ShellAction::CursorFirst)
    } else if chars_eq_str(&v, "selection.cursor_last") {
        Some(ShellAction::CursorLast)
    } else if chars_eq_str(&v, "selection.page_up") {
        Some(ShellAction::PageUp)
    } else if chars_eq_str(&v, "selection.page_down") {
        Some(ShellAction::PageDown)
    } else if chars_eq_str(&v, "window.next_tab") {
        Some(ShellAction::NextTab)
    } else if chars_eq_str(&v, "window.prev_tab") {
        Some(ShellAction::PrevTab)
    } else if chars_eq_str(&v, "window.bring_all_to_front") {
        Some(ShellAction::BringAllToFront)
    } else {
        None
    }
}
} // verus!
