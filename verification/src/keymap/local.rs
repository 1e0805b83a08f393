//! Key bindings the shell installs besides the catalogue's: the filter's
//! Escape, undo, the disk-usage and icon-grid keys, tab cycling, favorites,
//! selection extension and the viewer's window-local keys.

use vstd::prelude::*;

use crate::keymap::{
    binding_string, binding_view, bindings_of, install_binding, route_of, translate_shortcut, KeyBinding,
    ShellAction, Shortcut,
};
use crate::strings::{chars_of, string_of};

verus! {

/// Where a binding applies. The more specific contexts (favorites, viewer,
/// entry info, disk usage, icon grid) win over the shell's while focused.
#[derive(Clone, Copy, PartialEq, Eq, Debug, Structural)]
pub enum BindContext {
    Shell,
    Favorites,
    Viewer,
    EntryInfo,
    DiskUsage,
    Grid,
}

/// An action bound outside the command catalogue.
#[derive(Clone, Copy, PartialEq, Eq, Debug, Structural)]
pub enum LocalAction {
    ClearFilter,
    ShowWindowsContextMenu,
    UndoLastAction,
    DuZoomIn,
    DuZoomOut,
    DuClearSelection,
    DuCopyFiles,
    DuGetInfo,
    DuTrash,
    GridLeft,
    GridRight,
    GridUp,
    GridDown,
    GridLeftExtend,
    GridRightExtend,
    GridUpExtend,
    GridDownExtend,
    NewTab,
    CloseTab,
    NextTab,
    PrevTab,
    QuickLook,
    EmptyTrash,
    DeleteImmediately,
    ToggleFavoriteForTarget,
    MoveFavoriteUp,
    MoveFavoriteDown,
    FocusFavoriteUp,
    FocusFavoriteDown,
    ActivateFavorite,
    DeleteFavorite,
    SelectAll,
    CursorFirst,
    CursorLast,
    CursorUpExtend,
    CursorDownExtend,
    CursorFirstExtend,
    CursorLastExtend,
    PageUpExtend,
    PageDownExtend,
    ViewerLeft,
    ViewerRight,
    ViewerPrev,
    ViewerNext,
    ViewerDismiss,
    EntryInfoDismiss,
    ViewerTogglePlay,
    ViewerZoomIn,
    ViewerZoomOut,
    ViewerZoomReset,
    ViewerActualSize,
    ViewerToggleFullscreen,
    ViewerRotateCw,
    ViewerRotateCcw,
    ViewerToggleAdjust,
    ViewerDelete,
    ZoomReset,
    ZoomIn,
}

/// One binding outside the catalogue: binding string, action, context.
#[derive(Debug)]
pub struct LocalBinding {
    pub keys: String,
    pub action: LocalAction,
    pub context: BindContext,
}

/// A binding as plain values.
pub open spec fn local_view(b: LocalBinding) -> (Seq<char>, LocalAction, BindContext) {
    (b.keys@, b.action, b.context)
}

/// The bindings installed before the catalogue's: Escape clears the
/// filter, Shift+F10 opens the native context menu on Windows, then undo,
/// the disk-usage keys and the icon grid's two-dimensional navigation.
pub open spec fn base_table(windows: bool) -> Seq<(Seq<char>, LocalAction, BindContext)> {
    (if windows {
        seq![("escape"@, LocalAction::ClearFilter, BindContext::Shell), ("shift-f10"@, LocalAction::ShowWindowsContextMenu, BindContext::Shell)]
    } else {
        seq![("escape"@, LocalAction::ClearFilter, BindContext::Shell)]
    })
        .push(("secondary-z"@, LocalAction::UndoLastAction, BindContext::Shell))
        .push(("enter"@, LocalAction::DuZoomIn, BindContext::DiskUsage))
        .push(("backspace"@, LocalAction::DuZoomOut, BindContext::DiskUsage))
        .push(("escape"@, LocalAction::DuClearSelection, BindContext::DiskUsage))
        .push(("secondary-c"@, LocalAction::DuCopyFiles, BindContext::DiskUsage))
        .push(("secondary-i"@, LocalAction::DuGetInfo, BindContext::DiskUsage))
        .push(("secondary-backspace"@, LocalAction::DuTrash, BindContext::DiskUsage))
        .push(("left"@, LocalAction::GridLeft, BindContext::Grid))
        .push(("right"@, LocalAction::GridRight, BindContext::Grid))
        .push(("up"@, LocalAction::GridUp, BindContext::Grid))
        .push(("down"@, LocalAction::GridDown, BindContext::Grid))
        .push(("shift-left"@, LocalAction::GridLeftExtend, BindContext::Grid))
        .push(("shift-right"@, LocalAction::GridRightExtend, BindContext::Grid))
        .push(("shift-up"@, LocalAction::GridUpExtend, BindContext::Grid))
        .push(("shift-down"@, LocalAction::GridDownExtend, BindContext::Grid))
}

/// The shell's extra bindings. Permanent delete is Option+Cmd+Backspace on
/// macOS and Shift+Delete elsewhere.
pub open spec fn extras_table(mac: bool) -> Seq<(Seq<char>, LocalAction, BindContext)> {
    Seq::<(Seq<char>, LocalAction, BindContext)>::empty()
        .push(("secondary-t"@, LocalAction::NewTab, BindContext::Shell))
        .push(("secondary-w"@, LocalAction::CloseTab, BindContext::Shell))
        .push(("ctrl-tab"@, LocalAction::NextTab, BindContext::Shell))
        .push(("ctrl-shift-tab"@, LocalAction::PrevTab, BindContext::Shell))
        .push(("space"@, LocalAction::QuickLook, BindContext::Shell))
        .push(("secondary-shift-backspace"@, LocalAction::EmptyTrash, BindContext::Shell))
        .push(
            if mac {
                ("secondary-alt-backspace"@, LocalAction::DeleteImmediately, BindContext::Shell)
            } else {
                ("shift-delete"@, LocalAction::DeleteImmediately, BindContext::Shell)
            },
        )
        .push(("secondary-d"@, LocalAction::ToggleFavoriteForTarget, BindContext::Shell))
        .push(("secondary-alt-up"@, LocalAction::MoveFavoriteUp, BindContext::Shell))
        .push(("secondary-alt-down"@, LocalAction::MoveFavoriteDown, BindContext::Shell))
        .push(("up"@, LocalAction::FocusFavoriteUp, BindContext::Favorites))
        .push(("down"@, LocalAction::FocusFavoriteDown, BindContext::Favorites))
        .push(("enter"@, LocalAction::ActivateFavorite, BindContext::Favorites))
        .push(("backspace"@, LocalAction::DeleteFavorite, BindContext::Favorites))
        .push(("delete"@, LocalAction::DeleteFavorite, BindContext::Favorites))
        .push(("secondary-a"@, LocalAction::SelectAll, BindContext::Shell))
        .push(("secondary-up"@, LocalAction::CursorFirst, BindContext::Shell))
        .push(("secondary-down"@, LocalAction::CursorLast, BindContext::Shell))
        .push(("shift-up"@, LocalAction::CursorUpExtend, BindContext::Shell))
        .push(("shift-down"@, LocalAction::CursorDownExtend, BindContext::Shell))
        .push(("secondary-shift-up"@, LocalAction::CursorFirstExtend, BindContext::Shell))
        .push(("secondary-shift-down"@, LocalAction::CursorLastExtend, BindContext::Shell))
        .push(("shift-home"@, LocalAction::CursorFirstExtend, BindContext::Shell))
        .push(("shift-end"@, LocalAction::CursorLastExtend, BindContext::Shell))
        .push(("shift-pageup"@, LocalAction::PageUpExtend, BindContext::Shell))
        .push(("shift-pagedown"@, LocalAction::PageDownExtend, BindContext::Shell))
        .push(("left"@, LocalAction::ViewerLeft, BindContext::Viewer))
        .push(("right"@, LocalAction::ViewerRight, BindContext::Viewer))
        .push(("up"@, LocalAction::ViewerPrev, BindContext::Viewer))
        .push(("down"@, LocalAction::ViewerNext, BindContext::Viewer))
        .push(("ctrl-left"@, LocalAction::ViewerPrev, BindContext::Viewer))
        .push(("ctrl-right"@, LocalAction::ViewerNext, BindContext::Viewer))
        .push(("escape"@, LocalAction::ViewerDismiss, BindContext::Viewer))
        .push(("escape"@, LocalAction::EntryInfoDismiss, BindContext::EntryInfo))
        .push(("space"@, LocalAction::ViewerTogglePlay, BindContext::Viewer))
        .push(("secondary-="@, LocalAction::ViewerZoomIn, BindContext::Viewer))
        .push(("secondary--"@, LocalAction::ViewerZoomOut, BindContext::Viewer))
        .push(("secondary-0"@, LocalAction::ViewerZoomReset, BindContext::Viewer))
        .push(("secondary-1"@, LocalAction::ViewerActualSize, BindContext::Viewer))
        .push(("secondary-ctrl-f"@, LocalAction::ViewerToggleFullscreen, BindContext::Viewer))
        .push(("r"@, LocalAction::ViewerRotateCw, BindContext::Viewer))
        .push(("shift-r"@, LocalAction::ViewerRotateCcw, BindContext::Viewer))
        .push(("e"@, LocalAction::ViewerToggleAdjust, BindContext::Viewer))
        .push(("secondary-backspace"@, LocalAction::ViewerDelete, BindContext::Viewer))
        .push(("backspace"@, LocalAction::ViewerDelete, BindContext::Viewer))
        .push(("delete"@, LocalAction::ViewerDelete, BindContext::Viewer))
        .push(("secondary-shift-0"@, LocalAction::ZoomReset, BindContext::Shell))
        .push(("secondary-shift-="@, LocalAction::ZoomIn, BindContext::Shell))
        .push(("secondary-shift-0"@, LocalAction::ViewerZoomReset, BindContext::Viewer))
        .push(("secondary-shift-1"@, LocalAction::ViewerActualSize, BindContext::Viewer))
        .push(("secondary-shift-="@, LocalAction::ViewerZoomIn, BindContext::Viewer))
}

fn bind(out: &mut Vec<LocalBinding>, keys: &str, action: LocalAction, context: BindContext)
    ensures
        final(out)@.map_values(|b: LocalBinding| local_view(b)) == old(out)@.map_values(
            |b: LocalBinding| local_view(b),
        ).push((keys@, action, context)),
{
    let ghost before = out@;
    out.push(LocalBinding { keys: string_of(&chars_of(keys)), action, context });
    assert(out@.map_values(|b: LocalBinding| local_view(b)) =~= before.map_values(
        |b: LocalBinding| local_view(b),
    ).push((keys@, action, context)));
}

/// The bindings installed ahead of the catalogue's, in order.
pub fn base_bindings(windows: bool) -> (r: Vec<LocalBinding>)
    ensures
        r@.map_values(|b: LocalBinding| local_view(b)) == base_table(windows),
{
    let mut out: Vec<LocalBinding> = Vec::new();
    assert(out@.map_values(|b: LocalBinding| local_view(b)) =~= Seq::empty());
    bind(&mut out, "escape", LocalAction::ClearFilter, BindContext::Shell);
    if windows {
        bind(&mut out, "shift-f10", LocalAction::ShowWindowsContextMenu, BindContext::Shell);
    }
    bind(&mut out, "secondary-z", LocalAction::UndoLastAction, BindContext::Shell);
    bind(&mut out, "enter", LocalAction::DuZoomIn, BindContext::DiskUsage);
    bind(&mut out, "backspace", LocalAction::DuZoomOut, BindContext::DiskUsage);
    bind(&mut out, "escape", LocalAction::DuClearSelection, BindContext::DiskUsage);
    bind(&mut out, "secondary-c", LocalAction::DuCopyFiles, BindContext::DiskUsage);
    bind(&mut out, "secondary-i", LocalAction::DuGetInfo, BindContext::DiskUsage);
    bind(&mut out, "secondary-backspace", LocalAction::DuTrash, BindContext::DiskUsage);
    bind(&mut out, "left", LocalAction::GridLeft, BindContext::Grid);
    bind(&mut out, "right", LocalAction::GridRight, BindContext::Grid);
    bind(&mut out, "up", LocalAction::GridUp, BindContext::Grid);
    bind(&mut out, "down", LocalAction::GridDown, BindContext::Grid);
    bind(&mut out, "shift-left", LocalAction::GridLeftExtend, BindContext::Grid);
    bind(&mut out, "shift-right", LocalAction::GridRightExtend, BindContext::Grid);
    bind(&mut out, "shift-up", LocalAction::GridUpExtend, BindContext::Grid);
    bind(&mut out, "shift-down", LocalAction::GridDownExtend, BindContext::Grid);
    out
}

/// The shell's extra bindings, in order.
pub fn install_extras(mac: bool) -> (r: Vec<LocalBinding>)
    ensures
        r@.map_values(|b: LocalBinding| local_view(b)) == extras_table(mac),
{
    let mut out: Vec<LocalBinding> = Vec::new();
    assert(out@.map_values(|b: LocalBinding| local_view(b)) =~= Seq::empty());
    bind(&mut out, "secondary-t", LocalAction::NewTab, BindContext::Shell);
    bind(&mut out, "secondary-w", LocalAction::CloseTab, BindContext::Shell);
    bind(&mut out, "ctrl-tab", LocalAction::NextTab, BindContext::Shell);
    bind(&mut out, "ctrl-shift-tab", LocalAction::PrevTab, BindContext::Shell);
    bind(&mut out, "space", LocalAction::QuickLook, BindContext::Shell);
    bind(&mut out, "secondary-shift-backspace", LocalAction::EmptyTrash, BindContext::Shell);
    if mac {
        bind(&mut out, "secondary-alt-backspace", LocalAction::DeleteImmediately, BindContext::Shell);
    } else {
        bind(&mut out, "shift-delete", LocalAction::DeleteImmediately, BindContext::Shell);
    }
    bind(&mut out, "secondary-d", LocalAction::ToggleFavoriteForTarget, BindContext::Shell);
    bind(&mut out, "secondary-alt-up", LocalAction::MoveFavoriteUp, BindContext::Shell);
    bind(&mut out, "secondary-alt-down", LocalAction::MoveFavoriteDown, BindContext::Shell);
    bind(&mut out, "up", LocalAction::FocusFavoriteUp, BindContext::Favorites);
    bind(&mut out, "down", LocalAction::FocusFavoriteDown, BindContext::Favorites);
    bind(&mut out, "enter", LocalAction::ActivateFavorite, BindContext::Favorites);
    bind(&mut out, "backspace", LocalAction::DeleteFavorite, BindContext::Favorites);
    bind(&mut out, "delete", LocalAction::DeleteFavorite, BindContext::Favorites);
    bind(&mut out, "secondary-a", LocalAction::SelectAll, BindContext::Shell);
    bind(&mut out, "secondary-up", LocalAction::CursorFirst, BindContext::Shell);
    bind(&mut out, "secondary-down", LocalAction::CursorLast, BindContext::Shell);
    bind(&mut out, "shift-up", LocalAction::CursorUpExtend, BindContext::Shell);
    bind(&mut out, "shift-down", LocalAction::CursorDownExtend, BindContext::Shell);
    bind(&mut out, "secondary-shift-up", LocalAction::CursorFirstExtend, BindContext::Shell);
    bind(&mut out, "secondary-shift-down", LocalAction::CursorLastExtend, BindContext::Shell);
    bind(&mut out, "shift-home", LocalAction::CursorFirstExtend, BindContext::Shell);
    bind(&mut out, "shift-end", LocalAction::CursorLastExtend, BindContext::Shell);
    bind(&mut out, "shift-pageup", LocalAction::PageUpExtend, BindContext::Shell);
    bind(&mut out, "shift-pagedown", LocalAction::PageDownExtend, BindContext::Shell);
    bind(&mut out, "left", LocalAction::ViewerLeft, BindContext::Viewer);
    bind(&mut out, "right", LocalAction::ViewerRight, BindContext::Viewer);
    bind(&mut out, "up", LocalAction::ViewerPrev, BindContext::Viewer);
    bind(&mut out, "down", LocalAction::ViewerNext, BindContext::Viewer);
    bind(&mut out, "ctrl-left", LocalAction::ViewerPrev, BindContext::Viewer);
    bind(&mut out, "ctrl-right", LocalAction::ViewerNext, BindContext::Viewer);
    bind(&mut out, "escape", LocalAction::ViewerDismiss, BindContext::Viewer);
    bind(&mut out, "escape", LocalAction::EntryInfoDismiss, BindContext::EntryInfo);
    bind(&mut out, "space", LocalAction::ViewerTogglePlay, BindContext::Viewer);
    bind(&mut out, "secondary-=", LocalAction::ViewerZoomIn, BindContext::Viewer);
    bind(&mut out, "secondary--", LocalAction::ViewerZoomOut, BindContext::Viewer);
    bind(&mut out, "secondary-0", LocalAction::ViewerZoomReset, BindContext::Viewer);
    bind(&mut out, "secondary-1", LocalAction::ViewerActualSize, BindContext::Viewer);
    bind(&mut out, "secondary-ctrl-f", LocalAction::ViewerToggleFullscreen, BindContext::Viewer);
    bind(&mut out, "r", LocalAction::ViewerRotateCw, BindContext::Viewer);
    bind(&mut out, "shift-r", LocalAction::ViewerRotateCcw, BindContext::Viewer);
    bind(&mut out, "e", LocalAction::ViewerToggleAdjust, BindContext::Viewer);
    bind(&mut out, "secondary-backspace", LocalAction::ViewerDelete, BindContext::Viewer);
    bind(&mut out, "backspace", LocalAction::ViewerDelete, BindContext::Viewer);
    bind(&mut out, "delete", LocalAction::ViewerDelete, BindContext::Viewer);
    bind(&mut out, "secondary-shift-0", LocalAction::ZoomReset, BindContext::Shell);
    bind(&mut out, "secondary-shift-=", LocalAction::ZoomIn, BindContext::Shell);
    bind(&mut out, "secondary-shift-0", LocalAction::ViewerZoomReset, BindContext::Viewer);
    bind(&mut out, "secondary-shift-1", LocalAction::ViewerActualSize, BindContext::Viewer);
    bind(&mut out, "secondary-shift-=", LocalAction::ViewerZoomIn, BindContext::Viewer);
    out
}

/// A catalogued command as the keymap reads it: its id and its shortcuts.
#[derive(Debug)]
pub struct CatalogueCommand {
    pub id: String,
    pub shortcuts: Vec<Shortcut>,
}

/// The bindings a command's shortcuts install, shortcut by shortcut; a
/// shortcut whose key does not translate installs nothing.
pub open spec fn shortcut_bindings(id: Seq<char>, s: Seq<Shortcut>) -> Seq<(Seq<char>, ShellAction, bool)>
    decreases s.len(),
{
    if s.len() == 0 {
        Seq::empty()
    } else {
        shortcut_bindings(id, s.drop_last()) + match binding_string(s.last()) {
            Some(b) => bindings_of(route_of(id), b),
            None => Seq::empty(),
        }
    }
}

/// The translated shortcuts of a command this build does not know, as
/// (command id, binding string) pairs.
pub open spec fn shortcut_unresolved(id: Seq<char>, s: Seq<Shortcut>) -> Seq<(Seq<char>, Seq<char>)>
    decreases s.len(),
{
    if s.len() == 0 {
        Seq::empty()
    } else {
        shortcut_unresolved(id, s.drop_last()) + match binding_string(s.last()) {
            Some(b) => if route_of(id) is Unknown {
                seq![(id, b)]
            } else {
                Seq::empty()
            },
            None => Seq::empty(),
        }
    }
}

/// The bindings the whole catalogue installs, command by command.
pub open spec fn catalogue_bindings(cmds: Seq<CatalogueCommand>) -> Seq<(Seq<char>, ShellAction, bool)>
    decreases cmds.len(),
{
    if cmds.len() == 0 {
        Seq::empty()
    } else {
        catalogue_bindings(cmds.drop_last()) + shortcut_bindings(cmds.last().id@, cmds.last().shortcuts@)
    }
}

/// Every translated shortcut of the catalogue whose command is unknown.
pub open spec fn catalogue_unresolved(cmds: Seq<CatalogueCommand>) -> Seq<(Seq<char>, Seq<char>)>
    decreases cmds.len(),
{
    if cmds.len() == 0 {
        Seq::empty()
    } else {
        catalogue_unresolved(cmds.drop_last()) + shortcut_unresolved(cmds.last().id@, cmds.last().shortcuts@)
    }
}

/// What installing the keymap binds: the bindings outside the catalogue,
/// the catalogue's own, and the shortcuts skipped because their command is
/// unknown (each reported once).
#[derive(Debug)]
pub struct KeymapPlan {
    pub local: Vec<LocalBinding>,
    pub catalogue: Vec<KeyBinding>,
    pub unresolved: Vec<(String, String)>,
}

/// A pair of strings as plain values.
pub open spec fn pair_view(p: (String, String)) -> (Seq<char>, Seq<char>) {
    (p.0@, p.1@)
}

/// The keymap for a catalogue: the bindings outside it first, then each
/// command's translatable shortcuts in catalogue order.
pub fn install(commands: &[CatalogueCommand], windows: bool) -> (r: KeymapPlan)
    ensures
        r.local@.map_values(|b: LocalBinding| local_view(b)) == base_table(windows),
        r.catalogue@.map_values(|b: KeyBinding| binding_view(b)) == catalogue_bindings(commands@),
        r.unresolved@.map_values(|p: (String, String)| pair_view(p)) == catalogue_unresolved(commands@),
{
    let local = base_bindings(windows);
    let mut catalogue: Vec<KeyBinding> = Vec::new();
    let mut unresolved: Vec<(String, String)> = Vec::new();
    let mut i: usize = 0;
    assert(commands@.take(0) =~= Seq::<CatalogueCommand>::empty());
    assert(catalogue@.map_values(|b: KeyBinding| binding_view(b)) =~= Seq::empty());
    assert(unresolved@.map_values(|p: (String, String)| pair_view(p)) =~= Seq::empty());
    while i < commands.len()
        invariant
            i <= commands.len(),
            catalogue@.map_values(|b: KeyBinding| binding_view(b)) == catalogue_bindings(
                commands@.take(i as int),
            ),
            unresolved@.map_values(|p: (String, String)| pair_view(p)) == catalogue_unresolved(
                commands@.take(i as int),
            ),
        decreases commands.len() - i,
    {
        let cmd = &commands[i];
        let ghost id = cmd.id@;
        let ghost sc = cmd.shortcuts@;
        let ghost done_b = catalogue_bindings(commands@.take(i as int));
        let ghost done_u = catalogue_unresolved(commands@.take(i as int));
        let mut j: usize = 0;
        assert(sc.take(0) =~= Seq::<Shortcut>::empty());
        assert(done_b + shortcut_bindings(id, sc.take(0)) =~= done_b);
        assert(done_u + shortcut_unresolved(id, sc.take(0)) =~= done_u);
        while j < cmd.shortcuts.len()
            invariant
                j <= cmd.shortcuts.len(),
                cmd.id@ == id,
                cmd.shortcuts@ == sc,
                catalogue@.map_values(|b: KeyBinding| binding_view(b)) == done_b + shortcut_bindings(
                    id,
                    sc.take(j as int),
                ),
                unresolved@.map_values(|p: (String, String)| pair_view(p)) == done_u
                    + shortcut_unresolved(id, sc.take(j as int)),
            decreases cmd.shortcuts.len() - j,
        {
            let ghost before_b = catalogue@.map_values(|b: KeyBinding| binding_view(b));
            let ghost before_u = unresolved@.map_values(|p: (String, String)| pair_view(p));
            assert(sc.take(j + 1).drop_last() =~= sc.take(j as int));
            assert(sc.take(j + 1).last() == sc[j as int]);
            match translate_shortcut(&cmd.shortcuts[j]) {
                Some(b) => {
                    let (known, mut bound) = install_binding(cmd.id.as_str(), b.as_str());
                    let ghost added = bound@;
                    let ghost old_cat = catalogue@;
                    catalogue.append(&mut bound);
                    assert(catalogue@ =~= old_cat + added);
                    assert(catalogue@.map_values(|b: KeyBinding| binding_view(b)) =~= before_b
                        + added.map_values(|b: KeyBinding| binding_view(b)));
                    if !known {
                        let ghost old_un = unresolved@;
                        unresolved.push((string_of(&chars_of(cmd.id.as_str())), b));
                        assert(unresolved@.map_values(|p: (String, String)| pair_view(p))
                            =~= before_u.push((id, b@)));
                    }
                },
                None => {},
            }
            j = j + 1;
        }
        assert(sc.take(j as int) =~= sc);
        assert(commands@.take(i + 1).drop_last() =~= commands@.take(i as int));
        assert(commands@.take(i + 1).last() == commands@[i as int]);
        i = i + 1;
    }
    assert(commands@.take(i as int) =~= commands@);
    KeymapPlan { local, catalogue, unresolved }
}

/// Shortcuts of a command with a known route are never reported as
/// unresolved.
proof fn lemma_known_command_resolves(id: Seq<char>, s: Seq<Shortcut>)
    requires
        !(route_of(id) is Unknown),
    ensures
        shortcut_unresolved(id, s) == Seq::<(Seq<char>, Seq<char>)>::empty(),
    decreases s.len(),
{
    if s.len() > 0 {
        lemma_known_command_resolves(id, s.drop_last());
        assert(shortcut_unresolved(id, s) =~= Seq::<(Seq<char>, Seq<char>)>::empty());
    }
}

/// When every command of the catalogue has a known route, installing it
/// reports nothing as unresolved.
pub proof fn lemma_known_catalogue_installs_cleanly(cmds: Seq<CatalogueCommand>)
    requires
        forall|k: int| 0 <= k < cmds.len() ==> !(#[trigger] route_of(cmds[k].id@) is Unknown),
    ensures
        catalogue_unresolved(cmds) == Seq::<(Seq<char>, Seq<char>)>::empty(),
    decreases cmds.len(),
{
    if cmds.len() > 0 {
        lemma_known_catalogue_installs_cleanly(cmds.drop_last());
        assert(!(route_of(cmds[cmds.len() - 1].id@) is Unknown));
        lemma_known_command_resolves(cmds.last().id@, cmds.last().shortcuts@);
        assert(catalogue_unresolved(cmds) =~= Seq::<(Seq<char>, Seq<char>)>::empty());
    }
}

} // verus!
