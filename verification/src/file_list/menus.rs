//! Which entries the file list's context menus plan, in which order, for
//! what was right-clicked. Labels, actions and submenu contents are the
//! caller's; the user's preferences are applied when the plan is rendered.

use vstd::prelude::*;

use crate::file_list::{allows_spec, Availability, EntryKind, FileEntry, MenuTargets};
use crate::image_edit::{editable_image_name, editable_name};
use crate::menu_plan::layout::SlotV;
use crate::menu_plan::inventory::inventory_of;
use crate::menu_plan::{ids, MenuPlan, MenuSurface};

verus! {

/// What the row menu needs to know beyond the targets, gathered without
/// touching the file system: whether the clicked row is a checksum
/// manifest, whether it has a path on disk, whether the platform can name
/// the processes locking a file, supports colour tags, and has its own
/// shell menu to hand over to.
#[derive(Clone, Copy, Debug)]
pub struct RowMenuFacts {
    pub anchor_is_manifest: bool,
    pub has_target_path: bool,
    pub lock_diagnostics: bool,
    pub supports_tags: bool,
    pub platform_shell_menu: bool,
}

/// `s` when `c` holds, nothing otherwise.
pub open spec fn when(c: bool, s: Seq<SlotV>) -> Seq<SlotV> {
    if c {
        s
    } else {
        Seq::empty()
    }
}

/// An entry slot.
pub open spec fn ent(id: &'static str) -> SlotV {
    SlotV::Entry(id@)
}

/// The opening group of the row menu: open, edit, inspect.
pub open spec fn head_spec(t: MenuTargets, editable_image: bool) -> Seq<SlotV> {
    let single = allows_spec(Availability::SingleOnly, t);
    let anchor_file = allows_spec(Availability::AnchorFile, t);
    let anchor_dir = allows_spec(Availability::AnchorDir, t);
    let single_file = single && anchor_file;
    seq![ent(ids::OPEN)] + when(anchor_dir || single_file, seq![ent(ids::OPEN_IN_NEW_TAB)]) + when(
        single_file,
        seq![ent(ids::EDIT)] + when(editable_image, seq![ent(ids::EDIT_IMAGE)]) + seq![
            ent(ids::EDIT_IN_SYSTEM_EDITOR),
        ],
    ) + seq![SlotV::Separator, ent(ids::GET_INFO), ent(ids::QUICK_LOOK)] + when(
        anchor_file,
        seq![ent(ids::SLIDESHOW_FROM_HERE)],
    )
}

/// The path group of the row menu: reveal, copy, checksums, locks,
/// terminal.
pub open spec fn path_spec(t: MenuTargets, f: RowMenuFacts) -> Seq<SlotV> {
    let single = allows_spec(Availability::SingleOnly, t);
    let anchor_file = allows_spec(Availability::AnchorFile, t);
    let anchor_dir = allows_spec(Availability::AnchorDir, t);
    let checksum = single && anchor_file;
    seq![SlotV::Separator, ent(ids::REVEAL)] + when(single, seq![ent(ids::COPY_PATH)]) + when(
        checksum,
        seq![ent(ids::GENERATE_SHA256)],
    ) + when(checksum && f.anchor_is_manifest, seq![ent(ids::VERIFY_CHECKSUMS)]) + seq![
        ent(ids::CREATE_CHECKSUM_FILE),
    ] + when(f.lock_diagnostics, seq![ent(ids::SHOW_LOCK_HOLDERS)]) + when(
        anchor_dir,
        seq![ent(ids::OPEN_TERMINAL_HERE)],
    )
}

/// The file-operation group of the row menu: rename, copy, archives.
pub open spec fn edit_spec(t: MenuTargets) -> Seq<SlotV> {
    let single = allows_spec(Availability::SingleOnly, t);
    let anchor_file = allows_spec(Availability::AnchorFile, t);
    seq![SlotV::Separator] + when(single, seq![ent(ids::RENAME)]) + when(
        t.count >= 2,
        seq![ent(ids::BULK_RENAME)],
    ) + seq![ent(ids::DUPLICATE), ent(ids::MAKE_ALIAS), ent(ids::COMPRESS)] + when(
        allows_spec(Availability::AnyArchive, t),
        seq![ent(ids::EXTRACT)] + when(single, seq![ent(ids::CONVERT_ARCHIVE)]),
    ) + when(single && anchor_file, seq![ent(ids::OPEN_AS_ARCHIVE)])
}

/// The closing groups of the row menu: quarantine, favorites, open with,
/// tags, trash, and the platform's own menu.
pub open spec fn tail_spec(t: MenuTargets, f: RowMenuFacts) -> Seq<SlotV> {
    let single = allows_spec(Availability::SingleOnly, t);
    let anchor_dir = allows_spec(Availability::AnchorDir, t);
    when(
        allows_spec(Availability::AnyQuarantined, t),
        seq![SlotV::Separator, ent(ids::CLEAR_QUARANTINE)],
    ) + when(anchor_dir, seq![SlotV::Separator, ent(ids::TOGGLE_FAVORITE)]) + when(
        single && f.has_target_path,
        seq![ent(ids::OPEN_WITH)],
    ) + when(f.supports_tags, seq![ent(ids::TAGS)]) + seq![
        SlotV::Separator,
        ent(ids::MOVE_TO_TRASH),
        ent(ids::DELETE_IMMEDIATELY),
    ] + when(f.platform_shell_menu, seq![SlotV::Separator, ent(ids::WINDOWS_CONTEXT_MENU)])
}

/// The row menu's plan for the targets, the facts, and whether the clicked
/// row's name is an image the built-in editor opens.
pub open spec fn row_menu_spec(t: MenuTargets, f: RowMenuFacts, editable_image: bool) -> Seq<SlotV> {
    head_spec(t, editable_image) + path_spec(t, f) + edit_spec(t) + tail_spec(t, f)
}

/// Whether the clicked row's name is one the image editor opens.
pub open spec fn anchor_editable(entries: Seq<FileEntry>, row_ix: int) -> bool {
    0 <= row_ix < entries.len() && editable_name(entries[row_ix].display_name@)
}

fn plan_when(plan: MenuPlan, c: bool, id: &'static str) -> (r: MenuPlan)
    ensures
        r.surface_spec() == plan.surface_spec(),
        r.items_spec() == plan.items_spec() + when(c, seq![ent(id)]),
{
    if c {
        let r = plan.action(id);
        assert(r.items_spec() =~= plan.items_spec() + seq![ent(id)]);
        r
    } else {
        assert(plan.items_spec() =~= plan.items_spec() + Seq::<SlotV>::empty());
        plan
    }
}

fn plan_all(plan: MenuPlan, id: &'static str) -> (r: MenuPlan)
    ensures
        r.surface_spec() == plan.surface_spec(),
        r.items_spec() == plan.items_spec() + seq![ent(id)],
{
    let r = plan.action(id);
    assert(r.items_spec() =~= plan.items_spec() + seq![ent(id)]);
    r
}

fn plan_sep(plan: MenuPlan) -> (r: MenuPlan)
    ensures
        r.surface_spec() == plan.surface_spec(),
        r.items_spec() == plan.items_spec() + seq![SlotV::Separator],
{
    let r = plan.separator();
    assert(r.items_spec() =~= plan.items_spec() + seq![SlotV::Separator]);
    r
}

fn plan_pair(plan: MenuPlan, c: bool, id: &'static str) -> (r: MenuPlan)
    ensures
        r.surface_spec() == plan.surface_spec(),
        r.items_spec() == plan.items_spec() + when(c, seq![SlotV::Separator, ent(id)]),
{
    if c {
        let r = plan_all(plan_sep(plan), id);
        assert(r.items_spec() =~= plan.items_spec() + seq![SlotV::Separator, ent(id)]);
        r
    } else {
        assert(plan.items_spec() =~= plan.items_spec() + Seq::<SlotV>::empty());
        plan
    }
}

fn plan_head(plan: MenuPlan, t: &MenuTargets, editable_image: bool) -> (r: MenuPlan)
    ensures
        r.surface_spec() == plan.surface_spec(),
        r.items_spec() == plan.items_spec() + head_spec(*t, editable_image),
{
    let ghost s0 = plan.items_spec();
    let single = Availability::SingleOnly.allows(t);
    let anchor_file = Availability::AnchorFile.allows(t);
    let anchor_dir = Availability::AnchorDir.allows(t);
    let single_file = single && anchor_file;
    let mut plan = plan_all(plan, ids::OPEN);
    plan = plan_when(plan, anchor_dir || single_file, ids::OPEN_IN_NEW_TAB);
    let ghost s1 = plan.items_spec();
    if single_file {
        plan = plan_all(plan, ids::EDIT);
        plan = plan_when(plan, editable_image, ids::EDIT_IMAGE);
        plan = plan_all(plan, ids::EDIT_IN_SYSTEM_EDITOR);
        assert(plan.items_spec() =~= s1 + (seq![ent(ids::EDIT)] + when(
            editable_image,
            seq![ent(ids::EDIT_IMAGE)],
        ) + seq![ent(ids::EDIT_IN_SYSTEM_EDITOR)]));
    } else {
        assert(plan.items_spec() =~= s1 + Seq::<SlotV>::empty());
    }
    plan = plan_sep(plan);
    plan = plan_all(plan, ids::GET_INFO);
    plan = plan_all(plan, ids::QUICK_LOOK);
    plan = plan_when(plan, anchor_file, ids::SLIDESHOW_FROM_HERE);
    assert(plan.items_spec() =~= s0 + head_spec(*t, editable_image));
    plan
}

fn plan_path(plan: MenuPlan, t: &MenuTargets, f: &RowMenuFacts) -> (r: MenuPlan)
    ensures
        r.surface_spec() == plan.surface_spec(),
        r.items_spec() == plan.items_spec() + path_spec(*t, *f),
{
    let ghost s0 = plan.items_spec();
    let single = Availability::SingleOnly.allows(t);
    let anchor_file = Availability::AnchorFile.allows(t);
    let anchor_dir = Availability::AnchorDir.allows(t);
    let mut plan = plan_sep(plan);
    plan = plan_all(plan, ids::REVEAL);
    plan = plan_when(plan, single, ids::COPY_PATH);
    plan = plan_when(plan, single && anchor_file, ids::GENERATE_SHA256);
    plan = plan_when(plan, single && anchor_file && f.anchor_is_manifest, ids::VERIFY_CHECKSUMS);
    plan = plan_all(plan, ids::CREATE_CHECKSUM_FILE);
    plan = plan_when(plan, f.lock_diagnostics, ids::SHOW_LOCK_HOLDERS);
    plan = plan_when(plan, anchor_dir, ids::OPEN_TERMINAL_HERE);
    assert(plan.items_spec() =~= s0 + path_spec(*t, *f));
    plan
}

fn plan_edit(plan: MenuPlan, t: &MenuTargets) -> (r: MenuPlan)
    ensures
        r.surface_spec() == plan.surface_spec(),
        r.items_spec() == plan.items_spec() + edit_spec(*t),
{
    let ghost s0 = plan.items_spec();
    let single = Availability::SingleOnly.allows(t);
    let anchor_file = Availability::AnchorFile.allows(t);
    let mut plan = plan_sep(plan);
    plan = plan_when(plan, single, ids::RENAME);
    plan = plan_when(plan, t.count >= 2, ids::BULK_RENAME);
    plan = plan_all(plan, ids::DUPLICATE);
    plan = plan_all(plan, ids::MAKE_ALIAS);
    plan = plan_all(plan, ids::COMPRESS);
    let ghost s1 = plan.items_spec();
    if Availability::AnyArchive.allows(t) {
        plan = plan_all(plan, ids::EXTRACT);
        plan = plan_when(plan, single, ids::CONVERT_ARCHIVE);
        assert(plan.items_spec() =~= s1 + (seq![ent(ids::EXTRACT)] + when(single, seq![ent(ids::CONVERT_ARCHIVE)])));
    } else {
        assert(plan.items_spec() =~= s1 + Seq::<SlotV>::empty());
    }
    plan = plan_when(plan, single && anchor_file, ids::OPEN_AS_ARCHIVE);
    assert(plan.items_spec() =~= s0 + edit_spec(*t));
    plan
}

fn plan_tail(plan: MenuPlan, t: &MenuTargets, f: &RowMenuFacts) -> (r: MenuPlan)
    ensures
        r.surface_spec() == plan.surface_spec(),
        r.items_spec() == plan.items_spec() + tail_spec(*t, *f),
{
    let ghost s0 = plan.items_spec();
    let single = Availability::SingleOnly.allows(t);
    let anchor_dir = Availability::AnchorDir.allows(t);
    let mut plan = plan_pair(plan, Availability::AnyQuarantined.allows(t), ids::CLEAR_QUARANTINE);
    plan = plan_pair(plan, anchor_dir, ids::TOGGLE_FAVORITE);
    plan = plan_when(plan, single && f.has_target_path, ids::OPEN_WITH);
    plan = plan_when(plan, f.supports_tags, ids::TAGS);
    plan = plan_sep(plan);
    plan = plan_all(plan, ids::MOVE_TO_TRASH);
    plan = plan_all(plan, ids::DELETE_IMMEDIATELY);
    plan = plan_pair(plan, f.platform_shell_menu, ids::WINDOWS_CONTEXT_MENU);
    assert(plan.items_spec() =~= s0 + tail_spec(*t, *f));
    plan
}

/// Plan the menu of a right-clicked row: every entry the targets (the
/// same set the command will act on) allow, grouped by separators.
pub fn row_menu_plan(entries: &[FileEntry], row_ix: usize, t: &MenuTargets, f: &RowMenuFacts) -> (r:
    MenuPlan)
    ensures
        r.surface_spec() == MenuSurface::FileRow,
        r.items_spec() == row_menu_spec(*t, *f, anchor_editable(entries@, row_ix as int)),
{
    let editable_image = if row_ix < entries.len() {
        editable_image_name(entries[row_ix].display_name.as_str())
    } else {
        false
    };
    let plan = MenuPlan::new(MenuSurface::FileRow);
    let plan = plan_head(plan, t, editable_image);
    let plan = plan_path(plan, t, f);
    let plan = plan_edit(plan, t);
    let plan = plan_tail(plan, t, f);
    assert(plan.items_spec() =~= row_menu_spec(*t, *f, editable_image));
    plan
}

/// The menu of a right-clicked row in the trash: the clicked row's folder
/// opens in a new tab; everything else is fixed.
pub open spec fn trash_row_spec(anchor_is_dir: bool) -> Seq<SlotV> {
    seq![ent(ids::OPEN)] + when(anchor_is_dir, seq![ent(ids::OPEN_IN_NEW_TAB)]) + seq![
        SlotV::Separator,
        ent(ids::RESTORE_FROM_TRASH),
        SlotV::Separator,
        ent(ids::GET_INFO),
        ent(ids::QUICK_LOOK),
        ent(ids::REVEAL),
        ent(ids::COPY_PATH),
        SlotV::Separator,
        ent(ids::DELETE_IMMEDIATELY),
        ent(ids::EMPTY_TRASH),
    ]
}

/// Plan the menu of a right-clicked row while browsing the trash.
pub fn trash_row_menu_plan(entries: &[FileEntry], row_ix: usize) -> (r: MenuPlan)
    ensures
        r.surface_spec() == MenuSurface::TrashRow,
        r.items_spec() == trash_row_spec(
            0 <= row_ix < entries@.len() && entries@[row_ix as int].kind == EntryKind::Directory,
        ),
{
    let anchor_is_dir = row_ix < entries.len() && entries[row_ix].kind == EntryKind::Directory;
    let mut plan = plan_all(MenuPlan::new(MenuSurface::TrashRow), ids::OPEN);
    plan = plan_when(plan, anchor_is_dir, ids::OPEN_IN_NEW_TAB);
    let ghost s = plan.items_spec();
    plan = plan_sep(plan);
    plan = plan_all(plan, ids::RESTORE_FROM_TRASH);
    plan = plan_sep(plan);
    plan = plan_all(plan, ids::GET_INFO);
    plan = plan_all(plan, ids::QUICK_LOOK);
    plan = plan_all(plan, ids::REVEAL);
    plan = plan_all(plan, ids::COPY_PATH);
    plan = plan_sep(plan);
    plan = plan_all(plan, ids::DELETE_IMMEDIATELY);
    plan = plan_all(plan, ids::EMPTY_TRASH);
    assert(plan.items_spec() =~= trash_row_spec(anchor_is_dir));
    plan
}

/// The empty-space menu: it targets the folder being browsed. In the
/// trash there is nothing to create or paste.
pub open spec fn background_spec(in_trash: bool) -> Seq<SlotV> {
    if in_trash {
        seq![
            ent(ids::SELECT_ALL),
            SlotV::Separator,
            ent(ids::REVEAL),
            ent(ids::COPY_PATH),
            SlotV::Separator,
            ent(ids::EMPTY_TRASH),
            ent(ids::REFRESH),
        ]
    } else {
        seq![
            ent(ids::NEW_FOLDER),
            SlotV::Separator,
            ent(ids::PASTE),
            ent(ids::SELECT_ALL),
            SlotV::Separator,
            ent(ids::GET_INFO),
            ent(ids::REVEAL),
            ent(ids::COPY_PATH),
            ent(ids::OPEN_TERMINAL_HERE),
            SlotV::Separator,
            ent(ids::PIN_TO_FAVORITES),
            SlotV::Separator,
            ent(ids::REFRESH),
        ]
    }
}

/// Plan the empty-space menu of a listing (the trash's own when browsing
/// it).
pub fn background_menu_plan(in_trash: bool) -> (r: MenuPlan)
    ensures
        r.surface_spec() == if in_trash {
            MenuSurface::TrashBackground
        } else {
            MenuSurface::FileBackground
        },
        r.items_spec() == background_spec(in_trash),
{
    if in_trash {
        let mut plan = plan_all(MenuPlan::new(MenuSurface::TrashBackground), ids::SELECT_ALL);
        plan = plan_sep(plan);
        plan = plan_all(plan, ids::REVEAL);
        plan = plan_all(plan, ids::COPY_PATH);
        plan = plan_sep(plan);
        plan = plan_all(plan, ids::EMPTY_TRASH);
        plan = plan_all(plan, ids::REFRESH);
        assert(plan.items_spec() =~= background_spec(true));
        plan
    } else {
        let mut plan = plan_all(MenuPlan::new(MenuSurface::FileBackground), ids::NEW_FOLDER);
        plan = plan_sep(plan);
        plan = plan_all(plan, ids::PASTE);
        plan = plan_all(plan, ids::SELECT_ALL);
        plan = plan_sep(plan);
        plan = plan_all(plan, ids::GET_INFO);
        plan = plan_all(plan, ids::REVEAL);
        plan = plan_all(plan, ids::COPY_PATH);
        plan = plan_all(plan, ids::OPEN_TERMINAL_HERE);
        plan = plan_sep(plan);
        plan = plan_all(plan, ids::PIN_TO_FAVORITES);
        plan = plan_sep(plan);
        plan = plan_all(plan, ids::REFRESH);
        assert(plan.items_spec() =~= background_spec(false));
        plan
    }
}

/// Whether a surface's inventory lists entry `id`.
pub open spec fn listed(surface: MenuSurface, id: Seq<char>) -> bool {
    exists|i: int| 0 <= i < inventory_of(surface).len() && (#[trigger] inventory_of(surface)[i])@ == id
}

/// Whether every entry of a plan is one its surface's inventory lists.
pub open spec fn all_listed(s: Seq<SlotV>, surface: MenuSurface) -> bool {
    forall|k: int| 0 <= k < s.len() ==> (#[trigger] s[k] matches SlotV::Entry(id) ==> listed(surface, id))
}

proof fn lemma_concat_listed(a: Seq<SlotV>, b: Seq<SlotV>, surface: MenuSurface)
    requires
        all_listed(a, surface),
        all_listed(b, surface),
    ensures
        all_listed(a + b, surface),
{
    assert forall|k: int| 0 <= k < (a + b).len() implies (#[trigger] (a + b)[k] matches SlotV::Entry(id) ==> listed(surface, id)) by {
        if k < a.len() {
            assert((a + b)[k] == a[k]);
        } else {
            assert((a + b)[k] == b[k - a.len()]);
        }
    }
}

proof fn lemma_row_ids_listed()
    ensures
        listed(MenuSurface::FileRow, ids::OPEN@),
        listed(MenuSurface::FileRow, ids::OPEN_IN_NEW_TAB@),
        listed(MenuSurface::FileRow, ids::EDIT@),
        listed(MenuSurface::FileRow, ids::EDIT_IMAGE@),
        listed(MenuSurface::FileRow, ids::EDIT_IN_SYSTEM_EDITOR@),
        listed(MenuSurface::FileRow, ids::GET_INFO@),
        listed(MenuSurface::FileRow, ids::QUICK_LOOK@),
        listed(MenuSurface::FileRow, ids::SLIDESHOW_FROM_HERE@),
        listed(MenuSurface::FileRow, ids::REVEAL@),
        listed(MenuSurface::FileRow, ids::COPY_PATH@),
        listed(MenuSurface::FileRow, ids::GENERATE_SHA256@),
        listed(MenuSurface::FileRow, ids::VERIFY_CHECKSUMS@),
        listed(MenuSurface::FileRow, ids::CREATE_CHECKSUM_FILE@),
        listed(MenuSurface::FileRow, ids::SHOW_LOCK_HOLDERS@),
        listed(MenuSurface::FileRow, ids::OPEN_TERMINAL_HERE@),
        listed(MenuSurface::FileRow, ids::RENAME@),
        listed(MenuSurface::FileRow, ids::BULK_RENAME@),
        listed(MenuSurface::FileRow, ids::DUPLICATE@),
        listed(MenuSurface::FileRow, ids::MAKE_ALIAS@),
        listed(MenuSurface::FileRow, ids::COMPRESS@),
        listed(MenuSurface::FileRow, ids::EXTRACT@),
        listed(MenuSurface::FileRow, ids::CONVERT_ARCHIVE@),
        listed(MenuSurface::FileRow, ids::OPEN_AS_ARCHIVE@),
        listed(MenuSurface::FileRow, ids::CLEAR_QUARANTINE@),
        listed(MenuSurface::FileRow, ids::TOGGLE_FAVORITE@),
        listed(MenuSurface::FileRow, ids::OPEN_WITH@),
        listed(MenuSurface::FileRow, ids::TAGS@),
        listed(MenuSurface::FileRow, ids::MOVE_TO_TRASH@),
        listed(MenuSurface::FileRow, ids::DELETE_IMMEDIATELY@),
{
    let inv = inventory_of(MenuSurface::FileRow);
    assert(inv[0]@ == ids::OPEN@);
    assert(inv[1]@ == ids::OPEN_IN_NEW_TAB@);
    assert(inv[2]@ == ids::EDIT@);
    assert(inv[3]@ == ids::EDIT_IMAGE@);
    assert(inv[4]@ == ids::EDIT_IN_SYSTEM_EDITOR@);
    assert(inv[5]@ == ids::GET_INFO@);
    assert(inv[6]@ == ids::QUICK_LOOK@);
    assert(inv[7]@ == ids::SLIDESHOW_FROM_HERE@);
    assert(inv[8]@ == ids::REVEAL@);
    assert(inv[9]@ == ids::COPY_PATH@);
    assert(inv[10]@ == ids::GENERATE_SHA256@);
    assert(inv[11]@ == ids::VERIFY_CHECKSUMS@);
    assert(inv[12]@ == ids::CREATE_CHECKSUM_FILE@);
    assert(inv[13]@ == ids::SHOW_LOCK_HOLDERS@);
    assert(inv[14]@ == ids::OPEN_TERMINAL_HERE@);
    assert(inv[15]@ == ids::RENAME@);
    assert(inv[16]@ == ids::BULK_RENAME@);
    assert(inv[17]@ == ids::DUPLICATE@);
    assert(inv[18]@ == ids::MAKE_ALIAS@);
    assert(inv[19]@ == ids::COMPRESS@);
    assert(inv[20]@ == ids::EXTRACT@);
    assert(inv[21]@ == ids::CONVERT_ARCHIVE@);
    assert(inv[22]@ == ids::OPEN_AS_ARCHIVE@);
    assert(inv[23]@ == ids::CLEAR_QUARANTINE@);
    assert(inv[24]@ == ids::TOGGLE_FAVORITE@);
    assert(inv[25]@ == ids::OPEN_WITH@);
    assert(inv[26]@ == ids::TAGS@);
    assert(inv[27]@ == ids::MOVE_TO_TRASH@);
    assert(inv[28]@ == ids::DELETE_IMMEDIATELY@);
}

/// Every entry the row menu can plan is one the settings page lists for
/// that menu, so no planned entry escapes the user's preferences. (The
/// platform's own shell menu, where there is one, is listed separately.)
pub proof fn lemma_row_menu_is_in_its_inventory(t: MenuTargets, f: RowMenuFacts, editable_image: bool)
    requires
        !f.platform_shell_menu,
    ensures
        all_listed(row_menu_spec(t, f, editable_image), MenuSurface::FileRow),
{
    lemma_row_ids_listed();
    let r = MenuSurface::FileRow;
    let h = head_spec(t, editable_image);
    let p = path_spec(t, f);
    let e = edit_spec(t);
    let l = tail_spec(t, f);
    assert(all_listed(h, r));
    assert(all_listed(p, r));
    assert(all_listed(e, r));
    assert(all_listed(l, r)) by {
        assert(when(f.platform_shell_menu, seq![SlotV::Separator, ent(ids::WINDOWS_CONTEXT_MENU)]) =~= Seq::<SlotV>::empty());
    }
    lemma_concat_listed(h, p, r);
    lemma_concat_listed(h + p, e, r);
    lemma_concat_listed(h + p + e, l, r);
}

} // verus!
