//! What each customizable menu can contain, in menu order, for the settings
//! UI: a menu is planned against a live right-click, so which entries appear
//! depends on what was clicked, and the settings UI needs the full set a
//! surface can ever show.

use vstd::prelude::*;

use crate::menu_plan::layout::{Item, SlotV, items_view};
use crate::menu_plan::{MenuSurface, ids};

verus! {

/// The entries a surface can ever show, in the order its menu is built.
pub open spec fn inventory_of(surface: MenuSurface) -> Seq<&'static str> {
    match surface {
        MenuSurface::FileRow => seq![
            ids::OPEN,
            ids::OPEN_IN_NEW_TAB,
            ids::EDIT,
            ids::EDIT_IMAGE,
            ids::EDIT_IN_SYSTEM_EDITOR,
            ids::GET_INFO,
            ids::QUICK_LOOK,
            ids::SLIDESHOW_FROM_HERE,
            ids::REVEAL,
            ids::COPY_PATH,
            ids::GENERATE_SHA256,
            ids::VERIFY_CHECKSUMS,
            ids::CREATE_CHECKSUM_FILE,
            ids::SHOW_LOCK_HOLDERS,
            ids::OPEN_TERMINAL_HERE,
            ids::RENAME,
            ids::BULK_RENAME,
            ids::DUPLICATE,
            ids::MAKE_ALIAS,
            ids::COMPRESS,
            ids::EXTRACT,
            ids::CONVERT_ARCHIVE,
            ids::OPEN_AS_ARCHIVE,
            ids::CLEAR_QUARANTINE,
            ids::TOGGLE_FAVORITE,
            ids::OPEN_WITH,
            ids::TAGS,
            ids::MOVE_TO_TRASH,
            ids::DELETE_IMMEDIATELY,
        ],
        MenuSurface::FileBackground => seq![
            ids::NEW_FOLDER,
            ids::PASTE,
            ids::SELECT_ALL,
            ids::GET_INFO,
            ids::REVEAL,
            ids::COPY_PATH,
            ids::OPEN_TERMINAL_HERE,
            ids::PIN_TO_FAVORITES,
            ids::REFRESH,
        ],
        MenuSurface::TrashRow => seq![
            ids::OPEN,
            ids::OPEN_IN_NEW_TAB,
            ids::RESTORE_FROM_TRASH,
            ids::GET_INFO,
            ids::QUICK_LOOK,
            ids::REVEAL,
            ids::COPY_PATH,
            ids::DELETE_IMMEDIATELY,
            ids::EMPTY_TRASH,
        ],
        MenuSurface::TrashBackground => seq![
            ids::SELECT_ALL,
            ids::REVEAL,
            ids::COPY_PATH,
            ids::EMPTY_TRASH,
            ids::REFRESH,
        ],
    }
}

/// The entries a surface can ever show, in the order its menu is built.
pub fn entries(surface: MenuSurface) -> (r: Vec<&'static str>)
    ensures
        r@ == inventory_of(surface),
{
    match surface {
        MenuSurface::FileRow => vec![
            ids::OPEN,
            ids::OPEN_IN_NEW_TAB,
            ids::EDIT,
            ids::EDIT_IMAGE,
            ids::EDIT_IN_SYSTEM_EDITOR,
            ids::GET_INFO,
            ids::QUICK_LOOK,
            ids::SLIDESHOW_FROM_HERE,
            ids::REVEAL,
            ids::COPY_PATH,
            ids::GENERATE_SHA256,
            ids::VERIFY_CHECKSUMS,
            ids::CREATE_CHECKSUM_FILE,
            ids::SHOW_LOCK_HOLDERS,
            ids::OPEN_TERMINAL_HERE,
            ids::RENAME,
            ids::BULK_RENAME,
            ids::DUPLICATE,
            ids::MAKE_ALIAS,
            ids::COMPRESS,
            ids::EXTRACT,
            ids::CONVERT_ARCHIVE,
            ids::OPEN_AS_ARCHIVE,
            ids::CLEAR_QUARANTINE,
            ids::TOGGLE_FAVORITE,
            ids::OPEN_WITH,
            ids::TAGS,
            ids::MOVE_TO_TRASH,
            ids::DELETE_IMMEDIATELY,
        ],
        MenuSurface::FileBackground => vec![
            ids::NEW_FOLDER,
            ids::PASTE,
            ids::SELECT_ALL,
            ids::GET_INFO,
            ids::REVEAL,
            ids::COPY_PATH,
            ids::OPEN_TERMINAL_HERE,
            ids::PIN_TO_FAVORITES,
            ids::REFRESH,
        ],
        MenuSurface::TrashRow => vec![
            ids::OPEN,
            ids::OPEN_IN_NEW_TAB,
            ids::RESTORE_FROM_TRASH,
            ids::GET_INFO,
            ids::QUICK_LOOK,
            ids::REVEAL,
            ids::COPY_PATH,
            ids::DELETE_IMMEDIATELY,
            ids::EMPTY_TRASH,
        ],
        MenuSurface::TrashBackground => vec![
            ids::SELECT_ALL,
            ids::REVEAL,
            ids::COPY_PATH,
            ids::EMPTY_TRASH,
            ids::REFRESH,
        ],
    }
}

/// Whether `surface` can ever show entry `id`.
pub fn lists(surface: MenuSurface, id: &str) -> (r: bool)
    ensures
        r == exists|i: int| 0 <= i < inventory_of(surface).len() && (#[trigger] inventory_of(surface)[i])@ == id@,
{
    let list = entries(surface);
    let want = crate::strings::chars_of(id);
    let mut i: usize = 0;
    while i < list.len()
        invariant
            i <= list.len(),
            list@ == inventory_of(surface),
            want@ == id@,
            forall|k: int| 0 <= k < i ==> (#[trigger] inventory_of(surface)[k])@ != id@,
        decreases list.len() - i,
    {
        let have = crate::strings::chars_of(list[i]);
        if crate::strings::chars_eq(&have, &want) {
            assert(inventory_of(surface)[i as int]@ == id@);
            return true;
        }
        i = i + 1;
    }
    false
}

/// The built-in arrangement of a surface: its entries in menu order.
pub open spec fn builtin_of(surface: MenuSurface) -> Seq<SlotV> {
    inventory_of(surface).map_values(|x: &'static str| SlotV::Entry(x@))
}

/// The built-in arrangement of a surface, as the saved-arrangement merge
/// sees it: its entries in menu order.
pub fn items(surface: MenuSurface) -> (r: Vec<Item>)
    ensures
        items_view(r@) == builtin_of(surface),
{
    let list = entries(surface);
    let mut r: Vec<Item> = Vec::new();
    let mut i: usize = 0;
    while i < list.len()
        invariant
            i <= list.len(),
            list@ == inventory_of(surface),
            items_view(r@) == inventory_of(surface).take(i as int).map_values(|x: &'static str| SlotV::Entry(x@)),
        decreases list.len() - i,
    {
        let ghost before = items_view(r@);
        r.push(Item::Entry(String::from_str(list[i])));
        assert(items_view(r@) =~= before.push(SlotV::Entry(list@[i as int]@)));
        assert(inventory_of(surface).take(i + 1) =~= inventory_of(surface).take(i as int).push(list@[i as int]));
        assert(items_view(r@) =~= inventory_of(surface).take(i + 1).map_values(|x: &'static str| SlotV::Entry(x@)));
        i = i + 1;
    }
    assert(inventory_of(surface).take(list.len() as int) =~= inventory_of(surface));
    r
}

} // verus!
