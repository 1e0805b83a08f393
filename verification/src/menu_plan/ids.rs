//! Stable ids for menu entries, in one table.
//!
//! An id is what a user's preference is stored against, so it outlives
//! renames, reorderings and rewrites of the code that builds the menu. Ids
//! reuse the command catalogue's whenever the entry is a catalogue command
//! and are minted under the same namespace when it is not.

use vstd::prelude::*;

verus! {

pub const OPEN: &'static str = "file.open";
pub const OPEN_IN_NEW_TAB: &'static str = "file.open_in_new_tab";
pub const EDIT: &'static str = "file.edit";
pub const EDIT_IMAGE: &'static str = "file.edit_image";
pub const GET_INFO: &'static str = "file.get_info";
pub const QUICK_LOOK: &'static str = "file.quick_look";
pub const REVEAL: &'static str = "file.reveal_in_finder";
pub const COPY_PATH: &'static str = "file.copy_path";
pub const GENERATE_SHA256: &'static str = "file.generate_sha256";
pub const VERIFY_CHECKSUMS: &'static str = "file.verify_checksums";
pub const CREATE_CHECKSUM_FILE: &'static str = "file.create_checksum_file";
pub const OPEN_TERMINAL_HERE: &'static str = "file.open_terminal_here";
pub const RENAME: &'static str = "file.rename";
pub const DUPLICATE: &'static str = "file.duplicate";
pub const MAKE_ALIAS: &'static str = "file.make_alias";
pub const COMPRESS: &'static str = "file.compress";
pub const EXTRACT: &'static str = "file.extract";
pub const CLEAR_QUARANTINE: &'static str = "file.clear_quarantine";
pub const OPEN_WITH: &'static str = "file.open_with_app";
pub const TAGS: &'static str = "file.set_tag";
pub const MOVE_TO_TRASH: &'static str = "file.move_to_trash";
pub const DELETE_IMMEDIATELY: &'static str = "file.delete_immediately";
pub const NEW_FOLDER: &'static str = "file.new_folder";
pub const PASTE: &'static str = "file.paste";
pub const REFRESH: &'static str = "file.refresh";
pub const PIN_TO_FAVORITES: &'static str = "file.pin_to_favorites";
/// The system-editor escape hatch next to the built-in Edit.
pub const EDIT_IN_SYSTEM_EDITOR: &'static str = "file.edit_in_system_editor";
/// Starts the viewer slideshow anchored on the clicked file.
pub const SLIDESHOW_FROM_HERE: &'static str = "file.slideshow_from_here";
/// Names the processes holding the resolved targets open.
pub const SHOW_LOCK_HOLDERS: &'static str = "file.show_lock_holders";
/// Pattern rename over the whole resolved set.
pub const BULK_RENAME: &'static str = "file.bulk_rename";
/// Re-encode one archive into another format.
pub const CONVERT_ARCHIVE: &'static str = "file.convert_archive";
/// Browse any single file as an archive.
pub const OPEN_AS_ARCHIVE: &'static str = "file.open_as_archive";
/// One entry that flips its label between Add to and Remove from Favorites.
pub const TOGGLE_FAVORITE: &'static str = "file.toggle_favorite";
/// Hands the selection to the Windows Shell's own menu.
pub const WINDOWS_CONTEXT_MENU: &'static str = "file.windows_context_menu";
/// Select every row in the current listing.
pub const SELECT_ALL: &'static str = "selection.select_all";
/// Put a trashed item back where it came from.
pub const RESTORE_FROM_TRASH: &'static str = "file.restore_from_trash";
/// Empty the trash.
pub const EMPTY_TRASH: &'static str = "file.empty_trash";
/// Browse a package or an archive as a folder.
pub const SHOW_CONTENTS: &'static str = "file.show_contents";

/// Every id this module declares.
pub const ALL: [&'static str; 38] = [
    OPEN,
    OPEN_IN_NEW_TAB,
    EDIT,
    EDIT_IMAGE,
    GET_INFO,
    QUICK_LOOK,
    REVEAL,
    COPY_PATH,
    GENERATE_SHA256,
    VERIFY_CHECKSUMS,
    CREATE_CHECKSUM_FILE,
    OPEN_TERMINAL_HERE,
    RENAME,
    DUPLICATE,
    MAKE_ALIAS,
    COMPRESS,
    EXTRACT,
    CLEAR_QUARANTINE,
    OPEN_WITH,
    TAGS,
    MOVE_TO_TRASH,
    DELETE_IMMEDIATELY,
    NEW_FOLDER,
    PASTE,
    REFRESH,
    PIN_TO_FAVORITES,
    EDIT_IN_SYSTEM_EDITOR,
    SLIDESHOW_FROM_HERE,
    SHOW_LOCK_HOLDERS,
    BULK_RENAME,
    CONVERT_ARCHIVE,
    OPEN_AS_ARCHIVE,
    TOGGLE_FAVORITE,
    WINDOWS_CONTEXT_MENU,
    SELECT_ALL,
    RESTORE_FROM_TRASH,
    EMPTY_TRASH,
    SHOW_CONTENTS,
];

} // verus!
