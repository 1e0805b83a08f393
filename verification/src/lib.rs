use vstd::prelude::*;

pub mod cli;
pub mod file_list;
pub mod filter_complete;
pub mod folder_sizes;
pub mod fs_watcher;
pub mod go_to_folder;
pub mod grid;
pub mod i18n;
pub mod image_edit;
pub mod inline_edit;
pub mod keyboard_help;
pub mod keymap;
pub mod strings;
pub mod menu_plan;
pub mod obs;
pub mod performance_hud;

verus! {

} // verus!
