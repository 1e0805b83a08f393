use ferail_gpui::menu_plan::ids::{self, ALL};
use ferail_gpui::menu_plan::inventory::{entries, items, lists};
use ferail_gpui::menu_plan::layout::{self, merge, tidy, Item, Slot};
use ferail_gpui::menu_plan::prefs::{self, is_always_visible, Customization, Hidden};
use ferail_gpui::menu_plan::types::{handles, rules, target_type, TargetType as T, TargetTypes, Tint, TypeSet};
use ferail_gpui::menu_plan::{arrange, duplicate_ids, MenuPlan, MenuSurface};

/// Read a plan out of a sketch: `x` is an entry, `-` a separator.
fn plan(sketch: &str) -> Vec<Slot> {
    const IDS: [&str; 8] = ["a", "b", "c", "d", "e", "f", "g", "h"];
    let mut next = 0;
    sketch
        .chars()
        .map(|ch| match ch {
            '-' => Slot::Separator,
            _ => {
                next += 1;
                Slot::Entry(IDS[next - 1].to_string())
            }
        })
        .collect()
}

fn shape(items: &[Slot]) -> String {
    items.iter().map(|item| if item.is_separator() { '-' } else { 'x' }).collect()
}

fn slots(tokens: &[&str]) -> Vec<Slot> {
    tokens
        .iter()
        .map(|token| {
            if *token == "-" {
                Slot::Separator
            } else {
                Slot::Entry(token.to_string())
            }
        })
        .collect()
}

fn builtin(tokens: &[&str]) -> Vec<Item> {
    tokens
        .iter()
        .map(|token| {
            if *token == "-" {
                Item::Separator
            } else {
                Item::Entry(token.to_string())
            }
        })
        .collect()
}

fn tokens(slots: &[Slot]) -> Vec<&str> {
    slots.iter().map(|slot| slot.id().unwrap_or("-")).collect()
}

#[test]
fn separators_collapse_and_never_bookend_the_menu() {
    assert_eq!(shape(&tidy(plan("--x--x-"))), "x-x");
}

#[test]
fn a_menu_of_nothing_but_separators_renders_empty() {
    assert!(tidy(plan("---")).is_empty());
}

#[test]
fn an_already_tidy_menu_is_left_alone() {
    assert_eq!(shape(&tidy(plan("x-xx"))), "x-xx");
    assert_eq!(shape(&tidy(plan("x"))), "x");
    assert!(tidy(plan("")).is_empty());
}

#[test]
fn duplicate_entry_ids_are_reported_and_separators_are_never_ids() {
    let items = vec![
        Slot::Entry("file.open".into()),
        Slot::Separator,
        Slot::Separator,
        Slot::Entry("file.rename".into()),
        Slot::Entry("file.open".into()),
    ];
    assert_eq!(duplicate_ids(&items), vec!["file.open"]);

    let items = vec![Slot::Entry("file.open".into()), Slot::Separator, Slot::Separator];
    assert!(duplicate_ids(&items).is_empty());
}

#[test]
fn surface_keys_are_stable_and_distinct() {
    assert_eq!(MenuSurface::FileRow.key(), "file.row");
    assert_eq!(MenuSurface::FileBackground.key(), "file.background");
    let keys: Vec<&str> = MenuSurface::all().iter().map(|s| s.key()).collect();
    for (i, k) in keys.iter().enumerate() {
        assert!(!keys[i + 1..].contains(k), "{k} is used twice");
    }
}

#[test]
fn ids_are_unique() {
    let mut seen: Vec<&'static str> = Vec::new();
    for id in ALL {
        assert!(!seen.contains(&id), "{id} is declared twice");
        seen.push(id);
    }
}

#[test]
fn ids_stay_in_the_catalogue_namespaces() {
    for id in ALL {
        assert!(id.contains('.'), "{id} needs a namespace prefix such as `file.`");
    }
}

#[test]
fn every_surface_lists_something_and_lists_it_once() {
    for surface in MenuSurface::all() {
        let list = entries(surface);
        assert!(!list.is_empty(), "{} lists nothing", surface.key());
        let mut seen = Vec::new();
        for id in list {
            assert!(!seen.contains(&id), "{} lists {} twice", surface.key(), id);
            seen.push(id);
        }
    }
}

#[test]
fn the_never_hidden_entries_are_actually_in_a_menu() {
    for id in [ids::OPEN, ids::GET_INFO] {
        assert!(is_always_visible(id));
        assert!(
            MenuSurface::all().iter().any(|surface| lists(*surface, id)),
            "{id} is protected but appears in no menu"
        );
    }
}

#[test]
fn the_two_menus_are_not_the_same_menu() {
    let row = entries(MenuSurface::FileRow);
    let background = entries(MenuSurface::FileBackground);
    assert_ne!(row.len(), 0);
    assert_ne!(background.len(), 0);
    assert!(row.contains(&ids::MOVE_TO_TRASH));
    assert!(!background.contains(&ids::MOVE_TO_TRASH));
    assert!(row.contains(&ids::GET_INFO) && background.contains(&ids::GET_INFO));
}

#[test]
fn no_saved_arrangement_is_the_built_in_one() {
    let b = builtin(&["a", "b", "c"]);
    assert_eq!(tokens(&merge(&b, &[])), vec!["a", "b", "c"]);
}

#[test]
fn a_new_command_lands_beside_its_neighbour_not_at_the_end() {
    let b = builtin(&["a", "b", "c", "d"]);
    let saved = slots(&["d", "-", "c", "a"]);
    assert_eq!(tokens(&merge(&b, &saved)), vec!["d", "-", "c", "a", "b"]);
    let saved = slots(&["a", "c", "d"]);
    assert_eq!(tokens(&merge(&b, &saved)), vec!["a", "b", "c", "d"]);
}

#[test]
fn a_new_first_command_lands_at_the_front() {
    let b = builtin(&["new", "a", "b"]);
    let saved = slots(&["b", "a"]);
    assert_eq!(tokens(&merge(&b, &saved)), vec!["new", "b", "a"]);
}

#[test]
fn an_entry_this_build_does_not_have_is_dropped_from_the_result() {
    let b = builtin(&["a", "b"]);
    let saved = slots(&["b", "from.the.future", "a"]);
    assert_eq!(tokens(&merge(&b, &saved)), vec!["b", "a"]);
}

#[test]
fn merging_never_loses_an_entry() {
    let b = builtin(&["a", "b", "c", "d", "e"]);
    for saved in [
        slots(&[]),
        slots(&["e"]),
        slots(&["-", "-"]),
        slots(&["c", "-", "a"]),
        slots(&["e", "d", "c", "b", "a"]),
    ] {
        let merged = merge(&b, &saved);
        for id in b.iter().filter_map(|item| item.id()) {
            assert!(
                merged.iter().any(|slot| slot.id() == Some(id)),
                "{id} vanished from {:?}",
                tokens(&merged)
            );
        }
    }
}

#[test]
fn separators_are_tidied_when_the_arrangement_is_saved() {
    assert_eq!(tokens(&tidy(slots(&["-", "-", "a", "-", "-", "b", "-"]))), vec!["a", "-", "b"]);
    assert!(tidy(slots(&["-", "-"])).is_empty());
}

#[test]
fn layout_round_trips_through_the_persisted_form() {
    let layouts = vec![
        ("file.row".to_string(), slots(&["file.open", "-", "file.rename"])),
        ("file.background".to_string(), slots(&["file.refresh"])),
    ];
    let spec = layout::serialize(&layouts).expect("something is arranged");
    assert_eq!(layout::parse(&spec), layouts);
}

#[test]
fn junk_costs_the_arrangement_never_the_menu() {
    let parsed = layout::parse(";;nonsense;sidebar.favorites:file.open;file.row:file.open,,-,file.rename;");
    assert_eq!(parsed.len(), 1);
    assert_eq!(parsed[0].0, "file.row");
    assert_eq!(tokens(&parsed[0].1), vec!["file.open", "-", "file.rename"]);
}

#[test]
fn the_built_in_arrangement_covers_every_listed_entry() {
    for surface in MenuSurface::all() {
        let arrangement = merge(&items(surface), &[]);
        for id in entries(surface) {
            assert!(
                arrangement.iter().any(|slot| slot.id() == Some(id)),
                "{} missing from the built-in arrangement of {}",
                id,
                surface.key()
            );
        }
    }
}

#[test]
fn prefs_round_trips_through_the_persisted_form() {
    let mut hidden = Hidden::new();
    hidden.set(MenuSurface::FileRow, ids::MAKE_ALIAS, true);
    hidden.set(MenuSurface::FileRow, ids::DUPLICATE, true);
    hidden.set(MenuSurface::FileBackground, ids::REFRESH, true);
    let spec = prefs::serialize(&hidden).expect("something is hidden");
    assert_eq!(prefs::parse(&spec), hidden);
}

#[test]
fn nothing_hidden_persists_nothing() {
    let mut hidden = Hidden::new();
    assert_eq!(prefs::serialize(&hidden), None);
    hidden.set(MenuSurface::FileRow, ids::MAKE_ALIAS, true);
    hidden.set(MenuSurface::FileRow, ids::MAKE_ALIAS, false);
    assert_eq!(prefs::serialize(&hidden), None);
}

#[test]
fn the_floor_cannot_be_hidden_by_the_api_or_by_hand() {
    let mut hidden = Hidden::new();
    for id in [ids::OPEN, ids::GET_INFO] {
        hidden.set(MenuSurface::FileRow, id, true);
        assert!(!hidden.contains(MenuSurface::FileRow, id));
    }
    let parsed = prefs::parse("file.row:file.open,file.get_info,file.make_alias");
    assert!(!parsed.contains(MenuSurface::FileRow, ids::OPEN));
    assert!(!parsed.contains(MenuSurface::FileRow, ids::GET_INFO));
    assert!(parsed.contains(MenuSurface::FileRow, ids::MAKE_ALIAS));
}

#[test]
fn a_preference_applies_to_one_surface_only() {
    let mut hidden = Hidden::new();
    hidden.set(MenuSurface::FileRow, ids::COPY_PATH, true);
    assert!(hidden.contains(MenuSurface::FileRow, ids::COPY_PATH));
    assert!(!hidden.contains(MenuSurface::FileBackground, ids::COPY_PATH));
}

#[test]
fn junk_costs_the_customization_never_the_menu() {
    let parsed = prefs::parse(
        ";;sidebar.favorites:file.rename;nonsense;file.row:file.make_alias,,file.not_a_command;",
    );
    assert!(parsed.contains(MenuSurface::FileRow, ids::MAKE_ALIAS));
    assert_eq!(parsed.ids(MenuSurface::FileRow).len(), 2);
    assert!(parsed.ids(MenuSurface::FileBackground).is_empty());
}

#[test]
fn resetting_a_surface_leaves_the_others_alone() {
    let mut hidden = Hidden::new();
    hidden.set(MenuSurface::FileRow, ids::MAKE_ALIAS, true);
    hidden.set(MenuSurface::FileBackground, ids::REFRESH, true);
    hidden.clear(MenuSurface::FileRow);
    assert!(hidden.ids(MenuSurface::FileRow).is_empty());
    assert!(hidden.contains(MenuSurface::FileBackground, ids::REFRESH));
}

#[test]
fn a_hidden_entry_is_never_drawn() {
    let custom = Customization::init(Some("file.row:file.make_alias"), None);
    let rendered = MenuPlan::new(MenuSurface::FileRow)
        .action(ids::OPEN)
        .separator()
        .action(ids::MAKE_ALIAS)
        .separator()
        .action(ids::RENAME)
        .render(&custom);
    assert_eq!(tokens(&rendered), vec![ids::OPEN, "-", ids::RENAME]);
    let plain = MenuPlan::new(MenuSurface::FileBackground)
        .action(ids::MAKE_ALIAS)
        .render(&custom);
    assert_eq!(tokens(&plain), vec![ids::MAKE_ALIAS]);
}

#[test]
fn a_saved_arrangement_reorders_what_is_shown() {
    let arranged = arrange(slots(&["a", "b", "-", "c"]), &slots(&["c", "-", "a"]));
    assert_eq!(tokens(&arranged), vec!["c", "-", "a", "b"]);
}

fn only(t: T) -> TargetTypes {
    let mut any = TypeSet::empty();
    any.insert(t);
    TargetTypes { anchor: Some(t), any }
}

#[test]
fn show_contents_is_for_packages_and_archives_only() {
    assert!(handles(ids::SHOW_CONTENTS, &only(T::Package)));
    assert!(handles(ids::SHOW_CONTENTS, &only(T::Archive)));
    assert!(!handles(ids::SHOW_CONTENTS, &only(T::Folder)));
    assert!(!handles(ids::SHOW_CONTENTS, &only(T::Document)));
}

#[test]
fn open_as_archive_steps_aside_for_a_recognised_archive() {
    assert!(handles(ids::OPEN_AS_ARCHIVE, &only(T::Document)));
    assert!(handles(ids::OPEN_AS_ARCHIVE, &only(T::Other)));
    assert!(!handles(ids::OPEN_AS_ARCHIVE, &only(T::Archive)));
    assert!(!handles(ids::OPEN_AS_ARCHIVE, &only(T::Folder)));
}

#[test]
fn extract_looks_at_every_target_not_just_the_anchor() {
    let mixed = TargetTypes {
        anchor: Some(T::Image),
        any: TypeSet::of(&[T::Image, T::Archive]),
    };
    assert!(handles(ids::EXTRACT, &mixed));
    assert!(!handles(ids::EXTRACT, &only(T::Image)));
}

#[test]
fn the_text_editor_is_not_offered_for_binary_files() {
    assert!(handles(ids::EDIT, &only(T::Code)));
    assert!(handles(ids::EDIT, &only(T::Other)));
    for t in [T::Image, T::Archive, T::Video, T::Executable] {
        assert!(!handles(ids::EDIT, &only(t)), "{t:?}");
        assert!(!handles(ids::EDIT_IN_SYSTEM_EDITOR, &only(t)), "{t:?}");
    }
}

#[test]
fn commands_outside_the_table_handle_everything() {
    for t in [T::Folder, T::Package, T::Image, T::Other] {
        assert!(handles(ids::RENAME, &only(t)));
    }
}

#[test]
fn every_rule_names_a_known_id_once() {
    let rules = rules();
    for (i, r) in rules.iter().enumerate() {
        assert!(ALL.contains(&r.id), "{} is not a known id", r.id);
        assert!(rules[i + 1..].iter().all(|other| other.id != r.id), "{} has two rules", r.id);
    }
}

#[test]
fn a_row_is_classified_by_what_it_is_before_its_tint() {
    assert_eq!(target_type(true, true, false, false, Tint::Image), T::Package);
    assert_eq!(target_type(true, false, false, false, Tint::Image), T::Folder);
    assert_eq!(target_type(false, false, false, true, Tint::Document), T::Archive);
    assert_eq!(target_type(false, false, false, false, Tint::Image), T::Image);
}
