use ferail_gpui::inline_edit::{
    should_begin_click_rename, should_capture_inline_escape, FileNameEditTarget, InlineEditModel,
    InlineEditPhase, InlineEditValidation,
};

#[test]
fn one_session_replaces_the_previous_target() {
    let mut model = InlineEditModel::<u64>::new();
    model.begin(1, "one");
    model.begin(2, "two");
    let session = model.snapshot().expect("active session");
    assert_eq!(session.target, 2);
    assert_eq!(session.original, "two");
}

#[test]
fn updates_are_target_scoped() {
    let mut model = InlineEditModel::<u64>::new();
    model.begin(7, "name");
    assert!(!model.set_phase(&8, InlineEditPhase::Committing));
    assert_eq!(model.snapshot().unwrap().phase, InlineEditPhase::Editing);
    assert!(model.set_phase(&7, InlineEditPhase::Committing));
    assert_eq!(model.snapshot().unwrap().phase, InlineEditPhase::Committing);
}

#[test]
fn validation_is_target_scoped_and_clear_ends_the_session() {
    let target = FileNameEditTarget { tab_id: 1, node_id: 9 };
    let other = FileNameEditTarget { tab_id: 2, node_id: 9 };
    let mut model = InlineEditModel::<FileNameEditTarget>::new();
    assert!(!model.is_active());
    model.begin(target, "a.txt");
    assert!(model.is_target(&target));
    assert!(!model.is_target(&other));
    assert!(!model.set_validation(&other, InlineEditValidation::Error("taken".into())));
    assert!(model.set_validation(&target, InlineEditValidation::Error("taken".into())));
    match model.snapshot().unwrap().validation {
        InlineEditValidation::Error(m) => assert_eq!(m, "taken"),
        InlineEditValidation::Valid => panic!("validation was not stored"),
    }
    assert!(model.clear());
    assert!(!model.is_active());
    assert!(!model.clear());
    assert!(model.snapshot().is_none());
}

#[test]
fn rename_click_requires_a_plain_reclick_on_the_selected_label() {
    assert!(should_begin_click_rename(true, false, 1, false));
    assert!(!should_begin_click_rename(false, false, 1, false));
    assert!(!should_begin_click_rename(true, true, 1, false));
    assert!(!should_begin_click_rename(true, false, 2, false));
    assert!(!should_begin_click_rename(true, false, 3, false));
    assert!(!should_begin_click_rename(true, false, 1, true));
}

#[test]
fn escape_is_captured_only_for_an_active_inline_surface() {
    assert!(should_capture_inline_escape(true, false, false));
    assert!(should_capture_inline_escape(false, true, false));
    assert!(should_capture_inline_escape(false, false, true));
    assert!(!should_capture_inline_escape(false, false, false));
}
