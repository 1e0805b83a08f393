use ferail_gpui::image_edit::session::{CloseStep, EditSession};

fn ready_with_stroke() -> EditSession {
    let mut s = EditSession::new();
    s.loaded();
    s.commit_stroke();
    s
}

#[test]
fn a_fresh_session_closes_without_asking() {
    let s = EditSession::new();
    assert!(!s.dirty());
    assert_eq!(s.request_close(), CloseStep::Close);
    assert!(!s.overwrite_allowed());
}

#[test]
fn edits_make_the_session_dirty_and_closing_prompts() {
    let mut s = ready_with_stroke();
    assert!(s.dirty());
    assert_eq!(s.request_close(), CloseStep::Prompt);
    s.discard();
    assert_eq!(s.request_close(), CloseStep::Close);
}

#[test]
fn saving_writes_the_current_revision_and_cleans_up() {
    let mut s = ready_with_stroke();
    let rev = s.begin_save().unwrap();
    assert_eq!(s.begin_save(), None);
    assert!(!s.overwrite_allowed());
    assert!(s.finish_save(true, rev, true));
    assert!(!s.dirty());
    assert!(!s.saving);
    assert_eq!(s.request_close(), CloseStep::Close);
}

#[test]
fn an_edit_during_a_save_keeps_the_window_open() {
    let mut s = ready_with_stroke();
    let rev = s.begin_save().unwrap();
    s.commit_stroke();
    assert!(!s.finish_save(true, rev, true));
    assert!(s.dirty());
    assert_eq!(s.request_close(), CloseStep::Prompt);
}

#[test]
fn a_failed_save_leaves_the_edits_unsaved() {
    let mut s = ready_with_stroke();
    let rev = s.begin_save().unwrap();
    assert!(!s.finish_save(false, rev, true));
    assert!(s.dirty());
    assert!(s.overwrite_allowed());
}

#[test]
fn undo_moves_the_revision_and_stops_at_no_strokes() {
    let mut s = ready_with_stroke();
    let before = s.rev;
    assert!(s.undo());
    assert_eq!(s.rev, before + 1);
    assert_eq!(s.strokes, 0);
    assert!(!s.undo());
    assert_eq!(s.rev, before + 1);
    assert_eq!(s.begin_save(), None);
}

#[test]
fn compositing_is_single_flight_and_converges() {
    let mut s = ready_with_stroke();
    let first = s.begin_compose(true).unwrap();
    assert_eq!(s.begin_compose(true), None);
    s.touch();
    assert!(s.finish_compose(first));
    let second = s.begin_compose(true).unwrap();
    assert_eq!(second, s.rev);
    assert!(!s.finish_compose(second));
    assert_eq!(s.begin_compose(true), None);
    assert_eq!(EditSession::new().begin_compose(false), None);
}
