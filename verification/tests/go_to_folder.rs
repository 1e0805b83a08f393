use ferail_gpui::go_to_folder::{commit_action, CommitAction, CompletionGate};

#[test]
fn only_the_latest_completion_for_the_current_text_is_shown() {
    let mut gate = CompletionGate::new();
    let first = gate.begin_request();
    let second = gate.begin_request();
    assert_eq!((first, second), (1, 2));
    assert!(!gate.accepts(first, "/usr", "/usr"));
    assert!(gate.accepts(second, "/usr/l", "/usr/l"));
    assert!(!gate.accepts(second, "/usr/lo", "/usr/l"));
    let mut wrapped = CompletionGate { generation: u64::MAX };
    assert_eq!(wrapped.begin_request(), 0);
}

#[test]
fn enter_on_blanks_just_closes() {
    assert!(matches!(commit_action("   "), CommitAction::Close));
    assert!(matches!(commit_action(""), CommitAction::Close));
    match commit_action("  ~/Documents ") {
        CommitAction::Navigate(p) => assert_eq!(p, "  ~/Documents "),
        CommitAction::Close => panic!("a path was typed"),
    }
}
