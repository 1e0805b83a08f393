use ferail_gpui::performance_hud::{env_flag_enabled, set_start_enabled, start_enabled, StartFlag};

#[test]
fn the_start_flag_is_read_back() {
    let mut flag = StartFlag::new();
    assert!(!start_enabled(&flag));
    set_start_enabled(&mut flag, true);
    assert!(start_enabled(&flag));
    set_start_enabled(&mut flag, false);
    assert!(!start_enabled(&flag));
}

#[test]
fn the_env_switch() {
    assert!(env_flag_enabled(Some("1")));
    assert!(!env_flag_enabled(Some("0")));
    assert!(!env_flag_enabled(None));
}
