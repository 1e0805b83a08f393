use ferail_gpui::obs::{
    args_line, breadcrumb, breadcrumb_lines, brief_report, console_gets_digest, crash_report_leaf,
    detailed_report, dump_breadcrumbs_for_panic, essential_report, full_backtrace_requested,
    startup_banner, try_breadcrumb_lines, wall_clock_iso_of, write_compact_backtrace, Breadcrumbs,
    BREADCRUMB_CAP,
};

const WINDOWS_BACKTRACE: &str = "\
   3: std::backtrace::Backtrace::force_capture
             at /rustc/59807616/library\\std\\src\\backtrace.rs:312
   4: ferail_gpui::obs::print_crash_report
             at .\\crates\\ferail-gpui\\src\\obs.rs:283
  10: core::panicking::panic_fmt
             at /rustc/59807616/library\\core\\src\\panicking.rs:80
  11: gpui::app::entity_map::impl$45::drop
             at C:\\Users\\x\\.cargo\\git\\checkouts\\zed-a70e\\38ca910\\crates\\gpui\\src\\app\\entity_map.rs:1116
  12: core::ptr::drop_in_place
             at /rustc/59807616/library\\core\\src\\ptr\\mod.rs:805
";

#[test]
fn compact_backtrace_matches_windows_paths() {
    let mut out = String::new();
    write_compact_backtrace(&mut out, WINDOWS_BACKTRACE, 28);
    assert!(
        out.contains("gpui::app::entity_map::impl$45::drop"),
        "entity_map frame missing from: {out}"
    );
    assert!(!out.contains("print_crash_report"), "panic-hook frame should be filtered: {out}");
    assert!(!out.contains("<no Ferail/GPUI frames found>"), "{out}");
}

#[test]
fn compact_backtrace_caps_lines() {
    let mut out = String::new();
    write_compact_backtrace(&mut out, WINDOWS_BACKTRACE, 1);
    assert!(out.contains("... compacted ..."), "{out}");
}

#[test]
fn a_backtrace_without_program_frames_says_so() {
    let mut out = String::new();
    write_compact_backtrace(&mut out, "   0: core::panicking::panic\n", 28);
    assert!(out.contains("<no Ferail/GPUI frames found>"), "{out}");
}

#[test]
fn the_ring_keeps_only_the_newest_breadcrumbs() {
    let mut ring = Breadcrumbs::new();
    for i in 0..(BREADCRUMB_CAP + 5) {
        breadcrumb(&mut ring, "0.000", &format!("step {i}"));
    }
    let lines = breadcrumb_lines(&ring);
    assert_eq!(lines.len(), BREADCRUMB_CAP);
    assert!(lines[0].ends_with("step 5"), "{}", lines[0]);
    assert!(lines[BREADCRUMB_CAP - 1].ends_with(&format!("step {}", BREADCRUMB_CAP + 4)));
    assert_eq!(try_breadcrumb_lines(Some(&ring)).unwrap().len(), BREADCRUMB_CAP);
    assert!(try_breadcrumb_lines(None).is_none());
}

#[test]
fn log_lines_carry_stamp_and_level() {
    assert_eq!(ferail_gpui::obs::line("1.250", "info", "hello"), "[+1.250s][info] hello");
}

#[test]
fn a_panic_dump_numbers_the_last_entries() {
    let snapshot: Vec<String> = (1..=10).map(|i| format!("b{i}")).collect();
    let mut out = String::new();
    dump_breadcrumbs_for_panic(&mut out, Some(&snapshot), 3);
    assert_eq!(
        out,
        "breadcrumbs:\n    ... 7 earlier (in the report file) ...\n     8. b8\n     9. b9\n    10. b10\n"
    );
    let mut out = String::new();
    dump_breadcrumbs_for_panic(&mut out, None, 3);
    assert_eq!(out, "breadcrumbs:\n    <unavailable: held by panicking thread>\n");
    let mut out = String::new();
    dump_breadcrumbs_for_panic(&mut out, Some(&Vec::new()), 3);
    assert_eq!(out, "breadcrumbs:\n    <none>\n");
}

#[test]
fn wall_clock_reads_utc_time_of_day_and_epoch() {
    assert_eq!(wall_clock_iso_of(0), "00:00:00Z (epoch 0)");
    assert_eq!(wall_clock_iso_of(1_700_000_000), "22:13:20Z (epoch 1700000000)");
    assert_eq!(wall_clock_iso_of(86_399), "23:59:59Z (epoch 86399)");
}

#[test]
fn the_report_file_gets_the_whole_story_and_the_console_a_digest() {
    let crumbs: Vec<String> = (1..=10).map(|i| format!("b{i}")).collect();
    let full = detailed_report("1.500", "main", "src/a.rs:1:2", "boom", Some(&crumbs), WINDOWS_BACKTRACE);
    assert!(full.starts_with("\n==================== Ferail (gpui) Crash ===================="));
    assert!(full.contains("time      : +1.500s\n"));
    assert!(full.contains("message   : boom\n"));
    assert!(full.contains("     1. b1\n"));
    assert!(full.contains("relevant frames:\n"));
    assert!(full.contains(WINDOWS_BACKTRACE));
    let brief = brief_report("1.500", "main", "src/a.rs:1:2", "boom", Some(&crumbs), WINDOWS_BACKTRACE, "/r/x.txt");
    assert!(brief.contains("... 2 earlier (in the report file) ..."));
    assert!(!brief.contains("     1. b1\n"));
    assert!(brief.contains("full report: /r/x.txt (every breadcrumb"));
    assert!(!brief.contains("force_capture\n"));
}

#[test]
fn the_console_digest_needs_a_report_file_and_no_full_request() {
    assert!(console_gets_digest(true, false));
    assert!(!console_gets_digest(true, true));
    assert!(!console_gets_digest(false, false));
    assert!(full_backtrace_requested(true, None));
    assert!(full_backtrace_requested(false, Some("full")));
    assert!(!full_backtrace_requested(false, Some("1")));
    assert!(!full_backtrace_requested(false, None));
}

#[test]
fn essential_facts_and_report_names() {
    assert_eq!(
        essential_report("0.9.1", 4242, "main", "a.rs:3", "oops"),
        "Ferail 0.9.1 crash\npid: 4242\nthread: main\nlocation: a.rs:3\nmessage: oops\n"
    );
    assert_eq!(crash_report_leaf(77), "ferail-crash-77.txt");
}

#[test]
fn the_banner_names_build_and_platform() {
    assert_eq!(
        startup_banner("0.9.1", false, "linux", "x86_64", 12, "2023-11-14T22:13:20Z"),
        "--- Ferail (gpui) 0.9.1 (release, linux/x86_64) pid=12 log>=90 2023-11-14T22:13:20Z ---"
    );
    assert_eq!(args_line(&Vec::new()), "args: <none>");
    assert_eq!(args_line(&vec!["--theme".into(), "dark".into()]), "args: --theme dark");
}
