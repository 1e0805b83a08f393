use ferail_gpui::cli::{
    cli_subcommand, extension_fallback_label, parse_du_args, parse_thumb_args, CliCommand, DuRequest,
    PathKind, ThumbRequest,
};

fn args(v: &[&str]) -> Vec<String> {
    v.iter().map(|s| s.to_string()).collect()
}

#[test]
fn the_first_argument_names_the_subcommand() {
    assert_eq!(cli_subcommand(&args(&[])), CliCommand::Gui);
    assert_eq!(cli_subcommand(&args(&["magic", "x"])), CliCommand::Magic);
    assert_eq!(cli_subcommand(&args(&["disk-usage"])), CliCommand::DiskUsage);
    assert_eq!(cli_subcommand(&args(&["thumbnail"])), CliCommand::Thumb);
    assert_eq!(cli_subcommand(&args(&["--doctor"])), CliCommand::Doctor);
    assert_eq!(cli_subcommand(&args(&["--elevated-op"])), CliCommand::ElevatedOp);
    assert_eq!(cli_subcommand(&args(&["--elevated-trash"])), CliCommand::ElevatedTrash);
    assert_eq!(cli_subcommand(&args(&["--preview-broker"])), CliCommand::PreviewBroker);
    assert_eq!(cli_subcommand(&args(&["-h"])), CliCommand::Help);
    assert_eq!(cli_subcommand(&args(&["frobnicate"])), CliCommand::Unknown);
    assert_eq!(cli_subcommand(&args(&["--screenshot", "a.png"])), CliCommand::Gui);
}

#[test]
fn du_reads_its_options() {
    match parse_du_args(&args(&["--top", "5", "--packages", "/a", "/b"])) {
        DuRequest::Run(a) => {
            assert_eq!(a.top, 5);
            assert!(a.packages);
            assert_eq!(a.paths, vec!["/a", "/b"]);
        }
        _ => panic!("expected a run"),
    }
    match parse_du_args(&args(&["--top=999", "/a"])) {
        DuRequest::Run(a) => assert_eq!(a.top, 200),
        _ => panic!("expected a run"),
    }
    match parse_du_args(&args(&["--top", "0", "--top=junk", "/a"])) {
        DuRequest::Run(a) => {
            assert_eq!(a.top, 1);
            assert!(!a.packages);
        }
        _ => panic!("expected a run"),
    }
    match parse_du_args(&args(&["/a"])) {
        DuRequest::Run(a) => assert_eq!(a.top, 20),
        _ => panic!("expected a run"),
    }
    assert!(matches!(parse_du_args(&args(&["/a", "--top"])), DuRequest::MissingTop));
    assert!(matches!(parse_du_args(&args(&["--help", "/a"])), DuRequest::Help));
    assert!(matches!(parse_du_args(&args(&["--packages"])), DuRequest::NoPath));
}

#[test]
fn thumb_reads_its_options() {
    match parse_thumb_args(&args(&["pic.heic", "--out", "o.png", "--size=64", "--preview"])) {
        ThumbRequest::Run(a) => {
            assert_eq!(a.input, "pic.heic");
            assert_eq!(a.out, "o.png");
            assert_eq!(a.size, 64);
            assert!(a.preview);
        }
        _ => panic!("expected a run"),
    }
    match parse_thumb_args(&args(&["--size", "1", "pic"])) {
        ThumbRequest::Run(a) => {
            assert_eq!(a.size, 16);
            assert_eq!(a.out, "thumb.png");
            assert!(!a.preview);
        }
        _ => panic!("expected a run"),
    }
    match parse_thumb_args(&args(&["--out=x.png", "--size", "+9000", "pic"])) {
        ThumbRequest::Run(a) => {
            assert_eq!(a.out, "x.png");
            assert_eq!(a.size, 4096);
        }
        _ => panic!("expected a run"),
    }
    match parse_thumb_args(&args(&["--size", "-3", "pic"])) {
        ThumbRequest::Run(a) => assert_eq!(a.size, 512),
        _ => panic!("expected a run"),
    }
    assert!(matches!(parse_thumb_args(&args(&["pic", "--out"])), ThumbRequest::MissingOut));
    assert!(matches!(parse_thumb_args(&args(&["pic", "--size"])), ThumbRequest::MissingSize));
    match parse_thumb_args(&args(&["a", "b"])) {
        ThumbRequest::ExtraPositional(p) => assert_eq!(p, "b"),
        _ => panic!("expected an extra positional"),
    }
    assert!(matches!(parse_thumb_args(&args(&["--preview"])), ThumbRequest::NoInput));
    assert!(matches!(parse_thumb_args(&args(&["-h"])), ThumbRequest::Help));
}

#[test]
fn unknown_formats_fall_back_to_kind_or_extension() {
    assert_eq!(extension_fallback_label(Some(PathKind::Directory), Some("app")), "Folder");
    assert_eq!(extension_fallback_label(Some(PathKind::Symlink), None), "Symlink");
    assert_eq!(extension_fallback_label(Some(PathKind::Other), Some("heic")), "HEIC");
    assert_eq!(extension_fallback_label(None, Some("straße")), "STRASSE");
    assert_eq!(extension_fallback_label(Some(PathKind::Other), Some("")), "File");
    assert_eq!(extension_fallback_label(None, None), "File");
}

#[test]
fn numbers_read_as_the_standard_parser_reads_them() {
    match parse_du_args(&args(&["--top", "+7", "/a"])) {
        DuRequest::Run(a) => assert_eq!(a.top, 7),
        _ => panic!("expected a run"),
    }
    match parse_du_args(&args(&["--top", "99999999999999999999999", "/a"])) {
        DuRequest::Run(a) => assert_eq!(a.top, 20),
        _ => panic!("expected a run"),
    }
    match parse_du_args(&args(&["--top", "+", "--top", "1x", "/a"])) {
        DuRequest::Run(a) => assert_eq!(a.top, 20),
        _ => panic!("expected a run"),
    }
}
