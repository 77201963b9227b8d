use head::cli::Cli;
use head::config::{parse_count, Count, HeadConfig, HeaderMode, InputSource, OutputMode};
use head::error::HeadError;
use head::processor::Processor;
use head::{build_processor, config_from_cli, fmt_io_err, header_text};

fn cli(bytes: Option<&str>, lines: Option<&str>, files: &[&str]) -> Cli {
    Cli {
        bytes: bytes.map(|s| s.to_string()),
        lines: lines.map(|s| s.to_string()),
        quiet: false,
        verbose: false,
        zero_terminated: false,
        files: files.iter().map(|s| s.to_string()).collect(),
    }
}

fn config(mode: OutputMode, header_mode: HeaderMode, zero_terminated: bool) -> HeadConfig {
    HeadConfig { mode, header_mode, zero_terminated, sources: vec![InputSource::Stdin] }
}

#[test]
fn parse_count_signs() {
    assert_eq!(parse_count("5", "lines").unwrap(), Count::First(5));
    assert_eq!(parse_count("-5", "lines").unwrap(), Count::AllButLast(5));
    assert_eq!(parse_count("-2K", "bytes").unwrap(), Count::AllButLast(2048));
    assert_eq!(parse_count("0", "bytes").unwrap(), Count::First(0));
    assert_eq!(parse_count("-0", "bytes").unwrap(), Count::AllButLast(0));
}

#[test]
fn parse_count_errors() {
    match parse_count("abc", "lines") {
        Err(HeadError::InvalidCount { kind, reason }) => {
            assert_eq!(kind, "lines");
            assert_eq!(reason, "invalid count: \"abc\"");
        }
        other => panic!("unexpected {other:?}"),
    }
    match parse_count("--5", "bytes") {
        Err(HeadError::InvalidCount { kind, reason }) => {
            assert_eq!(kind, "bytes");
            assert_eq!(reason, "invalid count: \"-5\"");
        }
        other => panic!("unexpected {other:?}"),
    }
    match parse_count("-", "lines") {
        Err(HeadError::InvalidCount { reason, .. }) => {
            assert_eq!(reason, "invalid count: \"\"");
        }
        other => panic!("unexpected {other:?}"),
    }
    match parse_count("-3xyz", "bytes") {
        Err(HeadError::InvalidCount { reason, .. }) => {
            assert_eq!(reason, "invalid suffix in count: \"xyz\"");
        }
        other => panic!("unexpected {other:?}"),
    }
}

#[test]
fn header_modes() {
    let auto = config(OutputMode::Lines(Count::First(10)), HeaderMode::Auto, false);
    assert!(!auto.should_print_header(0));
    assert!(!auto.should_print_header(1));
    assert!(auto.should_print_header(2));
    let always = config(OutputMode::Lines(Count::First(10)), HeaderMode::Always, false);
    assert!(always.should_print_header(1));
    let never = config(OutputMode::Lines(Count::First(10)), HeaderMode::Never, false);
    assert!(!never.should_print_header(3));
}

#[test]
fn display_names() {
    assert_eq!(InputSource::Stdin.display_name(), "standard input");
    assert_eq!(InputSource::File("dir/x.txt".to_string()).display_name(), "dir/x.txt");
}

#[test]
fn default_config_is_first_ten_lines_of_stdin() {
    let cfg = config_from_cli(cli(None, None, &[])).unwrap();
    assert_eq!(cfg.mode, OutputMode::Lines(Count::First(10)));
    assert_eq!(cfg.header_mode, HeaderMode::Auto);
    assert!(!cfg.zero_terminated);
    assert_eq!(cfg.sources, vec![InputSource::Stdin]);
}

#[test]
fn config_reads_counts_flags_and_files() {
    let mut c = cli(Some("-3"), None, &["a", "-", "b"]);
    c.verbose = true;
    c.zero_terminated = true;
    let cfg = config_from_cli(c).unwrap();
    assert_eq!(cfg.mode, OutputMode::Bytes(Count::AllButLast(3)));
    assert_eq!(cfg.header_mode, HeaderMode::Always);
    assert!(cfg.zero_terminated);
    assert_eq!(
        cfg.sources,
        vec![
            InputSource::File("a".to_string()),
            InputSource::Stdin,
            InputSource::File("b".to_string())
        ]
    );
    let cfg = config_from_cli(cli(None, Some("2k"), &["x"])).unwrap();
    assert_eq!(cfg.mode, OutputMode::Lines(Count::First(2048)));
}

#[test]
fn quiet_wins_over_verbose() {
    let mut c = cli(None, None, &[]);
    c.quiet = true;
    c.verbose = true;
    assert_eq!(config_from_cli(c).unwrap().header_mode, HeaderMode::Never);
}

#[test]
fn config_reports_the_bad_option() {
    match config_from_cli(cli(None, Some("abc"), &[])) {
        Err(HeadError::InvalidCount { kind, reason }) => {
            assert_eq!(kind, "lines");
            assert_eq!(reason, "invalid count: \"abc\"");
        }
        other => panic!("unexpected {other:?}"),
    }
    match config_from_cli(cli(Some("xyz"), None, &[])) {
        Err(HeadError::InvalidCount { kind, .. }) => assert_eq!(kind, "bytes"),
        other => panic!("unexpected {other:?}"),
    }
}

#[test]
fn processors_follow_the_config() {
    let lines = build_processor(&config(OutputMode::Lines(Count::First(1)), HeaderMode::Auto, false));
    assert!(matches!(lines, Processor::Lines(_)));
    let mut s = lines.start();
    assert_eq!(s.feed(b"a\0b\nc\n"), b"a\0b\n");
    let nul = build_processor(&config(OutputMode::Lines(Count::First(1)), HeaderMode::Auto, true));
    let mut s = nul.start();
    assert_eq!(s.feed(b"a\0b\nc\n"), b"a\0");
    let bytes = build_processor(&config(OutputMode::Bytes(Count::AllButLast(1)), HeaderMode::Auto, true));
    assert!(matches!(bytes, Processor::Bytes(_)));
    let mut s = bytes.start();
    assert_eq!(s.feed(b"a\0b"), b"a\0");
}

#[test]
fn headers() {
    assert_eq!(header_text(0, "a.txt"), "==> a.txt <==\n");
    assert_eq!(header_text(1, "standard input"), "\n==> standard input <==\n");
    assert_eq!(header_text(7, ""), "\n==>  <==\n");
}

#[test]
fn io_error_messages() {
    assert_eq!(
        fmt_io_err("No such file or directory (os error 2)"),
        "No such file or directory"
    );
    assert_eq!(fmt_io_err("Permission denied"), "Permission denied");
    assert_eq!(fmt_io_err("a (os error 1) b (os error 2)"), "a (os error 1) b");
    assert_eq!(fmt_io_err(" (os error "), "");
    assert_eq!(fmt_io_err(""), "");
    assert_eq!(fmt_io_err("é (os error 5)"), "é");
}

#[test]
fn count_error_messages() {
    let e = parse_count("abc", "lines").unwrap_err();
    assert_eq!(e.message(""), "invalid number of lines: invalid count: \"abc\"");
    let e = parse_count("-1X", "bytes").unwrap_err();
    assert_eq!(e.message("ignored"), "invalid number of bytes: invalid suffix in count: \"X\"");
    assert!(matches!(parse_count("--5", "lines"), Err(HeadError::InvalidCount { .. })));
    assert!(matches!(parse_count("-", "bytes"), Err(HeadError::InvalidCount { .. })));
}

#[test]
fn io_error_messages_of_head_errors() {
    let io = || std::io::Error::new(std::io::ErrorKind::Other, "boom");
    assert_eq!(HeadError::Write(io()).message("boom"), "write error: boom");
    assert_eq!(
        HeadError::FileRead { path: "a".to_string(), source: io() }.message("boom"),
        "error reading 'a': boom"
    );
    assert_eq!(
        HeadError::FileOpen { path: "b".to_string(), source: io() }.message("gone"),
        "cannot open 'b' for reading: gone"
    );
}
