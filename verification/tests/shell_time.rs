use sonda::shell::{quote, ShellError};
use sonda::timefmt::{format_clock, format_epoch, now_rfc3339};

#[test]
fn run_reports_spawn_failure_without_exit_code() {
    let err = ShellError {
        command: "definitely-missing-binary".into(),
        stderr: String::new(),
        exit_code: None,
    };
    assert!(err.message().contains("failed to spawn"));
}

#[test]
fn shell_error_message_carries_exit_code_and_stderr() {
    let err = ShellError {
        command: "echo boom >&2; exit 3".into(),
        stderr: "boom\n".into(),
        exit_code: Some(3),
    };
    assert_eq!(err.message(), "`echo boom >&2; exit 3` exited with 3: boom");
    let err = ShellError { command: "x".into(), stderr: "  \n".into(), exit_code: Some(-1) };
    assert_eq!(err.message(), "`x` exited with -1");
}

#[test]
fn quote_escapes_single_quotes() {
    assert_eq!(quote("it's"), "'it'\\''s'");
    assert_eq!(quote("plain"), "'plain'");
}

#[test]
fn formats_epoch_zero() {
    assert_eq!(format_epoch(0), "1970-01-01T00:00:00Z");
}

#[test]
fn formats_known_timestamp() {
    assert_eq!(format_epoch(1_000_000_000), "2001-09-09T01:46:40Z");
}

#[test]
fn handles_leap_day() {
    assert_eq!(format_epoch(951_782_400), "2000-02-29T00:00:00Z");
}

#[test]
fn formats_century_and_far_dates() {
    assert_eq!(format_epoch(4_107_542_399), "2100-02-28T23:59:59Z");
    assert_eq!(format_epoch(4_107_542_400), "2100-03-01T00:00:00Z");
    assert_eq!(format_epoch(253_402_300_799), "9999-12-31T23:59:59Z");
    assert_eq!(format_epoch(253_402_300_800), "10000-01-01T00:00:00Z");
}

#[test]
fn now_is_rfc3339_shaped() {
    let now = now_rfc3339();
    assert_eq!(now.len(), 20);
    assert!(now.ends_with('Z'));
    assert_eq!(&now[4..5], "-");
    assert_eq!(&now[10..11], "T");
}

#[test]
fn clock_before_epoch_stamps_the_epoch() {
    assert_eq!(format_clock(None), "1970-01-01T00:00:00Z");
    assert_eq!(format_clock(Some(0)), "1970-01-01T00:00:00Z");
    assert_eq!(format_clock(Some(1_771_063_200)), format_epoch(1_771_063_200));
}
