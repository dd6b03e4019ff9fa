use dst_update_publisher::cli::{CliArgs, RunMode};
use dst_update_publisher::text::{split_whitespace, trim};

#[test]
fn trim_removes_unicode_white_space() {
    assert_eq!(trim("  a b \n"), "a b");
    assert_eq!(trim("\u{3000}x\u{a0}"), "x");
    assert_eq!(trim("   "), "");
}

#[test]
fn words_split_on_white_space() {
    assert_eq!(split_whitespace(" a  bc\td "), vec!["a".to_string(), "bc".to_string(), "d".to_string()]);
    assert!(split_whitespace("  ").is_empty());
}

#[test]
fn run_mode_polls_once_an_interval_is_given() {
    assert!(matches!(CliArgs { poll_interval: None }.run_mode(), RunMode::Once));
    assert!(matches!(CliArgs { poll_interval: Some(0) }.run_mode(), RunMode::Poll { interval_secs: 0 }));
    assert!(matches!(
        CliArgs { poll_interval: Some(300) }.run_mode(),
        RunMode::Poll { interval_secs: 300 }
    ));
}
