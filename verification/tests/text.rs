use hyperplane::cli::{integration_test_args, unit_test_args};
use hyperplane::cache::dragonfly::DragonflyStats;
use hyperplane::text::chars_of;

#[test]
fn test_chars_of_unicode() {
    assert_eq!(chars_of("aé€"), vec!['a', 'é', '€']);
    assert_eq!(chars_of(""), Vec::<char>::new());
}

#[test]
fn test_report_lines_and_white_space() {
    // a bare carriage return does not end a line
    let stats = DragonflyStats::parse("keys:1\rkeyspace_hits:2\n");
    assert_eq!(stats.keys, 0);
    assert_eq!(stats.hits, 0);
    let stats = DragonflyStats::parse("keys:0042\n\n\nkeyspace_misses:-1\n");
    assert_eq!(stats.keys, 42);
    assert_eq!(stats.misses, 0);
}

#[test]
fn cargo_arguments_of_test_runs() {
    assert_eq!(
        unit_test_args("redb-backend", ""),
        vec!["test", "--release", "--workspace", "--features=redb-backend", "--no-default-features", "--color=always"]
    );
    assert_eq!(unit_test_args("x", "lsm").last().unwrap(), "lsm");
    assert_eq!(
        integration_test_args("x", "", true),
        vec!["test", "--release", "--features=x", "--no-default-features", "--color=always", "--test", "integration_*", "--", "--ignored", "--nocapture"]
    );
    assert_eq!(integration_test_args("x", "integration_rpc", false).last().unwrap(), "integration_rpc");
}
