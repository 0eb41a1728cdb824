use fastdown::text::{debug_count, debug_pair, debug_text, decimal_text, join_topic};

#[test]
fn decimal_text_writes_numbers() {
    assert_eq!(decimal_text(0), "0");
    assert_eq!(decimal_text(7), "7");
    assert_eq!(decimal_text(10), "10");
    assert_eq!(decimal_text(1234567890), "1234567890");
    assert_eq!(decimal_text(u64::MAX), "18446744073709551615");
}

#[test]
fn debug_forms_match_std() {
    assert_eq!(debug_count(None), "None");
    assert_eq!(debug_count(Some(42)), "Some(42)");
    assert_eq!(debug_pair(Some((1, 20))), "Some((1, 20))");
    assert_eq!(debug_pair(None), "None");
    assert_eq!(debug_text(&None), "None");
    assert_eq!(debug_text(&Some("ok".to_string())), "Some(\"ok\")");
    assert_eq!(debug_text(&Some("a\"b\n".to_string())), "Some(\"a\\\"b\\n\")");
    for v in [Some(0usize), Some(usize::MAX), None] {
        assert_eq!(debug_count(v), format!("{:?}", v));
    }
}

#[test]
fn join_topic_puts_a_colon_between() {
    assert_eq!(join_topic("Download task failed", "IO error"), "Download task failed: IO error");
    assert_eq!(join_topic("", ""), ": ");
}
