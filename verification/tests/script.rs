use mf66::script::{assert_eq_failure, assert_failure, truthy};

#[test]
fn script_values_are_true_unless_empty_zero_or_false() {
    assert!(truthy("1"));
    assert!(truthy("yes"));
    assert!(truthy("00"));
    assert!(!truthy(""));
    assert!(!truthy("0"));
    assert!(!truthy("false"));
}

#[test]
fn failed_checks_say_what_failed() {
    assert_eq!(assert_failure("1", "m"), None);
    assert_eq!(assert_failure("0", "depth"), Some("assert failed: depth".to_string()));
    assert_eq!(assert_eq_failure("3", "3", ""), None);
    assert_eq!(
        assert_eq_failure("3", "4", "sum"),
        Some("assert-eq failed: got `3` want `4` sum".to_string())
    );
}
