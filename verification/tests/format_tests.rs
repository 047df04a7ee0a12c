use models_dev_cli::ui::{bool_check, format_tokens};

#[test]
fn format_tokens_groups_thousands() {
    assert_eq!(format_tokens(Some(1234567)), "1,234,567");
    assert_eq!(format_tokens(Some(999)), "999");
    assert_eq!(format_tokens(Some(1000)), "1,000");
    assert_eq!(format_tokens(Some(0)), "0");
    assert_eq!(format_tokens(None), "—");
}

#[test]
fn bool_check_marks() {
    assert_eq!(bool_check(true), "✓");
    assert_eq!(bool_check(false), "✗");
}

#[test]
fn format_tokens_largest_value() {
    assert_eq!(format_tokens(Some(u64::MAX)), "18,446,744,073,709,551,615");
    assert_eq!(format_tokens(Some(100000)), "100,000");
    assert_eq!(format_tokens(Some(12345)), "12,345");
}


#[test]
fn format_tokens_groups_have_three_digits_after_the_first() {
    for v in [0u64, 7, 42, 999, 1000, 65536, 999999, 1000000, 123456789012, u64::MAX] {
        let shown = format_tokens(Some(v));
        let digits = v.to_string();
        assert_eq!(shown.replace(',', ""), digits);
        let groups: Vec<&str> = shown.split(',').collect();
        assert!(!groups[0].is_empty() && groups[0].len() <= 3);
        assert!(groups[1..].iter().all(|g| g.len() == 3));
        assert_eq!(groups.len() - 1, (digits.len() - 1) / 3);
    }
}
