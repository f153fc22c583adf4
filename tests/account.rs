use ykoath::account::{
    credentials_fresh, is_fresh, issuer, mfa_serial_number, profile_name, user_name_from_arn,
};

#[test]
fn issuer_label() {
    assert_eq!(issuer("alice", "corp"), "Amazon Web Services:alice@corp");
    assert_eq!(issuer("", ""), "Amazon Web Services:@");
}

#[test]
fn serial_number_and_profile() {
    assert_eq!(
        mfa_serial_number("123456789012", "alice"),
        "arn:aws:iam::123456789012:mfa/alice"
    );
    assert_eq!(profile_name("AKIAEXAMPLE"), "mfa/AKIAEXAMPLE");
}

#[test]
fn user_name_of_matching_arn() {
    assert_eq!(
        user_name_from_arn("arn:aws:iam::123456789012:user/alice", "123456789012"),
        Some("alice".to_string())
    );
    assert_eq!(
        user_name_from_arn("arn:aws:iam::123456789012:user/dev/bob", "123456789012"),
        Some("dev/bob".to_string())
    );
    assert_eq!(
        user_name_from_arn("arn:aws:iam::123456789012:user/", "123456789012"),
        Some(String::new())
    );
}

#[test]
fn user_name_of_other_arn() {
    assert_eq!(user_name_from_arn("arn:aws:iam::999:user/alice", "123"), None);
    assert_eq!(user_name_from_arn("arn:aws:iam::123:role/admin", "123"), None);
    assert_eq!(user_name_from_arn("arn:aws", "123"), None);
}

#[test]
fn freshness_margin() {
    assert!(is_fresh(Some(20_800), 10_000));
    assert!(!is_fresh(Some(20_799), 10_000));
    assert!(!is_fresh(None, 0));
    assert!(!is_fresh(Some(i64::MAX), i64::MAX));
    assert!(!is_fresh(Some(i64::MIN), i64::MIN));
    assert!(is_fresh(Some(i64::MAX), i64::MIN));
}

#[test]
fn freshness_from_expiration_text() {
    // 2024-01-01T00:00:00Z is 1704067200.
    assert!(credentials_fresh("2024-01-01T00:00:00Z", 1_704_067_200 - 10_800));
    assert!(!credentials_fresh("2024-01-01T00:00:00Z", 1_704_067_200 - 10_799));
    assert!(credentials_fresh("2024-01-01T03:00:00+03:00", 1_704_067_200 - 10_800));
    assert!(!credentials_fresh("not a date", 0));
    assert!(!credentials_fresh("", 0));
}
