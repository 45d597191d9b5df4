use better_bucket::BucketError;

#[test]
fn test_display_names_the_violated_constraint() {
    assert!(BucketError::ZeroCapacity.to_string().contains("capacity"));
    assert!(BucketError::ZeroRefillAmount.to_string().contains("amount"));
    assert!(BucketError::ZeroRefillPeriod.to_string().contains("period"));
}

#[test]
fn test_forge_kind_matches_variant() {
    assert_eq!(BucketError::ZeroCapacity.kind(), "ZeroCapacity");
    assert_eq!(BucketError::ZeroRefillAmount.kind(), "ZeroRefillAmount");
    assert_eq!(BucketError::ZeroRefillPeriod.kind(), "ZeroRefillPeriod");
}

#[test]
fn test_config_errors_are_not_retryable() {
    // A bad configuration will not fix itself on retry.
    assert!(!BucketError::ZeroCapacity.is_retryable());
}

#[test]
fn test_messages_and_caption() {
    assert_eq!(
        BucketError::ZeroRefillAmount.to_string(),
        "refill amount must be greater than zero"
    );
    assert_eq!(
        BucketError::ZeroCapacity.message(),
        "bucket capacity must be greater than zero"
    );
    assert_eq!(
        BucketError::ZeroRefillPeriod.message(),
        "refill period must be greater than zero"
    );
    assert_eq!(BucketError::ZeroRefillPeriod.caption(), "Invalid bucket configuration");
    assert!(!BucketError::ZeroRefillPeriod.is_retryable());
}
