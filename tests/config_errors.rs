use safebank::config::SafeBankConfig;
use safebank::errors::{format_money, ErrorSeverity, SafeBankError};
use safebank::SafeBankFramework;

#[test]
fn test_default_config_is_valid() {
    let config = SafeBankConfig::default();
    assert!(config.validate().is_ok());
}

#[test]
fn test_minimal_config_is_valid() {
    let config = SafeBankConfig::minimal();
    assert!(config.validate().is_ok());
}

#[test]
fn test_invalid_thresholds() {
    let mut config = SafeBankConfig::default();
    config.fraud_threshold_low = 800;
    config.fraud_threshold_medium = 500;
    assert!(config.validate().is_err());
}

#[test]
fn validate_names_the_broken_rule() {
    let mut c = SafeBankConfig::default();
    c.fraud_threshold_high = 600;
    assert_eq!(
        c.validate(),
        Err("Medium fraud threshold must be less than high threshold".to_string())
    );
    let mut c = SafeBankConfig::default();
    c.daily_transaction_limit = 100;
    assert_eq!(
        c.validate(),
        Err("Daily limit must be greater than or equal to single transaction limit".to_string())
    );
    let mut c = SafeBankConfig::default();
    c.cache_size_mb = 0;
    assert_eq!(c.validate(), Err("Cache size must be greater than 0".to_string()));
}

#[test]
fn test_error_user_messages() {
    let error = SafeBankError::InvalidPin;
    assert!(error.to_user_message().contains("PIN must be"));

    let error = SafeBankError::AccountLocked;
    assert!(!error.is_recoverable());

    let error = SafeBankError::NetworkError { message: "timeout".to_string() };
    assert!(error.is_recoverable());
}

#[test]
fn limit_message_shows_the_limit() {
    let e = SafeBankError::TransactionLimitExceeded { amount: 1_200_000, limit: 1_000_000 };
    assert_eq!(e.to_user_message(), "Transaction exceeds daily limit of $10000.00");
    let e = SafeBankError::InsufficientFunds { balance: 1_005, required: 2_000 };
    assert_eq!(e.to_user_message(), "Insufficient balance. Available: $10.05");
    assert_eq!(format_money(7), "0.07");
}

#[test]
fn test_error_severity() {
    let fraud_error = SafeBankError::FraudDetected { fraud_score: 900 };
    assert_eq!(fraud_error.severity(), ErrorSeverity::Critical);

    let auth_error = SafeBankError::AuthenticationFailed { message: "test".to_string() };
    assert_eq!(auth_error.severity(), ErrorSeverity::Medium);
}

#[test]
fn severity_high_and_low() {
    let e = SafeBankError::TransactionLimitExceeded { amount: 2, limit: 1 };
    assert_eq!(e.severity(), ErrorSeverity::High);
    assert_eq!(SafeBankError::InvalidPin.severity(), ErrorSeverity::Low);
}

#[test]
fn test_framework_initialization() {
    let config = SafeBankConfig::default();
    let framework = SafeBankFramework::new(config);
    assert!(framework.config().max_failed_attempts > 0);
}
