use safebank::auth::{is_sequential, is_valid_phone_number, AuthManager};
use safebank::config::SafeBankConfig;
use safebank::errors::SafeBankError;
use safebank::{DeviceInfo, SafeBankFramework, TransactionStatus, TransactionType};

fn create_test_device_info() -> DeviceInfo {
    DeviceInfo {
        device_id: "test-device-123".to_string(),
        device_type: "smartphone".to_string(),
        os_version: Some("Android 8.0".to_string()),
        app_version: "1.0.0".to_string(),
        is_trusted: false,
        registered_at: chrono::Utc::now().timestamp(),
    }
}

#[test]
fn test_user_registration() {
    let config = SafeBankConfig::default();
    let mut auth_manager = AuthManager::new(&config);
    let result = auth_manager.register_user(
        "+1234567890".to_string(),
        "1234".to_string(),
        create_test_device_info(),
    );
    assert!(result.is_ok());
}

#[test]
fn test_authentication() {
    let config = SafeBankConfig::default();
    let mut auth_manager = AuthManager::new(&config);
    let user = auth_manager
        .register_user("+1234567890".to_string(), "1234".to_string(), create_test_device_info())
        .unwrap();
    let auth_result = auth_manager.authenticate("+1234567890", "1234", &user.device_info.device_id);
    assert!(auth_result.is_ok());
}

#[test]
fn test_invalid_pin() {
    let config = SafeBankConfig::default();
    let auth_manager = AuthManager::new(&config);
    assert!(!auth_manager.is_valid_pin("123"));
    assert!(!auth_manager.is_valid_pin("12345678"));
    assert!(!auth_manager.is_valid_pin("12ab"));
    assert!(auth_manager.is_valid_pin("1234"));
}

#[test]
fn test_failed_attempts_lockout() {
    let config = SafeBankConfig::default();
    let mut auth_manager = AuthManager::new(&config);
    let user = auth_manager
        .register_user("+1234567890".to_string(), "1234".to_string(), create_test_device_info())
        .unwrap();
    for _ in 0..3 {
        let _ = auth_manager.authenticate("+1234567890", "wrong", &user.device_info.device_id);
    }
    assert!(auth_manager.is_account_locked("+1234567890"));
}

#[test]
fn registration_refusals() {
    let mut a = AuthManager::new(&SafeBankConfig::default());
    assert_eq!(
        a.register_user("12-34".to_string(), "1234".to_string(), create_test_device_info()),
        Err(SafeBankError::AuthenticationFailed { message: "Invalid phone number format".to_string() })
    );
    assert_eq!(
        a.register_user("+1234567890".to_string(), "12".to_string(), create_test_device_info()),
        Err(SafeBankError::InvalidPin)
    );
    a.register_user("+1234567890".to_string(), "4321".to_string(), create_test_device_info()).unwrap();
    assert_eq!(
        a.register_user("+1234567890".to_string(), "4321".to_string(), create_test_device_info()),
        Err(SafeBankError::AuthenticationFailed { message: "User already exists".to_string() })
    );
}

#[test]
fn authentication_refusals() {
    let mut a = AuthManager::new(&SafeBankConfig::default());
    assert!(matches!(a.authenticate_at("+1999999999", "1234", "d", 0), Err(SafeBankError::UserNotFound { .. })));
    let u = a.register_user("+1234567890".to_string(), "2468".to_string(), create_test_device_info()).unwrap();
    assert_eq!(
        a.authenticate_at("+1234567890", "2468", "other-device", 100),
        Err(SafeBankError::UnrecognizedDevice { device_id: "other-device".to_string() })
    );
    let v = a.authenticate_at("+1234567890", "2468", "test-device-123", 100).unwrap();
    assert_eq!(v.last_login, Some(100));
    assert_eq!(v.user_id, u.user_id);
    a.trust_device(u.user_id, "test-device-123".to_string()).unwrap();
    assert!(a.get_user_by_id(u.user_id).unwrap().device_info.is_trusted);
    assert!(a.authenticate_at("+1234567890", "2468", "other-device", 200).is_ok());
}

#[test]
fn lockout_expires() {
    let mut a = AuthManager::new(&SafeBankConfig::default());
    a.register_user("+1234567890".to_string(), "2468".to_string(), create_test_device_info()).unwrap();
    for t in 0..3 {
        assert!(matches!(
            a.authenticate_at("+1234567890", "0000", "test-device-123", 1_000 + t),
            Err(SafeBankError::AuthenticationFailed { .. })
        ));
    }
    assert!(a.is_account_locked_at("+1234567890", 1_002 + 15 * 60 - 1));
    assert_eq!(
        a.authenticate_at("+1234567890", "2468", "test-device-123", 1_100),
        Err(SafeBankError::AccountLocked)
    );
    assert!(!a.is_account_locked_at("+1234567890", 1_002 + 15 * 60));
    assert!(a.authenticate_at("+1234567890", "2468", "test-device-123", 1_002 + 15 * 60).is_ok());
    assert!(!a.is_account_locked_at("+1234567890", 1_003 + 15 * 60));
}

#[test]
fn phone_and_pin_formats() {
    assert!(is_valid_phone_number("+254 712-345-678"));
    assert!(!is_valid_phone_number("123456789"));
    assert!(is_sequential("1234"));
    assert!(is_sequential("9876"));
    assert!(!is_sequential("1357"));
    assert!(!is_sequential("12"));
    let mut c = SafeBankConfig::default();
    c.pin_complexity_required = true;
    let a = AuthManager::new(&c);
    assert!(!a.is_valid_pin("123456"));
    assert!(a.is_valid_pin("135792"));
    assert!(a.is_valid_pin("13579246"));
    assert!(!a.is_valid_pin("1357"));
}

#[test]
fn framework_scores_and_records() {
    let mut f = SafeBankFramework::new(SafeBankConfig::default());
    let user = f
        .register_user("+1234567890".to_string(), "1357".to_string(), create_test_device_info())
        .unwrap();
    // new user: only the recipient grace (0.015) and nothing else
    let t = f
        .process_transaction_at(user.user_id, 5_000, "Shop".to_string(), TransactionType::Payment, 77, 1_700_000_000)
        .unwrap();
    assert_eq!(t.fraud_score, 15);
    assert_eq!(t.status, TransactionStatus::Approved);
    assert_eq!(t.device_id, "test-device-123");
    assert_eq!(f.get_fraud_statistics().total_transactions_analyzed, 1);
    assert!(f.update_behavioral_profile(user.user_id).is_ok());
    assert!(matches!(
        f.process_transaction(12345, 100, "x".to_string(), TransactionType::Deposit),
        Err(SafeBankError::UserNotFound { .. })
    ));
}
