use safebank::config::SafeBankConfig;
use safebank::errors::SafeBankError;
use safebank::transaction::{confirmation_code, decode_transaction, encode_transaction, TransactionManager};
use safebank::{Transaction, TransactionStatus, TransactionType};
use sha2::Digest;

/// 2023-11-14 00:00:00 UTC.
const DAY_START: i64 = 1_699_920_000;

fn create_test_transaction() -> Transaction {
    Transaction {
        transaction_id: uuid::Uuid::new_v4().as_u128(),
        user_id: uuid::Uuid::new_v4().as_u128(),
        amount: 10_000,
        recipient: "Test Recipient".to_string(),
        transaction_type: TransactionType::Transfer,
        timestamp: chrono::Utc::now().timestamp(),
        device_id: "test-device".to_string(),
        fraud_score: 300,
        status: TransactionStatus::Approved,
    }
}

fn tx(id: u128, user: u128, amount: u64, status: TransactionStatus) -> Transaction {
    Transaction {
        transaction_id: id,
        user_id: user,
        amount,
        recipient: "Shop".to_string(),
        transaction_type: TransactionType::Payment,
        timestamp: DAY_START + 3600,
        device_id: "dev".to_string(),
        fraud_score: 0,
        status,
    }
}

#[test]
fn test_transaction_processing() {
    let config = SafeBankConfig::default();
    let mut manager = TransactionManager::new(&config);
    let transaction = create_test_transaction();
    let result = manager.process_transaction(transaction.clone());
    assert!(result.is_ok());
    let stored = manager.get_transaction(transaction.transaction_id);
    assert!(stored.is_ok());
}

#[test]
fn test_daily_limit_check() {
    let mut config = SafeBankConfig::default();
    config.daily_transaction_limit = 100_000;
    let mut manager = TransactionManager::new(&config);
    let user_id = uuid::Uuid::new_v4().as_u128();

    let mut transaction1 = create_test_transaction();
    transaction1.user_id = user_id;
    transaction1.amount = 80_000;
    let result1 = manager.process_transaction(transaction1);
    assert!(result1.is_ok());

    let mut transaction2 = create_test_transaction();
    transaction2.user_id = user_id;
    transaction2.amount = 30_000;
    transaction2.transaction_id = uuid::Uuid::new_v4().as_u128();
    let result2 = manager.process_transaction(transaction2);
    assert!(result2.is_err());
}

#[test]
fn test_transaction_receipt() {
    let config = SafeBankConfig::default();
    let manager = TransactionManager::new(&config);
    let transaction = create_test_transaction();
    let receipt = manager.create_receipt(&transaction);
    assert_eq!(receipt.transaction_id, transaction.transaction_id);
    assert_eq!(receipt.amount, transaction.amount);
    assert!(!receipt.confirmation_code.is_empty());
}

#[test]
fn confirmation_code_is_the_digest_head() {
    let id: u128 = 0x0123_4567_89ab_cdef_0011_2233_4455_6677;
    let mut h = sha2::Sha256::new();
    h.update(uuid::Uuid::from_u128(id).as_bytes());
    h.update(b"1700000000");
    let expected = hex::encode_upper(&h.finalize()[..4]);
    assert_eq!(confirmation_code(id, 1_700_000_000), expected);
    assert_eq!(expected.len(), 8);
    let mut h = sha2::Sha256::new();
    h.update(uuid::Uuid::from_u128(id).as_bytes());
    h.update(b"-5");
    assert_eq!(confirmation_code(id, -5), hex::encode_upper(&h.finalize()[..4]));
}

#[test]
fn test_offline_transaction() {
    let config = SafeBankConfig::default();
    let manager = TransactionManager::new(&config);
    let transaction = create_test_transaction();
    let secret_key = "test_secret_key";
    let offline_tx = manager.create_offline_transaction(&transaction, secret_key);
    assert!(offline_tx.is_ok());
    let offline_tx = offline_tx.unwrap();
    assert!(!offline_tx.encrypted_data.is_empty());
    assert!(!offline_tx.signature.is_empty());
}

#[test]
fn test_transaction_statistics() {
    let config = SafeBankConfig::default();
    let mut manager = TransactionManager::new(&config);
    let transaction1 = create_test_transaction();
    let mut transaction2 = create_test_transaction();
    transaction2.transaction_id = uuid::Uuid::new_v4().as_u128();
    transaction2.status = TransactionStatus::Rejected;
    let _ = manager.process_transaction(transaction1);
    let _ = manager.process_transaction(transaction2);
    let stats = manager.get_transaction_statistics();
    assert_eq!(stats.total_transactions, 2);
    assert_eq!(stats.approved_count, 1);
    assert_eq!(stats.rejected_count, 1);
    assert_eq!(stats.total_volume, 20_000);
    assert_eq!(stats.approval_rate_percent(), Some(50));
    assert_eq!(stats.average_amount(), Some(10_000));
}

#[test]
fn empty_ledger_has_no_rates() {
    let m = TransactionManager::new(&SafeBankConfig::default());
    let stats = m.get_transaction_statistics();
    assert_eq!(stats.approval_rate_percent(), None);
    assert_eq!(stats.average_amount(), None);
}

#[test]
fn empty_key_is_an_error_not_an_abort() {
    let mut m = TransactionManager::new(&SafeBankConfig::default());
    let t = tx(15, 9, 1_000, TransactionStatus::Approved);
    let e = SafeBankError::CryptographyError { message: "Secret key must not be empty".to_string() };
    assert_eq!(m.create_offline_transaction_at(&t, "", DAY_START), Err(e.clone()));
    let env = m.create_offline_transaction_at(&t, "k", DAY_START).unwrap();
    assert_eq!(m.process_offline_transaction_at(&env, "", DAY_START), Err(e));
    // expiry is checked before the key
    assert!(matches!(
        m.process_offline_transaction_at(&env, "", DAY_START + 25 * 3600),
        Err(SafeBankError::TimeoutError { .. })
    ));
    // the offline limit is checked before the key
    let big = tx(16, 9, 100_001, TransactionStatus::Approved);
    assert!(matches!(
        m.create_offline_transaction_at(&big, "", DAY_START),
        Err(SafeBankError::TransactionLimitExceeded { .. })
    ));
}

#[test]
fn signature_and_code_lengths() {
    let m = TransactionManager::new(&SafeBankConfig::default());
    let t = tx(17, 9, 1_000, TransactionStatus::Approved);
    let env = m.create_offline_transaction_at(&t, "k", DAY_START).unwrap();
    assert_eq!(env.signature.len(), 64);
    let receipt = m.create_receipt(&t);
    assert_eq!(receipt.confirmation_code.len(), 8);
    assert!(receipt.confirmation_code.chars().all(|c| c.is_ascii_hexdigit() && !c.is_ascii_lowercase()));
}

#[test]
fn first_transaction_of_the_day_sets_the_total() {
    let mut m = TransactionManager::new(&SafeBankConfig::default());
    let t = tx(1, 9, 12_345, TransactionStatus::Approved);
    assert_eq!(m.process_transaction_at(t.clone(), DAY_START + 100), Ok(t));
    let d = m.daily_limit(9).unwrap();
    assert_eq!(d.total_amount, 12_345);
    assert_eq!(d.transaction_count, 1);
    assert_eq!(d.date, DAY_START / 86400);
}

#[test]
fn zero_amount_is_refused() {
    let mut m = TransactionManager::new(&SafeBankConfig::default());
    let r = m.process_transaction_at(tx(1, 9, 0, TransactionStatus::Pending), DAY_START);
    assert_eq!(
        r,
        Err(SafeBankError::ConfigError { message: "Transaction amount must be positive".to_string() })
    );
    assert!(m.get_transaction(1).is_err());
}

#[test]
fn over_single_limit_carries_amount_and_limit() {
    let mut m = TransactionManager::new(&SafeBankConfig::default());
    let r = m.process_transaction_at(tx(1, 9, 500_001, TransactionStatus::Pending), DAY_START);
    assert_eq!(r, Err(SafeBankError::TransactionLimitExceeded { amount: 500_001, limit: 500_000 }));
    assert!(m.daily_limit(9).is_none());
}

#[test]
fn second_same_day_transaction_carries_projected_total() {
    let mut config = SafeBankConfig::default();
    config.daily_transaction_limit = 100_000;
    let mut m = TransactionManager::new(&config);
    assert!(m.process_transaction_at(tx(1, 9, 80_000, TransactionStatus::Approved), DAY_START + 10).is_ok());
    let r = m.process_transaction_at(tx(2, 9, 30_000, TransactionStatus::Approved), DAY_START + 20);
    assert_eq!(r, Err(SafeBankError::TransactionLimitExceeded { amount: 110_000, limit: 100_000 }));
    assert_eq!(m.daily_limit(9).unwrap().total_amount, 80_000);
    // the next day starts afresh
    let r = m.process_transaction_at(tx(2, 9, 30_000, TransactionStatus::Approved), DAY_START + 86_400);
    assert!(r.is_ok());
    let d = m.daily_limit(9).unwrap();
    assert_eq!(d.total_amount, 30_000);
    assert_eq!(d.transaction_count, 1);
}

#[test]
fn same_day_accumulates() {
    let mut m = TransactionManager::new(&SafeBankConfig::default());
    m.process_transaction_at(tx(1, 9, 1_000, TransactionStatus::Approved), DAY_START + 1).unwrap();
    m.process_transaction_at(tx(2, 9, 2_000, TransactionStatus::Approved), DAY_START + 2).unwrap();
    let d = m.daily_limit(9).unwrap();
    assert_eq!(d.total_amount, 3_000);
    assert_eq!(d.transaction_count, 2);
}

#[test]
fn approve_from_pending_is_refused() {
    let mut m = TransactionManager::new(&SafeBankConfig::default());
    m.process_transaction_at(tx(1, 9, 1_000, TransactionStatus::Pending), DAY_START).unwrap();
    assert_eq!(
        m.approve_transaction(1),
        Err(SafeBankError::InvalidTransactionState { current_state: "Pending".to_string() })
    );
    assert_eq!(m.get_transaction(1).unwrap().status, TransactionStatus::Pending);
}

#[test]
fn approve_twice_changes_nothing() {
    let mut m = TransactionManager::new(&SafeBankConfig::default());
    m.process_transaction_at(tx(1, 9, 1_000, TransactionStatus::RequiresApproval), DAY_START).unwrap();
    let first = m.approve_transaction(1).unwrap();
    assert_eq!(first.status, TransactionStatus::Approved);
    assert!(matches!(
        m.approve_transaction(1),
        Err(SafeBankError::InvalidTransactionState { .. })
    ));
    assert_eq!(m.get_transaction(1).unwrap(), first);
    let flagged = tx(2, 9, 1_000, TransactionStatus::Flagged);
    m.process_transaction_at(flagged, DAY_START).unwrap();
    assert!(m.approve_transaction(2).is_ok());
}

#[test]
fn reject_approved_is_refused() {
    let mut m = TransactionManager::new(&SafeBankConfig::default());
    m.process_transaction_at(tx(1, 9, 1_000, TransactionStatus::Approved), DAY_START).unwrap();
    assert_eq!(
        m.reject_transaction(1, "late".to_string()),
        Err(SafeBankError::InvalidTransactionState {
            current_state: "Cannot reject approved transaction".to_string()
        })
    );
    m.process_transaction_at(tx(2, 9, 1_000, TransactionStatus::Flagged), DAY_START).unwrap();
    assert_eq!(m.reject_transaction(2, "risky".to_string()).unwrap().status, TransactionStatus::Rejected);
}

#[test]
fn unknown_id_is_a_storage_error() {
    let mut m = TransactionManager::new(&SafeBankConfig::default());
    assert_eq!(
        m.get_transaction(0x1234),
        Err(SafeBankError::StorageError {
            message: "Transaction not found: 00000000-0000-0000-0000-000000001234".to_string()
        })
    );
    assert!(matches!(m.approve_transaction(5), Err(SafeBankError::StorageError { .. })));
    assert!(matches!(m.reject_transaction(5, String::new()), Err(SafeBankError::StorageError { .. })));
}

#[test]
fn history_is_most_recent_first() {
    let mut m = TransactionManager::new(&SafeBankConfig::default());
    let mut a = tx(1, 9, 100, TransactionStatus::Approved);
    a.timestamp = DAY_START + 10;
    let mut b = tx(2, 9, 200, TransactionStatus::Approved);
    b.timestamp = DAY_START + 30;
    let mut c = tx(3, 8, 300, TransactionStatus::Approved);
    c.timestamp = DAY_START + 20;
    let mut d = tx(4, 9, 400, TransactionStatus::Approved);
    d.timestamp = DAY_START + 10;
    for t in [a, b, c, d] {
        m.process_transaction_at(t, DAY_START).unwrap();
    }
    let h: Vec<u128> = m.get_user_transactions(9).unwrap().iter().map(|t| t.transaction_id).collect();
    assert_eq!(h, vec![2, 1, 4]);
    assert!(m.get_user_transactions(77).unwrap().is_empty());
}

#[test]
fn sealed_envelope_replays_with_its_key() {
    let mut m = TransactionManager::new(&SafeBankConfig::default());
    let t = tx(11, 9, 50_000, TransactionStatus::Approved);
    let env = m.create_offline_transaction_at(&t, "k3y", DAY_START).unwrap();
    assert_eq!(env.expires_at, DAY_START + 24 * 3600);
    assert_eq!(env.transaction, t);
    let plain = encode_transaction(&t);
    assert_eq!(env.encrypted_data.len(), 2 * plain.len());
    assert_ne!(env.encrypted_data, hex::encode(&plain));
    let mut h = sha2::Sha256::new();
    h.update(&plain);
    h.update(b"k3y");
    assert_eq!(env.signature, hex::encode(h.finalize()));
    assert_eq!(m.process_offline_transaction_at(&env, "k3y", DAY_START + 60), Ok(t.clone()));
    assert_eq!(m.get_transaction(11), Ok(t));
}

#[test]
fn envelope_with_another_key_fails_integrity() {
    let mut m = TransactionManager::new(&SafeBankConfig::default());
    let t = tx(12, 9, 50_000, TransactionStatus::Approved);
    let env = m.create_offline_transaction_at(&t, "right", DAY_START).unwrap();
    let r = m.process_offline_transaction_at(&env, "wrong", DAY_START + 60);
    assert_eq!(
        r,
        Err(SafeBankError::CryptographyError { message: "Invalid transaction signature".to_string() })
    );
    assert!(m.get_transaction(12).is_err());
}

#[test]
fn expired_or_damaged_envelopes_are_refused() {
    let mut m = TransactionManager::new(&SafeBankConfig::default());
    let t = tx(13, 9, 50_000, TransactionStatus::Approved);
    let env = m.create_offline_transaction_at(&t, "k", DAY_START).unwrap();
    let r = m.process_offline_transaction_at(&env, "k", DAY_START + 24 * 3600 + 1);
    assert_eq!(
        r,
        Err(SafeBankError::TimeoutError { operation: "Offline transaction expired".to_string() })
    );
    let mut bad = env.clone();
    bad.encrypted_data.push('z');
    assert_eq!(
        m.process_offline_transaction_at(&bad, "k", DAY_START),
        Err(SafeBankError::CryptographyError { message: "Failed to decode encrypted data".to_string() })
    );
    // the recovered transaction is processed, not the one carried beside it
    let mut swapped = env.clone();
    swapped.transaction.amount = 1;
    assert_eq!(m.process_offline_transaction_at(&swapped, "k", DAY_START), Ok(t.clone()));
    assert_eq!(m.get_transaction(13), Ok(t));
}

#[test]
fn envelope_without_a_transaction_is_a_serialization_error() {
    let mut m = TransactionManager::new(&SafeBankConfig::default());
    let t = tx(18, 9, 1_000, TransactionStatus::Approved);
    let mut env = m.create_offline_transaction_at(&t, "k", DAY_START).unwrap();
    let plain = b"not a transaction".to_vec();
    let obscured: Vec<u8> = plain.iter().map(|b| b ^ b'k').collect();
    env.encrypted_data = hex::encode(&obscured);
    let mut h = sha2::Sha256::new();
    h.update(&plain);
    h.update(b"k");
    env.signature = hex::encode(h.finalize());
    assert_eq!(
        m.process_offline_transaction_at(&env, "k", DAY_START),
        Err(SafeBankError::SerializationError { message: "Envelope holds no transaction".to_string() })
    );
}

#[test]
fn encoding_reads_back() {
    let t = tx(19, 9, 4_321, TransactionStatus::Flagged);
    let mut u = t.clone();
    u.recipient = "Zoë".to_string();
    u.timestamp = -7;
    for x in [t, u] {
        assert_eq!(decode_transaction(&encode_transaction(&x)), Some(x.clone()));
        let mut longer = encode_transaction(&x);
        longer.push(0);
        assert_eq!(decode_transaction(&longer), None);
    }
    assert_eq!(decode_transaction(&vec![0u8; 10]), None);
}

#[test]
fn offline_limit_applies_when_sealing() {
    let m = TransactionManager::new(&SafeBankConfig::default());
    let t = tx(14, 9, 100_001, TransactionStatus::Approved);
    assert_eq!(
        m.create_offline_transaction_at(&t, "k", DAY_START),
        Err(SafeBankError::TransactionLimitExceeded { amount: 100_001, limit: 100_000 })
    );
}
