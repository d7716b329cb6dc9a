use safebank::config::SafeBankConfig;
use safebank::fraud_detection::{
    amount_anomaly, analyze_with_profile, build_profile, limit_proximity, simple_fraud_detection,
    time_anomaly, top_ranked, FraudDetector, FraudRecommendation, RiskFactorType,
};
use safebank::{BehavioralProfile, DeviceInfo, Transaction, TransactionStatus, TransactionType, UserProfile};

/// 2023-11-14 00:00:00 UTC.
const DAY_START: i64 = 1_699_920_000;

fn create_test_user() -> UserProfile {
    UserProfile {
        user_id: uuid::Uuid::new_v4().as_u128(),
        phone_number: "+1234567890".to_string(),
        pin_hash: "dummy_hash".to_string(),
        device_info: DeviceInfo {
            device_id: "test-device".to_string(),
            device_type: "smartphone".to_string(),
            os_version: Some("Android 8.0".to_string()),
            app_version: "1.0.0".to_string(),
            is_trusted: true,
            registered_at: chrono::Utc::now().timestamp(),
        },
        behavioral_profile: BehavioralProfile {
            typical_transaction_amount: 10_000,
            typical_transaction_times: vec![9, 12, 18],
            common_recipients: vec!["John Doe".to_string()],
            usage_frequency: 2_000,
        },
        created_at: chrono::Utc::now().timestamp(),
        last_login: Some(chrono::Utc::now().timestamp()),
        failed_attempts: 0,
        is_locked: false,
    }
}

fn create_test_transaction(amount: u64, user_id: u128) -> Transaction {
    Transaction {
        transaction_id: uuid::Uuid::new_v4().as_u128(),
        user_id,
        amount,
        recipient: "Test Recipient".to_string(),
        transaction_type: TransactionType::Transfer,
        timestamp: chrono::Utc::now().timestamp(),
        device_id: "test-device".to_string(),
        fraud_score: 0,
        status: TransactionStatus::Pending,
    }
}

fn at(amount: u64, recipient: &str, timestamp: i64) -> Transaction {
    Transaction {
        transaction_id: 1,
        user_id: 7,
        amount,
        recipient: recipient.to_string(),
        transaction_type: TransactionType::Payment,
        timestamp,
        device_id: "d".to_string(),
        fraud_score: 0,
        status: TransactionStatus::Pending,
    }
}

#[test]
fn test_fraud_detector_initialization() {
    let config = SafeBankConfig::default();
    let detector = FraudDetector::new(&config);
    assert!(detector.profile_of(1).is_none());
    assert_eq!(detector.get_statistics().total_transactions_analyzed, 0);
}

#[test]
fn test_simple_fraud_detection() {
    let config = SafeBankConfig::minimal();
    let mut detector = FraudDetector::new(&config);
    let user = create_test_user();
    let transaction = create_test_transaction(10_000, user.user_id);
    let score = detector.analyze_transaction(&transaction, &user).unwrap();
    assert!(score <= 1000);
}

#[test]
fn test_large_amount_detection() {
    let mut config = SafeBankConfig::default();
    config.single_transaction_limit = 100_000;
    config.enable_behavioral_analysis = true;
    let mut detector = FraudDetector::new(&config);
    let user = create_test_user();
    let large_transaction = create_test_transaction(150_000, user.user_id);
    let score = detector.analyze_transaction(&large_transaction, &user).unwrap();
    assert!(score >= 100);
}

#[test]
fn test_behavioral_profile_update() {
    let config = SafeBankConfig::default();
    let mut detector = FraudDetector::new(&config);
    let user_id = uuid::Uuid::new_v4().as_u128();
    let transactions = vec![
        create_test_transaction(10_000, user_id),
        create_test_transaction(15_000, user_id),
        create_test_transaction(12_000, user_id),
    ];
    let result = detector.update_behavioral_profile(user_id, &transactions);
    assert!(result.is_ok());
    let profile = detector.profile_of(user_id).unwrap();
    assert!((profile.typical_transaction_amount as f64 / 100.0 - 123.33).abs() < 0.1);
}

#[test]
fn test_statistics_tracking() {
    let config = SafeBankConfig::default();
    let mut detector = FraudDetector::new(&config);
    let user = create_test_user();
    let transaction = create_test_transaction(10_000, user.user_id);
    let _ = detector.analyze_transaction(&transaction, &user);
    let stats = detector.get_statistics();
    assert_eq!(stats.total_transactions_analyzed, 1);
}

#[test]
fn lightweight_mode_is_not_counted_and_reset_clears() {
    let mut detector = FraudDetector::new(&SafeBankConfig::minimal());
    let user = create_test_user();
    let _ = detector.analyze_transaction(&create_test_transaction(100, user.user_id), &user);
    assert_eq!(detector.get_statistics().total_transactions_analyzed, 0);
    detector.mark_as_fraud(3, true);
    assert_eq!(detector.get_statistics().fraud_detected, 1);
    detector.reset_statistics();
    assert_eq!(detector.get_statistics().fraud_detected, 0);
}

#[test]
fn amount_anomaly_six_times_typical() {
    // typical 100.00, amount 600.00: ratio 6, sub-score 0.8
    assert_eq!(amount_anomaly(60_000, 10_000), 800);
    assert_eq!(amount_anomaly(10_000, 60_000), 800);
    assert_eq!(amount_anomaly(40_000, 10_000), 600);
    assert_eq!(amount_anomaly(30_000, 10_000), 400);
    assert_eq!(amount_anomaly(20_000, 10_000), 0);
    assert_eq!(amount_anomaly(20_000, 0), 0);
}

#[test]
fn amount_anomaly_contributes_its_weight() {
    // Only the amount is unusual: 0.8 weighted by 0.30 gives 0.24.
    let profile = BehavioralProfile {
        typical_transaction_amount: 10_000,
        typical_transaction_times: vec![9],
        common_recipients: vec!["Shop".to_string()],
        usage_frequency: 1_000,
    };
    let t = at(60_000, "Shop", DAY_START + 9 * 3600);
    let (score, factors) = analyze_with_profile(&t, &profile, 500_000);
    assert_eq!(score, 240);
    assert_eq!(factors.len(), 1);
    assert_eq!(factors[0].factor_type, RiskFactorType::AmountAnomaly);
    assert_eq!(factors[0].score, 800);
    assert_eq!(factors[0].description, "Transaction amount $600.00 deviates from typical pattern");
}

#[test]
fn full_score_combines_all_factors() {
    let profile = BehavioralProfile {
        typical_transaction_amount: 10_000,
        typical_transaction_times: vec![9],
        common_recipients: vec!["Shop".to_string()],
        usage_frequency: 12_000,
    };
    // amount 0.8, time 0.5 (03:00 is far from 09:00), frequency 0.3,
    // unknown recipient 0.3, above the limit 1.0:
    // 0.24 + 0.10 + 0.075 + 0.045 + 0.10 = 0.56
    let t = at(600_000, "Stranger", DAY_START + 3 * 3600);
    let (score, factors) = analyze_with_profile(&t, &profile, 500_000);
    assert_eq!(score, 560);
    assert_eq!(factors.len(), 4);
    assert_eq!(factors[3].factor_type, RiskFactorType::RecipientAnomaly);
}

#[test]
fn new_user_recipient_grace() {
    let t = at(10_000, "Anyone", DAY_START + 12 * 3600);
    let (score, factors) = analyze_with_profile(&t, &BehavioralProfile::empty(), 500_000);
    // 0.1 weighted by 0.15
    assert_eq!(score, 15);
    assert_eq!(factors.len(), 1);
    assert_eq!(factors[0].score, 100);
}

#[test]
fn time_anomaly_is_circular() {
    assert_eq!(time_anomaly(9, &vec![9, 12]), 0);
    assert_eq!(time_anomaly(11, &vec![9]), 200);
    assert_eq!(time_anomaly(1, &vec![23]), 200);
    assert_eq!(time_anomaly(15, &vec![9]), 500);
    assert_eq!(time_anomaly(15, &vec![]), 0);
}

#[test]
fn limit_proximity_levels() {
    assert_eq!(limit_proximity(100_001, 100_000), 1000);
    assert_eq!(limit_proximity(80_000, 100_000), 500);
    assert_eq!(limit_proximity(79_999, 100_000), 0);
}

#[test]
fn lightweight_large_amount_at_night() {
    // limit 1000.00, amount 850.00 at 02:00: 0.4 + 0.2
    let t = at(85_000, "x", DAY_START + 2 * 3600);
    assert_eq!(simple_fraud_detection(&t, 100_000), 600);
}

#[test]
fn lightweight_round_amount() {
    let t = at(100_000, "x", DAY_START + 12 * 3600);
    assert_eq!(simple_fraud_detection(&t, 1_000_000), 100);
    let t = at(100_050, "x", DAY_START + 23 * 3600);
    assert_eq!(simple_fraud_detection(&t, 1_000_000), 200);
}

#[test]
fn rebuild_ranks_hours_by_count() {
    let txs = vec![
        at(1_000, "a", DAY_START + 9 * 3600),
        at(1_000, "b", DAY_START + 9 * 3600 + 60),
        at(1_000, "a", DAY_START + 12 * 3600),
        at(1_000, "c", DAY_START + 18 * 3600),
    ];
    let p = build_profile(&txs);
    assert_eq!(p.typical_transaction_times[0], 9);
    assert_eq!(p.typical_transaction_times, vec![9, 12, 18]);
    assert_eq!(p.common_recipients, vec!["a".to_string(), "b".to_string(), "c".to_string()]);
    // four transactions within one day
    assert_eq!(p.usage_frequency, 4_000);
    assert_eq!(p.typical_transaction_amount, 1_000);
}

#[test]
fn rebuild_frequency_over_span() {
    let txs = vec![
        at(100, "a", DAY_START),
        at(200, "a", DAY_START + 4 * 86400),
        at(301, "a", DAY_START + 86400),
    ];
    let p = build_profile(&txs);
    // three transactions over four days
    assert_eq!(p.usage_frequency, 750);
    assert_eq!(p.typical_transaction_amount, 200);
}

#[test]
fn rebuild_frequency_rounds_up() {
    let txs = vec![at(100, "a", DAY_START), at(100, "a", DAY_START + 3 * 86400)];
    // two transactions over three days: 0.666... a day
    assert_eq!(build_profile(&txs).usage_frequency, 667);
}

#[test]
fn detailed_analysis_counts_and_explains() {
    let mut detector = FraudDetector::new(&SafeBankConfig::default());
    let user = create_test_user();
    let mut t = at(60_000, "Stranger", DAY_START + 9 * 3600);
    t.user_id = user.user_id;
    let a = detector.analyze_transaction_detailed(&t, &user).unwrap();
    // amount 0.8 * 0.3 + unknown recipient 0.3 * 0.15
    assert_eq!(a.fraud_score, 285);
    assert_eq!(a.risk_factors.len(), 2);
    assert_eq!(a.risk_factors[1].factor_type, RiskFactorType::RecipientAnomaly);
    assert_eq!(a.recommendation, FraudRecommendation::Approve);
    assert_eq!(detector.get_statistics().total_transactions_analyzed, 1);
}

#[test]
fn top_ranked_ties_go_to_the_earlier() {
    assert_eq!(top_ranked(&vec![2, 5, 5, 0, 1], 3), vec![1, 2, 0]);
    assert_eq!(top_ranked(&vec![0, 0, 3], 3), vec![2]);
    assert_eq!(top_ranked(&vec![1, 1], 0), Vec::<usize>::new());
}

#[test]
fn empty_history_keeps_the_profile() {
    let mut detector = FraudDetector::new(&SafeBankConfig::default());
    assert!(detector.update_behavioral_profile(5, &[]).is_ok());
    assert!(detector.profile_of(5).is_none());
}

#[test]
fn kept_profile_is_used_for_scoring() {
    let mut detector = FraudDetector::new(&SafeBankConfig::default());
    let user = create_test_user();
    let history = vec![at(60_000, "x", DAY_START)];
    let mut h = history[0].clone();
    h.user_id = user.user_id;
    detector.update_behavioral_profile(user.user_id, &[h]).unwrap();
    let mut t = at(60_000, "x", DAY_START + 60);
    t.user_id = user.user_id;
    let a = detector.assess(&t, &user);
    // the kept profile knows the amount, the hour and the recipient
    assert_eq!(a.fraud_score, 0);
    assert_eq!(a.recommendation, FraudRecommendation::Approve);
}
