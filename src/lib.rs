//! SafeBank: risk scoring and a limit-respecting transaction ledger for
//! low-resource banking, with an offline transaction envelope.
//!
//! Money is held in minor currency units (cents), fraud scores in
//! thousandths (0 to 1000), timestamps in whole seconds since the Unix
//! epoch (UTC) and identifiers as 128-bit integers.
use crate::auth::AuthManager;
use crate::config::SafeBankConfig;
use crate::errors::Result;
use crate::fraud_detection::{active_profile, counted, score_spec, FraudDetector, FraudStatistics};
use crate::transaction::{processed, TransactionManager};
use vstd::prelude::*;

pub mod auth;
pub mod codec;
pub mod config;
pub mod errors;
pub mod fraud_detection;
pub mod transaction;
pub mod utils;

verus! {

/// Seconds in one day.
pub const SECONDS_PER_DAY: i64 = 86400;

/// Seconds in one hour.
pub const SECONDS_PER_HOUR: i64 = 3600;

/// Hour of the day (0 to 23, UTC) of a timestamp in seconds.
pub open spec fn hour_of_spec(ts: int) -> int {
    (ts % 86400) / 3600
}

/// Calendar day number (days since the Unix epoch, UTC) of a timestamp.
pub open spec fn day_of_spec(ts: int) -> int {
    ts / 86400
}

/// Hour of the day (UTC) of a timestamp in seconds.
pub fn hour_of(ts: i64) -> (r: u8)
    ensures
        r as int == hour_of_spec(ts as int),
        r < 24,
{
    let m: i64 = ts % SECONDS_PER_DAY;
    let d: i64 = if m < 0 {
        m + SECONDS_PER_DAY
    } else {
        m
    };
    assert(d as int == (ts as int) % 86400);
    (d / SECONDS_PER_HOUR) as u8
}

/// Calendar day number (UTC) of a timestamp in seconds.
pub fn day_of(ts: i64) -> (r: i64)
    ensures
        r as int == day_of_spec(ts as int),
{
    let q: i64 = ts / SECONDS_PER_DAY;
    let m: i64 = ts % SECONDS_PER_DAY;
    if m < 0 {
        assert((ts as int) / 86400 == q - 1);
        q - 1
    } else {
        assert((ts as int) / 86400 == q);
        q
    }
}

#[derive(Debug, Clone, Copy, PartialEq, Eq, Structural)]
pub enum TransactionType {
    Transfer,
    Payment,
    Withdrawal,
    Deposit,
}

#[derive(Debug, Clone, Copy, PartialEq, Eq, Structural)]
pub enum TransactionStatus {
    Pending,
    Approved,
    Rejected,
    Flagged,
    RequiresApproval,
}

impl TransactionStatus {
    /// Name of the status, as written in the variant.
    pub open spec fn name_spec(self) -> Seq<char> {
        match self {
            TransactionStatus::Pending => "Pending"@,
            TransactionStatus::Approved => "Approved"@,
            TransactionStatus::Rejected => "Rejected"@,
            TransactionStatus::Flagged => "Flagged"@,
            TransactionStatus::RequiresApproval => "RequiresApproval"@,
        }
    }

    pub fn name(&self) -> (r: String)
        ensures
            r@ == self.name_spec(),
    {
        match self {
            TransactionStatus::Pending => String::from_str("Pending"),
            TransactionStatus::Approved => String::from_str("Approved"),
            TransactionStatus::Rejected => String::from_str("Rejected"),
            TransactionStatus::Flagged => String::from_str("Flagged"),
            TransactionStatus::RequiresApproval => String::from_str("RequiresApproval"),
        }
    }
}

/// A registered user.
#[derive(Debug, Clone, PartialEq, Eq)]
pub struct UserProfile {
    pub user_id: u128,
    pub phone_number: String,
    pub pin_hash: String,
    pub device_info: DeviceInfo,
    pub behavioral_profile: BehavioralProfile,
    /// Seconds since the Unix epoch (UTC).
    pub created_at: i64,
    pub last_login: Option<i64>,
    pub failed_attempts: u32,
    pub is_locked: bool,
}

/// The device a user registered with.
#[derive(Debug, Clone, PartialEq, Eq)]
pub struct DeviceInfo {
    pub device_id: String,
    pub device_type: String,
    pub os_version: Option<String>,
    pub app_version: String,
    pub is_trusted: bool,
    /// Seconds since the Unix epoch (UTC).
    pub registered_at: i64,
}

/// Statistical summary of a user's past transactions.
#[derive(Debug, Clone, PartialEq, Eq)]
pub struct BehavioralProfile {
    /// Mean amount of the sample, in cents (rounded down).
    pub typical_transaction_amount: u64,
    /// Up to three most frequent hours of the day, most frequent first.
    pub typical_transaction_times: Vec<u8>,
    /// Up to five most frequent recipients, most frequent first.
    pub common_recipients: Vec<String>,
    /// Transactions per day, in thousandths (rounded up).
    pub usage_frequency: u64,
}

impl BehavioralProfile {
    /// The profile of a user with no history.
    pub fn empty() -> (r: Self)
        ensures
            r.typical_transaction_amount == 0,
            r.typical_transaction_times@.len() == 0,
            r.common_recipients@.len() == 0,
            r.usage_frequency == 0,
    {
        BehavioralProfile {
            typical_transaction_amount: 0,
            typical_transaction_times: Vec::new(),
            common_recipients: Vec::new(),
            usage_frequency: 0,
        }
    }

    pub fn duplicate(&self) -> (r: Self)
        ensures
            r.typical_transaction_amount == self.typical_transaction_amount,
            r.typical_transaction_times@ == self.typical_transaction_times@,
            r.common_recipients@.map_values(|s: String| s@)
                == self.common_recipients@.map_values(|s: String| s@),
            r.usage_frequency == self.usage_frequency,
    {
        let mut recipients: Vec<String> = Vec::new();
        let mut i: usize = 0;
        while i < self.common_recipients.len()
            invariant
                i <= self.common_recipients@.len(),
                recipients@.len() == i,
                forall|j: int| 0 <= j < i ==> recipients@[j]@ == self.common_recipients@[j]@,
            decreases self.common_recipients@.len() - i,
        {
            recipients.push(self.common_recipients[i].clone());
            i += 1;
        }
        assert(recipients@.map_values(|s: String| s@) =~= self.common_recipients@.map_values(
            |s: String| s@,
        ));
        BehavioralProfile {
            typical_transaction_amount: self.typical_transaction_amount,
            typical_transaction_times: self.typical_transaction_times.clone(),
            common_recipients: recipients,
            usage_frequency: self.usage_frequency,
        }
    }
}

/// Two profiles hold the same values.
pub open spec fn same_profile(a: BehavioralProfile, b: BehavioralProfile) -> bool {
    &&& a.typical_transaction_amount == b.typical_transaction_amount
    &&& a.typical_transaction_times@ == b.typical_transaction_times@
    &&& a.common_recipients@.map_values(|s: String| s@) == b.common_recipients@.map_values(
        |s: String| s@,
    )
    &&& a.usage_frequency == b.usage_frequency
}

/// Two user records hold the same values.
pub open spec fn same_user(a: UserProfile, b: UserProfile) -> bool {
    &&& a.user_id == b.user_id
    &&& a.phone_number == b.phone_number
    &&& a.pin_hash == b.pin_hash
    &&& a.device_info == b.device_info
    &&& same_profile(a.behavioral_profile, b.behavioral_profile)
    &&& a.created_at == b.created_at
    &&& a.last_login == b.last_login
    &&& a.failed_attempts == b.failed_attempts
    &&& a.is_locked == b.is_locked
}

impl DeviceInfo {
    pub fn duplicate(&self) -> (r: Self)
        ensures
            r == *self,
    {
        DeviceInfo {
            device_id: self.device_id.clone(),
            device_type: self.device_type.clone(),
            os_version: match &self.os_version {
                Some(v) => Some(v.clone()),
                None => None,
            },
            app_version: self.app_version.clone(),
            is_trusted: self.is_trusted,
            registered_at: self.registered_at,
        }
    }
}

impl UserProfile {
    pub fn duplicate(&self) -> (r: Self)
        ensures
            same_user(r, *self),
    {
        UserProfile {
            user_id: self.user_id,
            phone_number: self.phone_number.clone(),
            pin_hash: self.pin_hash.clone(),
            device_info: self.device_info.duplicate(),
            behavioral_profile: self.behavioral_profile.duplicate(),
            created_at: self.created_at,
            last_login: self.last_login,
            failed_attempts: self.failed_attempts,
            is_locked: self.is_locked,
        }
    }
}

/// A transaction record.
#[derive(Debug, Clone, PartialEq, Eq)]
pub struct Transaction {
    pub transaction_id: u128,
    pub user_id: u128,
    /// Amount in cents.
    pub amount: u64,
    pub recipient: String,
    pub transaction_type: TransactionType,
    /// Seconds since the Unix epoch (UTC).
    pub timestamp: i64,
    pub device_id: String,
    /// Fraud score in thousandths (0 to 1000).
    pub fraud_score: u64,
    pub status: TransactionStatus,
}

impl Transaction {
    pub fn duplicate(&self) -> (r: Self)
        ensures
            r == *self,
    {
        Transaction {
            transaction_id: self.transaction_id,
            user_id: self.user_id,
            amount: self.amount,
            recipient: self.recipient.clone(),
            transaction_type: self.transaction_type,
            timestamp: self.timestamp,
            device_id: self.device_id.clone(),
            fraud_score: self.fraud_score,
            status: self.status,
        }
    }
}


/// Relies on chrono::Utc::now: the current time in whole seconds since the
/// Unix epoch; nothing is promised of its value.
#[verifier::external_body]
pub(crate) fn now_seconds() -> (r: i64) {
    chrono::Utc::now().timestamp()
}

/// Relies on uuid::Uuid::new_v4: a random identifier; nothing is promised
/// of its value.
#[verifier::external_body]
pub(crate) fn new_id() -> (r: u128) {
    uuid::Uuid::new_v4().as_u128()
}


/// The status a score leads to: rejected above the high threshold, awaiting
/// approval above the medium one, else approved.
pub open spec fn status_for(c: SafeBankConfig, score: int) -> TransactionStatus {
    if score > c.fraud_threshold_high {
        TransactionStatus::Rejected
    } else if score > c.fraud_threshold_medium {
        TransactionStatus::RequiresApproval
    } else {
        TransactionStatus::Approved
    }
}

/// The transaction that a request makes, before scoring.
pub open spec fn request_spec(
    transaction_id: u128,
    user: UserProfile,
    amount: u64,
    recipient: String,
    transaction_type: TransactionType,
    now: i64,
) -> Transaction {
    Transaction {
        transaction_id,
        user_id: user.user_id,
        amount,
        recipient,
        transaction_type,
        timestamp: now,
        device_id: user.device_info.device_id,
        fraud_score: 0,
        status: TransactionStatus::Pending,
    }
}

/// Scores depend on a profile's values only.
pub proof fn lemma_score_by_values(
    c: SafeBankConfig,
    a: BehavioralProfile,
    b: BehavioralProfile,
    t: Transaction,
)
    requires
        same_profile(a, b),
    ensures
        score_spec(c, a, t) == score_spec(c, b, t),
{
}

/// `r`, `txs1` and `limits1` are what a request of user `user_id` gives:
/// an unknown user is refused with nothing changed; otherwise the
/// transaction is made at `now`, scored against the user's active profile,
/// given the status its score leads to, and processed by the ledger; the
/// scoring counters move as the analysis counts it.
pub open spec fn requested(
    c: SafeBankConfig,
    users: Seq<UserProfile>,
    profiles: Map<u128, BehavioralProfile>,
    txs: Seq<Transaction>,
    limits: Map<u128, crate::transaction::DailyLimit>,
    user_id: u128,
    amount: u64,
    recipient: String,
    transaction_type: TransactionType,
    transaction_id: u128,
    now: i64,
    r: Result<Transaction>,
    txs1: Seq<Transaction>,
    limits1: Map<u128, crate::transaction::DailyLimit>,
    stats0: FraudStatistics,
    stats1: FraudStatistics,
) -> bool {
    match crate::auth::user_by_id(users, user_id) {
        None => r matches Err(crate::errors::SafeBankError::UserNotFound { .. })
            && txs1 == txs && limits1 == limits && stats1 == stats0,
        Some(i) => {
            let u = users[i];
            let t0 = request_spec(transaction_id, u, amount, recipient, transaction_type, now);
            let score = score_spec(
                c,
                active_profile(
                    profiles,
                    user_id,
                    u.behavioral_profile,
                ),
                t0,
            );
            let t = Transaction {
                fraud_score: score as u64,
                status: status_for(c, score),
                ..t0
            };
            &&& stats1 == counted(c, stats0, score)
            &&& processed(
                c,
                txs,
                limits,
                t,
                day_of_spec(now as int),
                r,
                txs1,
                limits1,
            )
        },
    }
}

/// The framework: authentication, scoring and the ledger under one
/// configuration.
#[derive(Debug)]
pub struct SafeBankFramework {
    config: SafeBankConfig,
    auth_manager: AuthManager,
    fraud_detector: FraudDetector,
    transaction_manager: TransactionManager,
}

impl SafeBankFramework {
    pub closed spec fn config_spec(&self) -> SafeBankConfig {
        self.config
    }

    pub closed spec fn auth_spec(&self) -> AuthManager {
        self.auth_manager
    }

    pub closed spec fn detector_spec(&self) -> FraudDetector {
        self.fraud_detector
    }

    pub closed spec fn ledger_spec(&self) -> TransactionManager {
        self.transaction_manager
    }

    /// Each part is well formed and holds the framework's configuration.
    pub closed spec fn wf(&self) -> bool {
        &&& self.auth_manager.wf()
        &&& self.transaction_manager.wf()
        &&& self.auth_manager.config_spec() == self.config
        &&& self.fraud_detector.config_spec() == self.config
        &&& self.transaction_manager.config_spec() == self.config
    }

    pub fn new(config: SafeBankConfig) -> (r: Self)
        ensures
            r.wf(),
            r.config_spec() == config,
            r.auth_spec().users_spec().len() == 0,
            r.detector_spec().profiles_spec() == Map::<u128, BehavioralProfile>::empty(),
            r.ledger_spec().transactions_spec().len() == 0,
            r.ledger_spec().limits_spec().len() == 0,
    {
        SafeBankFramework {
            auth_manager: AuthManager::new(&config),
            fraud_detector: FraudDetector::new(&config),
            transaction_manager: TransactionManager::new(&config),
            config,
        }
    }

    /// The configuration.
    pub fn config(&self) -> (r: &SafeBankConfig)
        ensures
            *r == self.config_spec(),
    {
        &self.config
    }

    /// Registers a user (see `AuthManager::register_user`).
    pub fn register_user(&mut self, phone_number: String, pin: String, device_info: DeviceInfo) -> (r:
        Result<UserProfile>)
        requires
            old(self).wf(),
        ensures
            final(self).wf(),
            final(self).config_spec() == old(self).config_spec(),
            final(self).detector_spec() == old(self).detector_spec(),
            final(self).ledger_spec() == old(self).ledger_spec(),
            crate::auth::registered(
                old(self).config_spec(),
                old(self).auth_spec().users_spec(),
                phone_number,
                pin@,
                device_info,
                r,
                final(self).auth_spec().users_spec(),
            ),
            final(self).auth_spec().attempts_spec() == old(self).auth_spec().attempts_spec(),
    {
        self.auth_manager.register_user(phone_number, pin, device_info)
    }

    /// Authenticates a user (see `AuthManager::authenticate`).
    pub fn authenticate_user(&mut self, phone_number: &str, pin: &str, device_id: &str) -> (r: Result<
        UserProfile,
    >)
        requires
            old(self).wf(),
        ensures
            final(self).wf(),
            final(self).config_spec() == old(self).config_spec(),
            final(self).detector_spec() == old(self).detector_spec(),
            final(self).ledger_spec() == old(self).ledger_spec(),
            exists|now: int|
                crate::auth::authenticated(
                    old(self).config_spec(),
                    old(self).auth_spec().users_spec(),
                    old(self).auth_spec().attempts_spec(),
                    phone_number@,
                    pin@,
                    device_id@,
                    now,
                    r,
                    final(self).auth_spec().users_spec(),
                    final(self).auth_spec().attempts_spec(),
                ),
    {
        let r = self.auth_manager.authenticate(phone_number, pin, device_id);
        proof {
            let now = choose|now: int|
                crate::auth::authenticated(
                    old(self).auth_manager.config_spec(),
                    old(self).auth_manager.users_spec(),
                    old(self).auth_manager.attempts_spec(),
                    phone_number@,
                    pin@,
                    device_id@,
                    now,
                    r,
                    self.auth_manager.users_spec(),
                    self.auth_manager.attempts_spec(),
                );
            assert(crate::auth::authenticated(
                old(self).config_spec(),
                old(self).auth_spec().users_spec(),
                old(self).auth_spec().attempts_spec(),
                phone_number@,
                pin@,
                device_id@,
                now,
                r,
                self.auth_spec().users_spec(),
                self.auth_spec().attempts_spec(),
            ));
        }
        r
    }

    /// Makes, scores and records a transaction of a registered user at time
    /// `now`: the score sets its status, then the ledger's rules apply.
    pub fn process_transaction_at(
        &mut self,
        user_id: u128,
        amount: u64,
        recipient: String,
        transaction_type: TransactionType,
        transaction_id: u128,
        now: i64,
    ) -> (r: Result<Transaction>)
        requires
            old(self).wf(),
        ensures
            final(self).wf(),
            final(self).config_spec() == old(self).config_spec(),
            final(self).auth_spec() == old(self).auth_spec(),
            requested(
                old(self).config_spec(),
                old(self).auth_spec().users_spec(),
                old(self).detector_spec().profiles_spec(),
                old(self).ledger_spec().transactions_spec(),
                old(self).ledger_spec().limits_spec(),
                user_id,
                amount,
                recipient,
                transaction_type,
                transaction_id,
                now,
                r,
                final(self).ledger_spec().transactions_spec(),
                final(self).ledger_spec().limits_spec(),
                old(self).detector_spec().statistics_spec(),
                final(self).detector_spec().statistics_spec(),
            ),
            final(self).detector_spec().config_spec() == old(self).detector_spec().config_spec(),
            final(self).detector_spec().profiles_spec() == old(self).detector_spec().profiles_spec(),
    {
        let user = self.auth_manager.get_user_by_id(user_id)?;
        let mut transaction = Transaction {
            transaction_id,
            user_id,
            amount,
            recipient,
            transaction_type,
            timestamp: now,
            device_id: user.device_info.device_id.clone(),
            fraud_score: 0,
            status: TransactionStatus::Pending,
        };
        let ghost t0 = transaction;
        let score = self.fraud_detector.analyze_transaction(&transaction, &user)?;
        proof {
            let i = crate::auth::user_by_id(old(self).auth_spec().users_spec(), user_id)->Some_0;
            let u = old(self).auth_spec().users_spec()[i];
            lemma_score_by_values(
                self.config,
                active_profile(old(self).fraud_detector.profiles_spec(), user_id, user.behavioral_profile),
                active_profile(old(self).fraud_detector.profiles_spec(), user_id, u.behavioral_profile),
                t0,
            );
            assert(u.user_id == user_id);
        }
        transaction.fraud_score = score;
        transaction.status = if score > self.config.fraud_threshold_high {
            TransactionStatus::Rejected
        } else if score > self.config.fraud_threshold_medium {
            TransactionStatus::RequiresApproval
        } else {
            TransactionStatus::Approved
        };
        self.transaction_manager.process_transaction_at(transaction, now)
    }

    /// `process_transaction_at` with a fresh id at the current time.
    pub fn process_transaction(
        &mut self,
        user_id: u128,
        amount: u64,
        recipient: String,
        transaction_type: TransactionType,
    ) -> (r: Result<Transaction>)
        requires
            old(self).wf(),
        ensures
            final(self).wf(),
            final(self).config_spec() == old(self).config_spec(),
            final(self).auth_spec() == old(self).auth_spec(),
            exists|transaction_id: u128, now: i64|
                requested(
                    old(self).config_spec(),
                    old(self).auth_spec().users_spec(),
                    old(self).detector_spec().profiles_spec(),
                    old(self).ledger_spec().transactions_spec(),
                    old(self).ledger_spec().limits_spec(),
                    user_id,
                    amount,
                    recipient,
                    transaction_type,
                    transaction_id,
                    now,
                    r,
                    final(self).ledger_spec().transactions_spec(),
                    final(self).ledger_spec().limits_spec(),
                    old(self).detector_spec().statistics_spec(),
                    final(self).detector_spec().statistics_spec(),
                ),
            final(self).detector_spec().config_spec() == old(self).detector_spec().config_spec(),
            final(self).detector_spec().profiles_spec() == old(self).detector_spec().profiles_spec(),
    {
        let id = new_id();
        let now = now_seconds();
        self.process_transaction_at(user_id, amount, recipient, transaction_type, id, now)
    }

    /// Rebuilds the user's behavioural profile from the ledger's history.
    pub fn update_behavioral_profile(&mut self, user_id: u128) -> (r: Result<()>)
        requires
            old(self).wf(),
        ensures
            final(self).wf(),
            final(self).config_spec() == old(self).config_spec(),
            final(self).auth_spec() == old(self).auth_spec(),
            final(self).ledger_spec() == old(self).ledger_spec(),
            r is Ok,
            ({
                let h = crate::transaction::by_time_desc(
                    crate::transaction::of_user(old(self).ledger_spec().transactions_spec(), user_id),
                );
                h.len() > 0 ==> final(self).detector_spec().profiles_spec().contains_key(user_id)
                    && crate::fraud_detection::profile_from(
                    h,
                    final(self).detector_spec().profiles_spec()[user_id],
                )
            }),
    {
        let transactions = self.transaction_manager.get_user_transactions(user_id)?;
        self.fraud_detector.update_behavioral_profile(user_id, transactions.as_slice())
    }

    /// The scoring counters.
    pub fn get_fraud_statistics(&self) -> (r: FraudStatistics)
        ensures
            r == self.detector_spec().statistics_spec(),
    {
        self.fraud_detector.get_statistics()
    }
}

} // verus!
