//! Risk scoring: a fraud score in thousandths with its explanation, and the
//! behavioural profiles that scoring compares against.
use crate::config::SafeBankConfig;
use crate::errors::{format_money, money_text, Result};
use std::collections::HashMap;
use crate::{hour_of, hour_of_spec, BehavioralProfile, Transaction, UserProfile};
use vstd::prelude::*;

verus! {

broadcast use vstd::std_specs::hash::group_hash_axioms;

/// Counters kept for observability.
#[derive(Debug, Clone, Copy, Default, PartialEq, Eq, Structural)]
pub struct FraudStatistics {
    pub total_transactions_analyzed: u64,
    pub transactions_flagged: u64,
    pub transactions_blocked: u64,
    pub fraud_detected: u64,
}

/// One explainable part of a score; its score is in thousandths.
#[derive(Debug, Clone, PartialEq, Eq)]
pub struct RiskFactor {
    pub factor_type: RiskFactorType,
    pub score: u64,
    pub description: String,
}

#[derive(Debug, Clone, Copy, PartialEq, Eq, Structural)]
pub enum RiskFactorType {
    AmountAnomaly,
    TimeAnomaly,
    FrequencyAnomaly,
    RecipientAnomaly,
    LocationAnomaly,
    DeviceAnomaly,
    BehaviorPattern,
}

#[derive(Debug, Clone, Copy, PartialEq, Eq, Structural)]
pub enum FraudRecommendation {
    Approve,
    Flag,
    Block,
    RequireAdditionalAuth,
}

/// A score in thousandths, its explanation, and what to do about it.
#[derive(Debug, Clone, PartialEq, Eq)]
pub struct FraudAnalysisResult {
    pub fraud_score: u64,
    pub risk_factors: Vec<RiskFactor>,
    pub recommendation: FraudRecommendation,
}

#[derive(Debug)]
pub struct FraudDetector {
    config: SafeBankConfig,
    user_profiles: HashMap<u128, BehavioralProfile>,
    fraud_statistics: FraudStatistics,
}

// ---------------------------------------------------------------- scoring

/// The recipients of a profile, as character sequences.
pub open spec fn recipients_view(p: BehavioralProfile) -> Seq<Seq<char>> {
    p.common_recipients@.map_values(|s: String| s@)
}

/// Amount anomaly, in thousandths: how far the amount strays from the
/// typical one, as the ratio of the larger to the smaller.
pub open spec fn amount_subscore(amount: int, typical: int) -> int {
    if typical == 0 {
        0
    } else {
        let hi = if amount > typical { amount } else { typical };
        let lo = if amount > typical { typical } else { amount };
        if hi > 5 * lo {
            800
        } else if hi > 3 * lo {
            600
        } else if hi > 2 * lo {
            400
        } else {
            0
        }
    }
}

/// Distance between two hours on a 24-hour clock.
pub open spec fn circular_distance(a: int, b: int) -> int {
    let d = if a >= b { a - b } else { b - a };
    if d <= 24 - d { d } else { 24 - d }
}

/// Time anomaly, in thousandths.
pub open spec fn time_subscore(hour: int, typical: Seq<u8>) -> int {
    if typical.len() == 0 {
        0
    } else if exists|i: int| 0 <= i < typical.len() && typical[i] as int == hour {
        0
    } else if exists|i: int|
        0 <= i < typical.len() && circular_distance(hour, typical[i] as int) <= 2 {
        200
    } else {
        500
    }
}

/// Frequency anomaly, in thousandths; the frequency is in thousandths of a
/// transaction per day.
pub open spec fn frequency_subscore(frequency: int) -> int {
    if frequency > 10_000 {
        300
    } else {
        0
    }
}

/// Recipient anomaly, in thousandths.
pub open spec fn recipient_subscore(recipient: Seq<char>, known: Seq<Seq<char>>) -> int {
    if known.len() == 0 {
        100
    } else if exists|i: int| 0 <= i < known.len() && known[i] == recipient {
        0
    } else {
        300
    }
}

/// Limit proximity, in thousandths.
pub open spec fn limit_subscore(amount: int, limit: int) -> int {
    if amount > limit {
        1000
    } else if 5 * amount >= 4 * limit {
        500
    } else {
        0
    }
}

/// The weighted sum of the five sub-scores (weights 30, 20, 25, 15 and 10
/// percent), clamped to 1000.
pub open spec fn full_score(t: Transaction, p: BehavioralProfile, limit: int) -> int {
    let sum = (amount_subscore(t.amount as int, p.typical_transaction_amount as int) * 30
        + time_subscore(hour_of_spec(t.timestamp as int), p.typical_transaction_times@) * 20
        + frequency_subscore(p.usage_frequency as int) * 25 + recipient_subscore(
        t.recipient@,
        recipients_view(p),
    ) * 15 + limit_subscore(t.amount as int, limit) * 10) / 100;
    if sum > 1000 {
        1000
    } else {
        sum
    }
}

/// The rule-based score of lightweight mode, in thousandths.
pub open spec fn lightweight_score(amount: int, timestamp: int, limit: int) -> int {
    (if 5 * amount > 4 * limit {
        400int
    } else {
        0
    }) + (if hour_of_spec(timestamp) >= 23 || hour_of_spec(timestamp) <= 5 {
        200int
    } else {
        0
    }) + (if amount % 10_000 == 0 && amount >= 100_000 {
        100int
    } else {
        0
    })
}

/// The score of a transaction under a configuration and a profile.
pub open spec fn score_spec(c: SafeBankConfig, p: BehavioralProfile, t: Transaction) -> int {
    if c.enable_behavioral_analysis {
        full_score(t, p, c.single_transaction_limit as int)
    } else {
        lightweight_score(t.amount as int, t.timestamp as int, c.single_transaction_limit as int)
    }
}

/// Amount anomaly of an amount against a typical amount, both in cents.
pub fn amount_anomaly(amount: u64, typical: u64) -> (r: u64)
    ensures
        r as int == amount_subscore(amount as int, typical as int),
{
    if typical == 0 {
        return 0;
    }
    let hi: u128 = if amount > typical { amount as u128 } else { typical as u128 };
    let lo: u128 = if amount > typical { typical as u128 } else { amount as u128 };
    if hi > 5 * lo {
        800
    } else if hi > 3 * lo {
        600
    } else if hi > 2 * lo {
        400
    } else {
        0
    }
}

/// Time anomaly of an hour against the typical hours.
pub fn time_anomaly(hour: u8, typical: &Vec<u8>) -> (r: u64)
    ensures
        r as int == time_subscore(hour as int, typical@),
{
    if typical.len() == 0 {
        return 0;
    }
    let mut i: usize = 0;
    while i < typical.len()
        invariant
            i <= typical@.len(),
            forall|j: int| 0 <= j < i ==> typical@[j] != hour,
        decreases typical@.len() - i,
    {
        if typical[i] == hour {
            return 0;
        }
        i += 1;
    }
    let mut k: usize = 0;
    while k < typical.len()
        invariant
            k <= typical@.len(),
            typical@.len() > 0,
            forall|j: int| 0 <= j < typical@.len() ==> typical@[j] != hour,
            forall|j: int| 0 <= j < k ==> circular_distance(hour as int, typical@[j] as int) > 2,
        decreases typical@.len() - k,
    {
        let t = typical[k];
        let d: u8 = if hour >= t { hour - t } else { t - hour };
        let c: i16 = if (d as i16) <= 24 - (d as i16) { d as i16 } else { 24 - (d as i16) };
        if c <= 2 {
            assert(circular_distance(hour as int, typical@[k as int] as int) <= 2);
            return 200;
        }
        k += 1;
    }
    500
}

/// Frequency anomaly of a frequency in thousandths of a transaction per day.
pub fn frequency_anomaly(frequency: u64) -> (r: u64)
    ensures
        r as int == frequency_subscore(frequency as int),
{
    if frequency > 10_000 {
        300
    } else {
        0
    }
}

/// Recipient anomaly of a recipient against the known ones.
pub fn recipient_anomaly(recipient: &String, known: &Vec<String>) -> (r: u64)
    ensures
        r as int == recipient_subscore(recipient@, known@.map_values(|s: String| s@)),
{
    let ghost kv = known@.map_values(|s: String| s@);
    if known.len() == 0 {
        return 100;
    }
    let mut i: usize = 0;
    while i < known.len()
        invariant
            i <= known@.len(),
            kv == known@.map_values(|s: String| s@),
            forall|j: int| 0 <= j < i ==> kv[j] != recipient@,
        decreases known@.len() - i,
    {
        if known[i] == *recipient {
            assert(kv[i as int] == recipient@);
            return 0;
        }
        i += 1;
    }
    300
}

/// Limit proximity of an amount against the single-transaction limit.
pub fn limit_proximity(amount: u64, limit: u64) -> (r: u64)
    ensures
        r as int == limit_subscore(amount as int, limit as int),
{
    if amount > limit {
        1000
    } else if 5 * (amount as u128) >= 4 * (limit as u128) {
        500
    } else {
        0
    }
}

/// The lightweight, rule-based score: a large amount, a night hour, a round
/// amount of at least 1000 units.
pub fn simple_fraud_detection(transaction: &Transaction, single_transaction_limit: u64) -> (r: u64)
    ensures
        r as int == lightweight_score(
            transaction.amount as int,
            transaction.timestamp as int,
            single_transaction_limit as int,
        ),
        r <= 700,
{
    let mut score: u64 = 0;
    if 5 * (transaction.amount as u128) > 4 * (single_transaction_limit as u128) {
        score += 400;
    }
    let hour = hour_of(transaction.timestamp);
    if hour >= 23 || hour <= 5 {
        score += 200;
    }
    if transaction.amount % 10_000 == 0 && transaction.amount >= 100_000 {
        score += 100;
    }
    score
}

/// What an explanation holds: each of the first four sub-scores that is
/// above zero, in the order amount, time, frequency, recipient.
pub open spec fn expected_factors(t: Transaction, p: BehavioralProfile) -> Seq<
    (RiskFactorType, int, Seq<char>),
> {
    let a = amount_subscore(t.amount as int, p.typical_transaction_amount as int);
    let h = time_subscore(hour_of_spec(t.timestamp as int), p.typical_transaction_times@);
    let f = frequency_subscore(p.usage_frequency as int);
    let r = recipient_subscore(t.recipient@, recipients_view(p));
    let s0 = Seq::<(RiskFactorType, int, Seq<char>)>::empty();
    let s1 = if a > 0 {
        s0.push(
            (
                RiskFactorType::AmountAnomaly,
                a,
                "Transaction amount $"@ + money_text(t.amount as nat)
                    + " deviates from typical pattern"@,
            ),
        )
    } else {
        s0
    };
    let s2 = if h > 0 {
        s1.push((RiskFactorType::TimeAnomaly, h, "Transaction time unusual for user"@))
    } else {
        s1
    };
    let s3 = if f > 0 {
        s2.push((RiskFactorType::FrequencyAnomaly, f, "Unusual transaction frequency detected"@))
    } else {
        s2
    };
    if r > 0 {
        s3.push((RiskFactorType::RecipientAnomaly, r, "Transaction to new or unusual recipient"@))
    } else {
        s3
    }
}

/// The factors of an explanation as (type, score, description).
pub open spec fn factors_view(v: Seq<RiskFactor>) -> Seq<(RiskFactorType, int, Seq<char>)> {
    v.map_values(|f: RiskFactor| (f.factor_type, f.score as int, f.description@))
}

/// Block above the high threshold, flag above the medium one, else approve.
pub open spec fn recommendation_spec(c: SafeBankConfig, score: int) -> FraudRecommendation {
    if score > c.fraud_threshold_high {
        FraudRecommendation::Block
    } else if score > c.fraud_threshold_medium {
        FraudRecommendation::Flag
    } else {
        FraudRecommendation::Approve
    }
}

/// The profile that scoring uses: the one kept for the user, else the one
/// that the user's record carries.
pub open spec fn active_profile(
    kept: Map<u128, BehavioralProfile>,
    user_id: u128,
    carried: BehavioralProfile,
) -> BehavioralProfile {
    if kept.contains_key(user_id) {
        kept[user_id]
    } else {
        carried
    }
}

/// The counters after analysing a transaction with this score: in full
/// mode one more analysis, one more flagged above the medium threshold and
/// one more blocked above the high one; in lightweight mode no change.
pub open spec fn counted(c: SafeBankConfig, s0: FraudStatistics, score: int) -> FraudStatistics {
    if c.enable_behavioral_analysis {
        FraudStatistics {
            total_transactions_analyzed: bump(s0.total_transactions_analyzed, true),
            transactions_flagged: bump(s0.transactions_flagged, score > c.fraud_threshold_medium),
            transactions_blocked: bump(s0.transactions_blocked, score > c.fraud_threshold_high),
            fraud_detected: s0.fraud_detected,
        }
    } else {
        s0
    }
}

/// Adds one to a counter, staying at the largest value.
pub open spec fn bump(n: u64, by: bool) -> u64 {
    if by && n < u64::MAX {
        (n + 1) as u64
    } else {
        n
    }
}

fn push_factor(
    v: &mut Vec<RiskFactor>,
    factor_type: RiskFactorType,
    score: u64,
    description: String,
)
    ensures
        factors_view(final(v)@) == factors_view(old(v)@).push(
            (factor_type, score as int, description@),
        ),
{
    v.push(RiskFactor { factor_type, score, description });
    assert(factors_view(v@) =~= factors_view(old(v)@).push((factor_type, score as int, description@)));
}

/// The full, behavioural analysis of a transaction against a profile.
pub fn analyze_with_profile(
    transaction: &Transaction,
    profile: &BehavioralProfile,
    single_transaction_limit: u64,
) -> (r: (u64, Vec<RiskFactor>))
    ensures
        r.0 as int == full_score(*transaction, *profile, single_transaction_limit as int),
        factors_view(r.1@) == expected_factors(*transaction, *profile),
{
    let mut factors: Vec<RiskFactor> = Vec::new();
    let a = amount_anomaly(transaction.amount, profile.typical_transaction_amount);
    if a > 0 {
        let m = format_money(transaction.amount);
        let d = String::from_str("Transaction amount $").concat(m.as_str()).concat(
            " deviates from typical pattern",
        );
        push_factor(&mut factors, RiskFactorType::AmountAnomaly, a, d);
    }
    let h = time_anomaly(hour_of(transaction.timestamp), &profile.typical_transaction_times);
    if h > 0 {
        push_factor(
            &mut factors,
            RiskFactorType::TimeAnomaly,
            h,
            String::from_str("Transaction time unusual for user"),
        );
    }
    let f = frequency_anomaly(profile.usage_frequency);
    if f > 0 {
        push_factor(
            &mut factors,
            RiskFactorType::FrequencyAnomaly,
            f,
            String::from_str("Unusual transaction frequency detected"),
        );
    }
    let rc = recipient_anomaly(&transaction.recipient, &profile.common_recipients);
    if rc > 0 {
        push_factor(
            &mut factors,
            RiskFactorType::RecipientAnomaly,
            rc,
            String::from_str("Transaction to new or unusual recipient"),
        );
    }
    let l = limit_proximity(transaction.amount, single_transaction_limit);
    let sum: u64 = (a * 30 + h * 20 + f * 25 + rc * 15 + l * 10) / 100;
    let score = if sum > 1000 {
        1000
    } else {
        sum
    };
    assert(factors_view(factors@) =~= expected_factors(*transaction, *profile));
    (score, factors)
}

impl FraudDetector {
    pub closed spec fn config_spec(&self) -> SafeBankConfig {
        self.config
    }

    pub closed spec fn profiles_spec(&self) -> Map<u128, BehavioralProfile> {
        self.user_profiles@
    }

    pub closed spec fn statistics_spec(&self) -> FraudStatistics {
        self.fraud_statistics
    }

    pub fn new(config: &SafeBankConfig) -> (r: Self)
        ensures
            r.config_spec() == *config,
            r.profiles_spec() == Map::<u128, BehavioralProfile>::empty(),
            r.statistics_spec() == FraudStatistics::default_spec(),
    {
        FraudDetector {
            config: config.duplicate(),
            user_profiles: HashMap::new(),
            fraud_statistics: FraudStatistics::zero(),
        }
    }

    /// The profile kept for a user, if any.
    pub fn profile_of(&self, user_id: u128) -> (r: Option<&BehavioralProfile>)
        ensures
            r matches Some(p) ==> self.profiles_spec().contains_key(user_id)
                && self.profiles_spec()[user_id] == *p,
            r is None <==> !self.profiles_spec().contains_key(user_id),
    {
        self.user_profiles.get(&user_id)
    }

    /// Scores a transaction and explains the score, without counting it.
    pub fn assess(&self, transaction: &Transaction, user: &UserProfile) -> (r: FraudAnalysisResult)
        ensures
            ({
                let p = active_profile(self.profiles_spec(), transaction.user_id, user.behavioral_profile);
                &&& r.fraud_score as int == score_spec(self.config_spec(), p, *transaction)
                &&& self.config_spec().enable_behavioral_analysis ==> factors_view(r.risk_factors@)
                    == expected_factors(*transaction, p)
                &&& !self.config_spec().enable_behavioral_analysis ==> r.risk_factors@.len() == 0
                &&& r.recommendation == recommendation_spec(self.config_spec(), r.fraud_score as int)
            }),
    {
        let (score, factors) = if !self.config.enable_behavioral_analysis {
            (simple_fraud_detection(transaction, self.config.single_transaction_limit), Vec::new())
        } else {
            let profile = match self.profile_of(transaction.user_id) {
                Some(p) => p,
                None => &user.behavioral_profile,
            };
            analyze_with_profile(transaction, profile, self.config.single_transaction_limit)
        };
        let recommendation = if score > self.config.fraud_threshold_high {
            FraudRecommendation::Block
        } else if score > self.config.fraud_threshold_medium {
            FraudRecommendation::Flag
        } else {
            FraudRecommendation::Approve
        };
        FraudAnalysisResult { fraud_score: score, risk_factors: factors, recommendation }
    }

    /// Scores and explains a transaction. In full mode the analysis is
    /// counted, and so are scores above the medium (flagged) and high
    /// (blocked) thresholds.
    pub fn analyze_transaction_detailed(&mut self, transaction: &Transaction, user: &UserProfile) -> (r:
        Result<FraudAnalysisResult>)
        ensures
            final(self).config_spec() == old(self).config_spec(),
            final(self).profiles_spec() == old(self).profiles_spec(),
            r matches Ok(a) && ({
                let p = active_profile(old(self).profiles_spec(), transaction.user_id, user.behavioral_profile);
                &&& a.fraud_score as int == score_spec(old(self).config_spec(), p, *transaction)
                &&& old(self).config_spec().enable_behavioral_analysis ==> factors_view(a.risk_factors@)
                    == expected_factors(*transaction, p)
                &&& !old(self).config_spec().enable_behavioral_analysis ==> a.risk_factors@.len() == 0
                &&& a.recommendation == recommendation_spec(old(self).config_spec(), a.fraud_score as int)
                &&& final(self).statistics_spec() == counted(
                    old(self).config_spec(),
                    old(self).statistics_spec(),
                    a.fraud_score as int,
                )
            }),
    {
        let a = self.assess(transaction, user);
        let score = a.fraud_score;
        if self.config.enable_behavioral_analysis {
            let st = &mut self.fraud_statistics;
            st.total_transactions_analyzed = st.total_transactions_analyzed.saturating_add(1);
            if score > self.config.fraud_threshold_medium {
                st.transactions_flagged = st.transactions_flagged.saturating_add(1);
            }
            if score > self.config.fraud_threshold_high {
                st.transactions_blocked = st.transactions_blocked.saturating_add(1);
            }
        }
        Ok(a)
    }

    /// Scores a transaction (see `analyze_transaction_detailed`, which also
    /// returns the explanation).
    pub fn analyze_transaction(&mut self, transaction: &Transaction, user: &UserProfile) -> (r:
        Result<u64>)
        ensures
            final(self).config_spec() == old(self).config_spec(),
            final(self).profiles_spec() == old(self).profiles_spec(),
            r matches Ok(score) && score as int == score_spec(
                old(self).config_spec(),
                active_profile(old(self).profiles_spec(), transaction.user_id, user.behavioral_profile),
                *transaction,
            ) && final(self).statistics_spec() == counted(
                old(self).config_spec(),
                old(self).statistics_spec(),
                score as int,
            ),
    {
        let a = self.analyze_transaction_detailed(transaction, user)?;
        Ok(a.fraud_score)
    }

    /// The counters.
    pub fn get_statistics(&self) -> (r: FraudStatistics)
        ensures
            r == self.statistics_spec(),
    {
        self.fraud_statistics
    }

    /// Counts a transaction confirmed as fraud; the scoring does not learn
    /// from it.
    pub fn mark_as_fraud(&mut self, _transaction_id: u128, _is_fraud: bool)
        ensures
            final(self).statistics_spec().fraud_detected == bump(
                old(self).statistics_spec().fraud_detected,
                true,
            ),
            final(self).statistics_spec().total_transactions_analyzed == old(
                self,
            ).statistics_spec().total_transactions_analyzed,
            final(self).statistics_spec().transactions_flagged == old(
                self,
            ).statistics_spec().transactions_flagged,
            final(self).statistics_spec().transactions_blocked == old(
                self,
            ).statistics_spec().transactions_blocked,
            final(self).config_spec() == old(self).config_spec(),
            final(self).profiles_spec() == old(self).profiles_spec(),
    {
        self.fraud_statistics.fraud_detected = self.fraud_statistics.fraud_detected.saturating_add(
            1,
        );
    }

    /// Sets every counter back to zero.
    pub fn reset_statistics(&mut self)
        ensures
            final(self).statistics_spec() == FraudStatistics::default_spec(),
            final(self).config_spec() == old(self).config_spec(),
            final(self).profiles_spec() == old(self).profiles_spec(),
    {
        self.fraud_statistics = FraudStatistics::zero();
    }
}

impl FraudStatistics {
    pub open spec fn default_spec() -> FraudStatistics {
        FraudStatistics {
            total_transactions_analyzed: 0,
            transactions_flagged: 0,
            transactions_blocked: 0,
            fraud_detected: 0,
        }
    }

    pub fn zero() -> (r: Self)
        ensures
            r == Self::default_spec(),
    {
        FraudStatistics {
            total_transactions_analyzed: 0,
            transactions_flagged: 0,
            transactions_blocked: 0,
            fraud_detected: 0,
        }
    }
}

// ------------------------------------------------------- profile rebuild

/// `a` ranks before `b`: a higher count, or an equal count and an earlier
/// position.
pub open spec fn ranked_before(c: Seq<int>, a: int, b: int) -> bool {
    c[a] > c[b] || (c[a] == c[b] && a < b)
}

/// Position `x` is among the selected ones.
pub open spec fn selected(r: Seq<int>, x: int) -> bool {
    exists|i: int| 0 <= i < r.len() && r[i] == x
}

/// `r` lists the positions of the (up to) `k` highest positive counts of
/// `c`, best first; ties go to the earlier position.
pub open spec fn is_top_selection(c: Seq<int>, k: int, r: Seq<int>) -> bool {
    &&& r.len() <= k
    &&& forall|i: int| 0 <= i < r.len() ==> 0 <= #[trigger] r[i] < c.len() && c[r[i]] > 0
    &&& forall|i: int, j: int|
        0 <= i < j < r.len() ==> ranked_before(c, #[trigger] r[i], #[trigger] r[j])
    &&& forall|x: int|
        0 <= x < c.len() && c[x] > 0 && !selected(r, x) ==> r.len() == k && forall|i: int|
            0 <= i < r.len() ==> ranked_before(c, #[trigger] r[i], x)
}

/// Selects the positions of the (up to) `k` highest positive counts, best
/// first, ties going to the earlier position.
pub fn top_ranked(counts: &Vec<u64>, k: usize) -> (r: Vec<usize>)
    ensures
        is_top_selection(
            counts@.map_values(|c: u64| c as int),
            k as int,
            r@.map_values(|i: usize| i as int),
        ),
{
    let ghost c = counts@.map_values(|v: u64| v as int);
    let n = counts.len();
    let mut r: Vec<usize> = Vec::new();
    while r.len() < k
        invariant
            n == counts@.len(),
            c == counts@.map_values(|v: u64| v as int),
            r@.len() <= k,
            forall|i: int| 0 <= i < r@.len() ==> 0 <= #[trigger] r@[i] < n && c[r@[i] as int] > 0,
            forall|i: int, j: int|
                0 <= i < j < r@.len() ==> ranked_before(c, #[trigger] r@[i] as int, #[trigger] r@[j] as int),
            forall|x: int|
                0 <= x < n && c[x] > 0 && !selected(r@.map_values(|i: usize| i as int), x)
                    ==> forall|i: int| 0 <= i < r@.len() ==> ranked_before(c, #[trigger] r@[i] as int, x),
        ensures
            r@.len() <= k,
            forall|i: int| 0 <= i < r@.len() ==> 0 <= #[trigger] r@[i] < n && c[r@[i] as int] > 0,
            forall|i: int, j: int|
                0 <= i < j < r@.len() ==> ranked_before(c, #[trigger] r@[i] as int, #[trigger] r@[j] as int),
            forall|x: int|
                0 <= x < n && c[x] > 0 && !selected(r@.map_values(|i: usize| i as int), x)
                    ==> r@.len() == k && forall|i: int| 0 <= i < r@.len() ==> ranked_before(c, #[trigger] r@[i] as int, x),
        decreases k - r@.len(),
    {
        let ghost rv = r@.map_values(|i: usize| i as int);
        let mut best: Option<usize> = None;
        let mut x: usize = 0;
        while x < n
            invariant
                n == counts@.len(),
                c == counts@.map_values(|v: u64| v as int),
                rv == r@.map_values(|i: usize| i as int),
                x <= n,
                best matches Some(b) ==> b < x && c[b as int] > 0 && !selected(rv, b as int),
                best matches Some(b) ==> forall|y: int|
                    0 <= y < x && c[y] > 0 && !selected(rv, y) && y != b ==> ranked_before(c, b as int, y),
                best is None ==> forall|y: int| 0 <= y < x ==> !(c[y] > 0 && !selected(rv, y)),
            decreases n - x,
        {
            if counts[x] > 0 {
                let mut taken = false;
                let mut j: usize = 0;
                while j < r.len()
                    invariant
                        j <= r@.len(),
                        rv == r@.map_values(|i: usize| i as int),
                        taken <==> selected(rv.subrange(0, j as int), x as int),
                    decreases r@.len() - j,
                {
                    if r[j] == x {
                        taken = true;
                    }
                    proof {
                        let s0 = rv.subrange(0, j as int);
                        let s1 = rv.subrange(0, j as int + 1);
                        if selected(s1, x as int) {
                            let w = choose|i: int| 0 <= i < s1.len() && s1[i] == x as int;
                            if w < j {
                                assert(s0[w] == x as int);
                            }
                        }
                        if selected(s0, x as int) {
                            let w = choose|i: int| 0 <= i < s0.len() && s0[i] == x as int;
                            assert(s1[w] == x as int);
                        }
                        if r@[j as int] == x {
                            assert(s1[j as int] == x as int);
                        }
                    }
                    j += 1;
                }
                assert(rv.subrange(0, r@.len() as int) =~= rv);
                if !taken {
                    match best {
                        None => {
                            best = Some(x);
                        },
                        Some(b) => {
                            if counts[x] > counts[b] {
                                best = Some(x);
                            }
                        },
                    }
                }
            }
            x += 1;
        }
        match best {
            None => {
                assert forall|y: int|
                    0 <= y < c.len() && c[y] > 0 && !selected(rv, y) implies false by {}
                break;
            },
            Some(b) => {
                let ghost old_r = r@;
                r.push(b);
                proof {
                    let nv = r@.map_values(|i: usize| i as int);
                    assert forall|y: int|
                        0 <= y < n && c[y] > 0 && !selected(nv, y) implies forall|i: int|
                            0 <= i < r@.len() ==> ranked_before(c, #[trigger] r@[i] as int, y) by {
                        if selected(rv, y) {
                            let w = choose|i: int| 0 <= i < rv.len() && rv[i] == y;
                            assert(nv[w] == y);
                        }
                        assert(nv[old_r.len() as int] == b as int);
                        assert(y != b as int);
                        assert forall|i: int| 0 <= i < r@.len() implies ranked_before(
                            c,
                            #[trigger] r@[i] as int,
                            y,
                        ) by {
                            if i < old_r.len() {
                                assert(r@[i] == old_r[i]);
                            }
                        }
                    }
                    assert forall|i: int, j: int|
                        0 <= i < j < r@.len() implies ranked_before(
                        c,
                        #[trigger] r@[i] as int,
                        #[trigger] r@[j] as int,
                    ) by {
                        if j == old_r.len() {
                            assert(r@[i] == old_r[i]);
                            assert(!selected(rv, b as int));
                        } else {
                            assert(r@[i] == old_r[i]);
                            assert(r@[j] == old_r[j]);
                        }
                    }
                }
            },
        }
    }
    proof {
        let rv = r@.map_values(|i: usize| i as int);
        assert forall|x: int|
            0 <= x < c.len() && c[x] > 0 && !selected(rv, x) implies rv.len() == k && forall|i: int|
                0 <= i < rv.len() ==> ranked_before(c, #[trigger] rv[i], x) by {
            assert forall|i: int| 0 <= i < rv.len() implies ranked_before(c, #[trigger] rv[i], x) by {
                assert(rv[i] == r@[i] as int);
            }
        }
    }
    r
}


/// How many transactions of `txs` fall in hour `h`.
pub open spec fn hour_count(txs: Seq<Transaction>, h: int) -> int
    decreases txs.len(),
{
    if txs.len() == 0 {
        0
    } else {
        hour_count(txs.drop_last(), h) + if hour_of_spec(txs.last().timestamp as int) == h {
            1int
        } else {
            0
        }
    }
}

/// The count of each hour of the day, 0 to 23.
pub open spec fn hour_counts(txs: Seq<Transaction>) -> Seq<int> {
    Seq::new(24, |h: int| hour_count(txs, h))
}

/// The recipients of `txs`, in order.
pub open spec fn recipients_of(txs: Seq<Transaction>) -> Seq<Seq<char>> {
    txs.map_values(|t: Transaction| t.recipient@)
}

/// How many times `x` occurs in `s`.
pub open spec fn occurrences(s: Seq<Seq<char>>, x: Seq<char>) -> int
    decreases s.len(),
{
    if s.len() == 0 {
        0
    } else {
        occurrences(s.drop_last(), x) + if s.last() == x {
            1int
        } else {
            0
        }
    }
}

/// The distinct elements of `s`, in the order of their first occurrence.
pub open spec fn first_seen(s: Seq<Seq<char>>) -> Seq<Seq<char>>
    decreases s.len(),
{
    if s.len() == 0 {
        Seq::empty()
    } else {
        let p = first_seen(s.drop_last());
        if p.contains(s.last()) {
            p
        } else {
            p.push(s.last())
        }
    }
}

/// The count of each distinct recipient, in order of first occurrence.
pub open spec fn recipient_counts(txs: Seq<Transaction>) -> Seq<int> {
    let rs = recipients_of(txs);
    first_seen(rs).map_values(|x: Seq<char>| occurrences(rs, x))
}

/// Sum of the amounts of `txs`.
pub open spec fn sum_amounts(txs: Seq<Transaction>) -> int
    decreases txs.len(),
{
    if txs.len() == 0 {
        0
    } else {
        sum_amounts(txs.drop_last()) + txs.last().amount
    }
}

/// Earliest timestamp of a non-empty `txs`.
pub open spec fn earliest(txs: Seq<Transaction>) -> int
    decreases txs.len(),
{
    if txs.len() <= 1 {
        txs[0].timestamp as int
    } else {
        let e = earliest(txs.drop_last());
        if (txs.last().timestamp as int) < e {
            txs.last().timestamp as int
        } else {
            e
        }
    }
}

/// Latest timestamp of a non-empty `txs`.
pub open spec fn latest(txs: Seq<Transaction>) -> int
    decreases txs.len(),
{
    if txs.len() <= 1 {
        txs[0].timestamp as int
    } else {
        let e = latest(txs.drop_last());
        if (txs.last().timestamp as int) > e {
            txs.last().timestamp as int
        } else {
            e
        }
    }
}

/// Whole days between the earliest and the latest transaction, at least one.
pub open spec fn span_days(txs: Seq<Transaction>) -> int {
    let d = (latest(txs) - earliest(txs)) / 86400;
    if d < 1 {
        1
    } else {
        d
    }
}

/// Transactions per day in thousandths, rounded up (so that a rate above
/// ten a day stays above 10 000), held to the largest `u64`.
pub open spec fn frequency_spec(n: int, days: int) -> int {
    let f = (n * 1000 + days - 1) / days;
    if f > u64::MAX {
        u64::MAX as int
    } else {
        f
    }
}

/// `p` is the profile that a non-empty sample `txs` yields.
pub open spec fn profile_from(txs: Seq<Transaction>, p: BehavioralProfile) -> bool {
    &&& p.typical_transaction_amount == sum_amounts(txs) / txs.len() as int
    &&& is_top_selection(
        hour_counts(txs),
        3,
        p.typical_transaction_times@.map_values(|h: u8| h as int),
    )
    &&& exists|sel: Seq<int>|
        is_top_selection(recipient_counts(txs), 5, sel) && recipients_view(p) == sel.map_values(
            |j: int| first_seen(recipients_of(txs))[j],
        )
    &&& p.usage_frequency == frequency_spec(txs.len() as int, span_days(txs))
}

proof fn lemma_first_seen_has(s: Seq<Seq<char>>, x: Seq<char>)
    requires
        occurrences(s, x) > 0,
    ensures
        first_seen(s).contains(x),
    decreases s.len(),
{
    if s.last() == x {
        let p = first_seen(s.drop_last());
        if !p.contains(x) {
            assert(first_seen(s)[p.len() as int] == x);
        }
    } else {
        lemma_first_seen_has(s.drop_last(), x);
        let p = first_seen(s.drop_last());
        let w = choose|i: int| 0 <= i < p.len() && p[i] == x;
        assert(first_seen(s)[w] == x);
    }
}

proof fn lemma_occurrences_nonneg(s: Seq<Seq<char>>, x: Seq<char>)
    ensures
        0 <= occurrences(s, x) <= s.len(),
    decreases s.len(),
{
    if s.len() > 0 {
        lemma_occurrences_nonneg(s.drop_last(), x);
    }
}

proof fn lemma_hour_count_bound(s: Seq<Transaction>, h: int)
    ensures
        0 <= hour_count(s, h) <= s.len(),
    decreases s.len(),
{
    if s.len() > 0 {
        lemma_hour_count_bound(s.drop_last(), h);
    }
}

/// Counts the transactions of each hour of the day.
fn count_hours(txs: &[Transaction]) -> (r: Vec<u64>)
    ensures
        r@.map_values(|c: u64| c as int) == hour_counts(txs@),
{
    let mut counts: Vec<u64> = vec![0u64; 24];
    let mut i: usize = 0;
    while i < txs.len()
        invariant
            i <= txs@.len(),
            counts@.len() == 24,
            forall|h: int| 0 <= h < 24 ==> #[trigger] counts@[h] as int == hour_count(txs@.subrange(0, i as int), h),
        decreases txs@.len() - i,
    {
        let h = hour_of(txs[i].timestamp) as usize;
        proof {
            assert(txs@.subrange(0, i as int + 1).drop_last() =~= txs@.subrange(0, i as int));
            lemma_hour_count_bound(txs@.subrange(0, i as int), h as int);
        }
        let v = counts[h];
        counts.set(h, v + 1);
        i += 1;
    }
    assert(txs@.subrange(0, txs@.len() as int) =~= txs@);
    assert(counts@.map_values(|c: u64| c as int) =~= hour_counts(txs@));
    counts
}

/// Lists the distinct recipients in order of first occurrence, with how
/// often each occurs.
fn count_recipients(txs: &[Transaction]) -> (r: (Vec<String>, Vec<u64>))
    ensures
        r.0@.map_values(|s: String| s@) == first_seen(recipients_of(txs@)),
        r.1@.map_values(|c: u64| c as int) == recipient_counts(txs@),
{
    let ghost rs = recipients_of(txs@);
    let mut names: Vec<String> = Vec::new();
    let mut counts: Vec<u64> = Vec::new();
    let mut i: usize = 0;
    while i < txs.len()
        invariant
            i <= txs@.len(),
            rs == recipients_of(txs@),
            names@.len() == counts@.len(),
            names@.map_values(|s: String| s@) == first_seen(rs.subrange(0, i as int)),
            forall|j: int|
                0 <= j < counts@.len() ==> #[trigger] counts@[j] as int == occurrences(
                    rs.subrange(0, i as int),
                    names@[j]@,
                ),
            forall|a: int, b: int|
                0 <= a < b < names@.len() ==> #[trigger] names@[a]@ != #[trigger] names@[b]@,
        decreases txs@.len() - i,
    {
        let ghost pre = rs.subrange(0, i as int);
        let ghost post = rs.subrange(0, i as int + 1);
        proof {
            assert(post.drop_last() =~= pre);
            assert(post.last() == txs@[i as int].recipient@);
        }
        let recipient = &txs[i].recipient;
        let mut found: Option<usize> = None;
        let mut j: usize = 0;
        while j < names.len()
            invariant
                j <= names@.len(),
                found matches Some(f) ==> f < names@.len() && names@[f as int]@ == recipient@,
                found is None ==> forall|m: int| 0 <= m < j ==> names@[m]@ != recipient@,
            decreases names@.len() - j,
        {
            if found.is_none() && names[j] == *recipient {
                found = Some(j);
            }
            j += 1;
        }
        let ghost fs = first_seen(pre);
        match found {
            Some(f) => {
                proof {
                    assert(fs[f as int] == recipient@);
                    assert(fs.contains(recipient@));
                    lemma_occurrences_nonneg(pre, names@[f as int]@);
                }
                let v = counts[f];
                counts.set(f, v + 1);
                proof {
                    assert forall|m: int| 0 <= m < counts@.len() implies #[trigger] counts@[m] as int
                        == occurrences(post, names@[m]@) by {
                        if m != f {
                            assert(names@[m]@ != names@[f as int]@);
                        }
                    }
                }
            },
            None => {
                proof {
                    if fs.contains(recipient@) {
                        let w = choose|m: int| 0 <= m < fs.len() && fs[m] == recipient@;
                        assert(names@.map_values(|s: String| s@)[w] == names@[w]@);
                    }
                    if occurrences(pre, recipient@) > 0 {
                        lemma_first_seen_has(pre, recipient@);
                    }
                    lemma_occurrences_nonneg(pre, recipient@);
                }
                names.push(recipient.clone());
                counts.push(1);
                proof {
                    assert(names@.map_values(|s: String| s@) =~= first_seen(post));
                    assert forall|m: int| 0 <= m < counts@.len() implies #[trigger] counts@[m] as int
                        == occurrences(post, names@[m]@) by {}
                }
            },
        }
        i += 1;
    }
    proof {
        assert(rs.subrange(0, txs@.len() as int) =~= rs);
        assert(counts@.map_values(|c: u64| c as int) =~= recipient_counts(txs@));
    }
    (names, counts)
}


/// Rebuilds a profile from a non-empty sample: the mean amount, the three
/// most frequent hours (ties to the earlier hour), the five most frequent
/// recipients (ties to the one seen first), and the daily frequency over
/// the span between the earliest and the latest transaction.
pub fn build_profile(txs: &[Transaction]) -> (r: BehavioralProfile)
    requires
        txs@.len() > 0,
    ensures
        profile_from(txs@, r),
{
    let n = txs.len();
    let mut sum: u128 = 0;
    let mut lo: i64 = txs[0].timestamp;
    let mut hi: i64 = txs[0].timestamp;
    let mut i: usize = 0;
    while i < n
        invariant
            n == txs@.len(),
            n > 0,
            i <= n,
            sum as int == sum_amounts(txs@.subrange(0, i as int)),
            sum <= i * 0xFFFF_FFFF_FFFF_FFFFu128,
            i > 0 ==> lo as int == earliest(txs@.subrange(0, i as int)),
            i > 0 ==> hi as int == latest(txs@.subrange(0, i as int)),
            i == 0 ==> lo == txs@[0].timestamp && hi == txs@[0].timestamp,
        decreases n - i,
    {
        proof {
            assert(txs@.subrange(0, i as int + 1).drop_last() =~= txs@.subrange(0, i as int));
            if i == 0 {
                assert(txs@.subrange(0, 1)[0] == txs@[0]);
            }
        }
        sum = sum + txs[i].amount as u128;
        if txs[i].timestamp < lo {
            lo = txs[i].timestamp;
        }
        if txs[i].timestamp > hi {
            hi = txs[i].timestamp;
        }
        i += 1;
    }
    assert(txs@.subrange(0, n as int) =~= txs@);
    let mean: u128 = sum / (n as u128);
    assert(mean <= 0xFFFF_FFFF_FFFF_FFFFu128) by (nonlinear_arith)
        requires
            mean == sum / (n as u128),
            sum <= n * 0xFFFF_FFFF_FFFF_FFFFu128,
            n > 0,
    ;
    let hours = count_hours(txs);
    let top_hours = top_ranked(&hours, 3);
    proof {
        let hv = hours@.map_values(|c: u64| c as int);
        assert(hv.len() == 24);
        let tv = top_hours@.map_values(|i: usize| i as int);
        assert forall|j: int| 0 <= j < top_hours@.len() implies #[trigger] top_hours@[j] < 24 by {
            assert(0 <= tv[j] < hv.len());
        }
    }
    let mut times: Vec<u8> = Vec::new();
    let mut k: usize = 0;
    while k < top_hours.len()
        invariant
            k <= top_hours@.len(),
            hours@.len() == 24,
            forall|j: int| 0 <= j < top_hours@.len() ==> #[trigger] top_hours@[j] < 24,
            times@.len() == k,
            forall|j: int| 0 <= j < k ==> #[trigger] times@[j] as int == top_hours@[j] as int,
        decreases top_hours@.len() - k,
    {
        times.push(top_hours[k] as u8);
        k += 1;
    }
    assert(times@.map_values(|h: u8| h as int) =~= top_hours@.map_values(|i: usize| i as int));
    let (names, counts) = count_recipients(txs);
    let top_names = top_ranked(&counts, 5);
    let mut recipients: Vec<String> = Vec::new();
    let mut k: usize = 0;
    let ghost fs = first_seen(recipients_of(txs@));
    let ghost tn = top_names@.map_values(|i: usize| i as int);
    proof {
        let cv = counts@.map_values(|c: u64| c as int);
        assert forall|j: int| 0 <= j < top_names@.len() implies #[trigger] top_names@[j] < names@.len() by {
            assert(0 <= tn[j] < cv.len());
        }
    }
    while k < top_names.len()
        invariant
            k <= top_names@.len(),
            fs == names@.map_values(|s: String| s@),
            tn == top_names@.map_values(|i: usize| i as int),
            forall|j: int| 0 <= j < top_names@.len() ==> #[trigger] top_names@[j] < names@.len(),
            recipients@.len() == k,
            forall|j: int| 0 <= j < k ==> #[trigger] recipients@[j]@ == fs[tn[j]],
        decreases top_names@.len() - k,
    {
        recipients.push(names[top_names[k]].clone());
        k += 1;
    }
    assert(recipients@.map_values(|s: String| s@) =~= tn.map_values(|j: int| fs[j]));
    let diff: i128 = hi as i128 - lo as i128;
    let days0: i128 = diff / 86400;
    let days: u128 = if days0 < 1 {
        1
    } else {
        days0 as u128
    };
    let f: u128 = ((n as u128) * 1000 + days - 1) / days;
    let frequency: u64 = if f > 0xFFFF_FFFF_FFFF_FFFFu128 {
        0xFFFF_FFFF_FFFF_FFFFu64
    } else {
        f as u64
    };
    let p = BehavioralProfile {
        typical_transaction_amount: mean as u64,
        typical_transaction_times: times,
        common_recipients: recipients,
        usage_frequency: frequency,
    };
    assert(recipients_view(p) == tn.map_values(|j: int| fs[j]));
    p
}

impl FraudDetector {
    /// Recomputes the user's profile from a transaction history; an empty
    /// history changes nothing.
    pub fn update_behavioral_profile(&mut self, user_id: u128, transactions: &[Transaction]) -> (r:
        Result<()>)
        ensures
            r is Ok,
            final(self).config_spec() == old(self).config_spec(),
            final(self).statistics_spec() == old(self).statistics_spec(),
            transactions@.len() == 0 ==> final(self).profiles_spec() == old(self).profiles_spec(),
            transactions@.len() > 0 ==> ({
                &&& final(self).profiles_spec().contains_key(user_id)
                &&& profile_from(transactions@, final(self).profiles_spec()[user_id])
                &&& final(self).profiles_spec() == old(self).profiles_spec().insert(
                    user_id,
                    final(self).profiles_spec()[user_id],
                )
            }),
    {
        if transactions.len() == 0 {
            return Ok(());
        }
        let p = build_profile(transactions);
        self.user_profiles.insert(user_id, p);
        Ok(())
    }
}


/// At most one selection meets `is_top_selection`.
pub proof fn lemma_top_selection_unique(c: Seq<int>, k: int, r1: Seq<int>, r2: Seq<int>)
    requires
        is_top_selection(c, k, r1),
        is_top_selection(c, k, r2),
    ensures
        r1 == r2,
{
    let n = if r1.len() < r2.len() { r1.len() } else { r2.len() };
    assert forall|i: int| 0 <= i < n implies r1[i] == r2[i] by {
        lemma_top_selection_prefix(c, k, r1, r2, i);
    }
    if r1.len() < r2.len() {
        lemma_top_selection_longer(c, k, r1, r2);
    } else if r2.len() < r1.len() {
        assert forall|i: int| 0 <= i < n implies r2[i] == r1[i] by {}
        lemma_top_selection_longer(c, k, r2, r1);
    }
    assert(r1 =~= r2);
}

proof fn lemma_top_selection_prefix(c: Seq<int>, k: int, r1: Seq<int>, r2: Seq<int>, i: int)
    requires
        is_top_selection(c, k, r1),
        is_top_selection(c, k, r2),
        0 <= i < r1.len(),
        i < r2.len(),
    ensures
        r1[i] == r2[i],
    decreases i,
{
    assert forall|j: int| 0 <= j < i implies r1[j] == r2[j] by {
        lemma_top_selection_prefix(c, k, r1, r2, j);
    }
    let x = r1[i];
    let y = r2[i];
    if x != y {
        // y ranks after x in r1, and x after y in r2
        assert(ranked_before(c, x, y)) by {
            if selected(r1, y) {
                let j = choose|j: int| 0 <= j < r1.len() && r1[j] == y;
                if j < i {
                    assert(r2[j] == y);
                    assert(ranked_before(c, r2[j], r2[i]));
                } else if j > i {
                    assert(ranked_before(c, r1[i], r1[j]));
                }
            } else {
                assert(0 <= y < c.len() && c[y] > 0);
            }
        }
        assert(ranked_before(c, y, x)) by {
            if selected(r2, x) {
                let j = choose|j: int| 0 <= j < r2.len() && r2[j] == x;
                if j < i {
                    assert(r1[j] == x);
                    assert(ranked_before(c, r1[j], r1[i]));
                } else if j > i {
                    assert(ranked_before(c, r2[i], r2[j]));
                }
            } else {
                assert(0 <= x < c.len() && c[x] > 0);
            }
        }
    }
}

proof fn lemma_top_selection_longer(c: Seq<int>, k: int, r1: Seq<int>, r2: Seq<int>)
    requires
        is_top_selection(c, k, r1),
        is_top_selection(c, k, r2),
        r1.len() <= r2.len(),
        forall|i: int| 0 <= i < r1.len() ==> r1[i] == r2[i],
    ensures
        r1.len() == r2.len(),
{
    if r1.len() < r2.len() {
        let m = r1.len() as int;
        let y = r2[m];
        assert(0 <= y < c.len() && c[y] > 0);
        if selected(r1, y) {
            let j = choose|j: int| 0 <= j < r1.len() && r1[j] == y;
            assert(r2[j] == y);
            assert(ranked_before(c, r2[j], r2[m]));
        }
    }
}

/// Rebuilding a profile is deterministic: one sample yields one profile.
pub proof fn lemma_profile_deterministic(
    txs: Seq<Transaction>,
    p: BehavioralProfile,
    q: BehavioralProfile,
)
    requires
        txs.len() > 0,
        profile_from(txs, p),
        profile_from(txs, q),
    ensures
        crate::same_profile(p, q),
{
    let pt = p.typical_transaction_times@.map_values(|h: u8| h as int);
    let qt = q.typical_transaction_times@.map_values(|h: u8| h as int);
    lemma_top_selection_unique(hour_counts(txs), 3, pt, qt);
    assert forall|i: int| 0 <= i < p.typical_transaction_times@.len() implies
        p.typical_transaction_times@[i] == q.typical_transaction_times@[i] by {
        assert(pt[i] == qt[i]);
    }
    assert(p.typical_transaction_times@ =~= q.typical_transaction_times@);
    let sp = choose|sel: Seq<int>|
        is_top_selection(recipient_counts(txs), 5, sel) && recipients_view(p) == sel.map_values(
            |j: int| first_seen(recipients_of(txs))[j],
        );
    let sq = choose|sel: Seq<int>|
        is_top_selection(recipient_counts(txs), 5, sel) && recipients_view(q) == sel.map_values(
            |j: int| first_seen(recipients_of(txs))[j],
        );
    lemma_top_selection_unique(recipient_counts(txs), 5, sp, sq);
}

} // verus!
