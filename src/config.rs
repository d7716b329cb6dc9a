//! Configuration: thresholds, limits and switches.
use vstd::prelude::*;

verus! {

#[derive(Debug, Clone)]
pub struct SafeBankConfig {
    /// Failed authentication attempts allowed before a temporary lockout.
    pub max_failed_attempts: u32,
    /// Lockout duration, in minutes.
    pub lockout_duration_minutes: u32,
    /// Fraud thresholds, in thousandths (0 to 1000).
    pub fraud_threshold_low: u64,
    pub fraud_threshold_medium: u64,
    pub fraud_threshold_high: u64,
    /// Limits, in cents.
    pub daily_transaction_limit: u64,
    pub single_transaction_limit: u64,
    pub require_device_verification: bool,
    pub enable_behavioral_analysis: bool,
    pub pin_complexity_required: bool,
    /// Largest amount that an offline envelope may carry, in cents.
    pub offline_transaction_limit: u64,
    /// Validity of an offline envelope, in hours.
    pub offline_cache_duration_hours: u32,
    pub enable_lightweight_encryption: bool,
    pub cache_size_mb: u32,
    pub sync_interval_minutes: u32,
    pub low_connectivity_mode: bool,
    pub simplified_interface: bool,
    pub local_currency: String,
}

/// What `validate` accepts.
pub open spec fn config_valid(c: SafeBankConfig) -> bool {
    &&& c.fraud_threshold_low < c.fraud_threshold_medium
    &&& c.fraud_threshold_medium < c.fraud_threshold_high
    &&& c.daily_transaction_limit >= c.single_transaction_limit
    &&& c.cache_size_mb > 0
}

impl Default for SafeBankConfig {
    fn default() -> (r: Self)
        ensures
            r.max_failed_attempts == 3,
            r.lockout_duration_minutes == 15,
            r.fraud_threshold_low == 300,
            r.fraud_threshold_medium == 600,
            r.fraud_threshold_high == 800,
            r.daily_transaction_limit == 1_000_000,
            r.single_transaction_limit == 500_000,
            r.require_device_verification,
            r.enable_behavioral_analysis,
            !r.pin_complexity_required,
            r.offline_transaction_limit == 100_000,
            r.offline_cache_duration_hours == 24,
            r.cache_size_mb == 50,
            r.local_currency@ == "USD"@,
    {
        SafeBankConfig {
            max_failed_attempts: 3,
            lockout_duration_minutes: 15,
            fraud_threshold_low: 300,
            fraud_threshold_medium: 600,
            fraud_threshold_high: 800,
            daily_transaction_limit: 1_000_000,
            single_transaction_limit: 500_000,
            require_device_verification: true,
            enable_behavioral_analysis: true,
            pin_complexity_required: false,
            offline_transaction_limit: 100_000,
            offline_cache_duration_hours: 24,
            enable_lightweight_encryption: true,
            cache_size_mb: 50,
            sync_interval_minutes: 30,
            low_connectivity_mode: true,
            simplified_interface: true,
            local_currency: String::from_str("USD"),
        }
    }
}

impl SafeBankConfig {
    pub fn duplicate(&self) -> (r: Self)
        ensures
            r == *self,
    {
        SafeBankConfig {
            max_failed_attempts: self.max_failed_attempts,
            lockout_duration_minutes: self.lockout_duration_minutes,
            fraud_threshold_low: self.fraud_threshold_low,
            fraud_threshold_medium: self.fraud_threshold_medium,
            fraud_threshold_high: self.fraud_threshold_high,
            daily_transaction_limit: self.daily_transaction_limit,
            single_transaction_limit: self.single_transaction_limit,
            require_device_verification: self.require_device_verification,
            enable_behavioral_analysis: self.enable_behavioral_analysis,
            pin_complexity_required: self.pin_complexity_required,
            offline_transaction_limit: self.offline_transaction_limit,
            offline_cache_duration_hours: self.offline_cache_duration_hours,
            enable_lightweight_encryption: self.enable_lightweight_encryption,
            cache_size_mb: self.cache_size_mb,
            sync_interval_minutes: self.sync_interval_minutes,
            low_connectivity_mode: self.low_connectivity_mode,
            simplified_interface: self.simplified_interface,
            local_currency: self.local_currency.clone(),
        }
    }

    /// Configuration for very low-resource devices: behavioural analysis off.
    pub fn minimal() -> (r: Self)
        ensures
            r.max_failed_attempts == 3,
            r.lockout_duration_minutes == 10,
            r.fraud_threshold_low == 400,
            r.fraud_threshold_medium == 700,
            r.fraud_threshold_high == 900,
            r.daily_transaction_limit == 500_000,
            r.single_transaction_limit == 200_000,
            r.require_device_verification,
            !r.enable_behavioral_analysis,
            !r.pin_complexity_required,
            r.offline_transaction_limit == 50_000,
            r.offline_cache_duration_hours == 12,
            r.cache_size_mb == 20,
            r.local_currency@ == "USD"@,
    {
        SafeBankConfig {
            max_failed_attempts: 3,
            lockout_duration_minutes: 10,
            fraud_threshold_low: 400,
            fraud_threshold_medium: 700,
            fraud_threshold_high: 900,
            daily_transaction_limit: 500_000,
            single_transaction_limit: 200_000,
            require_device_verification: true,
            enable_behavioral_analysis: false,
            pin_complexity_required: false,
            offline_transaction_limit: 50_000,
            offline_cache_duration_hours: 12,
            enable_lightweight_encryption: true,
            cache_size_mb: 20,
            sync_interval_minutes: 60,
            low_connectivity_mode: true,
            simplified_interface: true,
            local_currency: String::from_str("USD"),
        }
    }

    /// Checks the thresholds' order, that the daily limit covers the single
    /// limit, and that the cache has a size; the first broken rule is named.
    pub fn validate(&self) -> (r: Result<(), String>)
        ensures
            r is Ok <==> config_valid(*self),
            !(self.fraud_threshold_low < self.fraud_threshold_medium) ==> r->Err_0@
                == "Low fraud threshold must be less than medium threshold"@,
            self.fraud_threshold_low < self.fraud_threshold_medium && !(self.fraud_threshold_medium
                < self.fraud_threshold_high) ==> r->Err_0@
                == "Medium fraud threshold must be less than high threshold"@,
            self.fraud_threshold_low < self.fraud_threshold_medium && self.fraud_threshold_medium
                < self.fraud_threshold_high && self.daily_transaction_limit
                < self.single_transaction_limit ==> r->Err_0@
                == "Daily limit must be greater than or equal to single transaction limit"@,
            self.fraud_threshold_low < self.fraud_threshold_medium && self.fraud_threshold_medium
                < self.fraud_threshold_high && self.daily_transaction_limit
                >= self.single_transaction_limit && self.cache_size_mb == 0 ==> r->Err_0@
                == "Cache size must be greater than 0"@,
    {
        if self.fraud_threshold_low >= self.fraud_threshold_medium {
            return Err(String::from_str("Low fraud threshold must be less than medium threshold"));
        }
        if self.fraud_threshold_medium >= self.fraud_threshold_high {
            return Err(
                String::from_str("Medium fraud threshold must be less than high threshold"),
            );
        }
        if self.daily_transaction_limit < self.single_transaction_limit {
            return Err(
                String::from_str(
                    "Daily limit must be greater than or equal to single transaction limit",
                ),
            );
        }
        if self.cache_size_mb == 0 {
            return Err(String::from_str("Cache size must be greater than 0"));
        }
        Ok(())
    }
}

} // verus!
