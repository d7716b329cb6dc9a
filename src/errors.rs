//! Errors of the framework.
use crate::codec::{padded_decimal, padded_digits};
use vstd::prelude::*;

verus! {

#[derive(Debug, Clone, PartialEq, Eq)]
pub enum SafeBankError {
    AuthenticationFailed { message: String },
    AccountLocked,
    UserNotFound { user_id: String },
    InvalidPin,
    UnrecognizedDevice { device_id: String },
    /// Score in thousandths.
    FraudDetected { fraud_score: u64 },
    /// Amount and limit in cents; the amount may be a projected daily total.
    TransactionLimitExceeded { amount: u128, limit: u64 },
    /// Balance and requirement in cents.
    InsufficientFunds { balance: u64, required: u64 },
    NetworkError { message: String },
    SerializationError { message: String },
    ConfigError { message: String },
    CryptographyError { message: String },
    StorageError { message: String },
    ResourceLimitExceeded { resource: String },
    OfflineModeRestriction,
    TimeoutError { operation: String },
    InvalidTransactionState { current_state: String },
}

#[derive(Debug, Clone, Copy, PartialEq, Eq, Structural)]
pub enum ErrorSeverity {
    Low,
    Medium,
    High,
    Critical,
}

pub type Result<T> = core::result::Result<T, SafeBankError>;

/// An amount in cents written as units, a point, and two digits of cents.
pub open spec fn money_text(cents: nat) -> Seq<char> {
    padded_digits(cents / 100, 1) + seq!['.'] + padded_digits(cents % 100, 2)
}

/// The message shown to a user for an error.
pub open spec fn user_message_spec(e: SafeBankError) -> Seq<char> {
    match e {
        SafeBankError::AuthenticationFailed { .. } => "Invalid phone number or PIN. Please try again."@,
        SafeBankError::AccountLocked => "Account temporarily locked for security. Please try again later."@,
        SafeBankError::InvalidPin => "PIN must be 4-6 digits. Please enter a valid PIN."@,
        SafeBankError::FraudDetected { .. } => "Transaction flagged for security review. Please contact support."@,
        SafeBankError::TransactionLimitExceeded { limit, .. } => "Transaction exceeds daily limit of $"@
            + money_text(limit as nat),
        SafeBankError::InsufficientFunds { balance, .. } => "Insufficient balance. Available: $"@
            + money_text(balance as nat),
        SafeBankError::NetworkError { .. } => "Network connection issue. Please check your connection and try again."@,
        SafeBankError::OfflineModeRestriction => "This operation requires internet connection."@,
        SafeBankError::TimeoutError { .. } => "Operation timed out. Please try again."@,
        _ => "An error occurred. Please try again or contact support."@,
    }
}

/// Writes an amount in cents as units, a point, and two digits of cents.
pub fn format_money(cents: u64) -> (r: String)
    ensures
        r@ == money_text(cents as nat),
{
    let units = padded_decimal(cents / 100, 1);
    let fraction = padded_decimal(cents % 100, 2);
    let r = units.concat(".").concat(fraction.as_str());
    proof {
        reveal_strlit(".");
    }
    r
}

impl SafeBankError {
    /// A user-friendly message for the error.
    pub fn to_user_message(&self) -> (r: String)
        ensures
            r@ == user_message_spec(*self),
    {
        match self {
            SafeBankError::AuthenticationFailed { .. } => String::from_str(
                "Invalid phone number or PIN. Please try again.",
            ),
            SafeBankError::AccountLocked => String::from_str(
                "Account temporarily locked for security. Please try again later.",
            ),
            SafeBankError::InvalidPin => String::from_str(
                "PIN must be 4-6 digits. Please enter a valid PIN.",
            ),
            SafeBankError::FraudDetected { .. } => String::from_str(
                "Transaction flagged for security review. Please contact support.",
            ),
            SafeBankError::TransactionLimitExceeded { limit, .. } => {
                let m = format_money(*limit);
                String::from_str("Transaction exceeds daily limit of $").concat(m.as_str())
            },
            SafeBankError::InsufficientFunds { balance, .. } => {
                let m = format_money(*balance);
                String::from_str("Insufficient balance. Available: $").concat(m.as_str())
            },
            SafeBankError::NetworkError { .. } => String::from_str(
                "Network connection issue. Please check your connection and try again.",
            ),
            SafeBankError::OfflineModeRestriction => String::from_str(
                "This operation requires internet connection.",
            ),
            SafeBankError::TimeoutError { .. } => String::from_str(
                "Operation timed out. Please try again.",
            ),
            _ => String::from_str("An error occurred. Please try again or contact support."),
        }
    }

    /// Whether the user may retry: network trouble, a timeout, or a failed
    /// authentication.
    pub fn is_recoverable(&self) -> (r: bool)
        ensures
            r == (self is NetworkError || self is TimeoutError || self is AuthenticationFailed),
    {
        match self {
            SafeBankError::NetworkError { .. }
            | SafeBankError::TimeoutError { .. }
            | SafeBankError::AuthenticationFailed { .. } => true,
            _ => false,
        }
    }

    /// Severity for logging.
    pub fn severity(&self) -> (r: ErrorSeverity)
        ensures
            (self is FraudDetected || self is CryptographyError) <==> r == ErrorSeverity::Critical,
            (self is AccountLocked || self is TransactionLimitExceeded || self is InsufficientFunds)
                <==> r == ErrorSeverity::High,
            (self is AuthenticationFailed || self is NetworkError) <==> r == ErrorSeverity::Medium,
    {
        match self {
            SafeBankError::FraudDetected { .. }
            | SafeBankError::CryptographyError { .. } => ErrorSeverity::Critical,
            SafeBankError::AccountLocked
            | SafeBankError::TransactionLimitExceeded { .. }
            | SafeBankError::InsufficientFunds { .. } => ErrorSeverity::High,
            SafeBankError::AuthenticationFailed { .. }
            | SafeBankError::NetworkError { .. } => ErrorSeverity::Medium,
            _ => ErrorSeverity::Low,
        }
    }
}

} // verus!
