//! The transaction ledger: per-transaction and daily limits, status
//! transitions, receipts, and the offline transaction envelope.
use crate::codec::{
    from_be, lemma_be_bytes_from, lemma_be_bytes_len, lemma_from_be_bytes, pow256, read_be, slice_of,
    be_bytes, bytes_of, from_hex, hex_decode_spec, hex_lower, hex_upper, id_bytes, id_text, id_text_spec, is_hex_text,
    lemma_hex_decode_unique, lemma_hex_round_trip, lemma_xor_twice, push_all, sha256, sha256_of, signed_decimal, signed_digits, to_hex,
    to_hex_upper, be_vec, utf8_of, xor_bytes, xor_with,
};
use crate::config::SafeBankConfig;
use crate::errors::{Result, SafeBankError};
use std::collections::HashMap;
use crate::{day_of, day_of_spec, Transaction, TransactionStatus, TransactionType};
use vstd::prelude::*;
use vstd::utf8::{decode_utf8_encode_utf8, encode_utf8_decode_utf8, encode_utf8_valid_utf8, valid_utf8};

verus! {

broadcast use vstd::std_specs::hash::group_hash_axioms;

/// What a user has transacted on one calendar day.
#[derive(Debug, Clone, Copy, PartialEq, Eq, Structural)]
pub struct DailyLimit {
    pub user_id: u128,
    /// Day number (days since the Unix epoch, UTC).
    pub date: i64,
    /// Cents.
    pub total_amount: u64,
    pub transaction_count: u64,
}

#[derive(Debug, Clone, PartialEq, Eq)]
pub struct TransactionReceipt {
    pub transaction_id: u128,
    pub timestamp: i64,
    pub amount: u64,
    pub recipient: String,
    pub status: TransactionStatus,
    pub confirmation_code: String,
    pub fraud_score: u64,
}

/// A sealed, time-bounded transaction for replay once connectivity returns.
#[derive(Debug, Clone, PartialEq, Eq)]
pub struct OfflineTransaction {
    pub transaction: Transaction,
    /// Hexadecimal text of the obscured canonical encoding.
    pub encrypted_data: String,
    /// Hexadecimal SHA-256 digest of the encoding followed by the secret.
    pub signature: String,
    /// Seconds since the Unix epoch (UTC).
    pub expires_at: i64,
}

/// Counts over all stored transactions.
#[derive(Debug, Clone, Copy, PartialEq, Eq, Structural)]
pub struct TransactionStatistics {
    pub total_transactions: u64,
    pub approved_count: u64,
    pub rejected_count: u64,
    /// Flagged or awaiting approval.
    pub flagged_count: u64,
    /// Sum of all amounts, in cents.
    pub total_volume: u128,
}

impl TransactionStatistics {
    /// Mean amount in cents, rounded down; none without transactions.
    pub fn average_amount(&self) -> (r: Option<u128>)
        ensures
            self.total_transactions == 0 ==> r is None,
            self.total_transactions > 0 ==> r == Some(
                (self.total_volume / self.total_transactions as u128) as u128,
            ),
    {
        if self.total_transactions == 0 {
            None
        } else {
            Some(self.total_volume / self.total_transactions as u128)
        }
    }

    /// Share of approved transactions in percent, rounded down; none without
    /// transactions.
    pub fn approval_rate_percent(&self) -> (r: Option<u128>)
        ensures
            self.total_transactions == 0 ==> r is None,
            self.total_transactions > 0 ==> r == Some(
                (self.approved_count as int * 100 / self.total_transactions as int) as u128,
            ),
    {
        if self.total_transactions == 0 {
            None
        } else {
            Some((self.approved_count as u128) * 100 / (self.total_transactions as u128))
        }
    }
}

#[derive(Debug)]
pub struct TransactionManager {
    config: SafeBankConfig,
    transactions: Vec<Transaction>,
    daily_limits: HashMap<u128, DailyLimit>,
}

// ------------------------------------------------------------ the store

/// No two stored transactions share an id.
pub open spec fn ids_unique(s: Seq<Transaction>) -> bool {
    forall|i: int, j: int|
        #![trigger s[i], s[j]]
        0 <= i < s.len() && 0 <= j < s.len() && s[i].transaction_id == s[j].transaction_id
            ==> i == j
}

pub open spec fn has_tx(s: Seq<Transaction>, id: u128) -> bool {
    exists|i: int| 0 <= i < s.len() && s[i].transaction_id == id
}

pub open spec fn tx_index(s: Seq<Transaction>, id: u128) -> int {
    choose|i: int| 0 <= i < s.len() && s[i].transaction_id == id
}

/// The stored transaction with this id, if any.
pub open spec fn find_tx(s: Seq<Transaction>, id: u128) -> Option<Transaction> {
    if has_tx(s, id) {
        Some(s[tx_index(s, id)])
    } else {
        None
    }
}

/// The store after recording `t`: a transaction with its id is replaced in
/// place, otherwise `t` is appended.
pub open spec fn store_tx(s: Seq<Transaction>, t: Transaction) -> Seq<Transaction> {
    if has_tx(s, t.transaction_id) {
        s.update(tx_index(s, t.transaction_id), t)
    } else {
        s.push(t)
    }
}

/// Recording a transaction keeps ids unique, and it then reads back.
pub proof fn lemma_store_tx_find(s: Seq<Transaction>, t: Transaction)
    requires
        ids_unique(s),
    ensures
        ids_unique(store_tx(s, t)),
        find_tx(store_tx(s, t), t.transaction_id) == Some(t),
        forall|id: u128| id != t.transaction_id ==> find_tx(store_tx(s, t), id) == find_tx(s, id),
{
    let after = store_tx(s, t);
    let k = if has_tx(s, t.transaction_id) { tx_index(s, t.transaction_id) } else { s.len() as int };
    assert(after[k] == t);
    assert forall|i: int, j: int|
        #![trigger after[i], after[j]]
        0 <= i < after.len() && 0 <= j < after.len() && after[i].transaction_id
            == after[j].transaction_id implies i == j by {
        if i != k {
            assert(after[i] == s[i]);
        }
        if j != k {
            assert(after[j] == s[j]);
        }
    }
    assert(has_tx(after, t.transaction_id));
    let c = tx_index(after, t.transaction_id);
    assert(after[c].transaction_id == after[k].transaction_id);
    assert forall|id: u128| id != t.transaction_id implies find_tx(after, id) == find_tx(s, id) by {
        if has_tx(s, id) {
            let i = tx_index(s, id);
            assert(i != k);
            assert(after[i] == s[i]);
            assert(has_tx(after, id));
            let c2 = tx_index(after, id);
            assert(after[c2].transaction_id == after[i].transaction_id);
        } else if has_tx(after, id) {
            let c2 = tx_index(after, id);
            assert(c2 != k);
            assert(after[c2] == s[c2]);
        }
    }
}

/// Setting the status of a stored transaction keeps ids unique, and the
/// record then reads back with the new status.
pub proof fn lemma_with_status_find(txs: Seq<Transaction>, id: u128, st: TransactionStatus)
    requires
        ids_unique(txs),
        has_tx(txs, id),
    ensures
        ids_unique(with_status(txs, id, st)),
        find_tx(with_status(txs, id, st), id) == Some(
            Transaction { status: st, ..find_tx(txs, id)->Some_0 },
        ),
{
    let after = with_status(txs, id, st);
    let k = tx_index(txs, id);
    assert forall|i: int, j: int|
        #![trigger after[i], after[j]]
        0 <= i < after.len() && 0 <= j < after.len() && after[i].transaction_id
            == after[j].transaction_id implies i == j by {
        assert(after[i].transaction_id == txs[i].transaction_id);
        assert(after[j].transaction_id == txs[j].transaction_id);
    }
    assert(after[k].transaction_id == id);
    assert(has_tx(after, id));
    let c = tx_index(after, id);
    assert(after[c].transaction_id == after[k].transaction_id);
}

// ------------------------------------------------------------ processing

/// Why `process` refuses a transaction.
pub enum LedgerFault {
    /// The amount is zero.
    InvalidAmount,
    /// The amount is above the single-transaction limit.
    SingleLimit { amount: int, limit: int },
    /// The day's projected total is above the daily limit.
    DailyLimit { projected: int, limit: int },
}

/// The first rule that `t` breaks when processed on day `today`, if any.
pub open spec fn process_fault(
    c: SafeBankConfig,
    limits: Map<u128, DailyLimit>,
    t: Transaction,
    today: int,
) -> Option<LedgerFault> {
    if t.amount == 0 {
        Some(LedgerFault::InvalidAmount)
    } else if t.amount > c.single_transaction_limit {
        Some(
            LedgerFault::SingleLimit {
                amount: t.amount as int,
                limit: c.single_transaction_limit as int,
            },
        )
    } else {
        match day_record(limits, t.user_id) {
            Some(d) => if d.date == today && d.total_amount + t.amount
                > c.daily_transaction_limit {
                Some(
                    LedgerFault::DailyLimit {
                        projected: d.total_amount + t.amount,
                        limit: c.daily_transaction_limit as int,
                    },
                )
            } else {
                None
            },
            None => None,
        }
    }
}

/// The user's daily record, if any.
pub open spec fn day_record(limits: Map<u128, DailyLimit>, user_id: u128) -> Option<DailyLimit> {
    if limits.contains_key(user_id) {
        Some(limits[user_id])
    } else {
        None
    }
}

/// The day's record after accepting `amount` on day `today`: added to on
/// the same day, started afresh on another.
pub open spec fn next_limit(prev: Option<DailyLimit>, user_id: u128, amount: int, today: int) -> DailyLimit {
    match prev {
        Some(d) => if d.date == today {
            DailyLimit {
                user_id,
                date: d.date,
                total_amount: (d.total_amount + amount) as u64,
                transaction_count: (d.transaction_count + 1) as u64,
            }
        } else {
            DailyLimit { user_id, date: today as i64, total_amount: amount as u64, transaction_count: 1 }
        },
        None => DailyLimit {
            user_id,
            date: today as i64,
            total_amount: amount as u64,
            transaction_count: 1,
        },
    }
}

/// The daily records after accepting `t` on day `today`.
pub open spec fn limits_after(limits: Map<u128, DailyLimit>, t: Transaction, today: int) -> Map<u128, DailyLimit> {
    limits.insert(
        t.user_id,
        next_limit(day_record(limits, t.user_id), t.user_id, t.amount as int, today),
    )
}

/// `e` is the error that reports fault `f`.
pub open spec fn reports(e: SafeBankError, f: LedgerFault) -> bool {
    match f {
        LedgerFault::InvalidAmount => e matches SafeBankError::ConfigError { message }
            && message@ == "Transaction amount must be positive"@,
        LedgerFault::SingleLimit { amount, limit } => e == SafeBankError::TransactionLimitExceeded {
            amount: amount as u128,
            limit: limit as u64,
        },
        LedgerFault::DailyLimit { projected, limit } => e
            == SafeBankError::TransactionLimitExceeded {
            amount: projected as u128,
            limit: limit as u64,
        },
    }
}

/// `r`, `txs1` and `limits1` are what processing `t` on day `today` gives
/// from `txs0` and `limits0`: on a fault, its error and nothing changed; else
/// `t` itself, stored, with the day's record updated.
pub open spec fn processed(
    c: SafeBankConfig,
    txs0: Seq<Transaction>,
    limits0: Map<u128, DailyLimit>,
    t: Transaction,
    today: int,
    r: Result<Transaction>,
    txs1: Seq<Transaction>,
    limits1: Map<u128, DailyLimit>,
) -> bool {
    match process_fault(c, limits0, t, today) {
        Some(fault) => {
            &&& r matches Err(e) && reports(e, fault)
            &&& txs1 == txs0
            &&& limits1 == limits0
        },
        None => {
            &&& r == Ok::<Transaction, SafeBankError>(t)
            &&& txs1 == store_tx(txs0, t)
            &&& limits1 == limits_after(limits0, t, today)
            &&& find_tx(txs1, t.transaction_id) == Some(t)
            &&& day_record(limits1, t.user_id) == Some(
                next_limit(day_record(limits0, t.user_id), t.user_id, t.amount as int, today),
            )
            &&& forall|k: u128| k != t.user_id ==> day_record(limits1, k) == day_record(limits0, k)
        },
    }
}

// ------------------------------------------------------------ transitions

/// `approve` is legal only from `RequiresApproval` or `Flagged`.
pub open spec fn may_approve(s: TransactionStatus) -> bool {
    s == TransactionStatus::RequiresApproval || s == TransactionStatus::Flagged
}

/// `reject` is legal from every status but `Approved`.
pub open spec fn may_reject(s: TransactionStatus) -> bool {
    s != TransactionStatus::Approved
}

/// The store with the status of transaction `id` set to `s`.
pub open spec fn with_status(txs: Seq<Transaction>, id: u128, s: TransactionStatus) -> Seq<
    Transaction,
> {
    let i = tx_index(txs, id);
    txs.update(i, Transaction { status: s, ..txs[i] })
}

// ------------------------------------------------------------ history

/// The transactions of one user, in store order.
pub open spec fn of_user(s: Seq<Transaction>, user_id: u128) -> Seq<Transaction>
    decreases s.len(),
{
    if s.len() == 0 {
        Seq::empty()
    } else if s.last().user_id == user_id {
        of_user(s.drop_last(), user_id).push(s.last())
    } else {
        of_user(s.drop_last(), user_id)
    }
}

/// `t` placed after every element at least as recent.
pub open spec fn insert_by_time(s: Seq<Transaction>, t: Transaction) -> Seq<Transaction>
    decreases s.len(),
{
    if s.len() == 0 {
        seq![t]
    } else if s[0].timestamp < t.timestamp {
        seq![t] + s
    } else {
        seq![s[0]] + insert_by_time(s.drop_first(), t)
    }
}

/// `s` ordered most recent first; equal timestamps keep their order.
pub open spec fn by_time_desc(s: Seq<Transaction>) -> Seq<Transaction>
    decreases s.len(),
{
    if s.len() == 0 {
        Seq::empty()
    } else {
        insert_by_time(by_time_desc(s.drop_last()), s.last())
    }
}

proof fn lemma_insert_at(s: Seq<Transaction>, t: Transaction, k: int)
    requires
        0 <= k <= s.len(),
        forall|j: int| 0 <= j < k ==> s[j].timestamp >= t.timestamp,
        k < s.len() ==> s[k].timestamp < t.timestamp,
    ensures
        insert_by_time(s, t) == s.insert(k, t),
    decreases k,
{
    if k == 0 {
        if s.len() == 0 {
            assert(s.insert(0, t) =~= seq![t]);
        } else {
            assert(s.insert(0, t) =~= seq![t] + s);
        }
    } else {
        let r = s.drop_first();
        assert forall|j: int| 0 <= j < k - 1 implies r[j].timestamp >= t.timestamp by {
            assert(r[j] == s[j + 1]);
        }
        if k - 1 < r.len() {
            assert(r[k - 1] == s[k]);
        }
        lemma_insert_at(r, t, k - 1);
        assert(s.insert(k, t) =~= seq![s[0]] + r.insert(k - 1, t));
    }
}

// ------------------------------------------------------------ statistics

pub open spec fn count_status(s: Seq<Transaction>, st: TransactionStatus) -> int
    decreases s.len(),
{
    if s.len() == 0 {
        0
    } else {
        count_status(s.drop_last(), st) + if s.last().status == st {
            1int
        } else {
            0
        }
    }
}

pub open spec fn volume(s: Seq<Transaction>) -> int
    decreases s.len(),
{
    if s.len() == 0 {
        0
    } else {
        volume(s.drop_last()) + s.last().amount
    }
}

proof fn lemma_count_bound(s: Seq<Transaction>, st: TransactionStatus)
    ensures
        0 <= count_status(s, st) <= s.len(),
    decreases s.len(),
{
    if s.len() > 0 {
        lemma_count_bound(s.drop_last(), st);
    }
}

proof fn lemma_count_pair(s: Seq<Transaction>, a: TransactionStatus, b: TransactionStatus)
    requires
        a != b,
    ensures
        count_status(s, a) + count_status(s, b) <= s.len(),
    decreases s.len(),
{
    if s.len() > 0 {
        lemma_count_pair(s.drop_last(), a, b);
    }
}

proof fn lemma_volume_bound(s: Seq<Transaction>)
    ensures
        0 <= volume(s) <= s.len() * 0xFFFF_FFFF_FFFF_FFFF,
    decreases s.len(),
{
    if s.len() > 0 {
        lemma_volume_bound(s.drop_last());
    }
}

// ------------------------------------------------------------ envelope

pub open spec fn type_tag(t: TransactionType) -> u8 {
    match t {
        TransactionType::Transfer => 0,
        TransactionType::Payment => 1,
        TransactionType::Withdrawal => 2,
        TransactionType::Deposit => 3,
    }
}

pub open spec fn status_tag(s: TransactionStatus) -> u8 {
    match s {
        TransactionStatus::Pending => 0,
        TransactionStatus::Approved => 1,
        TransactionStatus::Rejected => 2,
        TransactionStatus::Flagged => 3,
        TransactionStatus::RequiresApproval => 4,
    }
}

/// A string as its byte length (eight bytes) followed by its UTF-8 bytes.
pub open spec fn text_field(s: Seq<char>) -> Seq<u8> {
    be_bytes(utf8_of(s).len(), 8) + utf8_of(s)
}

/// The canonical encoding of a transaction: fixed-width big-endian
/// integers, length-prefixed strings, and one-byte tags.
pub open spec fn transaction_bytes(t: Transaction) -> Seq<u8> {
    be_bytes(t.transaction_id as nat, 16) + be_bytes(t.user_id as nat, 16) + be_bytes(
        t.amount as nat,
        8,
    ) + text_field(t.recipient@) + seq![type_tag(t.transaction_type)] + be_bytes(
        (t.timestamp as u64) as nat,
        8,
    ) + text_field(t.device_id@) + be_bytes(t.fraud_score as nat, 8) + seq![
        status_tag(t.status),
    ]
}

/// The obscured encoding, as hexadecimal text.
pub open spec fn sealed_data(t: Transaction, key: Seq<u8>) -> Seq<char> {
    hex_lower(xor_with(transaction_bytes(t), key))
}

/// The integrity tag over the plain encoding and the secret.
pub open spec fn seal_tag(plain: Seq<u8>, key: Seq<u8>) -> Seq<char> {
    hex_lower(sha256_of(plain + key))
}

/// Expiry: `hours` after `now`, held to the largest `i64`.
pub open spec fn expiry(now: int, hours: int) -> int {
    if now + hours * 3600 > i64::MAX {
        i64::MAX as int
    } else {
        now + hours * 3600
    }
}

/// Why an envelope is refused before its transaction is processed.
pub enum EnvelopeFault {
    Expired,
    EmptyKey,
    Undecodable,
    BadSignature,
    NotATransaction,
}

/// The encoding recovered from an envelope's data with a key.
pub open spec fn recovered_plain(data: Seq<char>, key: Seq<u8>) -> Seq<u8> {
    xor_with(hex_decode_spec(data), key)
}

/// The first check that an envelope fails at time `now`, if any.
pub open spec fn envelope_fault(
    data: Seq<char>,
    signature: Seq<char>,
    expires_at: int,
    key: Seq<u8>,
    now: int,
) -> Option<EnvelopeFault> {
    if now > expires_at {
        Some(EnvelopeFault::Expired)
    } else if key.len() == 0 {
        Some(EnvelopeFault::EmptyKey)
    } else if !is_hex_text(data) {
        Some(EnvelopeFault::Undecodable)
    } else if seal_tag(recovered_plain(data, key), key) != signature {
        Some(EnvelopeFault::BadSignature)
    } else if !exists|t: Transaction| transaction_bytes(t) == recovered_plain(data, key) {
        Some(EnvelopeFault::NotATransaction)
    } else {
        None
    }
}

/// The error for an empty secret key.
pub open spec fn is_empty_key_error(e: SafeBankError) -> bool {
    e matches SafeBankError::CryptographyError { message } && message@
        == "Secret key must not be empty"@
}

/// `e` is the error that reports envelope fault `f`.
pub open spec fn reports_envelope(e: SafeBankError, f: EnvelopeFault) -> bool {
    match f {
        EnvelopeFault::Expired => e matches SafeBankError::TimeoutError { operation }
            && operation@ == "Offline transaction expired"@,
        EnvelopeFault::EmptyKey => is_empty_key_error(e),
        EnvelopeFault::Undecodable => e matches SafeBankError::CryptographyError { message }
            && message@ == "Failed to decode encrypted data"@,
        EnvelopeFault::BadSignature => e matches SafeBankError::CryptographyError { message }
            && message@ == "Invalid transaction signature"@,
        EnvelopeFault::NotATransaction => e matches SafeBankError::SerializationError { message }
            && message@ == "Envelope holds no transaction"@,
    }
}

/// `r`, `txs1` and `limits1` are what replaying envelope `env` with `key`
/// at time `now` gives: on an envelope fault, its error and nothing changed;
/// else what processing the recovered transaction gives.
pub open spec fn replayed(
    c: SafeBankConfig,
    txs0: Seq<Transaction>,
    limits0: Map<u128, DailyLimit>,
    env: OfflineTransaction,
    key: Seq<u8>,
    now: int,
    r: Result<Transaction>,
    txs1: Seq<Transaction>,
    limits1: Map<u128, DailyLimit>,
) -> bool {
    match envelope_fault(env.encrypted_data@, env.signature@, env.expires_at as int, key, now) {
        Some(f) => {
            &&& r matches Err(e) && reports_envelope(e, f)
            &&& txs1 == txs0
            &&& limits1 == limits0
        },
        None => exists|t: Transaction|
            transaction_bytes(t) == recovered_plain(env.encrypted_data@, key) && processed(
                c,
                txs0,
                limits0,
                t,
                day_of_spec(now),
                r,
                txs1,
                limits1,
            ),
    }
}

/// The receipt's confirmation code: the first eight upper-case hexadecimal
/// digits of the SHA-256 digest of the id's bytes and the timestamp's
/// decimal text.
pub open spec fn confirmation_code_spec(id: u128, timestamp: i64) -> Seq<char> {
    hex_upper(
        sha256_of(be_bytes(id as nat, 16) + utf8_of(signed_digits(timestamp as int))).subrange(0, 4),
    )
}


impl TransactionManager {
    pub closed spec fn config_spec(&self) -> SafeBankConfig {
        self.config
    }

    pub closed spec fn transactions_spec(&self) -> Seq<Transaction> {
        self.transactions@
    }

    pub closed spec fn limits_spec(&self) -> Map<u128, DailyLimit> {
        self.daily_limits@
    }

    /// Ids are unique; each user has one daily record, filed under its own id,
    /// whose count never exceeds its total (every amount is at least one cent).
    pub closed spec fn wf(&self) -> bool {
        &&& ids_unique(self.transactions@)
        &&& forall|k: u128|
            #[trigger] self.daily_limits@.contains_key(k) ==> self.daily_limits@[k].user_id == k
                && self.daily_limits@[k].transaction_count <= self.daily_limits@[k].total_amount
    }

    /// A well-formed ledger has unique transaction ids.
    pub proof fn lemma_unique(&self)
        requires
            self.wf(),
        ensures
            ids_unique(self.transactions_spec()),
    {
    }

    pub fn new(config: &SafeBankConfig) -> (r: Self)
        ensures
            r.wf(),
            r.config_spec() == *config,
            r.transactions_spec().len() == 0,
            r.limits_spec() == Map::<u128, DailyLimit>::empty(),
    {
        TransactionManager {
            config: config.duplicate(),
            transactions: Vec::new(),
            daily_limits: HashMap::new(),
        }
    }

    /// The daily record of a user, if any.
    pub fn daily_limit(&self, user_id: u128) -> (r: Option<DailyLimit>)
        requires
            self.wf(),
        ensures
            r == day_record(self.limits_spec(), user_id),
    {
        match self.daily_limits.get(&user_id) {
            Some(d) => Some(*d),
            None => None,
        }
    }

    fn position_of(&self, id: u128) -> (r: Option<usize>)
        requires
            self.wf(),
        ensures
            r is None <==> !has_tx(self.transactions@, id),
            r matches Some(i) ==> i == tx_index(self.transactions@, id) && i
                < self.transactions@.len(),
    {
        let mut i: usize = 0;
        while i < self.transactions.len()
            invariant
                i <= self.transactions@.len(),
                ids_unique(self.transactions@),
                forall|j: int| 0 <= j < i ==> self.transactions@[j].transaction_id != id,
            decreases self.transactions@.len() - i,
        {
            if self.transactions[i].transaction_id == id {
                assert(has_tx(self.transactions@, id));
                let ghost c = tx_index(self.transactions@, id);
                assert(self.transactions@[c].transaction_id == self.transactions@[i as int].transaction_id);
                return Some(i);
            }
            i += 1;
        }
        None
    }

    /// Refuses a transaction that would take the user's total for today
    /// above the daily limit; a record of another day does not count.
    fn check_daily_limit(&self, transaction: &Transaction, today: i64) -> (r: Result<()>)
        requires
            self.wf(),
            transaction.amount > 0,
            transaction.amount <= self.config.single_transaction_limit,
        ensures
            r is Ok <==> process_fault(self.config, self.daily_limits@, *transaction, today as int) is None,
            r matches Err(e) ==> reports(e, process_fault(self.config, self.daily_limits@, *transaction, today as int)->Some_0),
    {
        match self.daily_limit(transaction.user_id) {
            Some(d) => {
                if d.date == today {
                    let projected: u128 = d.total_amount as u128 + transaction.amount as u128;
                    if projected > self.config.daily_transaction_limit as u128 {
                        return Err(SafeBankError::TransactionLimitExceeded {
                            amount: projected,
                            limit: self.config.daily_transaction_limit,
                        });
                    }
                }
                Ok(())
            },
            None => Ok(()),
        }
    }

    /// Adds the transaction to the user's daily record.
    fn update_daily_limit(&mut self, transaction: &Transaction, today: i64)
        requires
            old(self).wf(),
            transaction.amount > 0,
            process_fault(old(self).config, old(self).daily_limits@, *transaction, today as int) is None,
        ensures
            final(self).wf(),
            final(self).daily_limits@ == limits_after(old(self).daily_limits@, *transaction, today as int),
            final(self).transactions@ == old(self).transactions@,
            final(self).config == old(self).config,
    {
        let prev = self.daily_limit(transaction.user_id);
        let next = match prev {
            Some(d) => {
                if d.date == today {
                    assert(self.daily_limits@.contains_key(transaction.user_id));
                    DailyLimit {
                        user_id: transaction.user_id,
                        date: d.date,
                        total_amount: d.total_amount + transaction.amount,
                        transaction_count: d.transaction_count + 1,
                    }
                } else {
                    DailyLimit {
                        user_id: transaction.user_id,
                        date: today,
                        total_amount: transaction.amount,
                        transaction_count: 1,
                    }
                }
            },
            None => DailyLimit {
                user_id: transaction.user_id,
                date: today,
                total_amount: transaction.amount,
                transaction_count: 1,
            },
        };
        self.daily_limits.insert(transaction.user_id, next);
    }

    /// Validates and records a transaction processed on day `day_of(now)`:
    /// the amount must be positive and within the single-transaction limit,
    /// and the day's total within the daily limit. On success the
    /// transaction is stored and the day's record updated; on failure
    /// nothing changes.
    pub fn process_transaction_at(&mut self, transaction: Transaction, now: i64) -> (r: Result<
        Transaction,
    >)
        requires
            old(self).wf(),
        ensures
            final(self).wf(),
            final(self).config_spec() == old(self).config_spec(),
            processed(
                old(self).config_spec(),
                old(self).transactions_spec(),
                old(self).limits_spec(),
                transaction,
                day_of_spec(now as int),
                r,
                final(self).transactions_spec(),
                final(self).limits_spec(),
            ),
    {
        if transaction.amount == 0 {
            return Err(SafeBankError::ConfigError {
                message: String::from_str("Transaction amount must be positive"),
            });
        }
        if transaction.amount > self.config.single_transaction_limit {
            return Err(SafeBankError::TransactionLimitExceeded {
                amount: transaction.amount as u128,
                limit: self.config.single_transaction_limit,
            });
        }
        let today = day_of(now);
        self.check_daily_limit(&transaction, today)?;
        self.validate_transaction_status(&transaction)?;
        self.update_daily_limit(&transaction, today);
        let stored = transaction.duplicate();
        let ghost before = self.transactions@;
        match self.position_of(transaction.transaction_id) {
            Some(i) => {
                self.transactions.set(i, stored);
            },
            None => {
                self.transactions.push(stored);
            },
        }
        proof {
            assert(self.transactions@ == store_tx(before, transaction));
            lemma_store_tx_find(before, transaction);
        }
        Ok(transaction)
    }

    /// Accepts every status: terminal statuses are guarded by `approve` and
    /// `reject`, not at insertion.
    fn validate_transaction_status(&self, transaction: &Transaction) -> (r: Result<()>)
        ensures
            r is Ok,
    {
        match transaction.status {
            TransactionStatus::Approved | TransactionStatus::Rejected => Ok(()),
            TransactionStatus::Pending
            | TransactionStatus::Flagged
            | TransactionStatus::RequiresApproval => Ok(()),
        }
    }

    /// `process_transaction_at` at the current time.
    pub fn process_transaction(&mut self, transaction: Transaction) -> (r: Result<Transaction>)
        requires
            old(self).wf(),
        ensures
            final(self).wf(),
            final(self).config_spec() == old(self).config_spec(),
            exists|today: int|
                processed(
                    old(self).config_spec(),
                    old(self).transactions_spec(),
                    old(self).limits_spec(),
                    transaction,
                    today,
                    r,
                    final(self).transactions_spec(),
                    final(self).limits_spec(),
                ),
    {
        let now = crate::now_seconds();
        self.process_transaction_at(transaction, now)
    }
}


impl TransactionManager {
    /// The stored transaction with this id.
    pub fn get_transaction(&self, transaction_id: u128) -> (r: Result<Transaction>)
        requires
            self.wf(),
        ensures
            match find_tx(self.transactions_spec(), transaction_id) {
                Some(t) => r == Ok::<Transaction, SafeBankError>(t),
                None => r matches Err(SafeBankError::StorageError { message }) && message@
                    == "Transaction not found: "@ + id_text_spec(transaction_id),
            },
    {
        match self.position_of(transaction_id) {
            Some(i) => Ok(self.transactions[i].duplicate()),
            None => Err(not_found(transaction_id)),
        }
    }

    /// The user's transactions, most recent first (ties in store order).
    pub fn get_user_transactions(&self, user_id: u128) -> (r: Result<Vec<Transaction>>)
        ensures
            r matches Ok(v) && v@ == by_time_desc(of_user(self.transactions_spec(), user_id)),
    {
        let mut out: Vec<Transaction> = Vec::new();
        let mut i: usize = 0;
        while i < self.transactions.len()
            invariant
                i <= self.transactions@.len(),
                out@ == by_time_desc(of_user(self.transactions@.subrange(0, i as int), user_id)),
            decreases self.transactions@.len() - i,
        {
            let ghost pre = self.transactions@.subrange(0, i as int);
            let ghost post = self.transactions@.subrange(0, i as int + 1);
            proof {
                assert(post.drop_last() =~= pre);
            }
            let t = &self.transactions[i];
            if t.user_id == user_id {
                let mut k: usize = 0;
                while k < out.len() && out[k].timestamp >= t.timestamp
                    invariant
                        k <= out@.len(),
                        forall|j: int| 0 <= j < k ==> out@[j].timestamp >= t.timestamp,
                    decreases out@.len() - k,
                {
                    k += 1;
                }
                proof {
                    lemma_insert_at(out@, *t, k as int);
                    let u = of_user(pre, user_id);
                    assert(of_user(post, user_id) == u.push(*t));
                    assert(u.push(*t).drop_last() =~= u);
                }
                out.insert(k, t.duplicate());
            } else {
                assert(of_user(post, user_id) == of_user(pre, user_id));
            }
            i += 1;
        }
        assert(self.transactions@.subrange(0, self.transactions@.len() as int) =~= self.transactions@);
        Ok(out)
    }

    /// A receipt for a transaction, with its confirmation code.
    pub fn create_receipt(&self, transaction: &Transaction) -> (r: TransactionReceipt)
        ensures
            r.transaction_id == transaction.transaction_id,
            r.timestamp == transaction.timestamp,
            r.amount == transaction.amount,
            r.recipient == transaction.recipient,
            r.status == transaction.status,
            r.fraud_score == transaction.fraud_score,
            r.confirmation_code@ == confirmation_code_spec(
                transaction.transaction_id,
                transaction.timestamp,
            ),
            r.confirmation_code@.len() == 8,
    {
        TransactionReceipt {
            transaction_id: transaction.transaction_id,
            timestamp: transaction.timestamp,
            amount: transaction.amount,
            recipient: transaction.recipient.clone(),
            status: transaction.status,
            confirmation_code: confirmation_code(transaction.transaction_id, transaction.timestamp),
            fraud_score: transaction.fraud_score,
        }
    }

    /// Approves a transaction awaiting approval or flagged; any other status
    /// is refused and named.
    pub fn approve_transaction(&mut self, transaction_id: u128) -> (r: Result<Transaction>)
        requires
            old(self).wf(),
        ensures
            final(self).wf(),
            final(self).config_spec() == old(self).config_spec(),
            final(self).limits_spec() == old(self).limits_spec(),
            ({
                let txs = old(self).transactions_spec();
                match find_tx(txs, transaction_id) {
                    None => r matches Err(SafeBankError::StorageError { .. })
                        && final(self).transactions_spec() == txs,
                    Some(t) => if may_approve(t.status) {
                        &&& r == Ok::<Transaction, SafeBankError>(
                            Transaction { status: TransactionStatus::Approved, ..t },
                        )
                        &&& final(self).transactions_spec() == with_status(
                            txs,
                            transaction_id,
                            TransactionStatus::Approved,
                        )
                        &&& find_tx(final(self).transactions_spec(), transaction_id) == Some(
                            Transaction { status: TransactionStatus::Approved, ..t },
                        )
                    } else {
                        &&& r matches Err(SafeBankError::InvalidTransactionState { current_state })
                            && current_state@ == t.status.name_spec()
                        &&& final(self).transactions_spec() == txs
                    },
                }
            }),
    {
        let i = match self.position_of(transaction_id) {
            Some(i) => i,
            None => {
                return Err(not_found(transaction_id));
            },
        };
        let mut transaction = self.transactions[i].duplicate();
        if transaction.status != TransactionStatus::RequiresApproval && transaction.status
            != TransactionStatus::Flagged {
            return Err(SafeBankError::InvalidTransactionState {
                current_state: transaction.status.name(),
            });
        }
        transaction.status = TransactionStatus::Approved;
        self.transactions.set(i, transaction.duplicate());
        proof {
            self.lemma_status_keeps_ids(old(self).transactions@, i as int);
            lemma_with_status_find(old(self).transactions@, transaction_id, transaction.status);
        }
        Ok(transaction)
    }

    /// Rejects a transaction; an approved one is refused.
    pub fn reject_transaction(&mut self, transaction_id: u128, _reason: String) -> (r: Result<
        Transaction,
    >)
        requires
            old(self).wf(),
        ensures
            final(self).wf(),
            final(self).config_spec() == old(self).config_spec(),
            final(self).limits_spec() == old(self).limits_spec(),
            ({
                let txs = old(self).transactions_spec();
                match find_tx(txs, transaction_id) {
                    None => r matches Err(SafeBankError::StorageError { .. })
                        && final(self).transactions_spec() == txs,
                    Some(t) => if may_reject(t.status) {
                        &&& r == Ok::<Transaction, SafeBankError>(
                            Transaction { status: TransactionStatus::Rejected, ..t },
                        )
                        &&& final(self).transactions_spec() == with_status(
                            txs,
                            transaction_id,
                            TransactionStatus::Rejected,
                        )
                        &&& find_tx(final(self).transactions_spec(), transaction_id) == Some(
                            Transaction { status: TransactionStatus::Rejected, ..t },
                        )
                    } else {
                        &&& r matches Err(SafeBankError::InvalidTransactionState { current_state })
                            && current_state@ == "Cannot reject approved transaction"@
                        &&& final(self).transactions_spec() == txs
                    },
                }
            }),
    {
        let i = match self.position_of(transaction_id) {
            Some(i) => i,
            None => {
                return Err(not_found(transaction_id));
            },
        };
        let mut transaction = self.transactions[i].duplicate();
        if transaction.status == TransactionStatus::Approved {
            return Err(SafeBankError::InvalidTransactionState {
                current_state: String::from_str("Cannot reject approved transaction"),
            });
        }
        transaction.status = TransactionStatus::Rejected;
        self.transactions.set(i, transaction.duplicate());
        proof {
            self.lemma_status_keeps_ids(old(self).transactions@, i as int);
            lemma_with_status_find(old(self).transactions@, transaction_id, transaction.status);
        }
        Ok(transaction)
    }

    proof fn lemma_status_keeps_ids(&self, before: Seq<Transaction>, k: int)
        requires
            ids_unique(before),
            0 <= k < before.len(),
            self.transactions@.len() == before.len(),
            self.transactions@[k].transaction_id == before[k].transaction_id,
            forall|i: int| 0 <= i < before.len() && i != k ==> self.transactions@[i] == before[i],
        ensures
            ids_unique(self.transactions@),
    {
        let after = self.transactions@;
        assert forall|i: int, j: int|
            #![trigger after[i], after[j]]
            0 <= i < after.len() && 0 <= j < after.len() && after[i].transaction_id
                == after[j].transaction_id implies i == j by {
            assert(after[i].transaction_id == before[i].transaction_id);
            assert(after[j].transaction_id == before[j].transaction_id);
            assert(before[i].transaction_id == before[j].transaction_id);
        }
    }

    /// Counts by status and the total volume over all stored transactions.
    pub fn get_transaction_statistics(&self) -> (r: TransactionStatistics)
        ensures
            r.total_transactions == self.transactions_spec().len(),
            r.approved_count == count_status(self.transactions_spec(), TransactionStatus::Approved),
            r.rejected_count == count_status(self.transactions_spec(), TransactionStatus::Rejected),
            r.flagged_count == count_status(self.transactions_spec(), TransactionStatus::Flagged)
                + count_status(self.transactions_spec(), TransactionStatus::RequiresApproval),
            r.total_volume == volume(self.transactions_spec()),
    {
        let mut approved: u64 = 0;
        let mut rejected: u64 = 0;
        let mut flagged: u64 = 0;
        let mut total: u128 = 0;
        let mut i: usize = 0;
        while i < self.transactions.len()
            invariant
                i <= self.transactions@.len(),
                approved == count_status(self.transactions@.subrange(0, i as int), TransactionStatus::Approved),
                rejected == count_status(self.transactions@.subrange(0, i as int), TransactionStatus::Rejected),
                flagged == count_status(self.transactions@.subrange(0, i as int), TransactionStatus::Flagged)
                    + count_status(self.transactions@.subrange(0, i as int), TransactionStatus::RequiresApproval),
                total == volume(self.transactions@.subrange(0, i as int)),
            decreases self.transactions@.len() - i,
        {
            let ghost pre = self.transactions@.subrange(0, i as int);
            proof {
                assert(self.transactions@.subrange(0, i as int + 1).drop_last() =~= pre);
                lemma_count_bound(pre, TransactionStatus::Approved);
                lemma_count_bound(pre, TransactionStatus::Rejected);
                lemma_count_bound(pre, TransactionStatus::Flagged);
                lemma_count_bound(pre, TransactionStatus::RequiresApproval);
                lemma_count_pair(pre, TransactionStatus::Flagged, TransactionStatus::RequiresApproval);
                lemma_volume_bound(pre);
            }
            let t = &self.transactions[i];
            match t.status {
                TransactionStatus::Approved => {
                    approved += 1;
                },
                TransactionStatus::Rejected => {
                    rejected += 1;
                },
                TransactionStatus::Flagged | TransactionStatus::RequiresApproval => {
                    flagged += 1;
                },
                _ => {},
            }
            total = total + t.amount as u128;
            i += 1;
        }
        assert(self.transactions@.subrange(0, self.transactions@.len() as int) =~= self.transactions@);
        TransactionStatistics {
            total_transactions: self.transactions.len() as u64,
            approved_count: approved,
            rejected_count: rejected,
            flagged_count: flagged,
            total_volume: total,
        }
    }
}

/// The error for an empty secret key.
fn empty_key_error() -> (r: SafeBankError)
    ensures
        is_empty_key_error(r),
{
    SafeBankError::CryptographyError { message: String::from_str("Secret key must not be empty") }
}

/// The error for an unknown transaction id.
fn not_found(transaction_id: u128) -> (r: SafeBankError)
    ensures
        r matches SafeBankError::StorageError { message } && message@ == "Transaction not found: "@
            + id_text_spec(transaction_id),
{
    let m = String::from_str("Transaction not found: ").concat(id_text(transaction_id).as_str());
    SafeBankError::StorageError { message: m }
}

/// The confirmation code of a receipt.
pub fn confirmation_code(transaction_id: u128, timestamp: i64) -> (r: String)
    ensures
        r@ == confirmation_code_spec(transaction_id, timestamp),
        r@.len() == 8,
{
    let mut data = id_bytes(transaction_id);
    let ts = signed_decimal(timestamp);
    push_all(&mut data, ts.as_str().as_bytes());
    let digest = sha256(data.as_slice());
    let mut head: Vec<u8> = Vec::new();
    let mut k: usize = 0;
    while k < 4
        invariant
            k <= 4,
            digest@.len() == 32,
            head@ == digest@.subrange(0, k as int),
        decreases 4 - k,
    {
        head.push(digest[k]);
        k += 1;
    }
    to_hex_upper(head.as_slice())
}


fn type_tag_of(t: TransactionType) -> (r: u8)
    ensures
        r == type_tag(t),
{
    match t {
        TransactionType::Transfer => 0,
        TransactionType::Payment => 1,
        TransactionType::Withdrawal => 2,
        TransactionType::Deposit => 3,
    }
}

fn status_tag_of(s: TransactionStatus) -> (r: u8)
    ensures
        r == status_tag(s),
{
    match s {
        TransactionStatus::Pending => 0,
        TransactionStatus::Approved => 1,
        TransactionStatus::Rejected => 2,
        TransactionStatus::Flagged => 3,
        TransactionStatus::RequiresApproval => 4,
    }
}

fn push_text(out: &mut Vec<u8>, s: &String)
    ensures
        final(out)@ == old(out)@ + text_field(s@),
{
    let b = bytes_of(s.as_str());
    let n = be_vec(b.len() as u64, 8);
    push_all(out, n.as_slice());
    push_all(out, b.as_slice());
    assert(final(out)@ =~= old(out)@ + text_field(s@));
}

/// The canonical encoding of a transaction.
pub fn encode_transaction(t: &Transaction) -> (r: Vec<u8>)
    ensures
        r@ == transaction_bytes(*t),
{
    let mut out = id_bytes(t.transaction_id);
    push_all(&mut out, id_bytes(t.user_id).as_slice());
    push_all(&mut out, be_vec(t.amount, 8).as_slice());
    push_text(&mut out, &t.recipient);
    out.push(type_tag_of(t.transaction_type));
    push_all(&mut out, be_vec(t.timestamp as u64, 8).as_slice());
    push_text(&mut out, &t.device_id);
    push_all(&mut out, be_vec(t.fraud_score, 8).as_slice());
    out.push(status_tag_of(t.status));
    assert(out@ =~= transaction_bytes(*t));
    out
}

fn tag_of(plain: &Vec<u8>, key: &Vec<u8>) -> (r: String)
    ensures
        r@ == seal_tag(plain@, key@),
        r@.len() == 64,
{
    let mut data: Vec<u8> = Vec::new();
    push_all(&mut data, plain.as_slice());
    push_all(&mut data, key.as_slice());
    assert(data@ =~= plain@ + key@);
    to_hex(sha256(data.as_slice()).as_slice())
}

impl TransactionManager {
    /// Seals a transaction for offline use at time `now`: its canonical
    /// encoding, obscured with the secret and written in hexadecimal, an
    /// integrity tag over the plain encoding and the secret, and an expiry.
    /// An amount above the offline limit is refused, then an empty key.
    pub fn create_offline_transaction_at(
        &self,
        transaction: &Transaction,
        secret_key: &str,
        now: i64,
    ) -> (r: Result<OfflineTransaction>)
        ensures
            transaction.amount > self.config_spec().offline_transaction_limit ==> r
                == Err::<OfflineTransaction, SafeBankError>(
                SafeBankError::TransactionLimitExceeded {
                    amount: transaction.amount as u128,
                    limit: self.config_spec().offline_transaction_limit,
                },
            ),
            transaction.amount <= self.config_spec().offline_transaction_limit && utf8_of(
                secret_key@,
            ).len() == 0 ==> (r matches Err(e) && is_empty_key_error(e)),
            transaction.amount <= self.config_spec().offline_transaction_limit && utf8_of(
                secret_key@,
            ).len() > 0 ==> (r matches Ok(env) && env.signature@.len() == 64
                && env.transaction == *transaction && env.encrypted_data@ == sealed_data(
                *transaction,
                utf8_of(secret_key@),
            ) && env.signature@ == seal_tag(transaction_bytes(*transaction), utf8_of(secret_key@))
                && env.expires_at == expiry(
                now as int,
                self.config_spec().offline_cache_duration_hours as int,
            )),
    {
        if transaction.amount > self.config.offline_transaction_limit {
            return Err(SafeBankError::TransactionLimitExceeded {
                amount: transaction.amount as u128,
                limit: self.config.offline_transaction_limit,
            });
        }
        let key = bytes_of(secret_key);
        if key.len() == 0 {
            return Err(empty_key_error());
        }
        let plain = encode_transaction(transaction);
        let obscured = xor_bytes(plain.as_slice(), key.as_slice());
        let encrypted_data = to_hex(obscured.as_slice());
        let signature = tag_of(&plain, &key);
        let later: i128 = now as i128 + (self.config.offline_cache_duration_hours as i128) * 3600;
        let expires_at: i64 = if later > 0x7FFF_FFFF_FFFF_FFFFi128 {
            0x7FFF_FFFF_FFFF_FFFFi64
        } else {
            later as i64
        };
        Ok(OfflineTransaction {
            transaction: transaction.duplicate(),
            encrypted_data,
            signature,
            expires_at,
        })
    }

    /// `create_offline_transaction_at` at the current time.
    pub fn create_offline_transaction(&self, transaction: &Transaction, secret_key: &str) -> (r:
        Result<OfflineTransaction>)
        ensures
            transaction.amount > self.config_spec().offline_transaction_limit ==> r
                == Err::<OfflineTransaction, SafeBankError>(
                SafeBankError::TransactionLimitExceeded {
                    amount: transaction.amount as u128,
                    limit: self.config_spec().offline_transaction_limit,
                },
            ),
            transaction.amount <= self.config_spec().offline_transaction_limit && utf8_of(
                secret_key@,
            ).len() == 0 ==> (r matches Err(e) && is_empty_key_error(e)),
            transaction.amount <= self.config_spec().offline_transaction_limit && utf8_of(
                secret_key@,
            ).len() > 0 ==> (r matches Ok(env) && env.signature@.len() == 64
                && env.transaction == *transaction && env.encrypted_data@ == sealed_data(
                *transaction,
                utf8_of(secret_key@),
            ) && env.signature@ == seal_tag(transaction_bytes(*transaction), utf8_of(secret_key@))
                && exists|now: i64|
                env.expires_at == expiry(
                    now as int,
                    self.config_spec().offline_cache_duration_hours as int,
                )),
    {
        let now = crate::now_seconds();
        self.create_offline_transaction_at(transaction, secret_key, now)
    }

    /// Replays an envelope at time `now`: it must not have expired, the key
    /// must not be empty, its data must decode, the tag recomputed over the
    /// recovered encoding and the secret must match, and the recovered
    /// encoding must be that of a transaction. That transaction then goes through
    /// `process_transaction_at`; on any refusal nothing changes.
    pub fn process_offline_transaction_at(
        &mut self,
        offline_tx: &OfflineTransaction,
        secret_key: &str,
        now: i64,
    ) -> (r: Result<Transaction>)
        requires
            old(self).wf(),
        ensures
            final(self).wf(),
            final(self).config_spec() == old(self).config_spec(),
            replayed(
                old(self).config_spec(),
                old(self).transactions_spec(),
                old(self).limits_spec(),
                *offline_tx,
                utf8_of(secret_key@),
                now as int,
                r,
                final(self).transactions_spec(),
                final(self).limits_spec(),
            ),
    {
        if now > offline_tx.expires_at {
            return Err(SafeBankError::TimeoutError {
                operation: String::from_str("Offline transaction expired"),
            });
        }
        let key = bytes_of(secret_key);
        if key.len() == 0 {
            return Err(empty_key_error());
        }
        let decoded = match from_hex(offline_tx.encrypted_data.as_str()) {
            Ok(b) => b,
            Err(_) => {
                return Err(SafeBankError::CryptographyError {
                    message: String::from_str("Failed to decode encrypted data"),
                });
            },
        };
        proof {
            lemma_hex_decode_unique(offline_tx.encrypted_data@, decoded@);
        }
        let plain = xor_bytes(decoded.as_slice(), key.as_slice());
        let expected = tag_of(&plain, &key);
        if !(expected == offline_tx.signature) {
            return Err(SafeBankError::CryptographyError {
                message: String::from_str("Invalid transaction signature"),
            });
        }
        match decode_transaction(&plain) {
            Some(t) => self.process_transaction_at(t, now),
            None => Err(SafeBankError::SerializationError {
                message: String::from_str("Envelope holds no transaction"),
            }),
        }
    }

    /// `process_offline_transaction_at` at the current time.
    pub fn process_offline_transaction(
        &mut self,
        offline_tx: &OfflineTransaction,
        secret_key: &str,
    ) -> (r: Result<Transaction>)
        requires
            old(self).wf(),
        ensures
            final(self).wf(),
            final(self).config_spec() == old(self).config_spec(),
            exists|now: int|
                replayed(
                    old(self).config_spec(),
                    old(self).transactions_spec(),
                    old(self).limits_spec(),
                    *offline_tx,
                    utf8_of(secret_key@),
                    now,
                    r,
                    final(self).transactions_spec(),
                    final(self).limits_spec(),
                ),
    {
        let now = crate::now_seconds();
        self.process_offline_transaction_at(offline_tx, secret_key, now)
    }
}


// ------------------------------------------------------------ laws

/// A positive amount within the single-transaction limit, with no record
/// for the user dated today, is accepted, and the day's record then holds
/// exactly that amount.
pub proof fn lemma_first_transaction_of_day(
    c: SafeBankConfig,
    limits: Map<u128, DailyLimit>,
    t: Transaction,
    today: int,
)
    requires
        0 < t.amount <= c.single_transaction_limit,
        i64::MIN <= today <= i64::MAX,
        day_record(limits, t.user_id) matches Some(d) ==> d.date != today,
    ensures
        process_fault(c, limits, t, today) is None,
        day_record(limits_after(limits, t, today), t.user_id) matches Some(d) && d.total_amount
            == t.amount && d.transaction_count == 1 && d.date == today,
{
}

/// An amount above the single-transaction limit is refused, the error
/// carrying the amount and the limit.
pub proof fn lemma_over_single_limit(
    c: SafeBankConfig,
    limits: Map<u128, DailyLimit>,
    t: Transaction,
    today: int,
)
    requires
        t.amount > c.single_transaction_limit,
    ensures
        process_fault(c, limits, t, today) == Some(
            LedgerFault::SingleLimit {
                amount: t.amount as int,
                limit: c.single_transaction_limit as int,
            },
        ),
{
}

/// Of two same-day transactions of one user (the first of that day) whose
/// amounts together exceed the daily limit, the second is refused, the
/// error carrying their sum.
pub proof fn lemma_second_over_daily_limit(
    c: SafeBankConfig,
    limits: Map<u128, DailyLimit>,
    first: Transaction,
    second: Transaction,
    today: int,
)
    requires
        i64::MIN <= today <= i64::MAX,
        first.user_id == second.user_id,
        day_record(limits, first.user_id) matches Some(d) ==> d.date != today,
        process_fault(c, limits, first, today) is None,
        0 < second.amount <= c.single_transaction_limit,
        first.amount + second.amount > c.daily_transaction_limit,
    ensures
        process_fault(c, limits_after(limits, first, today), second, today) == Some(
            LedgerFault::DailyLimit {
                projected: first.amount + second.amount,
                limit: c.daily_transaction_limit as int,
            },
        ),
{
    lemma_first_transaction_of_day(c, limits, first, today);
}

/// Approving leaves the transaction `Approved`, from which a second
/// approval is refused, so it changes nothing.
pub proof fn lemma_approve_twice(txs: Seq<Transaction>, id: u128)
    requires
        ids_unique(txs),
        find_tx(txs, id) matches Some(t) && may_approve(t.status),
    ensures
        ids_unique(with_status(txs, id, TransactionStatus::Approved)),
        find_tx(with_status(txs, id, TransactionStatus::Approved), id) matches Some(t2) && t2.status
            == TransactionStatus::Approved && !may_approve(t2.status),
{
    let after = with_status(txs, id, TransactionStatus::Approved);
    let k = tx_index(txs, id);
    assert(after[k].transaction_id == id);
    assert(has_tx(after, id));
    let c = tx_index(after, id);
    assert forall|i: int, j: int|
        #![trigger after[i], after[j]]
        0 <= i < after.len() && 0 <= j < after.len() && after[i].transaction_id
            == after[j].transaction_id implies i == j by {
        assert(after[i].transaction_id == txs[i].transaction_id);
        assert(after[j].transaction_id == txs[j].transaction_id);
    }
    assert(after[c].transaction_id == after[k].transaction_id);
}

/// An envelope sealed with a key and replayed with the same key before it
/// expires passes every envelope check, and the encoding it recovers is
/// the sealed transaction's: replaying it is processing a transaction of
/// the same content (see `lemma_same_encoding`).
pub proof fn lemma_seal_then_unseal(t: Transaction, key: Seq<u8>, now: int, hours: int, later: int)
    requires
        key.len() > 0,
        later <= expiry(now, hours),
    ensures
        recovered_plain(sealed_data(t, key), key) == transaction_bytes(t),
        envelope_fault(
            sealed_data(t, key),
            seal_tag(transaction_bytes(t), key),
            expiry(now, hours),
            key,
            later,
        ) is None,
{
    let plain = transaction_bytes(t);
    let obscured = xor_with(plain, key);
    lemma_hex_round_trip(obscured);
    lemma_hex_decode_unique(hex_lower(obscured), obscured);
    lemma_xor_twice(plain, key);
}

/// Two transactions with one encoding (of a size that memory can hold)
/// have the same content.
pub proof fn lemma_same_encoding(t1: Transaction, t2: Transaction)
    requires
        transaction_bytes(t1) == transaction_bytes(t2),
        transaction_bytes(t1).len() <= usize::MAX,
    ensures
        t1.transaction_id == t2.transaction_id,
        t1.user_id == t2.user_id,
        t1.amount == t2.amount,
        t1.recipient@ == t2.recipient@,
        t1.transaction_type == t2.transaction_type,
        t1.timestamp == t2.timestamp,
        t1.device_id@ == t2.device_id@,
        t1.fraud_score == t2.fraud_score,
        t1.status == t2.status,
{
    lemma_layout(t1);
    lemma_layout(t2);
    let e = transaction_bytes(t1);
    reveal_with_fuel(pow256, 17);
    assert(pow256(8) == 0x1_0000_0000_0000_0000);
    lemma_from_be_bytes(t1.transaction_id as nat, 16);
    lemma_from_be_bytes(t2.transaction_id as nat, 16);
    lemma_from_be_bytes(t1.user_id as nat, 16);
    lemma_from_be_bytes(t2.user_id as nat, 16);
    lemma_from_be_bytes(t1.amount as nat, 8);
    lemma_from_be_bytes(t2.amount as nat, 8);
    lemma_from_be_bytes(t1.fraud_score as nat, 8);
    lemma_from_be_bytes(t2.fraud_score as nat, 8);
    lemma_from_be_bytes((t1.timestamp as u64) as nat, 8);
    lemma_from_be_bytes((t2.timestamp as u64) as nat, 8);
    let r1 = utf8_of(t1.recipient@).len();
    let r2 = utf8_of(t2.recipient@).len();
    assert(r1 < pow256(8) && r2 < pow256(8));
    lemma_from_be_bytes(r1, 8);
    lemma_from_be_bytes(r2, 8);
    assert(e.subrange(40, 48) == be_bytes(r1, 8));
    assert(r1 == r2);
    let d1 = utf8_of(t1.device_id@).len();
    let d2 = utf8_of(t2.device_id@).len();
    assert(d1 == d2);
    encode_utf8_decode_utf8(t1.recipient@);
    encode_utf8_decode_utf8(t2.recipient@);
    encode_utf8_decode_utf8(t1.device_id@);
    encode_utf8_decode_utf8(t2.device_id@);
    let a = t1.timestamp;
    let b = t2.timestamp;
    assert(a as u64 == b as u64 ==> a == b) by (bit_vector);
    assert(t1.transaction_type == t2.transaction_type);
    assert(t1.status == t2.status);
}

/// Where the parts of an encoding lie: after the two ids and the amount
/// come the recipient's length and bytes, the type tag, the timestamp, the
/// device's length and bytes, the score and the status tag.
pub proof fn lemma_layout(t: Transaction)
    ensures
        ({
            let e = transaction_bytes(t);
            let rl = utf8_of(t.recipient@).len() as int;
            let dl = utf8_of(t.device_id@).len() as int;
            &&& e.len() == 74 + rl + dl
            &&& e.subrange(0, 16) == be_bytes(t.transaction_id as nat, 16)
            &&& e.subrange(16, 32) == be_bytes(t.user_id as nat, 16)
            &&& e.subrange(32, 40) == be_bytes(t.amount as nat, 8)
            &&& e.subrange(40, 48) == be_bytes(rl as nat, 8)
            &&& e.subrange(48, 48 + rl) == utf8_of(t.recipient@)
            &&& e[48 + rl] == type_tag(t.transaction_type)
            &&& e.subrange(49 + rl, 57 + rl) == be_bytes((t.timestamp as u64) as nat, 8)
            &&& e.subrange(57 + rl, 65 + rl) == be_bytes(dl as nat, 8)
            &&& e.subrange(65 + rl, 65 + rl + dl) == utf8_of(t.device_id@)
            &&& e.subrange(65 + rl + dl, 73 + rl + dl) == be_bytes(t.fraud_score as nat, 8)
            &&& e[73 + rl + dl] == status_tag(t.status)
        }),
{
    let rl = utf8_of(t.recipient@).len() as int;
    let dl = utf8_of(t.device_id@).len() as int;
    lemma_be_bytes_len(t.transaction_id as nat, 16);
    lemma_be_bytes_len(t.user_id as nat, 16);
    lemma_be_bytes_len(t.amount as nat, 8);
    lemma_be_bytes_len(rl as nat, 8);
    lemma_be_bytes_len((t.timestamp as u64) as nat, 8);
    lemma_be_bytes_len(dl as nat, 8);
    lemma_be_bytes_len(t.fraud_score as nat, 8);
    let e = transaction_bytes(t);
    let a0 = be_bytes(t.transaction_id as nat, 16);
    let a1 = be_bytes(t.user_id as nat, 16);
    let a2 = be_bytes(t.amount as nat, 8);
    let a3 = be_bytes(rl as nat, 8);
    let a4 = utf8_of(t.recipient@);
    let a5 = seq![type_tag(t.transaction_type)];
    let a6 = be_bytes((t.timestamp as u64) as nat, 8);
    let a7 = be_bytes(dl as nat, 8);
    let a8 = utf8_of(t.device_id@);
    let a9 = be_bytes(t.fraud_score as nat, 8);
    let a10 = seq![status_tag(t.status)];
    assert(e =~= a0 + a1 + a2 + a3 + a4 + a5 + a6 + a7 + a8 + a9 + a10);
    assert(e.subrange(0, 16) =~= a0);
    assert(e.subrange(16, 32) =~= a1);
    assert(e.subrange(32, 40) =~= a2);
    assert(e.subrange(40, 48) =~= a3);
    assert(e.subrange(48, 48 + rl) =~= a4);
    assert(e.subrange(49 + rl, 57 + rl) =~= a6);
    assert(e.subrange(57 + rl, 65 + rl) =~= a7);
    assert(e.subrange(65 + rl, 65 + rl + dl) =~= a8);
    assert(e.subrange(65 + rl + dl, 73 + rl + dl) =~= a9);
}

/// What any encoding shows of itself: its length fields read back, its
/// strings are valid UTF-8 and its tags are in range.
proof fn lemma_encoding_shape(t: Transaction, b: Seq<u8>)
    requires
        transaction_bytes(t) == b,
        b.len() <= usize::MAX,
    ensures
        ({
            let rl = from_be(b.subrange(40, 48)) as int;
            let dl = utf8_of(t.device_id@).len() as int;
            &&& rl == utf8_of(t.recipient@).len()
            &&& b.len() == 74 + rl + dl
            &&& from_be(b.subrange(57 + rl, 65 + rl)) == dl
            &&& valid_utf8(b.subrange(48, 48 + rl))
            &&& valid_utf8(b.subrange(65 + rl, 65 + rl + dl))
            &&& b[48 + rl] <= 3
            &&& b[73 + rl + dl] <= 4
        }),
{
    lemma_layout(t);
    reveal_with_fuel(pow256, 9);
    let rl = utf8_of(t.recipient@).len();
    let dl = utf8_of(t.device_id@).len();
    assert(pow256(8) == 0x1_0000_0000_0000_0000);
    assert(rl <= b.len() && dl <= b.len());
    lemma_from_be_bytes(rl, 8);
    lemma_from_be_bytes(dl, 8);
    encode_utf8_valid_utf8(t.recipient@);
    encode_utf8_valid_utf8(t.device_id@);
}

fn type_of_tag(tag: u8) -> (r: Option<TransactionType>)
    ensures
        tag <= 3 ==> (r matches Some(x) && type_tag(x) == tag),
        tag > 3 ==> r is None,
{
    match tag {
        0 => Some(TransactionType::Transfer),
        1 => Some(TransactionType::Payment),
        2 => Some(TransactionType::Withdrawal),
        3 => Some(TransactionType::Deposit),
        _ => None,
    }
}

fn status_of_tag(tag: u8) -> (r: Option<TransactionStatus>)
    ensures
        tag <= 4 ==> (r matches Some(x) && status_tag(x) == tag),
        tag > 4 ==> r is None,
{
    match tag {
        0 => Some(TransactionStatus::Pending),
        1 => Some(TransactionStatus::Approved),
        2 => Some(TransactionStatus::Rejected),
        3 => Some(TransactionStatus::Flagged),
        4 => Some(TransactionStatus::RequiresApproval),
        _ => None,
    }
}

/// Bytes whose parts all agree with a transaction's encoding are that
/// encoding.
proof fn lemma_assemble(t: Transaction, b: Seq<u8>)
    requires
        ({
            let rl = utf8_of(t.recipient@).len() as int;
            let dl = utf8_of(t.device_id@).len() as int;
            &&& b.len() == 74 + rl + dl
            &&& b.subrange(0, 16) == be_bytes(t.transaction_id as nat, 16)
            &&& b.subrange(16, 32) == be_bytes(t.user_id as nat, 16)
            &&& b.subrange(32, 40) == be_bytes(t.amount as nat, 8)
            &&& b.subrange(40, 48) == be_bytes(rl as nat, 8)
            &&& b.subrange(48, 48 + rl) == utf8_of(t.recipient@)
            &&& b[48 + rl] == type_tag(t.transaction_type)
            &&& b.subrange(49 + rl, 57 + rl) == be_bytes((t.timestamp as u64) as nat, 8)
            &&& b.subrange(57 + rl, 65 + rl) == be_bytes(dl as nat, 8)
            &&& b.subrange(65 + rl, 65 + rl + dl) == utf8_of(t.device_id@)
            &&& b.subrange(65 + rl + dl, 73 + rl + dl) == be_bytes(t.fraud_score as nat, 8)
            &&& b[73 + rl + dl] == status_tag(t.status)
        }),
    ensures
        transaction_bytes(t) == b,
{
    lemma_layout(t);
    let e = transaction_bytes(t);
    let rl = utf8_of(t.recipient@).len() as int;
    let dl = utf8_of(t.device_id@).len() as int;
    assert forall|i: int| 0 <= i < b.len() implies e[i] == b[i] by {
        if i < 16 {
            assert(e.subrange(0, 16)[i] == b.subrange(0, 16)[i]);
        } else if i < 32 {
            assert(e.subrange(16, 32)[i - 16] == b.subrange(16, 32)[i - 16]);
        } else if i < 40 {
            assert(e.subrange(32, 40)[i - 32] == b.subrange(32, 40)[i - 32]);
        } else if i < 48 {
            assert(e.subrange(40, 48)[i - 40] == b.subrange(40, 48)[i - 40]);
        } else if i < 48 + rl {
            assert(e.subrange(48, 48 + rl)[i - 48] == b.subrange(48, 48 + rl)[i - 48]);
        } else if i == 48 + rl {
        } else if i < 57 + rl {
            assert(e.subrange(49 + rl, 57 + rl)[i - 49 - rl] == b.subrange(49 + rl, 57 + rl)[i
                - 49 - rl]);
        } else if i < 65 + rl {
            assert(e.subrange(57 + rl, 65 + rl)[i - 57 - rl] == b.subrange(57 + rl, 65 + rl)[i
                - 57 - rl]);
        } else if i < 65 + rl + dl {
            assert(e.subrange(65 + rl, 65 + rl + dl)[i - 65 - rl] == b.subrange(
                65 + rl,
                65 + rl + dl,
            )[i - 65 - rl]);
        } else if i < 73 + rl + dl {
            assert(e.subrange(65 + rl + dl, 73 + rl + dl)[i - 65 - rl - dl] == b.subrange(
                65 + rl + dl,
                73 + rl + dl,
            )[i - 65 - rl - dl]);
        }
    }
    assert(e =~= b);
}

/// Bytes that no encoding matches.
proof fn lemma_no_encoding(b: Seq<u8>)
    requires
        b.len() <= usize::MAX,
        ({
            let rl = from_be(b.subrange(40, 48)) as int;
            let dl = b.len() - 74 - rl;
            ||| b.len() < 74
            ||| rl > b.len() - 74
            ||| from_be(b.subrange(57 + rl, 65 + rl)) != dl
            ||| !valid_utf8(b.subrange(48, 48 + rl))
            ||| !valid_utf8(b.subrange(65 + rl, 65 + rl + dl))
            ||| b[48 + rl] > 3
            ||| b[73 + rl + dl] > 4
        }),
    ensures
        forall|t: Transaction| transaction_bytes(t) != b,
{
    assert forall|t: Transaction| transaction_bytes(t) != b by {
        if transaction_bytes(t) == b {
            lemma_encoding_shape(t, b);
        }
    }
}

/// Reads a transaction back from its canonical encoding; bytes that encode
/// no transaction give `None`.
pub fn decode_transaction(b: &Vec<u8>) -> (r: Option<Transaction>)
    ensures
        r matches Some(t) ==> transaction_bytes(t) == b@,
        r is None ==> forall|t: Transaction| transaction_bytes(t) != b@,
{
    let n = b.len();
    if n < 74 {
        proof {
            lemma_no_encoding(b@);
        }
        return None;
    }
    let rl0 = read_be(b, 40, 8);
    if rl0 > (n - 74) as u128 {
        proof {
            lemma_no_encoding(b@);
        }
        return None;
    }
    let rl = rl0 as usize;
    let dl0 = read_be(b, 57 + rl, 8);
    if dl0 != (n - 74 - rl) as u128 {
        proof {
            lemma_no_encoding(b@);
        }
        return None;
    }
    let dl = dl0 as usize;
    let rbytes = slice_of(b, 48, rl);
    let dbytes = slice_of(b, 65 + rl, dl);
    let recipient = match crate::utils::string_from_utf8(rbytes.as_slice()) {
        Ok(s) => s,
        Err(_) => {
            proof {
                lemma_no_encoding(b@);
            }
            return None;
        },
    };
    let device_id = match crate::utils::string_from_utf8(dbytes.as_slice()) {
        Ok(s) => s,
        Err(_) => {
            proof {
                lemma_no_encoding(b@);
            }
            return None;
        },
    };
    let transaction_type = match type_of_tag(b[48 + rl]) {
        Some(x) => x,
        None => {
            proof {
                lemma_no_encoding(b@);
            }
            return None;
        },
    };
    let status = match status_of_tag(b[73 + rl + dl]) {
        Some(x) => x,
        None => {
            proof {
                lemma_no_encoding(b@);
            }
            return None;
        },
    };
    let transaction_id = read_be(b, 0, 16);
    let user_id = read_be(b, 16, 16);
    let amount = read_be(b, 32, 8);
    let ts = read_be(b, 49 + rl, 8);
    let score = read_be(b, 65 + rl + dl, 8);
    proof {
        reveal_with_fuel(pow256, 17);
        assert(pow256(8) == 0x1_0000_0000_0000_0000);
        lemma_be_bytes_from(b@.subrange(0, 16));
        lemma_be_bytes_from(b@.subrange(16, 32));
        lemma_be_bytes_from(b@.subrange(32, 40));
        lemma_be_bytes_from(b@.subrange(40, 48));
        lemma_be_bytes_from(b@.subrange(49 + rl, 57 + rl));
        lemma_be_bytes_from(b@.subrange(57 + rl, 65 + rl));
        lemma_be_bytes_from(b@.subrange(65 + rl + dl, 73 + rl + dl));
    }
    let ts64 = ts as u64;
    let timestamp = ts64 as i64;
    assert((timestamp as u64) == ts64) by (bit_vector)
        requires
            timestamp == ts64 as i64,
    ;
    let t = Transaction {
        transaction_id,
        user_id,
        amount: amount as u64,
        recipient,
        transaction_type,
        timestamp,
        device_id,
        fraud_score: score as u64,
        status,
    };
    proof {
        decode_utf8_encode_utf8(rbytes@);
        decode_utf8_encode_utf8(dbytes@);
        lemma_assemble(t, b@);
    }
    Some(t)
}

} // verus!
