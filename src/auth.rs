//! Authentication: registration with phone number and PIN, PIN checks,
//! device verification and temporary lockout after failed attempts.
use argon2::password_hash::{PasswordHash, PasswordHasher, PasswordVerifier, SaltString};
use crate::config::SafeBankConfig;
use crate::errors::{Result, SafeBankError};
use crate::{same_user, BehavioralProfile, DeviceInfo, UserProfile};
use vstd::prelude::*;

verus! {

/// Failed attempts recorded for one phone number.
#[derive(Debug, Clone, PartialEq, Eq)]
pub struct FailedAttempts {
    pub phone_number: String,
    pub count: u32,
    /// Seconds since the Unix epoch (UTC) of the latest failure.
    pub last_attempt: i64,
}

#[derive(Debug)]
pub struct AuthManager {
    config: SafeBankConfig,
    /// One store of users, looked up by phone number or by id.
    users: Vec<UserProfile>,
    failed_attempts: Vec<FailedAttempts>,
}

// ------------------------------------------------------------ formats

/// The characters of `s` without `+`, `-` and spaces.
pub open spec fn number_digits(s: Seq<char>) -> Seq<char> {
    s.filter(|c: char| !(c == '+' || c == '-' || c == ' '))
}

pub open spec fn all_digits(s: Seq<char>) -> bool {
    forall|i: int| 0 <= i < s.len() ==> '0' <= #[trigger] s[i] <= '9'
}

/// A phone number for registration: 10 to 15 digits once `+`, `-` and
/// spaces are removed.
pub open spec fn phone_number_ok(s: Seq<char>) -> bool {
    let d = number_digits(s);
    10 <= d.len() <= 15 && all_digits(d)
}

/// Value of a decimal digit; any other character counts as zero.
pub open spec fn digit_value(c: char) -> int {
    if '0' <= c <= '9' {
        c as int - 48
    } else {
        0
    }
}

/// Each digit one more than the previous one.
pub open spec fn ascending(p: Seq<char>) -> bool {
    forall|i: int| 1 <= i < p.len() ==> digit_value(#[trigger] p[i]) == digit_value(p[i - 1]) + 1
}

/// Each digit one less than the previous one, counting down no further
/// than zero.
pub open spec fn descending(p: Seq<char>) -> bool {
    forall|i: int|
        1 <= i < p.len() ==> digit_value(#[trigger] p[i]) == if digit_value(p[i - 1]) > 0 {
            digit_value(p[i - 1]) - 1
        } else {
            0
        }
}

/// A run such as 1234 or 9876, of at least three digits.
pub open spec fn sequential(p: Seq<char>) -> bool {
    p.len() >= 3 && (ascending(p) || descending(p))
}

/// A PIN: 4 to 6 digits, or with complexity required at least 6 digits
/// that are not a run.
pub open spec fn pin_ok(complex: bool, p: Seq<char>) -> bool {
    if complex {
        p.len() >= 6 && all_digits(p) && !sequential(p)
    } else {
        4 <= p.len() <= 6 && all_digits(p)
    }
}

fn all_digit_chars(s: &Vec<char>) -> (r: bool)
    ensures
        r == all_digits(s@),
{
    let mut i: usize = 0;
    while i < s.len()
        invariant
            i <= s@.len(),
            forall|j: int| 0 <= j < i ==> '0' <= #[trigger] s@[j] <= '9',
        decreases s@.len() - i,
    {
        if !('0' <= s[i] && s[i] <= '9') {
            assert(!('0' <= s@[i as int] <= '9'));
            return false;
        }
        i += 1;
    }
    true
}

fn chars_of(s: &str) -> (r: Vec<char>)
    ensures
        r@ == s@,
{
    let n = s.unicode_len();
    let mut out: Vec<char> = Vec::new();
    let mut i: usize = 0;
    while i < n
        invariant
            n == s@.len(),
            i <= n,
            out@ == s@.subrange(0, i as int),
        decreases n - i,
    {
        out.push(s.get_char(i));
        i += 1;
        assert(out@ =~= s@.subrange(0, i as int));
    }
    assert(s@.subrange(0, n as int) =~= s@);
    out
}

/// Validates a phone number for registration.
pub fn is_valid_phone_number(phone_number: &str) -> (r: bool)
    ensures
        r == phone_number_ok(phone_number@),
{
    let n = phone_number.unicode_len();
    let mut d: Vec<char> = Vec::new();
    let mut i: usize = 0;
    while i < n
        invariant
            n == phone_number@.len(),
            i <= n,
            d@ == number_digits(phone_number@.subrange(0, i as int)),
        decreases n - i,
    {
        let c = phone_number.get_char(i);
        proof {
            assert(phone_number@.subrange(0, i as int + 1).drop_last() =~= phone_number@.subrange(
                0,
                i as int,
            ));
            reveal(Seq::filter);
        }
        if !(c == '+' || c == '-' || c == ' ') {
            d.push(c);
        }
        i += 1;
    }
    assert(phone_number@.subrange(0, n as int) =~= phone_number@);
    d.len() >= 10 && d.len() <= 15 && all_digit_chars(&d)
}

/// Whether a PIN is a run such as 1234 or 9876.
pub fn is_sequential(pin: &str) -> (r: bool)
    ensures
        r == sequential(pin@),
{
    let p = chars_of(pin);
    if p.len() < 3 {
        return false;
    }
    let mut up = true;
    let mut down = true;
    let mut i: usize = 1;
    while i < p.len()
        invariant
            1 <= i <= p@.len(),
            up == (forall|j: int| 1 <= j < i ==> digit_value(#[trigger] p@[j]) == digit_value(p@[j - 1]) + 1),
            down == (forall|j: int|
                1 <= j < i ==> digit_value(#[trigger] p@[j]) == if digit_value(p@[j - 1]) > 0 {
                    digit_value(p@[j - 1]) - 1
                } else {
                    0
                }),
        decreases p@.len() - i,
    {
        let cur: u32 = if '0' <= p[i] && p[i] <= '9' {
            (p[i] as u32) - 48
        } else {
            0
        };
        let prev: u32 = if '0' <= p[i - 1] && p[i - 1] <= '9' {
            (p[i - 1] as u32) - 48
        } else {
            0
        };
        if cur != prev + 1 {
            up = false;
        }
        let lower: u32 = if prev > 0 { prev - 1 } else { 0 };
        if cur != lower {
            down = false;
        }
        i += 1;
    }
    up || down
}

// ------------------------------------------------------------ argon2

/// Argon2 accepts the text as a PHC-format hash.
pub uninterp spec fn hash_accepted(hash: Seq<char>) -> bool;

/// The PIN verifies against an accepted hash.
pub uninterp spec fn pin_verifies(pin: Seq<char>, hash: Seq<char>) -> bool;

/// Relies on argon2's `Argon2::default().hash_password` with a salt that
/// password-hash's `SaltString::generate` draws from rand_core's OsRng: a
/// PHC-format hash; random, so nothing is promised of its text.
#[verifier::external_body]
fn hash_pin(pin: &str) -> (r: core::result::Result<String, String>) {
    let salt = SaltString::generate(&mut rand_core::OsRng);
    argon2::Argon2::default().hash_password(pin.as_bytes(), &salt).map(|h| h.to_string()).map_err(
        |e| e.to_string(),
    )
}

/// Relies on password-hash's `PasswordHash::new` to parse the hash and on
/// argon2's `verify_password` to check the PIN against it; both depend on
/// their arguments alone.
#[verifier::external_body]
fn verify_pin(pin: &str, hash: &str) -> (r: core::result::Result<bool, String>)
    ensures
        r is Ok <==> hash_accepted(hash@),
        r matches Ok(b) ==> b == pin_verifies(pin@, hash@),
{
    match PasswordHash::new(hash) {
        Ok(parsed) => Ok(argon2::Argon2::default().verify_password(pin.as_bytes(), &parsed).is_ok()),
        Err(e) => Err(e.to_string()),
    }
}

// ------------------------------------------------------------ the store

pub open spec fn phones_unique(s: Seq<UserProfile>) -> bool {
    forall|i: int, j: int|
        #![trigger s[i], s[j]]
        0 <= i < s.len() && 0 <= j < s.len() && s[i].phone_number@ == s[j].phone_number@ ==> i == j
}

pub open spec fn has_phone(s: Seq<UserProfile>, phone: Seq<char>) -> bool {
    exists|i: int| 0 <= i < s.len() && s[i].phone_number@ == phone
}

pub open spec fn phone_index(s: Seq<UserProfile>, phone: Seq<char>) -> int {
    choose|i: int| 0 <= i < s.len() && s[i].phone_number@ == phone
}

pub open spec fn attempts_unique(s: Seq<FailedAttempts>) -> bool {
    forall|i: int, j: int|
        #![trigger s[i], s[j]]
        0 <= i < s.len() && 0 <= j < s.len() && s[i].phone_number@ == s[j].phone_number@ ==> i == j
}

/// The failed attempts recorded for a phone number, as (count, last time).
pub open spec fn attempts_of(s: Seq<FailedAttempts>, phone: Seq<char>) -> Option<(u32, i64)> {
    if exists|i: int| 0 <= i < s.len() && s[i].phone_number@ == phone {
        let i = choose|i: int| 0 <= i < s.len() && s[i].phone_number@ == phone;
        Some((s[i].count, s[i].last_attempt))
    } else {
        None
    }
}

/// Locked out: at least the allowed number of failures, the latest less
/// than the lockout duration before `now`.
pub open spec fn locked_out(c: SafeBankConfig, s: Seq<FailedAttempts>, phone: Seq<char>, now: int) -> bool {
    match attempts_of(s, phone) {
        Some((count, last)) => count >= c.max_failed_attempts && now - last
            < c.lockout_duration_minutes * 60,
        None => false,
    }
}

impl AuthManager {
    pub closed spec fn config_spec(&self) -> SafeBankConfig {
        self.config
    }

    pub closed spec fn users_spec(&self) -> Seq<UserProfile> {
        self.users@
    }

    pub closed spec fn attempts_spec(&self) -> Seq<FailedAttempts> {
        self.failed_attempts@
    }

    /// One user per phone number, one record of failures per phone number.
    pub closed spec fn wf(&self) -> bool {
        phones_unique(self.users@) && attempts_unique(self.failed_attempts@)
    }

    pub fn new(config: &SafeBankConfig) -> (r: Self)
        ensures
            r.wf(),
            r.config_spec() == *config,
            r.users_spec().len() == 0,
            r.attempts_spec().len() == 0,
    {
        AuthManager { config: config.duplicate(), users: Vec::new(), failed_attempts: Vec::new() }
    }

    /// Validates a PIN under the configured complexity rule.
    pub fn is_valid_pin(&self, pin: &str) -> (r: bool)
        ensures
            r == pin_ok(self.config_spec().pin_complexity_required, pin@),
    {
        let p = chars_of(pin);
        if self.config.pin_complexity_required {
            p.len() >= 6 && all_digit_chars(&p) && !is_sequential(pin)
        } else {
            p.len() >= 4 && p.len() <= 6 && all_digit_chars(&p)
        }
    }

    fn find_phone(&self, phone: &str) -> (r: Option<usize>)
        requires
            self.wf(),
        ensures
            r is None <==> !has_phone(self.users@, phone@),
            r matches Some(i) ==> i == phone_index(self.users@, phone@) && i < self.users@.len(),
    {
        let mut i: usize = 0;
        while i < self.users.len()
            invariant
                i <= self.users@.len(),
                phones_unique(self.users@),
                forall|j: int| 0 <= j < i ==> self.users@[j].phone_number@ != phone@,
            decreases self.users@.len() - i,
        {
            if crate::utils::str_eq(self.users[i].phone_number.as_str(), phone) {
                assert(has_phone(self.users@, phone@));
                let ghost c = phone_index(self.users@, phone@);
                assert(self.users@[c].phone_number@ == self.users@[i as int].phone_number@);
                return Some(i);
            }
            i += 1;
        }
        None
    }

    fn find_attempts(&self, phone: &str) -> (r: Option<usize>)
        requires
            self.wf(),
        ensures
            r is None ==> attempts_of(self.failed_attempts@, phone@) is None,
            r matches Some(i) ==> i < self.failed_attempts@.len() && self.failed_attempts@[i as int].phone_number@
                == phone@ && attempts_of(self.failed_attempts@, phone@) == Some(
                (self.failed_attempts@[i as int].count, self.failed_attempts@[i as int].last_attempt),
            ),
    {
        let mut i: usize = 0;
        while i < self.failed_attempts.len()
            invariant
                i <= self.failed_attempts@.len(),
                attempts_unique(self.failed_attempts@),
                forall|j: int| 0 <= j < i ==> self.failed_attempts@[j].phone_number@ != phone@,
            decreases self.failed_attempts@.len() - i,
        {
            if crate::utils::str_eq(self.failed_attempts[i].phone_number.as_str(), phone) {
                let ghost s = self.failed_attempts@;
                assert(s[i as int].phone_number@ == phone@);
                let ghost c = choose|k: int| 0 <= k < s.len() && s[k].phone_number@ == phone@;
                assert(s[c].phone_number@ == s[i as int].phone_number@);
                return Some(i);
            }
            i += 1;
        }
        None
    }

    /// Whether failed attempts lock the number out at time `now`.
    pub fn is_account_locked_at(&self, phone_number: &str, now: i64) -> (r: bool)
        requires
            self.wf(),
        ensures
            r == locked_out(self.config_spec(), self.attempts_spec(), phone_number@, now as int),
    {
        match self.find_attempts(phone_number) {
            Some(i) => {
                let a = &self.failed_attempts[i];
                if a.count >= self.config.max_failed_attempts {
                    (now as i128 - a.last_attempt as i128) < (self.config.lockout_duration_minutes as i128) * 60
                } else {
                    false
                }
            },
            None => false,
        }
    }

    /// Whether failed attempts lock the number out now.
    pub fn is_account_locked(&self, phone_number: &str) -> (r: bool)
        requires
            self.wf(),
        ensures
            exists|now: i64| r == locked_out(self.config_spec(), self.attempts_spec(), phone_number@, now as int),
    {
        self.is_account_locked_at(phone_number, crate::now_seconds())
    }

    /// Counts one more failure for the number at time `now`.
    fn record_failed_attempt(&mut self, phone_number: &str, now: i64)
        requires
            old(self).wf(),
        ensures
            final(self).wf(),
            final(self).users@ == old(self).users@,
            final(self).config == old(self).config,
            attempts_of(final(self).failed_attempts@, phone_number@) == Some(
                (
                    match attempts_of(old(self).failed_attempts@, phone_number@) {
                        Some((c, _)) => if c < u32::MAX { (c + 1) as u32 } else { c },
                        None => 1u32,
                    },
                    now,
                ),
            ),
    {
        match self.find_attempts(phone_number) {
            Some(i) => {
                let c = self.failed_attempts[i].count.saturating_add(1);
                let p = self.failed_attempts[i].phone_number.clone();
                let ghost before = self.failed_attempts@;
                self.failed_attempts.set(i, FailedAttempts { phone_number: p, count: c, last_attempt: now });
                proof {
                    let s = self.failed_attempts@;
                    assert forall|a: int, b: int|
                        #![trigger s[a], s[b]]
                        0 <= a < s.len() && 0 <= b < s.len() && s[a].phone_number@ == s[b].phone_number@ implies a == b by {
                        assert(s[a].phone_number@ == before[a].phone_number@);
                        assert(s[b].phone_number@ == before[b].phone_number@);
                    }
                    assert(s[i as int].phone_number@ == phone_number@);
                    let k = choose|k: int| 0 <= k < s.len() && s[k].phone_number@ == phone_number@;
                    assert(s[k].phone_number@ == s[i as int].phone_number@);
                }
            },
            None => {
                let ghost before = self.failed_attempts@;
                self.failed_attempts.push(
                    FailedAttempts { phone_number: String::from_str(phone_number), count: 1, last_attempt: now },
                );
                proof {
                    let s = self.failed_attempts@;
                    assert forall|a: int, b: int|
                        #![trigger s[a], s[b]]
                        0 <= a < s.len() && 0 <= b < s.len() && s[a].phone_number@ == s[b].phone_number@ implies a == b by {
                        if a < before.len() {
                            assert(s[a] == before[a]);
                        }
                        if b < before.len() {
                            assert(s[b] == before[b]);
                        }
                    }
                    let n = before.len() as int;
                    assert(s[n].phone_number@ == phone_number@);
                    let k = choose|k: int| 0 <= k < s.len() && s[k].phone_number@ == phone_number@;
                    assert(s[k].phone_number@ == s[n].phone_number@);
                }
            },
        }
    }

    /// Forgets the failures of a number.
    fn clear_failed_attempts(&mut self, phone_number: &str)
        requires
            old(self).wf(),
        ensures
            final(self).wf(),
            final(self).users@ == old(self).users@,
            final(self).config == old(self).config,
            attempts_of(final(self).failed_attempts@, phone_number@) is None,
    {
        match self.find_attempts(phone_number) {
            Some(i) => {
                let ghost before = self.failed_attempts@;
                self.failed_attempts.remove(i);
                proof {
                    let s = self.failed_attempts@;
                    assert forall|a: int, b: int|
                        #![trigger s[a], s[b]]
                        0 <= a < s.len() && 0 <= b < s.len() && s[a].phone_number@ == s[b].phone_number@ implies a == b by {
                        let a0 = if a < i { a } else { a + 1 };
                        let b0 = if b < i { b } else { b + 1 };
                        assert(s[a] == before[a0]);
                        assert(s[b] == before[b0]);
                    }
                    if exists|k: int| 0 <= k < s.len() && s[k].phone_number@ == phone_number@ {
                        let k = choose|k: int| 0 <= k < s.len() && s[k].phone_number@ == phone_number@;
                        let k0 = if k < i { k } else { k + 1 };
                        assert(s[k] == before[k0]);
                        assert(before[i as int].phone_number@ == phone_number@);
                    }
                }
            },
            None => {},
        }
    }
}


proof fn lemma_same_phones(before: Seq<UserProfile>, after: Seq<UserProfile>)
    requires
        phones_unique(before),
        after.len() == before.len(),
        forall|i: int| 0 <= i < after.len() ==> #[trigger] after[i].phone_number == before[i].phone_number,
    ensures
        phones_unique(after),
{
    assert forall|a: int, b: int|
        #![trigger after[a], after[b]]
        0 <= a < after.len() && 0 <= b < after.len() && after[a].phone_number@ == after[b].phone_number@ implies a == b by {
        assert(after[a].phone_number == before[a].phone_number);
        assert(after[b].phone_number == before[b].phone_number);
    }
}

/// `v` is `u` after a successful login at `now`.
pub open spec fn logged_in(u: UserProfile, v: UserProfile, now: int) -> bool {
    same_user(v, UserProfile { last_login: Some(now as i64), failed_attempts: 0, ..u })
}

/// The user registered with this id, if any (the first one).
pub open spec fn user_by_id(s: Seq<UserProfile>, id: u128) -> Option<int> {
    if exists|i: int|
        0 <= i < s.len() && s[i].user_id == id && forall|j: int| 0 <= j < i ==> s[j].user_id != id {
        Some(choose|i: int| 0 <= i < s.len() && s[i].user_id == id && forall|j: int| 0 <= j < i ==> s[j].user_id != id)
    } else {
        None
    }
}

/// `r` and `users1` are what registering `phone` with `pin` and `device`
/// gives from `users`: each refusal leaves the users as they were; a PIN
/// that hashing fails on is a cryptography error.
pub open spec fn registered(
    c: SafeBankConfig,
    users: Seq<UserProfile>,
    phone_number: String,
    pin: Seq<char>,
    device_info: DeviceInfo,
    r: Result<UserProfile>,
    users1: Seq<UserProfile>,
) -> bool {
    &&& (!phone_number_ok(phone_number@) ==> (r matches Err(SafeBankError::AuthenticationFailed { message })
            && message@ == "Invalid phone number format"@ && users1 == users))
    &&& (phone_number_ok(phone_number@) && has_phone(users, phone_number@) ==> (r matches Err(
            SafeBankError::AuthenticationFailed { message },
        ) && message@ == "User already exists"@ && users1 == users))
    &&& (phone_number_ok(phone_number@) && !has_phone(users, phone_number@) && !pin_ok(
            c.pin_complexity_required,
            pin,
        ) ==> (r == Err::<UserProfile, SafeBankError>(SafeBankError::InvalidPin)
            && users1 == users))
    &&& (phone_number_ok(phone_number@) && !has_phone(users, phone_number@) && pin_ok(
            c.pin_complexity_required,
            pin,
        ) ==> match r {
            Err(e) => e is CryptographyError && users1 == users,
            Ok(u) => {
                &&& users1.len() == users.len() + 1
                &&& users1.drop_last() == users
                &&& same_user(users1.last(), u)
                &&& u.phone_number == phone_number
                &&& u.device_info == device_info
                &&& u.behavioral_profile.typical_transaction_amount == 0
                &&& u.behavioral_profile.typical_transaction_times@.len() == 0
                &&& u.behavioral_profile.common_recipients@.len() == 0
                &&& u.behavioral_profile.usage_frequency == 0
                &&& u.last_login is None
                &&& u.failed_attempts == 0
                &&& !u.is_locked
            },
        })
}

/// `r`, `users1` and `att1` are what authenticating `phone` with `pin`
/// from `device` at time `now` gives from `users` and `att`.
pub open spec fn authenticated(
    c: SafeBankConfig,
    users: Seq<UserProfile>,
    att: Seq<FailedAttempts>,
    phone: Seq<char>,
    pin: Seq<char>,
    device: Seq<char>,
    now: int,
    r: Result<UserProfile>,
    users1: Seq<UserProfile>,
    att1: Seq<FailedAttempts>,
) -> bool {
    let unchanged = users1 == users && att1 == att;
    if locked_out(c, att, phone, now) {
        r == Err::<UserProfile, SafeBankError>(SafeBankError::AccountLocked) && unchanged
    } else if !has_phone(users, phone) {
        (r matches Err(SafeBankError::UserNotFound { user_id }) && user_id@ == phone)
            && unchanged
    } else {
        let i = phone_index(users, phone);
        let u = users[i];
        if u.is_locked {
            r == Err::<UserProfile, SafeBankError>(SafeBankError::AccountLocked) && unchanged
        } else if !hash_accepted(u.pin_hash@) {
            r matches Err(SafeBankError::CryptographyError { .. }) && unchanged
        } else if !pin_verifies(pin, u.pin_hash@) {
            &&& r matches Err(SafeBankError::AuthenticationFailed { message })
                && message@ == "Invalid PIN"@
            &&& users1 == users
            &&& attempts_of(att1, phone) == Some(
                (
                    match attempts_of(att, phone) {
                        Some((n, _)) => if n < u32::MAX { (n + 1) as u32 } else { n },
                        None => 1u32,
                    },
                    now as i64,
                ),
            )
        } else if c.require_device_verification && u.device_info.device_id@ != device
            && !u.device_info.is_trusted {
            (r matches Err(SafeBankError::UnrecognizedDevice { device_id: d }) && d@
                == device) && unchanged
        } else {
            &&& r matches Ok(v) && logged_in(u, v, now)
            &&& users1.len() == users.len()
            &&& same_user(users1[i], r->Ok_0)
            &&& forall|j: int|
                0 <= j < users.len() && j != i ==> users1[j] == users[j]
            &&& attempts_of(att1, phone) is None
        }
    }
}

impl AuthManager {
    /// Registers a user: the phone number must be well formed and new, the
    /// PIN valid; the PIN is stored as an Argon2 hash.
    pub fn register_user(&mut self, phone_number: String, pin: String, device_info: DeviceInfo) -> (r:
        Result<UserProfile>)
        requires
            old(self).wf(),
        ensures
            final(self).wf(),
            final(self).config_spec() == old(self).config_spec(),
            final(self).attempts_spec() == old(self).attempts_spec(),
            registered(
                old(self).config_spec(),
                old(self).users_spec(),
                phone_number,
                pin@,
                device_info,
                r,
                final(self).users_spec(),
            ),
    {
        if !is_valid_phone_number(phone_number.as_str()) {
            return Err(SafeBankError::AuthenticationFailed {
                message: String::from_str("Invalid phone number format"),
            });
        }
        if self.find_phone(phone_number.as_str()).is_some() {
            return Err(SafeBankError::AuthenticationFailed {
                message: String::from_str("User already exists"),
            });
        }
        if !self.is_valid_pin(pin.as_str()) {
            return Err(SafeBankError::InvalidPin);
        }
        let pin_hash = match hash_pin(pin.as_str()) {
            Ok(h) => h,
            Err(e) => {
                return Err(SafeBankError::CryptographyError {
                    message: String::from_str("Failed to hash PIN: ").concat(e.as_str()),
                });
            },
        };
        let user = UserProfile {
            user_id: crate::new_id(),
            phone_number,
            pin_hash,
            device_info,
            behavioral_profile: BehavioralProfile::empty(),
            created_at: crate::now_seconds(),
            last_login: None,
            failed_attempts: 0,
            is_locked: false,
        };
        let ghost before = self.users@;
        let out = user.duplicate();
        assert(out.behavioral_profile.common_recipients@.map_values(|s: String| s@).len() == 0);
        self.users.push(user);
        proof {
            let s = self.users@;
            assert(s.drop_last() =~= before);
            assert forall|a: int, b: int|
                #![trigger s[a], s[b]]
                0 <= a < s.len() && 0 <= b < s.len() && s[a].phone_number@ == s[b].phone_number@ implies a == b by {
                if a < before.len() {
                    assert(s[a] == before[a]);
                }
                if b < before.len() {
                    assert(s[b] == before[b]);
                }
                if a < before.len() && b == before.len() {
                    assert(has_phone(before, s[b].phone_number@));
                }
                if b < before.len() && a == before.len() {
                    assert(has_phone(before, s[a].phone_number@));
                }
            }
        }
        Ok(out)
    }

    /// Authenticates at time `now`: the number must not be locked out, the
    /// user must exist and not be locked, the PIN must verify, and with
    /// device verification on, an unknown device is refused unless the
    /// registered one is trusted. A wrong PIN is counted as a failure; a
    /// success clears the failures and records the login.
    pub fn authenticate_at(&mut self, phone_number: &str, pin: &str, device_id: &str, now: i64) -> (r:
        Result<UserProfile>)
        requires
            old(self).wf(),
        ensures
            final(self).wf(),
            final(self).config_spec() == old(self).config_spec(),
            authenticated(
                old(self).config_spec(),
                old(self).users_spec(),
                old(self).attempts_spec(),
                phone_number@,
                pin@,
                device_id@,
                now as int,
                r,
                final(self).users_spec(),
                final(self).attempts_spec(),
            ),
    {
        if self.is_account_locked_at(phone_number, now) {
            return Err(SafeBankError::AccountLocked);
        }
        let i = match self.find_phone(phone_number) {
            Some(i) => i,
            None => {
                return Err(SafeBankError::UserNotFound { user_id: String::from_str(phone_number) });
            },
        };
        let mut user = self.users[i].duplicate();
        if user.is_locked {
            return Err(SafeBankError::AccountLocked);
        }
        let ok = match verify_pin(pin, user.pin_hash.as_str()) {
            Ok(b) => b,
            Err(e) => {
                return Err(SafeBankError::CryptographyError {
                    message: String::from_str("Failed to parse hash: ").concat(e.as_str()),
                });
            },
        };
        if !ok {
            self.record_failed_attempt(phone_number, now);
            return Err(SafeBankError::AuthenticationFailed { message: String::from_str("Invalid PIN") });
        }
        if self.config.require_device_verification {
            if !crate::utils::str_eq(user.device_info.device_id.as_str(), device_id) {
                if !user.device_info.is_trusted {
                    return Err(SafeBankError::UnrecognizedDevice {
                        device_id: String::from_str(device_id),
                    });
                }
            }
        }
        user.last_login = Some(now);
        user.failed_attempts = 0;
        self.clear_failed_attempts(phone_number);
        let ghost before = self.users@;
        let stored = user.duplicate();
        self.users.set(i, stored);
        proof {
            let s = self.users@;
            assert forall|a: int, b: int|
                #![trigger s[a], s[b]]
                0 <= a < s.len() && 0 <= b < s.len() && s[a].phone_number@ == s[b].phone_number@ implies a == b by {
                assert(s[a].phone_number@ == before[a].phone_number@);
                assert(s[b].phone_number@ == before[b].phone_number@);
            }
        }
        Ok(user)
    }

    /// Authenticates at the current time.
    pub fn authenticate(&mut self, phone_number: &str, pin: &str, device_id: &str) -> (r: Result<
        UserProfile,
    >)
        requires
            old(self).wf(),
        ensures
            final(self).wf(),
            final(self).config_spec() == old(self).config_spec(),
            exists|now: int|
                authenticated(
                    old(self).config_spec(),
                    old(self).users_spec(),
                    old(self).attempts_spec(),
                    phone_number@,
                    pin@,
                    device_id@,
                    now,
                    r,
                    final(self).users_spec(),
                    final(self).attempts_spec(),
                ),
    {
        let now = crate::now_seconds();
        self.authenticate_at(phone_number, pin, device_id, now)
    }

    fn find_id(&self, user_id: u128) -> (r: Option<usize>)
        ensures
            r matches Some(i) ==> user_by_id(self.users@, user_id) == Some(i as int) && i < self.users@.len(),
            r is None ==> user_by_id(self.users@, user_id) is None,
    {
        let mut i: usize = 0;
        while i < self.users.len()
            invariant
                i <= self.users@.len(),
                forall|j: int| 0 <= j < i ==> self.users@[j].user_id != user_id,
            decreases self.users@.len() - i,
        {
            if self.users[i].user_id == user_id {
                let ghost s = self.users@;
                assert(0 <= i < s.len() && s[i as int].user_id == user_id && forall|j: int| 0 <= j < i ==> s[j].user_id != user_id);
                let ghost c = choose|k: int|
                    0 <= k < s.len() && s[k].user_id == user_id && forall|j: int| 0 <= j < k ==> s[j].user_id != user_id;
                assert(0 <= i < s.len() && s[i as int].user_id == user_id && forall|j: int| 0 <= j < i ==> s[j].user_id != user_id);
                assert(c == i) by {
                    if c < i {
                        assert(s[c].user_id != user_id);
                    }
                    if c > i {
                        assert(s[i as int].user_id != user_id);
                    }
                }
                return Some(i);
            }
            i += 1;
        }
        None
    }

    /// The user with this id.
    pub fn get_user_by_id(&self, user_id: u128) -> (r: Result<UserProfile>)
        ensures
            match user_by_id(self.users_spec(), user_id) {
                Some(i) => r matches Ok(u) && same_user(u, self.users_spec()[i]),
                None => r matches Err(SafeBankError::UserNotFound { .. }),
            },
    {
        match self.find_id(user_id) {
            Some(i) => Ok(self.users[i].duplicate()),
            None => Err(SafeBankError::UserNotFound { user_id: crate::codec::id_text(user_id) }),
        }
    }

    /// Replaces the behavioural profile of the user with this id.
    pub fn update_user_profile(&mut self, user_id: u128, behavioral_profile: BehavioralProfile) -> (r:
        Result<()>)
        requires
            old(self).wf(),
        ensures
            final(self).wf(),
            final(self).config_spec() == old(self).config_spec(),
            final(self).attempts_spec() == old(self).attempts_spec(),
            match user_by_id(old(self).users_spec(), user_id) {
                Some(i) => r is Ok && final(self).users_spec() == old(self).users_spec().update(
                    i,
                    UserProfile { behavioral_profile, ..old(self).users_spec()[i] },
                ),
                None => r matches Err(SafeBankError::UserNotFound { .. }) && final(self).users_spec()
                    == old(self).users_spec(),
            },
    {
        match self.find_id(user_id) {
            Some(i) => {
                let ghost before = self.users@;
                let mut user = self.users.remove(i);
                user.behavioral_profile = behavioral_profile;
                self.users.insert(i, user);
                proof {
                    let s = self.users@;
                    assert(s =~= before.update(i as int, UserProfile { behavioral_profile, ..before[i as int] }));
                    lemma_same_phones(before, s);
                }
                Ok(())
            },
            None => Err(SafeBankError::UserNotFound { user_id: crate::codec::id_text(user_id) }),
        }
    }

    /// Marks the user's registered device as trusted when the id given is
    /// that device's.
    pub fn trust_device(&mut self, user_id: u128, device_id: String) -> (r: Result<()>)
        requires
            old(self).wf(),
        ensures
            final(self).wf(),
            final(self).config_spec() == old(self).config_spec(),
            final(self).attempts_spec() == old(self).attempts_spec(),
            match user_by_id(old(self).users_spec(), user_id) {
                Some(i) => {
                    let u = old(self).users_spec()[i];
                    r is Ok && if u.device_info.device_id@ == device_id@ {
                        final(self).users_spec() == old(self).users_spec().update(
                            i,
                            UserProfile { device_info: DeviceInfo { is_trusted: true, ..u.device_info }, ..u },
                        )
                    } else {
                        final(self).users_spec() == old(self).users_spec()
                    }
                },
                None => r matches Err(SafeBankError::UserNotFound { .. }) && final(self).users_spec()
                    == old(self).users_spec(),
            },
    {
        match self.find_id(user_id) {
            Some(i) => {
                if self.users[i].device_info.device_id == device_id {
                    let ghost before = self.users@;
                    let mut user = self.users.remove(i);
                    user.device_info.is_trusted = true;
                    self.users.insert(i, user);
                    proof {
                        let s = self.users@;
                        let u = before[i as int];
                        assert(s =~= before.update(
                            i as int,
                            UserProfile { device_info: DeviceInfo { is_trusted: true, ..u.device_info }, ..u },
                        ));
                        lemma_same_phones(before, s);
                    }
                }
                Ok(())
            },
            None => Err(SafeBankError::UserNotFound { user_id: crate::codec::id_text(user_id) }),
        }
    }
}

} // verus!
