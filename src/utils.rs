//! Helpers: phone numbers, one-time codes, connectivity, compression,
//! device capabilities, log masking, performance budgets and help texts.
use crate::codec::{padded_decimal, padded_digits, utf8_of};
use crate::hour_of_spec;
use vstd::prelude::*;
use vstd::utf8::{decode_utf8, valid_utf8};

verus! {

// ------------------------------------------------------------ strings

/// Whether two strings hold the same characters.
pub fn str_eq(a: &str, b: &str) -> (r: bool)
    ensures
        r == (a@ == b@),
{
    let n = a.unicode_len();
    if n != b.unicode_len() {
        return false;
    }
    let mut i: usize = 0;
    while i < n
        invariant
            n == a@.len(),
            n == b@.len(),
            i <= n,
            forall|j: int| 0 <= j < i ==> a@[j] == b@[j],
        decreases n - i,
    {
        if a.get_char(i) != b.get_char(i) {
            return false;
        }
        i += 1;
    }
    assert(a@ =~= b@);
    true
}

// ------------------------------------------------------------ phone numbers

/// The characters of `s` without `+`, `-`, space and parentheses.
pub open spec fn phone_digits(s: Seq<char>) -> Seq<char> {
    s.filter(|c: char| !(c == '+' || c == '-' || c == ' ' || c == '(' || c == ')'))
}

pub open spec fn all_ascii_digits(s: Seq<char>) -> bool {
    forall|i: int| 0 <= i < s.len() ==> '0' <= #[trigger] s[i] <= '9'
}

/// Region rules on the cleaned digits.
pub open spec fn region_accepts(region: Option<Seq<char>>, d: Seq<char>) -> bool {
    match region {
        Some(r) => if r == "US"@ {
            d.len() == 10 || (d.len() == 11 && d[0] == '1')
        } else if r == "KE"@ {
            d.len() == 9 || (d.len() >= 3 && d[0] == '2' && d[1] == '5' && d[2] == '4')
        } else if r == "NG"@ {
            10 <= d.len() <= 11
        } else if r == "IN"@ {
            d.len() == 10
        } else {
            true
        },
        None => true,
    }
}

/// A phone number is 7 to 15 digits once `+`, `-`, spaces and parentheses
/// are removed, and meets its region's rule.
pub open spec fn phone_valid(phone: Seq<char>, region: Option<Seq<char>>) -> bool {
    let d = phone_digits(phone);
    7 <= d.len() <= 15 && all_ascii_digits(d) && region_accepts(region, d)
}

fn clean_phone(phone: &str) -> (r: Vec<char>)
    ensures
        r@ == phone_digits(phone@),
{
    let n = phone.unicode_len();
    let mut out: Vec<char> = Vec::new();
    let mut i: usize = 0;
    while i < n
        invariant
            n == phone@.len(),
            i <= n,
            out@ == phone_digits(phone@.subrange(0, i as int)),
        decreases n - i,
    {
        let c = phone.get_char(i);
        proof {
            let s = phone@.subrange(0, i as int + 1);
            assert(s.drop_last() =~= phone@.subrange(0, i as int));
            reveal(Seq::filter);
        }
        if !(c == '+' || c == '-' || c == ' ' || c == '(' || c == ')') {
            out.push(c);
        }
        i += 1;
    }
    assert(phone@.subrange(0, n as int) =~= phone@);
    out
}

/// Validates a phone number, with an optional region code (`US`, `KE`,
/// `NG`, `IN`; any other accepts every well-formed number).
pub fn validate_phone_number(phone: &str, region: Option<&str>) -> (r: bool)
    ensures
        r == phone_valid(
            phone@,
            match region {
                Some(s) => Some(s@),
                None => None,
            },
        ),
{
    let d = clean_phone(phone);
    if d.len() < 7 || d.len() > 15 {
        return false;
    }
    let mut i: usize = 0;
    while i < d.len()
        invariant
            i <= d@.len(),
            d@ == phone_digits(phone@),
            forall|j: int| 0 <= j < i ==> '0' <= #[trigger] d@[j] <= '9',
        decreases d@.len() - i,
    {
        if !('0' <= d[i] && d[i] <= '9') {
            assert(!all_ascii_digits(d@)) by {
                assert(!('0' <= d@[i as int] <= '9'));
            }
            return false;
        }
        i += 1;
    }
    match region {
        Some(r) => {
            if str_eq(r, "US") {
                d.len() == 10 || (d.len() == 11 && d[0] == '1')
            } else if str_eq(r, "KE") {
                d.len() == 9 || (d.len() >= 3 && d[0] == '2' && d[1] == '5' && d[2] == '4')
            } else if str_eq(r, "NG") {
                d.len() >= 10 && d.len() <= 11
            } else if str_eq(r, "IN") {
                d.len() == 10
            } else {
                true
            }
        },
        None => true,
    }
}

// ------------------------------------------------------------ one-time codes

pub open spec fn pow10(n: nat) -> nat
    decreases n,
{
    if n == 0 {
        1
    } else {
        10 * pow10((n - 1) as nat)
    }
}

/// The code for a time in seconds: its last `length` decimal digits,
/// zero-padded.
pub open spec fn otp_spec(seconds: nat, length: nat) -> Seq<char> {
    padded_digits(seconds % pow10(length), length)
}

/// The code of `length` digits for a time in seconds since the Unix epoch.
pub fn otp_for_time(seconds: u64, length: usize) -> (r: String)
    requires
        length <= 19,
    ensures
        r@ == otp_spec(seconds as nat, length as nat),
{
    let mut p: u64 = 1;
    let mut i: usize = 0;
    proof {
        lemma_pow10_bound(0);
    }
    while i < length
        invariant
            i <= length <= 19,
            p == pow10(i as nat),
            1 <= p <= 10_000_000_000_000_000_000u64,
        decreases length - i,
    {
        proof {
            lemma_pow10_bound(i as nat + 1);
            assert(pow10(i as nat + 1) == 10 * pow10(i as nat));
        }
        p = p * 10;
        i += 1;
    }
    padded_decimal(seconds % p, length)
}

proof fn lemma_pow10_monotone(a: nat, b: nat)
    requires
        a <= b,
    ensures
        1 <= pow10(a) <= pow10(b),
    decreases b,
{
    if b > 0 && a < b {
        lemma_pow10_monotone(a, (b - 1) as nat);
    } else if b > 0 {
        lemma_pow10_monotone((b - 1) as nat, (b - 1) as nat);
    }
}

proof fn lemma_pow10_bound(n: nat)
    requires
        n <= 19,
    ensures
        1 <= pow10(n) <= 10_000_000_000_000_000_000u64,
{
    reveal_with_fuel(pow10, 20);
    assert(pow10(19) == 10_000_000_000_000_000_000u64);
    lemma_pow10_monotone(n, 19);
}

/// Relies on std::time::SystemTime::now: whole seconds since the Unix epoch,
/// or zero for a clock set before it; nothing is promised of its value.
#[verifier::external_body]
fn unix_seconds() -> (r: u64) {
    std::time::SystemTime::now()
        .duration_since(std::time::UNIX_EPOCH)
        .map(|d| d.as_secs())
        .unwrap_or(0)
}

/// A one-time code of `length` digits taken from the current time.
pub fn generate_simple_otp(length: usize) -> (r: String)
    requires
        length <= 19,
    ensures
        exists|seconds: nat| r@ == otp_spec(seconds, length as nat),
{
    let seconds = unix_seconds();
    otp_for_time(seconds, length)
}

// ------------------------------------------------------------ connectivity

#[derive(Debug, Clone, Copy, PartialEq, Eq, Structural)]
pub enum ConnectivityStatus {
    Online,
    Limited,
    Offline,
}

/// Simulated connectivity: by the last digit of the time in seconds
/// (remainder of the division toward zero), 0 to 7 online, 8 limited,
/// anything else offline.
pub open spec fn connectivity_spec(seconds: int) -> ConnectivityStatus {
    let m = if seconds >= 0 {
        seconds % 10
    } else {
        -((-seconds) % 10)
    };
    if 0 <= m <= 7 {
        ConnectivityStatus::Online
    } else if m == 8 {
        ConnectivityStatus::Limited
    } else {
        ConnectivityStatus::Offline
    }
}

pub fn connectivity_for_time(seconds: i64) -> (r: ConnectivityStatus)
    ensures
        r == connectivity_spec(seconds as int),
{
    let m: i64 = seconds % 10;
    proof {
        if seconds < 0 {
            assert(m == -((-(seconds as int)) % 10));
        }
    }
    if 0 <= m && m <= 7 {
        ConnectivityStatus::Online
    } else if m == 8 {
        ConnectivityStatus::Limited
    } else {
        ConnectivityStatus::Offline
    }
}

/// Simulated connectivity at the current time.
pub fn check_connectivity() -> (r: ConnectivityStatus)
    ensures
        exists|seconds: int| r == connectivity_spec(seconds),
{
    connectivity_for_time(crate::now_seconds())
}

// ------------------------------------------------------------ compression

/// The bytes of a string; no compression is applied.
pub fn compress_transaction_data(data: &str) -> (r: Result<Vec<u8>, String>)
    ensures
        r matches Ok(b) && b@ == utf8_of(data@),
{
    Ok(crate::codec::bytes_of(data))
}

/// Relies on String::from_utf8: it accepts exactly valid UTF-8 and keeps
/// its characters; the error's text follows a fixed prefix.
#[verifier::external_body]
pub(crate) fn string_from_utf8(data: &[u8]) -> (r: Result<String, String>)
    ensures
        r is Ok <==> valid_utf8(data@),
        r matches Ok(s) ==> s@ == decode_utf8(data@),
{
    String::from_utf8(data.to_vec()).map_err(|e| format!("Decompression failed: {}", e))
}

/// The string that the bytes encode in UTF-8; other bytes are refused.
pub fn decompress_transaction_data(data: &[u8]) -> (r: Result<String, String>)
    ensures
        r is Ok <==> valid_utf8(data@),
        r matches Ok(s) ==> s@ == decode_utf8(data@),
{
    string_from_utf8(data)
}

// ------------------------------------------------------------ devices

#[derive(Debug, Clone, Copy, PartialEq, Eq, Structural)]
pub enum DeviceScreenSize {
    /// Under 4 inches.
    Small,
    /// 4 to 5.5 inches.
    Medium,
    /// Over 5.5 inches.
    Large,
}

#[derive(Debug, Clone, Copy, PartialEq, Eq, Structural)]
pub struct DeviceCapabilities {
    pub has_camera: bool,
    pub has_fingerprint: bool,
    pub has_sms: bool,
    pub has_internet: bool,
    pub ram_mb: Option<u32>,
    pub storage_mb: Option<u32>,
    pub screen_size: DeviceScreenSize,
}

impl DeviceCapabilities {
    /// Under 1024 MB of memory, under 4096 MB of storage (unknown counts as
    /// none), or a small screen.
    pub fn is_low_end(&self) -> (r: bool)
        ensures
            r == ((match self.ram_mb {
                Some(m) => m,
                None => 0,
            }) < 1024 || (match self.storage_mb {
                Some(s) => s,
                None => 0,
            }) < 4096 || self.screen_size == DeviceScreenSize::Small),
    {
        let ram = match self.ram_mb {
            Some(m) => m,
            None => 0,
        };
        let storage = match self.storage_mb {
            Some(s) => s,
            None => 0,
        };
        ram < 1024 || storage < 4096 || matches!(self.screen_size, DeviceScreenSize::Small)
    }

    /// A fingerprint reader or a camera.
    pub fn supports_advanced_auth(&self) -> (r: bool)
        ensures
            r == (self.has_fingerprint || self.has_camera),
    {
        self.has_fingerprint || self.has_camera
    }
}

// ------------------------------------------------------------ logging

/// Every `1234`, from the left and without overlap, replaced by `****`.
pub open spec fn mask_pins(s: Seq<char>) -> Seq<char>
    decreases s.len(),
{
    if s.len() < 4 {
        s
    } else if s.subrange(0, 4) == seq!['1', '2', '3', '4'] {
        seq!['*', '*', '*', '*'] + mask_pins(s.subrange(4, s.len() as int))
    } else {
        seq![s[0]] + mask_pins(s.subrange(1, s.len() as int))
    }
}

/// Masks the sequence `1234` in a text meant for a log.
pub fn sanitize_for_logging(data: &str) -> (r: String)
    ensures
        r@ == mask_pins(data@),
{
    let n = data.unicode_len();
    let mut out = String::new();
    let mut i: usize = 0;
    proof {
        reveal_strlit("****");
        assert(data@.subrange(0, n as int) =~= data@);
    }
    while i < n
        invariant
            n == data@.len(),
            i <= n,
            "****"@ == seq!['*', '*', '*', '*'],
            mask_pins(data@) == out@ + mask_pins(data@.subrange(i as int, n as int)),
        decreases n - i,
    {
        let ghost rest = data@.subrange(i as int, n as int);
        if n - i >= 4 && data.get_char(i) == '1' && data.get_char(i + 1) == '2' && data.get_char(i + 2) == '3'
            && data.get_char(i + 3) == '4' {
            proof {
                assert(rest.subrange(0, 4) =~= seq!['1', '2', '3', '4']);
                assert(rest.subrange(4, rest.len() as int) =~= data@.subrange(i + 4, n as int));
            }
            out.append("****");
            i += 4;
        } else {
            proof {
                if rest.len() >= 4 {
                    if rest.subrange(0, 4) == seq!['1', '2', '3', '4'] {
                        assert(rest.subrange(0, 4)[0] == rest[0]);
                        assert(rest.subrange(0, 4)[1] == rest[1]);
                        assert(rest.subrange(0, 4)[2] == rest[2]);
                        assert(rest.subrange(0, 4)[3] == rest[3]);
                    }
                    assert(rest.subrange(1, rest.len() as int) =~= data@.subrange(i + 1, n as int));
                } else {
                    assert(mask_pins(rest) == rest);
                }
            }
            let one = data.substring_char(i, i + 1);
            out.append(one);
            i += 1;
        }
    }
    out
}

// ------------------------------------------------------------ performance

#[derive(Debug, Clone, Copy, Default, PartialEq, Eq, Structural)]
pub struct PerformanceMetrics {
    pub auth_time_ms: u64,
    pub fraud_analysis_time_ms: u64,
    pub transaction_processing_time_ms: u64,
    pub total_memory_kb: u64,
    pub network_requests: u32,
}

/// A summary of the metrics.
#[derive(Debug, Clone, Copy, PartialEq, Eq, Structural)]
pub struct PerformanceSummary {
    pub total_time_ms: u128,
    pub memory_kb: u64,
    pub network_requests: u32,
}

impl PerformanceMetrics {
    /// Authentication time and memory within their budgets.
    pub fn is_within_limits(&self, max_auth_time_ms: u64, max_memory_kb: u64) -> (r: bool)
        ensures
            r == (self.auth_time_ms <= max_auth_time_ms && self.total_memory_kb <= max_memory_kb),
    {
        self.auth_time_ms <= max_auth_time_ms && self.total_memory_kb <= max_memory_kb
    }

    /// Total time, memory and network requests.
    pub fn get_summary(&self) -> (r: PerformanceSummary)
        ensures
            r.total_time_ms == self.auth_time_ms + self.fraud_analysis_time_ms
                + self.transaction_processing_time_ms,
            r.memory_kb == self.total_memory_kb,
            r.network_requests == self.network_requests,
    {
        PerformanceSummary {
            total_time_ms: self.auth_time_ms as u128 + self.fraud_analysis_time_ms as u128
                + self.transaction_processing_time_ms as u128,
            memory_kb: self.total_memory_kb,
            network_requests: self.network_requests,
        }
    }
}

// ------------------------------------------------------------ time zones

/// Hour of the day at an offset from UTC, for a timestamp in seconds.
pub fn get_local_time_hour(utc_time: i64, timezone_offset_hours: i32) -> (r: u32)
    ensures
        r as int == hour_of_spec(utc_time + timezone_offset_hours * 3600),
{
    let shift: i128 = timezone_offset_hours as i128 * 3600;
    let t: i128 = utc_time as i128 + shift;
    let m: i128 = t % 86400;
    let d: i128 = if m < 0 {
        m + 86400
    } else {
        m
    };
    assert(d as int == t as int % 86400);
    (d / 3600) as u32
}

// ------------------------------------------------------------ help texts

/// The emergency help text for a lower-cased language name or code.
pub open spec fn help_text(lowered: Seq<char>) -> Seq<char> {
    if lowered == "swahili"@ || lowered == "sw"@ {
        "Kwa msaada wa haraka, piga simu 911 au tembelea kituo cha polisi karibu nawe."@
    } else if lowered == "french"@ || lowered == "fr"@ {
        "Pour une aide d'urgence, appelez le 911 ou rendez-vous au poste de police le plus proche."@
    } else if lowered == "spanish"@ || lowered == "es"@ {
        "Para ayuda de emergencia, llame al 911 o visite la estación de policía más cercana."@
    } else if lowered == "portuguese"@ || lowered == "pt"@ {
        "Para ajuda de emergência, ligue 911 ou visite a delegacia de polícia mais próxima."@
    } else {
        "For emergency help, call 911 or visit your nearest police station."@
    }
}

/// The emergency help text for a language name or code already in lower case.
pub fn help_message_for(lowered: &str) -> (r: String)
    ensures
        r@ == help_text(lowered@),
{
    if str_eq(lowered, "swahili") || str_eq(lowered, "sw") {
        String::from_str("Kwa msaada wa haraka, piga simu 911 au tembelea kituo cha polisi karibu nawe.")
    } else if str_eq(lowered, "french") || str_eq(lowered, "fr") {
        String::from_str(
            "Pour une aide d'urgence, appelez le 911 ou rendez-vous au poste de police le plus proche.",
        )
    } else if str_eq(lowered, "spanish") || str_eq(lowered, "es") {
        String::from_str(
            "Para ayuda de emergencia, llame al 911 o visite la estación de policía más cercana.",
        )
    } else if str_eq(lowered, "portuguese") || str_eq(lowered, "pt") {
        String::from_str(
            "Para ajuda de emergência, ligue 911 ou visite a delegacia de polícia mais próxima.",
        )
    } else {
        String::from_str("For emergency help, call 911 or visit your nearest police station.")
    }
}

/// The lower-case form of a string, by Unicode's rules.
pub uninterp spec fn lower_of(s: Seq<char>) -> Seq<char>;

/// Relies on str::to_lowercase: the result depends on the characters alone.
#[verifier::external_body]
fn lowercase(s: &str) -> (r: String)
    ensures
        r@ == lower_of(s@),
{
    s.to_lowercase()
}

/// The emergency help text for a language name or code, in any case.
pub fn get_emergency_help_message(language: &str) -> (r: String)
    ensures
        r@ == help_text(lower_of(language@)),
{
    let lowered = lowercase(language);
    help_message_for(lowered.as_str())
}

} // verus!
