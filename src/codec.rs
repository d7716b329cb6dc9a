//! Text and byte encodings: decimal and hexadecimal digits, big-endian
//! integers, and the SHA-256 digest.
use sha2::Digest;
use vstd::prelude::*;
use vstd::utf8::encode_utf8;

verus! {

/// The ASCII digit of a value below ten.
pub open spec fn decimal_char(d: int) -> char {
    ((d + 48) as u8) as char
}

/// Decimal digits of a natural number, most significant first, no padding.
pub open spec fn decimal_digits(n: nat) -> Seq<char>
    decreases n,
{
    if n < 10 {
        seq![decimal_char(n as int)]
    } else {
        decimal_digits(n / 10).push(decimal_char((n % 10) as int))
    }
}

/// `'0'` repeated `k` times.
pub open spec fn zeros(k: int) -> Seq<char> {
    Seq::new(if k > 0 { k as nat } else { 0 }, |i: int| '0')
}

/// Decimal digits of `n`, padded on the left with zeros to `width` characters.
pub open spec fn padded_digits(n: nat, width: nat) -> Seq<char> {
    zeros(width - decimal_digits(n).len()) + decimal_digits(n)
}

/// Decimal text of a signed integer, with a leading `-` when negative.
pub open spec fn signed_digits(n: int) -> Seq<char> {
    if n < 0 {
        seq!['-'] + decimal_digits((-n) as nat)
    } else {
        decimal_digits(n as nat)
    }
}

/// Relies on std's `format!` with `{:0width$}`: the decimal digits of `n`,
/// padded on the left with zeros to at least `width` characters.
#[verifier::external_body]
pub(crate) fn padded_decimal(n: u64, width: usize) -> (r: String)
    ensures
        r@ == padded_digits(n as nat, width as nat),
{
    format!("{:0width$}", n, width = width)
}

/// Relies on std's `format!` with `{}` on `i64`: its decimal text.
#[verifier::external_body]
pub(crate) fn signed_decimal(n: i64) -> (r: String)
    ensures
        r@ == signed_digits(n as int),
{
    format!("{}", n)
}

/// Lower-case hexadecimal digit of a value below sixteen.
pub open spec fn hex_char_lower(v: int) -> char {
    if v < 10 {
        ((v + 48) as u8) as char
    } else {
        ((v + 87) as u8) as char
    }
}

/// Upper-case hexadecimal digit of a value below sixteen.
pub open spec fn hex_char_upper(v: int) -> char {
    if v < 10 {
        ((v + 48) as u8) as char
    } else {
        ((v + 55) as u8) as char
    }
}

/// Two lower-case hexadecimal digits per byte, high nibble first.
pub open spec fn hex_lower(b: Seq<u8>) -> Seq<char> {
    Seq::new(
        2 * b.len(),
        |i: int|
            if i % 2 == 0 {
                hex_char_lower(b[i / 2] as int / 16)
            } else {
                hex_char_lower(b[i / 2] as int % 16)
            },
    )
}

/// Two upper-case hexadecimal digits per byte, high nibble first.
pub open spec fn hex_upper(b: Seq<u8>) -> Seq<char> {
    Seq::new(
        2 * b.len(),
        |i: int|
            if i % 2 == 0 {
                hex_char_upper(b[i / 2] as int / 16)
            } else {
                hex_char_upper(b[i / 2] as int % 16)
            },
    )
}

/// A hexadecimal digit of either case.
pub open spec fn is_hex_char(c: char) -> bool {
    ('0' <= c <= '9') || ('a' <= c <= 'f') || ('A' <= c <= 'F')
}

/// Value of a hexadecimal digit of either case.
pub open spec fn hex_value(c: char) -> int {
    if '0' <= c <= '9' {
        c as int - 48
    } else if 'a' <= c <= 'f' {
        c as int - 87
    } else {
        c as int - 55
    }
}

/// `s` is an even number of hexadecimal digits of either case.
pub open spec fn is_hex_text(s: Seq<char>) -> bool {
    s.len() % 2 == 0 && forall|i: int| 0 <= i < s.len() ==> is_hex_char(#[trigger] s[i])
}

/// `b` is what the hexadecimal text `s` stands for.
pub open spec fn hex_decodes_to(s: Seq<char>, b: Seq<u8>) -> bool {
    &&& s.len() == 2 * b.len()
    &&& forall|i: int|
        0 <= i < b.len() ==> #[trigger] b[i] as int == hex_value(s[2 * i]) * 16 + hex_value(
            s[2 * i + 1],
        )
}

/// Relies on hex::encode: two lower-case digits per byte, high nibble first.
#[verifier::external_body]
pub(crate) fn to_hex(b: &[u8]) -> (r: String)
    ensures
        r@ == hex_lower(b@),
{
    hex::encode(b)
}

/// Relies on hex::encode_upper: two upper-case digits per byte, high nibble first.
#[verifier::external_body]
pub(crate) fn to_hex_upper(b: &[u8]) -> (r: String)
    ensures
        r@ == hex_upper(b@),
{
    hex::encode_upper(b)
}

/// hex's error for text that is not hexadecimal.
#[verifier::external_type_specification]
#[verifier::external_body]
pub struct ExFromHexError(hex::FromHexError);

/// Relies on hex::decode: it accepts exactly an even number of hexadecimal
/// digits of either case (any other character, a non-ASCII one included,
/// fails), and gives one byte per pair of digits.
#[verifier::external_body]
pub(crate) fn from_hex(s: &str) -> (r: Result<Vec<u8>, hex::FromHexError>)
    ensures
        r is Ok <==> is_hex_text(s@),
        r matches Ok(b) ==> hex_decodes_to(s@, b@),
{
    hex::decode(s)
}

/// The SHA-256 digest of a byte string.
pub uninterp spec fn sha256_of(data: Seq<u8>) -> Seq<u8>;

/// Relies on sha2::Sha256: the 32-byte SHA-256 digest of `data`.
#[verifier::external_body]
pub(crate) fn sha256(data: &[u8]) -> (r: Vec<u8>)
    ensures
        r@ == sha256_of(data@),
        r@.len() == 32,
{
    sha2::Sha256::digest(data).to_vec()
}

/// The `k` low-order bytes of `n`, most significant first.
pub open spec fn be_bytes(n: nat, k: nat) -> Seq<u8>
    decreases k,
{
    if k == 0 {
        Seq::empty()
    } else {
        be_bytes(n / 256, (k - 1) as nat).push((n % 256) as u8)
    }
}

/// Relies on uuid::Uuid::from_u128 and as_bytes: the identifier's sixteen
/// bytes, most significant first.
#[verifier::external_body]
pub(crate) fn id_bytes(id: u128) -> (r: Vec<u8>)
    ensures
        r@ == be_bytes(id as nat, 16),
{
    uuid::Uuid::from_u128(id).as_bytes().to_vec()
}

/// The UTF-8 bytes of a string.
pub open spec fn utf8_of(s: Seq<char>) -> Seq<u8> {
    encode_utf8(s)
}

/// The bytes of a string, as `str::as_bytes` gives them.
pub fn bytes_of(s: &str) -> (r: Vec<u8>)
    ensures
        r@ == utf8_of(s@),
{
    let b = s.as_bytes();
    let mut out: Vec<u8> = Vec::new();
    let mut i: usize = 0;
    while i < b.len()
        invariant
            i <= b@.len(),
            b@ == utf8_of(s@),
            out@ == b@.subrange(0, i as int),
        decreases b@.len() - i,
    {
        out.push(b[i]);
        i += 1;
    }
    assert(out@ =~= b@);
    out
}


/// The `k` low-order bytes of `n`, most significant first.
pub fn be_vec(n: u64, k: usize) -> (r: Vec<u8>)
    ensures
        r@ == be_bytes(n as nat, k as nat),
    decreases k,
{
    if k == 0 {
        Vec::new()
    } else {
        let mut v = be_vec(n / 256, k - 1);
        v.push((n % 256) as u8);
        v
    }
}

/// Appends `b` to `out`.
pub fn push_all(out: &mut Vec<u8>, b: &[u8])
    ensures
        final(out)@ == old(out)@ + b@,
{
    let mut i: usize = 0;
    while i < b.len()
        invariant
            i <= b@.len(),
            out@ == old(out)@ + b@.subrange(0, i as int),
        decreases b@.len() - i,
    {
        out.push(b[i]);
        i += 1;
        assert(out@ =~= old(out)@ + b@.subrange(0, i as int));
    }
    assert(b@.subrange(0, b@.len() as int) =~= b@);
}

/// `data` combined byte by byte with `key`, repeated as often as needed.
pub open spec fn xor_with(data: Seq<u8>, key: Seq<u8>) -> Seq<u8> {
    Seq::new(data.len(), |i: int| data[i] ^ key[i % key.len() as int])
}

/// Combines `data` with the repeated `key` by exclusive or; applying it
/// twice with one key gives `data` back.
pub fn xor_bytes(data: &[u8], key: &[u8]) -> (r: Vec<u8>)
    requires
        key@.len() > 0,
    ensures
        r@ == xor_with(data@, key@),
{
    let mut out: Vec<u8> = Vec::new();
    let mut i: usize = 0;
    while i < data.len()
        invariant
            i <= data@.len(),
            key@.len() > 0,
            out@.len() == i,
            forall|j: int| 0 <= j < i ==> #[trigger] out@[j] == data@[j] ^ key@[j % key@.len() as int],
        decreases data@.len() - i,
    {
        out.push(data[i] ^ key[i % key.len()]);
        i += 1;
    }
    assert(out@ =~= xor_with(data@, key@));
    out
}

/// Exclusive or with one key, twice, is the identity.
pub proof fn lemma_xor_twice(data: Seq<u8>, key: Seq<u8>)
    requires
        key.len() > 0,
    ensures
        xor_with(xor_with(data, key), key) == data,
{
    assert forall|i: int| 0 <= i < data.len() implies #[trigger] xor_with(
        xor_with(data, key),
        key,
    )[i] == data[i] by {
        let a = data[i];
        let b = key[i % key.len() as int];
        assert((a ^ b) ^ b == a) by (bit_vector);
    }
    assert(xor_with(xor_with(data, key), key) =~= data);
}

/// The bytes that a hexadecimal text stands for.
pub open spec fn hex_decode_spec(s: Seq<char>) -> Seq<u8> {
    Seq::new(
        s.len() / 2,
        |i: int| (hex_value(s[2 * i]) * 16 + hex_value(s[2 * i + 1])) as u8,
    )
}

/// Decoding is determined by the text.
pub proof fn lemma_hex_decode_unique(s: Seq<char>, b: Seq<u8>)
    requires
        hex_decodes_to(s, b),
    ensures
        b == hex_decode_spec(s),
{
    assert forall|i: int| 0 <= i < b.len() implies #[trigger] b[i] == hex_decode_spec(s)[i] by {
        assert(b[i] as int == hex_value(s[2 * i]) * 16 + hex_value(s[2 * i + 1]));
    }
    assert(b =~= hex_decode_spec(s));
}

/// Lower-case hexadecimal text decodes to the bytes it was made from.
pub proof fn lemma_hex_round_trip(b: Seq<u8>)
    ensures
        is_hex_text(hex_lower(b)),
        hex_decodes_to(hex_lower(b), b),
{
    let s = hex_lower(b);
    assert forall|i: int| 0 <= i < s.len() implies is_hex_char(#[trigger] s[i]) by {
        let v: int = if i % 2 == 0 {
            b[i / 2] as int / 16
        } else {
            b[i / 2] as int % 16
        };
        assert(0 <= v < 16);
    }
    assert forall|i: int| 0 <= i < b.len() implies #[trigger] b[i] as int == hex_value(s[2 * i])
        * 16 + hex_value(s[2 * i + 1]) by {
        assert((2 * i) % 2 == 0);
        assert((2 * i + 1) % 2 == 1);
        assert((2 * i) / 2 == i);
        assert((2 * i + 1) / 2 == i);
        let hi = b[i] as int / 16;
        let lo = b[i] as int % 16;
        assert(0 <= hi < 16 && 0 <= lo < 16);
        assert(hex_value(hex_char_lower(hi)) == hi);
        assert(hex_value(hex_char_lower(lo)) == lo);
    }
}


/// The hyphenated lower-case text of a 128-bit identifier (8-4-4-4-12 digits).
pub open spec fn id_text_spec(id: u128) -> Seq<char> {
    let h = hex_lower(be_bytes(id as nat, 16));
    h.subrange(0, 8) + seq!['-'] + h.subrange(8, 12) + seq!['-'] + h.subrange(12, 16) + seq!['-']
        + h.subrange(16, 20) + seq!['-'] + h.subrange(20, 32)
}

/// Relies on uuid's `Display` for `Uuid::from_u128(id)`: the hyphenated
/// lower-case form.
#[verifier::external_body]
pub(crate) fn id_text(id: u128) -> (r: String)
    ensures
        r@ == id_text_spec(id),
{
    uuid::Uuid::from_u128(id).to_string()
}


/// The natural number that bytes stand for, most significant first.
pub open spec fn from_be(s: Seq<u8>) -> nat
    decreases s.len(),
{
    if s.len() == 0 {
        0
    } else {
        from_be(s.drop_last()) * 256 + s.last() as nat
    }
}

pub open spec fn pow256(k: nat) -> nat
    decreases k,
{
    if k == 0 {
        1
    } else {
        256 * pow256((k - 1) as nat)
    }
}

pub proof fn lemma_be_bytes_len(n: nat, k: nat)
    ensures
        be_bytes(n, k).len() == k,
    decreases k,
{
    if k > 0 {
        lemma_be_bytes_len(n / 256, (k - 1) as nat);
    }
}

/// Reading back `k` bytes written from `n` gives `n`, when it fits.
pub proof fn lemma_from_be_bytes(n: nat, k: nat)
    requires
        n < pow256(k),
    ensures
        from_be(be_bytes(n, k)) == n,
    decreases k,
{
    if k > 0 {
        let b = be_bytes(n, k);
        assert(b.drop_last() == be_bytes(n / 256, (k - 1) as nat));
        assert(n / 256 < pow256((k - 1) as nat)) by (nonlinear_arith)
            requires
                n < 256 * pow256((k - 1) as nat),
        ;
        lemma_from_be_bytes(n / 256, (k - 1) as nat);
        assert(n == (n / 256) * 256 + n % 256) by (nonlinear_arith);
    } else {
        assert(n == 0);
    }
}

/// Writing back what bytes stand for gives the bytes, and it fits.
pub proof fn lemma_be_bytes_from(s: Seq<u8>)
    ensures
        be_bytes(from_be(s), s.len()) == s,
        from_be(s) < pow256(s.len()),
    decreases s.len(),
{
    if s.len() > 0 {
        let p = s.drop_last();
        lemma_be_bytes_from(p);
        let x = from_be(p);
        let v = x * 256 + s.last() as nat;
        assert(v / 256 == x && v % 256 == s.last() as nat) by (nonlinear_arith)
            requires
                v == x * 256 + s.last() as nat,
                s.last() < 256,
        ;
        assert(v < pow256(s.len())) by (nonlinear_arith)
            requires
                v == x * 256 + s.last() as nat,
                s.last() < 256,
                x < pow256(p.len()),
                pow256(s.len()) == 256 * pow256(p.len()),
        ;
        assert(be_bytes(v, s.len()) =~= s);
    }
}

/// Reads `k` bytes at `pos` as a big-endian number.
pub fn read_be(b: &Vec<u8>, pos: usize, k: usize) -> (r: u128)
    requires
        k <= 16,
        pos + k <= b@.len(),
    ensures
        r == from_be(b@.subrange(pos as int, pos + k)),
{
    reveal_with_fuel(pow256, 17);
    let n = b.len();
    let mut r: u128 = 0;
    let mut i: usize = 0;
    while i < k
        invariant
            n == b@.len(),
            k <= 16,
            pos + k <= b@.len(),
            i <= k,
            r == from_be(b@.subrange(pos as int, pos + i)),
            r < pow256(i as nat),
            pow256(16) == 0x1_0000_0000_0000_0000_0000_0000_0000_0000,
        decreases k - i,
    {
        proof {
            let s = b@.subrange(pos as int, pos + i + 1);
            assert(s.drop_last() =~= b@.subrange(pos as int, pos + i));
            lemma_pow256_monotone((i + 1) as nat, 16);
            assert(r * 256 + b@[pos + i] < pow256((i + 1) as nat)) by (nonlinear_arith)
                requires
                    r < pow256(i as nat),
                    b@[pos + i] < 256,
                    pow256((i + 1) as nat) == 256 * pow256(i as nat),
            ;
            assert(r * 256 + b@[pos + i] < 0x1_0000_0000_0000_0000_0000_0000_0000_0000);
        }
        r = r * 256 + b[pos + i] as u128;
        i += 1;
    }
    r
}

pub proof fn lemma_pow256_monotone(a: nat, b: nat)
    requires
        a <= b,
    ensures
        pow256(a) <= pow256(b),
    decreases b,
{
    if a < b {
        lemma_pow256_monotone(a, (b - 1) as nat);
        assert(pow256((b - 1) as nat) <= 256 * pow256((b - 1) as nat)) by (nonlinear_arith)
            requires
                pow256((b - 1) as nat) >= 0,
        ;
    }
}

/// Copies `len` bytes at `pos`.
pub fn slice_of(b: &Vec<u8>, pos: usize, len: usize) -> (r: Vec<u8>)
    requires
        pos + len <= b@.len(),
    ensures
        r@ == b@.subrange(pos as int, pos + len),
{
    let mut out: Vec<u8> = Vec::new();
    let n = b.len();
    let mut i: usize = 0;
    while i < len
        invariant
            n == b@.len(),
            pos + len <= b@.len(),
            i <= len,
            out@ == b@.subrange(pos as int, pos + i),
        decreases len - i,
    {
        out.push(b[pos + i]);
        i += 1;
        assert(out@ =~= b@.subrange(pos as int, pos + i));
    }
    out
}

} // verus!
