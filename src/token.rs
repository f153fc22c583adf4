use crate::error::Error;
use vstd::arithmetic::div_mod::lemma_mod_breakdown;
use vstd::arithmetic::power::{lemma_pow_positive, pow};
use vstd::prelude::*;
use crate::text::{append_fixed, fixed_digits};

verus! {

/// Seconds per TOTP time step.
pub const TOTP_PERIOD: u64 = 30;

/// Lower-cased start of the name of every YubiKey reader.
pub const YK_READER_NAME: [u8; 14] = [
    0x79, 0x75, 0x62, 0x69, 0x63, 0x6f, 0x20, 0x79, 0x75, 0x62, 0x69, 0x6b, 0x65, 0x79,
];

/// `b` with an ASCII capital letter turned into lower case.
pub open spec fn ascii_lower(b: u8) -> u8 {
    if 0x41 <= b <= 0x5a {
        (b + 0x20) as u8
    } else {
        b
    }
}

/// A reader name that starts with "yubico yubikey", in any ASCII case.
pub open spec fn is_yubikey_name(name: Seq<u8>) -> bool {
    &&& name.len() >= YK_READER_NAME@.len()
    &&& forall|i: int| 0 <= i < YK_READER_NAME@.len() ==> #[trigger] ascii_lower(name[i]) == YK_READER_NAME@[i]
}

/// The last `n` bytes of the big-endian representation of `x`.
pub open spec fn be_bytes(x: nat, n: nat) -> Seq<u8>
    decreases n,
{
    if n == 0 {
        Seq::empty()
    } else {
        be_bytes(x / 256, (n - 1) as nat).push((x % 256) as u8)
    }
}

/// The number that bytes spell in big-endian order.
pub open spec fn be_value(s: Seq<u8>) -> nat
    decreases s.len(),
{
    if s.len() == 0 {
        0
    } else {
        (be_value(s.drop_last()) * 256 + s.last()) as nat
    }
}

/// RFC 4226 dynamic truncation of a full HMAC: four bytes from the offset that the low
/// nibble of the last byte names, with the top bit cleared.
pub open spec fn dynamic_truncation(hmac: Seq<u8>) -> Result<nat, Error> {
    if hmac.len() == 0 {
        Err(Error::InsufficientData)
    } else {
        let offset = hmac.last() % 16;
        if hmac.len() < offset + 4 {
            Err(Error::InsufficientData)
        } else {
            Ok(be_value(hmac.subrange(offset as int, offset + 4)) % 0x8000_0000)
        }
    }
}

/// Whether a reader name marks a YubiKey.
pub fn is_yubikey_reader(name: &[u8]) -> (r: bool)
    ensures
        r == is_yubikey_name(name@),
{
    if name.len() < 14 {
        return false;
    }
    let mut i: usize = 0;
    while i < 14
        invariant
            i <= 14,
            name@.len() >= 14,
            forall|j: int| 0 <= j < i ==> #[trigger] ascii_lower(name@[j]) == YK_READER_NAME@[j],
        decreases 14 - i,
    {
        let b = name[i];
        let lower = if 0x41 <= b && b <= 0x5a {
            b + 0x20
        } else {
            b
        };
        if lower != YK_READER_NAME[i] {
            assert(ascii_lower(name@[i as int]) != YK_READER_NAME@[i as int]);
            return false;
        }
        i = i + 1;
    }
    true
}

/// The first reader whose name marks a YubiKey, or `NoDevice`.
pub fn find_reader(names: &Vec<Vec<u8>>) -> (r: Result<usize, Error>)
    ensures
        match r {
            Ok(k) => {
                &&& k < names@.len()
                &&& is_yubikey_name(names@[k as int]@)
                &&& forall|j: int| 0 <= j < k ==> !is_yubikey_name(#[trigger] names@[j]@)
            },
            Err(e) => {
                &&& e == Error::NoDevice
                &&& forall|j: int| 0 <= j < names@.len() ==> !is_yubikey_name(#[trigger] names@[j]@)
            },
        },
{
    let mut k: usize = 0;
    while k < names.len()
        invariant
            k <= names@.len(),
            forall|j: int| 0 <= j < k ==> !is_yubikey_name(#[trigger] names@[j]@),
        decreases names@.len() - k,
    {
        if is_yubikey_reader(names[k].as_slice()) {
            return Ok(k);
        }
        k = k + 1;
    }
    Err(Error::NoDevice)
}

/// The last `n` bytes of `x` in big-endian order.
fn be_bytes_of(x: u64, n: usize) -> (r: Vec<u8>)
    ensures
        r@ == be_bytes(x as nat, n as nat),
    decreases n,
{
    if n == 0 {
        Vec::new()
    } else {
        let mut r = be_bytes_of(x / 256, n - 1);
        r.push((x % 256) as u8);
        r
    }
}

/// The TOTP challenge for a Unix time: the number of the current time step, as eight
/// big-endian bytes.
pub fn totp_challenge(unix_time: u64) -> (r: Vec<u8>)
    ensures
        r@ == be_bytes((unix_time / TOTP_PERIOD) as nat, 8),
{
    be_bytes_of(unix_time / TOTP_PERIOD, 8)
}

/// The number that four bytes spell in big-endian order.
pub fn be_u32(b: &[u8]) -> (r: u32)
    requires
        b@.len() == 4,
    ensures
        r == be_value(b@),
{
    proof {
        reveal_with_fuel(be_value, 5);
        assert(b@.drop_last().drop_last().drop_last().drop_last() =~= Seq::<u8>::empty());
    }
    ((b[0] as u32 * 256 + b[1] as u32) * 256 + b[2] as u32) * 256 + b[3] as u32
}

/// Dynamic truncation of a full HMAC, as done by the caller when the card was asked
/// for the untruncated response.
pub fn truncate_hmac(hmac: &[u8]) -> (r: Result<u32, Error>)
    ensures
        match dynamic_truncation(hmac@) {
            Ok(v) => r == Ok::<u32, Error>(v as u32),
            Err(e) => r == Err::<u32, Error>(e),
        },
{
    let n = hmac.len();
    if n == 0 {
        return Err(Error::InsufficientData);
    }
    let offset = (hmac[n - 1] % 16) as usize;
    if n < offset + 4 {
        return Err(Error::InsufficientData);
    }
    let v = be_u32(vstd::slice::slice_subrange(hmac, offset, offset + 4));
    Ok(v % 0x8000_0000)
}

/// The code to type: `value mod 10^digits` in exactly `digits` decimal characters.
pub fn format_code(value: u32, digits: u8) -> (r: String)
    ensures
        r@ == fixed_digits(value as nat, digits as nat, 10),
{
    let mut s = String::new();
    append_fixed(&mut s, value, digits, 10);
    s
}

/// The code for a truncated response, which the card delivers as four big-endian bytes
/// whose top bit it has already cleared.
pub fn token_code(digits: u8, truncated: &[u8]) -> (r: Result<String, Error>)
    ensures
        truncated@.len() == 4 ==> r is Ok && r->Ok_0@ == fixed_digits(be_value(truncated@), digits as nat, 10),
        truncated@.len() != 4 ==> r == Err::<String, Error>(Error::UnexpectedLength((truncated@.len() % 256) as u8)),
{
    if truncated.len() != 4 {
        return Err(Error::UnexpectedLength((truncated.len() % 256) as u8));
    }
    Ok(format_code(be_u32(truncated), digits))
}

/// The code for a full HMAC response, truncated here.
pub fn hmac_token_code(digits: u8, hmac: &[u8]) -> (r: Result<String, Error>)
    ensures
        match dynamic_truncation(hmac@) {
            Ok(v) => r is Ok && r->Ok_0@ == fixed_digits(v, digits as nat, 10),
            Err(e) => r == Err::<String, Error>(e),
        },
{
    let v = truncate_hmac(hmac)?;
    Ok(format_code(v, digits))
}

/// The `n` bytes of `x` spell `x mod 256^n` in big-endian order.
pub proof fn lemma_be_bytes_value(x: nat, n: nat)
    ensures
        be_bytes(x, n).len() == n,
        be_value(be_bytes(x, n)) == x % pow(256, n) as nat,
    decreases n,
{
    reveal(pow);
    if n > 0 {
        let c = pow(256, (n - 1) as nat);
        lemma_pow_positive(256, (n - 1) as nat);
        lemma_be_bytes_value(x / 256, (n - 1) as nat);
        let s = be_bytes(x / 256, (n - 1) as nat);
        assert(be_bytes(x, n).drop_last() =~= s);
        lemma_mod_breakdown(x as int, 256, c);
    }
}

} // verus!
