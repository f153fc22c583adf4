use vstd::prelude::*;
use vstd::string::{StrSliceExecFns, StringExecFns};

verus! {

/// Credentials that expire sooner than this many seconds from now are renewed.
pub const RENEW_MARGIN_SECS: i64 = 3 * 60 * 60;

/// The instant that a timestamp text names, in seconds since the Unix epoch, as chrono
/// reads it; `None` for text it does not accept.
pub uninterp spec fn timestamp_seconds(s: Seq<char>) -> Option<i64>;

/// Relies on chrono's `FromStr for DateTime<Utc>`, a relaxed RFC 3339 reader, and on
/// `DateTime::timestamp`: the result is a function of the text alone.
#[verifier::external_body]
fn parse_timestamp(s: &str) -> (r: Option<i64>)
    ensures
        r == timestamp_seconds(s@),
{
    match s.parse::<chrono::DateTime<chrono::Utc>>() {
        Ok(t) => Some(t.timestamp()),
        Err(_) => None,
    }
}

/// Whether credentials that expire at `expires_at` may still be used at `now`.
pub open spec fn fresh(expires_at: Option<i64>, now: i64) -> bool {
    match expires_at {
        Some(t) => t >= now + RENEW_MARGIN_SECS,
        None => false,
    }
}

/// Whether credentials that expire at `expires_at` (unknown: `None`) may still be used
/// at `now`, keeping the renewal margin.
pub fn is_fresh(expires_at: Option<i64>, now: i64) -> (r: bool)
    ensures
        r == fresh(expires_at, now),
{
    match expires_at {
        Some(t) => (t as i128) >= (now as i128) + (RENEW_MARGIN_SECS as i128),
        None => false,
    }
}

/// Whether credentials whose expiration reads `expiration` may still be used at `now`.
pub fn credentials_fresh(expiration: &str, now: i64) -> (r: bool)
    ensures
        r == fresh(timestamp_seconds(expiration@), now),
{
    is_fresh(parse_timestamp(expiration), now)
}

/// The label under which the token stores the user's credential.
pub fn issuer(user_name: &str, account_alias: &str) -> (r: String)
    ensures
        r@ == "Amazon Web Services:"@ + user_name@ + "@"@ + account_alias@,
{
    let mut s = String::from_str("Amazon Web Services:");
    s.append(user_name);
    s.append("@");
    s.append(account_alias);
    s
}

/// The ARN of the user's MFA device.
pub fn mfa_serial_number(account: &str, user_name: &str) -> (r: String)
    ensures
        r@ == "arn:aws:iam::"@ + account@ + ":mfa/"@ + user_name@,
{
    let mut s = String::from_str("arn:aws:iam::");
    s.append(account);
    s.append(":mfa/");
    s.append(user_name);
    s
}

/// The profile that caches the session credentials made from an access key.
pub fn profile_name(access_key: &str) -> (r: String)
    ensures
        r@ == "mfa/"@ + access_key@,
{
    let mut s = String::from_str("mfa/");
    s.append(access_key);
    s
}

/// The user name of an IAM user ARN of the given account: what follows
/// `arn:aws:iam::<account>:user/`. `None` when the ARN does not start that way.
pub fn user_name_from_arn(user_arn: &str, account: &str) -> (r: Option<String>)
    ensures
        ({
            let prefix = "arn:aws:iam::"@ + account@ + ":user/"@;
            match r {
                Some(name) => {
                    &&& prefix.len() <= user_arn@.len()
                    &&& user_arn@ == prefix + name@
                },
                None => !(prefix.len() <= user_arn@.len() && user_arn@.subrange(0, prefix.len() as int)
                    == prefix),
            }
        }),
{
    let mut prefix = String::from_str("arn:aws:iam::");
    prefix.append(account);
    prefix.append(":user/");
    let p = prefix.as_str();
    let plen = p.unicode_len();
    let alen = user_arn.unicode_len();
    if plen > alen {
        return None;
    }
    let mut i: usize = 0;
    while i < plen
        invariant
            i <= plen,
            plen == p@.len(),
            p@ == "arn:aws:iam::"@ + account@ + ":user/"@,
            plen <= alen,
            alen == user_arn@.len(),
            forall|j: int| 0 <= j < i ==> p@[j] == user_arn@[j],
        decreases plen - i,
    {
        if p.get_char(i) != user_arn.get_char(i) {
            assert(user_arn@.subrange(0, plen as int)[i as int] != p@[i as int]);
            return None;
        }
        i = i + 1;
    }
    let name = user_arn.substring_char(plen, alen).to_owned();
    assert(user_arn@ =~= p@ + name@);
    Some(name)
}

} // verus!
