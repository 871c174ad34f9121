use vstd::prelude::*;
use sha2::Digest;

verus! {

/// The instant, in milliseconds since the Unix epoch, that an RFC 3339 text denotes,
/// if the text is one and the instant fits.
pub uninterp spec fn rfc3339_millis(s: Seq<char>) -> Option<i64>;

/// The 128-bit value of a textual UUID, if the text is one.
pub uninterp spec fn uuid_value(s: Seq<char>) -> Option<u128>;

/// The SHA-256 digest of a byte string.
pub uninterp spec fn sha256_digest(b: Seq<u8>) -> Seq<u8>;

/// Relies on chrono's `FromStr` for `DateTime<Utc>` (RFC 3339 with a space or `T` between
/// date and time) and on `DateTime::timestamp_millis`.
#[verifier::external_body]
pub(crate) fn parse_timestamp_millis(s: &str) -> (r: Option<i64>)
    ensures
        r == rfc3339_millis(s@),
{
    s.parse::<chrono::DateTime<chrono::Utc>>().ok().map(|d| d.timestamp_millis())
}

/// Relies on uuid's `Uuid::parse_str` and `Uuid::as_u128`.
#[verifier::external_body]
pub(crate) fn parse_uuid(s: &str) -> (r: Option<u128>)
    ensures
        r == uuid_value(s@),
{
    uuid::Uuid::parse_str(s).ok().map(|u| u.as_u128())
}

/// Relies on sha2's `Sha256::digest`, whose output is 32 bytes.
#[verifier::external_body]
pub(crate) fn sha256(b: &[u8]) -> (r: Vec<u8>)
    ensures
        r@ == sha256_digest(b@),
        r@.len() == 32,
{
    sha2::Sha256::digest(b).to_vec()
}

/// Relies on chrono's `Utc::now` and `DateTime::timestamp_millis`: the current wall-clock time.
#[verifier::external_body]
pub(crate) fn now_millis() -> (r: i64) {
    chrono::Utc::now().timestamp_millis()
}

} // verus!
