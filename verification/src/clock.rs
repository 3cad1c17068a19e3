//! Readings of the system clock, and fresh identifiers.
use std::time::{Duration, SystemTime, UNIX_EPOCH};
use vstd::prelude::*;

verus! {

#[verifier::external_type_specification]
#[verifier::external_body]
pub struct ExSystemTime(SystemTime);

/// `SystemTime::now`: the current time of the system clock. Nothing is
/// promised of the reading.
#[verifier::external_body]
pub(crate) fn system_now() -> (t: SystemTime) {
    SystemTime::now()
}

/// `SystemTime::duration_since(UNIX_EPOCH)`: how long after the Unix epoch
/// `t` lies, or `None` if `t` lies before it. Nothing is promised of the
/// length, which depends on the reading.
#[verifier::external_body]
pub(crate) fn since_unix_epoch(t: &SystemTime) -> (d: Option<Duration>) {
    t.duration_since(UNIX_EPOCH).ok()
}

/// Whether `id` (a UUID read big-endian) is a version 4 UUID of the RFC
/// variant: its version nibble is 4 and its variant bits are `10`.
pub open spec fn is_v4_id(id: u128) -> bool {
    (id >> 76u128) & 0xfu128 == 4 && (id >> 62u128) & 0x3u128 == 2
}

/// A lowercase hexadecimal digit.
pub open spec fn is_lower_hex(c: char) -> bool {
    ('0' <= c && c <= '9') || ('a' <= c && c <= 'f')
}

/// Whether `s` is the hyphenated lowercase text of a version 4 UUID of the
/// RFC variant: 36 characters, hyphens at 8, 13, 18 and 23, hexadecimal
/// digits elsewhere, `4` at 14 and one of `8`, `9`, `a`, `b` at 19.
pub open spec fn is_v4_text(s: Seq<char>) -> bool {
    &&& s.len() == 36
    &&& forall|i: int| 0 <= i < 36 ==> if i == 8 || i == 13 || i == 18 || i == 23 {
        #[trigger] s[i] == '-'
    } else {
        is_lower_hex(s[i])
    }
    &&& s[14] == '4'
    &&& (s[19] == '8' || s[19] == '9' || s[19] == 'a' || s[19] == 'b')
}

/// `uuid::Uuid::new_v4`, as the `u128` that `Uuid::as_u128` gives (its
/// bytes read big-endian). The value is random; what is promised is what
/// `new_v4` sets: version 4 and the RFC variant.
#[verifier::external_body]
pub(crate) fn new_uuid_v4() -> (id: u128)
    ensures
        is_v4_id(id),
{
    uuid::Uuid::new_v4().as_u128()
}

/// `uuid::Uuid::new_v4` in its text form (`Uuid::to_string`, which is the
/// lowercase hyphenated form). The digits are random; what is promised is
/// the form and the version and variant digits.
#[verifier::external_body]
pub(crate) fn new_uuid_v4_string() -> (id: String)
    ensures
        is_v4_text(id@),
{
    uuid::Uuid::new_v4().to_string()
}

/// `chrono::Utc::now().timestamp_millis()`: the current UTC time in
/// milliseconds since the Unix epoch. Nothing is promised of the reading.
#[verifier::external_body]
pub(crate) fn utc_now_millis() -> (ms: i64) {
    chrono::Utc::now().timestamp_millis()
}

} // verus!
