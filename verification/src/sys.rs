//! Calls into the host environment and outside crates, behind contracts.

use vstd::prelude::*;

verus! {

/// What String::from_utf8_lossy returns for a byte string: a function of
/// the bytes alone.
pub uninterp spec fn utf8_lossy_chars(bytes: Seq<u8>) -> Seq<char>;

/// Relies on std's String::from_utf8_lossy: decodes UTF-8, substituting
/// replacement characters for invalid sequences. An empty input decodes
/// to an empty string, and ASCII bytes decode to themselves.
#[verifier::external_body]
pub(crate) fn utf8_lossy(bytes: &[u8]) -> (r: String)
    ensures
        r@ == utf8_lossy_chars(bytes@),
        bytes@.len() == 0 ==> r@.len() == 0,
        (forall|i: int| 0 <= i < bytes@.len() ==> bytes@[i] < 128) ==> (r@.len() == bytes@.len()
            && (forall|i: int| 0 <= i < bytes@.len() ==> r@[i] == bytes@[i] as char)),
{
    String::from_utf8_lossy(bytes).to_string()
}

/// Relies on chrono's Utc::now and DateTime::timestamp_millis: the
/// current time as milliseconds since the Unix epoch. Nothing is promised
/// of the value. Panics only in a broken environment: a system clock set
/// before the Unix epoch.
#[verifier::external_body]
pub(crate) fn now_millis() -> (t: i64) {
    chrono::Utc::now().timestamp_millis()
}

/// Relies on uuid's Uuid::new_v4 and its Display form: a fresh random
/// identifier, written as 36 characters in the hyphenated format. Nothing
/// is promised of which identifier comes back. Panics only in a broken
/// environment: an operating-system random source that fails.
#[verifier::external_body]
pub(crate) fn new_uuid_string() -> (r: String)
    ensures
        r@.len() == 36,
{
    uuid::Uuid::new_v4().to_string()
}

} // verus!
