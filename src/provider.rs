use vstd::prelude::*;

verus! {

/// A fresh random identifier.
///
/// Relies on `uuid::Uuid::new_v4` for a random version-4 UUID and on its
/// `Display` impl, which writes the hyphenated lower-case form of 36 characters.
#[verifier::external_body]
pub(crate) fn new_id() -> (r: String)
    ensures
        r@.len() == 36,
{
    uuid::Uuid::new_v4().to_string()
}

/// The current time in Unix-epoch seconds.
///
/// Relies on `chrono::Utc::now` and `DateTime::timestamp`; nothing is promised of
/// the value, which comes from the system clock.
#[verifier::external_body]
pub(crate) fn now_timestamp() -> (r: i64) {
    chrono::Utc::now().timestamp()
}

} // verus!
