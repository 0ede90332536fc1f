//! Wall-clock time, kept as nanoseconds since the Unix epoch, and its
//! RFC 3339 rendering.
use vstd::prelude::*;

verus! {

/// The latest instant the store keeps, in nanoseconds since the Unix epoch:
/// the largest `i64` less the session lifetime, so that an expiry computed
/// from any kept instant still fits.
pub const MAX_TIMESTAMP_NANOS: i64 = 9_223_328_836_854_775_807;

/// A nanosecond timestamp that the store keeps and renders.
pub open spec fn is_timestamp(t: i64) -> bool {
    0 <= t <= MAX_TIMESTAMP_NANOS
}

/// Reads `chrono::Utc::now().timestamp_nanos_opt()`. The contract claims
/// only what holds of every reading: `Utc::now` measures from the Unix epoch
/// (it panics on a clock set before it), and `timestamp_nanos_opt` is `None`
/// once the instant no longer fits `i64` nanoseconds (after 2262-04-11).
#[verifier::external_body]
fn now_nanos() -> (t: Option<i64>)
    ensures
        t matches Some(x) ==> 0 <= x,
{
    chrono::Utc::now().timestamp_nanos_opt()
}

/// The current time, where it is an instant that the store keeps.
pub(crate) fn current_time() -> (t: Option<i64>)
    ensures
        t matches Some(x) ==> is_timestamp(x),
{
    match now_nanos() {
        Some(x) => if x <= MAX_TIMESTAMP_NANOS {
            Some(x)
        } else {
            None
        },
        None => None,
    }
}

/// What `chrono::DateTime::<Utc>::to_rfc3339` prints for the instant
/// `nanos` nanoseconds after the Unix epoch.
pub uninterp spec fn rfc3339_of(nanos: i64) -> Seq<char>;

/// Renders a timestamp with `DateTime::from_timestamp_nanos(..).to_rfc3339()`,
/// which converts every `i64`; the text itself is only named, not described.
#[verifier::external_body]
pub(crate) fn rfc3339(nanos: i64) -> (s: String)
    requires
        is_timestamp(nanos),
    ensures
        s@ == rfc3339_of(nanos),
{
    chrono::DateTime::from_timestamp_nanos(nanos).to_rfc3339()
}

} // verus!
