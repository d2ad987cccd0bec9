//! The clock and the source of seeds.

use vstd::prelude::*;

verus! {

/// The current time in whole seconds since the Unix epoch: the system clock, turned
/// into a `chrono::DateTime<Utc>` by chrono's conversion from `SystemTime`, and read
/// with `timestamp`. That conversion takes a clock set before 1970 as well and gives a
/// negative count for it; it gives up only on a time outside the years that chrono can
/// hold, some 262 000 to either side, which no system clock reports. Nothing is claimed
/// of the value: two reads may differ in either direction.
#[verifier::external_body]
pub(crate) fn now_timestamp() -> (now: i64) {
    chrono::DateTime::<chrono::Utc>::from(std::time::SystemTime::now()).timestamp()
}

/// A fresh 64-bit seed from `rand::random`, which draws from the thread's generator.
/// Nothing is claimed of the value.
#[verifier::external_body]
pub(crate) fn fresh_seed() -> (seed: u64) {
    rand::random::<u64>()
}

} // verus!
