//! The wall clock, as Unix seconds.
use vstd::prelude::*;

verus! {

/// Relies on `SystemTime::now` and `duration_since(UNIX_EPOCH)`: whole
/// seconds since the epoch, or `None` for a clock set before it. Nothing
/// more is known of the value.
#[verifier::external_body]
fn system_secs() -> (r: Option<u64>) {
    std::time::SystemTime::now().duration_since(std::time::UNIX_EPOCH).ok().map(|d| d.as_secs())
}

/// Unix seconds now; 0 when the clock reads before the epoch.
pub fn unix_now() -> (r: i64)
    ensures
        r >= 0,
{
    match system_secs() {
        Some(s) => if s > i64::MAX as u64 {
            i64::MAX
        } else {
            s as i64
        },
        None => 0,
    }
}

} // verus!
