use vstd::prelude::*;

verus! {

/// `std::time::SystemTime`, carried through unexamined.
#[verifier::external_type_specification]
#[verifier::external_body]
pub struct ExSystemTime(std::time::SystemTime);

/// `std::time::SystemTime::now`: the system clock's current reading. It
/// depends on the moment of the call, so nothing is promised about it.
#[verifier::external_body]
fn system_now() -> (t: std::time::SystemTime) {
    std::time::SystemTime::now()
}

/// `SystemTime::duration_since(UNIX_EPOCH)`, in whole milliseconds; a reading
/// before the epoch (the error case) is zero. What the reading holds is not
/// visible to Verus, so nothing is promised about the result.
#[verifier::external_body]
fn millis_since_epoch(t: std::time::SystemTime) -> (ms: u64) {
    match t.duration_since(std::time::UNIX_EPOCH) {
        Ok(d) => d.as_millis() as u64,
        Err(_) => 0,
    }
}

/// Milliseconds since the Unix epoch, read from the system (wall) clock.
/// Library code cannot keep a reference instant to measure the monotonic
/// clock from, so callers that need monotonic time pass their own readings
/// to the `_at` forms (`next_chunk_at`, `SpeedMonitor::add_at`).
pub(crate) fn now_millis() -> (ms: u64) {
    millis_since_epoch(system_now())
}

/// Whole seconds from `earlier` to `later` (both in milliseconds), saturating
/// at zero when `later` comes first.
pub open spec fn whole_secs_between(earlier: u64, later: u64) -> int {
    if later >= earlier { (later - earlier) / 1000 } else { 0 }
}

/// Milliseconds from `earlier` to `later`, saturating at zero.
pub open spec fn millis_between(earlier: u64, later: u64) -> int {
    if later >= earlier { later - earlier } else { 0 }
}

} // verus!
