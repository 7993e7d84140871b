//! Clock sampler: one read of the system's high-resolution timer.

use vstd::prelude::*;

verus! {

/// Relies on std::time::SystemTime::now and SystemTime::duration_since:
/// reads the system clock and hands back the elapsed time since the epoch
/// as whole seconds and the sub-second nanosecond remainder, which the
/// documentation bounds below one billion. The value depends on when the
/// call runs, so nothing more is promised of it. Aborts the run if the
/// clock cannot report a time at or after the epoch: a timer that cannot be
/// read is unrecoverable for this tool.
#[verifier::external_body]
fn now_duration_parts() -> (r: (u64, u32))
    ensures
        r.1 < 1_000_000_000,
{
    let dur = std::time::SystemTime::now().duration_since(std::time::UNIX_EPOCH).unwrap();
    (dur.as_secs(), dur.subsec_nanos())
}

/// Combine whole seconds and a sub-second nanosecond remainder into a
/// single nanosecond count: `secs * 1_000_000_000 + nanos`, reduced to the
/// low 64 bits. For every clock value this tool will ever see the exact sum
/// fits and the result is the sum itself.
pub fn to_nanos(secs: u64, nanos: u32) -> (r: u64)
    requires
        nanos < 1_000_000_000,
    ensures
        r == (secs * 1_000_000_000 + nanos) % 0x1_0000_0000_0000_0000,
        secs * 1_000_000_000 + nanos <= u64::MAX ==> r == secs * 1_000_000_000 + nanos,
{
    let ns: u128 = (secs as u128) * 1_000_000_000u128 + (nanos as u128);
    proof {
        assert(ns as u64 == ns % 0x1_0000_0000_0000_0000) by (bit_vector);
    }
    #[verifier::truncate]
    (ns as u64)
}

/// Read the timer once, as a single nanosecond count since the epoch,
/// combining the clock's whole seconds and nanosecond remainder through
/// `to_nanos`.
pub fn get_input() -> u64 {
    let parts: (u64, u32) = now_duration_parts();
    to_nanos(parts.0, parts.1)
}

} // verus!
