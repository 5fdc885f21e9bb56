use vstd::prelude::*;
use std::time::{Duration, Instant};

verus! {

/// A point on the monotonic clock of the standard library.
#[verifier::external_type_specification]
#[verifier::external_body]
pub struct ExInstant(Instant);

/// Calls `Instant::now`. It gives the present reading of the monotonic clock;
/// nothing is claimed of the value.
#[verifier::external_body]
pub(crate) fn clock_now() -> (now: Instant) {
    Instant::now()
}

/// Calls `Instant::elapsed`. It gives the time that has passed since `start`
/// was read; nothing is claimed of the value.
#[verifier::external_body]
pub(crate) fn clock_elapsed(start: &Instant) -> (elapsed: Duration) {
    start.elapsed()
}

/// Calls `Duration::as_secs`. It gives the whole seconds of the span; nothing
/// is claimed of the value.
#[verifier::external_body]
pub(crate) fn duration_secs(span: &Duration) -> (secs: u64) {
    span.as_secs()
}

/// Calls `Duration::subsec_nanos`. It gives the part of the span beyond its
/// whole seconds, in nanoseconds, which is always less than one second.
#[verifier::external_body]
pub(crate) fn duration_subsec_nanos(span: &Duration) -> (nanos: u32)
    ensures
        nanos < 1_000_000_000,
{
    span.subsec_nanos()
}

/// The nanoseconds that `secs` whole seconds and `subsec_nanos` further
/// nanoseconds are.
pub open spec fn total_nanos(secs: nat, subsec_nanos: nat) -> nat {
    secs * 1_000_000_000 + subsec_nanos
}

/// Whether `nanos` is a span that a clock reading can give: whole seconds that
/// fit in 64 bits, and less than one second beyond them.
pub open spec fn is_reading(nanos: int) -> bool {
    exists|secs: u64, subsec_nanos: u32|
        subsec_nanos < 1_000_000_000 && nanos == #[trigger] total_nanos(
            secs as nat,
            subsec_nanos as nat,
        )
}

/// Puts the two parts of a span together into one count of nanoseconds.
pub fn to_nanos(secs: u64, subsec_nanos: u32) -> (nanos: i128)
    ensures
        nanos == total_nanos(secs as nat, subsec_nanos as nat),
{
    assert(secs * 1_000_000_000 + subsec_nanos <= i128::MAX) by (nonlinear_arith)
        requires
            secs <= u64::MAX,
            subsec_nanos <= u32::MAX,
    ;
    let whole: i128 = secs as i128;
    let beyond: i128 = subsec_nanos as i128;
    whole * 1_000_000_000 + beyond
}

/// A count of nanoseconds in which the further nanoseconds are less than one
/// second gives back its two parts: the whole seconds as the quotient by one
/// second, the rest as the remainder.
pub proof fn lemma_total_nanos_parts(secs: nat, subsec_nanos: nat)
    requires
        subsec_nanos < 1_000_000_000,
    ensures
        total_nanos(secs, subsec_nanos) / 1_000_000_000 == secs,
        total_nanos(secs, subsec_nanos) % 1_000_000_000 == subsec_nanos,
{
    assert((secs * 1_000_000_000 + subsec_nanos) / 1_000_000_000 == secs && (secs * 1_000_000_000
        + subsec_nanos) % 1_000_000_000 == subsec_nanos) by (nonlinear_arith)
        requires
            subsec_nanos < 1_000_000_000,
    ;
}

} // verus!
