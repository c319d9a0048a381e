//! The time of day.

use vstd::prelude::*;

verus! {

/// A time since 1970 in milliseconds, as it is stored: in 64 bits, and zero for a
/// clock that stands before 1970.
pub open spec fn epoch_millis(elapsed: Option<u128>) -> u64 {
    match elapsed {
        Some(millis) => (millis % 0x1_0000_0000_0000_0000) as u64,
        None => 0,
    }
}

/// Calls `SystemTime::elapsed` on the start of 1970. Nothing is claimed of the
/// result: it is the machine's clock, in milliseconds, and none where the clock
/// stands before 1970.
#[verifier::external_body]
fn elapsed_millis() -> (r: Option<u128>) {
    std::time::UNIX_EPOCH.elapsed().ok().map(|elapsed| elapsed.as_millis())
}

/// A time since 1970 in milliseconds, as it is stored.
pub fn stored_millis(elapsed: Option<u128>) -> (r: u64)
    ensures
        r == epoch_millis(elapsed),
{
    match elapsed {
        Some(millis) => {
            proof {
                assert(millis as u64 == millis % 0x1_0000_0000_0000_0000) by (bit_vector);
            }
            millis as u64
        },
        None => 0,
    }
}

/// The time now, in milliseconds since 1970.
pub fn now_millis() -> (r: u64)
    ensures
        exists|elapsed: Option<u128>| r == #[trigger] epoch_millis(elapsed),
{
    stored_millis(elapsed_millis())
}

/// A time that fits in 64 bits is stored as it is; a longer one loses what does not
/// fit; and a clock that stands before 1970 gives zero.
pub proof fn law_stored_time(millis: u64, beyond: u64)
    ensures
        epoch_millis(Some(millis as u128)) == millis,
        epoch_millis(Some((millis + beyond * 0x1_0000_0000_0000_0000) as u128)) == millis,
        epoch_millis(None) == 0,
{
    let n = millis + beyond * 0x1_0000_0000_0000_0000;
    assert(n % 0x1_0000_0000_0000_0000 == millis) by (nonlinear_arith)
        requires
            n == millis + beyond * 0x1_0000_0000_0000_0000,
            0 <= millis < 0x1_0000_0000_0000_0000,
    ;
    assert(n < 0x1_0000_0000_0000_0000 * 0x1_0000_0000_0000_0000) by (nonlinear_arith)
        requires
            n == millis + beyond * 0x1_0000_0000_0000_0000,
            millis < 0x1_0000_0000_0000_0000,
            beyond < 0x1_0000_0000_0000_0000,
    ;
}

} // verus!
