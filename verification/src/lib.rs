//! Time types for scientific and astronomical use: durations and instants with
//! attosecond precision, proleptic Gregorian and Julian calendar dates, and the
//! time standards TT, TAI and UTC with its leap seconds.

use vstd::prelude::*;

pub mod calendar;
pub mod date_time;
pub mod duration;
pub mod epoch;
pub mod error;
pub mod instant;
pub mod leaps;
pub mod standard;
pub mod text;

pub use calendar::{Calendar, Gregorian, Julian};
pub use date_time::DateTime;
pub use duration::{Duration, ATTOS_PER_SEC_I64, ATTOS_PER_SEC_U64};
pub use epoch::Epoch;
pub use error::Error;
pub use instant::Instant;
pub use standard::{Continuous, Standard, Tai, Tt, Utc};

verus! {

/// The quotient and the remainder of `a` by `b`, the remainder never negative.
#[inline]
pub fn divmod_i64(a: i64, b: i64) -> (qr: (i64, i64))
    requires
        b != 0,
        !(a == i64::MIN && b == -1),
    ensures
        qr.0 == a / b,
        qr.1 == a % b,
{
    let q = a.checked_div_euclid(b);
    let r = a.checked_rem_euclid(b);
    proof {
        lemma_quotient_in_range(a as int, b as int);
    }
    (q.unwrap(), r.unwrap())
}

/// The quotient of two numbers of 64 bits is one again, but for the least of
/// them by -1, and the remainder is less than the divisor.
proof fn lemma_quotient_in_range(a: int, b: int)
    requires
        b != 0,
        i64::MIN <= a <= i64::MAX,
        !(a == i64::MIN && b == -1),
    ensures
        i64::MIN <= a / b <= i64::MAX,
        0 <= a % b,
        b > 0 ==> a % b < b,
        b < 0 ==> a % b < -b,
{
    assert(i64::MIN <= a / b <= i64::MAX && 0 <= a % b && (b > 0 ==> a % b < b) && (b < 0 ==> a % b
        < -b)) by (nonlinear_arith)
        requires
            b != 0,
            i64::MIN <= a <= i64::MAX,
            !(a == i64::MIN && b == -1),
    ;
}

} // verus!
