use crate::error::Error;
use crate::text::{append_decimal, decimal};
use std::cmp::Ordering;
use std::ops::{Add, Neg, Sub};
use vstd::prelude::*;
use vstd::std_specs::cmp::PartialOrdSpecImpl;
use vstd::std_specs::ops::{AddSpecImpl, NegSpecImpl, SubSpecImpl};
use vstd::string::StringExecFns;

verus! {

/// Attoseconds in one second.
pub const ATTOS_PER_SEC_I64: i64 = 1_000_000_000_000_000_000;

/// Attoseconds in one second.
pub const ATTOS_PER_SEC_U64: u64 = 1_000_000_000_000_000_000;

/// Attoseconds in one second, as a number without bound.
#[verifier::inline]
pub open spec fn attos_per_sec() -> int {
    1_000_000_000_000_000_000
}

/// The whole seconds in `total` attoseconds, rounded toward zero.
pub open spec fn seconds_of(total: int) -> int {
    if total >= 0 {
        total / attos_per_sec()
    } else {
        -((-total) / attos_per_sec())
    }
}

/// What is left of `total` attoseconds beside its whole seconds; it has the
/// sign of `total` or is zero.
pub open spec fn attos_of(total: int) -> int {
    total - seconds_of(total) * attos_per_sec()
}

/// A part of a period: the number with the letter of its unit behind it, or
/// nothing where the number is zero.
pub open spec fn period_part(number: nat, unit: Seq<char>) -> Seq<char> {
    if number != 0 {
        decimal(number, 1) + unit
    } else {
        Seq::<char>::empty()
    }
}

/// The seconds of a period: nothing where there are none, else the seconds
/// with an `S` behind them, with the attoseconds as 18 decimal places where
/// there are any.
pub open spec fn period_seconds(seconds: nat, attos: nat) -> Seq<char> {
    if seconds == 0 && attos == 0 {
        Seq::<char>::empty()
    } else if attos == 0 {
        decimal(seconds, 1) + "S"@
    } else {
        decimal(seconds, 1) + "."@ + decimal(attos, 18) + "S"@
    }
}

/// A duration of `total` attoseconds written as a period of ISO 8601: `P`,
/// or `-P` for a negative duration, then the days with a `D`, a `T` where a
/// time of day follows, the hours with an `H`, the minutes with an `M`, and
/// the seconds with an `S`. A part that is zero is left out.
pub open spec fn period_text(total: int) -> Seq<char> {
    let size: nat = if total < 0 {
        (-total) as nat
    } else {
        total as nat
    };
    let whole: nat = size / (attos_per_sec() as nat);
    let attos: nat = size % (attos_per_sec() as nat);
    let days: nat = whole / 86_400;
    let in_day: nat = whole % 86_400;
    let hours: nat = in_day / 3_600;
    let minutes: nat = in_day % 3_600 / 60;
    let seconds: nat = in_day % 3_600 % 60;
    let sign = if total < 0 {
        "-P"@
    } else {
        "P"@
    };
    let time_mark = if in_day != 0 || attos != 0 {
        "T"@
    } else {
        Seq::<char>::empty()
    };
    sign + period_part(days, "D"@) + time_mark + period_part(hours, "H"@) + period_part(
        minutes,
        "M"@,
    ) + period_seconds(seconds, attos)
}

/// Writes a part of a period after `text`.
fn append_period_part(text: &mut String, number: u64, unit: &str)
    ensures
        final(text)@ == old(text)@ + period_part(number as nat, unit@),
{
    if number != 0 {
        append_decimal(text, number, 1);
        text.append(unit);
    }
    assert(text@ =~= old(text)@ + period_part(number as nat, unit@));
}

/// Writes the seconds of a period after `text`.
fn append_period_seconds(text: &mut String, seconds: u64, attos: u64)
    ensures
        final(text)@ == old(text)@ + period_seconds(seconds as nat, attos as nat),
{
    if seconds != 0 || attos != 0 {
        append_decimal(text, seconds, 1);
        if attos != 0 {
            text.append(".");
            append_decimal(text, attos, 18);
        }
        text.append("S");
    }
    assert(text@ =~= old(text)@ + period_seconds(seconds as nat, attos as nat));
}

/// An interval of time in whole attoseconds (10^-18 s), negative or positive.
///
/// It is kept as whole seconds and the attoseconds beside them, both of the
/// same sign, so it reaches about 40 times the age of the universe either way.
/// Its view is the interval as one number of attoseconds.
#[derive(Debug, Clone, Copy, PartialEq, Eq, Structural, Ord, Hash)]
pub struct Duration {
    secs: i64,
    attos: i64,
}

impl View for Duration {
    type V = int;

    closed spec fn view(&self) -> int {
        self.secs * attos_per_sec() + self.attos
    }
}

impl Duration {
    /// Whether a duration can hold `total` attoseconds.
    pub open spec fn fits(total: int) -> bool {
        i64::MIN * attos_per_sec() - (attos_per_sec() - 1) <= total <= i64::MAX * attos_per_sec()
            + (attos_per_sec() - 1)
    }

    /// The two parts agree in sign and the attoseconds stay under one second.
    #[verifier::type_invariant]
    pub closed spec fn is_normalized(&self) -> bool {
        &&& -attos_per_sec() < self.attos < attos_per_sec()
        &&& self.secs > 0 ==> self.attos >= 0
        &&& self.secs < 0 ==> self.attos <= 0
    }

    /// The duration of `total` attoseconds.
    pub closed spec fn of(total: int) -> Duration {
        Duration { secs: seconds_of(total) as i64, attos: attos_of(total) as i64 }
    }

    /// A normalized duration is the one that `of` gives for its view: two
    /// normalized durations of the same length are equal.
    pub proof fn lemma_of_view(self)
        requires
            self.is_normalized(),
        ensures
            self == Duration::of(self@),
            Duration::fits(self@),
    {
        let a = attos_per_sec();
        let t = self@;
        if self.secs > 0 || (self.secs == 0 && self.attos >= 0) {
            assert(t >= 0) by (nonlinear_arith)
                requires
                    t == self.secs * a + self.attos,
                    self.secs >= 0,
                    self.attos >= 0,
                    a > 0,
            ;
            vstd::arithmetic::div_mod::lemma_fundamental_div_mod_converse(
                t,
                a,
                self.secs as int,
                self.attos as int,
            );
        } else {
            assert(-t == (-self.secs) * a + (-self.attos)) by (nonlinear_arith)
                requires
                    t == self.secs * a + self.attos,
            ;
            assert(-t >= 0) by (nonlinear_arith)
                requires
                    -t == (-self.secs) * a + (-self.attos),
                    -self.secs >= 0,
                    -self.attos >= 0,
                    a > 0,
            ;
            vstd::arithmetic::div_mod::lemma_fundamental_div_mod_converse(
                -t,
                a,
                -(self.secs as int),
                -(self.attos as int),
            );
        }
    }

    /// `of` gives a normalized duration of the length asked for.
    pub proof fn lemma_view_of(total: int)
        requires
            Duration::fits(total),
        ensures
            Duration::of(total)@ == total,
            Duration::of(total).is_normalized(),
    {
        let a = attos_per_sec();
        if total >= 0 {
            vstd::arithmetic::div_mod::lemma_fundamental_div_mod(total, a);
        } else {
            vstd::arithmetic::div_mod::lemma_fundamental_div_mod(-total, a);
        }
    }
}

impl Duration {
    /// Brings seconds and attoseconds of any size and sign to the normalized
    /// form: the attoseconds under one second, and of the sign of the seconds.
    /// Where the duration cannot be held there is none.
    fn normalize(secs: i128, attos: i128) -> (d: Option<Duration>)
        requires
            -0x4_0000_0000_0000_0000 <= secs <= 0x4_0000_0000_0000_0000,
            -0x4_0000_0000_0000_0000 <= attos <= 0x4_0000_0000_0000_0000,
        ensures
            Duration::fits(secs * attos_per_sec() + attos) ==> d.is_some() && d.unwrap()@ == secs
                * attos_per_sec() + attos,
            !Duration::fits(secs * attos_per_sec() + attos) ==> d.is_none(),
    {
        let per_sec: i128 = 1_000_000_000_000_000_000;
        // no euclidean division here: negatives are reflected through zero
        let mut s: i128 = secs + attos / per_sec;
        let mut a: i128 = attos % per_sec;
        if s < 0 && a > 0 {
            a -= per_sec;
            s += 1;
        } else if s > 0 && a < 0 {
            a += per_sec;
            s -= 1;
        }
        if s < i64::MIN as i128 || s > i64::MAX as i128 {
            None
        } else {
            Some(Duration { secs: s as i64, attos: a as i64 })
        }
    }

    /// The sum of two durations, or none where it cannot be held.
    pub fn checked_add(self, rhs: Duration) -> (sum: Option<Duration>)
        ensures
            Duration::fits(self@ + rhs@) ==> sum.is_some() && sum.unwrap()@ == self@ + rhs@,
            !Duration::fits(self@ + rhs@) ==> sum.is_none(),
    {
        proof {
            use_type_invariant(self);
            use_type_invariant(rhs);
        }
        Duration::normalize(
            self.secs as i128 + rhs.secs as i128,
            self.attos as i128 + rhs.attos as i128,
        )
    }

    /// The difference of two durations, or none where it cannot be held.
    pub fn checked_sub(self, rhs: Duration) -> (difference: Option<Duration>)
        ensures
            Duration::fits(self@ - rhs@) ==> difference.is_some() && difference.unwrap()@ == self@
                - rhs@,
            !Duration::fits(self@ - rhs@) ==> difference.is_none(),
    {
        proof {
            use_type_invariant(self);
            use_type_invariant(rhs);
        }
        Duration::normalize(
            self.secs as i128 - rhs.secs as i128,
            self.attos as i128 - rhs.attos as i128,
        )
    }

    /// A duration of `secs` seconds and `attos` attoseconds, which may differ
    /// in sign and may each be of any size; none where their sum cannot be
    /// held.
    pub fn checked_new(secs: i64, attos: i64) -> (d: Option<Duration>)
        ensures
            Duration::fits(secs * attos_per_sec() + attos) ==> d.is_some() && d.unwrap()@ == secs
                * attos_per_sec() + attos,
            !Duration::fits(secs * attos_per_sec() + attos) ==> d.is_none(),
    {
        Duration::normalize(secs as i128, attos as i128)
    }

    /// A duration of `secs` seconds and `attos` attoseconds, which may differ
    /// in sign and may each be of any size, as long as their sum can be held.
    pub fn new(secs: i64, attos: i64) -> (d: Duration)
        requires
            Duration::fits(secs * attos_per_sec() + attos),
        ensures
            d@ == secs * attos_per_sec() + attos,
    {
        Duration::normalize(secs as i128, attos as i128).unwrap()
    }

    /// The duration of `secs` seconds and `subsec_nanos` nanoseconds, the
    /// parts in which `std::time::Duration` holds a duration. More seconds
    /// than an `i64` holds, or a duration that cannot be held, are a
    /// `RangeError`.
    pub fn from_std_parts(secs: u64, subsec_nanos: u32) -> (made: Result<Duration, Error>)
        ensures
            ({
                let total = secs * attos_per_sec() + subsec_nanos * 1_000_000_000;
                if secs <= i64::MAX && Duration::fits(total) {
                    made.is_ok() && made.unwrap()@ == total
                } else {
                    made matches Err(Error::RangeError)
                }
            }),
    {
        if secs > i64::MAX as u64 {
            // the duration will not fit, and is ridiculously long
            return Err(Error::RangeError);
        }
        match Duration::normalize(secs as i128, subsec_nanos as i128 * 1_000_000_000) {
            None => Err(Error::RangeError),
            Some(made) => Ok(made),
        }
    }

    /// The whole seconds, rounded toward zero.
    #[inline]
    pub fn seconds_part(&self) -> (secs: i64)
        ensures
            secs == seconds_of(self@),
    {
        proof {
            use_type_invariant(self);
            self.lemma_of_view();
        }
        self.secs
    }

    /// The attoseconds beside the whole seconds.
    #[inline]
    pub fn attos_part(&self) -> (attos: i64)
        ensures
            attos == attos_of(self@),
    {
        proof {
            use_type_invariant(self);
            self.lemma_of_view();
        }
        self.attos
    }

    /// The whole duration in attoseconds, or `None` where an `i64` cannot
    /// hold it, which is the case from about 9.2 seconds on.
    pub fn as_attos(&self) -> (total: Option<i64>)
        ensures
            total == (if i64::MIN <= self@ <= i64::MAX {
                Some(self@ as i64)
            } else {
                None
            }),
    {
        proof {
            use_type_invariant(self);
        }
        match self.secs.checked_mul(ATTOS_PER_SEC_I64) {
            None => None,
            Some(sec_part) => sec_part.checked_add(self.attos),
        }
    }

    /// The duration written as a period of ISO 8601, such as
    /// `P1DT2H1M1.000000000000000120S`.
    pub fn to_string(&self) -> (text: String)
        ensures
            text@ == period_text(self@),
    {
        proof {
            use_type_invariant(self);
            self.lemma_size();
        }
        let negative = self.secs < 0 || self.attos < 0;
        // the sign is shown in front only: the parts are reflected through
        // zero
        let mut s: u64 = if self.secs < 0 {
            (0 - self.secs as i128) as u64
        } else {
            self.secs as u64
        };
        let a: u64 = if self.attos < 0 {
            (0 - self.attos) as u64
        } else {
            self.attos as u64
        };
        let mut text = String::new();
        if negative {
            text.append("-P");
        } else {
            text.append("P");
        }
        assert(text@ =~= if self@ < 0 {
            "-P"@
        } else {
            "P"@
        });
        let days = s / 86400;
        s = s % 86400;
        append_period_part(&mut text, days, "D");
        if s != 0 || a != 0 {
            text.append("T");
        } else {
            assert(text@ =~= text@ + Seq::<char>::empty());
        }
        let hours = s / 3600;
        s = s % 3600;
        append_period_part(&mut text, hours, "H");
        let minutes = s / 60;
        s = s % 60;
        append_period_part(&mut text, minutes, "M");
        append_period_seconds(&mut text, s, a);
        text
    }

    /// The size of a normalized duration: its seconds and its attoseconds,
    /// both without their sign.
    proof fn lemma_size(self)
        requires
            self.is_normalized(),
        ensures
            ({
                let size = if self@ < 0 {
                    -self@
                } else {
                    self@
                };
                let secs = if self.secs < 0 {
                    -self.secs
                } else {
                    self.secs as int
                };
                let attos = if self.attos < 0 {
                    -self.attos
                } else {
                    self.attos as int
                };
                &&& size / attos_per_sec() == secs
                &&& size % attos_per_sec() == attos
                &&& self@ < 0 <==> self.secs < 0 || self.attos < 0
            }),
    {
        let size = if self@ < 0 {
            -self@
        } else {
            self@
        };
        let secs = if self.secs < 0 {
            -self.secs
        } else {
            self.secs as int
        };
        let attos = if self.attos < 0 {
            -self.attos
        } else {
            self.attos as int
        };
        assert(size == attos_per_sec() * secs + attos);
        vstd::arithmetic::div_mod::lemma_fundamental_div_mod_converse(
            size,
            attos_per_sec(),
            secs,
            attos,
        );
    }

    /// Whether the duration is of no length.
    pub fn is_zero(&self) -> (zero: bool)
        ensures
            zero == (self@ == 0),
    {
        proof {
            use_type_invariant(self);
        }
        self.secs == 0 && self.attos == 0
    }
}

impl Neg for Duration {
    type Output = Duration;

    #[inline]
    fn neg(self) -> (d: Duration)
        ensures
            d@ == -self@,
    {
        proof {
            use_type_invariant(self);
            self.lemma_of_view();
        }
        Duration { secs: -self.secs, attos: -self.attos }
    }
}

impl NegSpecImpl for Duration {
    open spec fn obeys_neg_spec() -> bool {
        true
    }

    open spec fn neg_req(self) -> bool {
        Duration::fits(-self@)
    }

    open spec fn neg_spec(self) -> Duration {
        Duration::of(-self@)
    }
}

impl Add for Duration {
    type Output = Duration;

    fn add(self, rhs: Duration) -> (d: Duration)
        ensures
            d@ == self@ + rhs@,
    {
        proof {
            use_type_invariant(self);
            use_type_invariant(rhs);
        }
        let d = Duration::normalize(
            self.secs as i128 + rhs.secs as i128,
            self.attos as i128 + rhs.attos as i128,
        ).unwrap();
        proof {
            use_type_invariant(d);
            d.lemma_of_view();
        }
        d
    }
}

impl AddSpecImpl for Duration {
    open spec fn obeys_add_spec() -> bool {
        true
    }

    open spec fn add_req(self, rhs: Duration) -> bool {
        Duration::fits(self@ + rhs@)
    }

    open spec fn add_spec(self, rhs: Duration) -> Duration {
        Duration::of(self@ + rhs@)
    }
}

impl Sub for Duration {
    type Output = Duration;

    fn sub(self, rhs: Duration) -> (d: Duration)
        ensures
            d@ == self@ - rhs@,
    {
        proof {
            use_type_invariant(self);
            use_type_invariant(rhs);
        }
        let d = Duration::normalize(
            self.secs as i128 - rhs.secs as i128,
            self.attos as i128 - rhs.attos as i128,
        ).unwrap();
        proof {
            use_type_invariant(d);
            d.lemma_of_view();
        }
        d
    }
}

impl SubSpecImpl for Duration {
    open spec fn obeys_sub_spec() -> bool {
        true
    }

    open spec fn sub_req(self, rhs: Duration) -> bool {
        Duration::fits(self@ - rhs@)
    }

    open spec fn sub_spec(self, rhs: Duration) -> Duration {
        Duration::of(self@ - rhs@)
    }
}

impl PartialOrd for Duration {
    fn partial_cmp(&self, other: &Duration) -> (order: Option<Ordering>) {
        proof {
            use_type_invariant(self);
            use_type_invariant(other);
            self.lemma_order(*other);
        }
        if self.secs < other.secs {
            Some(Ordering::Less)
        } else if self.secs > other.secs {
            Some(Ordering::Greater)
        } else if self.attos < other.attos {
            Some(Ordering::Less)
        } else if self.attos > other.attos {
            Some(Ordering::Greater)
        } else {
            Some(Ordering::Equal)
        }
    }
}

impl PartialOrdSpecImpl for Duration {
    open spec fn obeys_partial_cmp_spec() -> bool {
        true
    }

    open spec fn partial_cmp_spec(&self, other: &Duration) -> Option<Ordering> {
        if self@ < other@ {
            Some(Ordering::Less)
        } else if self@ > other@ {
            Some(Ordering::Greater)
        } else {
            Some(Ordering::Equal)
        }
    }
}

impl Duration {
    /// Normalized durations are ordered by their parts, seconds first, as
    /// they are by their length.
    proof fn lemma_order(self, other: Duration)
        requires
            self.is_normalized(),
            other.is_normalized(),
        ensures
            self@ < other@ <==> (self.secs < other.secs || (self.secs == other.secs && self.attos
                < other.attos)),
            self@ == other@ <==> self == other,
    {
        let a = attos_per_sec();
        let (s1, a1, s2, a2) = (
            self.secs as int,
            self.attos as int,
            other.secs as int,
            other.attos as int,
        );
        assert(s1 < s2 ==> s1 * a + a1 < s2 * a + a2) by (nonlinear_arith)
            requires
                a == 1_000_000_000_000_000_000,
                -a < a1 < a,
                -a < a2 < a,
                s1 > 0 ==> a1 >= 0,
                s1 < 0 ==> a1 <= 0,
                s2 > 0 ==> a2 >= 0,
                s2 < 0 ==> a2 <= 0,
        ;
        assert(s1 > s2 ==> s1 * a + a1 > s2 * a + a2) by (nonlinear_arith)
            requires
                a == 1_000_000_000_000_000_000,
                -a < a1 < a,
                -a < a2 < a,
                s1 > 0 ==> a1 >= 0,
                s1 < 0 ==> a1 <= 0,
                s2 > 0 ==> a2 >= 0,
                s2 < 0 ==> a2 <= 0,
        ;
    }
}

/// The seconds and the attoseconds of a duration agree in sign with it, and
/// so with each other, and the attoseconds stay under one second.
pub proof fn lemma_parts_agree(total: int)
    ensures
        -attos_per_sec() < attos_of(total) < attos_per_sec(),
        total >= 0 ==> seconds_of(total) >= 0 && attos_of(total) >= 0,
        total <= 0 ==> seconds_of(total) <= 0 && attos_of(total) <= 0,
        seconds_of(total) > 0 ==> attos_of(total) >= 0,
        seconds_of(total) < 0 ==> attos_of(total) <= 0,
{
}

/// Sums of durations do not depend on the order in which they are added up,
/// as far as they can be held: the sum of two durations is the duration that
/// `of` gives for the sum of their views.
pub proof fn lemma_add_associative(first: Duration, second: Duration, third: Duration)
    requires
        Duration::fits(first@ + second@),
        Duration::fits(second@ + third@),
        Duration::fits(first@ + second@ + third@),
    ensures
        Duration::of(Duration::of(first@ + second@)@ + third@) == Duration::of(
            first@ + Duration::of(second@ + third@)@,
        ),
        Duration::of(first@ + second@) == Duration::of(second@ + first@),
        Duration::of(first@ + second@ + third@).is_normalized(),
{
    Duration::lemma_view_of(first@ + second@);
    Duration::lemma_view_of(second@ + third@);
    Duration::lemma_view_of(first@ + second@ + third@);
}

/// To take a duration away is to add its negative.
pub proof fn lemma_sub_is_add_neg(first: Duration, second: Duration)
    requires
        Duration::fits(-second@),
        Duration::fits(first@ - second@),
    ensures
        Duration::of(first@ - second@) == Duration::of(first@ + Duration::of(-second@)@),
{
    Duration::lemma_view_of(-second@);
}

/// What is added and taken away again leaves a duration as it was.
pub proof fn lemma_add_then_sub(first: Duration, second: Duration)
    requires
        first.is_normalized(),
        Duration::fits(first@ + second@),
    ensures
        Duration::of(Duration::of(first@ + second@)@ - second@) == first,
{
    Duration::lemma_view_of(first@ + second@);
    first.lemma_of_view();
}

} // verus!
