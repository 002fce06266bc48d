//! Fixed-precision decimal numbers: a signed 96-bit mantissa and a scale of at
//! most 28 decimal places. The arithmetic is done by `rust_decimal`; this
//! module holds the number as plain integers so that the rest of the crate can
//! reason about it.

use std::cmp::Ordering;
use vstd::prelude::*;

verus! {

/// Largest magnitude a mantissa may have: 2^96 - 1.
pub const MAX_MANTISSA: i128 = 79228162514264337593543950335;

/// Largest number of decimal places.
pub const MAX_SCALE: u32 = 28;

/// `10^n`.
pub open spec fn pow10(n: nat) -> int
    decreases n,
{
    if n == 0 {
        1
    } else {
        10 * pow10((n - 1) as nat)
    }
}

/// `10^n` is positive.
pub proof fn lemma_pow10_positive(n: nat)
    ensures
        pow10(n) > 0,
    decreases n,
{
    if n > 0 {
        lemma_pow10_positive((n - 1) as nat);
    }
}

/// How two numbers stand to each other.
#[derive(Clone, Copy, Debug, PartialEq, Eq, Structural)]
pub enum Relation {
    Less,
    Equal,
    Greater,
}

/// The number `mantissa / 10^scale`.
#[derive(Clone, Copy, Debug)]
pub struct Decimal {
    pub(crate) mantissa: i128,
    pub(crate) scale: u32,
}

impl Decimal {
    /// Every number is well-formed.
    #[verifier::type_invariant]
    pub closed spec fn inv(self) -> bool {
        self.wf()
    }

    /// The mantissa fits in 96 bits and the scale is at most 28.
    pub closed spec fn wf(self) -> bool {
        &&& -MAX_MANTISSA <= self.mantissa <= MAX_MANTISSA
        &&& self.scale <= MAX_SCALE
    }

    /// The mantissa.
    pub closed spec fn spec_mantissa(self) -> i128 {
        self.mantissa
    }

    /// The number of decimal places.
    pub closed spec fn spec_scale(self) -> u32 {
        self.scale
    }

    /// The value in units of `10^-28`, an integer for every well-formed number.
    /// Two numbers are equal in value exactly when their units are equal.
    pub closed spec fn units(self) -> int {
        self.mantissa * pow10((MAX_SCALE - self.scale) as nat)
    }

    /// Zero, with scale 0.
    pub closed spec fn spec_zero() -> Decimal {
        Decimal { mantissa: 0, scale: 0 }
    }

    /// The largest number: `2^96 - 1` with scale 0.
    pub closed spec fn spec_max() -> Decimal {
        Decimal { mantissa: MAX_MANTISSA, scale: 0 }
    }

    /// The units of a number are its mantissa times the power of ten that
    /// its scale leaves to 28 places, and have the sign of the mantissa.
    pub proof fn lemma_units(self)
        ensures
            self.units() == units_of(self.spec_mantissa(), self.spec_scale()),
            self.units() > 0 <==> self.spec_mantissa() > 0,
            self.units() == 0 <==> self.spec_mantissa() == 0,
    {
        lemma_pow10_positive((MAX_SCALE - self.scale) as nat);
        let p = pow10((MAX_SCALE - self.scale) as nat);
        let m = self.mantissa as int;
        assert((m > 0 ==> m * p > 0) && (m < 0 ==> m * p < 0) && (m == 0 ==> m * p == 0))
            by (nonlinear_arith)
            requires
                p > 0,
        ;
    }

    /// Zero and the largest number are well-formed, with the mantissas and
    /// scales that their names say.
    pub proof fn lemma_zero_and_max()
        ensures
            Decimal::spec_zero().wf(),
            Decimal::spec_zero().spec_mantissa() == 0,
            Decimal::spec_zero().spec_scale() == 0,
            Decimal::spec_zero().units() == 0,
            Decimal::spec_max().wf(),
            Decimal::spec_max().spec_mantissa() == MAX_MANTISSA,
            Decimal::spec_max().spec_scale() == 0,
    {
    }

    /// The number with the given mantissa and scale, if they are in range.
    pub fn new(mantissa: i128, scale: u32) -> (r: Option<Decimal>)
        ensures
            r is Some <==> -MAX_MANTISSA <= mantissa <= MAX_MANTISSA && scale <= MAX_SCALE,
            r matches Some(d) ==> d.wf() && d.spec_mantissa() == mantissa && d.spec_scale()
                == scale && d.units() == units_of(mantissa, scale),
            r == Decimal::of((mantissa, scale)),
    {
        if scale <= MAX_SCALE && mantissa <= MAX_MANTISSA && mantissa >= -MAX_MANTISSA {
            Some(Decimal { mantissa, scale })
        } else {
            None
        }
    }

    /// The mantissa.
    pub fn mantissa(&self) -> (r: i128)
        ensures
            r == self.spec_mantissa(),
    {
        self.mantissa
    }

    /// The number of decimal places.
    pub fn scale(&self) -> (r: u32)
        ensures
            r == self.spec_scale(),
    {
        self.scale
    }

    /// Zero, with scale 0.
    pub fn zero() -> (r: Decimal)
        ensures
            r == Decimal::spec_zero(),
            r.units() == 0,
    {
        Decimal { mantissa: 0, scale: 0 }
    }

    /// The largest number: `2^96 - 1` with scale 0.
    pub fn max() -> (r: Decimal)
        ensures
            r == Decimal::spec_max(),
    {
        Decimal { mantissa: MAX_MANTISSA, scale: 0 }
    }

    /// True exactly when the value is zero.
    pub fn is_zero(&self) -> (r: bool)
        ensures
            r == (self.units() == 0),
    {
        proof {
            self.lemma_units();
        }
        self.mantissa == 0
    }
}

/// How `x` stands to `y`.
pub open spec fn relation(x: int, y: int) -> Relation {
    if x < y {
        Relation::Less
    } else if x == y {
        Relation::Equal
    } else {
        Relation::Greater
    }
}

/// A value in units of `10^-28`, cut towards zero to `places` decimal
/// places. More than 28 places cut nothing.
pub open spec fn cut_units(units: int, places: u32) -> int {
    let step = pow10(
        (MAX_SCALE - if places < MAX_SCALE {
            places
        } else {
            MAX_SCALE
        }) as nat,
    );
    if units >= 0 {
        (units / step) * step
    } else {
        -((-units) / step) * step
    }
}

/// Whether a mantissa and a scale are those of a number of this type.
pub open spec fn in_range(mantissa: i128, scale: u32) -> bool {
    -MAX_MANTISSA <= mantissa <= MAX_MANTISSA && scale <= MAX_SCALE
}

/// The value, in units of `10^-28`, of a mantissa at a scale of at most 28.
pub open spec fn units_of(mantissa: i128, scale: u32) -> int {
    mantissa * pow10((MAX_SCALE - scale) as nat)
}

/// What `rust_decimal`'s checked subtraction gives for two numbers, each as
/// mantissa and scale: the mantissa and scale of the difference, or `None`
/// where it reports overflow.
pub uninterp spec fn checked_sub_result(a: i128, a_scale: u32, b: i128, b_scale: u32) -> Option<
    (i128, u32),
>;

/// What `rust_decimal`'s checked multiplication gives, in the same terms.
pub uninterp spec fn checked_mul_result(a: i128, a_scale: u32, b: i128, b_scale: u32) -> Option<
    (i128, u32),
>;

/// What `rust_decimal`'s checked division gives, in the same terms; `None`
/// also where the divisor is zero.
pub uninterp spec fn checked_div_result(a: i128, a_scale: u32, b: i128, b_scale: u32) -> Option<
    (i128, u32),
>;

/// What `rust_decimal`'s truncation to `places` decimal places gives.
pub uninterp spec fn trunc_result(a: i128, a_scale: u32, places: u32) -> (i128, u32);

/// Where `b` is non-negative and no larger than `a`, the difference `r`
/// exists, is a number of this type, is non-negative, and is zero exactly
/// when the two are equal in value.
pub open spec fn sub_of_no_larger(a: int, b: int, r: Option<(i128, u32)>) -> bool {
    0 <= b <= a ==> {
        &&& r matches Some(d)
        &&& in_range(d.0, d.1)
        &&& units_of(d.0, d.1) >= 0
        &&& (units_of(d.0, d.1) == 0 <==> a == b)
    }
}

/// What division owes whatever the numbers: nothing can be divided by zero,
/// and zero divided by anything else is zero.
pub open spec fn div_of_zeros(a: int, b: int, r: Option<(i128, u32)>) -> bool {
    &&& b == 0 ==> r is None
    &&& a == 0 && b != 0 ==> (r matches Some(d) && in_range(d.0, d.1) && units_of(d.0, d.1) == 0)
}

/// Calls `Ord::cmp` of `rust_decimal::Decimal`, which compares by numeric
/// value whatever the scales: the contract says that the answer is the order
/// of the two values.
#[verifier::external_body]
fn outside_compare(a: i128, a_scale: u32, b: i128, b_scale: u32) -> (r: Relation)
    requires
        in_range(a, a_scale),
        in_range(b, b_scale),
    ensures
        r == relation(units_of(a, a_scale), units_of(b, b_scale)),
{
    let x = rust_decimal::Decimal::from_i128_with_scale(a, a_scale);
    let y = rust_decimal::Decimal::from_i128_with_scale(b, b_scale);
    match x.cmp(&y) {
        Ordering::Less => Relation::Less,
        Ordering::Equal => Relation::Equal,
        Ordering::Greater => Relation::Greater,
    }
}

/// Calls `rust_decimal::Decimal::checked_sub` and gives the difference as
/// mantissa and scale. The contract names the result. It also claims, of a
/// subtrahend that is non-negative and no larger than the minuend, that the
/// subtraction succeeds, that the difference is non-negative, and that it
/// is zero exactly when the two are equal in value.
#[verifier::external_body]
fn outside_checked_sub(a: i128, a_scale: u32, b: i128, b_scale: u32) -> (r: Option<(i128, u32)>)
    requires
        in_range(a, a_scale),
        in_range(b, b_scale),
    ensures
        r == checked_sub_result(a, a_scale, b, b_scale),
        sub_of_no_larger(units_of(a, a_scale), units_of(b, b_scale), r),
{
    let x = rust_decimal::Decimal::from_i128_with_scale(a, a_scale);
    let y = rust_decimal::Decimal::from_i128_with_scale(b, b_scale);
    match x.checked_sub(y) {
        Some(d) => Some((d.mantissa(), d.scale())),
        None => None,
    }
}

/// Calls `rust_decimal::Decimal::checked_mul` and gives the product as
/// mantissa and scale. The contract names the result and claims no more.
#[verifier::external_body]
fn outside_checked_mul(a: i128, a_scale: u32, b: i128, b_scale: u32) -> (r: Option<(i128, u32)>)
    requires
        in_range(a, a_scale),
        in_range(b, b_scale),
    ensures
        r == checked_mul_result(a, a_scale, b, b_scale),
{
    let x = rust_decimal::Decimal::from_i128_with_scale(a, a_scale);
    let y = rust_decimal::Decimal::from_i128_with_scale(b, b_scale);
    match x.checked_mul(y) {
        Some(d) => Some((d.mantissa(), d.scale())),
        None => None,
    }
}

/// Calls `rust_decimal::Decimal::checked_div`, which gives `None` for a
/// zero divisor and on overflow, and gives the quotient as mantissa and
/// scale. The contract names the result. It also claims that a zero divisor
/// gives `None` and that zero divided by anything else is zero.
#[verifier::external_body]
fn outside_checked_div(a: i128, a_scale: u32, b: i128, b_scale: u32) -> (r: Option<(i128, u32)>)
    requires
        in_range(a, a_scale),
        in_range(b, b_scale),
    ensures
        r == checked_div_result(a, a_scale, b, b_scale),
        div_of_zeros(units_of(a, a_scale), units_of(b, b_scale), r),
{
    let x = rust_decimal::Decimal::from_i128_with_scale(a, a_scale);
    let y = rust_decimal::Decimal::from_i128_with_scale(b, b_scale);
    match x.checked_div(y) {
        Some(d) => Some((d.mantissa(), d.scale())),
        None => None,
    }
}

/// Calls `rust_decimal::Decimal::trunc_with_scale`, which cuts a number to
/// so many decimal places without rounding, and gives the result as
/// mantissa and scale. The contract names the result and claims that, where
/// it is a number of this type, its value is the value cut towards zero.
#[verifier::external_body]
fn outside_trunc_with_scale(a: i128, a_scale: u32, places: u32) -> (r: (i128, u32))
    requires
        in_range(a, a_scale),
    ensures
        r == trunc_result(a, a_scale, places),
        in_range(r.0, r.1) ==> units_of(r.0, r.1) == cut_units(units_of(a, a_scale), places),
{
    let x = rust_decimal::Decimal::from_i128_with_scale(a, a_scale);
    let d = x.trunc_with_scale(places);
    (d.mantissa(), d.scale())
}

impl Decimal {
    /// The number that a pair of mantissa and scale stands for, if it is
    /// one of this type.
    pub closed spec fn of(parts: (i128, u32)) -> Option<Decimal> {
        if in_range(parts.0, parts.1) {
            Some(Decimal { mantissa: parts.0, scale: parts.1 })
        } else {
            None
        }
    }

    /// The number that the pair stands for, if there is a pair.
    pub open spec fn of_option(parts: Option<(i128, u32)>) -> Option<Decimal> {
        match parts {
            Some(p) => Decimal::of(p),
            None => None,
        }
    }

    /// `self - other` as the arithmetic computes it; `None` where it
    /// reports overflow or answers with no number of this type.
    pub closed spec fn spec_sub(self, other: Decimal) -> Option<Decimal> {
        Decimal::of_option(
            checked_sub_result(self.mantissa, self.scale, other.mantissa, other.scale),
        )
    }

    /// `self * other` as the arithmetic computes it; `None` as for
    /// [`Decimal::spec_sub`].
    pub closed spec fn spec_mul(self, other: Decimal) -> Option<Decimal> {
        Decimal::of_option(
            checked_mul_result(self.mantissa, self.scale, other.mantissa, other.scale),
        )
    }

    /// `self / other` as the arithmetic computes it; `None` as for
    /// [`Decimal::spec_sub`], and where `other` is zero.
    pub closed spec fn spec_div(self, other: Decimal) -> Option<Decimal> {
        Decimal::of_option(
            checked_div_result(self.mantissa, self.scale, other.mantissa, other.scale),
        )
    }

    /// `self` cut to `places` decimal places as the arithmetic computes it;
    /// `None` where it answers with no number of this type.
    pub closed spec fn spec_trunc(self, places: u32) -> Option<Decimal> {
        Decimal::of(trunc_result(self.mantissa, self.scale, places))
    }

    /// The smaller of the two; `self` where they are equal in value.
    pub open spec fn spec_min(self, other: Decimal) -> Decimal {
        if self.units() > other.units() {
            other
        } else {
            self
        }
    }

    /// Where `other` is non-negative and no larger than `self`, the
    /// difference `r` exists, is non-negative, and is zero exactly when the
    /// two are equal in value.
    pub open spec fn minus_of_no_larger(self, other: Decimal, r: Option<Decimal>) -> bool {
        0 <= other.units() <= self.units() ==> {
            &&& r matches Some(d)
            &&& d.units() >= 0
            &&& (d.units() == 0 <==> self.units() == other.units())
        }
    }

    /// What division owes whatever the numbers: nothing can be divided by
    /// zero, and zero divided by anything else is zero.
    pub open spec fn quotient_of_zeros(self, other: Decimal, r: Option<Decimal>) -> bool {
        &&& other.units() == 0 ==> r is None
        &&& self.units() == 0 && other.units() != 0 ==> (r matches Some(d) && d.units() == 0)
    }

    /// The number that the arithmetic answered with, if it is one of this
    /// type.
    fn checked(parts: (i128, u32)) -> (r: Option<Decimal>)
        ensures
            r == Decimal::of(parts),
            r matches Some(d) ==> d.units() == units_of(parts.0, parts.1),
    {
        Decimal::new(parts.0, parts.1)
    }

    /// The smaller of the two, `self` where they are equal in value: what
    /// `rust_decimal::Decimal::min` returns.
    pub fn min(self, other: Decimal) -> (r: Decimal)
        ensures
            r == self.spec_min(other),
    {
        match self.relation_to(other) {
            Relation::Greater => other,
            _ => self,
        }
    }

    /// `self - other`, or `None` where the difference cannot be represented.
    pub fn minus(self, other: Decimal) -> (r: Option<Decimal>)
        ensures
            r == self.spec_sub(other),
            self.minus_of_no_larger(other, r),
    {
        proof {
            use_type_invariant(&self);
            use_type_invariant(&other);
        }
        match outside_checked_sub(self.mantissa, self.scale, other.mantissa, other.scale) {
            Some(parts) => Decimal::checked(parts),
            None => None,
        }
    }

    /// `self * other`, or `None` where the product cannot be represented.
    pub fn times(self, other: Decimal) -> (r: Option<Decimal>)
        ensures
            r == self.spec_mul(other),
    {
        proof {
            use_type_invariant(&self);
            use_type_invariant(&other);
        }
        match outside_checked_mul(self.mantissa, self.scale, other.mantissa, other.scale) {
            Some(parts) => Decimal::checked(parts),
            None => None,
        }
    }

    /// `self / other`, or `None` where `other` is zero or the quotient
    /// cannot be represented.
    pub fn divided_by(self, other: Decimal) -> (r: Option<Decimal>)
        ensures
            r == self.spec_div(other),
            self.quotient_of_zeros(other, r),
    {
        proof {
            use_type_invariant(&self);
            use_type_invariant(&other);
        }
        match outside_checked_div(self.mantissa, self.scale, other.mantissa, other.scale) {
            Some(parts) => Decimal::checked(parts),
            None => None,
        }
    }

    /// `self` cut to `places` decimal places, without rounding, or `None`
    /// where the result cannot be represented. The value is cut towards
    /// zero; the scale of the result is left open.
    pub fn truncated(self, places: u32) -> (r: Option<Decimal>)
        ensures
            r == self.spec_trunc(places),
            r matches Some(d) ==> d.units() == cut_units(self.units(), places),
    {
        proof {
            use_type_invariant(&self);
        }
        Decimal::checked(outside_trunc_with_scale(self.mantissa, self.scale, places))
    }

    /// How `self` stands to `other` in value.
    pub fn relation_to(self, other: Decimal) -> (r: Relation)
        ensures
            r == relation(self.units(), other.units()),
    {
        proof {
            use_type_invariant(&self);
            use_type_invariant(&other);
        }
        outside_compare(self.mantissa, self.scale, other.mantissa, other.scale)
    }
}

} // verus!
