//! Decimal numbers: a signed mantissa of at most 96 bits and a power-of-ten scale.
//!
//! The arithmetic is `rust_decimal`'s. This module holds a number as its two plain parts, hands
//! the parts to that crate, and takes the parts of the result back.
use vstd::prelude::*;

use crate::text;

verus! {

/// The largest mantissa, `2^96 - 1`.
pub const MAX_MANTISSA: i128 = 79_228_162_514_264_337_593_543_950_335;

/// The largest scale.
pub const MAX_SCALE: u32 = 28;

/// Ten to the power `n`.
pub open spec fn pow10(n: nat) -> int
    decreases n,
{
    if n == 0 {
        1
    } else {
        10 * pow10((n - 1) as nat)
    }
}

/// The two parts of a number are in range.
pub open spec fn valid_parts(mantissa: i128, scale: u32) -> bool {
    -MAX_MANTISSA <= mantissa <= MAX_MANTISSA && scale <= MAX_SCALE
}

/// The value of a number, in units of `10^-28`.
pub open spec fn units(mantissa: i128, scale: u32) -> int {
    mantissa * pow10((MAX_SCALE - scale) as nat)
}

/// One, in units of `10^-28`.
pub open spec fn one_unit() -> int {
    10_000_000_000_000_000_000_000_000_000int
}

/// The largest value, in units of `10^-28`.
pub open spec fn max_units() -> int {
    MAX_MANTISSA * one_unit()
}

/// A value that the type can hold, if need be rounded.
pub open spec fn in_range(value: int) -> bool {
    -max_units() <= value <= max_units()
}

/// The larger of two scales.
pub open spec fn wider(a: u32, b: u32) -> u32 {
    if a < b {
        b
    } else {
        a
    }
}

/// A mantissa brought from scale `from` to the scale `to`, which is not smaller.
pub open spec fn aligned(mantissa: i128, from: u32, to: u32) -> int {
    mantissa * pow10((to - from) as nat)
}

/// A mantissa that fits without rounding.
pub open spec fn fits(mantissa: int) -> bool {
    -MAX_MANTISSA <= mantissa <= MAX_MANTISSA
}

/// The parts of the sum of two numbers.
pub uninterp spec fn decimal_sum(am: i128, a_scale: u32, bm: i128, b_scale: u32) -> (i128, u32);

/// The parts of the difference of two numbers.
pub uninterp spec fn decimal_difference(
    am: i128,
    a_scale: u32,
    bm: i128,
    b_scale: u32,
) -> (i128, u32);

/// The parts of the product of two numbers.
pub uninterp spec fn decimal_product(am: i128, a_scale: u32, bm: i128, b_scale: u32) -> (i128, u32);

/// The parts of the quotient of two numbers.
pub uninterp spec fn decimal_quotient(
    am: i128,
    a_scale: u32,
    bm: i128,
    b_scale: u32,
) -> (i128, u32);

/// The parts of a sum where no rounding comes in: the one number where the other is zero, else the
/// sum of the mantissas at the larger of the two scales, where all of them fit.
pub open spec fn plain_sum(am: i128, a_scale: u32, bm: i128, b_scale: u32) -> Option<(i128, u32)> {
    let scale = wider(a_scale, b_scale);
    let a = aligned(am, a_scale, scale);
    let b = aligned(bm, b_scale, scale);
    if am == 0 {
        Some((bm, b_scale))
    } else if bm == 0 {
        Some((am, a_scale))
    } else if fits(a) && fits(b) && fits(a + b) {
        Some(((a + b) as i128, scale))
    } else {
        None
    }
}

/// The parts of a product where no rounding comes in: a plain zero where one of the numbers is
/// zero, else the product of the mantissas at the sum of the two scales, where both fit.
pub open spec fn plain_product(am: i128, a_scale: u32, bm: i128, b_scale: u32) -> Option<
    (i128, u32),
> {
    if am == 0 || bm == 0 {
        Some((0i128, 0u32))
    } else if a_scale + b_scale <= MAX_SCALE && fits(am * bm) {
        Some(((am * bm) as i128, (a_scale + b_scale) as u32))
    } else {
        None
    }
}

/// The parts of a sum.
pub open spec fn sum_parts(am: i128, a_scale: u32, bm: i128, b_scale: u32) -> (i128, u32) {
    match plain_sum(am, a_scale, bm, b_scale) {
        Some(parts) => parts,
        None => decimal_sum(am, a_scale, bm, b_scale),
    }
}

/// The parts of a difference.
pub open spec fn difference_parts(am: i128, a_scale: u32, bm: i128, b_scale: u32) -> (i128, u32) {
    match plain_sum(am, a_scale, -bm as i128, b_scale) {
        Some(parts) => parts,
        None => decimal_difference(am, a_scale, bm, b_scale),
    }
}

/// The parts of a product.
pub open spec fn product_parts(am: i128, a_scale: u32, bm: i128, b_scale: u32) -> (i128, u32) {
    match plain_product(am, a_scale, bm, b_scale) {
        Some(parts) => parts,
        None => decimal_product(am, a_scale, bm, b_scale),
    }
}

/// The parts of a quotient: a plain zero where zero is divided.
pub open spec fn quotient_parts(am: i128, a_scale: u32, bm: i128, b_scale: u32) -> (i128, u32) {
    if am == 0 {
        (0, 0)
    } else {
        decimal_quotient(am, a_scale, bm, b_scale)
    }
}

/// A number without its sign.
pub open spec fn size_of_int(m: int) -> int {
    if m < 0 {
        -m
    } else {
        m
    }
}

/// The last `k` digits of a number, zeros in front where it has fewer.
pub open spec fn last_digits(n: nat, k: nat) -> Seq<char>
    decreases k,
{
    if k == 0 {
        Seq::empty()
    } else {
        last_digits(n / 10, (k - 1) as nat).push(text::digit(n % 10))
    }
}

/// The text of a number: its sign where it is below zero, its whole part, and as many digits behind
/// the point as its scale says.
pub open spec fn decimal_text(mantissa: i128, scale: u32) -> Seq<char> {
    let n = size_of_int(mantissa as int) as nat;
    let t = pow10(scale as nat) as nat;
    (if mantissa < 0 {
        seq!['-']
    } else {
        Seq::empty()
    }) + text::nat_text(n / t) + if scale > 0 {
        seq!['.'] + last_digits(n % t, scale as nat)
    } else {
        Seq::empty()
    }
}

/// Calls `rust_decimal`'s `+`. It claims that the sum depends on the parts alone, that its parts
/// are in range, and that it is exact where the sum of the mantissas, brought to the larger of
/// the two scales, fits in 96 bits. Where one number is zero the sum is the other one as it is, and
/// where the mantissas fit at the larger scale as well the sum keeps that scale. How a sum that
/// does not fit is rounded is left unsaid. The operator panics where the sum is beyond the largest
/// value, so such sums are left out.
#[verifier::external_body]
fn outside_sum(am: i128, a_scale: u32, bm: i128, b_scale: u32) -> (r: (i128, u32))
    requires
        valid_parts(am, a_scale),
        valid_parts(bm, b_scale),
        in_range(units(am, a_scale) + units(bm, b_scale)),
    ensures
        r == decimal_sum(am, a_scale, bm, b_scale),
        valid_parts(r.0, r.1),
        fits(
            aligned(am, a_scale, wider(a_scale, b_scale)) + aligned(
                bm,
                b_scale,
                wider(a_scale, b_scale),
            ),
        ) ==> units(r.0, r.1) == units(am, a_scale) + units(bm, b_scale),
        plain_sum(am, a_scale, bm, b_scale) matches Some(parts) ==> r == parts,
{
    let r = rust_decimal::Decimal::from_i128_with_scale(am, a_scale)
        + rust_decimal::Decimal::from_i128_with_scale(bm, b_scale);
    (r.mantissa(), r.scale())
}

/// Calls `rust_decimal`'s `-`, of which it claims what [`outside_sum`] claims of `+`, with the
/// second number's sign turned.
#[verifier::external_body]
fn outside_difference(am: i128, a_scale: u32, bm: i128, b_scale: u32) -> (r: (i128, u32))
    requires
        valid_parts(am, a_scale),
        valid_parts(bm, b_scale),
        in_range(units(am, a_scale) - units(bm, b_scale)),
    ensures
        r == decimal_difference(am, a_scale, bm, b_scale),
        valid_parts(r.0, r.1),
        fits(
            aligned(am, a_scale, wider(a_scale, b_scale)) - aligned(
                bm,
                b_scale,
                wider(a_scale, b_scale),
            ),
        ) ==> units(r.0, r.1) == units(am, a_scale) - units(bm, b_scale),
        plain_sum(am, a_scale, -bm as i128, b_scale) matches Some(parts) ==> r == parts,
{
    let r = rust_decimal::Decimal::from_i128_with_scale(am, a_scale)
        - rust_decimal::Decimal::from_i128_with_scale(bm, b_scale);
    (r.mantissa(), r.scale())
}

/// Calls `rust_decimal`'s `*`. It claims that the product depends on the parts alone, that its
/// parts are in range, that a product with zero is zero with no scale, and that other products
/// multiply the mantissas and add the scales where the scales add up to no more than the largest
/// scale and the product of the mantissas fits in 96 bits. How other products are rounded is left
/// unsaid. The operator panics where the product is beyond the largest value, so such products
/// are left out.
#[verifier::external_body]
fn outside_product(am: i128, a_scale: u32, bm: i128, b_scale: u32) -> (r: (i128, u32))
    requires
        valid_parts(am, a_scale),
        valid_parts(bm, b_scale),
        -max_units() * one_unit() <= units(am, a_scale) * units(bm, b_scale) <= max_units()
            * one_unit(),
    ensures
        r == decimal_product(am, a_scale, bm, b_scale),
        valid_parts(r.0, r.1),
        plain_product(am, a_scale, bm, b_scale) matches Some(parts) ==> r == parts,
{
    let r = rust_decimal::Decimal::from_i128_with_scale(am, a_scale)
        * rust_decimal::Decimal::from_i128_with_scale(bm, b_scale);
    (r.mantissa(), r.scale())
}

/// Calls `rust_decimal`'s `/`. It claims that the quotient depends on the parts alone, that its
/// parts are in range, and that zero divided is zero with no scale. How a quotient is rounded is
/// left unsaid. The operator panics on a zero divisor and where the quotient is beyond the largest
/// value, so such divisions are left out.
#[verifier::external_body]
fn outside_quotient(am: i128, a_scale: u32, bm: i128, b_scale: u32) -> (r: (i128, u32))
    requires
        valid_parts(am, a_scale),
        valid_parts(bm, b_scale),
        bm != 0,
        quotient_in_range(units(am, a_scale), units(bm, b_scale)),
    ensures
        r == decimal_quotient(am, a_scale, bm, b_scale),
        valid_parts(r.0, r.1),
        am == 0 ==> r == (0i128, 0u32),
{
    let r = rust_decimal::Decimal::from_i128_with_scale(am, a_scale)
        / rust_decimal::Decimal::from_i128_with_scale(bm, b_scale);
    (r.mantissa(), r.scale())
}

/// Calls `rust_decimal`'s `<`, which orders numbers by their value, whatever their scales.
#[verifier::external_body]
fn outside_less(am: i128, a_scale: u32, bm: i128, b_scale: u32) -> (r: bool)
    requires
        valid_parts(am, a_scale),
        valid_parts(bm, b_scale),
    ensures
        r == (units(am, a_scale) < units(bm, b_scale)),
{
    rust_decimal::Decimal::from_i128_with_scale(am, a_scale)
        < rust_decimal::Decimal::from_i128_with_scale(bm, b_scale)
}

/// Calls `rust_decimal`'s `Display` through `to_string`. It claims that the text is the number in
/// full: the digits of the mantissa with the point where the scale puts it, a zero before the point
/// where nothing else would stand there, and no exponent.
#[verifier::external_body]
fn outside_text(mantissa: i128, scale: u32) -> (r: String)
    requires
        valid_parts(mantissa, scale),
    ensures
        r@ == decimal_text(mantissa, scale),
{
    rust_decimal::Decimal::from_i128_with_scale(mantissa, scale).to_string()
}

/// The quotient of two values, the second of them not zero, is one that the type can hold.
pub open spec fn quotient_in_range(a: int, b: int) -> bool {
    if b > 0 {
        -MAX_MANTISSA * b <= a <= MAX_MANTISSA * b
    } else {
        MAX_MANTISSA * b <= a <= -MAX_MANTISSA * b
    }
}

/// The text of a number.
pub open spec fn text_of(d: Decimal) -> Seq<char> {
    decimal_text(d.parts().0, d.parts().1)
}

/// A decimal number.
#[derive(Clone, Copy, Debug)]
pub struct Decimal {
    mantissa: i128,
    scale: u32,
}

impl View for Decimal {
    type V = int;

    /// The number's value, in units of `10^-28`.
    closed spec fn view(&self) -> int {
        units(self.mantissa, self.scale)
    }
}

impl Decimal {
    /// The parts are in range.
    #[verifier::type_invariant]
    pub closed spec fn well_formed(self) -> bool {
        valid_parts(self.mantissa, self.scale)
    }

    /// The number with these parts.
    pub closed spec fn of(parts: (i128, u32)) -> Decimal {
        Decimal { mantissa: parts.0, scale: parts.1 }
    }

    /// The parts of a number.
    pub closed spec fn parts(self) -> (i128, u32) {
        (self.mantissa, self.scale)
    }

    /// Zero.
    pub open spec fn spec_zero() -> Decimal {
        Decimal::of((0, 0))
    }

    /// The sum of two numbers.
    pub open spec fn spec_plus(self, other: Decimal) -> Decimal {
        Decimal::of(
            sum_parts(self.parts().0, self.parts().1, other.parts().0, other.parts().1),
        )
    }

    /// The difference of two numbers.
    pub open spec fn spec_minus(self, other: Decimal) -> Decimal {
        Decimal::of(
            difference_parts(self.parts().0, self.parts().1, other.parts().0, other.parts().1),
        )
    }

    /// The product of two numbers.
    pub open spec fn spec_times(self, other: Decimal) -> Decimal {
        Decimal::of(
            product_parts(self.parts().0, self.parts().1, other.parts().0, other.parts().1),
        )
    }

    /// The quotient of two numbers.
    pub open spec fn spec_over(self, other: Decimal) -> Decimal {
        Decimal::of(
            quotient_parts(self.parts().0, self.parts().1, other.parts().0, other.parts().1),
        )
    }

    /// The number with the opposite sign.
    pub open spec fn spec_neg(self) -> Decimal {
        Decimal::of((-self.parts().0 as i128, self.parts().1))
    }

    /// The larger of two numbers, the first one where they are equal.
    pub open spec fn spec_max(self, other: Decimal) -> Decimal {
        if self@ < other@ {
            other
        } else {
            self
        }
    }

    /// The smaller of two numbers, the first one where they are equal.
    pub open spec fn spec_min(self, other: Decimal) -> Decimal {
        if other@ < self@ {
            other
        } else {
            self
        }
    }

    /// The sum of two numbers is within the type's range.
    pub open spec fn plus_ok(self, other: Decimal) -> bool {
        in_range(self@ + other@)
    }

    /// The difference of two numbers is within the type's range.
    pub open spec fn minus_ok(self, other: Decimal) -> bool {
        in_range(self@ - other@)
    }

    /// The product of two numbers is within the type's range.
    pub open spec fn times_ok(self, other: Decimal) -> bool {
        -max_units() * one_unit() <= self@ * other@ <= max_units() * one_unit()
    }

    /// The quotient of two numbers exists and is within the type's range.
    pub open spec fn over_ok(self, other: Decimal) -> bool {
        other@ != 0 && quotient_in_range(self@, other@)
    }

    /// The sum of two numbers needs no rounding.
    pub open spec fn plus_exact(self, other: Decimal) -> bool {
        let scale = wider(self.parts().1, other.parts().1);
        fits(
            aligned(self.parts().0, self.parts().1, scale) + aligned(
                other.parts().0,
                other.parts().1,
                scale,
            ),
        )
    }

    /// The sum of two numbers needs no rounding on the way either: one of them is zero, or both fit
    /// at the larger of the two scales.
    pub open spec fn plus_plain(self, other: Decimal) -> bool {
        plain_sum(self.parts().0, self.parts().1, other.parts().0, other.parts().1) is Some
    }

    /// The difference of two numbers needs no rounding.
    pub open spec fn minus_exact(self, other: Decimal) -> bool {
        let scale = wider(self.parts().1, other.parts().1);
        fits(
            aligned(self.parts().0, self.parts().1, scale) - aligned(
                other.parts().0,
                other.parts().1,
                scale,
            ),
        )
    }

    /// The difference of two numbers needs no rounding on the way either.
    pub open spec fn minus_plain(self, other: Decimal) -> bool {
        plain_sum(
            self.parts().0,
            self.parts().1,
            -other.parts().0 as i128,
            other.parts().1,
        ) is Some
    }

    /// The product of two numbers needs no rounding, or is zero.
    pub open spec fn times_plain(self, other: Decimal) -> bool {
        plain_product(self.parts().0, self.parts().1, other.parts().0, other.parts().1) is Some
    }

    /// The product of two numbers needs no rounding.
    pub open spec fn times_exact(self, other: Decimal) -> bool {
        self.parts().1 + other.parts().1 <= MAX_SCALE && fits(self.parts().0 * other.parts().0)
    }

    /// The number `num * 10^-scale`.
    pub fn new(num: i64, scale: u32) -> (r: Decimal)
        requires
            scale <= MAX_SCALE,
        ensures
            r == Decimal::of((num as i128, scale)),
            r.parts() == (num as i128, scale),
            r@ == units(num as i128, scale),
    {
        Decimal { mantissa: num as i128, scale }
    }

    /// The number `num * 10^-scale`, from a wide mantissa.
    pub fn from_i128_with_scale(num: i128, scale: u32) -> (r: Decimal)
        requires
            valid_parts(num, scale),
        ensures
            r == Decimal::of((num, scale)),
            r.parts() == (num, scale),
            r@ == units(num, scale),
    {
        Decimal { mantissa: num, scale }
    }

    /// The number's mantissa.
    pub fn mantissa(&self) -> (r: i128)
        ensures
            r == self.parts().0,
    {
        self.mantissa
    }

    /// The number's scale.
    pub fn scale(&self) -> (r: u32)
        ensures
            r == self.parts().1,
    {
        self.scale
    }

    /// Zero.
    pub fn zero() -> (r: Decimal)
        ensures
            r == Decimal::spec_zero(),
            r.parts() == (0i128, 0u32),
            r@ == 0,
    {
        Decimal { mantissa: 0, scale: 0 }
    }

    /// The sum of two numbers.
    pub fn plus(self, other: Decimal) -> (r: Decimal)
        requires
            self.plus_ok(other),
        ensures
            r == self.spec_plus(other),
            r.parts() == sum_parts(
                self.parts().0,
                self.parts().1,
                other.parts().0,
                other.parts().1,
            ),
            self.plus_exact(other) ==> r@ == self@ + other@,
    {
        proof {
            use_type_invariant(&self);
            use_type_invariant(&other);
        }
        let (mantissa, scale) = outside_sum(self.mantissa, self.scale, other.mantissa, other.scale);
        Decimal { mantissa, scale }
    }

    /// The difference of two numbers.
    pub fn minus(self, other: Decimal) -> (r: Decimal)
        requires
            self.minus_ok(other),
        ensures
            r == self.spec_minus(other),
            r.parts() == difference_parts(
                self.parts().0,
                self.parts().1,
                other.parts().0,
                other.parts().1,
            ),
            self.minus_exact(other) ==> r@ == self@ - other@,
    {
        proof {
            use_type_invariant(&self);
            use_type_invariant(&other);
        }
        let (mantissa, scale) = outside_difference(
            self.mantissa,
            self.scale,
            other.mantissa,
            other.scale,
        );
        Decimal { mantissa, scale }
    }

    /// The product of two numbers.
    pub fn times(self, other: Decimal) -> (r: Decimal)
        requires
            self.times_ok(other),
        ensures
            r == self.spec_times(other),
            r.parts() == product_parts(
                self.parts().0,
                self.parts().1,
                other.parts().0,
                other.parts().1,
            ),
            self.times_exact(other) ==> r@ * one_unit() == self@ * other@,
    {
        proof {
            use_type_invariant(&self);
            use_type_invariant(&other);
        }
        let (mantissa, scale) = outside_product(
            self.mantissa,
            self.scale,
            other.mantissa,
            other.scale,
        );
        proof {
            if self.times_exact(other) {
                lemma_plain_product(self.mantissa, self.scale, other.mantissa, other.scale);
            }
        }
        Decimal { mantissa, scale }
    }

    /// The quotient of two numbers.
    pub fn over(self, other: Decimal) -> (r: Decimal)
        requires
            self.over_ok(other),
        ensures
            r == self.spec_over(other),
            r.parts() == quotient_parts(
                self.parts().0,
                self.parts().1,
                other.parts().0,
                other.parts().1,
            ),
            self@ == 0 ==> r@ == 0,
    {
        proof {
            use_type_invariant(&self);
            use_type_invariant(&other);
            lemma_units_zero(self.mantissa, self.scale);
            lemma_units_zero(other.mantissa, other.scale);
        }
        let (mantissa, scale) = outside_quotient(
            self.mantissa,
            self.scale,
            other.mantissa,
            other.scale,
        );
        proof {
            lemma_units_zero(mantissa, scale);
        }
        Decimal { mantissa, scale }
    }

    /// The number with the opposite sign.
    pub fn neg(self) -> (r: Decimal)
        ensures
            r == self.spec_neg(),
            r.parts() == (-self.parts().0 as i128, self.parts().1),
            r@ == -self@,
    {
        proof {
            use_type_invariant(&self);
            let p = pow10((MAX_SCALE - self.scale) as nat);
            assert((-self.mantissa) * p == -(self.mantissa * p)) by (nonlinear_arith);
        }
        Decimal { mantissa: -self.mantissa, scale: self.scale }
    }

    /// Whether this number is smaller than the other one.
    pub fn less(self, other: Decimal) -> (r: bool)
        ensures
            r == (self@ < other@),
    {
        proof {
            use_type_invariant(&self);
            use_type_invariant(&other);
        }
        outside_less(self.mantissa, self.scale, other.mantissa, other.scale)
    }

    /// Whether this number is above zero.
    pub fn is_positive(self) -> (r: bool)
        ensures
            r == (self@ > 0),
    {
        Decimal::zero().less(self)
    }

    /// Whether this number is below zero.
    pub fn is_negative(self) -> (r: bool)
        ensures
            r == (self@ < 0),
    {
        self.less(Decimal::zero())
    }

    /// The larger of two numbers, the first one where they are equal.
    pub fn max(self, other: Decimal) -> (r: Decimal)
        ensures
            r == self.spec_max(other),
    {
        if self.less(other) {
            other
        } else {
            self
        }
    }

    /// The smaller of two numbers, the first one where they are equal.
    pub fn min(self, other: Decimal) -> (r: Decimal)
        ensures
            r == self.spec_min(other),
    {
        if other.less(self) {
            other
        } else {
            self
        }
    }

    /// The number's text, as the decimal library writes it.
    pub fn text(&self) -> (r: String)
        ensures
            r@ == decimal_text(self.parts().0, self.parts().1),
    {
        proof {
            use_type_invariant(self);
        }
        outside_text(self.mantissa, self.scale)
    }
}

impl PartialEq for Decimal {
    /// Numbers are equal where their values are, whatever their scales.
    fn eq(&self, other: &Decimal) -> (r: bool) {
        !self.less(*other) && !other.less(*self)
    }
}

impl vstd::std_specs::cmp::PartialEqSpecImpl for Decimal {
    open spec fn obeys_eq_spec() -> bool {
        true
    }

    open spec fn eq_spec(&self, other: &Decimal) -> bool {
        self@ == other@
    }
}

/// The number that is made of given parts has these parts, and their value.
pub proof fn lemma_parts_of(parts: (i128, u32))
    ensures
        Decimal::of(parts).parts() == parts,
        Decimal::of(parts)@ == units(parts.0, parts.1),
        Decimal::of(parts).well_formed() == valid_parts(parts.0, parts.1),
{
}

/// A number is made of its parts.
pub proof fn lemma_of_parts(d: Decimal)
    ensures
        d.well_formed() == valid_parts(d.parts().0, d.parts().1),
        Decimal::of(d.parts()) == d,
        d@ == units(d.parts().0, d.parts().1),
{
}

proof fn lemma_plain_sum(am: i128, a_scale: u32, bm: i128, b_scale: u32)
    requires
        valid_parts(am, a_scale),
        valid_parts(bm, b_scale),
        plain_sum(am, a_scale, bm, b_scale) is Some,
    ensures
        ({
            let p = plain_sum(am, a_scale, bm, b_scale)->0;
            &&& valid_parts(p.0, p.1)
            &&& units(p.0, p.1) == units(am, a_scale) + units(bm, b_scale)
            &&& in_range(units(am, a_scale) + units(bm, b_scale))
        }),
{
    let p = plain_sum(am, a_scale, bm, b_scale)->0;
    lemma_in_range(Decimal { mantissa: p.0, scale: p.1 });
    if am == 0 {
        lemma_units_zero(am, a_scale);
    } else if bm == 0 {
        lemma_units_zero(bm, b_scale);
    } else {
        let scale = wider(a_scale, b_scale);
        let x = pow10((scale - a_scale) as nat);
        let y = pow10((scale - b_scale) as nat);
        let z = pow10((28 - scale) as nat);
        lemma_pow10_sum((scale - a_scale) as nat, (28 - scale) as nat);
        lemma_pow10_sum((scale - b_scale) as nat, (28 - scale) as nat);
        assert((am * x + bm * y) * z == am * (x * z) + bm * (y * z)) by (nonlinear_arith);
    }
}

/// A sum that needs no rounding is in range and has the value of the two numbers added up.
pub proof fn lemma_plus_plain(a: Decimal, b: Decimal)
    requires
        a.well_formed(),
        b.well_formed(),
        a.plus_plain(b),
    ensures
        a.plus_ok(b),
        a.spec_plus(b).well_formed(),
        a.spec_plus(b)@ == a@ + b@,
{
    lemma_plain_sum(a.mantissa, a.scale, b.mantissa, b.scale);
}

/// A difference that needs no rounding is in range and has the value of the one number less that
/// of the other.
pub proof fn lemma_minus_plain(a: Decimal, b: Decimal)
    requires
        a.well_formed(),
        b.well_formed(),
        a.minus_plain(b),
    ensures
        a.minus_ok(b),
        a.spec_minus(b).well_formed(),
        a.spec_minus(b)@ == a@ - b@,
{
    let p = pow10((MAX_SCALE - b.scale) as nat);
    assert((-b.mantissa) * p == -(b.mantissa * p)) by (nonlinear_arith);
    lemma_plain_sum(a.mantissa, a.scale, -b.mantissa as i128, b.scale);
}

/// A product that needs no rounding is in range and has the value of the two numbers multiplied.
pub proof fn lemma_times_plain(a: Decimal, b: Decimal)
    requires
        a.well_formed(),
        b.well_formed(),
        a.times_plain(b),
    ensures
        a.times_ok(b),
        a.spec_times(b).well_formed(),
        a.spec_times(b)@ * one_unit() == a@ * b@,
{
    let am = a.mantissa;
    let bm = b.mantissa;
    lemma_plain_product(am, a.scale, bm, b.scale);
    lemma_times_ok(am, a.scale, bm, b.scale);
    let s = (a.scale + b.scale) as nat;
    let t = pow10(s);
    let top = MAX_MANTISSA as int;
    lemma_pow10_positive(s);
    let p = size_of_int(am as int);
    let q = size_of_int(bm as int);
    if am == 0 || bm == 0 {
        assert(p * q == 0) by (nonlinear_arith)
            requires
                p == 0 || q == 0,
        ;
        assert(0 <= top * t) by (nonlinear_arith)
            requires
                0 < top,
                0 < t,
        ;
    } else {
        assert(p * q == size_of_int(am * bm)) by (nonlinear_arith)
            requires
                p == if am < 0 {
                    -am
                } else {
                    am as int
                },
                q == if bm < 0 {
                    -bm
                } else {
                    bm as int
                },
                size_of_int(am * bm) == if am * bm < 0 {
                    -(am * bm)
                } else {
                    am * bm
                },
        ;
        assert(p * q <= top * t) by (nonlinear_arith)
            requires
                p * q <= top,
                0 < top,
                1 <= t,
        ;
    }
}

/// A number with the opposite sign has the opposite value.
pub proof fn lemma_neg(d: Decimal)
    requires
        d.well_formed(),
    ensures
        d.spec_neg().well_formed(),
        d.spec_neg()@ == -d@,
{
    let p = pow10((MAX_SCALE - d.scale) as nat);
    assert((-d.mantissa) * p == -(d.mantissa * p)) by (nonlinear_arith);
}

/// A power of ten is above zero.
pub proof fn lemma_pow10_positive(n: nat)
    ensures
        pow10(n) > 0,
    decreases n,
{
    if n > 0 {
        lemma_pow10_positive((n - 1) as nat);
    }
}

/// Zero is zero.
pub proof fn lemma_zero()
    ensures
        Decimal::spec_zero()@ == 0,
{
}

/// Adding a number to zero needs no rounding.
pub proof fn lemma_zero_plus_exact(d: Decimal)
    requires
        d.well_formed(),
    ensures
        Decimal::spec_zero().plus_exact(d),
{
    assert(wider(0, d.scale) == d.scale);
    assert(aligned(0, 0, d.scale) == 0) by (nonlinear_arith);
    assert(pow10(0) == 1);
    assert(aligned(d.mantissa, d.scale, d.scale) == d.mantissa) by (nonlinear_arith)
        requires
            pow10(0) == 1,
    ;
}

/// A number added to zero is the number itself.
pub proof fn lemma_zero_plus(d: Decimal)
    ensures
        Decimal::spec_zero().spec_plus(d) == d,
{
}

/// A power of ten is no larger than the next one.
proof fn lemma_pow10_rises(a: nat, b: nat)
    requires
        a <= b,
    ensures
        pow10(a) <= pow10(b),
    decreases b,
{
    if a < b {
        lemma_pow10_rises(a, (b - 1) as nat);
        lemma_pow10_positive((b - 1) as nat);
    }
}

/// A number is within the type's range.
pub proof fn lemma_in_range(d: Decimal)
    requires
        d.well_formed(),
    ensures
        in_range(d@),
{
    let p = pow10((MAX_SCALE - d.scale) as nat);
    lemma_pow10_positive((MAX_SCALE - d.scale) as nat);
    lemma_pow10_rises((MAX_SCALE - d.scale) as nat, 28);
    assert(pow10(28) == one_unit()) by {
        reveal_with_fuel(pow10, 29);
    }
    let m = d.mantissa as int;
    let top = MAX_MANTISSA as int;
    let unit = one_unit();
    assert(-(top * unit) <= m * p <= top * unit) by (nonlinear_arith)
        requires
            -top <= m <= top,
            0 < p <= unit,
            0 < top,
    ;
    assert(-max_units() == -(top * unit));
}

/// A number is zero exactly where its mantissa is.
proof fn lemma_units_zero(mantissa: i128, scale: u32)
    ensures
        units(mantissa, scale) == 0 <==> mantissa == 0,
{
    lemma_pow10_positive((MAX_SCALE - scale) as nat);
    let p = pow10((MAX_SCALE - scale) as nat);
    assert(mantissa * p == 0 <==> mantissa == 0) by (nonlinear_arith)
        requires
            p > 0,
    ;
}

/// The sum of a list of numbers, added up from zero in order.
pub open spec fn total(s: Seq<Decimal>) -> Decimal
    decreases s.len(),
{
    if s.len() == 0 {
        Decimal::spec_zero()
    } else {
        total(s.drop_last()).spec_plus(s.last())
    }
}

/// Every partial sum of a list is within the type's range.
pub open spec fn total_ok(s: Seq<Decimal>) -> bool
    decreases s.len(),
{
    s.len() == 0 || (total_ok(s.drop_last()) && total(s.drop_last()).plus_ok(s.last()))
}

/// No partial sum of a list needs rounding.
pub open spec fn total_exact(s: Seq<Decimal>) -> bool
    decreases s.len(),
{
    s.len() == 0 || (total_exact(s.drop_last()) && total(s.drop_last()).plus_exact(s.last()))
}

/// Every number of a list is one, and no partial sum needs rounding on the way.
pub open spec fn total_plain(s: Seq<Decimal>) -> bool
    decreases s.len(),
{
    s.len() == 0 || (total_plain(s.drop_last()) && s.last().well_formed() && total(
        s.drop_last(),
    ).plus_plain(s.last()))
}

/// The sum of the values of a list.
pub open spec fn value_total(s: Seq<Decimal>) -> int
    decreases s.len(),
{
    if s.len() == 0 {
        0
    } else {
        value_total(s.drop_last()) + s.last()@
    }
}

/// What holds of the sums of a list holds of those of its beginnings.
pub proof fn lemma_total_prefix(s: Seq<Decimal>, n: int)
    requires
        0 <= n <= s.len(),
    ensures
        total_ok(s) ==> total_ok(s.take(n)),
        total_exact(s) ==> total_exact(s.take(n)),
    decreases s.len(),
{
    if n == s.len() {
        assert(s.take(n) =~= s);
    } else {
        assert(s.drop_last().take(n) =~= s.take(n));
        lemma_total_prefix(s.drop_last(), n);
    }
}

/// A sum that needs no rounding on the way is in range, and has the value of the numbers added up.
pub proof fn lemma_total_plain(s: Seq<Decimal>)
    requires
        total_plain(s),
    ensures
        total(s).well_formed(),
        total_ok(s),
        total(s)@ == value_total(s),
    decreases s.len(),
{
    if s.len() == 0 {
        lemma_parts_of((0, 0));
        lemma_zero();
    } else {
        lemma_total_plain(s.drop_last());
        lemma_plus_plain(total(s.drop_last()), s.last());
    }
}

/// A sum counts every number once: one number more adds its own value and nothing else, and a sum of
/// nothing is zero.
pub proof fn law_a_sum_counts_every_number_once(s: Seq<Decimal>, more: Decimal)
    ensures
        value_total(s.push(more)) == value_total(s) + more@,
        value_total(Seq::empty()) == 0,
        total(Seq::empty())@ == 0,
        total_plain(s.push(more)) ==> total(s.push(more))@ == total(s)@ + more@,
{
    assert(s.push(more).drop_last() =~= s);
    lemma_zero();
    if total_plain(s.push(more)) {
        lemma_total_plain(s);
        lemma_total_plain(s.push(more));
    }
}

/// The larger and the smaller of two numbers are bounds of both, and one of the two.
pub proof fn law_the_larger_and_the_smaller_bound_both(a: Decimal, b: Decimal)
    ensures
        a.spec_max(b)@ >= a@,
        a.spec_max(b)@ >= b@,
        a.spec_max(b) == a || a.spec_max(b) == b,
        a.spec_min(b)@ <= a@,
        a.spec_min(b)@ <= b@,
        a.spec_min(b) == a || a.spec_min(b) == b,
{
}

/// Adds up a list of numbers.
pub fn sum_of(v: &Vec<Decimal>) -> (r: Decimal)
    requires
        total_ok(v@),
    ensures
        r == total(v@),
        total_exact(v@) ==> r@ == value_total(v@),
{
    let mut sum = Decimal::zero();
    let mut i: usize = 0;
    assert(v@.take(0) =~= Seq::empty());
    while i < v.len()
        invariant
            i <= v@.len(),
            total_ok(v@),
            sum == total(v@.take(i as int)),
            total_exact(v@) ==> sum@ == value_total(v@.take(i as int)),
        decreases v@.len() - i,
    {
        proof {
            lemma_total_prefix(v@, i + 1);
            assert(v@.take(i + 1).drop_last() =~= v@.take(i as int));
        }
        sum = sum.plus(v[i]);
        i = i + 1;
    }
    assert(v@.take(i as int) =~= v@);
    sum
}

// ---------------------------------------------------------------------------------------------
// Asking beforehand

/// A product of two numbers of 96 bits, as its upper and its lower 96 bits.
fn wide_product(a: u128, b: u128) -> (r: (u128, u128))
    requires
        a <= MAX_MANTISSA,
        b <= MAX_MANTISSA,
    ensures
        r.1 <= MAX_MANTISSA,
        r.0 <= MAX_MANTISSA,
        a * b == r.0 * 79_228_162_514_264_337_593_543_950_336 + r.1,
{
    let half: u128 = 281_474_976_710_656;
    let a1: u128 = a / half;
    let a0: u128 = a % half;
    let b1: u128 = b / half;
    let b0: u128 = b % half;
    proof {
        lemma_halves(a as int);
        lemma_halves(b as int);
        lemma_small_product(a1 as int, b0 as int);
        lemma_small_product(a0 as int, b1 as int);
        lemma_small_product(a0 as int, b0 as int);
        lemma_small_product(a1 as int, b1 as int);
    }
    let middle: u128 = a1 * b0 + a0 * b1;
    let low: u128 = a0 * b0 + (middle % half) * half;
    let lower: u128 = low % 79_228_162_514_264_337_593_543_950_336;
    let upper: u128 = a1 * b1 + middle / half + low / 79_228_162_514_264_337_593_543_950_336;
    proof {
        lemma_wide_product(a as int, b as int);
        lemma_upper_bound(a as int, b as int, upper as int, lower as int);
    }
    (upper, lower)
}

proof fn lemma_halves(a: int)
    requires
        0 <= a <= MAX_MANTISSA,
    ensures
        0 <= a / 281_474_976_710_656 < 281_474_976_710_656,
        0 <= a % 281_474_976_710_656 < 281_474_976_710_656,
        a == (a / 281_474_976_710_656) * 281_474_976_710_656 + a % 281_474_976_710_656,
{
}

proof fn lemma_small_product(x: int, y: int)
    requires
        0 <= x < 281_474_976_710_656,
        0 <= y < 281_474_976_710_656,
    ensures
        0 <= x * y <= 79_228_162_514_263_774_643_590_529_025,
{
    assert(0 <= x * y <= 281_474_976_710_655 * 281_474_976_710_655) by (nonlinear_arith)
        requires
            0 <= x < 281_474_976_710_656,
            0 <= y < 281_474_976_710_656,
    ;
}

proof fn lemma_foil(a1: int, a0: int, b1: int, b0: int, h: int)
    ensures
        (a1 * h + a0) * (b1 * h + b0) == a1 * b1 * (h * h) + (a1 * b0 + a0 * b1) * h + a0 * b0,
{
    assert((a1 * h + a0) * (b1 * h + b0) == (a1 * h) * (b1 * h) + (a1 * h) * b0 + a0 * (b1 * h)
        + a0 * b0) by (nonlinear_arith);
    assert((a1 * h) * (b1 * h) == a1 * b1 * (h * h)) by (nonlinear_arith);
    assert((a1 * h) * b0 + a0 * (b1 * h) == (a1 * b0 + a0 * b1) * h) by (nonlinear_arith);
}

proof fn lemma_wide_product(a: int, b: int)
    requires
        0 <= a <= MAX_MANTISSA,
        0 <= b <= MAX_MANTISSA,
    ensures
        ({
            let h = 281_474_976_710_656int;
            let a1 = a / h;
            let a0 = a % h;
            let b1 = b / h;
            let b0 = b % h;
            let middle = a1 * b0 + a0 * b1;
            let low = a0 * b0 + (middle % h) * h;
            let w = 79_228_162_514_264_337_593_543_950_336int;
            a * b == (a1 * b1 + middle / h + low / w) * w + low % w
        }),
{
    let h = 281_474_976_710_656int;
    let a1 = a / h;
    let a0 = a % h;
    let b1 = b / h;
    let b0 = b % h;
    let middle = a1 * b0 + a0 * b1;
    let low = a0 * b0 + (middle % h) * h;
    let w = 79_228_162_514_264_337_593_543_950_336int;
    lemma_halves(a);
    lemma_halves(b);
    lemma_foil(a1, a0, b1, b0, h);
    assert(h * h == w);
    assert(middle == (middle / h) * h + middle % h);
    assert(middle * h == (middle / h) * w + (middle % h) * h) by (nonlinear_arith)
        requires
            middle == (middle / h) * h + middle % h,
            h * h == w,
    ;
    assert(low == (low / w) * w + low % w);
    assert((a1 * b1 + middle / h + low / w) * w == a1 * b1 * w + (middle / h) * w + (low / w) * w)
        by (nonlinear_arith);
}

proof fn lemma_upper_bound(a: int, b: int, upper: int, lower: int)
    requires
        0 <= a <= MAX_MANTISSA,
        0 <= b <= MAX_MANTISSA,
        0 <= lower,
        a * b == upper * 79_228_162_514_264_337_593_543_950_336 + lower,
    ensures
        upper <= MAX_MANTISSA,
{
    let top = MAX_MANTISSA as int;
    let w = 79_228_162_514_264_337_593_543_950_336int;
    assert(a * b <= top * top) by (nonlinear_arith)
        requires
            0 <= a <= top,
            0 <= b <= top,
    ;
    assert(upper <= top) by (nonlinear_arith)
        requires
            upper * w + lower == a * b,
            a * b <= top * top,
            0 <= lower,
            w == top + 1,
            0 < top,
    ;
}

/// Whether one product of two numbers of 96 bits is no larger than another.
fn product_at_most(a: u128, b: u128, c: u128, d: u128) -> (r: bool)
    requires
        a <= MAX_MANTISSA,
        b <= MAX_MANTISSA,
        c <= MAX_MANTISSA,
        d <= MAX_MANTISSA,
    ensures
        r == (a * b <= c * d),
{
    let x = wide_product(a, b);
    let y = wide_product(c, d);
    x.0 < y.0 || (x.0 == y.0 && x.1 <= y.1)
}

/// Ten to the power of a scale.
fn power_of_ten(n: u32) -> (r: u128)
    requires
        n <= MAX_SCALE,
    ensures
        r == pow10(n as nat),
        1 <= r <= MAX_MANTISSA,
{
    let mut r: u128 = 1;
    let mut i: u32 = 0;
    while i < n
        invariant
            i <= n <= MAX_SCALE,
            r == pow10(i as nat),
            1 <= r <= one_unit(),
        decreases n - i,
    {
        proof {
            lemma_pow10_rises((i + 1) as nat, 28);
            lemma_pow10_positive((i + 1) as nat);
            assert(pow10(28) == one_unit()) by {
                reveal_with_fuel(pow10, 29);
            }
            assert(pow10((i + 1) as nat) == 10 * pow10(i as nat));
        }
        r = r * 10;
        i = i + 1;
    }
    r
}

fn magnitude(m: i128) -> (r: u128)
    requires
        -MAX_MANTISSA <= m <= MAX_MANTISSA,
    ensures
        r == size_of_int(m as int),
        r <= MAX_MANTISSA,
{
    if m < 0 {
        (-m) as u128
    } else {
        m as u128
    }
}

proof fn lemma_pow10_sum(a: nat, b: nat)
    ensures
        pow10(a + b) == pow10(a) * pow10(b),
    decreases a,
{
    if a > 0 {
        lemma_pow10_sum((a - 1) as nat, b);
        assert(pow10(a + b) == 10 * pow10((a + b - 1) as nat));
        let x = pow10((a - 1) as nat);
        let y = pow10(b);
        assert(10 * (x * y) == (10 * x) * y) by (nonlinear_arith);
    }
}

proof fn lemma_unit()
    ensures
        pow10(28) == one_unit(),
{
    reveal_with_fuel(pow10, 29);
}

/// A product that needs no rounding has the value of the two numbers multiplied.
proof fn lemma_plain_product(am: i128, a_scale: u32, bm: i128, b_scale: u32)
    requires
        valid_parts(am, a_scale),
        valid_parts(bm, b_scale),
        plain_product(am, a_scale, bm, b_scale) is Some,
    ensures
        ({
            let p = product_parts(am, a_scale, bm, b_scale);
            units(p.0, p.1) * one_unit() == units(am, a_scale) * units(bm, b_scale)
        }),
{
    let x = pow10((28 - a_scale) as nat);
    let y = pow10((28 - b_scale) as nat);
    let u = one_unit();
    if am == 0 || bm == 0 {
        lemma_units_zero(am, a_scale);
        lemma_units_zero(bm, b_scale);
        assert(0 * pow10(28) == 0) by (nonlinear_arith);
        assert(units(am, a_scale) * units(bm, b_scale) == 0) by (nonlinear_arith)
            requires
                units(am, a_scale) == 0 || units(bm, b_scale) == 0,
        ;
    } else {
        let s = (a_scale + b_scale) as nat;
        let z = pow10((28 - s) as nat);
        lemma_unit();
        lemma_pow10_sum((28 - s) as nat, 28);
        lemma_pow10_sum((28 - a_scale) as nat, (28 - b_scale) as nat);
        assert(z * u == x * y);
        assert(((am * bm) * z) * u == (am * x) * (bm * y)) by (nonlinear_arith)
            requires
                z * u == x * y,
        ;
    }
}

proof fn lemma_times_ok(am: i128, a_scale: u32, bm: i128, b_scale: u32)
    requires
        valid_parts(am, a_scale),
        valid_parts(bm, b_scale),
    ensures
        (-max_units() * one_unit() <= units(am, a_scale) * units(bm, b_scale) <= max_units()
            * one_unit()) == (size_of_int(am as int) * size_of_int(bm as int) <= MAX_MANTISSA
            * pow10((a_scale + b_scale) as nat)),
{
    let top = MAX_MANTISSA as int;
    let s = (a_scale + b_scale) as nat;
    let rest = (56 - s) as nat;
    let x = pow10((28 - a_scale) as nat);
    let y = pow10((28 - b_scale) as nat);
    let m = am * bm;
    let k = pow10(rest);
    lemma_unit();
    lemma_pow10_sum((28 - a_scale) as nat, (28 - b_scale) as nat);
    lemma_pow10_sum(28, 28);
    lemma_pow10_sum(rest, s);
    lemma_pow10_positive(rest);
    assert(x * y == k);
    assert((am * x) * (bm * y) == m * k) by (nonlinear_arith)
        requires
            x * y == k,
            m == am * bm,
    ;
    let p10 = pow10(s);
    assert(one_unit() * one_unit() == k * p10);
    assert(max_units() * one_unit() == (top * p10) * k) by (nonlinear_arith)
        requires
            one_unit() * one_unit() == k * p10,
            max_units() == top * one_unit(),
    ;
    assert(-max_units() * one_unit() == -(max_units() * one_unit())) by (nonlinear_arith);
    let b = top * p10;
    assert((-(b * k) <= m * k <= b * k) == (-b <= m <= b)) by (nonlinear_arith)
        requires
            k > 0,
    ;
    let p = size_of_int(am as int);
    let q = size_of_int(bm as int);
    assert(size_of_int(m) == p * q) by (nonlinear_arith)
        requires
            m == am * bm,
            p == if am < 0 {
                -am
            } else {
                am as int
            },
            q == if bm < 0 {
                -bm
            } else {
                bm as int
            },
            size_of_int(m) == if m < 0 {
                -m
            } else {
                m
            },
    ;
}

proof fn lemma_wide_scale(p: int, q: int, s: nat)
    requires
        0 <= p <= MAX_MANTISSA,
        0 <= q <= MAX_MANTISSA,
        s > MAX_SCALE,
    ensures
        p * q <= MAX_MANTISSA * pow10(s),
{
    let top = MAX_MANTISSA as int;
    lemma_unit();
    assert(pow10(29) == 10 * pow10(28));
    lemma_pow10_rises(29, s);
    let t = pow10(s);
    assert(p * q <= top * t) by (nonlinear_arith)
        requires
            0 <= p <= top,
            0 <= q <= top,
            top <= t,
    ;
}

proof fn lemma_over_ok(am: i128, a_scale: u32, bm: i128, b_scale: u32)
    requires
        valid_parts(am, a_scale),
        valid_parts(bm, b_scale),
        bm != 0,
    ensures
        a_scale >= b_scale ==> quotient_in_range(units(am, a_scale), units(bm, b_scale)),
        a_scale < b_scale ==> quotient_in_range(units(am, a_scale), units(bm, b_scale)) == (
        size_of_int(am as int) * pow10((b_scale - a_scale) as nat) <= MAX_MANTISSA * size_of_int(
            bm as int,
        )),
{
    let top = MAX_MANTISSA as int;
    let x = pow10((28 - a_scale) as nat);
    let y = pow10((28 - b_scale) as nat);
    let p = size_of_int(am as int);
    let q = size_of_int(bm as int);
    let a = units(am, a_scale);
    let b = units(bm, b_scale);
    lemma_pow10_positive((28 - a_scale) as nat);
    lemma_pow10_positive((28 - b_scale) as nat);
    assert(size_of_int(a) == p * x) by (nonlinear_arith)
        requires
            a == am * x,
            x > 0,
            p == if am < 0 {
                -am
            } else {
                am as int
            },
            size_of_int(a) == if a < 0 {
                -a
            } else {
                a
            },
    ;
    assert(size_of_int(b) == q * y) by (nonlinear_arith)
        requires
            b == bm * y,
            y > 0,
            q == if bm < 0 {
                -bm
            } else {
                bm as int
            },
            size_of_int(b) == if b < 0 {
                -b
            } else {
                b
            },
    ;
    lemma_units_zero(bm, b_scale);
    let c = top * size_of_int(b);
    if b > 0 {
        assert(-top * b == -c) by (nonlinear_arith)
            requires
                c == top * b,
        ;
    } else {
        assert(top * b == -c) by (nonlinear_arith)
            requires
                c == top * (-b),
        ;
        assert(-top * b == c) by (nonlinear_arith)
            requires
                c == top * (-b),
        ;
    }
    assert(quotient_in_range(a, b) == (size_of_int(a) <= c));
    if a_scale >= b_scale {
        let d = pow10((a_scale - b_scale) as nat);
        lemma_pow10_sum((28 - a_scale) as nat, (a_scale - b_scale) as nat);
        lemma_pow10_positive((a_scale - b_scale) as nat);
        assert(y == x * d);
        assert(p * x <= top * (q * y)) by (nonlinear_arith)
            requires
                y == x * d,
                x > 0,
                d >= 1,
                q >= 1,
                0 <= p <= top,
        ;
    } else {
        let d = pow10((b_scale - a_scale) as nat);
        lemma_pow10_sum((28 - b_scale) as nat, (b_scale - a_scale) as nat);
        assert(x == y * d);
        assert((p * x <= top * (q * y)) == (p * d <= top * q)) by (nonlinear_arith)
            requires
                x == y * d,
                y > 0,
        ;
    }
}

/// A number without its sign, as its whole part and the rest.
proof fn lemma_whole_and_rest(m: int, scale: u32)
    requires
        0 <= m <= MAX_MANTISSA,
        scale <= MAX_SCALE,
    ensures
        ({
            let t = pow10(scale as nat);
            let f = (m % t) * pow10((28 - scale) as nat);
            &&& m * pow10((28 - scale) as nat) == (m / t) * one_unit() + f
            &&& 0 <= f < one_unit()
            &&& 0 <= m / t <= m
            &&& 0 <= m % t < t
        }),
{
    let t = pow10(scale as nat);
    let y = pow10((28 - scale) as nat);
    lemma_unit();
    lemma_pow10_positive(scale as nat);
    lemma_pow10_positive((28 - scale) as nat);
    lemma_pow10_sum(scale as nat, (28 - scale) as nat);
    let w = m / t;
    let r = m % t;
    vstd::arithmetic::div_mod::lemma_fundamental_div_mod(m, t);
    vstd::arithmetic::div_mod::lemma_mod_bound(m, t);
    assert(m == t * w + r);
    assert(m * y == w * one_unit() + r * y) by (nonlinear_arith)
        requires
            m == t * w + r,
            t * y == one_unit(),
    ;
    assert(0 <= r * y < one_unit()) by (nonlinear_arith)
        requires
            0 <= r < t,
            y > 0,
            t * y == one_unit(),
    ;
    assert(0 <= w <= m) by (nonlinear_arith)
        requires
            m == t * w + r,
            0 <= r < t,
            0 <= m,
            t >= 1,
    ;
}

impl Decimal {
    /// Whether the sum of two numbers is within the type's range.
    pub fn can_plus(self, other: Decimal) -> (r: bool)
        ensures
            r == self.plus_ok(other),
    {
        proof {
            use_type_invariant(&self);
            use_type_invariant(&other);
            lemma_in_range(self);
            lemma_in_range(other);
            lemma_sign(self.mantissa, self.scale);
            lemma_sign(other.mantissa, other.scale);
        }
        if (self.mantissa < 0) != (other.mantissa < 0) {
            return true;
        }
        let p: u128 = magnitude(self.mantissa);
        let q: u128 = magnitude(other.mantissa);
        let t: u128 = power_of_ten(self.scale);
        let u: u128 = power_of_ten(other.scale);
        let x: u128 = power_of_ten(28 - self.scale);
        let y: u128 = power_of_ten(28 - other.scale);
        proof {
            lemma_whole_and_rest(p as int, self.scale);
            lemma_whole_and_rest(q as int, other.scale);
        }
        let whole: u128 = p / t + q / u;
        let rest: u128 = (p % t) * x + (q % u) * y;
        let top: u128 = 79_228_162_514_264_337_593_543_950_335;
        proof {
            let a = size_of_int(self@);
            let b = size_of_int(other@);
            assert(a == p * x);
            assert(b == q * y);
            assert(a + b == whole * one_unit() + rest) by (nonlinear_arith)
                requires
                    a == (p / t) * one_unit() + (p % t) * x,
                    b == (q / u) * one_unit() + (q % u) * y,
                    whole == p / t + q / u,
                    rest == (p % t) * x + (q % u) * y,
            ;
            assert(self.plus_ok(other) == (a + b <= max_units()));
            assert(max_units() == top * one_unit());
        }
        if whole > top {
            assert(whole * one_unit() >= (top + 1) * one_unit()) by (nonlinear_arith)
                requires
                    whole >= top + 1,
                    one_unit() > 0,
            ;
            false
        } else if whole == top {
            rest == 0
        } else if whole == top - 1 {
            assert((top - 1) * one_unit() == top * one_unit() - one_unit()) by (nonlinear_arith);
            rest <= 10_000_000_000_000_000_000_000_000_000
        } else {
            assert(whole * one_unit() <= top * one_unit() - 2 * one_unit()) by (nonlinear_arith)
                requires
                    whole <= top - 2,
                    one_unit() > 0,
            ;
            true
        }
    }

    /// Whether the difference of two numbers is within the type's range.
    pub fn can_minus(self, other: Decimal) -> (r: bool)
        ensures
            r == self.minus_ok(other),
    {
        self.can_plus(other.neg())
    }

    /// Whether the product of two numbers is within the type's range.
    pub fn can_times(self, other: Decimal) -> (r: bool)
        ensures
            r == self.times_ok(other),
    {
        proof {
            use_type_invariant(&self);
            use_type_invariant(&other);
            lemma_times_ok(self.mantissa, self.scale, other.mantissa, other.scale);
        }
        let p: u128 = magnitude(self.mantissa);
        let q: u128 = magnitude(other.mantissa);
        if self.scale + other.scale > MAX_SCALE {
            proof {
                lemma_wide_scale(p as int, q as int, (self.scale + other.scale) as nat);
            }
            return true;
        }
        let t: u128 = power_of_ten(self.scale + other.scale);
        product_at_most(p, q, 79_228_162_514_264_337_593_543_950_335, t)
    }

    /// Whether the quotient of two numbers exists and is within the type's range.
    pub fn can_over(self, other: Decimal) -> (r: bool)
        ensures
            r == self.over_ok(other),
    {
        proof {
            use_type_invariant(&self);
            use_type_invariant(&other);
            lemma_units_zero(other.mantissa, other.scale);
        }
        if other.mantissa == 0 {
            return false;
        }
        proof {
            lemma_over_ok(self.mantissa, self.scale, other.mantissa, other.scale);
        }
        if self.scale >= other.scale {
            return true;
        }
        let p: u128 = magnitude(self.mantissa);
        let q: u128 = magnitude(other.mantissa);
        let t: u128 = power_of_ten(other.scale - self.scale);
        product_at_most(p, t, 79_228_162_514_264_337_593_543_950_335, q)
    }
}

proof fn lemma_sign(mantissa: i128, scale: u32)
    requires
        valid_parts(mantissa, scale),
    ensures
        mantissa < 0 <==> units(mantissa, scale) < 0,
        size_of_int(units(mantissa, scale)) == size_of_int(mantissa as int) * pow10(
            (28 - scale) as nat,
        ),
{
    let y = pow10((28 - scale) as nat);
    lemma_pow10_positive((28 - scale) as nat);
    assert(mantissa < 0 <==> mantissa * y < 0) by (nonlinear_arith)
        requires
            y > 0,
    ;
    assert((-mantissa) * y == -(mantissa * y)) by (nonlinear_arith);
}

/// Whether every partial sum of a list is within the type's range.
pub fn sums_fit(v: &Vec<Decimal>) -> (r: bool)
    ensures
        r == total_ok(v@),
{
    checked_sum(v).is_some()
}

/// Adds up a list of numbers, where every partial sum is within the type's range.
pub fn checked_sum(v: &Vec<Decimal>) -> (r: Option<Decimal>)
    ensures
        match r {
            Some(d) => total_ok(v@) && d == total(v@),
            None => !total_ok(v@),
        },
{
    let mut sum = Decimal::zero();
    let mut i: usize = 0;
    assert(v@.take(0) =~= Seq::empty());
    while i < v.len()
        invariant
            i <= v@.len(),
            total_ok(v@.take(i as int)),
            sum == total(v@.take(i as int)),
        decreases v@.len() - i,
    {
        assert(v@.take(i + 1).drop_last() =~= v@.take(i as int));
        if !sum.can_plus(v[i]) {
            proof {
                if total_ok(v@) {
                    lemma_total_prefix(v@, i + 1);
                }
            }
            return None;
        }
        sum = sum.plus(v[i]);
        i = i + 1;
    }
    assert(v@.take(i as int) =~= v@);
    Some(sum)
}

} // verus!
