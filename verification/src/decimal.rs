//! Fixed-point decimal numbers, computed by `rust_decimal`.
//!
//! A [`Dec`] is a 96-bit signed mantissa with a base-ten scale between 0 and
//! 28, the same representation as `rust_decimal::Decimal`.  Its number is
//! `mantissa / 10^scale`; in specifications it is handled through
//! [`Dec::value`], that number multiplied by `10^28`, which is always an
//! integer.  All arithmetic is delegated to `rust_decimal`.
use rust_decimal::Decimal;
use vstd::prelude::*;

verus! {

/// `10^n`.
pub open spec fn pow10(n: nat) -> int
    decreases n,
{
    if n == 0 {
        1
    } else {
        10 * pow10((n - 1) as nat)
    }
}

/// The largest magnitude of a mantissa, `2^96 - 1`.
pub const MAX_MANTISSA: i128 = 79228162514264337593543950335;

/// The largest scale.
pub const MAX_SCALE: u32 = 28;

/// A decimal number `mantissa / 10^scale`.
#[derive(Clone, Copy, Debug)]
pub struct Dec {
    mantissa: i128,
    scale: u32,
}

/// `units`, a number times `10^28`, can be written with a mantissa of at most
/// 96 bits at the given scale.
pub open spec fn fits_at_scale(units: int, scale: nat) -> bool {
    -MAX_MANTISSA * pow10((28 - scale) as nat) <= units <= MAX_MANTISSA * pow10(
        (28 - scale) as nat,
    )
}

/// `10^n` is positive.
pub proof fn lemma_pow10_positive(n: nat)
    ensures
        pow10(n) > 0,
    decreases n,
{
    if n > 0 {
        lemma_pow10_positive((n - 1) as nat);
    }
}

/// `10^n` grows with `n`.
pub proof fn lemma_pow10_mono(m: nat, n: nat)
    requires
        m <= n,
    ensures
        pow10(m) <= pow10(n),
    decreases n,
{
    lemma_pow10_positive(n);
    if m < n {
        lemma_pow10_mono(m, (n - 1) as nat);
    }
}

/// What fits at a scale fits at every smaller scale.
pub proof fn lemma_fits_smaller_scale(units: int, scale: nat, smaller: nat)
    requires
        smaller <= scale <= 28,
        fits_at_scale(units, scale),
    ensures
        fits_at_scale(units, smaller),
{
    lemma_pow10_mono((28 - scale) as nat, (28 - smaller) as nat);
    assert(MAX_MANTISSA * pow10((28 - scale) as nat) <= MAX_MANTISSA * pow10((28 - smaller) as nat)) by (nonlinear_arith)
        requires
            pow10((28 - scale) as nat) <= pow10((28 - smaller) as nat),
            MAX_MANTISSA > 0,
    ;
}

/// Zero fits at every scale.
pub proof fn lemma_zero_fits(scale: nat)
    ensures
        fits_at_scale(0, scale),
{
    lemma_pow10_positive((28 - scale) as nat);
}

pub open spec fn max_nat(a: nat, b: nat) -> nat {
    if a >= b {
        a
    } else {
        b
    }
}

impl Dec {
    #[verifier::type_invariant]
    spec fn well_formed(self) -> bool {
        &&& -MAX_MANTISSA <= self.mantissa <= MAX_MANTISSA
        &&& self.scale <= MAX_SCALE
    }

    /// The mantissa.
    pub closed spec fn mant(self) -> int {
        self.mantissa as int
    }

    /// The scale.
    pub closed spec fn scl(self) -> nat {
        self.scale as nat
    }

    /// The number, multiplied by `10^28`.
    pub open spec fn value(self) -> int {
        self.mant() * pow10((28 - self.scl()) as nat)
    }

    /// Zero, as a specification value.
    pub closed spec fn spec_zero() -> Dec {
        Dec { mantissa: 0, scale: 0 }
    }

    /// One, as a specification value.
    pub closed spec fn spec_one() -> Dec {
        Dec { mantissa: 1, scale: 0 }
    }

    /// One hundred, as a specification value.
    pub closed spec fn spec_one_hundred() -> Dec {
        Dec { mantissa: 100, scale: 0 }
    }

    /// The integer `n` (for `n < 2^64`), as a specification value.
    pub closed spec fn spec_from_usize(n: usize) -> Dec {
        Dec { mantissa: n as i128, scale: 0 }
    }

    /// What the specification constants are.
    pub proof fn lemma_constants()
        ensures
            Dec::spec_zero().mant() == 0 && Dec::spec_zero().scl() == 0,
            Dec::spec_zero().value() == 0,
            Dec::spec_one().mant() == 1 && Dec::spec_one().scl() == 0,
            Dec::spec_one().value() == pow10(28),
            Dec::spec_one_hundred().mant() == 100 && Dec::spec_one_hundred().scl() == 0,
            Dec::spec_one_hundred().value() == 100 * pow10(28),
            forall|n: usize|
                #![trigger Dec::spec_from_usize(n)]
                Dec::spec_from_usize(n).mant() == n && Dec::spec_from_usize(n).scl() == 0
                    && Dec::spec_from_usize(n).value() == n * pow10(28),
    {
        reveal_with_fuel(pow10, 3);
    }

    /// Builds `mantissa / 10^scale`; `None` where the mantissa needs more
    /// than 96 bits or the scale exceeds 28.
    pub fn from_parts(mantissa: i128, scale: u32) -> (r: Option<Dec>)
        ensures
            r is Some <==> (-MAX_MANTISSA <= mantissa <= MAX_MANTISSA && scale <= MAX_SCALE),
            r matches Some(d) ==> d.mant() == mantissa && d.scl() == scale,
    {
        if -MAX_MANTISSA <= mantissa && mantissa <= MAX_MANTISSA && scale <= MAX_SCALE {
            Some(Dec { mantissa, scale })
        } else {
            None
        }
    }

    /// Builds `num / 10^scale`.
    pub fn new(num: i64, scale: u32) -> (r: Dec)
        requires
            scale <= MAX_SCALE,
        ensures
            r.mant() == num,
            r.scl() == scale,
    {
        Dec { mantissa: num as i128, scale }
    }

    /// The integer `n`.
    pub fn from_usize(n: usize) -> (r: Dec)
        ensures
            r == Dec::spec_from_usize(n),
            r.mant() == n,
            r.scl() == 0,
            r.value() == n * pow10(28),
    {
        Dec { mantissa: n as i128, scale: 0 }
    }

    /// Zero.
    pub fn zero() -> (r: Dec)
        ensures
            r == Dec::spec_zero(),
            r.mant() == 0,
            r.scl() == 0,
            r.value() == 0,
    {
        Dec { mantissa: 0, scale: 0 }
    }

    /// One.
    pub fn one() -> (r: Dec)
        ensures
            r == Dec::spec_one(),
            r.mant() == 1,
            r.scl() == 0,
            r.value() == pow10(28),
    {
        Dec { mantissa: 1, scale: 0 }
    }

    /// One hundred.
    pub fn one_hundred() -> (r: Dec)
        ensures
            r == Dec::spec_one_hundred(),
            r.mant() == 100,
            r.scl() == 0,
            r.value() == 100 * pow10(28),
    {
        proof {
            reveal_with_fuel(pow10, 3);
        }
        Dec { mantissa: 100, scale: 0 }
    }

    /// The mantissa.
    pub fn mantissa(&self) -> (r: i128)
        ensures
            r == self.mant(),
            -MAX_MANTISSA <= r <= MAX_MANTISSA,
    {
        proof {
            use_type_invariant(self);
        }
        self.mantissa
    }

    /// The scale.
    pub fn scale(&self) -> (r: u32)
        ensures
            r == self.scl(),
            r <= MAX_SCALE,
    {
        proof {
            use_type_invariant(self);
        }
        self.scale
    }
}

/// What `Decimal::checked_add` returns.
pub uninterp spec fn decimal_add(a: Dec, b: Dec) -> Option<Dec>;

/// What `Decimal::checked_sub` returns.
pub uninterp spec fn decimal_sub(a: Dec, b: Dec) -> Option<Dec>;

/// What `Decimal::checked_mul` returns.
pub uninterp spec fn decimal_mul(a: Dec, b: Dec) -> Option<Dec>;

/// What `Decimal::checked_div` returns.
pub uninterp spec fn decimal_div(a: Dec, b: Dec) -> Option<Dec>;

/// `a + b` by `Decimal::checked_add`: `None` on overflow.  The sum is exact
/// when it fits at the larger of the two scales (otherwise it is rounded to
/// fit) and then has the larger scale where neither operand is zero, a zero
/// operand gives back the other one (the second, where both are zero), and
/// the sum of two non-negative numbers is non-negative.
#[verifier::external_body]
pub(crate) fn dec_add(a: Dec, b: Dec) -> (r: Option<Dec>)
    ensures
        r == decimal_add(a, b),
        fits_at_scale(a.value() + b.value(), max_nat(a.scl(), b.scl())) ==> (r is Some && r->0.value() == a.value() + b.value()),
        a.value() == 0 ==> r == Some(b),
        (b.value() == 0 && a.value() != 0) ==> r == Some(a),
        (a.value() >= 0 && b.value() >= 0 && r is Some) ==> r->0.value() >= 0,
        (fits_at_scale(a.value() + b.value(), max_nat(a.scl(), b.scl())) && a.value() != 0 && b.value() != 0)
            ==> r->0.scl() == max_nat(a.scl(), b.scl()),
{
    let x = Decimal::from_i128_with_scale(a.mantissa, a.scale);
    let y = Decimal::from_i128_with_scale(b.mantissa, b.scale);
    match x.checked_add(y) {
        Some(z) => Some(Dec { mantissa: z.mantissa(), scale: z.scale() }),
        None => None,
    }
}

/// `a - b` by `Decimal::checked_sub`: `None` on overflow.  The difference is
/// exact when it fits at the larger of the two scales (otherwise it is
/// rounded, keeping its sign) and then has the larger scale where neither
/// operand is zero, subtracting zero from a non-zero `a` gives back `a`,
/// subtracting from zero gives `-b` at `b`'s scale, and the difference has
/// the sign of `a - b`.
#[verifier::external_body]
pub(crate) fn dec_sub(a: Dec, b: Dec) -> (r: Option<Dec>)
    ensures
        r == decimal_sub(a, b),
        fits_at_scale(a.value() - b.value(), max_nat(a.scl(), b.scl())) ==> (r is Some && r->0.value() == a.value() - b.value()),
        (b.value() == 0 && a.value() != 0) ==> r == Some(a),
        r is Some ==> ((r->0.value() > 0 <==> a.value() > b.value()) && (r->0.value() < 0 <==> a.value() < b.value())),
        (fits_at_scale(a.value() - b.value(), max_nat(a.scl(), b.scl())) && a.value() != 0 && b.value() != 0)
            ==> r->0.scl() == max_nat(a.scl(), b.scl()),
        a.value() == 0 ==> (r is Some && r->0.value() == -b.value() && r->0.scl() == b.scl()),
{
    let x = Decimal::from_i128_with_scale(a.mantissa, a.scale);
    let y = Decimal::from_i128_with_scale(b.mantissa, b.scale);
    match x.checked_sub(y) {
        Some(z) => Some(Dec { mantissa: z.mantissa(), scale: z.scale() }),
        None => None,
    }
}

/// `a * b` by `Decimal::checked_mul`: `None` on overflow.  A zero operand
/// gives zero (at scale 0); for non-zero operands the product of the
/// mantissas is kept exactly when it fits in 96 bits and the scales add up
/// to at most 28 (otherwise it is rounded); the product of two non-negative
/// numbers is non-negative.
#[verifier::external_body]
pub(crate) fn dec_mul(a: Dec, b: Dec) -> (r: Option<Dec>)
    ensures
        r == decimal_mul(a, b),
        (a.value() == 0 || b.value() == 0) ==> (r is Some && r->0.value() == 0),
        (a.value() != 0 && b.value() != 0 && a.scl() + b.scl() <= MAX_SCALE && -MAX_MANTISSA <= a.mant() * b.mant() <= MAX_MANTISSA) ==> (r is Some && r->0.mant() == a.mant() * b.mant() && r->0.scl() == a.scl() + b.scl()),
        (a.value() >= 0 && b.value() >= 0 && r is Some) ==> r->0.value() >= 0,
{
    let x = Decimal::from_i128_with_scale(a.mantissa, a.scale);
    let y = Decimal::from_i128_with_scale(b.mantissa, b.scale);
    match x.checked_mul(y) {
        Some(z) => Some(Dec { mantissa: z.mantissa(), scale: z.scale() }),
        None => None,
    }
}

/// `a / b` by `Decimal::checked_div`: `None` when `b` is zero or on
/// overflow; zero divided by a non-zero number is zero, a non-negative
/// number divided by a positive one is non-negative, and dividing by the
/// integer one (mantissa 1, scale 0) gives back a non-zero `a` unchanged.  The quotient is
/// rounded to what fits; this contract does not say how.
#[verifier::external_body]
pub(crate) fn dec_div(a: Dec, b: Dec) -> (r: Option<Dec>)
    ensures
        r == decimal_div(a, b),
        b.value() == 0 ==> r is None,
        (b.value() != 0 && a.value() == 0) ==> (r is Some && r->0.value() == 0),
        (a.value() >= 0 && b.value() > 0 && r is Some) ==> r->0.value() >= 0,
        (b.mant() == 1 && b.scl() == 0 && a.value() != 0) ==> r == Some(a),
{
    let x = Decimal::from_i128_with_scale(a.mantissa, a.scale);
    let y = Decimal::from_i128_with_scale(b.mantissa, b.scale);
    match x.checked_div(y) {
        Some(z) => Some(Dec { mantissa: z.mantissa(), scale: z.scale() }),
        None => None,
    }
}

/// `a < b` by `Decimal`'s `PartialOrd`, which compares the numbers.
#[verifier::external_body]
pub(crate) fn dec_lt(a: Dec, b: Dec) -> (r: bool)
    ensures
        r == (a.value() < b.value()),
{
    Decimal::from_i128_with_scale(a.mantissa, a.scale) < Decimal::from_i128_with_scale(
        b.mantissa,
        b.scale,
    )
}

/// `a == b` by `Decimal`'s `PartialEq`, which compares the numbers (so that
/// `1.0 == 1.00`).
#[verifier::external_body]
pub(crate) fn dec_eq(a: Dec, b: Dec) -> (r: bool)
    ensures
        r == (a.value() == b.value()),
{
    Decimal::from_i128_with_scale(a.mantissa, a.scale) == Decimal::from_i128_with_scale(
        b.mantissa,
        b.scale,
    )
}

/// Numeric equality, as `Decimal`'s: `1.0 == 1.00`.
impl PartialEq for Dec {
    fn eq(&self, other: &Dec) -> (r: bool) {
        dec_eq(*self, *other)
    }
}

impl vstd::std_specs::cmp::PartialEqSpecImpl for Dec {
    open spec fn obeys_eq_spec() -> bool {
        true
    }

    open spec fn eq_spec(&self, other: &Dec) -> bool {
        self.value() == other.value()
    }
}

/// The text `Decimal`'s `Display` gives for `d` (as `to_string`).
#[verifier::external_body]
pub(crate) fn dec_text(d: Dec) -> String {
    Decimal::from_i128_with_scale(d.mantissa, d.scale).to_string()
}

} // verus!
