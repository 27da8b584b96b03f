//! The signed decimal value: sign, precision and scale metadata over a
//! magnitude, with its arithmetic and ordering.
use vstd::prelude::*;

use crate::magnitude::{limbs_value, pow10, pow10_magnitude, Magnitude, Wide};

verus! {

/// The largest magnitude a decimal holds: 38 nines.
#[verifier::inline]
pub open spec fn max_magnitude() -> nat {
    99_999_999_999_999_999_999_999_999_999_999_999_999
}

/// The largest scale and the largest precision.
pub const MAX_DIGITS: u8 = 38;

#[derive(Clone, Copy, Debug, PartialEq, Eq, Structural)]
pub enum DecimalSign {
    Positive,
    Negative,
}

/// Count of significant digits recorded when a value was made: 0 to 38, where 0
/// belongs to the canonical zero alone.
#[derive(Clone, Copy, Debug, PartialEq, Eq, Structural)]
pub struct DecimalPrecision {
    pub value: u8,
}

/// Count of digits to the right of the decimal point: 0 to 38.
#[derive(Clone, Copy, Debug, PartialEq, Eq, Structural)]
pub struct DecimalScale {
    pub value: u8,
}

#[derive(Clone, Copy, Debug, PartialEq, Eq, Structural)]
pub enum DecimalComparison {
    GT,
    EQ,
    LT,
}

#[derive(Clone, Copy, Debug, PartialEq, Eq, Structural)]
pub enum DecimalError {
    /// Text that is not a decimal number of at most 38 digits.
    ParseError,
    /// A result whose magnitude would exceed 38 nines, or whose scale would
    /// exceed 38.
    OverflowError,
    /// A divisor of magnitude zero.
    DivideByZeroError,
}

/// The signed value `(-1)^sign * magnitude * 10^(-scale)`, the magnitude held
/// as four 32-bit limbs, least significant first.
#[derive(Clone, Copy, Debug, PartialEq, Eq, Structural)]
pub struct Decimal {
    pub sign: DecimalSign,
    pub precision: DecimalPrecision,
    pub scale: DecimalScale,
    pub part_0: u32,
    pub part_1: u32,
    pub part_2: u32,
    pub part_3: u32,
}

pub type DecimalParts = (DecimalSign, DecimalPrecision, DecimalScale, u32, u32, u32, u32);

pub open spec fn cmp_int(x: int, y: int) -> DecimalComparison {
    if x > y {
        DecimalComparison::GT
    } else if x < y {
        DecimalComparison::LT
    } else {
        DecimalComparison::EQ
    }
}

pub open spec fn sign_of(x: int) -> DecimalSign {
    if x < 0 {
        DecimalSign::Negative
    } else {
        DecimalSign::Positive
    }
}

pub open spec fn abs(x: int) -> nat {
    if x < 0 {
        (-x) as nat
    } else {
        x as nat
    }
}

/// Positive when the two signs agree, negative when they differ.
pub open spec fn product_sign(a: DecimalSign, b: DecimalSign) -> DecimalSign {
    if a == b {
        DecimalSign::Positive
    } else {
        DecimalSign::Negative
    }
}

pub open spec fn max_nat(a: nat, b: nat) -> nat {
    if a >= b {
        a
    } else {
        b
    }
}

impl DecimalComparison {
    pub open spec fn flipped(self) -> DecimalComparison {
        match self {
            DecimalComparison::GT => DecimalComparison::LT,
            DecimalComparison::EQ => DecimalComparison::EQ,
            DecimalComparison::LT => DecimalComparison::GT,
        }
    }

    /// The same comparison seen from the other operand.
    pub fn flip(self) -> (r: DecimalComparison)
        ensures
            r == self.flipped(),
    {
        match self {
            DecimalComparison::GT => DecimalComparison::LT,
            DecimalComparison::EQ => DecimalComparison::EQ,
            DecimalComparison::LT => DecimalComparison::GT,
        }
    }
}

impl DecimalPrecision {
    pub open spec fn wf(self) -> bool {
        self.value <= 38
    }

    /// The precision of the given count of digits, when it is at most 38.
    pub fn try_from_usize(value: usize) -> (r: Result<DecimalPrecision, DecimalError>)
        ensures
            value <= 38 ==> r == Ok::<DecimalPrecision, DecimalError>(
                DecimalPrecision { value: value as u8 },
            ),
            value > 38 ==> r == Err::<DecimalPrecision, DecimalError>(DecimalError::OverflowError),
    {
        if value <= 38 {
            Ok(DecimalPrecision { value: value as u8 })
        } else {
            Err(DecimalError::OverflowError)
        }
    }

    pub fn try_to_usize(value: DecimalPrecision) -> (r: Result<usize, ()>)
        ensures
            r == Ok::<usize, ()>(value.value as usize),
    {
        Ok(value.value as usize)
    }

    /// One more digit; fails past 38.
    pub fn inc(precision: DecimalPrecision) -> (r: Result<DecimalPrecision, DecimalError>)
        requires
            precision.wf(),
        ensures
            precision.value < 38 ==> r == Ok::<DecimalPrecision, DecimalError>(
                DecimalPrecision { value: (precision.value + 1) as u8 },
            ),
            precision.value >= 38 ==> r == Err::<DecimalPrecision, DecimalError>(
                DecimalError::OverflowError,
            ),
    {
        DecimalPrecision::try_from_usize(precision.value as usize + 1)
    }

    /// One digit fewer; fails below one digit.
    pub fn dec(precision: DecimalPrecision) -> (r: Result<DecimalPrecision, DecimalError>)
        requires
            precision.wf(),
        ensures
            precision.value > 1 ==> r == Ok::<DecimalPrecision, DecimalError>(
                DecimalPrecision { value: (precision.value - 1) as u8 },
            ),
            precision.value <= 1 ==> r == Err::<DecimalPrecision, DecimalError>(
                DecimalError::OverflowError,
            ),
    {
        if precision.value > 1 {
            Ok(DecimalPrecision { value: precision.value - 1 })
        } else {
            Err(DecimalError::OverflowError)
        }
    }
}

impl DecimalScale {
    pub open spec fn wf(self) -> bool {
        self.value <= 38
    }

    /// The scale of the given count of fraction digits, when it is at most 38.
    pub fn try_from_usize(value: usize) -> (r: Result<DecimalScale, DecimalError>)
        ensures
            value <= 38 ==> r == Ok::<DecimalScale, DecimalError>(
                DecimalScale { value: value as u8 },
            ),
            value > 38 ==> r == Err::<DecimalScale, DecimalError>(DecimalError::OverflowError),
    {
        if value <= 38 {
            Ok(DecimalScale { value: value as u8 })
        } else {
            Err(DecimalError::OverflowError)
        }
    }

    /// One more fraction digit; fails past 38.
    pub fn inc(scale: DecimalScale) -> (r: Result<DecimalScale, DecimalError>)
        requires
            scale.wf(),
        ensures
            scale.value < 38 ==> r == Ok::<DecimalScale, DecimalError>(
                DecimalScale { value: (scale.value + 1) as u8 },
            ),
            scale.value >= 38 ==> r == Err::<DecimalScale, DecimalError>(
                DecimalError::OverflowError,
            ),
    {
        DecimalScale::try_from_usize(scale.value as usize + 1)
    }

    /// One fraction digit fewer; fails below zero.
    pub fn dec(scale: DecimalScale) -> (r: Result<DecimalScale, DecimalError>)
        requires
            scale.wf(),
        ensures
            scale.value > 0 ==> r == Ok::<DecimalScale, DecimalError>(
                DecimalScale { value: (scale.value - 1) as u8 },
            ),
            scale.value == 0 ==> r == Err::<DecimalScale, DecimalError>(
                DecimalError::OverflowError,
            ),
    {
        if scale.value > 0 {
            Ok(DecimalScale { value: scale.value - 1 })
        } else {
            Err(DecimalError::OverflowError)
        }
    }

    /// The scale of a product: the sum of the two scales, when it is at most 38.
    pub fn add(self, rhs: DecimalScale) -> (r: Result<DecimalScale, DecimalError>)
        requires
            self.wf(),
            rhs.wf(),
        ensures
            self.value + rhs.value <= 38 ==> r == Ok::<DecimalScale, DecimalError>(
                DecimalScale { value: (self.value + rhs.value) as u8 },
            ),
            self.value + rhs.value > 38 ==> r == Err::<DecimalScale, DecimalError>(
                DecimalError::OverflowError,
            ),
    {
        DecimalScale::try_from_usize(self.value as usize + rhs.value as usize)
    }
}

/// The largest magnitude as limbs.
fn max_magnitude_limbs() -> (r: Magnitude)
    ensures
        r@ == max_magnitude(),
{
    Magnitude { limb0: 0xFFFF_FFFF, limb1: 0x098A_223F, limb2: 0x5A86_C47A, limb3: 0x4B3B_4CA8 }
}

/// Compares two magnitudes limb by limb from the most significant.
fn compare_magnitudes(a: &Magnitude, b: &Magnitude) -> (r: DecimalComparison)
    ensures
        r == cmp_int(a@ as int, b@ as int),
{
    if a.less_than(b) {
        DecimalComparison::LT
    } else if b.less_than(a) {
        DecimalComparison::GT
    } else {
        DecimalComparison::EQ
    }
}

/// Compares a 256-bit product with a magnitude.
fn compare_wide(w: &Wide, b: &Magnitude) -> (r: DecimalComparison)
    ensures
        r == cmp_int(w@ as int, b@ as int),
{
    if !w.high.is_zero() {
        proof {
            assert(w.high@ >= 1);
            assert(w@ >= w.high@ * 0x1_0000_0000_0000_0000_0000_0000_0000_0000);
            assert(b@ < 0x1_0000_0000_0000_0000_0000_0000_0000_0000);
        }
        DecimalComparison::GT
    } else {
        compare_magnitudes(&w.low, b)
    }
}

/// The product of two magnitudes, when it is at most 38 nines.
fn mul_within(a: &Magnitude, b: &Magnitude) -> (r: Option<Magnitude>)
    ensures
        r is Some <==> a@ * b@ <= max_magnitude(),
        r matches Some(m) ==> m@ == a@ * b@,
{
    let w = a.mul_wide(b);
    if !w.high.is_zero() {
        proof {
            assert(w.high@ >= 1);
            assert(w@ >= w.high@ * 0x1_0000_0000_0000_0000_0000_0000_0000_0000);
        }
        None
    } else if max_magnitude_limbs().less_than(&w.low) {
        None
    } else {
        Some(w.low)
    }
}

/// A magnitude multiplied by ten to the `k`, when the result is at most 38 nines.
fn rescale(m: &Magnitude, k: u8) -> (r: Option<Magnitude>)
    requires
        k <= 38,
    ensures
        r is Some <==> m@ * pow10(k as nat) <= max_magnitude(),
        r matches Some(x) ==> x@ == m@ * pow10(k as nat),
{
    mul_within(m, &pow10_magnitude(k as u32))
}

/// The integer quotient of two magnitudes by long division. The divisor is
/// scaled by successive powers of ten while it stays at most the numerator;
/// then, from the highest of those places down, each quotient digit is the
/// count of subtractions of the scaled divisor from the running remainder.
fn divide_magnitudes(n: &Magnitude, d: &Magnitude) -> (q: Magnitude)
    requires
        0 < d@,
        n@ <= max_magnitude(),
    ensures
        q@ == n@ / d@,
{
    let ten = Magnitude::from_u32(10);
    let mut places: Vec<Magnitude> = Vec::new();
    places.push(*d);
    let mut top: usize = 0;
    assert(pow10(0) == 1);
    loop
        invariant
            places.len() == top + 1,
            top <= 37,
            0 < d@,
            ten@ == 10,
            n@ <= max_magnitude(),
            forall|k: int| 0 <= k <= top ==> (#[trigger] places[k])@ == d@ * pow10(k as nat),
        ensures
            places.len() == top + 1,
            top <= 37,
            forall|k: int| 0 <= k <= top ==> (#[trigger] places[k])@ == d@ * pow10(k as nat),
            n@ < d@ * pow10((top + 1) as nat),
        decreases 37 - top,
    {
        let next = places[top].mul_wide(&ten);
        proof {
            assert(places[top as int]@ == d@ * pow10(top as nat));
            assert(ten@ == 10);
            assert(next@ == places[top as int]@ * ten@);
            assert(next@ == places[top as int]@ * 10);
            assert(pow10((top + 1) as nat) == 10 * pow10(top as nat));
            assert(d@ * pow10((top + 1) as nat) == (d@ * pow10(top as nat)) * 10)
                by (nonlinear_arith)
                requires
                    pow10((top + 1) as nat) == 10 * pow10(top as nat),
            ;
        }
        assert(next@ == d@ * pow10((top + 1) as nat));
        if !next.high.is_zero() {
            proof {
                assert(next.high@ >= 1);
                assert(next@ >= next.high@ * 0x1_0000_0000_0000_0000_0000_0000_0000_0000);
            }
            break ;
        }
        if n.less_than(&next.low) {
            break ;
        }
        proof {
            crate::magnitude::lemma_pow10_38();
            if top + 1 >= 38 {
                crate::magnitude::lemma_pow10_monotone(38, (top + 1) as nat);
            }
            assert(pow10((top + 1) as nat) <= d@ * pow10((top + 1) as nat)) by (nonlinear_arith)
                requires
                    d@ >= 1,
            ;
        }
        places.push(next.low);
        top = top + 1;
    }
    let mut rem = *n;
    let mut q = Magnitude::zero();
    let mut p: usize = top + 1;
    assert(n@ == q@ * (d@ * pow10(p as nat)) + rem@);
    while p > 0
        invariant
            p <= top + 1,
            places.len() == top + 1,
            0 < d@,
            n@ <= max_magnitude(),
            forall|k: int| 0 <= k <= top ==> (#[trigger] places[k])@ == d@ * pow10(k as nat),
            n@ == q@ * (d@ * pow10(p as nat)) + rem@,
            rem@ < d@ * pow10(p as nat),
        decreases p,
    {
        p = p - 1;
        let ghost old_q = q@;
        let ghost place = places[p as int]@;
        proof {
            assert(pow10((p + 1) as nat) == 10 * pow10(p as nat));
            assert(d@ * pow10((p + 1) as nat) == 10 * place) by (nonlinear_arith)
                requires
                    pow10((p + 1) as nat) == 10 * pow10(p as nat),
                    place == d@ * pow10(p as nat),
            ;
            crate::magnitude::lemma_pow10_monotone(0, p as nat);
            assert(place >= 1) by (nonlinear_arith)
                requires
                    place == d@ * pow10(p as nat),
                    d@ >= 1,
                    pow10(p as nat) >= 1,
            ;
        }
        let (digit, r2) = crate::magnitude::extract_digit(&rem, &places[p]);
        proof {
            assert(rem@ == digit * place + r2@) by {
                vstd::arithmetic::div_mod::lemma_fundamental_div_mod(rem@ as int, place as int);
            }
            assert(n@ == (old_q * 10 + digit) * place + r2@) by (nonlinear_arith)
                requires
                    n@ == old_q * (10 * place) + rem@,
                    rem@ == digit * place + r2@,
            ;
            assert(old_q * 10 + digit <= n@) by (nonlinear_arith)
                requires
                    n@ == (old_q * 10 + digit) * place + r2@,
                    place >= 1,
                    r2@ >= 0,
                    old_q >= 0,
                    digit >= 0,
            ;
        }
        q = q.mul10_add(digit);
        rem = r2;
    }
    proof {
        assert(pow10(0) == 1);
        assert(d@ * pow10(0) == d@);
        vstd::arithmetic::div_mod::lemma_fundamental_div_mod_converse(
            n@ as int,
            d@ as int,
            q@ as int,
            rem@ as int,
        );
    }
    q
}

impl Decimal {
    /// The magnitude the four limbs hold.
    pub open spec fn mag(&self) -> nat {
        limbs_value(self.part_0, self.part_1, self.part_2, self.part_3)
    }

    /// A well-formed decimal: magnitude at most 38 nines, scale and precision at
    /// most 38, and zero only as the canonical zero (positive, precision 0, scale 0).
    pub open spec fn wf(&self) -> bool {
        &&& self.mag() <= max_magnitude()
        &&& self.precision.wf()
        &&& self.scale.wf()
        &&& self.mag() == 0 ==> (self.sign == DecimalSign::Positive && self.precision.value == 0
            && self.scale.value == 0)
    }

    /// The magnitude written at scale `s`, for `s` at least the decimal's scale.
    pub open spec fn mag_at(&self, s: nat) -> nat {
        self.mag() * pow10((s - self.scale.value) as nat)
    }

    /// The signed value written at scale `s`: the value times ten to the `s`.
    pub open spec fn value_at(&self, s: nat) -> int {
        if self.sign == DecimalSign::Negative {
            -(self.mag_at(s) as int)
        } else {
            self.mag_at(s) as int
        }
    }

    /// The signed magnitude, without regard to scale.
    pub open spec fn signed_mag(&self) -> int {
        if self.sign == DecimalSign::Negative {
            -(self.mag() as int)
        } else {
            self.mag() as int
        }
    }

    /// Whether this decimal is what canonicalization makes of these parts: the
    /// parts themselves, or the canonical zero when the magnitude is zero.
    pub open spec fn holds(&self, sign: DecimalSign, precision: nat, scale: nat, m: nat) -> bool {
        &&& self.mag() == m
        &&& if m == 0 {
            self.sign == DecimalSign::Positive && self.precision.value == 0 && self.scale.value
                == 0
        } else {
            self.sign == sign && self.precision.value == precision && self.scale.value == scale
        }
    }

    /// The decimal of the given parts after canonicalization: the parts
    /// themselves, the magnitude split into limbs, or the canonical zero when
    /// the magnitude is zero.
    pub open spec fn decimal_of(sign: DecimalSign, precision: nat, scale: nat, m: nat) -> Decimal {
        if m == 0 {
            Decimal {
                sign: DecimalSign::Positive,
                precision: DecimalPrecision { value: 0 },
                scale: DecimalScale { value: 0 },
                part_0: 0,
                part_1: 0,
                part_2: 0,
                part_3: 0,
            }
        } else {
            Decimal {
                sign,
                precision: DecimalPrecision { value: precision as u8 },
                scale: DecimalScale { value: scale as u8 },
                part_0: (m % 0x1_0000_0000) as u32,
                part_1: ((m / 0x1_0000_0000) % 0x1_0000_0000) as u32,
                part_2: ((m / 0x1_0000_0000 / 0x1_0000_0000) % 0x1_0000_0000) as u32,
                part_3: (m / 0x1_0000_0000 / 0x1_0000_0000 / 0x1_0000_0000) as u32,
            }
        }
    }

    /// The canonical zero.
    pub open spec fn spec_zero() -> Decimal {
        Decimal::decimal_of(DecimalSign::Positive, 0, 0, 0)
    }

    /// The decimal with the opposite sign; zero stays the canonical zero.
    pub open spec fn negated(d: Decimal) -> Decimal {
        Decimal::decimal_of(
            if d.sign == DecimalSign::Positive {
                DecimalSign::Negative
            } else {
                DecimalSign::Positive
            },
            d.precision.value as nat,
            d.scale.value as nat,
            d.mag(),
        )
    }

    /// The result of `a.compare(&b)`: the order of the signed values, written
    /// at the common scale.
    pub open spec fn compare_result(a: Decimal, b: Decimal) -> DecimalComparison {
        let m = Decimal::common_scale(a, b);
        cmp_int(a.value_at(m), b.value_at(m))
    }

    /// The larger of two scales: the one at which two decimals are compared,
    /// added and subtracted.
    pub open spec fn common_scale(a: Decimal, b: Decimal) -> nat {
        max_nat(a.scale.value as nat, b.scale.value as nat)
    }

    fn limbs(&self) -> (r: Magnitude)
        ensures
            r@ == self.mag(),
    {
        Magnitude {
            limb0: self.part_0,
            limb1: self.part_1,
            limb2: self.part_2,
            limb3: self.part_3,
        }
    }

    fn from_magnitude(
        sign: DecimalSign,
        precision: DecimalPrecision,
        scale: DecimalScale,
        m: Magnitude,
    ) -> (r: Decimal)
        requires
            m@ <= max_magnitude(),
            precision.wf(),
            scale.wf(),
        ensures
            r.wf(),
            r.holds(sign, precision.value as nat, scale.value as nat, m@),
            r == Decimal::decimal_of(sign, precision.value as nat, scale.value as nat, m@),
    {
        Decimal::new(sign, precision, scale, m.limb0, m.limb1, m.limb2, m.limb3)
    }

    /// A decimal of the given parts; a zero magnitude gives the canonical zero.
    pub fn new(
        sign: DecimalSign,
        precision: DecimalPrecision,
        scale: DecimalScale,
        part_0: u32,
        part_1: u32,
        part_2: u32,
        part_3: u32,
    ) -> (r: Decimal)
        requires
            limbs_value(part_0, part_1, part_2, part_3) <= max_magnitude(),
            precision.wf(),
            scale.wf(),
        ensures
            r.wf(),
            r.holds(
                sign,
                precision.value as nat,
                scale.value as nat,
                limbs_value(part_0, part_1, part_2, part_3),
            ),
            r == Decimal::decimal_of(
                sign,
                precision.value as nat,
                scale.value as nat,
                limbs_value(part_0, part_1, part_2, part_3),
            ),
    {
        proof {
            crate::magnitude::lemma_limbs_unique(part_0, part_1, part_2, part_3);
        }
        if part_0 == 0 && part_1 == 0 && part_2 == 0 && part_3 == 0 {
            Decimal {
                sign: DecimalSign::Positive,
                precision: DecimalPrecision { value: 0 },
                scale: DecimalScale { value: 0 },
                part_0,
                part_1,
                part_2,
                part_3,
            }
        } else {
            Decimal { sign, precision, scale, part_0, part_1, part_2, part_3 }
        }
    }

    /// Whether the decimal is well formed (see `wf`).
    pub fn is_well_formed(&self) -> (r: bool)
        ensures
            r == self.wf(),
    {
        let m = self.limbs();
        let within = !max_magnitude_limbs().less_than(&m);
        let canonical = !m.is_zero() || (self.sign == DecimalSign::Positive && self.precision.value
            == 0 && self.scale.value == 0);
        within && self.precision.value <= 38 && self.scale.value <= 38 && canonical
    }

    /// The canonical zero: positive, precision 0, scale 0.
    pub fn zero() -> (r: Decimal)
        ensures
            r.wf(),
            r == Decimal::spec_zero(),
    {
        Decimal {
            sign: DecimalSign::Positive,
            precision: DecimalPrecision { value: 0 },
            scale: DecimalScale { value: 0 },
            part_0: 0,
            part_1: 0,
            part_2: 0,
            part_3: 0,
        }
    }

    pub fn to_parts(&self) -> (r: DecimalParts)
        ensures
            r == (
                self.sign,
                self.precision,
                self.scale,
                self.part_0,
                self.part_1,
                self.part_2,
                self.part_3,
            ),
    {
        (self.sign, self.precision, self.scale, self.part_0, self.part_1, self.part_2, self.part_3)
    }

    /// The same decimal with the opposite sign; zero stays the canonical zero.
    pub fn negate(&self) -> (r: Decimal)
        requires
            self.wf(),
        ensures
            r.wf(),
            r.holds(
                if self.sign == DecimalSign::Positive {
                    DecimalSign::Negative
                } else {
                    DecimalSign::Positive
                },
                self.precision.value as nat,
                self.scale.value as nat,
                self.mag(),
            ),
            r == Decimal::negated(*self),
    {
        let sign = match self.sign {
            DecimalSign::Positive => DecimalSign::Negative,
            DecimalSign::Negative => DecimalSign::Positive,
        };
        Decimal::from_magnitude(sign, self.precision, self.scale, self.limbs())
    }

    /// What adding or subtracting `a` and `b` gives, where `sum` is the signed
    /// result of their values written at the common scale: an overflow error
    /// when either operand's magnitude at that scale, or the result's, exceeds
    /// 38 nines; otherwise the result at the common scale, with the larger of
    /// the two precisions.
    pub open spec fn sum_result(a: Decimal, b: Decimal, sum: int) -> Result<Decimal, DecimalError> {
        let m = Decimal::common_scale(a, b);
        if a.mag_at(m) > max_magnitude() || b.mag_at(m) > max_magnitude() || abs(sum)
            > max_magnitude() {
            Err(DecimalError::OverflowError)
        } else {
            Ok(
                Decimal::decimal_of(
                    sign_of(sum),
                    max_nat(a.precision.value as nat, b.precision.value as nat),
                    m,
                    abs(sum),
                ),
            )
        }
    }

    /// The result of `a.add(&b)`.
    pub open spec fn add_result(a: Decimal, b: Decimal) -> Result<Decimal, DecimalError> {
        let m = Decimal::common_scale(a, b);
        Decimal::sum_result(a, b, a.value_at(m) + b.value_at(m))
    }

    /// The result of `a.sub(&b)`.
    pub open spec fn sub_result(a: Decimal, b: Decimal) -> Result<Decimal, DecimalError> {
        let m = Decimal::common_scale(a, b);
        Decimal::sum_result(a, b, a.value_at(m) - b.value_at(m))
    }

    /// Compares the magnitudes, ignoring sign; operands of different scales are
    /// compared at the larger scale.
    pub fn compare_modulo(&self, rhs: &Decimal) -> (r: DecimalComparison)
        requires
            self.wf(),
            rhs.wf(),
        ensures
            r == cmp_int(
                self.mag_at(Decimal::common_scale(*self, *rhs)) as int,
                rhs.mag_at(Decimal::common_scale(*self, *rhs)) as int,
            ),
    {
        let a = self.limbs();
        let b = rhs.limbs();
        let sa = self.scale.value;
        let sb = rhs.scale.value;
        let ghost m = Decimal::common_scale(*self, *rhs);
        assert(pow10(0) == 1);
        if sa == sb {
            assert(self.mag_at(m) == self.mag() * 1 && rhs.mag_at(m) == rhs.mag() * 1);
            compare_magnitudes(&a, &b)
        } else if sa < sb {
            assert(rhs.mag_at(m) == rhs.mag() * 1);
            let w = a.mul_wide(&pow10_magnitude((sb - sa) as u32));
            compare_wide(&w, &b)
        } else {
            assert(self.mag_at(m) == self.mag() * 1);
            let w = b.mul_wide(&pow10_magnitude((sa - sb) as u32));
            compare_wide(&w, &a).flip()
        }
    }

    /// Compares the signed values; operands of different scales are compared at
    /// the larger scale.
    pub fn compare(&self, rhs: &Decimal) -> (r: DecimalComparison)
        requires
            self.wf(),
            rhs.wf(),
        ensures
            r == Decimal::compare_result(*self, *rhs),
    {
        let ghost m = Decimal::common_scale(*self, *rhs);
        proof {
            lemma_mag_at_positive(*self, m);
            lemma_mag_at_positive(*rhs, m);
        }
        match (self.sign, rhs.sign) {
            (DecimalSign::Positive, DecimalSign::Negative) => DecimalComparison::GT,
            (DecimalSign::Negative, DecimalSign::Positive) => DecimalComparison::LT,
            (DecimalSign::Positive, DecimalSign::Positive) => self.compare_modulo(rhs),
            (DecimalSign::Negative, DecimalSign::Negative) => self.compare_modulo(rhs).flip(),
        }
    }

    /// Signed addition. Operands of different scales are first brought to the
    /// larger scale; then equal signs add the magnitudes and keep the sign, and
    /// opposite signs take the smaller magnitude from the larger and keep the
    /// sign of the larger.
    pub fn add(&self, rhs: &Decimal) -> (r: Result<Decimal, DecimalError>)
        requires
            self.wf(),
            rhs.wf(),
        ensures
            r == Decimal::add_result(*self, *rhs),
            r matches Ok(d) ==> d.wf(),
    {
        let ghost m = Decimal::common_scale(*self, *rhs);
        let sa = self.scale.value;
        let sb = rhs.scale.value;
        let scale = if sa >= sb {
            self.scale
        } else {
            rhs.scale
        };
        let precision = if self.precision.value >= rhs.precision.value {
            self.precision
        } else {
            rhs.precision
        };
        let a = match rescale(&self.limbs(), scale.value - sa) {
            Some(x) => x,
            None => {
                return Err(DecimalError::OverflowError);
            },
        };
        let b = match rescale(&rhs.limbs(), scale.value - sb) {
            Some(x) => x,
            None => {
                return Err(DecimalError::OverflowError);
            },
        };
        assert(a@ == self.mag_at(m) && b@ == rhs.mag_at(m));
        if self.sign == rhs.sign {
            let (sum, carry) = a.add(&b);
            if carry || max_magnitude_limbs().less_than(&sum) {
                return Err(DecimalError::OverflowError);
            }
            Ok(Decimal::from_magnitude(self.sign, precision, scale, sum))
        } else {
            match compare_magnitudes(&a, &b) {
                DecimalComparison::LT => {
                    let (diff, _) = b.sub(&a);
                    Ok(Decimal::from_magnitude(rhs.sign, precision, scale, diff))
                },
                _ => {
                    let (diff, _) = a.sub(&b);
                    Ok(Decimal::from_magnitude(self.sign, precision, scale, diff))
                },
            }
        }
    }

    /// Signed subtraction: the sum of `self` and the negation of `rhs`.
    pub fn sub(&self, rhs: &Decimal) -> (r: Result<Decimal, DecimalError>)
        requires
            self.wf(),
            rhs.wf(),
        ensures
            r == Decimal::sub_result(*self, *rhs),
            r matches Ok(d) ==> d.wf(),
    {
        let neg = rhs.negate();
        proof {
            let m = Decimal::common_scale(*self, *rhs);
            if rhs.mag() == 0 {
                assert(neg == *rhs);
            }
            assert(neg.scale == rhs.scale && neg.precision == rhs.precision);
            assert(Decimal::common_scale(*self, neg) == m);
            assert(neg.mag_at(m) == rhs.mag_at(m));
            assert(neg.value_at(m) == -rhs.value_at(m));
        }
        self.add(&neg)
    }

    /// The result of `a.mul(&b)`: an overflow error when the product of the
    /// magnitudes exceeds 38 nines or the sum of the scales exceeds 38;
    /// otherwise that product at that scale, positive when the signs agree, with
    /// precision 38.
    pub open spec fn mul_result(a: Decimal, b: Decimal) -> Result<Decimal, DecimalError> {
        if a.mag() * b.mag() > max_magnitude() || a.scale.value + b.scale.value > 38 {
            Err(DecimalError::OverflowError)
        } else {
            Ok(
                Decimal::decimal_of(
                    product_sign(a.sign, b.sign),
                    38,
                    (a.scale.value + b.scale.value) as nat,
                    a.mag() * b.mag(),
                ),
            )
        }
    }

    /// Signed multiplication: the product of the magnitudes at the sum of the
    /// scales, positive when the signs agree. The result records precision 38.
    pub fn mul(&self, rhs: &Decimal) -> (r: Result<Decimal, DecimalError>)
        requires
            self.wf(),
            rhs.wf(),
        ensures
            r == Decimal::mul_result(*self, *rhs),
            r matches Ok(d) ==> d.wf(),
    {
        let product = match mul_within(&self.limbs(), &rhs.limbs()) {
            Some(m) => m,
            None => {
                return Err(DecimalError::OverflowError);
            },
        };
        let scale = match self.scale.add(rhs.scale) {
            Ok(s) => s,
            Err(e) => {
                return Err(e);
            },
        };
        let sign = if self.sign == rhs.sign {
            DecimalSign::Positive
        } else {
            DecimalSign::Negative
        };
        Ok(Decimal::from_magnitude(sign, DecimalPrecision { value: MAX_DIGITS }, scale, product))
    }

    /// The numerator that division works on: the dividend's magnitude, brought
    /// to the divisor's scale when that is the larger.
    pub open spec fn div_numerator(a: Decimal, b: Decimal) -> nat {
        if a.scale.value >= b.scale.value {
            a.mag()
        } else {
            a.mag() * pow10((b.scale.value - a.scale.value) as nat)
        }
    }

    /// The scale of a quotient: the dividend's scale less the divisor's, or 0.
    pub open spec fn div_scale(a: Decimal, b: Decimal) -> nat {
        if a.scale.value >= b.scale.value {
            (a.scale.value - b.scale.value) as nat
        } else {
            0
        }
    }

    /// The result of `a.div(&b)`: a division-by-zero error for a zero divisor,
    /// an overflow error when `div_numerator` exceeds 38 nines, and otherwise
    /// its integer quotient by the divisor's magnitude at `div_scale`, positive
    /// when the signs agree, with precision 38.
    pub open spec fn div_result(a: Decimal, b: Decimal) -> Result<Decimal, DecimalError> {
        if b.mag() == 0 {
            Err(DecimalError::DivideByZeroError)
        } else if Decimal::div_numerator(a, b) > max_magnitude() {
            Err(DecimalError::OverflowError)
        } else {
            Ok(
                Decimal::decimal_of(
                    product_sign(a.sign, b.sign),
                    38,
                    Decimal::div_scale(a, b),
                    Decimal::div_numerator(a, b) / b.mag(),
                ),
            )
        }
    }

    /// Signed division, truncated toward zero at the scale `div_scale`: the
    /// integer quotient of `div_numerator` by the divisor's magnitude, found
    /// digit by digit by long division. Positive when the signs agree; the result
    /// records precision 38.
    pub fn div(&self, rhs: &Decimal) -> (r: Result<Decimal, DecimalError>)
        requires
            self.wf(),
            rhs.wf(),
        ensures
            r == Decimal::div_result(*self, *rhs),
            r matches Ok(d) ==> d.wf(),
    {
        let d = rhs.limbs();
        if d.is_zero() {
            return Err(DecimalError::DivideByZeroError);
        }
        let sa = self.scale.value;
        let sb = rhs.scale.value;
        let (numerator, scale) = if sa >= sb {
            (self.limbs(), sa - sb)
        } else {
            match rescale(&self.limbs(), sb - sa) {
                Some(x) => (x, 0),
                None => {
                    return Err(DecimalError::OverflowError);
                },
            }
        };
        let q = divide_magnitudes(&numerator, &d);
        let sign = if self.sign == rhs.sign {
            DecimalSign::Positive
        } else {
            DecimalSign::Negative
        };
        Ok(
            Decimal::from_magnitude(
                sign,
                DecimalPrecision { value: MAX_DIGITS },
                DecimalScale { value: scale },
                q,
            ),
        )
    }

    /// The same value written at the given larger or equal scale: the magnitude
    /// times ten to the difference of the scales.
    pub fn normalize(&self, scale: DecimalScale) -> (r: Result<Decimal, DecimalError>)
        requires
            self.wf(),
            scale.wf(),
            self.scale.value <= scale.value,
        ensures
            self.mag_at(scale.value as nat) > max_magnitude() ==> r == Err::<Decimal, DecimalError>(
                DecimalError::OverflowError,
            ),
            self.mag_at(scale.value as nat) <= max_magnitude() ==> {
                &&& r is Ok
                &&& r->Ok_0.wf()
                &&& r->Ok_0 == Decimal::decimal_of(
                    self.sign,
                    self.precision.value as nat,
                    scale.value as nat,
                    self.mag_at(scale.value as nat),
                )
            },
    {
        match rescale(&self.limbs(), scale.value - self.scale.value) {
            Some(m) => Ok(Decimal::from_magnitude(self.sign, self.precision, scale, m)),
            None => Err(DecimalError::OverflowError),
        }
    }

    /// The value times ten: one fraction digit fewer when there is one, else the
    /// magnitude times ten.
    pub fn mul_10(&self) -> (r: Result<Decimal, DecimalError>)
        requires
            self.wf(),
        ensures
            self.scale.value > 0 ==> r == Ok::<Decimal, DecimalError>(
                Decimal { scale: DecimalScale { value: (self.scale.value - 1) as u8 }, ..*self },
            ),
            self.scale.value == 0 && self.mag() * 10 > max_magnitude() ==> r == Err::<
                Decimal,
                DecimalError,
            >(DecimalError::OverflowError),
            self.scale.value == 0 && self.mag() * 10 <= max_magnitude() ==> {
                &&& r is Ok
                &&& r->Ok_0.wf()
                &&& r->Ok_0 == Decimal::decimal_of(self.sign, self.precision.value as nat, 0, self.mag() * 10)
            },
    {
        if self.scale.value > 0 {
            Ok(Decimal { scale: DecimalScale { value: self.scale.value - 1 }, ..*self })
        } else {
            match rescale(&self.limbs(), 1) {
                Some(m) => {
                    assert(pow10(1) == 10) by {
                        reveal_with_fuel(pow10, 2);
                    }
                    Ok(Decimal::from_magnitude(self.sign, self.precision, self.scale, m))
                },
                None => {
                    assert(pow10(1) == 10) by {
                        reveal_with_fuel(pow10, 2);
                    }
                    Err(DecimalError::OverflowError)
                },
            }
        }
    }

    /// The value divided by ten: one more fraction digit; fails past scale 38.
    pub fn div_10(&self) -> (r: Result<Decimal, DecimalError>)
        requires
            self.wf(),
        ensures
            self.scale.value < 38 ==> {
                &&& r is Ok
                &&& r->Ok_0.wf()
                &&& r->Ok_0 == Decimal::decimal_of(
                    self.sign,
                    self.precision.value as nat,
                    (self.scale.value + 1) as nat,
                    self.mag(),
                )
            },
            self.scale.value >= 38 ==> r == Err::<Decimal, DecimalError>(
                DecimalError::OverflowError,
            ),
    {
        match DecimalScale::inc(self.scale) {
            Ok(scale) => Ok(Decimal::from_magnitude(self.sign, self.precision, scale, self.limbs())),
            Err(e) => Err(e),
        }
    }
}

/// A nonzero magnitude stays nonzero at any larger scale.
pub proof fn lemma_mag_at_positive(d: Decimal, s: nat)
    requires
        d.scale.value <= s,
    ensures
        d.mag() > 0 ==> d.mag_at(s) > 0,
        d.mag() <= d.mag_at(s),
{
    crate::magnitude::lemma_pow10_monotone(0, (s - d.scale.value) as nat);
    let p = pow10((s - d.scale.value) as nat);
    assert(d.mag() <= d.mag() * p) by (nonlinear_arith)
        requires
            p >= 1,
    ;
}

} // verus!
