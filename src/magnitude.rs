//! Unsigned 128-bit magnitudes held as four 32-bit limbs, least significant
//! first, with the limb-level carry, borrow and multiply primitives.
use vstd::arithmetic::div_mod::lemma_fundamental_div_mod_converse as converse;
use vstd::prelude::*;

verus! {

/// Two to the 32nd: the weight of one limb position.
#[verifier::inline]
pub open spec fn limb_base() -> nat {
    0x1_0000_0000
}

/// Two to the 128th: one past the largest magnitude four limbs can hold.
#[verifier::inline]
pub open spec fn wide_base() -> nat {
    0xffff_ffff_ffff_ffff_ffff_ffff_ffff_ffff + 1
}

/// The number that four limbs denote, least significant limb first.
pub open spec fn limbs_value(l0: u32, l1: u32, l2: u32, l3: u32) -> nat {
    (l0 + l1 * 0x1_0000_0000 + l2 * 0x1_0000_0000_0000_0000 + l3
        * 0x1_0000_0000_0000_0000_0000_0000) as nat
}

#[verifier::inline]
pub open spec fn bool_nat(b: bool) -> nat {
    if b {
        1
    } else {
        0
    }
}

/// An unsigned 128-bit integer as four 32-bit limbs, least significant first.
#[derive(Clone, Copy, Debug, PartialEq, Eq, Structural)]
pub struct Magnitude {
    pub limb0: u32,
    pub limb1: u32,
    pub limb2: u32,
    pub limb3: u32,
}

impl View for Magnitude {
    type V = nat;

    open spec fn view(&self) -> nat {
        limbs_value(self.limb0, self.limb1, self.limb2, self.limb3)
    }
}

/// Adds two limbs and an incoming carry; returns the low limb and the carry out.
pub fn carrying_add(a: u32, b: u32, carry: bool) -> (r: (u32, bool))
    ensures
        r.0 + bool_nat(r.1) * limb_base() == a + b + bool_nat(carry),
{
    let c: u64 = if carry {
        1
    } else {
        0
    };
    let s: u64 = a as u64 + b as u64 + c;
    if s >= 0x1_0000_0000 {
        ((s - 0x1_0000_0000) as u32, true)
    } else {
        (s as u32, false)
    }
}

/// Subtracts a limb and an incoming borrow from a limb; returns the low limb and
/// whether a borrow from the next limb was needed.
pub fn borrowing_sub(a: u32, b: u32, borrow: bool) -> (r: (u32, bool))
    ensures
        r.0 - bool_nat(r.1) * limb_base() == a - b - bool_nat(borrow),
{
    let c: u64 = if borrow {
        1
    } else {
        0
    };
    let need: u64 = b as u64 + c;
    if (a as u64) < need {
        ((a as u64 + 0x1_0000_0000 - need) as u32, true)
    } else {
        ((a as u64 - need) as u32, false)
    }
}

/// Multiplies two limbs and adds an incoming carry limb; returns the low and the
/// high limb of the 64-bit result.
pub fn carrying_mul(a: u32, b: u32, carry: u32) -> (r: (u32, u32))
    ensures
        r.0 + r.1 * limb_base() == a * b + carry,
{
    proof {
        assert(a * b <= 0xffff_ffff * 0xffff_ffff) by (nonlinear_arith)
            requires
                a <= 0xffff_ffff,
                b <= 0xffff_ffff,
                0 <= a,
                0 <= b,
        ;
    }
    let p: u64 = a as u64 * b as u64 + carry as u64;
    let lo: u64 = p % 0x1_0000_0000;
    let hi: u64 = p / 0x1_0000_0000;
    (lo as u32, hi as u32)
}

impl Magnitude {
    pub fn zero() -> (r: Magnitude)
        ensures
            r@ == 0,
    {
        Magnitude { limb0: 0, limb1: 0, limb2: 0, limb3: 0 }
    }

    /// A magnitude that holds one limb.
    pub fn from_u32(v: u32) -> (r: Magnitude)
        ensures
            r@ == v,
    {
        Magnitude { limb0: v, limb1: 0, limb2: 0, limb3: 0 }
    }

    pub fn is_zero(&self) -> (r: bool)
        ensures
            r == (self@ == 0),
    {
        self.limb0 == 0 && self.limb1 == 0 && self.limb2 == 0 && self.limb3 == 0
    }

    /// Whether `self` is less than `other`, limb by limb from the most significant.
    pub fn less_than(&self, other: &Magnitude) -> (r: bool)
        ensures
            r == (self@ < other@),
    {
        if self.limb3 != other.limb3 {
            self.limb3 < other.limb3
        } else if self.limb2 != other.limb2 {
            self.limb2 < other.limb2
        } else if self.limb1 != other.limb1 {
            self.limb1 < other.limb1
        } else {
            self.limb0 < other.limb0
        }
    }

    /// 128-bit addition by four chained limb additions; the flag is the carry out
    /// of the top limb.
    pub fn add(&self, other: &Magnitude) -> (r: (Magnitude, bool))
        ensures
            r.0@ + bool_nat(r.1) * wide_base() == self@ + other@,
    {
        self.add_with_carry(other, false)
    }

    /// 128-bit addition with an incoming carry into the lowest limb.
    pub fn add_with_carry(&self, other: &Magnitude, carry: bool) -> (r: (Magnitude, bool))
        ensures
            r.0@ + bool_nat(r.1) * wide_base() == self@ + other@ + bool_nat(carry),
    {
        let (s0, c0) = carrying_add(self.limb0, other.limb0, carry);
        let (s1, c1) = carrying_add(self.limb1, other.limb1, c0);
        let (s2, c2) = carrying_add(self.limb2, other.limb2, c1);
        let (s3, c3) = carrying_add(self.limb3, other.limb3, c2);
        (Magnitude { limb0: s0, limb1: s1, limb2: s2, limb3: s3 }, c3)
    }

    /// 128-bit subtraction by four chained limb subtractions; the flag is the
    /// borrow out of the top limb, set exactly when `other` exceeds `self`.
    pub fn sub(&self, other: &Magnitude) -> (r: (Magnitude, bool))
        ensures
            r.0@ - bool_nat(r.1) * wide_base() == self@ - other@,
            r.1 == (self@ < other@),
    {
        let (d0, b0) = borrowing_sub(self.limb0, other.limb0, false);
        let (d1, b1) = borrowing_sub(self.limb1, other.limb1, b0);
        let (d2, b2) = borrowing_sub(self.limb2, other.limb2, b1);
        let (d3, b3) = borrowing_sub(self.limb3, other.limb3, b2);
        proof {
            assert(d0 + d1 * 0x1_0000_0000 - bool_nat(b1) * 0x1_0000_0000_0000_0000 == self.limb0
                + self.limb1 * 0x1_0000_0000 - other.limb0 - other.limb1 * 0x1_0000_0000);
            assert(d0 + d1 * 0x1_0000_0000 + d2 * 0x1_0000_0000_0000_0000 - bool_nat(b2)
                * 0x1_0000_0000_0000_0000_0000_0000 == self.limb0 + self.limb1 * 0x1_0000_0000
                + self.limb2 * 0x1_0000_0000_0000_0000 - other.limb0 - other.limb1 * 0x1_0000_0000
                - other.limb2 * 0x1_0000_0000_0000_0000);
            let r = Magnitude { limb0: d0, limb1: d1, limb2: d2, limb3: d3 };
            assert(r@ - bool_nat(b3) * wide_base() == self@ - other@);
            assert(b3 == (self@ < other@));
        }
        (Magnitude { limb0: d0, limb1: d1, limb2: d2, limb3: d3 }, b3)
    }
}

/// Ten to the power `n`.
pub open spec fn pow10(n: nat) -> nat
    decreases n,
{
    if n == 0 {
        1
    } else {
        10 * pow10((n - 1) as nat)
    }
}

/// Powers of ten grow with the exponent and stay positive.
pub proof fn lemma_pow10_monotone(a: nat, b: nat)
    requires
        a <= b,
    ensures
        1 <= pow10(a) <= pow10(b),
    decreases b,
{
    if b > a {
        lemma_pow10_monotone(a, (b - 1) as nat);
    } else if a > 0 {
        lemma_pow10_monotone((a - 1) as nat, (a - 1) as nat);
    }
}

/// Ten to a sum is the product of the powers.
pub proof fn lemma_pow10_add(a: nat, b: nat)
    ensures
        pow10(a + b) == pow10(a) * pow10(b),
    decreases a,
{
    if a > 0 {
        let a1 = (a - 1) as nat;
        lemma_pow10_add(a1, b);
        assert(pow10(a + b) == 10 * pow10(a1 + b));
        let x = pow10(a1);
        let y = pow10(b);
        assert(pow10(a) == 10 * x);
        assert(pow10(a) * y == 10 * (x * y)) by (nonlinear_arith)
            requires
                pow10(a) == 10 * x,
        ;
    } else {
        assert(pow10(a) == 1);
        assert(pow10(a) * pow10(b) == pow10(b));
        assert(a + b == b);
    }
}

/// The powers of ten that four limbs can hold: up to ten to the 38th.
pub proof fn lemma_pow10_38()
    ensures
        pow10(38) == 100_000_000_000_000_000_000_000_000_000_000_000_000,
        pow10(38) < wide_base(),
{
    reveal_with_fuel(pow10, 39);
}

/// A 256-bit unsigned integer as eight limbs, least significant first: the
/// full width of a product of two magnitudes.
pub struct Wide {
    pub low: Magnitude,
    pub high: Magnitude,
}

impl View for Wide {
    type V = nat;

    open spec fn view(&self) -> nat {
        self.low@ + self.high@ * wide_base()
    }
}

/// Multiplies a magnitude by one limb: five limbs, least significant first.
fn mul_row(a: u32, b: &Magnitude) -> (r: (u32, u32, u32, u32, u32))
    ensures
        limbs_value(r.0, r.1, r.2, r.3) + r.4 * wide_base() == a * b@,
{
    let (m0, c0) = carrying_mul(a, b.limb0, 0);
    let (m1, c1) = carrying_mul(a, b.limb1, c0);
    let (m2, c2) = carrying_mul(a, b.limb2, c1);
    let (m3, c3) = carrying_mul(a, b.limb3, c2);
    proof {
        let (b0, b1, b2, b3) = (b.limb0 as int, b.limb1 as int, b.limb2 as int, b.limb3 as int);
        let a = a as int;
        assert(a * (b0 + b1 * 0x1_0000_0000 + b2 * 0x1_0000_0000_0000_0000 + b3
            * 0x1_0000_0000_0000_0000_0000_0000) == a * b0 + (a * b1) * 0x1_0000_0000 + (a * b2)
            * 0x1_0000_0000_0000_0000 + (a * b3) * 0x1_0000_0000_0000_0000_0000_0000)
            by (nonlinear_arith);
        assert(m0 + m1 * 0x1_0000_0000 + c1 * 0x1_0000_0000_0000_0000 == a * b0 + (a * b1)
            * 0x1_0000_0000);
        assert(m0 + m1 * 0x1_0000_0000 + m2 * 0x1_0000_0000_0000_0000 + c2
            * 0x1_0000_0000_0000_0000_0000_0000 == a * b0 + (a * b1) * 0x1_0000_0000 + (a * b2)
            * 0x1_0000_0000_0000_0000);
        assert(m0 + m1 * 0x1_0000_0000 + m2 * 0x1_0000_0000_0000_0000 + m3
            * 0x1_0000_0000_0000_0000_0000_0000 + c3 * 0x1_0000_0000_0000_0000_0000_0000_0000_0000
            == a * b0 + (a * b1) * 0x1_0000_0000 + (a * b2) * 0x1_0000_0000_0000_0000 + (a * b3)
            * 0x1_0000_0000_0000_0000_0000_0000);
    }
    (m0, m1, m2, m3, c3)
}

impl Wide {
    /// 256-bit addition; the flag is the carry out of the top limb.
    fn add(&self, other: &Wide) -> (r: (Wide, bool))
        ensures
            r.0@ + bool_nat(r.1) * (wide_base() * wide_base()) == self@ + other@,
    {
        let (low, c) = self.low.add(&other.low);
        let (high, c2) = self.high.add_with_carry(&other.high, c);
        proof {
            let w = wide_base() as int;
            let (h, sh, oh, cc, cc2) = (
                high@ as int,
                self.high@ as int,
                other.high@ as int,
                bool_nat(c) as int,
                bool_nat(c2) as int,
            );
            assert(h * w + cc2 * (w * w) == (sh + oh + cc) * w) by (nonlinear_arith)
                requires
                    h + cc2 * w == sh + oh + cc,
            ;
            assert(low@ + cc * w == self.low@ + other.low@);
            assert((sh + oh + cc) * w == sh * w + oh * w + cc * w) by (nonlinear_arith);
        }
        (Wide { low, high }, c2)
    }
}

impl Magnitude {
    /// The full 256-bit product of two magnitudes, by schoolbook multiplication:
    /// one row of limb products per limb of `self`, added at its offset.
    pub fn mul_wide(&self, other: &Magnitude) -> (r: Wide)
        ensures
            r@ == self@ * other@,
    {
        let (r00, r01, r02, r03, r04) = mul_row(self.limb0, other);
        let (r10, r11, r12, r13, r14) = mul_row(self.limb1, other);
        let (r20, r21, r22, r23, r24) = mul_row(self.limb2, other);
        let (r30, r31, r32, r33, r34) = mul_row(self.limb3, other);
        let row0 = Wide {
            low: Magnitude { limb0: r00, limb1: r01, limb2: r02, limb3: r03 },
            high: Magnitude { limb0: r04, limb1: 0, limb2: 0, limb3: 0 },
        };
        let row1 = Wide {
            low: Magnitude { limb0: 0, limb1: r10, limb2: r11, limb3: r12 },
            high: Magnitude { limb0: r13, limb1: r14, limb2: 0, limb3: 0 },
        };
        let row2 = Wide {
            low: Magnitude { limb0: 0, limb1: 0, limb2: r20, limb3: r21 },
            high: Magnitude { limb0: r22, limb1: r23, limb2: r24, limb3: 0 },
        };
        let row3 = Wide {
            low: Magnitude { limb0: 0, limb1: 0, limb2: 0, limb3: r30 },
            high: Magnitude { limb0: r31, limb1: r32, limb2: r33, limb3: r34 },
        };
        let ghost w = wide_base() as int;
        let ghost p = self@ * other@;
        proof {
            let (a0, a1, a2, a3) = (
                self.limb0 as int,
                self.limb1 as int,
                self.limb2 as int,
                self.limb3 as int,
            );
            let b = other@ as int;
            assert(row0@ == a0 * b);
            assert(row1@ == (limbs_value(r10, r11, r12, r13) + r14 * wide_base()) * 0x1_0000_0000);
            assert(row1@ == (a1 * b) * 0x1_0000_0000);
            assert(row2@ == (limbs_value(r20, r21, r22, r23) + r24 * wide_base())
                * 0x1_0000_0000_0000_0000);
            assert(row2@ == (a2 * b) * 0x1_0000_0000_0000_0000);
            assert(row3@ == (a3 * b) * 0x1_0000_0000_0000_0000_0000_0000);
            assert((a0 + a1 * 0x1_0000_0000 + a2 * 0x1_0000_0000_0000_0000 + a3
                * 0x1_0000_0000_0000_0000_0000_0000) * b == a0 * b + (a1 * b) * 0x1_0000_0000 + (
            a2 * b) * 0x1_0000_0000_0000_0000 + (a3 * b) * 0x1_0000_0000_0000_0000_0000_0000)
                by (nonlinear_arith);
            assert(p == row0@ + row1@ + row2@ + row3@);
            assert(self@ * other@ < w * w) by (nonlinear_arith)
                requires
                    self@ < w,
                    other@ < w,
                    0 <= self@,
                    0 <= other@,
            ;
        }
        let (s1, c1) = row0.add(&row1);
        let (s2, c2) = s1.add(&row2);
        let (s3, c3) = s2.add(&row3);
        s3
    }

    /// `self * 10 + digit`, by a chain of limb multiplications whose carry
    /// starts at `digit`.
    pub fn mul10_add(&self, digit: u32) -> (r: Magnitude)
        requires
            self@ * 10 + digit < wide_base(),
        ensures
            r@ == self@ * 10 + digit,
    {
        let (m0, c0) = carrying_mul(self.limb0, 10, digit);
        let (m1, c1) = carrying_mul(self.limb1, 10, c0);
        let (m2, c2) = carrying_mul(self.limb2, 10, c1);
        let (m3, c3) = carrying_mul(self.limb3, 10, c2);
        let r = Magnitude { limb0: m0, limb1: m1, limb2: m2, limb3: m3 };
        assert(m0 + m1 * 0x1_0000_0000 + c1 * 0x1_0000_0000_0000_0000 == self.limb0 * 10
            + self.limb1 * 0x1_0000_0000 * 10 + digit);
        assert(m0 + m1 * 0x1_0000_0000 + m2 * 0x1_0000_0000_0000_0000 + c2
            * 0x1_0000_0000_0000_0000_0000_0000 == self.limb0 * 10 + self.limb1 * 0x1_0000_0000
            * 10 + self.limb2 * 0x1_0000_0000_0000_0000 * 10 + digit);
        assert(r@ + c3 * wide_base() == self@ * 10 + digit);
        r
    }
}

/// The table of powers of ten that four limbs hold: entry `i` is ten to the `i`,
/// for `i` up to 38.
pub fn pow10_table() -> (r: Vec<Magnitude>)
    ensures
        r.len() == 39,
        forall|i: int| 0 <= i < 39 ==> (#[trigger] r[i])@ == pow10(i as nat),
{
    let mut table: Vec<Magnitude> = Vec::new();
    let mut cur = Magnitude::from_u32(1);
    table.push(cur);
    let mut i: usize = 1;
    while i < 39
        invariant
            1 <= i <= 39,
            table.len() == i,
            cur@ == pow10((i - 1) as nat),
            forall|j: int| 0 <= j < i ==> (#[trigger] table[j])@ == pow10(j as nat),
        decreases 39 - i,
    {
        proof {
            lemma_pow10_38();
            lemma_pow10_monotone(i as nat, 38);
            assert(pow10(i as nat) == 10 * pow10((i - 1) as nat));
        }
        cur = cur.mul10_add(0);
        table.push(cur);
        i = i + 1;
    }
    table
}

/// Counts how many times `place` can be taken from `rem` without going below
/// zero: the digit `rem / place` and the remainder `rem % place`, when `rem` is
/// under ten places.
pub fn extract_digit(rem: &Magnitude, place: &Magnitude) -> (r: (u32, Magnitude))
    requires
        0 < place@,
        rem@ < 10 * place@,
    ensures
        r.0 < 10,
        r.0 == rem@ / place@,
        r.1@ == rem@ % place@,
{
    let mut digit: u32 = 0;
    let mut cur = *rem;
    loop
        invariant
            0 < place@,
            rem@ < 10 * place@,
            rem@ == digit * place@ + cur@,
            digit < 10,
        ensures
            rem@ == digit * place@ + cur@,
            cur@ < place@,
            digit < 10,
        decreases cur@,
    {
        let (diff, borrow) = cur.sub(place);
        if borrow {
            break ;
        }
        proof {
            assert(digit + 1 < 10) by (nonlinear_arith)
                requires
                    rem@ == digit * place@ + cur@,
                    cur@ >= place@,
                    rem@ < 10 * place@,
                    place@ > 0,
            ;
        }
        proof {
            assert(diff@ == cur@ - place@);
            assert((digit + 1) * place@ == digit * place@ + place@) by (nonlinear_arith);
        }
        cur = diff;
        digit = digit + 1;
    }
    proof {
        vstd::arithmetic::div_mod::lemma_fundamental_div_mod_converse(
            rem@ as int,
            place@ as int,
            digit as int,
            cur@ as int,
        );
    }
    (digit, cur)
}

/// Ten to the power `k` as a magnitude, by repeated multiplication by ten.
pub fn pow10_magnitude(k: u32) -> (r: Magnitude)
    requires
        k <= 38,
    ensures
        r@ == pow10(k as nat),
{
    let mut cur = Magnitude::from_u32(1);
    let mut i: u32 = 0;
    while i < k
        invariant
            i <= k <= 38,
            cur@ == pow10(i as nat),
        decreases k - i,
    {
        proof {
            lemma_pow10_38();
            lemma_pow10_monotone((i + 1) as nat, 38);
            assert(pow10((i + 1) as nat) == 10 * pow10(i as nat));
        }
        cur = cur.mul10_add(0);
        i = i + 1;
    }
    cur
}

/// Four limbs are the base-2^32 digits of the number they denote.
pub proof fn lemma_limbs_unique(l0: u32, l1: u32, l2: u32, l3: u32)
    ensures
        l0 == limbs_value(l0, l1, l2, l3) % 0x1_0000_0000,
        l1 == (limbs_value(l0, l1, l2, l3) / 0x1_0000_0000) % 0x1_0000_0000,
        l2 == (limbs_value(l0, l1, l2, l3) / 0x1_0000_0000 / 0x1_0000_0000) % 0x1_0000_0000,
        l3 == limbs_value(l0, l1, l2, l3) / 0x1_0000_0000 / 0x1_0000_0000 / 0x1_0000_0000,
{
    let v = limbs_value(l0, l1, l2, l3) as int;
    let k: int = 0x1_0000_0000;
    let q2 = l2 + l3 * k;
    let q1 = l1 + q2 * k;
    converse(v, k, q1, l0 as int);
    converse(q1, k, q2, l1 as int);
    converse(q2, k, l3 as int, l2 as int);
}

/// Every number under two to the 128th is the value of its base-2^32 digits.
pub proof fn lemma_limbs_of(v: nat)
    requires
        v < wide_base(),
    ensures
        v % 0x1_0000_0000 < 0x1_0000_0000,
        (v / 0x1_0000_0000) % 0x1_0000_0000 < 0x1_0000_0000,
        (v / 0x1_0000_0000 / 0x1_0000_0000) % 0x1_0000_0000 < 0x1_0000_0000,
        v / 0x1_0000_0000 / 0x1_0000_0000 / 0x1_0000_0000 < 0x1_0000_0000,
        limbs_value(
            (v % 0x1_0000_0000) as u32,
            ((v / 0x1_0000_0000) % 0x1_0000_0000) as u32,
            ((v / 0x1_0000_0000 / 0x1_0000_0000) % 0x1_0000_0000) as u32,
            (v / 0x1_0000_0000 / 0x1_0000_0000 / 0x1_0000_0000) as u32,
        ) == v,
{
    let k: int = 0x1_0000_0000;
    let v = v as int;
    vstd::arithmetic::div_mod::lemma_fundamental_div_mod(v, k);
    let q1 = v / k;
    vstd::arithmetic::div_mod::lemma_fundamental_div_mod(q1, k);
    let q2 = q1 / k;
    vstd::arithmetic::div_mod::lemma_fundamental_div_mod(q2, k);
    let q3 = q2 / k;
    vstd::arithmetic::div_mod::lemma_mod_pos_bound(v, k);
    vstd::arithmetic::div_mod::lemma_mod_pos_bound(q1, k);
    vstd::arithmetic::div_mod::lemma_mod_pos_bound(q2, k);
    vstd::arithmetic::div_mod::lemma_div_pos_is_pos(v, k);
    vstd::arithmetic::div_mod::lemma_div_pos_is_pos(q1, k);
    vstd::arithmetic::div_mod::lemma_div_pos_is_pos(q2, k);
    assert(v == 0x1_0000_0000 * q1 + v % 0x1_0000_0000);
    assert(q1 == 0x1_0000_0000 * q2 + q1 % 0x1_0000_0000);
    assert(q2 == 0x1_0000_0000 * q3 + q2 % 0x1_0000_0000);
    assert(v == v % 0x1_0000_0000 + 0x1_0000_0000 * (q1 % 0x1_0000_0000) + 0x1_0000_0000_0000_0000
        * (q2 % 0x1_0000_0000) + 0x1_0000_0000_0000_0000_0000_0000 * q3);
    assert(q3 < 0x1_0000_0000);
}

} // verus!
