//! Decimal text: the parser, which reads digits from the right and adds each at
//! its place value, and the formatter, which takes digits out from the left by
//! repeated subtraction of powers of ten.
use vstd::prelude::*;

use crate::decimal::{
    max_magnitude, Decimal, DecimalError, DecimalPrecision, DecimalScale, DecimalSign,
};
use crate::magnitude::{
    extract_digit, lemma_pow10_38, lemma_pow10_monotone, pow10, pow10_table, Magnitude,
};

verus! {

pub open spec fn is_digit(c: char) -> bool {
    '0' <= c && c <= '9'
}

/// The value of a digit character.
pub open spec fn digit_of(c: char) -> nat {
    (c as u32 - '0' as u32) as nat
}

/// The number of digit characters in `s`.
pub open spec fn digit_count(s: Seq<char>) -> nat
    decreases s.len(),
{
    if s.len() == 0 {
        0
    } else {
        (if is_digit(s[0]) {
            1nat
        } else {
            0nat
        }) + digit_count(s.drop_first())
    }
}

/// The number of `.` characters in `s`.
pub open spec fn point_count(s: Seq<char>) -> nat
    decreases s.len(),
{
    if s.len() == 0 {
        0
    } else {
        (if s[0] == '.' {
            1nat
        } else {
            0nat
        }) + point_count(s.drop_first())
    }
}

/// The number that the digit characters of `s` spell, in order, whatever else
/// stands between them: each digit weighs ten to the count of digits after it.
pub open spec fn digits_value(s: Seq<char>) -> nat
    decreases s.len(),
{
    if s.len() == 0 {
        0
    } else if is_digit(s[0]) {
        digit_of(s[0]) * pow10(digit_count(s.drop_first())) + digits_value(s.drop_first())
    } else {
        digits_value(s.drop_first())
    }
}

/// The count of digits after the first `.` of `s`, or 0 when it has none.
pub open spec fn point_scale(s: Seq<char>) -> nat
    decreases s.len(),
{
    if s.len() == 0 {
        0
    } else if s[0] == '.' {
        digit_count(s.drop_first())
    } else {
        point_scale(s.drop_first())
    }
}

pub open spec fn has_sign(s: Seq<char>) -> bool {
    s.len() > 0 && (s[0] == '+' || s[0] == '-')
}

/// The text without its leading sign, if any.
pub open spec fn text_body(s: Seq<char>) -> Seq<char> {
    if has_sign(s) {
        s.drop_first()
    } else {
        s
    }
}

pub open spec fn text_sign(s: Seq<char>) -> DecimalSign {
    if s.len() > 0 && s[0] == '-' {
        DecimalSign::Negative
    } else {
        DecimalSign::Positive
    }
}

/// Decimal text: an optional leading `+` or `-`, then digits and at most one
/// `.`, with 1 to 38 digits in all.
pub open spec fn is_decimal_text(s: Seq<char>) -> bool {
    let b = text_body(s);
    &&& forall|i: int| 0 <= i < b.len() ==> is_digit(#[trigger] b[i]) || b[i] == '.'
    &&& point_count(b) <= 1
    &&& 1 <= digit_count(b) <= 38
}

/// The result of `Decimal::parse` on `s`: for decimal text, the decimal whose
/// sign is the text's, whose magnitude is the number its digits spell, whose
/// scale is the count of digits after the `.` and whose precision is the count
/// of digits; otherwise a parse error.
pub open spec fn parse_result(s: Seq<char>) -> Result<Decimal, DecimalError> {
    if is_decimal_text(s) {
        let b = text_body(s);
        Ok(Decimal::decimal_of(text_sign(s), digit_count(b), point_scale(b), digits_value(b)))
    } else {
        Err(DecimalError::ParseError)
    }
}

/// The value that digits spell stays under ten to their count.
pub proof fn lemma_digits_value_bound(s: Seq<char>)
    ensures
        digits_value(s) < pow10(digit_count(s)),
        point_scale(s) <= digit_count(s),
    decreases s.len(),
{
    if s.len() > 0 {
        let t = s.drop_first();
        lemma_digits_value_bound(t);
        if is_digit(s[0]) {
            assert(digit_of(s[0]) <= 9);
            assert(digit_of(s[0]) * pow10(digit_count(t)) <= 9 * pow10(digit_count(t)))
                by (nonlinear_arith)
                requires
                    digit_of(s[0]) <= 9,
            ;
            assert(pow10(digit_count(t) + 1) == 10 * pow10(digit_count(t)));
        } else {
        }
    }
}

/// Counts over a suffix are at most the counts over the whole.
pub proof fn lemma_suffix_counts(s: Seq<char>, j: int)
    requires
        0 <= j <= s.len(),
    ensures
        digit_count(s.subrange(j, s.len() as int)) <= digit_count(s),
        point_count(s.subrange(j, s.len() as int)) <= point_count(s),
    decreases j,
{
    if j > 0 {
        let t = s.drop_first();
        lemma_suffix_counts(t, j - 1);
        assert(t.subrange(j - 1, t.len() as int) =~= s.subrange(j, s.len() as int));
    } else {
        assert(s.subrange(0, s.len() as int) =~= s);
    }
}

/// The value of a digit character, for a digit.
fn digit_value(c: char) -> (r: u32)
    requires
        is_digit(c),
    ensures
        r == digit_of(c),
        r <= 9,
{
    (c as u32) - ('0' as u32)
}

impl Decimal {
    /// Reads decimal text: an optional leading sign, digits and at most one `.`,
    /// 1 to 38 digits in all. The magnitude is the number the digits spell, the
    /// scale the count of digits after the `.`, the precision the count of
    /// digits. The characters are read from the right, each digit added at its
    /// place value.
    pub fn parse(text: &str) -> (r: Result<Decimal, DecimalError>)
        ensures
            r == parse_result(text@),
            r matches Ok(d) ==> d.wf(),
    {
        let ghost s = text@;
        let n = text.unicode_len();
        let mut start: usize = 0;
        let mut sign = DecimalSign::Positive;
        if n > 0 {
            let c = text.get_char(0);
            if c == '-' {
                sign = DecimalSign::Negative;
                start = 1;
            } else if c == '+' {
                start = 1;
            }
        }
        let ghost body = text_body(s);
        assert(body =~= s.subrange(start as int, n as int));
        let mut acc = Magnitude::zero();
        let mut place = Magnitude::from_u32(1);
        let mut count: usize = 0;
        let mut scale: usize = 0;
        let mut seen_point = false;
        let mut i: usize = n;
        proof {
            assert(s.subrange(n as int, n as int) =~= Seq::<char>::empty());
            reveal_with_fuel(pow10, 1);
        }
        while i > start
            invariant
                start <= i <= n,
                n == s.len(),
                s == text@,
                body == s.subrange(start as int, n as int),
                body == text_body(s),
                sign == text_sign(s),
                count == digit_count(s.subrange(i as int, n as int)),
                count <= 38,
                acc@ == digits_value(s.subrange(i as int, n as int)),
                place@ == pow10(count as nat),
                seen_point == (point_count(s.subrange(i as int, n as int)) > 0),
                point_count(s.subrange(i as int, n as int)) <= 1,
                scale == point_scale(s.subrange(i as int, n as int)),
                forall|k: int|
                    i <= k < n ==> is_digit(#[trigger] s[k]) || s[k] == '.',
            decreases i,
        {
            let ghost t = s.subrange(i as int, n as int);
            i = i - 1;
            let ghost t2 = s.subrange(i as int, n as int);
            let c = text.get_char(i);
            proof {
                assert(t2.drop_first() =~= t);
                assert(t2[0] == c);
                lemma_digits_value_bound(t);
                lemma_suffix_counts(body, i - start);
                assert(body.subrange(i - start, body.len() as int) =~= t2);
            }
            if c == '.' {
                if seen_point {
                    return Err(DecimalError::ParseError);
                }
                seen_point = true;
                scale = count;
            } else if '0' <= c && c <= '9' {
                if count >= 38 {
                    return Err(DecimalError::ParseError);
                }
                let d = digit_value(c);
                proof {
                    lemma_pow10_38();
                    lemma_pow10_monotone((count + 1) as nat, 38);
                    assert(pow10((count + 1) as nat) == 10 * pow10(count as nat));
                    assert(d * place@ + acc@ < pow10((count + 1) as nat)) by (nonlinear_arith)
                        requires
                            d <= 9,
                            acc@ < place@,
                            pow10((count + 1) as nat) == 10 * place@,
                    ;
                }
                let addend = place.mul_wide(&Magnitude::from_u32(d));
                proof {
                    assert(addend@ == place@ * d);
                    assert(addend.high@ == 0);
                }
                let (sum, _) = acc.add(&addend.low);
                acc = sum;
                count = count + 1;
                place = place.mul10_add(0);
            } else {
                proof {
                    assert(!(is_digit(body[i - start]) || body[i - start] == '.'));
                }
                return Err(DecimalError::ParseError);
            }
        }
        proof {
            assert(s.subrange(start as int, n as int) =~= body);
            lemma_digits_value_bound(body);
            lemma_pow10_38();
            lemma_pow10_monotone(count as nat, 38);
        }
        if count == 0 {
            return Err(DecimalError::ParseError);
        }
        Ok(
            Decimal::new(
                sign,
                DecimalPrecision { value: count as u8 },
                DecimalScale { value: scale as u8 },
                acc.limb0,
                acc.limb1,
                acc.limb2,
                acc.limb3,
            ),
        )
    }
}

/// The character of a digit value.
pub open spec fn digit_char(d: nat) -> char {
    if d == 0 {
        '0'
    } else if d == 1 {
        '1'
    } else if d == 2 {
        '2'
    } else if d == 3 {
        '3'
    } else if d == 4 {
        '4'
    } else if d == 5 {
        '5'
    } else if d == 6 {
        '6'
    } else if d == 7 {
        '7'
    } else if d == 8 {
        '8'
    } else {
        '9'
    }
}

/// The decimal digits of `n`, most significant first, without leading zeros;
/// empty for zero.
pub open spec fn digits_of(n: nat) -> Seq<char>
    decreases n,
{
    if n == 0 {
        Seq::empty()
    } else {
        digits_of(n / 10).push(digit_char(n % 10))
    }
}

pub open spec fn zeros(k: nat) -> Seq<char> {
    Seq::new(k, |i: int| '0')
}

/// The canonical text of a decimal: `0` for zero; otherwise the digits of the
/// magnitude with a `.` placed `scale` digits from the right, `.0` appended
/// when the scale is 0, `0.` and padding zeros in front when there are no
/// more digits than the scale, and a leading `-` when negative.
pub open spec fn text_of(d: Decimal) -> Seq<char> {
    if d.mag() == 0 {
        seq!['0']
    } else {
        let digits = digits_of(d.mag());
        let len = digits.len();
        let s = d.scale.value as nat;
        let body = if s == 0 {
            digits + seq!['.', '0']
        } else if len > s {
            digits.subrange(0, len - s) + seq!['.'] + digits.subrange(len - s, len as int)
        } else {
            seq!['0', '.'] + zeros((s - len) as nat) + digits
        };
        if d.sign == DecimalSign::Negative {
            seq!['-'] + body
        } else {
            body
        }
    }
}

/// Every character of `digits_of(n)` is a digit.
pub proof fn lemma_digits_of_digits(n: nat)
    ensures
        forall|i: int| 0 <= i < digits_of(n).len() ==> is_digit(#[trigger] digits_of(n)[i]),
        n > 0 ==> digits_of(n).len() > 0,
    decreases n,
{
    if n > 0 {
        lemma_digits_of_digits(n / 10);
        let prev = digits_of(n / 10);
        assert(is_digit(digit_char(n % 10)));
        assert forall|i: int| 0 <= i < digits_of(n).len() implies is_digit(
            #[trigger] digits_of(n)[i],
        ) by {
            if i < prev.len() {
                assert(digits_of(n)[i] == prev[i]);
            }
        }
    }
}

/// The character of a digit value, as a character.
fn digit_to_char(d: u32) -> (r: char)
    requires
        d <= 9,
    ensures
        r == digit_char(d as nat),
{
    match d {
        0 => '0',
        1 => '1',
        2 => '2',
        3 => '3',
        4 => '4',
        5 => '5',
        6 => '6',
        7 => '7',
        8 => '8',
        _ => '9',
    }
}

/// A one-character string of a digit character.
fn digit_str(c: char) -> (r: &'static str)
    requires
        is_digit(c),
    ensures
        r@ == seq![c],
{
    proof {
        reveal_strlit("0");
        reveal_strlit("1");
        reveal_strlit("2");
        reveal_strlit("3");
        reveal_strlit("4");
        reveal_strlit("5");
        reveal_strlit("6");
        reveal_strlit("7");
        reveal_strlit("8");
        reveal_strlit("9");
    }
    if c == '0' {
        "0"
    } else if c == '1' {
        "1"
    } else if c == '2' {
        "2"
    } else if c == '3' {
        "3"
    } else if c == '4' {
        "4"
    } else if c == '5' {
        "5"
    } else if c == '6' {
        "6"
    } else if c == '7' {
        "7"
    } else if c == '8' {
        "8"
    } else {
        "9"
    }
}

/// Appends the digit characters `digits[from..to]` to `out`.
fn append_digits(out: &mut String, digits: &Vec<char>, from: usize, to: usize)
    requires
        from <= to <= digits.len(),
        forall|i: int| 0 <= i < digits.len() ==> is_digit(#[trigger] digits[i]),
    ensures
        final(out)@ == old(out)@ + digits@.subrange(from as int, to as int),
{
    let mut k: usize = from;
    while k < to
        invariant
            from <= k <= to <= digits.len(),
            forall|i: int| 0 <= i < digits.len() ==> is_digit(#[trigger] digits[i]),
            out@ == old(out)@ + digits@.subrange(from as int, k as int),
        decreases to - k,
    {
        out.append(digit_str(digits[k]));
        assert(digits@.subrange(from as int, (k + 1) as int) =~= digits@.subrange(
            from as int,
            k as int,
        ).push(digits@[k as int]));
        k = k + 1;
    }
}

/// The decimal digits of a magnitude at most 38 nines, most significant first:
/// for each power of ten from the 38th down, the count of its subtractions from
/// the remainder, with leading zeros left out.
fn magnitude_digits(m: &Magnitude) -> (r: Vec<char>)
    requires
        m@ <= max_magnitude(),
    ensures
        r@ == digits_of(m@),
{
    let table = pow10_table();
    let mut digits: Vec<char> = Vec::new();
    let mut rem = *m;
    let mut p: usize = 39;
    let ghost mut hi: nat = 0;
    proof {
        lemma_pow10_38();
        assert(pow10(39) == 10 * pow10(38));
        assert(m@ == 0 * pow10(39) + rem@);
    }
    while p > 0
        invariant
            p <= 39,
            table.len() == 39,
            forall|i: int| 0 <= i < 39 ==> (#[trigger] table[i])@ == pow10(i as nat),
            m@ == hi * pow10(p as nat) + rem@,
            rem@ < pow10(p as nat),
            digits@ == digits_of(hi),
        decreases p,
    {
        p = p - 1;
        let ghost place = pow10(p as nat);
        proof {
            assert(table[p as int]@ == place);
            assert(pow10((p + 1) as nat) == 10 * place);
            lemma_pow10_monotone(0, p as nat);
        }
        let (d, r2) = extract_digit(&rem, &table[p]);
        let ghost hi2: nat = (hi * 10 + d) as nat;
        proof {
            vstd::arithmetic::div_mod::lemma_fundamental_div_mod(rem@ as int, place as int);
            assert(d == rem@ / place);
            assert(r2@ == rem@ % place);
            assert(rem@ == d * place + r2@) by (nonlinear_arith)
                requires
                    d == rem@ / place,
                    r2@ == rem@ % place,
                    place > 0,
            ;
            assert(m@ == hi2 * place + r2@) by (nonlinear_arith)
                requires
                    m@ == hi * (10 * place) + rem@,
                    rem@ == d * place + r2@,
                    hi2 == hi * 10 + d,
            ;
            vstd::arithmetic::div_mod::lemma_fundamental_div_mod_converse(
                hi2 as int,
                10,
                hi as int,
                d as int,
            );
            lemma_digits_of_digits(hi);
        }
        if digits.len() > 0 || d != 0 {
            digits.push(digit_to_char(d));
            proof {
                assert(hi2 > 0);
            }
        } else {
            proof {
                assert(hi == 0);
                assert(hi2 == 0);
            }
        }
        rem = r2;
        proof {
            hi = hi2;
        }
    }
    proof {
        assert(pow10(p as nat) == 1);
        assert(m@ == hi + rem@);
    }
    digits
}

impl Decimal {
    /// The canonical text of the decimal (see `text_of`).
    pub fn to_text(&self) -> (r: String)
        requires
            self.wf(),
        ensures
            r@ == text_of(*self),
    {
        let mut out = String::new();
        let m = Magnitude {
            limb0: self.part_0,
            limb1: self.part_1,
            limb2: self.part_2,
            limb3: self.part_3,
        };
        if m.is_zero() {
            proof {
                reveal_strlit("0");
            }
            out.append("0");
            return out;
        }
        let digits = magnitude_digits(&m);
        proof {
            lemma_digits_of_digits(m@);
            reveal_strlit("-");
            reveal_strlit(".");
            reveal_strlit(".0");
            reveal_strlit("0.");
            reveal_strlit("0");
        }
        let ghost before = out@;
        if self.sign == DecimalSign::Negative {
            out.append("-");
        }
        let ghost prefix = out@;
        let len = digits.len();
        let s = self.scale.value as usize;
        if s == 0 {
            append_digits(&mut out, &digits, 0, len);
            out.append(".0");
            assert(digits@.subrange(0, len as int) =~= digits@);
        } else if len > s {
            append_digits(&mut out, &digits, 0, len - s);
            out.append(".");
            append_digits(&mut out, &digits, len - s, len);
        } else {
            out.append("0.");
            let mut k: usize = 0;
            while k < s - len
                invariant
                    k <= s - len,
                    out@ == prefix + seq!['0', '.'] + zeros(k as nat),
                decreases s - len - k,
            {
                proof {
                    reveal_strlit("0");
                }
                out.append("0");
                assert(zeros((k + 1) as nat) =~= zeros(k as nat).push('0'));
                k = k + 1;
            }
            append_digits(&mut out, &digits, 0, len);
            assert(digits@.subrange(0, len as int) =~= digits@);
        }
        assert(out@ =~= text_of(*self));
        out
    }
}

/// Every character of `s` is a digit or a `.`.
pub open spec fn decimal_chars(s: Seq<char>) -> bool {
    forall|i: int| 0 <= i < s.len() ==> is_digit(#[trigger] s[i]) || s[i] == '.'
}

/// The signed value of decimal text written at scale `s`: the number its digits
/// spell, times ten to `s` less the count of digits after its point, with its
/// sign.
pub open spec fn text_value_at(t: Seq<char>, s: nat) -> int {
    let b = text_body(t);
    let v = (digits_value(b) * pow10((s - point_scale(b)) as nat)) as int;
    if text_sign(t) == DecimalSign::Negative {
        -v
    } else {
        v
    }
}

/// The counts, the value and the scale of a concatenation, from those of its
/// parts.
pub proof fn lemma_concat(x: Seq<char>, y: Seq<char>)
    ensures
        digit_count(x + y) == digit_count(x) + digit_count(y),
        point_count(x + y) == point_count(x) + point_count(y),
        digits_value(x + y) == digits_value(x) * pow10(digit_count(y)) + digits_value(y),
        point_count(x) == 0 ==> point_scale(x + y) == point_scale(y),
    decreases x.len(),
{
    if x.len() == 0 {
        assert(x + y =~= y);
        assert(digits_value(x) == 0);
    } else {
        let x1 = x.drop_first();
        lemma_concat(x1, y);
        assert((x + y).drop_first() =~= x1 + y);
        assert((x + y)[0] == x[0]);
        if is_digit(x[0]) {
            crate::magnitude::lemma_pow10_add(digit_count(x1), digit_count(y));
            let d = digit_of(x[0]);
            let wx = pow10(digit_count(x1));
            let wy = pow10(digit_count(y));
            assert(digits_value(x) == d * wx + digits_value(x1));
            assert(digits_value(x + y) == d * pow10(digit_count(x1 + y)) + digits_value(x1 + y));
            assert(pow10(digit_count(x1 + y)) == wx * wy);
            assert(digits_value(x) * wy == d * (wx * wy) + digits_value(x1) * wy)
                by (nonlinear_arith)
                requires
                    digits_value(x) == d * wx + digits_value(x1),
            ;
        } else {
            assert(digits_value(x) == digits_value(x1));
            assert(digits_value(x + y) == digits_value(x1 + y));
        }
    }
}

/// The counts, value and scale of one character.
pub proof fn lemma_single(c: char)
    ensures
        digit_count(seq![c]) == (if is_digit(c) {
            1nat
        } else {
            0nat
        }),
        point_count(seq![c]) == (if c == '.' {
            1nat
        } else {
            0nat
        }),
        digits_value(seq![c]) == (if is_digit(c) {
            digit_of(c)
        } else {
            0
        }),
        point_scale(seq![c]) == 0,
{
    let e = Seq::<char>::empty();
    assert(seq![c].drop_first() =~= e);
    assert(seq![c][0] == c);
    assert(digit_count(e) == 0);
    assert(point_count(e) == 0);
    assert(digits_value(e) == 0);
    assert(point_scale(e) == 0);
    assert(pow10(0) == 1);
}

/// A point followed by `y` has the digits of `y` after it.
pub proof fn lemma_point_then(y: Seq<char>)
    ensures
        point_scale(seq!['.'] + y) == digit_count(y),
{
    assert((seq!['.'] + y).drop_first() =~= y);
}

/// A run of digit characters counts one digit each and no points.
pub proof fn lemma_all_digits(s: Seq<char>)
    requires
        forall|i: int| 0 <= i < s.len() ==> is_digit(#[trigger] s[i]),
    ensures
        digit_count(s) == s.len(),
        point_count(s) == 0,
    decreases s.len(),
{
    if s.len() > 0 {
        let t = s.drop_first();
        assert forall|i: int| 0 <= i < t.len() implies is_digit(#[trigger] t[i]) by {
            assert(t[i] == s[i + 1]);
        }
        lemma_all_digits(t);
    }
}

/// The characters of digit values.
pub proof fn lemma_digit_char(k: nat)
    requires
        k < 10,
    ensures
        is_digit(digit_char(k)),
        digit_of(digit_char(k)) == k,
{
}

/// The digits of `n` spell `n`.
pub proof fn lemma_digits_of_value(n: nat)
    ensures
        digits_value(digits_of(n)) == n,
        digit_count(digits_of(n)) == digits_of(n).len(),
        point_count(digits_of(n)) == 0,
    decreases n,
{
    lemma_digits_of_digits(n);
    lemma_all_digits(digits_of(n));
    if n > 0 {
        lemma_digits_of_value(n / 10);
        let c = digit_char(n % 10);
        assert(digits_of(n) =~= digits_of(n / 10) + seq![c]);
        lemma_concat(digits_of(n / 10), seq![c]);
        lemma_single(c);
        lemma_digit_char(n % 10);
        assert(pow10(1) == 10) by {
            reveal_with_fuel(pow10, 2);
        }
        vstd::arithmetic::div_mod::lemma_fundamental_div_mod(n as int, 10);
        assert(digits_value(digits_of(n)) == digits_value(digits_of(n / 10)) * 10 + n % 10);
    }
}

/// A run of zeros spells zero.
pub proof fn lemma_zeros(k: nat)
    ensures
        digit_count(zeros(k)) == k,
        point_count(zeros(k)) == 0,
        digits_value(zeros(k)) == 0,
    decreases k,
{
    if k > 0 {
        lemma_zeros((k - 1) as nat);
        assert(zeros(k) =~= seq!['0'] + zeros((k - 1) as nat));
        lemma_concat(seq!['0'], zeros((k - 1) as nat));
        lemma_single('0');
    }
}

/// What the text of a nonzero decimal holds after its sign: only digits and
/// one point; its digits spell the magnitude (times ten at scale 0) and the
/// digits after its point number the scale (1 at scale 0).
pub proof fn lemma_text_of_parts(d: Decimal)
    requires
        d.wf(),
        d.mag() > 0,
    ensures
        text_sign(text_of(d)) == d.sign,
        decimal_chars(text_body(text_of(d))),
        point_count(text_body(text_of(d))) == 1,
        d.scale.value == 0 ==> digits_value(text_body(text_of(d))) == 10 * d.mag()
            && point_scale(text_body(text_of(d))) == 1,
        d.scale.value > 0 ==> digits_value(text_body(text_of(d))) == d.mag() && point_scale(
            text_body(text_of(d)),
        ) == d.scale.value,
        digit_count(text_body(text_of(d))) >= 1,
{
    let n = d.mag();
    let digits = digits_of(n);
    let len = digits.len();
    let s = d.scale.value as nat;
    lemma_digits_of_digits(n);
    lemma_digits_of_value(n);
    lemma_single('.');
    lemma_single('0');
    let body = if s == 0 {
        digits + seq!['.', '0']
    } else if len > s {
        digits.subrange(0, len - s) + seq!['.'] + digits.subrange(len - s, len as int)
    } else {
        seq!['0', '.'] + zeros((s - len) as nat) + digits
    };
    assert(body[0] != '+' && body[0] != '-' && body[0] != '.' && body.len() > 0) by {
        if s == 0 || len > s {
            assert(body[0] == digits[0]);
        }
    }
    if d.sign == DecimalSign::Negative {
        assert(text_of(d) == seq!['-'] + body);
        assert((seq!['-'] + body).drop_first() =~= body);
    } else {
        assert(text_of(d) == body);
    }
    assert(text_body(text_of(d)) == body);
    if s == 0 {
        assert(seq!['.', '0'] =~= seq!['.'] + seq!['0']);
        lemma_concat(seq!['.'], seq!['0']);
        lemma_point_then(seq!['0']);
        lemma_concat(digits, seq!['.', '0']);
        assert(pow10(1) == 10) by {
            reveal_with_fuel(pow10, 2);
        }
    } else if len > s {
        let d1 = digits.subrange(0, len - s);
        let d2 = digits.subrange(len - s, len as int);
        assert(d1 + d2 =~= digits);
        assert forall|i: int| 0 <= i < d2.len() implies is_digit(#[trigger] d2[i]) by {
            assert(d2[i] == digits[i + len - s]);
        }
        lemma_all_digits(d2);
        lemma_concat(d1, d2);
        lemma_concat(d1, seq!['.']);
        lemma_concat(d1 + seq!['.'], d2);
        assert(pow10(0) == 1);
        assert(body =~= d1 + (seq!['.'] + d2));
        lemma_concat(d1, seq!['.'] + d2);
        lemma_point_then(d2);
        assert(body =~= (d1 + seq!['.']) + d2);
    } else {
        let z = zeros((s - len) as nat);
        lemma_zeros((s - len) as nat);
        lemma_concat(z, digits);
        lemma_concat(seq!['.'], z + digits);
        lemma_point_then(z + digits);
        lemma_concat(seq!['0'], seq!['.'] + (z + digits));
        assert(body =~= seq!['0'] + (seq!['.'] + (z + digits)));
    }
    assert forall|i: int| 0 <= i < body.len() implies is_digit(#[trigger] body[i]) || body[i]
        == '.' by {
        if s == 0 {
            if i < len {
                assert(body[i] == digits[i]);
            }
        } else if len > s {
            if i < len - s {
                assert(body[i] == digits[i]);
            } else if i > len - s {
                assert(body[i] == digits[i - 1]);
            }
        } else {
            if i >= 2 + s - len {
                assert(body[i] == digits[i - 2 - (s - len)]);
            }
        }
    }
}

} // verus!
