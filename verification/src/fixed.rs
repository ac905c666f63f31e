//! A concrete numeric type for the evaluator: an exact decimal with six
//! fractional digits, stored as a scaled integer.  Every arithmetic
//! capability is specified exactly; where a result would leave the
//! representable range it saturates at the range's edge, and the
//! capabilities the representation cannot carry make a documented,
//! specified choice (division by zero and the transcendental functions
//! yield zero, a power with a non-integral exponent yields zero, a square
//! root truncates toward zero).

use crate::computer::Num;
use crate::lexer::{is_digit_char, is_num_char};
use vstd::arithmetic::div_mod::{lemma_fundamental_div_mod, lemma_fundamental_div_mod_converse};
use vstd::prelude::*;

verus! {

/// A million: the denominator of the representation, ten to the six
/// supported fractional digits.
pub const SCALE: i128 = 1_000_000;

/// The largest magnitude a scaled value may take, so that the product of
/// two magnitudes always fits the machine word it is computed in.
pub const MAX_MANT: i128 = 18_446_744_073_709_551_615;

/// The magnitude of a mathematical integer.
pub open spec fn abs_int(x: int) -> int {
    if x < 0 {
        -x
    } else {
        x
    }
}

/// A magnitude with a sign applied.
pub open spec fn signed_mag(neg: bool, mag: int) -> int {
    if neg {
        -mag
    } else {
        mag
    }
}

/// Saturation at the representable range.
pub open spec fn clamp_spec(x: int) -> int {
    if x > MAX_MANT as int {
        MAX_MANT as int
    } else if x < -(MAX_MANT as int) {
        -(MAX_MANT as int)
    } else {
        x
    }
}

/// An exact decimal: the value is `mant` millionths.
#[derive(Debug, Clone, Copy, PartialEq, Eq, Structural)]
pub struct Fixed {
    mant: i128,
}

impl Fixed {
    /// The representation never leaves the symmetric range whose
    /// magnitude products fit 128 bits.
    #[verifier::type_invariant]
    pub closed spec fn inv(self) -> bool {
        -MAX_MANT <= self.mant <= MAX_MANT
    }

    /// The scaled integer the value is stored as: a million times the
    /// value.
    pub closed spec fn mant_spec(self) -> int {
        self.mant as int
    }

    /// The value of a whole number, saturating at the range's edge.
    pub fn from_int(i: i64) -> (r: Fixed)
        ensures
            r.mant_spec() == clamp_spec(i as int * SCALE as int),
    {
        clamped(i as i128 * SCALE)
    }

    /// The scaled integer the value is stored as.
    pub fn mant(&self) -> (r: i128)
        ensures
            r as int == self.mant_spec(),
    {
        self.mant
    }
}

/// The saturated value of an arbitrary scaled integer.
fn clamped(x: i128) -> (r: Fixed)
    ensures
        r.mant_spec() == clamp_spec(x as int),
{
    if x > MAX_MANT {
        Fixed { mant: MAX_MANT }
    } else if x < -MAX_MANT {
        Fixed { mant: -MAX_MANT }
    } else {
        Fixed { mant: x }
    }
}

/// The magnitude of a scaled integer within the representable range.
fn mag128(x: i128) -> (r: u128)
    requires
        -MAX_MANT <= x as int <= MAX_MANT,
    ensures
        r as int == abs_int(x as int),
{
    if x < 0 {
        (-x) as u128
    } else {
        x as u128
    }
}

/// The saturated value of a sign and a magnitude.
fn from_sign_mag(neg: bool, mag: u128) -> (r: Fixed)
    ensures
        r.mant_spec() == clamp_spec(signed_mag(neg, mag as int)),
{
    let m = if mag > (MAX_MANT as u128) {
        MAX_MANT as u128
    } else {
        mag
    };
    let v = m as i128;
    if neg {
        Fixed { mant: -v }
    } else {
        Fixed { mant: v }
    }
}

/// The powers the exponent loop steps through: `b` taken `n` times onto
/// one, each step through the saturating multiplication.
pub closed spec fn pow_steps_fx(b: Fixed, n: nat) -> Fixed
    decreases n,
{
    if n == 0 {
        Fixed { mant: SCALE }
    } else {
        pow_steps_fx(b, (n - 1) as nat).mul_spec(b)
    }
}

/// The floor of the square root of a nonnegative integer.
pub open spec fn sqrt_floor(n: int) -> int {
    choose|r: int| #![trigger r * r] 0 <= r && r * r <= n && n < (r + 1) * (r + 1)
}

proof fn lemma_sqrt_unique(n: int, a: int, b: int)
    requires
        0 <= a && a * a <= n && n < (a + 1) * (a + 1),
        0 <= b && b * b <= n && n < (b + 1) * (b + 1),
    ensures
        a == b,
{
    if a < b {
        assert((a + 1) * (a + 1) <= b * b) by (nonlinear_arith)
            requires
                0 <= a,
                0 <= b,
                a < b,
        ;
    }
    if b < a {
        assert((b + 1) * (b + 1) <= a * a) by (nonlinear_arith)
            requires
                0 <= a,
                0 <= b,
                b < a,
        ;
    }
}

/// Divisibility is blind to sign.
proof fn lemma_neg_divisible(m: int, d: int)
    requires
        d > 0,
        m >= 0,
    ensures
        ((-m) % d == 0) <==> (m % d == 0),
{
    if m % d == 0 {
        lemma_fundamental_div_mod(m, d);
        let q = m / d;
        assert((-m) == (-q) * d + 0) by (nonlinear_arith)
            requires
                m == d * q,
        ;
        lemma_fundamental_div_mod_converse(-m, d, -q, 0);
    }
    if (-m) % d == 0 {
        lemma_fundamental_div_mod(-m, d);
        let q = (-m) / d;
        assert(m == (-q) * d + 0) by (nonlinear_arith)
            requires
                -m == d * q,
        ;
        lemma_fundamental_div_mod_converse(m, d, -q, 0);
    }
}

impl Num for Fixed {
    closed spec fn zero_spec() -> Fixed {
        Fixed { mant: 0 }
    }

    closed spec fn one_spec() -> Fixed {
        Fixed { mant: SCALE }
    }

    closed spec fn from_literal_spec(text: Seq<char>) -> Option<Fixed> {
        match lit_value(text) {
            Some(m) => Some(Fixed { mant: m as i128 }),
            None => None,
        }
    }

    open spec fn is_integer_spec(self) -> bool {
        -MAX_MANT <= self.mant_spec() <= MAX_MANT && self.mant_spec() % (SCALE as int) == 0
    }

    open spec fn integer_of(self) -> int {
        self.mant_spec() / (SCALE as int)
    }

    open spec fn lt_spec(self, other: Self) -> bool {
        self.mant_spec() < other.mant_spec()
    }

    open spec fn num_eq_spec(self, other: Self) -> bool {
        self.mant_spec() == other.mant_spec()
    }

    closed spec fn neg_spec(self) -> Self {
        Fixed { mant: clamp_spec(-self.mant_spec()) as i128 }
    }

    closed spec fn add_spec(self, other: Self) -> Self {
        Fixed { mant: clamp_spec(self.mant_spec() + other.mant_spec()) as i128 }
    }

    closed spec fn sub_spec(self, other: Self) -> Self {
        Fixed { mant: clamp_spec(self.mant_spec() - other.mant_spec()) as i128 }
    }

    closed spec fn mul_spec(self, other: Self) -> Self {
        Fixed {
            mant: clamp_spec(
                signed_mag(
                    (self.mant_spec() < 0) != (other.mant_spec() < 0),
                    (abs_int(self.mant_spec()) * abs_int(other.mant_spec())) / (SCALE as int),
                ),
            ) as i128,
        }
    }

    closed spec fn div_spec(self, other: Self) -> Self {
        if other.mant_spec() == 0 {
            Fixed { mant: 0 }
        } else {
            Fixed {
                mant: clamp_spec(
                    signed_mag(
                        (self.mant_spec() < 0) != (other.mant_spec() < 0),
                        (abs_int(self.mant_spec()) * (SCALE as int)) / abs_int(other.mant_spec()),
                    ),
                ) as i128,
            }
        }
    }

    closed spec fn pow_spec(self, other: Self) -> Self {
        if !other.is_integer_spec() {
            Fixed { mant: 0 }
        } else if other.integer_of() >= 0 {
            pow_steps_fx(self, other.integer_of() as nat)
        } else {
            Self::one_spec().div_spec(pow_steps_fx(self, (-other.integer_of()) as nat))
        }
    }

    closed spec fn sqrt_spec(self) -> Self {
        if self.mant_spec() < 0 {
            Fixed { mant: 0 }
        } else {
            Fixed { mant: clamp_spec(sqrt_floor(self.mant_spec() * (SCALE as int))) as i128 }
        }
    }

    closed spec fn sin_spec(self) -> Self {
        Fixed { mant: 0 }
    }

    closed spec fn cos_spec(self) -> Self {
        Fixed { mant: 0 }
    }

    closed spec fn tan_spec(self) -> Self {
        Fixed { mant: 0 }
    }

    closed spec fn log_spec(self) -> Self {
        Fixed { mant: 0 }
    }

    closed spec fn abs_spec(self) -> Self {
        Fixed { mant: clamp_spec(abs_int(self.mant_spec())) as i128 }
    }

    fn zero() -> (r: Self) {
        Fixed { mant: 0 }
    }

    fn one() -> (r: Self) {
        Fixed { mant: SCALE }
    }

    fn from_literal(text: &str) -> (r: Option<Self>) {
        exec_from_literal(text)
    }

    fn is_integer(&self) -> (r: bool) {
        proof {
            use_type_invariant(self);
        }
        let m = mag128(self.mant);
        let r = m % (SCALE as u128) == 0;
        proof {
            if self.mant < 0 {
                lemma_neg_divisible(m as int, SCALE as int);
            }
        }
        r
    }

    fn lt(&self, other: &Self) -> (r: bool) {
        self.mant < other.mant
    }

    fn num_eq(&self, other: &Self) -> (r: bool) {
        self.mant == other.mant
    }

    fn neg(&self) -> (r: Self) {
        proof {
            use_type_invariant(self);
        }
        Fixed { mant: -self.mant }
    }

    fn add(&self, other: &Self) -> (r: Self) {
        proof {
            use_type_invariant(self);
            use_type_invariant(other);
        }
        clamped(self.mant + other.mant)
    }

    fn sub(&self, other: &Self) -> (r: Self) {
        proof {
            use_type_invariant(self);
            use_type_invariant(other);
        }
        clamped(self.mant - other.mant)
    }

    fn mul(&self, other: &Self) -> (r: Self) {
        proof {
            use_type_invariant(self);
            use_type_invariant(other);
        }
        let ma = mag128(self.mant);
        let mb = mag128(other.mant);
        proof {
            assert(ma as int * mb as int <= (MAX_MANT as int) * (MAX_MANT as int))
                by (nonlinear_arith)
                requires
                    0 <= ma as int <= MAX_MANT as int,
                    0 <= mb as int <= MAX_MANT as int,
            ;
        }
        let p = ma * mb;
        let q = p / (SCALE as u128);
        from_sign_mag((self.mant < 0) != (other.mant < 0), q)
    }

    fn div(&self, other: &Self) -> (r: Self) {
        proof {
            use_type_invariant(self);
            use_type_invariant(other);
        }
        if other.mant == 0 {
            return Fixed { mant: 0 };
        }
        let ma = mag128(self.mant);
        let mb = mag128(other.mant);
        proof {
            assert(ma as int * (SCALE as int) <= (MAX_MANT as int) * (SCALE as int))
                by (nonlinear_arith)
                requires
                    0 <= ma as int <= MAX_MANT as int,
            ;
        }
        let p = ma * (SCALE as u128);
        let q = p / mb;
        from_sign_mag((self.mant < 0) != (other.mant < 0), q)
    }

    fn pow(&self, other: &Self) -> (r: Self) {
        proof {
            use_type_invariant(self);
            use_type_invariant(other);
        }
        let m = mag128(other.mant);
        proof {
            if other.mant < 0 {
                lemma_neg_divisible(m as int, SCALE as int);
            }
        }
        if m % (SCALE as u128) != 0 {
            return Fixed { mant: 0 };
        }
        let k = m / (SCALE as u128);
        proof {
            lemma_fundamental_div_mod(m as int, SCALE as int);
            if other.mant >= 0 {
                assert(other.integer_of() == k as int);
            } else {
                assert(other.mant as int == (SCALE as int) * (-(k as int)) + 0)
                    by (nonlinear_arith)
                    requires
                        m as int == (SCALE as int) * (k as int),
                        other.mant as int == -(m as int),
                ;
                lemma_fundamental_div_mod_converse(
                    other.mant as int,
                    SCALE as int,
                    -(k as int),
                    0,
                );
            }
        }
        let mut acc = Fixed { mant: SCALE };
        let mut i: u128 = 0;
        while i < k
            invariant
                i <= k,
                acc == pow_steps_fx(*self, i as nat),
            decreases k - i,
        {
            acc = acc.mul(self);
            proof {
                assert(pow_steps_fx(*self, (i + 1) as nat) == pow_steps_fx(*self, i as nat)
                    .mul_spec(*self));
            }
            i = i + 1;
        }
        if other.mant < 0 {
            let one = Fixed { mant: SCALE };
            one.div(&acc)
        } else {
            acc
        }
    }

    fn sqrt(&self) -> (r: Self) {
        proof {
            use_type_invariant(self);
        }
        if self.mant < 0 {
            return Fixed { mant: 0 };
        }
        let mag = self.mant as u128;
        proof {
            assert(mag as int * 1000000 <= 18446744073709551615int * 1000000)
                by (nonlinear_arith)
                requires
                    0 <= mag as int <= 18446744073709551615int,
            ;
        }
        let v = mag * (SCALE as u128);
        let mut lo: u128 = 0;
        let mut hi: u128 = 8_796_093_022_208;
        proof {
            assert((8796093022208int) * (8796093022208int) > 18446744073709551615int * 1000000);
        }
        while lo + 1 < hi
            invariant
                lo < hi <= 8_796_093_022_208,
                v as int <= 18446744073709551615int * 1000000,
                (lo as int) * (lo as int) <= v as int,
                (v as int) < (hi as int) * (hi as int),
            decreases hi - lo,
        {
            let mid = lo + (hi - lo) / 2;
            proof {
                assert(mid as int * mid as int <= 8796093022208int * 8796093022208int)
                    by (nonlinear_arith)
                    requires
                        0 <= mid as int <= 8796093022208int,
                ;
            }
            if mid * mid <= v {
                lo = mid;
            } else {
                hi = mid;
            }
        }
        proof {
            let n = (self.mant as int) * (SCALE as int);
            let r = lo as int;
            assert(n == v as int);
            assert((lo as int + 1) == hi as int);
            assert(0 <= r && r * r <= n && n < (r + 1) * (r + 1));
            assert(exists|x: int| #![trigger x * x] 0 <= x && x * x <= n && n < (x + 1) * (x + 1));
            lemma_sqrt_unique(n, r, sqrt_floor(n));
        }
        Fixed { mant: lo as i128 }
    }

    fn sin(&self) -> (r: Self) {
        Fixed { mant: 0 }
    }

    fn cos(&self) -> (r: Self) {
        Fixed { mant: 0 }
    }

    fn tan(&self) -> (r: Self) {
        Fixed { mant: 0 }
    }

    fn log(&self) -> (r: Self) {
        Fixed { mant: 0 }
    }

    fn abs(&self) -> (r: Self) {
        proof {
            use_type_invariant(self);
        }
        if self.mant < 0 {
            Fixed { mant: -self.mant }
        } else {
            Fixed { mant: self.mant }
        }
    }

    proof fn law_sub_one(self) {
        let m = self.mant as int;
        let s = SCALE as int;
        lemma_fundamental_div_mod(m, s);
        let q = m / s;
        assert(m == s * q);
        assert(m - s == (q - 1) * s + 0) by (nonlinear_arith)
            requires
                m == s * q,
                s == 1000000,
        ;
        assert(m >= s) by (nonlinear_arith)
            requires
                m == s * q,
                q >= 1,
                s == 1000000,
        ;
        lemma_fundamental_div_mod_converse(m - s, s, q - 1, 0);
    }

    proof fn law_one_lt(self) {
        let m = self.mant as int;
        let s = SCALE as int;
        lemma_fundamental_div_mod(m, s);
        let q = m / s;
        assert(m == s * q);
        assert((s < m) <==> (q >= 2)) by (nonlinear_arith)
            requires
                m == s * q,
                s == 1000000,
        ;
    }

    proof fn law_int_classify(self) {
        let m = self.mant as int;
        let s = SCALE as int;
        lemma_fundamental_div_mod(m, s);
        let q = m / s;
        assert(m == s * q);
        assert(q >= 2) by (nonlinear_arith)
            requires
                m == s * q,
                s == 1000000,
                m >= 0,
                m != 0,
                m != s,
        ;
    }
}

/// The numeric worth of a digit character.
pub open spec fn digit_val(c: char) -> int {
    c as u32 - 48
}

/// Every character of the sequence is a decimal digit.
pub open spec fn all_digits(s: Seq<char>) -> bool {
    forall|i: int| 0 <= i < s.len() ==> is_digit_char(#[trigger] s[i])
}

/// The integer a digit sequence spells, most significant first.
pub open spec fn digits_to_int(s: Seq<char>) -> int
    decreases s.len(),
{
    if s.len() == 0 {
        0
    } else {
        digits_to_int(s.drop_last()) * 10 + digit_val(s.last())
    }
}

/// The position of the first dot, if there is one.
pub open spec fn dot_index(s: Seq<char>) -> Option<int>
    decreases s.len(),
{
    if s.len() == 0 {
        None
    } else if s[0] == '.' {
        Some(0)
    } else {
        match dot_index(s.drop_first()) {
            Some(i) => Some(i + 1),
            None => None,
        }
    }
}

/// Ten to a nonnegative power.
pub open spec fn pow10(k: int) -> int
    decreases k,
{
    if k <= 0 {
        1
    } else {
        10 * pow10(k - 1)
    }
}

/// The scaled integer a numeric literal spells: the digits before the
/// dot, scaled by a million, plus the digits after it, scaled to
/// millionths.  Nothing when the text is no literal of this type: empty,
/// a bare dot, a second dot, a character that is no digit, more than six
/// fractional digits, or a value beyond the representable range.
pub open spec fn lit_value(s: Seq<char>) -> Option<int> {
    let ip = match dot_index(s) {
        None => s,
        Some(d) => s.take(d),
    };
    let fp = match dot_index(s) {
        None => Seq::<char>::empty(),
        Some(d) => s.skip(d + 1),
    };
    if s.len() == 0 {
        None
    } else if !(all_digits(ip) && all_digits(fp)) {
        None
    } else if ip.len() == 0 && fp.len() == 0 {
        None
    } else if fp.len() > 6 {
        None
    } else {
        let m = digits_to_int(ip) * (SCALE as int) + digits_to_int(fp) * pow10(6 - fp.len());
        if m > MAX_MANT as int {
            None
        } else {
            Some(m)
        }
    }
}

proof fn lemma_dot_index_char(s: Seq<char>)
    ensures
        match dot_index(s) {
            Some(d) => 0 <= d < s.len() && s[d] == '.' && (forall|j: int|
                0 <= j < d ==> s[j] != '.'),
            None => forall|j: int| 0 <= j < s.len() ==> s[j] != '.',
        },
    decreases s.len(),
{
    if s.len() > 0 && s[0] != '.' {
        let t = s.drop_first();
        lemma_dot_index_char(t);
        match dot_index(t) {
            Some(d) => {
                assert(t[d] == s[d + 1]);
                assert forall|j: int| 0 <= j < d + 1 implies s[j] != '.' by {
                    if j > 0 {
                        assert(t[j - 1] == s[j]);
                        assert(t[j - 1] != '.');
                    }
                }
            },
            None => {
                assert forall|j: int| 0 <= j < s.len() implies s[j] != '.' by {
                    if j > 0 {
                        assert(t[j - 1] == s[j]);
                        assert(t[j - 1] != '.');
                    }
                }
            },
        }
    }
}

proof fn lemma_dot_index_first(s: Seq<char>, d: int)
    requires
        0 <= d < s.len(),
        s[d] == '.',
        forall|j: int| 0 <= j < d ==> s[j] != '.',
    ensures
        dot_index(s) == Some(d),
    decreases s.len(),
{
    if d > 0 {
        assert(forall|j: int| 0 <= j < s.len() - 1 ==> s.drop_first()[j] == s[j + 1]);
        lemma_dot_index_first(s.drop_first(), d - 1);
    }
}

proof fn lemma_digits_nonneg(s: Seq<char>)
    requires
        all_digits(s),
    ensures
        digits_to_int(s) >= 0,
    decreases s.len(),
{
    if s.len() > 0 {
        assert(forall|i: int| 0 <= i < s.len() - 1 ==> s.drop_last()[i] == s[i]);
        lemma_digits_nonneg(s.drop_last());
        assert(is_digit_char(s[s.len() - 1]));
    }
}

proof fn lemma_digits_prefix(s: Seq<char>, i: int)
    requires
        all_digits(s),
        0 <= i <= s.len(),
    ensures
        0 <= digits_to_int(s.take(i)) <= digits_to_int(s),
    decreases s.len() - i,
{
    assert(forall|j: int| 0 <= j < i ==> s.take(i)[j] == s[j]);
    lemma_digits_nonneg(s.take(i));
    if i < s.len() {
        assert(s.take(i + 1).drop_last() =~= s.take(i));
        assert(s.take(i + 1).last() == s[i]);
        assert(is_digit_char(s[i]));
        lemma_digits_prefix(s, i + 1);
    } else {
        assert(s.take(i) =~= s);
    }
}

proof fn lemma_pow10_pos(k: int)
    ensures
        pow10(k) >= 1,
    decreases k,
{
    if k > 0 {
        lemma_pow10_pos(k - 1);
    }
}

proof fn lemma_pow10_add(a: int, b: int)
    requires
        a >= 0,
        b >= 0,
    ensures
        pow10(a) * pow10(b) == pow10(a + b),
    decreases a,
{
    if a == 0 {
        assert(pow10(0) * pow10(b) == pow10(b)) by (nonlinear_arith)
            requires
                pow10(0int) == 1,
        ;
    } else {
        lemma_pow10_add(a - 1, b);
        assert((10 * pow10(a - 1)) * pow10(b) == 10 * (pow10(a - 1) * pow10(b)))
            by (nonlinear_arith);
    }
}

proof fn lemma_pow10_le6(k: int)
    requires
        k <= 6,
    ensures
        pow10(k) <= 1000000,
{
    reveal_with_fuel(pow10, 8);
    if k <= 0 {
    } else if k == 1 {
    } else if k == 2 {
    } else if k == 3 {
    } else if k == 4 {
    } else if k == 5 {
    } else {
    }
}

proof fn lemma_lit_bad_char(s: Seq<char>, i: int)
    requires
        0 <= i < s.len(),
        !is_digit_char(s[i]),
        s[i] == '.' ==> (exists|dd: int| 0 <= dd < i && s[dd] == '.'),
    ensures
        lit_value(s) is None,
{
    lemma_dot_index_char(s);
    match dot_index(s) {
        None => {
            assert(!all_digits(s));
        },
        Some(d) => {
            assert(i != d);
            if i < d {
                assert(s.take(d)[i] == s[i]);
                assert(!all_digits(s.take(d)));
            } else {
                assert(s.skip(d + 1)[i - d - 1] == s[i]);
                assert(!all_digits(s.skip(d + 1)));
            }
        },
    }
}

proof fn lemma_lit_overflow(s: Seq<char>, i: int)
    requires
        0 < i <= s.len(),
        all_digits(s.take(i)),
        digits_to_int(s.take(i)) > MAX_MANT as int,
        forall|j: int| 0 <= j < i ==> s[j] != '.',
    ensures
        lit_value(s) is None,
{
    lemma_dot_index_char(s);
    match dot_index(s) {
        None => {
            if all_digits(s) {
                lemma_digits_prefix(s, i);
                assert(digits_to_int(s) * 1000000 >= digits_to_int(s));
            }
        },
        Some(d) => {
            assert(d >= i);
            let ip = s.take(d);
            if all_digits(ip) {
                assert(ip.take(i) =~= s.take(i));
                lemma_digits_prefix(ip, i);
                let fp = s.skip(d + 1);
                if all_digits(fp) {
                    lemma_digits_nonneg(fp);
                    lemma_pow10_pos(6 - fp.len() as int);
                    assert(digits_to_int(fp) * pow10(6 - fp.len()) >= 0) by (nonlinear_arith)
                        requires
                            digits_to_int(fp) >= 0,
                            pow10(6 - fp.len() as int) >= 1,
                    ;
                    assert(digits_to_int(ip) * 1000000 >= digits_to_int(ip));
                }
            }
        },
    }
}

proof fn lemma_lit_long_frac(s: Seq<char>, d: int)
    requires
        0 <= d < s.len(),
        s[d] == '.',
        forall|j: int| 0 <= j < d ==> s[j] != '.',
        s.len() - d - 1 > 6,
    ensures
        lit_value(s) is None,
{
    lemma_dot_index_first(s, d);
}

/// Reads a value out of the text of a numeric literal: digits with at
/// most one dot among them and at most six digits after it, within the
/// representable range.
fn exec_from_literal(text: &str) -> (r: Option<Fixed>)
    ensures
        r == <Fixed as Num>::from_literal_spec(text@),
{
    let ghost s = text@;
    let n = text.unicode_len();
    if n == 0 {
        return None;
    }
    let mut i: usize = 0;
    let mut dot: Option<usize> = None;
    let mut ip_val: u128 = 0;
    let mut fp_val: u128 = 0;
    let mut fp_len: usize = 0;
    while i < n
        invariant
            s == text@,
            n == s.len(),
            0 < n,
            i <= n,
            ip_val <= MAX_MANT as u128,
            fp_len <= 6,
            (fp_val as int) < pow10(fp_len as int),
            dot is None ==> (forall|j: int| 0 <= j < i ==> s[j] != '.'),
            dot is None ==> all_digits(s.take(i as int)),
            dot is None ==> ip_val as int == digits_to_int(s.take(i as int)),
            dot is None ==> fp_val == 0 && fp_len == 0,
            dot matches Some(d) ==> (d as int) < i as int <= n && s[d as int] == '.',
            dot matches Some(d) ==> (forall|j: int| 0 <= j < d as int ==> s[j] != '.'),
            dot matches Some(d) ==> (forall|j: int| (d as int) < j < (i as int) ==> s[j] != '.'),
            dot matches Some(d) ==> all_digits(s.take(d as int)),
            dot matches Some(d) ==> all_digits(s.subrange(d as int + 1, i as int)),
            dot matches Some(d) ==> ip_val as int == digits_to_int(s.take(d as int)),
            dot matches Some(d) ==> fp_len as int == i as int - d as int - 1,
            dot matches Some(d) ==> fp_val as int == digits_to_int(
                s.subrange(d as int + 1, i as int),
            ),
        decreases n - i,
    {
        let c = text.get_char(i);
        let u = c as u32;
        if 48 <= u && u <= 57 {
            match dot {
                None => {
                    proof {
                        assert(s.take(i as int + 1).drop_last() =~= s.take(i as int));
                        assert(s.take(i as int + 1).last() == s[i as int]);
                    }
                    let next = ip_val * 10 + ((u - 48) as u128);
                    if next > (MAX_MANT as u128) {
                        proof {
                            lemma_lit_overflow(s, i as int + 1);
                        }
                        return None;
                    }
                    ip_val = next;
                },
                Some(d) => {
                    if fp_len == 6 {
                        proof {
                            lemma_lit_long_frac(s, d as int);
                        }
                        return None;
                    }
                    proof {
                        assert(s.subrange(d as int + 1, i as int + 1).drop_last() =~= s.subrange(
                            d as int + 1,
                            i as int,
                        ));
                        assert(s.subrange(d as int + 1, i as int + 1).last() == s[i as int]);
                        lemma_pow10_le6(fp_len as int);
                        assert(pow10(fp_len as int + 1) == 10 * pow10(fp_len as int));
                    }
                    fp_val = fp_val * 10 + ((u - 48) as u128);
                    fp_len = fp_len + 1;
                },
            }
            i = i + 1;
        } else if c == '.' {
            match dot {
                None => {
                    proof {
                        assert(s.subrange(i as int + 1, i as int + 1) =~= Seq::<char>::empty());
                    }
                    dot = Some(i);
                    i = i + 1;
                },
                Some(d) => {
                    proof {
                        assert(0 <= (d as int) < (i as int) && s[d as int] == '.');
                        lemma_lit_bad_char(s, i as int);
                    }
                    return None;
                },
            }
        } else {
            proof {
                lemma_lit_bad_char(s, i as int);
            }
            return None;
        }
    }
    proof {
        lemma_dot_index_char(s);
    }
    match dot {
        None => {
            proof {
                assert(dot_index(s) is None);
                assert(s.take(n as int) =~= s);
                assert(ip_val as int * 1000000 <= 18446744073709551615int * 1000000)
                    by (nonlinear_arith)
                    requires
                        0 <= ip_val as int <= 18446744073709551615int,
                ;
            }
            let m = ip_val * (SCALE as u128);
            if m > (MAX_MANT as u128) {
                return None;
            }
            Some(Fixed { mant: m as i128 })
        },
        Some(d) => {
            proof {
                lemma_dot_index_first(s, d as int);
                assert(s.skip(d as int + 1) =~= s.subrange(d as int + 1, n as int));
            }
            if d == 0 && fp_len == 0 {
                return None;
            }
            let scale_fp = pow10_exec(6 - fp_len);
            proof {
                lemma_pow10_add(fp_len as int, 6 - fp_len as int);
                lemma_pow10_pos(6 - fp_len as int);
                reveal_with_fuel(pow10, 8);
                assert(pow10(6) == 1000000);
                assert(fp_val as int * pow10(6 - fp_len as int) < 1000000) by (nonlinear_arith)
                    requires
                        0 <= fp_val as int,
                        (fp_val as int) < pow10(fp_len as int),
                        pow10(6 - fp_len as int) >= 1,
                        pow10(fp_len as int) * pow10(6 - fp_len as int) == 1000000,
                ;
                assert(ip_val as int * 1000000 <= 18446744073709551615int * 1000000)
                    by (nonlinear_arith)
                    requires
                        0 <= ip_val as int <= 18446744073709551615int,
                ;
            }
            let m = ip_val * (SCALE as u128) + fp_val * scale_fp;
            if m > (MAX_MANT as u128) {
                return None;
            }
            Some(Fixed { mant: m as i128 })
        },
    }
}

/// The token source round-trips a numeric literal: scanning exactly the
/// text of any well-formed literal of this type yields one number token
/// carrying exactly the decimal value the text spells.
pub proof fn lemma_literal_round_trip(s: Seq<char>)
    requires
        <Fixed as Num>::from_literal_spec(s) is Some,
    ensures
        crate::lexer::spec_tokenize::<Fixed>(s) == Ok::<
            Seq<crate::lexer::TokenV<Fixed>>,
            crate::lexer::LexerErrorV,
        >(seq![crate::lexer::TokenV::Number(<Fixed as Num>::from_literal_spec(s).unwrap())]),
{
    lemma_dot_index_char(s);
    assert(s.len() > 0);
    assert forall|j: int| 0 <= j < s.len() implies is_num_char(s[j]) by {
        match dot_index(s) {
            Some(d) => {
                if j < d {
                    assert(s.take(d)[j] == s[j]);
                    assert(all_digits(s.take(d)));
                } else if j > d {
                    assert(s.skip(d + 1)[j - d - 1] == s[j]);
                    assert(all_digits(s.skip(d + 1)));
                }
            },
            None => {
                assert(all_digits(s));
            },
        }
    }
    crate::lexer::lemma_num_end_all(s, 1);
    assert(s.subrange(0, s.len() as int) =~= s);
    let rest = crate::lexer::spec_tokenize_from::<Fixed>(s, s.len() as int);
    assert(rest == Ok::<Seq<crate::lexer::TokenV<Fixed>>, crate::lexer::LexerErrorV>(
        Seq::empty(),
    ));
    let v = <Fixed as Num>::from_literal_spec(s).unwrap();
    assert(seq![crate::lexer::TokenV::Number(v)] + Seq::<crate::lexer::TokenV<Fixed>>::empty()
        =~= seq![crate::lexer::TokenV::Number(v)]);
}

/// Ten to a power no greater than six.
fn pow10_exec(k: usize) -> (r: u128)
    requires
        k <= 6,
    ensures
        r as int == pow10(k as int),
{
    proof {
        reveal_with_fuel(pow10, 8);
    }
    if k == 0 {
        1
    } else if k == 1 {
        10
    } else if k == 2 {
        100
    } else if k == 3 {
        1_000
    } else if k == 4 {
        10_000
    } else if k == 5 {
        100_000
    } else {
        1_000_000
    }
}

} // verus!
