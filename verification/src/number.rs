use vstd::prelude::*;
use vstd::string::*;
use vstd::arithmetic::div_mod::{
    lemma_div_non_zero, lemma_fundamental_div_mod, lemma_mod_division_less_than_divisor,
};
use vstd::arithmetic::mul::{
    lemma_mul_upper_bound, lemma_mul_unary_negation, lemma_mul_nonnegative,
    lemma_mul_inequality, lemma_mul_strictly_positive, lemma_mul_is_commutative,
};

verus! {

/// An error raised by exact rational arithmetic.
#[derive(Clone, Copy, Debug, PartialEq, Eq, Structural)]
pub enum NumError {
    /// The reduced result does not fit in the machine representation.
    Overflow,
    /// Division with a zero divisor.
    DivideByZero,
}

/// A runtime number: an exact rational `num / den`, kept in lowest terms
/// with `den >= 1`.
#[derive(Clone, Copy, Debug, PartialEq, Eq, Structural)]
pub struct NumVal {
    pub num: i64,
    pub den: u64,
}

/// Magnitude of an integer.
pub open spec fn iabs(n: int) -> nat {
    if n < 0 {
        (-n) as nat
    } else {
        n as nat
    }
}

/// Greatest common divisor, by Euclid's rule.
pub open spec fn gcd_spec(a: nat, b: nat) -> nat
    decreases b,
{
    if b == 0 {
        a
    } else {
        gcd_spec(b, a % b)
    }
}

pub proof fn lemma_gcd_pos(a: nat, b: nat)
    requires
        a > 0 || b > 0,
    ensures
        gcd_spec(a, b) > 0,
    decreases b,
{
    if b > 0 {
        lemma_gcd_pos(b, a % b);
    }
}

pub proof fn lemma_gcd_le(a: nat, b: nat)
    requires
        b > 0,
    ensures
        gcd_spec(a, b) <= b,
    decreases b,
{
    if a % b == 0 {
        assert(gcd_spec(b, a % b) == b);
    } else {
        lemma_gcd_le(b, a % b);
    }
}

/// The canonical (lowest-terms) form of the non-negative fraction `n / d`.
pub open spec fn canon_mag(n: nat, d: nat) -> (nat, nat)
    recommends
        d >= 1,
{
    let g = gcd_spec(n, d);
    ((n / g) as nat, (d / g) as nat)
}

/// How the result of a checked rational operation relates to the exact
/// fraction `n / d` it stands for: on success it is that fraction in
/// lowest terms; otherwise that fraction's lowest terms do not fit.
pub open spec fn rat_result_matches(n: int, d: int, r: Result<NumVal, NumError>) -> bool
    recommends
        d >= 1,
{
    let c = canon_mag(iabs(n), d as nat);
    match r {
        Ok(v) => {
            &&& v.wf()
            &&& c.0 <= i64::MAX
            &&& c.1 <= u64::MAX
            &&& v.den == c.1
            &&& v.num == if n >= 0 {
                c.0 as int
            } else {
                -(c.0 as int)
            }
        },
        Err(e) => e == NumError::Overflow && (c.0 > i64::MAX || c.1 > u64::MAX),
    }
}

/// Whether the lowest terms of the fraction `n / d` fit the machine
/// representation.
pub open spec fn rat_fits(n: int, d: int) -> bool {
    let c = canon_mag(iabs(n), d as nat);
    c.0 <= i64::MAX && c.1 <= u64::MAX
}

/// The fraction `n / d` in lowest terms.
pub open spec fn rat_canon(n: int, d: int) -> NumVal {
    let c = canon_mag(iabs(n), d as nat);
    NumVal {
        num: if n >= 0 {
            c.0 as i64
        } else {
            (-(c.0 as int)) as i64
        },
        den: c.1 as u64,
    }
}

/// What `rat_result_matches` pins down, read back: success carries
/// exactly the lowest-terms fraction, failure means it does not fit.
pub proof fn lemma_rat_result_read(n: int, d: int, r: Result<NumVal, NumError>)
    requires
        d >= 1,
        rat_result_matches(n, d, r),
    ensures
        r matches Ok(v) ==> rat_fits(n, d) && v == rat_canon(n, d) && v.wf(),
        (r matches Err(e) && e == NumError::Overflow) ==> !rat_fits(n, d),
        r matches Err(e) ==> e == NumError::Overflow,
{
}

/// A product of two positive denominators is positive.
pub proof fn lemma_den_product_pos(a: nat, b: nat)
    requires
        a >= 1,
        b >= 1,
    ensures
        a * b >= 1,
{
    lemma_mul_strictly_positive(a as int, b as int);
}

/// Numeric equality of two rationals, by cross-multiplication.
pub open spec fn num_eq(a: NumVal, b: NumVal) -> bool {
    a.num * b.den == b.num * a.den
}

/// Numeric strict order of two rationals, by cross-multiplication.
pub open spec fn num_lt(a: NumVal, b: NumVal) -> bool {
    a.num * b.den < b.num * a.den
}

pub open spec fn num_le(a: NumVal, b: NumVal) -> bool {
    a.num * b.den <= b.num * a.den
}

fn gcd_u128(a: u128, b: u128) -> (g: u128)
    ensures
        g as nat == gcd_spec(a as nat, b as nat),
{
    let mut x = a;
    let mut y = b;
    while y != 0
        invariant
            gcd_spec(x as nat, y as nat) == gcd_spec(a as nat, b as nat),
        decreases y,
    {
        let r = x % y;
        x = y;
        y = r;
    }
    x
}

/// Magnitude of a non-minimal `i64`, as `u64`.
fn mag_u64(n: i64) -> (r: u64)
    requires
        n > i64::MIN,
    ensures
        r as nat == iabs(n as int),
{
    if n < 0 {
        (-n) as u64
    } else {
        n as u64
    }
}

/// Builds the lowest-terms rational of magnitude `n / d` with the given sign.
pub(crate) fn reduce_parts(neg: bool, n: u128, d: u128) -> (r: Result<NumVal, NumError>)
    requires
        d >= 1,
    ensures
        rat_result_matches(if neg { -(n as int) } else { n as int }, d as int, r),
{
    let g = gcd_u128(n, d);
    proof {
        lemma_gcd_pos(n as nat, d as nat);
        lemma_gcd_le(n as nat, d as nat);
        lemma_div_non_zero(d as int, g as int);
    }
    let rn = n / g;
    let rd = d / g;
    if rn > i64::MAX as u128 || rd > u64::MAX as u128 {
        Err(NumError::Overflow)
    } else {
        let m = rn as i64;
        Ok(NumVal { num: if neg { -m } else { m }, den: rd as u64 })
    }
}

impl NumVal {
    /// Well-formed: a positive denominator and a negatable numerator.
    pub open spec fn wf(self) -> bool {
        self.den >= 1 && self.num > i64::MIN
    }

    /// The whole number `n`.
    pub fn from_int(n: i64) -> (r: NumVal)
        requires
            n > i64::MIN,
        ensures
            r.wf(),
            r.num == n,
            r.den == 1,
    {
        NumVal { num: n, den: 1 }
    }

    /// True exactly when the number is zero.
    pub fn is_zero(&self) -> (r: bool)
        ensures
            r == (self.num == 0),
    {
        self.num == 0
    }

    /// The exact negation.
    pub fn negate(&self) -> (r: NumVal)
        requires
            self.wf(),
        ensures
            r.wf(),
            r.num == -self.num,
            r.den == self.den,
    {
        NumVal { num: -self.num, den: self.den }
    }

    /// The exact sum in lowest terms, or `Overflow`.
    pub fn checked_add(&self, other: &NumVal) -> (r: Result<NumVal, NumError>)
        requires
            self.wf(),
            other.wf(),
        ensures
            rat_result_matches(
                self.num * other.den + other.num * self.den,
                self.den * other.den,
                r,
            ),
    {
        let ghost x1: int = self.num * other.den;
        let ghost x2: int = other.num * self.den;
        proof {
            lemma_iabs_mul(self.num as int, other.den as int);
            lemma_iabs_mul(other.num as int, self.den as int);
            lemma_num_product_fits(iabs(self.num as int), other.den as nat);
            lemma_num_product_fits(iabs(other.num as int), self.den as nat);
            lemma_mag_product_fits(self.den as nat, other.den as nat);
            lemma_mul_signs(self.num as int, other.den as int);
            lemma_mul_signs(other.num as int, self.den as int);
            lemma_mul_strictly_positive(self.den as int, other.den as int);
        }
        let m1 = (mag_u64(self.num) as u128) * (other.den as u128);
        let m2 = (mag_u64(other.num) as u128) * (self.den as u128);
        let d = (self.den as u128) * (other.den as u128);
        let neg1 = self.num < 0;
        let neg2 = other.num < 0;
        if neg1 == neg2 {
            proof {
                if neg1 {
                    assert(x1 <= 0 && x2 <= 0);
                    assert(x1 == -(m1 as int) && x2 == -(m2 as int));
                } else {
                    assert(x1 == m1 as int && x2 == m2 as int);
                }
            }
            reduce_parts(neg1, m1 + m2, d)
        } else if m1 >= m2 {
            proof {
                if neg1 {
                    assert(x1 == -(m1 as int) && x2 == m2 as int);
                } else {
                    assert(x1 == m1 as int && x2 == -(m2 as int));
                }
            }
            reduce_parts(neg1, m1 - m2, d)
        } else {
            proof {
                if neg1 {
                    assert(x1 == -(m1 as int) && x2 == m2 as int);
                } else {
                    assert(x1 == m1 as int && x2 == -(m2 as int));
                }
            }
            reduce_parts(neg2, m2 - m1, d)
        }
    }

    /// The exact difference in lowest terms, or `Overflow`.
    pub fn checked_sub(&self, other: &NumVal) -> (r: Result<NumVal, NumError>)
        requires
            self.wf(),
            other.wf(),
        ensures
            rat_result_matches(
                self.num * other.den - other.num * self.den,
                self.den * other.den,
                r,
            ),
    {
        let n = other.negate();
        proof {
            lemma_mul_unary_negation(other.num as int, self.den as int);
        }
        self.checked_add(&n)
    }

    /// The exact product in lowest terms, or `Overflow`.
    pub fn checked_mul(&self, other: &NumVal) -> (r: Result<NumVal, NumError>)
        requires
            self.wf(),
            other.wf(),
        ensures
            rat_result_matches(self.num * other.num, self.den * other.den, r),
    {
        proof {
            lemma_iabs_mul(self.num as int, other.num as int);
            lemma_mag_product_fits(iabs(self.num as int), iabs(other.num as int));
            lemma_mag_product_fits(self.den as nat, other.den as nat);
            lemma_mul_signs(self.num as int, other.num as int);
            lemma_mul_strictly_positive(self.den as int, other.den as int);
        }
        let m = (mag_u64(self.num) as u128) * (mag_u64(other.num) as u128);
        let d = (self.den as u128) * (other.den as u128);
        let neg = (self.num < 0) != (other.num < 0);
        reduce_parts(neg, m, d)
    }

    /// The exact quotient in lowest terms; `DivideByZero` on a zero
    /// divisor, `Overflow` when the reduced result does not fit.
    pub fn checked_div(&self, other: &NumVal) -> (r: Result<NumVal, NumError>)
        requires
            self.wf(),
            other.wf(),
        ensures
            other.num == 0 ==> (r matches Err(e) && e == NumError::DivideByZero),
            other.num != 0 ==> rat_result_matches(
                if other.num >= 0 {
                    self.num * other.den
                } else {
                    -(self.num * other.den)
                },
                self.den * iabs(other.num as int),
                r,
            ),
    {
        if other.num == 0 {
            return Err(NumError::DivideByZero);
        }
        proof {
            lemma_iabs_mul(self.num as int, other.den as int);
            lemma_mag_product_fits(iabs(self.num as int), other.den as nat);
            lemma_mag_product_fits(self.den as nat, iabs(other.num as int));
            lemma_mul_signs(self.num as int, other.den as int);
            lemma_mul_strictly_positive(self.den as int, iabs(other.num as int) as int);
        }
        let m = (mag_u64(self.num) as u128) * (other.den as u128);
        let d = (self.den as u128) * (mag_u64(other.num) as u128);
        let neg = (self.num < 0) != (other.num < 0);
        reduce_parts(neg, m, d)
    }

    /// Numeric equality, by cross-multiplication.
    pub fn eq_val(&self, other: &NumVal) -> (r: bool)
        requires
            self.wf(),
            other.wf(),
        ensures
            r == num_eq(*self, *other),
    {
        proof {
            lemma_cross_fits(self.num as int, other.den as int);
            lemma_cross_fits(other.num as int, self.den as int);
        }
        (self.num as i128) * (other.den as i128) == (other.num as i128) * (self.den as i128)
    }

    /// Numeric strict order, by cross-multiplication.
    pub fn lt(&self, other: &NumVal) -> (r: bool)
        requires
            self.wf(),
            other.wf(),
        ensures
            r == num_lt(*self, *other),
    {
        proof {
            lemma_cross_fits(self.num as int, other.den as int);
            lemma_cross_fits(other.num as int, self.den as int);
        }
        (self.num as i128) * (other.den as i128) < (other.num as i128) * (self.den as i128)
    }

    /// Numeric order, by cross-multiplication.
    pub fn le(&self, other: &NumVal) -> (r: bool)
        requires
            self.wf(),
            other.wf(),
        ensures
            r == num_le(*self, *other),
    {
        proof {
            lemma_cross_fits(self.num as int, other.den as int);
            lemma_cross_fits(other.num as int, self.den as int);
        }
        (self.num as i128) * (other.den as i128) <= (other.num as i128) * (self.den as i128)
    }
}

/// The magnitude of a product is the product of the magnitudes.
pub proof fn lemma_iabs_mul(x: int, y: int)
    ensures
        iabs(x * y) == iabs(x) * iabs(y),
{
    if x >= 0 && y >= 0 {
        lemma_mul_nonnegative(x, y);
    } else if x < 0 && y >= 0 {
        lemma_mul_nonnegative(-x, y);
        lemma_mul_unary_negation(x, y);
    } else if x >= 0 && y < 0 {
        lemma_mul_nonnegative(x, -y);
        lemma_mul_unary_negation(x, y);
    } else {
        lemma_mul_nonnegative(-x, -y);
        lemma_mul_unary_negation(x, -y);
        lemma_mul_unary_negation(x, y);
    }
}

/// Sign rules of multiplication.
pub proof fn lemma_mul_signs(x: int, y: int)
    ensures
        x >= 0 && y >= 0 ==> x * y >= 0,
        x <= 0 && y <= 0 ==> x * y >= 0,
        x >= 0 && y <= 0 ==> x * y <= 0,
        x <= 0 && y >= 0 ==> x * y <= 0,
{
    lemma_iabs_mul(x, y);
    if x >= 0 && y >= 0 {
        lemma_mul_nonnegative(x, y);
    }
    if x <= 0 && y <= 0 {
        lemma_mul_nonnegative(-x, -y);
        lemma_mul_unary_negation(x, -y);
        lemma_mul_unary_negation(x, y);
    }
    if x >= 0 && y <= 0 {
        lemma_mul_nonnegative(x, -y);
        lemma_mul_unary_negation(x, y);
    }
    if x <= 0 && y >= 0 {
        lemma_mul_nonnegative(-x, y);
        lemma_mul_unary_negation(x, y);
    }
}

/// A product of a numerator magnitude and a denominator fits in `u128`.
proof fn lemma_mag_product_fits(a: nat, b: nat)
    requires
        a <= u64::MAX,
        b <= u64::MAX,
    ensures
        a * b <= u64::MAX * u64::MAX < u128::MAX,
{
    lemma_mul_upper_bound(a as int, u64::MAX as int, b as int, u64::MAX as int);
}

/// Even the sum of two numerator-denominator products fits in `u128`.
proof fn lemma_num_product_fits(a: nat, b: nat)
    requires
        a <= i64::MAX,
        b <= u64::MAX,
    ensures
        a * b <= i64::MAX * u64::MAX,
        i64::MAX * u64::MAX + i64::MAX * u64::MAX < u128::MAX,
{
    lemma_mul_upper_bound(a as int, i64::MAX as int, b as int, u64::MAX as int);
}

/// Ten to the given power.
pub open spec fn pow10(n: nat) -> nat
    decreases n,
{
    if n == 0 {
        1
    } else {
        10 * pow10((n - 1) as nat)
    }
}

/// The character for a single decimal digit.
pub open spec fn digit_char(d: nat) -> char {
    if d == 0 {
        '0'
    } else if d == 1 {
        '1'
    } else if d == 2 {
        '2'
    } else if d == 3 {
        '3'
    } else if d == 4 {
        '4'
    } else if d == 5 {
        '5'
    } else if d == 6 {
        '6'
    } else if d == 7 {
        '7'
    } else if d == 8 {
        '8'
    } else {
        '9'
    }
}

/// The decimal digits of a non-negative integer, most significant first.
pub open spec fn uint_str(n: nat) -> Seq<char>
    decreases n,
{
    if n < 10 {
        seq![digit_char(n)]
    } else {
        uint_str(n / 10) + seq![digit_char(n % 10)]
    }
}

/// The digits after the decimal point of the fraction `r / d`, by long
/// division; `None` when the expansion does not close within `fuel` digits.
pub open spec fn frac_str(r: nat, d: nat, fuel: nat) -> Option<Seq<char>>
    recommends
        1 <= d,
        r < d,
    decreases fuel,
{
    if r == 0 {
        Some(Seq::<char>::empty())
    } else if fuel == 0 {
        None
    } else {
        match frac_str((r * 10) % d, d, (fuel - 1) as nat) {
            Some(s) => Some(seq![digit_char((r * 10) / d)] + s),
            None => None,
        }
    }
}

/// How many fraction digits the renderer will try before falling back to
/// the `numerator/denominator` form.
pub open spec fn render_fuel() -> nat {
    100
}

/// The canonical text of the rational `num / den`: the plain integer when
/// `den` is 1, a finite decimal expansion when one exists, and the
/// `numerator/denominator` form otherwise.
pub open spec fn num_str(num: int, den: int) -> Seq<char>
    recommends
        den >= 1,
{
    let sign: Seq<char> = if num < 0 {
        seq!['-']
    } else {
        Seq::<char>::empty()
    };
    let m = iabs(num);
    let d = den as nat;
    if d == 1 {
        sign + uint_str(m)
    } else if m % d == 0 {
        sign + uint_str(m / d)
    } else {
        match frac_str(m % d, d, render_fuel()) {
            Some(f) => sign + uint_str(m / d) + seq!['.'] + f,
            None => sign + uint_str(m) + seq!['/'] + uint_str(d),
        }
    }
}

/// One decimal digit as text.
fn digit_str(d: u64) -> (s: &'static str)
    requires
        d < 10,
    ensures
        s@ == seq![digit_char(d as nat)],
{
    if d == 0 {
        proof {
            reveal_strlit("0");
            assert("0"@ =~= seq!['0']);
        }
        "0"
    } else if d == 1 {
        proof {
            reveal_strlit("1");
            assert("1"@ =~= seq!['1']);
        }
        "1"
    } else if d == 2 {
        proof {
            reveal_strlit("2");
            assert("2"@ =~= seq!['2']);
        }
        "2"
    } else if d == 3 {
        proof {
            reveal_strlit("3");
            assert("3"@ =~= seq!['3']);
        }
        "3"
    } else if d == 4 {
        proof {
            reveal_strlit("4");
            assert("4"@ =~= seq!['4']);
        }
        "4"
    } else if d == 5 {
        proof {
            reveal_strlit("5");
            assert("5"@ =~= seq!['5']);
        }
        "5"
    } else if d == 6 {
        proof {
            reveal_strlit("6");
            assert("6"@ =~= seq!['6']);
        }
        "6"
    } else if d == 7 {
        proof {
            reveal_strlit("7");
            assert("7"@ =~= seq!['7']);
        }
        "7"
    } else if d == 8 {
        proof {
            reveal_strlit("8");
            assert("8"@ =~= seq!['8']);
        }
        "8"
    } else {
        proof {
            reveal_strlit("9");
            assert("9"@ =~= seq!['9']);
        }
        "9"
    }
}

/// A non-negative integer as decimal text.
pub fn uint_to_string(n: u64) -> (s: String)
    ensures
        s@ == uint_str(n as nat),
    decreases n,
{
    if n < 10 {
        digit_str(n).to_owned()
    } else {
        let mut s = uint_to_string(n / 10);
        s.append(digit_str(n % 10));
        s
    }
}

/// The quotient of a bounded dividend stays below the bound's factor.
proof fn lemma_div_below(x: int, d: int, k: int)
    requires
        0 <= x,
        x < d * k,
        d > 0,
        k > 0,
    ensures
        x / d < k,
{
    lemma_fundamental_div_mod(x, d);
    lemma_mod_division_less_than_divisor(x, d);
    if x / d >= k {
        lemma_mul_inequality(k, x / d, d);
        lemma_mul_is_commutative(d, k);
        lemma_mul_is_commutative(d, x / d);
    }
}

/// The fraction digits of `r / d`, or `None` when the expansion does not
/// close within `fuel` digits.
fn frac_to_string(r: u64, d: u64, fuel: u64) -> (s: Option<String>)
    requires
        1 <= d,
        r < d,
    ensures
        opt_text_matches(s, frac_str(r as nat, d as nat, fuel as nat)),
    decreases fuel,
{
    if r == 0 {
        Some(String::new())
    } else if fuel == 0 {
        None
    } else {
        let r10 = (r as u128) * 10;
        proof {
            lemma_div_below(r10 as int, d as int, 10);
        }
        let q = (r10 / (d as u128)) as u64;
        let rr = (r10 % (d as u128)) as u64;
        match frac_to_string(rr, d, fuel - 1) {
            Some(rest) => {
                let mut s = digit_str(q).to_owned();
                s.append(rest.as_str());
                Some(s)
            },
            None => None,
        }
    }
}

/// Whether an optional string has exactly the optional spec text.
pub open spec fn opt_text_matches(s: Option<String>, t: Option<Seq<char>>) -> bool {
    match (s, t) {
        (Some(a), Some(b)) => a@ == b,
        (None, None) => true,
        _ => false,
    }
}

impl NumVal {
    /// The canonical text of the number.
    pub fn to_text(&self) -> (s: String)
        requires
            self.wf(),
        ensures
            s@ == num_str(self.num as int, self.den as int),
    {
        let mut out = String::new();
        if self.num < 0 {
            proof {
                reveal_strlit("-");
                assert("-"@ =~= seq!['-']);
            }
            out.append("-");
        }
        let m = mag_u64(self.num);
        let d = self.den;
        if d == 1 {
            let whole = uint_to_string(m);
            out.append(whole.as_str());
            proof {
                assert(out@ =~= num_str(self.num as int, self.den as int));
            }
            return out;
        }
        let rem = m % d;
        if rem == 0 {
            let whole = uint_to_string(m / d);
            out.append(whole.as_str());
            proof {
                assert(out@ =~= num_str(self.num as int, self.den as int));
            }
            return out;
        }
        match frac_to_string(rem, d, 100) {
            Some(f) => {
                let whole = uint_to_string(m / d);
                out.append(whole.as_str());
                proof {
                    reveal_strlit(".");
                    assert("."@ =~= seq!['.']);
                }
                out.append(".");
                out.append(f.as_str());
                proof {
                    assert(out@ =~= num_str(self.num as int, self.den as int));
                }
                out
            },
            None => {
                let whole = uint_to_string(m);
                out.append(whole.as_str());
                proof {
                    reveal_strlit("/");
                    assert("/"@ =~= seq!['/']);
                }
                out.append("/");
                let dt = uint_to_string(d);
                out.append(dt.as_str());
                proof {
                    assert(out@ =~= num_str(self.num as int, self.den as int));
                }
                out
            },
        }
    }
}

/// A cross product of a numerator and a denominator fits in `i128`.
proof fn lemma_cross_fits(n: int, d: int)
    requires
        -i64::MAX <= n <= i64::MAX,
        0 <= d <= u64::MAX,
    ensures
        -i128::MAX <= n * d <= i128::MAX,
{
    lemma_iabs_mul(n, d);
    lemma_mul_upper_bound(iabs(n) as int, i64::MAX as int, d, u64::MAX as int);
}

} // verus!
