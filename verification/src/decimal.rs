//! Decimal numbers: a whole number, the mantissa, divided by a power of ten, the scale.
//!
//! Sums, differences, products and quotients are those of `rust_decimal`. Where no
//! rounding is needed the result is the exact one, and is stated. Rounding to 96 bits takes
//! pages to state; a rounded result carries a name (`decimal_sum` and the others).
use vstd::prelude::*;
use vstd::string::*;
use crate::text;
use crate::text::{number_text, padded_number_text, join2};

verus! {

/// The largest magnitude of a mantissa, 2^96 - 1.
pub const MAX_MANTISSA: i128 = 79_228_162_514_264_337_593_543_950_335;

/// The largest scale.
pub const MAX_SCALE: u32 = 28;

/// What a decimal number is: `mantissa / 10^scale`.
pub struct DecimalView {
    pub mantissa: int,
    pub scale: nat,
}

/// Ten to the power `n`.
pub open spec fn pow10(n: nat) -> int
    decreases n,
{
    if n == 0 {
        1
    } else {
        10 * pow10((n - 1) as nat)
    }
}

/// A mantissa that fits in 96 bits and a sign.
pub open spec fn fits(m: int) -> bool {
    -MAX_MANTISSA <= m <= MAX_MANTISSA
}

impl DecimalView {
    /// The parts are within the limits of the representation.
    pub open spec fn valid(self) -> bool {
        fits(self.mantissa) && self.scale <= MAX_SCALE
    }

    /// Less than `other` as a number.
    pub open spec fn below(self, other: DecimalView) -> bool {
        self.mantissa * pow10(other.scale) < other.mantissa * pow10(self.scale)
    }

    /// The mantissa that the same number has at the larger scale `scale`.
    pub open spec fn at_scale(self, scale: nat) -> int {
        self.mantissa * pow10((scale - self.scale) as nat)
    }
}

/// The larger of two scales.
pub open spec fn wider_scale(a: DecimalView, b: DecimalView) -> nat {
    if a.scale >= b.scale {
        a.scale
    } else {
        b.scale
    }
}

/// Both numbers, and the number that `total` gives at the wider scale, can be written at
/// that scale without rounding.
pub open spec fn aligned(a: DecimalView, b: DecimalView, total: int) -> bool {
    &&& fits(a.at_scale(wider_scale(a, b)))
    &&& fits(b.at_scale(wider_scale(a, b)))
    &&& fits(total)
}

/// The exact sum at the wider scale.
pub open spec fn exact_sum(a: DecimalView, b: DecimalView) -> int {
    a.at_scale(wider_scale(a, b)) + b.at_scale(wider_scale(a, b))
}

/// The exact difference at the wider scale.
pub open spec fn exact_difference(a: DecimalView, b: DecimalView) -> int {
    a.at_scale(wider_scale(a, b)) - b.at_scale(wider_scale(a, b))
}

/// The sum of two decimal numbers, rounded where it must be, or `None` where it is too large.
pub uninterp spec fn decimal_sum(a: DecimalView, b: DecimalView) -> Option<DecimalView>;

/// The difference of two decimal numbers, rounded where it must be, or `None` where it is too large.
pub uninterp spec fn decimal_difference(a: DecimalView, b: DecimalView) -> Option<DecimalView>;

/// The product of two decimal numbers, rounded where it must be, or `None` where it is too large.
pub uninterp spec fn decimal_product(a: DecimalView, b: DecimalView) -> Option<DecimalView>;

/// The quotient of two decimal numbers, rounded where it must be, or `None` where it is too large.
pub uninterp spec fn decimal_quotient(a: DecimalView, b: DecimalView) -> Option<DecimalView>;

/// The sum: the other operand where one is zero, the exact sum at the wider scale where
/// nothing exceeds 96 bits there, and the rounded one otherwise.
#[verifier::opaque]
pub open spec fn sum_of(a: DecimalView, b: DecimalView) -> Option<DecimalView> {
    if a.mantissa == 0 {
        Some(b)
    } else if b.mantissa == 0 {
        Some(a)
    } else if aligned(a, b, exact_sum(a, b)) {
        Some(DecimalView { mantissa: exact_sum(a, b), scale: wider_scale(a, b) })
    } else {
        decimal_sum(a, b)
    }
}

/// The difference: negated or unchanged where one operand is zero, the exact difference at
/// the wider scale where nothing exceeds 96 bits there, and the rounded one otherwise.
#[verifier::opaque]
pub open spec fn difference_of(a: DecimalView, b: DecimalView) -> Option<DecimalView> {
    if a.mantissa == 0 {
        Some(DecimalView { mantissa: -b.mantissa, scale: b.scale })
    } else if b.mantissa == 0 {
        Some(a)
    } else if aligned(a, b, exact_difference(a, b)) {
        Some(DecimalView { mantissa: exact_difference(a, b), scale: wider_scale(a, b) })
    } else {
        decimal_difference(a, b)
    }
}

/// The product: zero at scale zero where a factor is zero, the exact product where it fits
/// in 96 bits and its scale in 28, and the rounded one otherwise.
#[verifier::opaque]
pub open spec fn product_of(a: DecimalView, b: DecimalView) -> Option<DecimalView> {
    if a.mantissa == 0 || b.mantissa == 0 {
        Some(DecimalView { mantissa: 0, scale: 0 })
    } else if fits(a.mantissa * b.mantissa) && a.scale + b.scale <= MAX_SCALE {
        Some(DecimalView { mantissa: a.mantissa * b.mantissa, scale: a.scale + b.scale })
    } else {
        decimal_product(a, b)
    }
}

/// The quotient: none for the divisor zero, zero at scale zero where the dividend is zero,
/// the exact quotient where the mantissas divide and the scale does not grow, and the
/// rounded one otherwise.
#[verifier::opaque]
pub open spec fn quotient_of(a: DecimalView, b: DecimalView) -> Option<DecimalView> {
    if b.mantissa == 0 {
        None
    } else if a.mantissa == 0 {
        Some(DecimalView { mantissa: 0, scale: 0 })
    } else if a.mantissa % b.mantissa == 0 && a.scale >= b.scale {
        Some(
            DecimalView {
                mantissa: a.mantissa / b.mantissa,
                scale: (a.scale - b.scale) as nat,
            },
        )
    } else {
        decimal_quotient(a, b)
    }
}

/// The decimal number that a text denotes, or `None` where it denotes none.
pub uninterp spec fn decimal_parsed(s: Seq<char>) -> Option<DecimalView>;

/// The view of the parts `m` and `s`.
pub open spec fn parts(m: i128, s: u32) -> DecimalView {
    DecimalView { mantissa: m as int, scale: s as nat }
}

/// The view of parts that may be missing.
pub open spec fn opt_parts(r: Option<(i128, u32)>) -> Option<DecimalView> {
    match r {
        Some(p) => Some(parts(p.0, p.1)),
        None => None,
    }
}

/// `rust_decimal::Decimal::checked_add` on the numbers with the given parts. The result is
/// within the limits of the representation; a zero operand gives back the other operand;
/// otherwise the sum is exact at the wider scale where nothing exceeds 96 bits there.
#[verifier::external_body]
fn checked_sum(m1: i128, s1: u32, m2: i128, s2: u32) -> (r: Option<(i128, u32)>)
    requires
        parts(m1, s1).valid(),
        parts(m2, s2).valid(),
    ensures
        opt_parts(r) == decimal_sum(parts(m1, s1), parts(m2, s2)),
        opt_parts(r) == sum_of(parts(m1, s1), parts(m2, s2)),
        r matches Some(p) ==> parts(p.0, p.1).valid(),
{
    let a = rust_decimal::Decimal::from_i128_with_scale(m1, s1);
    let b = rust_decimal::Decimal::from_i128_with_scale(m2, s2);
    a.checked_add(b).map(|d| (d.mantissa(), d.scale()))
}

/// `rust_decimal::Decimal::checked_sub` on the numbers with the given parts. The result is
/// within the limits of the representation; taking from zero negates and taking zero
/// changes nothing; otherwise the difference is exact at the wider scale where nothing
/// exceeds 96 bits there.
#[verifier::external_body]
fn checked_difference(m1: i128, s1: u32, m2: i128, s2: u32) -> (r: Option<(i128, u32)>)
    requires
        parts(m1, s1).valid(),
        parts(m2, s2).valid(),
    ensures
        opt_parts(r) == decimal_difference(parts(m1, s1), parts(m2, s2)),
        opt_parts(r) == difference_of(parts(m1, s1), parts(m2, s2)),
        r matches Some(p) ==> parts(p.0, p.1).valid(),
{
    let a = rust_decimal::Decimal::from_i128_with_scale(m1, s1);
    let b = rust_decimal::Decimal::from_i128_with_scale(m2, s2);
    a.checked_sub(b).map(|d| (d.mantissa(), d.scale()))
}

/// `rust_decimal::Decimal::checked_mul` on the numbers with the given parts. The result is
/// within the limits of the representation; a zero factor gives zero at scale zero;
/// otherwise the product is exact where it fits in 96 bits and its scale in 28.
#[verifier::external_body]
fn checked_product(m1: i128, s1: u32, m2: i128, s2: u32) -> (r: Option<(i128, u32)>)
    requires
        parts(m1, s1).valid(),
        parts(m2, s2).valid(),
    ensures
        opt_parts(r) == decimal_product(parts(m1, s1), parts(m2, s2)),
        opt_parts(r) == product_of(parts(m1, s1), parts(m2, s2)),
        r matches Some(p) ==> parts(p.0, p.1).valid(),
{
    let a = rust_decimal::Decimal::from_i128_with_scale(m1, s1);
    let b = rust_decimal::Decimal::from_i128_with_scale(m2, s2);
    a.checked_mul(b).map(|d| (d.mantissa(), d.scale()))
}

/// `rust_decimal::Decimal::checked_div` on the numbers with the given parts. The result is
/// within the limits of the representation; there is none for the divisor zero; zero
/// divided gives zero at scale zero; otherwise the quotient is exact where the mantissas
/// divide and the scale does not grow.
#[verifier::external_body]
fn checked_quotient(m1: i128, s1: u32, m2: i128, s2: u32) -> (r: Option<(i128, u32)>)
    requires
        parts(m1, s1).valid(),
        parts(m2, s2).valid(),
    ensures
        opt_parts(r) == decimal_quotient(parts(m1, s1), parts(m2, s2)),
        opt_parts(r) == quotient_of(parts(m1, s1), parts(m2, s2)),
        r matches Some(p) ==> parts(p.0, p.1).valid(),
{
    let a = rust_decimal::Decimal::from_i128_with_scale(m1, s1);
    let b = rust_decimal::Decimal::from_i128_with_scale(m2, s2);
    a.checked_div(b).map(|d| (d.mantissa(), d.scale()))
}

/// `rust_decimal::Decimal`'s order on the numbers with the given parts: by value, whatever
/// the scales.
#[verifier::external_body]
fn compare_parts(m1: i128, s1: u32, m2: i128, s2: u32) -> (r: core::cmp::Ordering)
    requires
        parts(m1, s1).valid(),
        parts(m2, s2).valid(),
    ensures
        r == (if parts(m1, s1).below(parts(m2, s2)) {
            core::cmp::Ordering::Less
        } else if parts(m2, s2).below(parts(m1, s1)) {
            core::cmp::Ordering::Greater
        } else {
            core::cmp::Ordering::Equal
        }),
{
    let a = rust_decimal::Decimal::from_i128_with_scale(m1, s1);
    let b = rust_decimal::Decimal::from_i128_with_scale(m2, s2);
    a.cmp(&b)
}

/// `rust_decimal::Decimal`'s `from_str`: the parts of the number that the text denotes,
/// within the limits of the representation.
#[verifier::external_body]
fn parse_parts(s: &str) -> (r: Option<(i128, u32)>)
    ensures
        opt_parts(r) == decimal_parsed(s@),
        r matches Some(p) ==> parts(p.0, p.1).valid(),
{
    s.parse::<rust_decimal::Decimal>().ok().map(|d| (d.mantissa(), d.scale()))
}

/// A decimal number.
#[derive(Clone, Copy, Debug)]
pub struct Decimal {
    mantissa: i128,
    scale: u32,
}

impl Decimal {
    #[verifier::type_invariant]
    spec fn within_limits(self) -> bool {
        parts(self.mantissa, self.scale).valid()
    }

    /// The number that the value stands for.
    pub closed spec fn view(&self) -> DecimalView {
        parts(self.mantissa, self.scale)
    }

    /// The value with the given parts.
    pub closed spec fn of(v: DecimalView) -> Decimal {
        Decimal { mantissa: v.mantissa as i128, scale: v.scale as u32 }
    }

    /// The mantissa.
    pub open spec fn m(self) -> int {
        self@.mantissa
    }

    /// The scale.
    pub open spec fn s(self) -> nat {
        self@.scale
    }

    /// The value with a mantissa that fits and a scale up to 28.
    pub open spec fn lit(mantissa: int, scale: nat) -> Decimal {
        Decimal::of(DecimalView { mantissa, scale })
    }
}

/// A value is determined by its parts, and parts within the limits are those of a value.
pub broadcast proof fn lemma_of_view(v: DecimalView)
    requires
        v.valid(),
    ensures
        #[trigger] Decimal::of(v)@ == v,
{
}

/// Two values with the same parts are the same.
pub broadcast proof fn lemma_view_of(d: Decimal)
    ensures
        Decimal::of(#[trigger] d@) == d,
{
}

/// `None` or the value with the given parts.
pub open spec fn opt_of(v: Option<DecimalView>) -> Option<Decimal> {
    match v {
        Some(v) => Some(Decimal::of(v)),
        None => None,
    }
}

/// `x < y` as numbers.
pub open spec fn lt(x: Decimal, y: Decimal) -> bool {
    x@.below(y@)
}

/// `x <= y` as numbers.
pub open spec fn le(x: Decimal, y: Decimal) -> bool {
    !lt(y, x)
}

/// `x == y` as numbers.
pub open spec fn same(x: Decimal, y: Decimal) -> bool {
    x.m() * pow10(y.s()) == y.m() * pow10(x.s())
}

/// `x + y`, missing where an operand is missing or the sum is too large.
pub open spec fn plus(x: Option<Decimal>, y: Option<Decimal>) -> Option<Decimal> {
    match (x, y) {
        (Some(x), Some(y)) => opt_of(sum_of(x@, y@)),
        _ => None,
    }
}

/// `x - y`, missing where an operand is missing or the difference is too large.
pub open spec fn minus(x: Option<Decimal>, y: Option<Decimal>) -> Option<Decimal> {
    match (x, y) {
        (Some(x), Some(y)) => opt_of(difference_of(x@, y@)),
        _ => None,
    }
}

/// `x * y`, missing where an operand is missing or the product is too large.
pub open spec fn times(x: Option<Decimal>, y: Option<Decimal>) -> Option<Decimal> {
    match (x, y) {
        (Some(x), Some(y)) => opt_of(product_of(x@, y@)),
        _ => None,
    }
}

/// `x / y`, missing where an operand is missing, `y` is zero or the quotient is too large.
pub open spec fn over(x: Option<Decimal>, y: Option<Decimal>) -> Option<Decimal> {
    match (x, y) {
        (Some(x), Some(y)) => opt_of(quotient_of(x@, y@)),
        _ => None,
    }
}

/// Zero at scale zero.
pub open spec fn zero() -> Decimal {
    Decimal::lit(0, 0)
}

/// One at scale zero.
pub open spec fn one() -> Decimal {
    Decimal::lit(1, 0)
}

/// `-x`.
pub open spec fn negated(x: Decimal) -> Decimal {
    Decimal::lit(-x.m(), x.s())
}

/// The magnitude of `x`.
pub open spec fn magnitude(x: Decimal) -> Decimal {
    if x.m() < 0 {
        negated(x)
    } else {
        x
    }
}

/// The smaller of two numbers, the first where they are equal.
pub open spec fn smaller(x: Decimal, y: Decimal) -> Decimal {
    if lt(y, x) {
        y
    } else {
        x
    }
}

/// The larger of two numbers, the first where they are equal.
pub open spec fn larger(x: Decimal, y: Decimal) -> Decimal {
    if lt(x, y) {
        y
    } else {
        x
    }
}

/// `x` brought between `lo` and `hi`.
pub open spec fn clamped(x: Decimal, lo: Decimal, hi: Decimal) -> Decimal {
    if lt(x, lo) {
        lo
    } else if lt(hi, x) {
        hi
    } else {
        x
    }
}

/// The sum of a row of numbers, taken from the left, or `None` where a step is too large.
pub open spec fn total(s: Seq<Decimal>) -> Option<Decimal>
    decreases s.len(),
{
    if s.len() == 0 {
        Some(zero())
    } else {
        plus(total(s.drop_last()), Some(s.last()))
    }
}

/// The numeral of a number: sign, whole part, and as many fraction digits as the scale.
pub open spec fn decimal_text(v: DecimalView) -> Seq<char> {
    let a = if v.mantissa < 0 {
        (-v.mantissa) as nat
    } else {
        v.mantissa as nat
    };
    let p = pow10(v.scale) as nat;
    (if v.mantissa < 0 {
        "-"@
    } else {
        ""@
    }) + text::digits(a / p) + (if v.scale == 0 {
        ""@
    } else {
        "."@ + text::padded_digits(a % p, v.scale)
    })
}

/// The first eight fraction digits of a number, cut off and not rounded.
pub open spec fn eight_places(v: DecimalView) -> nat {
    let a = if v.mantissa < 0 {
        (-v.mantissa) as nat
    } else {
        v.mantissa as nat
    };
    let f = a % (pow10(v.scale) as nat);
    if v.scale <= 8 {
        f * (pow10((8 - v.scale) as nat) as nat)
    } else {
        f / (pow10((v.scale - 8) as nat) as nat)
    }
}

/// The numeral with eight fraction digits.
pub open spec fn fixed_text(v: DecimalView) -> Seq<char> {
    let a = if v.mantissa < 0 {
        (-v.mantissa) as nat
    } else {
        v.mantissa as nat
    };
    (if v.mantissa < 0 {
        "-"@
    } else {
        ""@
    }) + text::digits(a / (pow10(v.scale) as nat)) + "."@ + text::padded_digits(eight_places(v), 8)
}

pub proof fn lemma_pow10_positive(n: nat)
    ensures
        pow10(n) >= 1,
    decreases n,
{
    if n > 0 {
        lemma_pow10_positive((n - 1) as nat);
    }
}

proof fn lemma_pow10_grows(a: nat, b: nat)
    requires
        a <= b,
    ensures
        1 <= pow10(a) <= pow10(b),
    decreases b,
{
    lemma_pow10_positive(a);
    if a < b {
        lemma_pow10_grows(a, (b - 1) as nat);
    }
}

pub proof fn lemma_pow10_adds(a: nat, b: nat)
    ensures
        pow10(a + b) == pow10(a) * pow10(b),
    decreases b,
{
    if b == 0 {
        assert(pow10(a) * 1 == pow10(a));
    } else {
        lemma_pow10_adds(a, (b - 1) as nat);
        assert(pow10(a + b) == 10 * pow10((a + b - 1) as nat));
        assert(10 * (pow10(a) * pow10((b - 1) as nat)) == pow10(a) * (10 * pow10((b - 1) as nat)))
            by (nonlinear_arith);
    }
}

proof fn lemma_pow10_bound(n: nat)
    requires
        n <= 28,
    ensures
        1 <= pow10(n) <= 10_000_000_000_000_000_000_000_000_000,
{
    lemma_pow10_grows(n, 28);
    assert(pow10(28) == 10_000_000_000_000_000_000_000_000_000) by {
        reveal_with_fuel(pow10, 29);
    }
}

proof fn lemma_floor(m: int, p: int)
    requires
        p >= 1,
        fits(m),
    ensures
        fits(m / p),
        m < 0 ==> m / p == (if (-m) % p == 0 {
            -((-m) / p)
        } else {
            -((-m) / p) - 1
        }),
        m < 0 && (-m) % p != 0 ==> (-m) / p + 1 <= -m,
{
    vstd::arithmetic::div_mod::lemma_fundamental_div_mod(m, p);
    vstd::arithmetic::div_mod::lemma_fundamental_div_mod(-m, p);
    let q = m / p;
    let r = m % p;
    let q2 = (-m) / p;
    let r2 = (-m) % p;
    if m >= 0 {
        assert(0 <= q <= m) by (nonlinear_arith)
            requires
                m == p * q + r,
                0 <= r < p,
                m >= 0,
                p >= 1,
        ;
    } else {
        assert(r2 == 0 ==> q == -q2) by (nonlinear_arith)
            requires
                m == p * q + r,
                -m == p * q2 + r2,
                0 <= r < p,
                0 <= r2 < p,
        ;
        assert(r2 != 0 ==> q == -q2 - 1) by (nonlinear_arith)
            requires
                m == p * q + r,
                -m == p * q2 + r2,
                0 <= r < p,
                0 <= r2 < p,
        ;
        assert(q2 >= 0 && q2 <= -m && (r2 != 0 ==> q2 + 1 <= -m)) by (nonlinear_arith)
            requires
                -m == p * q2 + r2,
                0 <= r2 < p,
                p >= 1,
                m < 0,
        ;
    }
}

fn power_of_ten(n: u32) -> (r: u128)
    requires
        n <= 28,
    ensures
        r == pow10(n as nat),
        r >= 1,
{
    let mut p: u128 = 1;
    let mut i: u32 = 0;
    while i < n
        invariant
            i <= n <= 28,
            p == pow10(i as nat),
        decreases n - i,
    {
        proof {
            lemma_pow10_bound((i + 1) as nat);
        }
        p = p * 10;
        i = i + 1;
    }
    proof {
        lemma_pow10_bound(n as nat);
    }
    p
}

impl Decimal {
    /// The number `num / 10^scale`.
    pub fn new(num: i64, scale: u32) -> (r: Decimal)
        requires
            scale <= MAX_SCALE,
        ensures
            r == Decimal::lit(num as int, scale as nat),
            r.m() == num,
            r.s() == scale,
    {
        Decimal { mantissa: num as i128, scale }
    }

    /// The number with the given parts, if they are within the limits.
    pub fn from_parts(mantissa: i128, scale: u32) -> (r: Option<Decimal>)
        ensures
            r == (if parts(mantissa, scale).valid() {
                Some(Decimal::of(parts(mantissa, scale)))
            } else {
                None
            }),
            r matches Some(d) ==> d@ == parts(mantissa, scale),
    {
        if -MAX_MANTISSA <= mantissa && mantissa <= MAX_MANTISSA && scale <= MAX_SCALE {
            Some(Decimal { mantissa, scale })
        } else {
            None
        }
    }

    /// Zero.
    pub fn zero() -> (r: Decimal)
        ensures
            r == zero(),
            r.m() == 0,
            r.s() == 0,
    {
        Decimal { mantissa: 0, scale: 0 }
    }

    /// One.
    pub fn one() -> (r: Decimal)
        ensures
            r == one(),
            r.m() == 1,
            r.s() == 0,
    {
        Decimal { mantissa: 1, scale: 0 }
    }

    /// The mantissa.
    pub fn mantissa(&self) -> (r: i128)
        ensures
            r == self.m(),
            fits(r as int),
    {
        proof {
            use_type_invariant(self);
        }
        self.mantissa
    }

    /// The scale.
    pub fn scale(&self) -> (r: u32)
        ensures
            r == self.s(),
            r <= MAX_SCALE,
    {
        proof {
            use_type_invariant(self);
        }
        self.scale
    }

    /// Reads a number.
    pub fn parse(s: &str) -> (r: Option<Decimal>)
        ensures
            r == opt_of(decimal_parsed(s@)),
    {
        match parse_parts(s) {
            Some(p) => Some(Decimal { mantissa: p.0, scale: p.1 }),
            None => None,
        }
    }

    /// `self + other`, or `None` where it is too large.
    pub fn checked_add(self, other: Decimal) -> (r: Option<Decimal>)
        ensures
            r == plus(Some(self), Some(other)),
    {
        proof {
            use_type_invariant(&self);
            use_type_invariant(&other);
        }
        match checked_sum(self.mantissa, self.scale, other.mantissa, other.scale) {
            Some(p) => Some(Decimal { mantissa: p.0, scale: p.1 }),
            None => None,
        }
    }

    /// `self - other`, or `None` where it is too large.
    pub fn checked_sub(self, other: Decimal) -> (r: Option<Decimal>)
        ensures
            r == minus(Some(self), Some(other)),
    {
        proof {
            use_type_invariant(&self);
            use_type_invariant(&other);
        }
        match checked_difference(self.mantissa, self.scale, other.mantissa, other.scale) {
            Some(p) => Some(Decimal { mantissa: p.0, scale: p.1 }),
            None => None,
        }
    }

    /// `self * other`, or `None` where it is too large.
    pub fn checked_mul(self, other: Decimal) -> (r: Option<Decimal>)
        ensures
            r == times(Some(self), Some(other)),
    {
        proof {
            use_type_invariant(&self);
            use_type_invariant(&other);
        }
        match checked_product(self.mantissa, self.scale, other.mantissa, other.scale) {
            Some(p) => Some(Decimal { mantissa: p.0, scale: p.1 }),
            None => None,
        }
    }

    /// `self / other`, or `None` where `other` is zero or the quotient is too large.
    pub fn checked_div(self, other: Decimal) -> (r: Option<Decimal>)
        ensures
            r == over(Some(self), Some(other)),
    {
        proof {
            use_type_invariant(&self);
            use_type_invariant(&other);
        }
        match checked_quotient(self.mantissa, self.scale, other.mantissa, other.scale) {
            Some(p) => Some(Decimal { mantissa: p.0, scale: p.1 }),
            None => None,
        }
    }

    /// How the two numbers compare.
    fn three_way(&self, other: &Decimal) -> (r: core::cmp::Ordering)
        ensures
            r == (if lt(*self, *other) {
                core::cmp::Ordering::Less
            } else if lt(*other, *self) {
                core::cmp::Ordering::Greater
            } else {
                core::cmp::Ordering::Equal
            }),
    {
        proof {
            use_type_invariant(self);
            use_type_invariant(other);
        }
        compare_parts(self.mantissa, self.scale, other.mantissa, other.scale)
    }

    /// Whether `self` is less than `other`.
    pub fn below(&self, other: Decimal) -> (r: bool)
        ensures
            r == lt(*self, other),
    {
        match self.three_way(&other) {
            core::cmp::Ordering::Less => true,
            _ => false,
        }
    }

    /// Whether `self` is at most `other`.
    pub fn at_most(&self, other: Decimal) -> (r: bool)
        ensures
            r == le(*self, other),
    {
        !other.below(*self)
    }

    /// Whether the two are the same number.
    pub fn equals(&self, other: Decimal) -> (r: bool)
        ensures
            r == same(*self, other),
    {
        match self.three_way(&other) {
            core::cmp::Ordering::Equal => true,
            _ => false,
        }
    }

    /// Whether the number is zero.
    pub fn is_zero(&self) -> (r: bool)
        ensures
            r == (self.m() == 0),
    {
        self.mantissa == 0
    }

    /// Whether the number is less than zero.
    pub fn is_negative(&self) -> (r: bool)
        ensures
            r == (self.m() < 0),
    {
        self.mantissa < 0
    }

    /// Whether the number is greater than zero.
    pub fn is_positive(&self) -> (r: bool)
        ensures
            r == (self.m() > 0),
    {
        self.mantissa > 0
    }

    /// The number with the other sign.
    pub fn negate(&self) -> (r: Decimal)
        ensures
            r == negated(*self),
            r.m() == -self.m(),
            r.s() == self.s(),
    {
        proof {
            use_type_invariant(self);
        }
        Decimal { mantissa: -self.mantissa, scale: self.scale }
    }

    /// The magnitude of the number.
    pub fn abs(&self) -> (r: Decimal)
        ensures
            r == magnitude(*self),
            r.m() >= 0,
            r.s() == self.s(),
    {
        if self.mantissa < 0 {
            self.negate()
        } else {
            *self
        }
    }

    /// The smaller of two numbers, this one where they are equal.
    pub fn min(self, other: Decimal) -> (r: Decimal)
        ensures
            r == smaller(self, other),
    {
        if other.below(self) {
            other
        } else {
            self
        }
    }

    /// The larger of two numbers, this one where they are equal.
    pub fn max(self, other: Decimal) -> (r: Decimal)
        ensures
            r == larger(self, other),
    {
        if self.below(other) {
            other
        } else {
            self
        }
    }

    /// The number brought between `lo` and `hi`.
    pub fn clamp(self, lo: Decimal, hi: Decimal) -> (r: Decimal)
        requires
            le(lo, hi),
        ensures
            r == clamped(self, lo, hi),
    {
        if self.below(lo) {
            lo
        } else if hi.below(self) {
            hi
        } else {
            self
        }
    }

    /// The whole part of a number that is not negative, where it fits.
    pub fn to_u32(&self) -> (r: Option<u32>)
        ensures
            r == (if self.m() >= 0 && self.m() / pow10(self.s()) <= u32::MAX {
                Some((self.m() / pow10(self.s())) as u32)
            } else {
                None
            }),
    {
        proof {
            use_type_invariant(self);
        }
        if self.mantissa < 0 {
            return None;
        }
        let whole: u128 = self.mantissa as u128 / power_of_ten(self.scale);
        if whole <= u32::MAX as u128 {
            Some(whole as u32)
        } else {
            None
        }
    }

    /// The nearest whole number, the even one where two are as near.
    pub fn round_half_even(&self) -> (r: Decimal)
        ensures
            r == Decimal::lit(crate::types::nearest_whole(self@), 0),
    {
        proof {
            use_type_invariant(self);
            lemma_pow10_bound(self.scale as nat);
        }
        let a: u128 = self.abs().mantissa as u128;
        let p: u128 = power_of_ten(self.scale);
        let f: u128 = a % p;
        let up = 2 * f > p || (2 * f == p && (a / p) % 2 == 1);
        proof {
            let whole = a as int / p as int;
            let rest = a as int % p as int;
            vstd::arithmetic::div_mod::lemma_fundamental_div_mod(a as int, p as int);
            assert(whole <= a) by (nonlinear_arith)
                requires
                    a == p * whole + rest,
                    p >= 1,
                    rest >= 0,
                    a >= 0,
            ;
            if up {
                assert(rest > 0);
                assert(whole + 1 <= a) by (nonlinear_arith)
                    requires
                        a == p * whole + rest,
                        p >= 1,
                        rest >= 1,
                        whole >= 0,
                ;
            }
        }
        let n: i128 = (a / p) as i128 + if up {
            1
        } else {
            0
        };
        Decimal {
            mantissa: if self.mantissa < 0 {
                -n
            } else {
                n
            },
            scale: 0,
        }
    }

    /// The largest whole number that is not above the number.
    pub fn floor(&self) -> (r: Decimal)
        ensures
            r == Decimal::lit(self.m() / pow10(self.s()), 0),
    {
        proof {
            use_type_invariant(self);
            lemma_pow10_bound(self.scale as nat);
        }
        let a: u128 = self.abs().mantissa as u128;
        let p: u128 = power_of_ten(self.scale);
        let n: i128 = if self.mantissa >= 0 {
            (a / p) as i128
        } else if a % p == 0 {
            -((a / p) as i128)
        } else {
            -((a / p) as i128) - 1
        };
        proof {
            lemma_floor(self.mantissa as int, p as int);
        }
        Decimal { mantissa: n, scale: 0 }
    }

    /// The numeral of the number.
    pub fn to_string(&self) -> (r: String)
        ensures
            r@ == decimal_text(self@),
    {
        proof {
            use_type_invariant(self);
            reveal_strlit("");
            lemma_pow10_bound(self.scale as nat);
        }
        let a: u128 = self.abs().mantissa as u128;
        let p: u128 = power_of_ten(self.scale);
        let mut out = String::new();
        if self.mantissa < 0 {
            out.append("-");
        }
        assert(out@ =~= if self.mantissa < 0 { "-"@ } else { ""@ });
        out.append(number_text(a / p).as_str());
        if self.scale > 0 {
            out.append(join2(".", padded_number_text(a % p, self.scale).as_str()).as_str());
        }
        assert(out@ =~= decimal_text(self@));
        out
    }

    /// The numeral of the number with eight fraction digits, cut off and not rounded.
    pub fn to_fixed_string(&self) -> (r: String)
        ensures
            r@ == fixed_text(self@),
    {
        proof {
            use_type_invariant(self);
            reveal_strlit("");
            lemma_pow10_bound(self.scale as nat);
        }
        let a: u128 = self.abs().mantissa as u128;
        let p: u128 = power_of_ten(self.scale);
        let f: u128 = a % p;
        let mut out = String::new();
        if self.mantissa < 0 {
            out.append("-");
        }
        assert(out@ =~= if self.mantissa < 0 { "-"@ } else { ""@ });
        out.append(number_text(a / p).as_str());
        out.append(".");
        let places: u128 = if self.scale <= 8 {
            let q: u128 = power_of_ten(8 - self.scale);
            proof {
                lemma_pow10_grows((8 - self.scale) as nat, 8);
                assert(pow10(8) == 100_000_000) by {
                    reveal_with_fuel(pow10, 9);
                }
            }
            assert(f * q <= 10_000_000_000_000_000_000_000_000_000
                * 10_000_000_000) by (nonlinear_arith)
                requires
                    0 <= f <= 10_000_000_000_000_000_000_000_000_000,
                    0 <= q <= 10_000_000_000,
            ;
            f * q
        } else {
            f / power_of_ten(self.scale - 8)
        };
        out.append(padded_number_text(places, 8).as_str());
        assert(out@ =~= fixed_text(self@));
        out
    }
}

/// `x + y` where both are there.
pub fn sum(x: Option<Decimal>, y: Option<Decimal>) -> (r: Option<Decimal>)
    ensures
        r == plus(x, y),
{
    match (x, y) {
        (Some(x), Some(y)) => x.checked_add(y),
        _ => None,
    }
}

/// `x - y` where both are there.
pub fn difference(x: Option<Decimal>, y: Option<Decimal>) -> (r: Option<Decimal>)
    ensures
        r == minus(x, y),
{
    match (x, y) {
        (Some(x), Some(y)) => x.checked_sub(y),
        _ => None,
    }
}

/// `x * y` where both are there.
pub fn product(x: Option<Decimal>, y: Option<Decimal>) -> (r: Option<Decimal>)
    ensures
        r == times(x, y),
{
    match (x, y) {
        (Some(x), Some(y)) => x.checked_mul(y),
        _ => None,
    }
}

/// `x / y` where both are there.
pub fn quotient(x: Option<Decimal>, y: Option<Decimal>) -> (r: Option<Decimal>)
    ensures
        r == over(x, y),
{
    match (x, y) {
        (Some(x), Some(y)) => x.checked_div(y),
        _ => None,
    }
}

impl PartialEq for Decimal {
    fn eq(&self, other: &Decimal) -> (r: bool) {
        self.equals(*other)
    }
}

impl vstd::std_specs::cmp::PartialEqSpecImpl for Decimal {
    open spec fn obeys_eq_spec() -> bool {
        true
    }

    open spec fn eq_spec(&self, other: &Decimal) -> bool {
        same(*self, *other)
    }
}

impl Eq for Decimal {

}

impl PartialOrd for Decimal {
    fn partial_cmp(&self, other: &Decimal) -> (r: Option<core::cmp::Ordering>) {
        Some(self.three_way(other))
    }
}

impl vstd::std_specs::cmp::PartialOrdSpecImpl for Decimal {
    open spec fn obeys_partial_cmp_spec() -> bool {
        true
    }

    open spec fn partial_cmp_spec(&self, other: &Decimal) -> Option<core::cmp::Ordering> {
        if lt(*self, *other) {
            Some(core::cmp::Ordering::Less)
        } else if lt(*other, *self) {
            Some(core::cmp::Ordering::Greater)
        } else {
            Some(core::cmp::Ordering::Equal)
        }
    }
}

impl Default for Decimal {
    fn default() -> (r: Decimal)
        ensures
            r == zero(),
    {
        Decimal::zero()
    }
}

/// The number in units of the finest scale: exact for every decimal number.
pub open spec fn units(x: Decimal) -> int {
    x@.at_scale(28)
}

/// The sum needs no rounding.
pub open spec fn adds_exactly(x: Decimal, y: Decimal) -> bool {
    x.m() == 0 || y.m() == 0 || aligned(x@, y@, exact_sum(x@, y@))
}

/// The difference needs no rounding.
pub open spec fn subtracts_exactly(x: Decimal, y: Decimal) -> bool {
    x.m() == 0 || y.m() == 0 || aligned(x@, y@, exact_difference(x@, y@))
}

/// The product needs no rounding.
pub open spec fn multiplies_exactly(x: Decimal, y: Decimal) -> bool {
    times(Some(x), Some(y)) matches Some(z) && z@.valid() && units(z) * pow10(28) == units(x)
        * units(y)
}

/// The quotient needs no rounding.
pub open spec fn divides_exactly(x: Decimal, y: Decimal) -> bool {
    over(Some(x), Some(y)) matches Some(z) && z@.valid() && units(z) * units(y) == units(x)
        * pow10(28)
}

/// The sign of a number is that of its units.
pub proof fn lemma_units_sign(x: Decimal)
    requires
        x@.valid(),
    ensures
        units(x) > 0 <==> x.m() > 0,
        units(x) < 0 <==> x.m() < 0,
        magnitude(x)@.valid(),
        units(magnitude(x)) == (if units(x) < 0 {
            -units(x)
        } else {
            units(x)
        }),
        units(zero()) == 0,
        zero()@.valid(),
        units(one()) == pow10(28),
        units(negated(one())) == -pow10(28),
        negated(x)@.valid(),
        units(negated(x)) == -units(x),
{
    broadcast use lemma_of_view, lemma_view_of;

    lemma_pow10_positive((28 - x.s()) as nat);
    lemma_pow10_positive(28);
    let (m, p) = (x.m(), pow10((28 - x.s()) as nat));
    assert((m * p > 0) == (m > 0) && (m * p < 0) == (m < 0) && (-m) * p == -(m * p))
        by (nonlinear_arith)
        requires
            p > 0,
    ;
    assert(negated(x)@ == (DecimalView { mantissa: -m, scale: x.s() }));
    assert(one()@ == (DecimalView { mantissa: 1, scale: 0 }));
    assert(zero()@ == (DecimalView { mantissa: 0, scale: 0 }));
    assert(negated(one())@ == (DecimalView { mantissa: -1, scale: 0 }));
    assert(0 * pow10(28) == 0);
    assert(1 * pow10(28) == pow10(28));
    assert(-1 * pow10(28) == -pow10(28));
}

/// The share of a whole that a part of the same size takes is the whole.
pub proof fn lemma_whole_share(whole: Decimal, part: Decimal, of: Decimal)
    requires
        units(part) == units(of),
        units(of) > 0,
        divides_exactly(part, of),
        multiplies_exactly(whole, over(Some(part), Some(of))->0),
    ensures
        units(times(Some(whole), over(Some(part), Some(of)))->0) == units(whole),
{
    lemma_pow10_positive(28);
    let k = pow10(28);
    let ratio = over(Some(part), Some(of))->0;
    let share = times(Some(whole), Some(ratio))->0;
    let (r, o, w, s) = (units(ratio), units(of), units(whole), units(share));
    assert(r == k) by (nonlinear_arith)
        requires
            o > 0,
            r * o == o * k,
    ;
    assert(s == w) by (nonlinear_arith)
        requires
            k > 0,
            s * k == w * k,
    ;
}

/// No step of the sum of a row is rounded.
pub open spec fn totals_exactly(s: Seq<Decimal>) -> bool
    decreases s.len(),
{
    s.len() > 0 ==> totals_exactly(s.drop_last()) && (total(s.drop_last()) matches Some(t)
        ==> adds_exactly(t, s.last()))
}

/// The sum of a row in units.
pub open spec fn units_total(s: Seq<Decimal>) -> int
    decreases s.len(),
{
    if s.len() == 0 {
        0
    } else {
        units_total(s.drop_last()) + units(s.last())
    }
}

/// The sum of a row without rounding is the sum of the numbers.
pub proof fn law_exact_total(s: Seq<Decimal>)
    requires
        forall|i: int| 0 <= i < s.len() ==> (#[trigger] s[i])@.valid(),
        totals_exactly(s),
    ensures
        total(s) matches Some(z) && z@.valid() && units(z) == units_total(s),
    decreases s.len(),
{
    broadcast use lemma_of_view;

    if s.len() == 0 {
        lemma_units_sign(zero());
    } else {
        let rest = s.drop_last();
        assert forall|i: int| 0 <= i < rest.len() implies (#[trigger] rest[i])@.valid() by {
            assert(rest[i] == s[i]);
        }
        law_exact_total(rest);
        assert(s[s.len() - 1]@.valid());
        law_exact_sum(total(rest)->0, s.last());
    }
}

/// A number in a row is exchanged for another.
pub proof fn lemma_units_total_update(s: Seq<Decimal>, i: int, x: Decimal)
    requires
        0 <= i < s.len(),
    ensures
        units_total(s.update(i, x)) == units_total(s) - units(s[i]) + units(x),
    decreases s.len(),
{
    let t = s.update(i, x);
    if i == s.len() - 1 {
        assert(t.drop_last() =~= s.drop_last());
    } else {
        lemma_units_total_update(s.drop_last(), i, x);
        assert(t.drop_last() =~= s.drop_last().update(i, x));
        assert(t.last() == s.last());
    }
}

proof fn lemma_units_at(v: DecimalView, w: nat)
    requires
        v.scale <= w <= 28,
    ensures
        v.at_scale(28) == v.at_scale(w) * pow10((28 - w) as nat),
{
    lemma_pow10_adds((w - v.scale) as nat, (28 - w) as nat);
    let a = pow10((w - v.scale) as nat);
    let b = pow10((28 - w) as nat);
    assert(v.mantissa * (a * b) == (v.mantissa * a) * b) by (nonlinear_arith);
}

/// A sum without rounding is the sum of the numbers.
pub proof fn law_exact_sum(x: Decimal, y: Decimal)
    requires
        x@.valid(),
        y@.valid(),
        adds_exactly(x, y),
    ensures
        plus(Some(x), Some(y)) matches Some(z) && z@.valid() && units(z) == units(x) + units(y),
{
    reveal(sum_of);
    broadcast use lemma_of_view, lemma_view_of;

    let w = wider_scale(x@, y@);
    assert(0 * pow10((28 - x.s()) as nat) == 0);
    assert(0 * pow10((28 - y.s()) as nat) == 0);
    if x.m() != 0 && y.m() != 0 {
        let t = DecimalView { mantissa: exact_sum(x@, y@), scale: w };
        lemma_units_at(x@, w);
        lemma_units_at(y@, w);
        assert((x@.at_scale(w) + y@.at_scale(w)) * pow10((28 - w) as nat) == x@.at_scale(w)
            * pow10((28 - w) as nat) + y@.at_scale(w) * pow10((28 - w) as nat))
            by (nonlinear_arith);
        assert(plus(Some(x), Some(y)) == Some(Decimal::of(t)));
    }
}

/// A difference without rounding is the difference of the numbers.
pub proof fn law_exact_difference(x: Decimal, y: Decimal)
    requires
        x@.valid(),
        y@.valid(),
        subtracts_exactly(x, y),
    ensures
        minus(Some(x), Some(y)) matches Some(z) && z@.valid() && units(z) == units(x) - units(y),
{
    reveal(difference_of);
    broadcast use lemma_of_view, lemma_view_of;

    let w = wider_scale(x@, y@);
    let p = pow10((28 - y.s()) as nat);
    let m = y.m();
    assert(-m * p == -(m * p)) by (nonlinear_arith);
    assert(0 * pow10((28 - x.s()) as nat) == 0);
    if x.m() == 0 {
        let t = DecimalView { mantissa: -y.m(), scale: y.s() };
        assert(minus(Some(x), Some(y)) == Some(Decimal::of(t)));
    } else if y.m() != 0 {
        let t = DecimalView { mantissa: exact_difference(x@, y@), scale: w };
        lemma_units_at(x@, w);
        lemma_units_at(y@, w);
        assert((x@.at_scale(w) - y@.at_scale(w)) * pow10((28 - w) as nat) == x@.at_scale(w)
            * pow10((28 - w) as nat) - y@.at_scale(w) * pow10((28 - w) as nat))
            by (nonlinear_arith);
        assert(minus(Some(x), Some(y)) == Some(Decimal::of(t)));
    }
}

/// A product of numbers that are short enough is the product of the numbers.
pub proof fn law_exact_product(x: Decimal, y: Decimal)
    requires
        x@.valid(),
        y@.valid(),
        x.m() == 0 || y.m() == 0 || (fits(x.m() * y.m()) && x.s() + y.s() <= 28),
    ensures
        multiplies_exactly(x, y),
        times(Some(x), Some(y)) matches Some(z) && units(z) * pow10(28) == units(x) * units(y),
{
    reveal(product_of);
    broadcast use lemma_of_view, lemma_view_of;

    let (a, b) = (x.m(), y.m());
    let (u, v) = (pow10((28 - x.s()) as nat), pow10((28 - y.s()) as nat));
    let k = pow10(28);
    if a == 0 || b == 0 {
        let z = Decimal::of(DecimalView { mantissa: 0, scale: 0 });
        assert(0 * k == 0 && 0 * u == 0 && 0 * v == 0);
        assert((a * u) * (b * v) == 0) by (nonlinear_arith)
            requires
                a == 0 || b == 0,
        ;
        assert(units(z) == 0);
    } else {
        let t = DecimalView { mantissa: a * b, scale: x.s() + y.s() };
        let w = pow10((28 - t.scale) as nat);
        lemma_pow10_adds((28 - x.s()) as nat, (28 - y.s()) as nat);
        lemma_pow10_adds((28 - t.scale) as nat, 28);
        assert((28 - x.s()) as nat + (28 - y.s()) as nat == (28 - t.scale) as nat + 28);
        assert(u * v == w * k);
        assert((a * b * w) * k == (a * u) * (b * v)) by (nonlinear_arith)
            requires
                u * v == w * k,
        ;
        assert(times(Some(x), Some(y)) == Some(Decimal::of(t)));
    }
}

/// A quotient that comes out even is the quotient of the numbers.
pub proof fn law_exact_quotient(x: Decimal, y: Decimal)
    requires
        x@.valid(),
        y@.valid(),
        y.m() != 0,
        x.m() % y.m() == 0,
        x.s() >= y.s(),
    ensures
        divides_exactly(x, y),
        over(Some(x), Some(y)) matches Some(z) && units(z) * units(y) == units(x) * pow10(28),
{
    reveal(quotient_of);
    broadcast use lemma_of_view, lemma_view_of;

    let (a, b) = (x.m(), y.m());
    let (u, v) = (pow10((28 - x.s()) as nat), pow10((28 - y.s()) as nat));
    let k = pow10(28);
    let q = a / b;
    vstd::arithmetic::div_mod::lemma_fundamental_div_mod(a, b);
    if a == 0 {
        let z = Decimal::of(DecimalView { mantissa: 0, scale: 0 });
        assert(0 * k == 0 && 0 * u == 0);
        assert(units(z) == 0);
        assert(0 * units(y) == 0);
    } else {
        let t = DecimalView { mantissa: q, scale: (x.s() - y.s()) as nat };
        assert(fits(q)) by (nonlinear_arith)
            requires
                a == b * q,
                fits(a),
                b != 0,
                a != 0,
        ;
        let w = pow10((28 - t.scale) as nat);
        lemma_pow10_adds((28 - t.scale) as nat, (28 - y.s()) as nat);
        lemma_pow10_adds((28 - x.s()) as nat, 28);
        assert((28 - t.scale) as nat + (28 - y.s()) as nat == (28 - x.s()) as nat + 28);
        assert(w * v == u * k);
        assert((q * w) * (b * v) == (a * u) * k) by (nonlinear_arith)
            requires
                w * v == u * k,
                a == b * q,
        ;
        assert(over(Some(x), Some(y)) == Some(Decimal::of(t)));
    }
}

/// One times a number is the number, and minus one times it is the number with the other sign.
pub proof fn lemma_times_one(x: Decimal)
    requires
        x@.valid(),
    ensures
        times(Some(x), Some(one())) matches Some(z) && z@.valid() && units(z) == units(x) && (x.m()
            != 0 ==> z == x) && (x.m() == 0 ==> z.m() == 0),
        times(Some(x), Some(negated(one()))) matches Some(z) && z@.valid() && units(z) == -units(x)
            && (x.m() != 0 ==> z == negated(x)) && (x.m() == 0 ==> z.m() == 0),
{
    reveal(product_of);
    broadcast use lemma_of_view, lemma_view_of;

    lemma_units_sign(x);
    lemma_units_sign(one());
    lemma_pow10_positive(28);
    assert(one()@ == (DecimalView { mantissa: 1, scale: 0 }));
    assert(negated(one())@ == (DecimalView { mantissa: -1, scale: 0 }));
    assert(x.m() * 1 == x.m() && x.m() * (-1) == -x.m());
    law_exact_product(x, one());
    law_exact_product(x, negated(one()));
    let (k, a) = (pow10(28), units(x));
    let b = units(times(Some(x), Some(one()))->0);
    let c = units(times(Some(x), Some(negated(one())))->0);
    assert(b == a && c == -a) by (nonlinear_arith)
        requires
            k > 0,
            b * k == a * k,
            c * k == a * (-k),
    ;
}

/// What is added without rounding can be taken away again without rounding, and the number
/// is what it was.
pub proof fn law_sum_undone(x: Decimal, y: Decimal)
    requires
        x@.valid(),
        y@.valid(),
        adds_exactly(x, y),
        subtracts_exactly(plus(Some(x), Some(y))->0, y),
    ensures
        minus(plus(Some(x), Some(y)), Some(y)) matches Some(z) && units(z) == units(x),
{
    law_exact_sum(x, y);
    law_exact_difference(plus(Some(x), Some(y))->0, y);
}

/// Nothing is left of a number that is taken from itself.
pub proof fn law_difference_with_itself(x: Decimal)
    requires
        x@.valid(),
    ensures
        minus(Some(x), Some(x)) matches Some(z) && z.m() == 0 && z@.valid(),
        plus(Some(x), Some(negated(x))) matches Some(z) && z.m() == 0 && z@.valid(),
{
    reveal(difference_of);
    reveal(sum_of);
    broadcast use lemma_of_view, lemma_view_of;

    let m = x.m();
    assert(pow10(0) == 1);
    assert(m * 1 == m);
    assert(-m * 1 == -m);
    assert(x@.at_scale(x.s()) == m);
    let n = DecimalView { mantissa: -m, scale: x.s() };
    assert(n.valid());
    assert(negated(x)@ == n);
    assert(n.at_scale(x.s()) == -m);
}

/// The order of two numbers is the order of their units.
pub proof fn law_order_by_units(x: Decimal, y: Decimal)
    requires
        x@.valid(),
        y@.valid(),
    ensures
        lt(x, y) <==> units(x) < units(y),
        same(x, y) <==> units(x) == units(y),
{
    let (a, b) = (x.m(), y.m());
    let (p, q) = (pow10(x.s()), pow10(y.s()));
    let (u, v) = (pow10((28 - x.s()) as nat), pow10((28 - y.s()) as nat));
    let k = pow10(28);
    lemma_pow10_adds((28 - x.s()) as nat, x.s());
    lemma_pow10_adds((28 - y.s()) as nat, y.s());
    lemma_pow10_positive((28 - x.s()) as nat);
    lemma_pow10_positive((28 - y.s()) as nat);
    lemma_pow10_positive(28);
    assert(u * p == k && v * q == k);
    // Both sides of a*q < b*p times u*v are the two numbers of units times k.
    assert((a * q) * (u * v) == (a * u) * k) by (nonlinear_arith)
        requires
            v * q == k,
    ;
    assert((b * p) * (u * v) == (b * v) * k) by (nonlinear_arith)
        requires
            u * p == k,
    ;
    let (l, r, f, g, h) = (a * q, b * p, u * v, a * u, b * v);
    assert(f > 0) by (nonlinear_arith)
        requires
            f == u * v,
            u > 0,
            v > 0,
    ;
    assert((l < r) == (g < h) && (l == r) == (g == h)) by (nonlinear_arith)
        requires
            l * f == g * k,
            r * f == h * k,
            f > 0,
            k > 0,
    ;
}

/// The order is transitive.
pub proof fn law_order_transitive(x: Decimal, y: Decimal, z: Decimal)
    requires
        x@.valid(),
        y@.valid(),
        z@.valid(),
        le(x, y),
        le(y, z),
    ensures
        le(x, z),
{
    law_order_by_units(y, x);
    law_order_by_units(z, y);
    law_order_by_units(z, x);
}

/// Every value of the type is within the limits.
pub fn known_valid(x: &Decimal)
    ensures
        x@.valid(),
{
    proof {
        use_type_invariant(x);
    }
}

} // verus!
