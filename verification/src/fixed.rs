//! Fixed-point numbers.
use crate::scalar::{
    coincide, fraction, lawful, minus, monotone, near, one, opposite, over, plus, rank, root, times, top, vanishes,
    zero, Scalar,
};
use vstd::prelude::*;

verus! {

/// The number of steps in one.
pub const STEPS: i128 = 65536;

/// A number in steps of `1 / 65536`. The least and the greatest number stand for everything
/// beyond them, and are the opposites of each other.
#[derive(Clone, Copy, Debug, PartialEq, Eq)]
pub struct Fixed {
    pub steps: i64,
}

/// The number of steps that is closest to `n`.
pub open spec fn saturated(n: int) -> int {
    if n > i64::MAX {
        i64::MAX as int
    } else if n < i64::MIN {
        i64::MIN as int
    } else {
        n
    }
}

/// The number of that many steps, or the bound that it exceeds.
pub open spec fn of_steps(n: int) -> Fixed {
    Fixed { steps: saturated(n) as i64 }
}

/// The quotient of two integers, rounded towards zero.
pub open spec fn truncated(n: int, d: int) -> int {
    let q = magnitude(n) / magnitude(d);
    if (n < 0) == (d < 0) {
        q as int
    } else {
        -q
    }
}

pub open spec fn magnitude(n: int) -> nat {
    if n < 0 {
        (-n) as nat
    } else {
        n as nat
    }
}

/// Whether `r` is the square root of `n`, rounded down; zero where `n` is negative.
pub open spec fn is_root(n: int, r: int) -> bool {
    if n < 0 {
        r == 0
    } else {
        0 <= r && r * r <= n < (r + 1) * (r + 1)
    }
}

fn saturate(n: i128) -> (res: Fixed)
    ensures
        res.steps == saturated(n as int),
{
    if n > i64::MAX as i128 {
        Fixed { steps: i64::MAX }
    } else if n < i64::MIN as i128 {
        Fixed { steps: i64::MIN }
    } else {
        Fixed { steps: n as i64 }
    }
}

fn size_of_steps(n: i128) -> (res: u128)
    requires
        n > i128::MIN,
    ensures
        res == magnitude(n as int),
{
    if n < 0 {
        (-n) as u128
    } else {
        n as u128
    }
}

/// Divides, rounding towards zero.
fn divide(n: i128, d: i128) -> (res: i128)
    requires
        n > i128::MIN,
        d > i128::MIN,
        d != 0,
    ensures
        res == truncated(n as int, d as int),
{
    let a: u128 = size_of_steps(n);
    let b: u128 = size_of_steps(d);
    let q: u128 = a / b;
    assert(q <= a) by (nonlinear_arith)
        requires
            q == a / b,
            b > 0,
    ;
    if (n < 0) == (d < 0) {
        q as i128
    } else {
        -(q as i128)
    }
}

/// The square root of a number below `2^80`, rounded down.
fn integer_root(n: u128) -> (res: u128)
    requires
        n < 0x1_0000_0000_0000_0000_0000,
    ensures
        is_root(n as int, res as int),
        res < 0x100_0000_0000,
{
    let mut low: u128 = 0;
    let mut high: u128 = 0x100_0000_0000;
    while low + 1 < high
        invariant
            low < high <= 0x100_0000_0000,
            low * low <= n < high * high,
        decreases high - low,
    {
        let mid: u128 = low + (high - low) / 2;
        assert(mid * mid <= 0x100_0000_0000 * 0x100_0000_0000) by (nonlinear_arith)
            requires
                mid <= 0x100_0000_0000,
        ;
        if mid * mid <= n {
            low = mid;
        } else {
            high = mid;
        }
    }
    low
}

impl Fixed {
    /// The whole number `n`.
    pub fn whole(n: i32) -> (res: Self)
        ensures
            res.steps == n * STEPS,
    {
        Fixed { steps: n as i64 * 65536 }
    }
}

impl Scalar for Fixed {
    open spec fn null() -> Self {
        Fixed { steps: 0 }
    }

    open spec fn unit() -> Self {
        Fixed { steps: 65536 }
    }

    open spec fn upper_bound() -> Self {
        Fixed { steps: i64::MAX }
    }

    open spec fn fraction_of(num: u32, den: u32) -> Self {
        of_steps(
            if den == 0 {
                i64::MAX as int
            } else {
                truncated(num * STEPS, den as int)
            },
        )
    }

    open spec fn sum(a: Self, b: Self) -> Self {
        of_steps(a.steps + b.steps)
    }

    open spec fn difference(a: Self, b: Self) -> Self {
        of_steps(a.steps - b.steps)
    }

    open spec fn product(a: Self, b: Self) -> Self {
        of_steps(truncated(a.steps * b.steps, STEPS as int))
    }

    open spec fn quotient(a: Self, b: Self) -> Self {
        of_steps(
            if b.steps == 0 {
                if a.steps < 0 {
                    i64::MIN as int
                } else {
                    i64::MAX as int
                }
            } else {
                truncated(a.steps * STEPS, b.steps as int)
            },
        )
    }

    open spec fn negative(a: Self) -> Self {
        of_steps(
            if a.steps == i64::MAX {
                i64::MIN as int
            } else {
                -a.steps
            },
        )
    }

    open spec fn square_root(a: Self) -> Self {
        choose|r: Fixed| is_root(a.steps * STEPS, r.steps as int)
    }

    open spec fn is_null(a: Self) -> bool {
        a.steps == 0
    }

    open spec fn is_near(a: Self, b: Self) -> bool {
        -1 <= a.steps - b.steps <= 1
    }

    open spec fn coincides(a: Self, b: Self) -> bool {
        a.steps == b.steps
    }

    open spec fn comes_before(a: Self, b: Self) -> bool {
        a.steps < b.steps
    }

    open spec fn place(a: Self) -> nat {
        (a.steps - i64::MIN) as nat
    }

    fn zero() -> (res: Self)
        ensures
            res.steps == 0,
    {
        Fixed { steps: 0 }
    }

    fn one() -> (res: Self)
        ensures
            res.steps == STEPS,
    {
        Fixed { steps: 65536 }
    }

    fn max_value() -> (res: Self)
        ensures
            res.steps == i64::MAX,
    {
        Fixed { steps: i64::MAX }
    }

    /// The greatest number where the denominator is zero.
    fn ratio(num: u32, den: u32) -> (res: Self)
        ensures
            res.steps == if den == 0 {
                i64::MAX as int
            } else {
                truncated(num * STEPS, den as int)
            },
    {
        if den == 0 {
            Fixed { steps: i64::MAX }
        } else {
            let q: i128 = divide(num as i128 * STEPS, den as i128);
            assert(0 <= q <= num * STEPS) by (nonlinear_arith)
                requires
                    q == (num * 65536) / (den as int),
                    den > 0,
                    num >= 0,
            ;
            Fixed { steps: q as i64 }
        }
    }

    fn add(self, other: Self) -> (res: Self)
        ensures
            res.steps == saturated(self.steps + other.steps),
    {
        saturate(self.steps as i128 + other.steps as i128)
    }

    fn sub(self, other: Self) -> (res: Self)
        ensures
            res.steps == saturated(self.steps - other.steps),
    {
        saturate(self.steps as i128 - other.steps as i128)
    }

    fn mul(self, other: Self) -> (res: Self)
        ensures
            res.steps == saturated(truncated(self.steps * other.steps, STEPS as int)),
    {
        let (a, b) = (self.steps as i128, other.steps as i128);
        assert(-0x4000_0000_0000_0000_0000_0000_0000_0000 <= a * b
            <= 0x4000_0000_0000_0000_0000_0000_0000_0000) by (nonlinear_arith)
            requires
                -0x8000_0000_0000_0000 <= a <= 0x7fff_ffff_ffff_ffff,
                -0x8000_0000_0000_0000 <= b <= 0x7fff_ffff_ffff_ffff,
        ;
        saturate(divide(a * b, STEPS))
    }

    /// A bound where the divisor is zero: the greatest number unless the dividend is negative.
    fn div(self, other: Self) -> (res: Self)
        ensures
            res.steps == if other.steps == 0 {
                if self.steps < 0 {
                    i64::MIN as int
                } else {
                    i64::MAX as int
                }
            } else {
                saturated(truncated(self.steps * STEPS, other.steps as int))
            },
    {
        if other.steps == 0 {
            if self.steps < 0 {
                Fixed { steps: i64::MIN }
            } else {
                Fixed { steps: i64::MAX }
            }
        } else {
            saturate(divide(self.steps as i128 * STEPS, other.steps as i128))
        }
    }

    fn neg(self) -> (res: Self)
        ensures
            res.steps == if self.steps == i64::MAX {
                i64::MIN as int
            } else {
                saturated(-self.steps)
            },
    {
        if self.steps == i64::MAX {
            Fixed { steps: i64::MIN }
        } else {
            saturate(-(self.steps as i128))
        }
    }

    /// Zero where the number is negative.
    fn sqrt(self) -> (res: Self)
        ensures
            is_root(self.steps * STEPS, res.steps as int),
    {
        if self.steps < 0 {
            Fixed { steps: 0 }
        } else {
            let r: u128 = integer_root(self.steps as u128 * 65536);
            Fixed { steps: r as i64 }
        }
    }

    fn is_zero(self) -> (res: bool)
        ensures
            res == (self.steps == 0),
    {
        self.steps == 0
    }

    /// Whether the two numbers are the same or a step apart.
    fn approx_eq(self, other: Self) -> (res: bool)
        ensures
            res == (-1 <= self.steps - other.steps <= 1),
    {
        let d: i128 = self.steps as i128 - other.steps as i128;
        -1 <= d && d <= 1
    }

    fn equals(self, other: Self) -> (res: bool)
        ensures
            res == (self.steps == other.steps),
    {
        self.steps == other.steps
    }

    fn less(self, other: Self) -> (res: bool)
        ensures
            res == (self.steps < other.steps),
    {
        self.steps < other.steps
    }
}

/// Square roots are unique.
proof fn roots_are_unique(n: int, r: int, s: int)
    requires
        is_root(n, r),
        is_root(n, s),
    ensures
        r == s,
{
    if n >= 0 {
        assert(r == s) by (nonlinear_arith)
            requires
                0 <= r,
                0 <= s,
                r * r <= n < (r + 1) * (r + 1),
                s * s <= n < (s + 1) * (s + 1),
        ;
    }
}

/// Fixed-point numbers are what the crate asks of a number type.
pub proof fn fixed_is_lawful()
    ensures
        lawful::<Fixed>(),
{
    assert forall|a: Fixed, r: Fixed| #[trigger]
        call_ensures(Fixed::sqrt, (a,), r) implies r == root(a) by {
        roots_are_unique(a.steps * STEPS, r.steps as int, root(a).steps as int);
    }
}

/// Truncated quotients by a positive number respect the order.
proof fn truncation_is_monotone(m: int, n: int, d: int)
    requires
        m <= n,
        d > 0,
    ensures
        truncated(m, d) <= truncated(n, d),
{
    let (a, b) = (magnitude(m) as int, magnitude(n) as int);
    if m >= 0 {
        assert(a / d <= b / d) by (nonlinear_arith)
            requires
                0 <= a <= b,
                d > 0,
        ;
    } else if n < 0 {
        assert(b / d <= a / d) by (nonlinear_arith)
            requires
                0 <= b <= a,
                d > 0,
        ;
    } else {
        assert(0 <= a / d && 0 <= b / d) by (nonlinear_arith)
            requires
                0 <= a,
                0 <= b,
                d > 0,
        ;
    }
}

/// The operations on fixed-point numbers respect their order.
pub proof fn fixed_is_monotone()
    ensures
        monotone::<Fixed>(),
{
    assert forall|a: Fixed, b: Fixed, s: Fixed|
        rank(a) <= rank(b) && rank(zero::<Fixed>()) <= rank(s) implies rank(#[trigger] times(a, s)) <= rank(
        #[trigger] times(b, s),
    ) by {
        let (x, y) = (a.steps * s.steps, b.steps * s.steps);
        assert(x <= y) by (nonlinear_arith)
            requires
                a.steps <= b.steps,
                0 <= s.steps,
                x == a.steps * s.steps,
                y == b.steps * s.steps,
        ;
        truncation_is_monotone(x, y, STEPS as int);
    }
}

/// Whether `r` is `n` divided by `d` up to less than one, and not farther from zero.
pub open spec fn rounds(r: int, n: int, d: int) -> bool {
    &&& -magnitude(d) < n - r * d < magnitude(d)
    &&& magnitude(r * d) <= magnitude(n)
}

proof fn truncation_rounds(n: int, d: int)
    requires
        d != 0,
    ensures
        rounds(truncated(n, d), n, d),
{
    let (a, b) = (magnitude(n) as int, magnitude(d) as int);
    let q = a / b;
    vstd::arithmetic::div_mod::lemma_fundamental_div_mod(a, b);
    assert(0 <= a - q * b < b && 0 <= q * b) by (nonlinear_arith)
        requires
            b > 0,
            a >= 0,
            a == b * q + a % b,
            q == a / b,
            0 <= a % b < b,
    ;
    let r = truncated(n, d);
    assert(r * d == if n < 0 { -(q * b) } else { q * b }) by (nonlinear_arith)
        requires
            r == if (n < 0) == (d < 0) { q } else { -q },
            b == if d < 0 { -d } else { d },
    ;
}

/// Every number that is not negative has a root, rounded down.
proof fn root_exists(n: int) -> (r: int)
    requires
        n >= 0,
    ensures
        is_root(n, r),
    decreases n,
{
    if n == 0 {
        0
    } else {
        let s = root_exists(n - 1);
        if (s + 1) * (s + 1) <= n {
            assert(n < (s + 2) * (s + 2)) by (nonlinear_arith)
                requires
                    0 <= s,
                    n - 1 < (s + 1) * (s + 1),
            ;
            s + 1
        } else {
            s
        }
    }
}

/// Sums, differences and opposites of fixed-point numbers are those of the numbers, as long as they
/// stay within the bounds.
pub proof fn fixed_sums_are_sums(a: Fixed, b: Fixed)
    ensures
        i64::MIN <= a.steps + b.steps <= i64::MAX ==> plus(a, b).steps == a.steps + b.steps,
        i64::MIN <= a.steps - b.steps <= i64::MAX ==> minus(a, b).steps == a.steps - b.steps,
        i64::MIN < a.steps < i64::MAX ==> opposite(a).steps == -a.steps,
        plus(a, b) == plus(b, a),
        plus(a, zero()) == a,
        minus(a, a) == zero::<Fixed>(),
        vanishes(a) <==> a == zero::<Fixed>(),
        near(a, b) <==> a.steps == b.steps || a.steps == b.steps + 1 || b.steps == a.steps + 1,
        coincide(a, b) <==> a == b,
        rank(a) < rank(b) <==> a.steps < b.steps,
        rank(opposite(top::<Fixed>())) <= rank(a) <= rank(top::<Fixed>()),
{
}

/// Products and quotients of fixed-point numbers are those of the numbers, rounded towards zero, and
/// roots are rounded down, as long as they stay within the bounds.
pub proof fn fixed_products_are_rounded(a: Fixed, b: Fixed, n: u32, d: u32)
    ensures
        i64::MIN < times(a, b).steps < i64::MAX ==> rounds(
            times(a, b).steps as int,
            a.steps * b.steps,
            STEPS as int,
        ),
        b.steps != 0 && i64::MIN < over(a, b).steps < i64::MAX ==> rounds(
            over(a, b).steps as int,
            a.steps * STEPS,
            b.steps as int,
        ),
        a.steps >= 0 ==> root(a).steps >= 0 && root(a).steps * root(a).steps <= a.steps * STEPS < (
        root(a).steps + 1) * (root(a).steps + 1),
        d > 0 ==> rounds(fraction::<Fixed>(n, d).steps as int, n * STEPS, d as int),
        times(a, one()) == a,
        times(a, b) == times(b, a),
{
    truncation_rounds(a.steps * b.steps, STEPS as int);
    if b.steps != 0 {
        truncation_rounds(a.steps * STEPS, b.steps as int);
    }
    if d > 0 {
        let q = truncated(n * STEPS, d as int);
        truncation_rounds(n * STEPS, d as int);
        assert(magnitude(q) <= magnitude(q * d)) by (nonlinear_arith)
            requires
                d >= 1,
        ;
    }
    if a.steps >= 0 {
        let n = a.steps * STEPS;
        let r = root_exists(n);
        assert(r <= i64::MAX) by (nonlinear_arith)
            requires
                0 <= r,
                r * r <= n,
                n <= 0x7fff_ffff_ffff_ffff * 65536,
        ;
        assert(is_root(n, (Fixed { steps: r as i64 }).steps as int));
    }
    truncation_rounds(a.steps * STEPS, STEPS as int);
    let p = truncated(a.steps * STEPS, STEPS as int);
    assert(p == a.steps);
    assert(a.steps * b.steps == b.steps * a.steps) by (nonlinear_arith);
}

} // verus!
