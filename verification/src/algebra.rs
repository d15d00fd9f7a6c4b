//! Calculations in exact arithmetic.
use crate::exact::{difference_of_sum, exact, field_laws, product_with_zero, square_of_multiple};
use crate::scalar::{fraction, minus, one, opposite, over, plus, times, zero, Scalar};
use vstd::prelude::*;

verus! {

/// The inner terms of two sums can be exchanged.
pub proof fn exchange_terms<N: Scalar>(a: N, b: N, c: N, d: N)
    requires
        exact::<N>(),
    ensures
        plus(plus(a, b), plus(c, d)) == plus(plus(a, c), plus(b, d)),
{
    assert(field_laws(a, b, plus(c, d)));
    assert(field_laws(b, c, d));
    assert(field_laws(c, b, d));
    assert(field_laws(a, c, plus(b, d)));
}

/// The inner factors of two products can be exchanged.
pub proof fn exchange_factors<N: Scalar>(a: N, b: N, c: N, d: N)
    requires
        exact::<N>(),
    ensures
        times(times(a, b), times(c, d)) == times(times(a, c), times(b, d)),
{
    assert(field_laws(a, b, times(c, d)));
    assert(field_laws(b, c, d));
    assert(field_laws(c, b, d));
    assert(field_laws(a, c, times(b, d)));
}

/// Multiplication distributes over addition on either side.
pub proof fn distribute<N: Scalar>(a: N, b: N, c: N)
    requires
        exact::<N>(),
    ensures
        times(plus(a, b), c) == plus(times(a, c), times(b, c)),
        times(c, plus(a, b)) == plus(times(c, a), times(c, b)),
{
    assert(field_laws(a, b, c));
    assert(field_laws(plus(a, b), c, c));
    assert(field_laws(a, c, c));
    assert(field_laws(b, c, c));
}

/// A sum that is zero has two opposite terms.
pub proof fn opposite_is_unique<N: Scalar>(a: N, b: N)
    requires
        exact::<N>(),
        plus(a, b) == zero::<N>(),
    ensures
        b == opposite(a),
        a == opposite(b),
{
    let o = opposite(a);
    assert(field_laws(a, b, o));
    assert(field_laws(b, a, o));
    assert(field_laws(b, zero(), o));
    assert(field_laws(o, zero(), o));
    assert(field_laws(zero(), o, o));
    let p = opposite(b);
    assert(field_laws(b, a, p));
    assert(field_laws(a, b, p));
    assert(field_laws(a, zero(), p));
    assert(field_laws(p, zero(), p));
    assert(field_laws(zero(), p, p));
}

/// The product of an opposite is the opposite of the product.
pub proof fn product_of_opposite<N: Scalar>(a: N, b: N)
    requires
        exact::<N>(),
    ensures
        times(opposite(a), b) == opposite(times(a, b)),
        times(b, opposite(a)) == opposite(times(a, b)),
{
    let o = opposite(a);
    distribute(a, o, b);
    assert(field_laws(a, o, b));
    product_with_zero(b);
    opposite_is_unique(times(a, b), times(o, b));
    assert(field_laws(o, b, b));
}

/// Multiplication distributes over subtraction on either side.
pub proof fn distribute_difference<N: Scalar>(a: N, b: N, c: N)
    requires
        exact::<N>(),
    ensures
        times(minus(a, b), c) == minus(times(a, c), times(b, c)),
        times(c, minus(a, b)) == minus(times(c, a), times(c, b)),
{
    assert(field_laws(a, b, c));
    distribute(a, opposite(b), c);
    product_of_opposite(b, c);
    assert(field_laws(times(a, c), times(b, c), c));
    assert(field_laws(times(c, a), times(c, b), c));
    assert(field_laws(b, c, c));
}

/// A difference and what was subtracted make up the whole.
pub proof fn difference_and_rest<N: Scalar>(a: N, b: N)
    requires
        exact::<N>(),
    ensures
        plus(minus(a, b), b) == a,
        plus(b, minus(a, b)) == a,
        minus(a, a) == zero::<N>(),
        opposite(minus(a, b)) == minus(b, a),
{
    let d = minus(a, b);
    assert(field_laws(a, b, b));
    assert(field_laws(a, a, a));
    assert(field_laws(b, a, a));
    difference_of_sum(a, b);
    difference_of_sum(b, a);
    assert(field_laws(d, b, a));
    // (a - b) + (b - a) = 0
    let e = minus(b, a);
    assert(field_laws(d, b, opposite(a)));
    assert(plus(d, e) == plus(plus(d, b), opposite(a)));
    assert(plus(d, e) == zero::<N>());
    opposite_is_unique(d, e);
}

/// A difference is a sum with the opposite.
pub proof fn difference_is_sum<N: Scalar>(a: N, b: N)
    requires
        exact::<N>(),
    ensures
        minus(a, b) == plus(a, opposite(b)),
{
    assert(field_laws(a, b, b));
}

/// Multiplying with one, and adding zero, changes nothing.
pub proof fn neutral<N: Scalar>(a: N)
    requires
        exact::<N>(),
    ensures
        times(a, one()) == a,
        times(one(), a) == a,
        plus(a, zero()) == a,
        plus(zero(), a) == a,
        times(a, zero()) == zero::<N>(),
        times(zero(), a) == zero::<N>(),
        plus(a, opposite(a)) == zero::<N>(),
        plus(opposite(a), a) == zero::<N>(),
{
    assert(field_laws(a, one(), a));
    assert(field_laws(a, zero(), a));
    assert(field_laws(a, opposite(a), a));
    product_with_zero(a);
}

/// Two halves of a number are the number.
pub proof fn two_halves<N: Scalar>(a: N)
    requires
        exact::<N>(),
    ensures
        plus(times(a, fraction(1, 2)), times(a, fraction(1, 2))) == a,
{
    let h = fraction::<N>(1, 2);
    distribute(h, h, a);
    neutral(a);
}

/// A quotient times the divisor is the dividend.
pub proof fn quotient_times_divisor<N: Scalar>(a: N, d: N)
    requires
        exact::<N>(),
        d != zero::<N>(),
    ensures
        times(over(a, d), d) == a,
        times(d, over(a, d)) == a,
{
    assert(field_laws(a, d, d));
    assert(field_laws(over(a, d), d, d));
}

/// A factor that is not zero can be dropped from both sides.
pub proof fn cancel_factor<N: Scalar>(a: N, b: N, d: N)
    requires
        exact::<N>(),
        d != zero::<N>(),
        times(a, d) == times(b, d),
    ensures
        a == b,
{
    let k = over(one::<N>(), d);
    quotient_times_divisor(one(), d);
    assert(field_laws(a, d, k));
    assert(field_laws(b, d, k));
    neutral(a);
    neutral(b);
}

/// The square of a difference, and twice the product, are the two squares.
pub proof fn square_of_difference<N: Scalar>(p: N, q: N)
    requires
        exact::<N>(),
    ensures
        plus(times(minus(p, q), minus(p, q)), plus(times(p, q), times(p, q))) == plus(
            times(p, p),
            times(q, q),
        ),
{
    let d = minus(p, q);
    let (pq, dd, dq, qq) = (times(p, q), times(d, d), times(d, q), times(q, q));
    // p = d + q
    difference_and_rest(p, q);
    distribute(d, q, p);
    distribute(d, q, d);
    distribute(d, q, q);
    // pp = (d + q) p = dp + qp, dp = dd + dq, pq = dq + qq
    assert(times(p, p) == plus(times(d, p), times(q, p)));
    assert(times(d, p) == plus(dd, dq));
    assert(pq == plus(dq, qq));
    assert(field_laws(q, p, p));
    // dd + (pq + pq) and ((dd + dq) + pq) + qq
    assert(field_laws(plus(dd, dq), pq, qq));
    assert(field_laws(dd, dq, plus(pq, qq)));
    assert(field_laws(dq, pq, qq));
    assert(field_laws(pq, dq, qq));
    assert(plus(dq, plus(pq, qq)) == plus(pq, pq));
}

/// A product of two sums of three terms: the products of like terms, and the other ones in pairs.
pub proof fn product_of_sums<N: Scalar>(a: N, b: N, c: N, d: N, e: N, f: N)
    requires
        exact::<N>(),
    ensures
        times(plus(plus(a, b), c), plus(plus(d, e), f)) == plus(
            plus(plus(times(a, d), times(b, e)), times(c, f)),
            plus(
                plus(plus(times(a, e), times(b, d)), plus(times(b, f), times(c, e))),
                plus(times(c, d), times(a, f)),
            ),
        ),
{
    let ab = plus(a, b);
    let de = plus(d, e);
    distribute(ab, c, plus(de, f));
    distribute(de, f, ab);
    distribute(de, f, c);
    distribute(a, b, de);
    distribute(d, e, a);
    distribute(d, e, b);
    distribute(a, b, f);
    distribute(d, e, c);
    let (ad, ae, af) = (times(a, d), times(a, e), times(a, f));
    let (bd, be, bf) = (times(b, d), times(b, e), times(b, f));
    let (cd, ce, cf) = (times(c, d), times(c, e), times(c, f));
    // ((ad + ae) + (bd + be)) + (af + bf) + ((cd + ce) + cf)
    let s1 = plus(plus(ad, ae), plus(bd, be));
    let s2 = plus(af, bf);
    let s3 = plus(plus(cd, ce), cf);
    assert(times(plus(ab, c), plus(de, f)) == plus(plus(s1, s2), s3));
    let diag = plus(plus(ad, be), cf);
    let x = plus(ae, bd);
    // s1 = (ad + be) + x
    assert(field_laws(bd, be, be));
    exchange_terms(ad, ae, be, bd);
    assert(s1 == plus(plus(ad, be), x));
    // s2 + s3 regrouped
    let y = plus(bf, ce);
    let z = plus(cd, af);
    assert(plus(s2, plus(cd, ce)) == plus(y, z)) by {
        assert(field_laws(af, bf, bf));
        assert(field_laws(cd, ce, ce));
        exchange_terms(bf, af, ce, cd);
        assert(field_laws(af, cd, cd));
    }
    let adbe = plus(ad, be);
    assert(field_laws(plus(s1, s2), plus(cd, ce), cf));
    assert(field_laws(s1, s2, plus(cd, ce)));
    assert(plus(plus(s1, s2), s3) == plus(plus(s1, plus(y, z)), cf));
    // ((adbe + x) + (y + z)) + cf = (adbe + cf) + (x + (y + z))
    let w = plus(y, z);
    assert(field_laws(adbe, x, w));
    assert(field_laws(adbe, plus(x, w), cf));
    assert(field_laws(plus(x, w), cf, cf));
    assert(field_laws(adbe, cf, plus(x, w)));
    assert(field_laws(x, y, z));
}

/// Twice a sum of three terms is the sum of the doubled terms.
pub proof fn double_sum<N: Scalar>(a: N, b: N, c: N)
    requires
        exact::<N>(),
    ensures
        plus(plus(plus(a, b), c), plus(plus(a, b), c)) == plus(
            plus(plus(a, a), plus(b, b)),
            plus(c, c),
        ),
{
    exchange_terms(plus(a, b), c, plus(a, b), c);
    exchange_terms(a, b, a, b);
}

/// Three sums of two terms, regrouped.
pub proof fn sum_of_pairs<N: Scalar>(a: N, b: N, c: N, d: N, e: N, f: N)
    requires
        exact::<N>(),
    ensures
        plus(plus(plus(a, b), c), plus(plus(d, e), f)) == plus(
            plus(plus(a, d), plus(b, e)),
            plus(c, f),
        ),
{
    exchange_terms(plus(a, b), c, plus(d, e), f);
    exchange_terms(a, b, d, e);
}

/// The squares of the components of a vector product, and the square of the scalar product, make
/// up the product of the squared lengths.
pub proof fn lagrange<N: Scalar>(a: N, b: N, c: N, d: N, e: N, f: N)
    requires
        exact::<N>(),
    ensures
        ({
            let x = minus(times(b, f), times(c, e));
            let y = minus(times(c, d), times(a, f));
            let z = minus(times(a, e), times(b, d));
            let s = plus(plus(times(a, d), times(b, e)), times(c, f));
            plus(plus(plus(times(x, x), times(y, y)), times(z, z)), times(s, s)) == times(
                plus(plus(times(a, a), times(b, b)), times(c, c)),
                plus(plus(times(d, d), times(e, e)), times(f, f)),
            )
        }),
{
    let x = minus(times(b, f), times(c, e));
    let y = minus(times(c, d), times(a, f));
    let z = minus(times(a, e), times(b, d));
    let (ad, be, cf) = (times(a, d), times(b, e), times(c, f));
    let s = plus(plus(ad, be), cf);
    let (xx, yy, zz) = (times(x, x), times(y, y), times(z, z));
    // The square of the scalar product.
    product_of_sums(ad, be, cf, ad, be, cf);
    let (m1, m2, m3) = (times(be, cf), times(cf, ad), times(ad, be));
    assert(field_laws(ad, be, be));
    assert(field_laws(be, cf, cf));
    assert(field_laws(cf, ad, ad));
    let squares = plus(plus(times(ad, ad), times(be, be)), times(cf, cf));
    let doubled = plus(plus(plus(m3, m3), plus(m1, m1)), plus(m2, m2));
    assert(times(s, s) == plus(squares, doubled));
    // The squares of the components.
    pair_of_squares(b, c, e, f);
    pair_of_squares(c, a, f, d);
    pair_of_squares(a, b, d, e);
    let (p, q, r) = (
        plus(times(times(b, b), times(f, f)), times(times(c, c), times(e, e))),
        plus(times(times(c, c), times(d, d)), times(times(a, a), times(f, f))),
        plus(times(times(a, a), times(e, e)), times(times(b, b), times(d, d))),
    );
    assert(plus(xx, plus(m1, m1)) == p);
    assert(plus(yy, plus(m2, m2)) == q);
    assert(plus(zz, plus(m3, m3)) == r);
    // Their sum.
    let three = plus(plus(xx, yy), zz);
    assert(plus(three, doubled) == plus(plus(r, p), q)) by {
        // three = (zz + xx) + yy
        assert(field_laws(plus(xx, yy), zz, zz));
        assert(field_laws(zz, xx, yy));
        sum_of_pairs(zz, xx, yy, plus(m3, m3), plus(m1, m1), plus(m2, m2));
    }
    assert(plus(three, plus(squares, doubled)) == plus(squares, plus(three, doubled))) by {
        assert(field_laws(three, squares, doubled));
        assert(field_laws(squares, three, doubled));
    }
    // The product of the squared lengths.
    product_of_sums(times(a, a), times(b, b), times(c, c), times(d, d), times(e, e), times(f, f));
    square_of_multiple(a, d);
    square_of_multiple(b, e);
    square_of_multiple(c, f);
}

/// The square of a component of a vector product, and twice a product of two terms of the scalar
/// product, are two products of squares.
proof fn pair_of_squares<N: Scalar>(b: N, c: N, e: N, f: N)
    requires
        exact::<N>(),
    ensures
        ({
            let x = minus(times(b, f), times(c, e));
            let m = times(times(b, e), times(c, f));
            plus(times(x, x), plus(m, m)) == plus(
                times(times(b, b), times(f, f)),
                times(times(c, c), times(e, e)),
            )
        }),
{
    let (bf, ce) = (times(b, f), times(c, e));
    square_of_difference(bf, ce);
    square_of_multiple(b, f);
    square_of_multiple(c, e);
    // (b f)(c e) = (b c)(f e) = (b c)(e f) = (b e)(c f)
    exchange_factors(b, f, c, e);
    assert(field_laws(f, e, e));
    exchange_factors(b, c, e, f);
}

} // verus!
