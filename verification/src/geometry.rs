//! The geometry of vectors, points and triangles, where arithmetic is exact.
use crate::algebra::{
    cancel_factor, difference_and_rest, difference_is_sum, distribute, distribute_difference,
    exchange_terms, lagrange, neutral, opposite_is_unique, product_of_opposite,
    quotient_times_divisor, two_halves,
};
use crate::exact::{difference_of_sum, exact, field_laws, square_of_multiple};
use crate::linalg::{distance, middle, Pnt3, Vec3};
use crate::mesh::area;
use crate::rays::direction;
use crate::scalar::{fraction, minus, one, opposite, plus, root, times, vanishes, zero, Scalar};
use vstd::prelude::*;

verus! {

/// The sum of the squares of three numbers.
pub open spec fn squares<N: Scalar>(x: N, y: N, z: N) -> N {
    plus(plus(times(x, x), times(y, y)), times(z, z))
}

/// Whether the root of a number, multiplied by itself, is the number.
pub open spec fn has_root<N: Scalar>(q: N) -> bool {
    times(root(q), root(q)) == q
}

/// The scalar product is symmetric and linear, and the product with a unit vector is the component
/// along it.
pub proof fn scalar_products_are_projections<N: Scalar>(u: Vec3<N>, v: Vec3<N>, w: Vec3<N>, s: N)
    requires
        exact::<N>(),
    ensures
        u.scalar_product(v) == v.scalar_product(u),
        u.scalar_product(v.times(s)) == times(u.scalar_product(v), s),
        u.scalar_product(
            Vec3 { x: plus(v.x, w.x), y: plus(v.y, w.y), z: plus(v.z, w.z) },
        ) == plus(u.scalar_product(v), u.scalar_product(w)),
        v.scalar_product(Vec3 { x: one(), y: zero(), z: zero() }) == v.x,
        v.scalar_product(Vec3 { x: zero(), y: one(), z: zero() }) == v.y,
        v.scalar_product(Vec3 { x: zero(), y: zero(), z: one() }) == v.z,
{
    assert(field_laws(u.x, v.x, s) && field_laws(u.y, v.y, s) && field_laws(u.z, v.z, s));
    let (a, b, c) = (times(u.x, v.x), times(u.y, v.y), times(u.z, v.z));
    distribute(a, b, s);
    distribute(plus(a, b), c, s);
    let (d, e, f) = (times(u.x, w.x), times(u.y, w.y), times(u.z, w.z));
    distribute(v.x, w.x, u.x);
    distribute(v.y, w.y, u.y);
    distribute(v.z, w.z, u.z);
    exchange_terms(a, d, b, e);
    exchange_terms(plus(a, b), plus(d, e), c, f);
    neutral(v.x);
    neutral(v.y);
    neutral(v.z);
    neutral(zero::<N>());
}

/// A product of three numbers does not depend on the order of the last two.
proof fn exchange_last<N: Scalar>(a: N, b: N, c: N)
    requires
        exact::<N>(),
    ensures
        times(a, times(b, c)) == times(b, times(a, c)),
{
    assert(field_laws(a, b, c));
    assert(field_laws(b, a, c));
}

/// The sum of the three differences in a scalar product of a vector with a vector product.
proof fn differences_cancel<N: Scalar>(p: N, q: N, r: N)
    requires
        exact::<N>(),
    ensures
        plus(plus(minus(p, q), minus(r, p)), minus(q, r)) == zero::<N>(),
{
    difference_is_sum(p, q);
    difference_is_sum(r, p);
    difference_is_sum(q, r);
    let (op, oq, or) = (opposite(p), opposite(q), opposite(r));
    // (p - q) + (r - p) = (p - p) + (r - q)
    assert(field_laws(r, op, op));
    exchange_terms(p, oq, op, r);
    neutral(p);
    neutral(plus(oq, r));
    assert(plus(minus(p, q), minus(r, p)) == plus(oq, r));
    exchange_terms(oq, r, q, or);
    neutral(q);
    neutral(r);
    neutral(zero::<N>());
}

/// A vector product is orthogonal to both vectors.
pub proof fn vector_products_are_orthogonal<N: Scalar>(u: Vec3<N>, v: Vec3<N>)
    requires
        exact::<N>(),
    ensures
        u.scalar_product(u.vector_product(v)) == zero::<N>(),
        v.scalar_product(u.vector_product(v)) == zero::<N>(),
{
    let w = u.vector_product(v);
    distribute_difference(times(u.y, v.z), times(u.z, v.y), u.x);
    distribute_difference(times(u.z, v.x), times(u.x, v.z), u.y);
    distribute_difference(times(u.x, v.y), times(u.y, v.x), u.z);
    let p = times(u.x, times(u.y, v.z));
    let q = times(u.x, times(u.z, v.y));
    let r = times(u.y, times(u.z, v.x));
    exchange_last(u.y, u.x, v.z);
    exchange_last(u.z, u.x, v.y);
    exchange_last(u.z, u.y, v.x);
    differences_cancel(p, q, r);
    distribute_difference(times(u.y, v.z), times(u.z, v.y), v.x);
    distribute_difference(times(u.z, v.x), times(u.x, v.z), v.y);
    distribute_difference(times(u.x, v.y), times(u.y, v.x), v.z);
    let a = times(v.x, times(u.y, v.z));
    let b = times(v.x, times(u.z, v.y));
    let c = times(v.y, times(u.z, v.x));
    let d = times(v.y, times(u.x, v.z));
    let e = times(v.z, times(u.x, v.y));
    let f = times(v.z, times(u.y, v.x));
    assert(a == f) by {
        assert(field_laws(u.y, v.z, v.z) && field_laws(u.y, v.x, v.x));
        assert(field_laws(v.x, v.z, u.y) && field_laws(v.z, v.x, u.y));
    }
    assert(b == c) by {
        assert(field_laws(u.z, v.y, v.y) && field_laws(u.z, v.x, v.x));
        assert(field_laws(v.x, v.y, u.z) && field_laws(v.y, v.x, u.z));
    }
    assert(d == e) by {
        assert(field_laws(u.x, v.z, v.z) && field_laws(u.x, v.y, v.y));
        assert(field_laws(v.y, v.z, u.x) && field_laws(v.z, v.y, u.x));
    }
    // (a - b) + (b - d) + (d - a)
    assert(v.scalar_product(w) == plus(plus(minus(a, b), minus(b, d)), minus(d, a)));
    assert(field_laws(minus(a, b), minus(b, d), minus(b, d)));
    differences_cancel(b, d, a);
}

/// The squared length of a vector product, and the square of the scalar product, make up the
/// product of the squared lengths.
pub proof fn vector_products_measure_what_scalar_products_miss<N: Scalar>(u: Vec3<N>, v: Vec3<N>)
    requires
        exact::<N>(),
    ensures
        ({
            let w = u.vector_product(v);
            plus(squares(w.x, w.y, w.z), times(u.scalar_product(v), u.scalar_product(v))) == times(
                squares(u.x, u.y, u.z),
                squares(v.x, v.y, v.z),
            )
        }),
{
    lagrange(u.x, u.y, u.z, v.x, v.y, v.z);
}

/// The vector product changes its sign with the order of the vectors, and the unit vectors along
/// the axes turn into each other in order.
pub proof fn vector_products_are_oriented<N: Scalar>(u: Vec3<N>, v: Vec3<N>)
    requires
        exact::<N>(),
    ensures
        v.vector_product(u) == u.vector_product(v).opposite(),
        ({
            let ex = Vec3 { x: one::<N>(), y: zero(), z: zero() };
            let ey = Vec3 { x: zero(), y: one::<N>(), z: zero() };
            let ez = Vec3 { x: zero(), y: zero(), z: one::<N>() };
            ex.vector_product(ey) == ez && ey.vector_product(ez) == ex && ez.vector_product(ex) == ey
        }),
{
    assert(field_laws(u.y, v.z, v.z) && field_laws(u.z, v.y, v.y));
    assert(field_laws(u.z, v.x, v.x) && field_laws(u.x, v.z, v.z));
    assert(field_laws(u.x, v.y, v.y) && field_laws(u.y, v.x, v.x));
    difference_and_rest(times(u.y, v.z), times(u.z, v.y));
    difference_and_rest(times(u.z, v.x), times(u.x, v.z));
    difference_and_rest(times(u.x, v.y), times(u.y, v.x));
    neutral(zero::<N>());
    neutral(one::<N>());
    difference_is_sum(one::<N>(), zero());
    difference_is_sum(zero::<N>(), zero());
    assert(opposite(zero::<N>()) == zero::<N>()) by {
        neutral(opposite(zero::<N>()));
    }
}

/// The square of the length of a vector is the sum of the squares of its components.
pub proof fn lengths_are_roots_of_squares<N: Scalar>(v: Vec3<N>)
    requires
        has_root(squares(v.x, v.y, v.z)),
    ensures
        times(v.length(), v.length()) == squares(v.x, v.y, v.z),
{
}

/// The square of a distance is the sum of the squares of the differences of the coordinates. It is
/// the same in both directions.
pub proof fn distances_are_roots_of_squares<N: Scalar>(a: Pnt3<N>, b: Pnt3<N>)
    requires
        exact::<N>(),
        has_root(squares(minus(b.x, a.x), minus(b.y, a.y), minus(b.z, a.z))),
    ensures
        times(distance(a, b), distance(a, b)) == squares(
            minus(b.x, a.x),
            minus(b.y, a.y),
            minus(b.z, a.z),
        ),
        distance(b, a) == distance(a, b),
{
    difference_and_rest(a.x, b.x);
    difference_and_rest(a.y, b.y);
    difference_and_rest(a.z, b.z);
    square_of_opposite(minus(a.x, b.x));
    square_of_opposite(minus(a.y, b.y));
    square_of_opposite(minus(a.z, b.z));
}

/// A number and its opposite have the same square.
proof fn square_of_opposite<N: Scalar>(a: N)
    requires
        exact::<N>(),
    ensures
        times(opposite(a), opposite(a)) == times(a, a),
        opposite(opposite(a)) == a,
{
    product_of_opposite(a, opposite(a));
    product_of_opposite(a, a);
    neutral(times(a, a));
    opposite_is_unique(opposite(times(a, a)), times(a, a));
    neutral(a);
    opposite_is_unique(opposite(a), a);
}

/// What is added is what can be taken away.
proof fn there_and_back_again<N: Scalar>(a: N, b: N, d: N)
    requires
        exact::<N>(),
    ensures
        plus(a, minus(b, a)) == b,
        minus(plus(a, d), a) == d,
        plus(plus(a, d), opposite(d)) == a,
{
    difference_and_rest(b, a);
    difference_is_sum(plus(a, d), a);
    assert(field_laws(a, d, d));
    difference_of_sum(d, a);
    difference_of_sum(a, d);
}

/// Going from one point to another and back, and multiplying a vector and dividing it again, are
/// without effect.
pub proof fn points_and_vectors_fit_together<N: Scalar>(p: Pnt3<N>, q: Pnt3<N>, v: Vec3<N>, s: N)
    requires
        exact::<N>(),
    ensures
        p.plus(q.minus(p)) == q,
        p.plus(v).minus(p) == v,
        p.plus(v).plus(v.opposite()) == p,
        p.plus(Vec3::null()) == p,
        (Pnt3 { x: zero(), y: zero(), z: zero() }).plus(p.vector()) == p,
        q.times(s).minus(p.times(s)) == q.minus(p).times(s),
        s != zero::<N>() ==> v.times(s).over(s) == v && v.over(s).times(s) == v,
{
    there_and_back_again(p.x, q.x, v.x);
    there_and_back_again(p.y, q.y, v.y);
    there_and_back_again(p.z, q.z, v.z);
    neutral(p.x);
    neutral(p.y);
    neutral(p.z);
    distribute_difference(q.x, p.x, s);
    distribute_difference(q.y, p.y, s);
    distribute_difference(q.z, p.z, s);
    if s != zero::<N>() {
        quotient_times_divisor(v.x, s);
        quotient_times_divisor(v.y, s);
        quotient_times_divisor(v.z, s);
        quotient_times_divisor(times(v.x, s), s);
        quotient_times_divisor(times(v.y, s), s);
        quotient_times_divisor(times(v.z, s), s);
        let w = v.times(s).over(s);
        cancel_factor(w.x, v.x, s);
        cancel_factor(w.y, v.y, s);
        cancel_factor(w.z, v.z, s);
    }
}

/// The middle of two points is as far from the one as from the other, on the line between them.
pub proof fn middles_are_halfway<N: Scalar>(a: Pnt3<N>, b: Pnt3<N>)
    requires
        exact::<N>(),
    ensures
        plus(middle(a, b).x, middle(a, b).x) == plus(a.x, b.x),
        plus(middle(a, b).y, middle(a, b).y) == plus(a.y, b.y),
        plus(middle(a, b).z, middle(a, b).z) == plus(a.z, b.z),
        middle(a, b) == middle(b, a),
        middle(a, a) == a,
{
    two_halves(plus(a.x, b.x));
    two_halves(plus(a.y, b.y));
    two_halves(plus(a.z, b.z));
    assert(field_laws(a.x, b.x, b.x) && field_laws(a.y, b.y, b.y) && field_laws(a.z, b.z, b.z));
    let h = fraction::<N>(1, 2);
    two_halves(a.x);
    two_halves(a.y);
    two_halves(a.z);
    distribute(a.x, a.x, h);
    distribute(a.y, a.y, h);
    distribute(a.z, a.z, h);
}

/// The direction of a vector, multiplied by its length, is the vector. So the direction is parallel
/// to the vector, and its length is one.
pub proof fn directions_are_unit_vectors<N: Scalar>(v: Vec3<N>)
    requires
        exact::<N>(),
        !vanishes(v.length()),
        v.length() != zero::<N>(),
        has_root(squares(v.x, v.y, v.z)),
    ensures
        times(direction(v).x, v.length()) == v.x,
        times(direction(v).y, v.length()) == v.y,
        times(direction(v).z, v.length()) == v.z,
        squares(direction(v).x, direction(v).y, direction(v).z) == one::<N>(),
        times(direction(v).x, v.y) == times(direction(v).y, v.x),
        times(direction(v).y, v.z) == times(direction(v).z, v.y),
        times(direction(v).z, v.x) == times(direction(v).x, v.z),
{
    let (d, l) = (direction(v), v.length());
    quotient_times_divisor(v.x, l);
    quotient_times_divisor(v.y, l);
    quotient_times_divisor(v.z, l);
    // The squares.
    let ll = times(l, l);
    square_of_multiple(d.x, l);
    square_of_multiple(d.y, l);
    square_of_multiple(d.z, l);
    let (xx, yy, zz) = (times(d.x, d.x), times(d.y, d.y), times(d.z, d.z));
    distribute(xx, yy, ll);
    distribute(plus(xx, yy), zz, ll);
    let q = squares(d.x, d.y, d.z);
    assert(times(q, ll) == ll);
    assert(field_laws(q, l, l));
    neutral(l);
    assert(times(times(q, l), l) == times(l, l));
    cancel_factor(times(q, l), l, l);
    cancel_factor(q, one(), l);
    // The products.
    parallel(d.x, d.y, l);
    parallel(d.y, d.z, l);
    parallel(d.z, d.x, l);
}

/// Two numbers and their multiples are in proportion.
proof fn parallel<N: Scalar>(a: N, b: N, l: N)
    requires
        exact::<N>(),
    ensures
        times(a, times(b, l)) == times(b, times(a, l)),
{
    exchange_last(a, b, l);
}

/// Twice the area of a triangle, squared, and the square of the scalar product of two sides, make
/// up the product of the squares of the two sides.
pub proof fn areas_measure_triangles<N: Scalar>(a: Pnt3<N>, b: Pnt3<N>, c: Pnt3<N>)
    requires
        exact::<N>(),
        ({
            let w = b.minus(a).vector_product(c.minus(a));
            has_root(squares(w.x, w.y, w.z))
        }),
    ensures
        ({
            let twice = plus(area(a, b, c), area(a, b, c));
            let (ux, uy, uz) = (minus(b.x, a.x), minus(b.y, a.y), minus(b.z, a.z));
            let (vx, vy, vz) = (minus(c.x, a.x), minus(c.y, a.y), minus(c.z, a.z));
            let s = plus(plus(times(ux, vx), times(uy, vy)), times(uz, vz));
            plus(times(twice, twice), times(s, s)) == times(squares(ux, uy, uz), squares(vx, vy, vz))
        }),
        area(a, c, b) == area(a, b, c),
{
    let (u, v) = (b.minus(a), c.minus(a));
    let w = u.vector_product(v);
    two_halves(w.length());
    vector_products_measure_what_scalar_products_miss(u, v);
    vector_products_are_oriented(u, v);
    square_of_opposite(w.x);
    square_of_opposite(w.y);
    square_of_opposite(w.z);
}

/// A vector vanishes exactly where adding it moves no point, in a type in which nothing vanishes but
/// zero.
pub proof fn vanishing_vectors_move_nothing<N: Scalar>(p: Pnt3<N>, v: Vec3<N>)
    requires
        exact::<N>(),
        forall|a: N| #[trigger] vanishes(a) <==> a == zero::<N>(),
    ensures
        v.vanishes() <==> p.plus(v) == p,
{
    neutral(p.x);
    neutral(p.y);
    neutral(p.z);
    there_and_back_again(p.x, p.x, v.x);
    there_and_back_again(p.y, p.y, v.y);
    there_and_back_again(p.z, p.z, v.z);
    difference_and_rest(p.x, p.x);
    difference_and_rest(p.y, p.y);
    difference_and_rest(p.z, p.z);
    assert(vanishes(v.x) <==> v.x == zero::<N>());
    assert(vanishes(v.y) <==> v.y == zero::<N>());
    assert(vanishes(v.z) <==> v.z == zero::<N>());
}

} // verus!
