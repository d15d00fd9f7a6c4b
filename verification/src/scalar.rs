//! The number type that every computation of the crate is generic over.
use vstd::prelude::*;

verus! {

/// Whether a comparison that may return `r` for `a` and `b` compares them by their places.
pub open spec fn compares_by<T>(
    may_return: spec_fn(T, T, bool) -> bool,
    place: spec_fn(T) -> nat,
) -> bool {
    forall|a: T, b: T, r: bool| #[trigger] may_return(a, b, r) ==> r == (place(a) < place(b))
}

/// Places by which a comparison that may return `r` for `a` and `b` compares them.
pub open spec fn order_of<T>(may_return: spec_fn(T, T, bool) -> bool) -> spec_fn(T) -> nat {
    choose|place: spec_fn(T) -> nat| compares_by(may_return, place)
}

/// A number type on which a decomposition can be computed.
///
/// The trait itself promises nothing of its operations. It gives their results names, and a type
/// that says nothing else leaves them at "what the operation may return". What the crate asks
/// of a number type is `lawful`: that its operations return what the names say. Every function
/// that computes with numbers requires it.
pub trait Scalar: Copy {
    /// What `zero` returns.
    open spec fn null() -> Self {
        choose|r: Self| call_ensures(Self::zero, (), r)
    }

    /// What `one` returns.
    open spec fn unit() -> Self {
        choose|r: Self| call_ensures(Self::one, (), r)
    }

    /// What `max_value` returns.
    open spec fn upper_bound() -> Self {
        choose|r: Self| call_ensures(Self::max_value, (), r)
    }

    /// What `ratio` returns.
    open spec fn fraction_of(num: u32, den: u32) -> Self {
        choose|r: Self| call_ensures(Self::ratio, (num, den), r)
    }

    /// What `add` returns.
    open spec fn sum(a: Self, b: Self) -> Self {
        choose|r: Self| call_ensures(Self::add, (a, b), r)
    }

    /// What `sub` returns.
    open spec fn difference(a: Self, b: Self) -> Self {
        choose|r: Self| call_ensures(Self::sub, (a, b), r)
    }

    /// What `mul` returns.
    open spec fn product(a: Self, b: Self) -> Self {
        choose|r: Self| call_ensures(Self::mul, (a, b), r)
    }

    /// What `div` returns.
    open spec fn quotient(a: Self, b: Self) -> Self {
        choose|r: Self| call_ensures(Self::div, (a, b), r)
    }

    /// What `neg` returns.
    open spec fn negative(a: Self) -> Self {
        choose|r: Self| call_ensures(Self::neg, (a,), r)
    }

    /// What `sqrt` returns.
    open spec fn square_root(a: Self) -> Self {
        choose|r: Self| call_ensures(Self::sqrt, (a,), r)
    }

    /// What `is_zero` returns.
    open spec fn is_null(a: Self) -> bool {
        choose|r: bool| call_ensures(Self::is_zero, (a,), r)
    }

    /// What `approx_eq` returns.
    open spec fn is_near(a: Self, b: Self) -> bool {
        choose|r: bool| call_ensures(Self::approx_eq, (a, b), r)
    }

    /// What `equals` returns.
    open spec fn coincides(a: Self, b: Self) -> bool {
        choose|r: bool| call_ensures(Self::equals, (a, b), r)
    }

    /// What `less` returns.
    open spec fn comes_before(a: Self, b: Self) -> bool {
        choose|r: bool| call_ensures(Self::less, (a, b), r)
    }

    /// The place of a value in the order of the type, where the order is total. Neither of two
    /// values of the same place (the two zeros of a floating-point type) comes before the other.
    open spec fn place(a: Self) -> nat {
        order_of(|a: Self, b: Self, r: bool| call_ensures(Self::less, (a, b), r))(a)
    }

    /// The additive identity.
    fn zero() -> Self;

    /// The multiplicative identity.
    fn one() -> Self;

    /// The upper bound of the type; its opposite is the lower bound.
    fn max_value() -> Self;

    /// The number `num / den`, as well as the type can represent it.
    fn ratio(num: u32, den: u32) -> Self;

    fn add(self, other: Self) -> Self;

    fn sub(self, other: Self) -> Self;

    fn mul(self, other: Self) -> Self;

    fn div(self, other: Self) -> Self;

    fn neg(self) -> Self;

    fn sqrt(self) -> Self;

    /// Whether the value is the additive identity.
    fn is_zero(self) -> bool;

    /// Whether the two values differ by no more than the tolerance of the type.
    fn approx_eq(self, other: Self) -> bool;

    /// Whether the two values are equal.
    fn equals(self, other: Self) -> bool;

    /// Whether `self` comes strictly before `other` in the order of the type.
    fn less(self, other: Self) -> bool;
}

pub open spec fn zero<N: Scalar>() -> N {
    N::null()
}

pub open spec fn one<N: Scalar>() -> N {
    N::unit()
}

/// The upper bound of the type.
pub open spec fn top<N: Scalar>() -> N {
    N::upper_bound()
}

pub open spec fn fraction<N: Scalar>(num: u32, den: u32) -> N {
    N::fraction_of(num, den)
}

pub open spec fn plus<N: Scalar>(a: N, b: N) -> N {
    N::sum(a, b)
}

pub open spec fn minus<N: Scalar>(a: N, b: N) -> N {
    N::difference(a, b)
}

pub open spec fn times<N: Scalar>(a: N, b: N) -> N {
    N::product(a, b)
}

pub open spec fn over<N: Scalar>(a: N, b: N) -> N {
    N::quotient(a, b)
}

pub open spec fn opposite<N: Scalar>(a: N) -> N {
    N::negative(a)
}

pub open spec fn root<N: Scalar>(a: N) -> N {
    N::square_root(a)
}

pub open spec fn vanishes<N: Scalar>(a: N) -> bool {
    N::is_null(a)
}

pub open spec fn near<N: Scalar>(a: N, b: N) -> bool {
    N::is_near(a, b)
}

/// Whether `a` is equal to `b`.
pub open spec fn coincide<N: Scalar>(a: N, b: N) -> bool {
    N::coincides(a, b)
}

/// Whether `a` comes strictly before `b`.
pub open spec fn precedes<N: Scalar>(a: N, b: N) -> bool {
    N::comes_before(a, b)
}

/// The place of a value in the order of the type.
pub open spec fn rank<N: Scalar>(a: N) -> nat {
    N::place(a)
}

/// What the comparisons of a number type have to keep: they are functions of their operands. The
/// order need not be total, and a value need not be equal to itself.
pub open spec fn compares<N: Scalar>() -> bool {
    &&& forall|a: N, b: N, r: bool| #[trigger]
        call_ensures(N::equals, (a, b), r) ==> r == coincide(a, b)
    &&& forall|a: N, b: N, r: bool| #[trigger]
        call_ensures(N::less, (a, b), r) ==> r == precedes(a, b)
}

/// What a number type has to keep: its operations are functions of their operands, its order
/// is that of a rank, and nothing lies below the opposite of its upper bound. Nothing is
/// asked of the arithmetic: rounding and overflow are the type's own.
pub open spec fn lawful<N: Scalar>() -> bool {
    &&& forall|r: N| #[trigger] call_ensures(N::zero, (), r) ==> r == zero::<N>()
    &&& forall|r: N| #[trigger] call_ensures(N::one, (), r) ==> r == one::<N>()
    &&& forall|r: N| #[trigger] call_ensures(N::max_value, (), r) ==> r == top::<N>()
    &&& forall|n: u32, d: u32, r: N| #[trigger]
        call_ensures(N::ratio, (n, d), r) ==> r == fraction::<N>(n, d)
    &&& forall|a: N, b: N, r: N| #[trigger] call_ensures(N::add, (a, b), r) ==> r == plus(a, b)
    &&& forall|a: N, b: N, r: N| #[trigger] call_ensures(N::sub, (a, b), r) ==> r == minus(a, b)
    &&& forall|a: N, b: N, r: N| #[trigger] call_ensures(N::mul, (a, b), r) ==> r == times(a, b)
    &&& forall|a: N, b: N, r: N| #[trigger] call_ensures(N::div, (a, b), r) ==> r == over(a, b)
    &&& forall|a: N, r: N| #[trigger] call_ensures(N::neg, (a,), r) ==> r == opposite(a)
    &&& forall|a: N, r: N| #[trigger] call_ensures(N::sqrt, (a,), r) ==> r == root(a)
    &&& forall|a: N, r: bool| #[trigger] call_ensures(N::is_zero, (a,), r) ==> r == vanishes(a)
    &&& forall|a: N, b: N, r: bool| #[trigger]
        call_ensures(N::approx_eq, (a, b), r) ==> r == near(a, b)
    &&& compares::<N>()
    &&& forall|a: N, b: N| #[trigger] precedes(a, b) == (rank(a) < rank(b))
    &&& forall|a: N| rank(opposite(top::<N>())) <= #[trigger] rank(a)
}

/// Whether the operations of the type respect its order: sums grow with their terms, differences
/// with what is subtracted from, products with a factor where the other one is not negative, and
/// opposites the other way round. Rounding and saturation may keep to this.
pub open spec fn monotone<N: Scalar>() -> bool {
    &&& forall|a: N, b: N, c: N, d: N|
        rank(a) <= rank(b) && rank(c) <= rank(d) ==> rank(#[trigger] plus(a, c)) <= rank(
            #[trigger] plus(b, d),
        )
    &&& forall|a: N, b: N, c: N|
        rank(a) <= rank(b) ==> rank(#[trigger] minus(a, c)) <= rank(#[trigger] minus(b, c))
    &&& forall|a: N, b: N, s: N|
        rank(a) <= rank(b) && rank(zero::<N>()) <= rank(s) ==> rank(#[trigger] times(a, s)) <= rank(
            #[trigger] times(b, s),
        )
    &&& forall|a: N, b: N|
        rank(a) <= rank(b) ==> rank(#[trigger] opposite(b)) <= rank(#[trigger] opposite(a))
}

/// The greater of two values, the first one where they compare as equal.
pub open spec fn greater<N: Scalar>(a: N, b: N) -> N {
    if rank(a) < rank(b) {
        b
    } else {
        a
    }
}

/// The smaller of two values, the first one where they compare as equal.
pub open spec fn smaller<N: Scalar>(a: N, b: N) -> N {
    if rank(b) < rank(a) {
        b
    } else {
        a
    }
}

/// The greater of two values.
pub fn max_of<N: Scalar>(a: N, b: N) -> (res: N)
    requires
        lawful::<N>(),
    ensures
        res == greater(a, b),
{
    if a.less(b) {
        b
    } else {
        a
    }
}

/// The smaller of two values.
pub fn min_of<N: Scalar>(a: N, b: N) -> (res: N)
    requires
        lawful::<N>(),
    ensures
        res == smaller(a, b),
{
    if b.less(a) {
        b
    } else {
        a
    }
}

/// The greater and the smaller one of two values are the one or the other, in order, and the first
/// one where they compare as equal.
pub proof fn extremes_are_in_order<N: Scalar>(a: N, b: N)
    ensures
        rank(smaller(a, b)) <= rank(a) <= rank(greater(a, b)),
        rank(smaller(a, b)) <= rank(b) <= rank(greater(a, b)),
        greater(a, b) == a || greater(a, b) == b,
        smaller(a, b) == a || smaller(a, b) == b,
        rank(a) == rank(b) ==> greater(a, b) == a && smaller(a, b) == a,
{
}

} // verus!
