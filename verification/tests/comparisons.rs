use hacd::queue::PriorityQueue;
use hacd::{DualGraphEdge, Scalar, VertexWithConcavity};
use std::cmp::Ordering;

/// A floating-point number, compared as such: what is not a number compares with nothing.
#[derive(Clone, Copy, Debug)]
struct Raw(f64);

impl Scalar for Raw {
    fn zero() -> Self {
        Raw(0.0)
    }

    fn one() -> Self {
        Raw(1.0)
    }

    fn max_value() -> Self {
        Raw(f64::INFINITY)
    }

    fn ratio(num: u32, den: u32) -> Self {
        Raw(num as f64 / den as f64)
    }

    fn add(self, other: Self) -> Self {
        Raw(self.0 + other.0)
    }

    fn sub(self, other: Self) -> Self {
        Raw(self.0 - other.0)
    }

    fn mul(self, other: Self) -> Self {
        Raw(self.0 * other.0)
    }

    fn div(self, other: Self) -> Self {
        Raw(self.0 / other.0)
    }

    fn neg(self) -> Self {
        Raw(-self.0)
    }

    fn sqrt(self) -> Self {
        Raw(self.0.sqrt())
    }

    fn is_zero(self) -> bool {
        self.0 == 0.0
    }

    fn approx_eq(self, other: Self) -> bool {
        (self.0 - other.0).abs() < 1.0e-6
    }

    fn equals(self, other: Self) -> bool {
        self.0 == other.0
    }

    fn less(self, other: Self) -> bool {
        self.0 < other.0
    }
}

fn edge(mcost: f64) -> DualGraphEdge<Raw> {
    DualGraphEdge {
        v1: 0,
        v2: 1,
        mcost: Raw(mcost),
        exact: false,
        timestamp: 0,
        ancestors: PriorityQueue::new(),
        iv1: 0,
        iv2: 0,
        shape: Raw(0.0),
        concavity: Raw(0.0),
        iray_cast: false,
    }
}

fn entry(id: usize, concavity: f64) -> VertexWithConcavity<Raw> {
    VertexWithConcavity::new(id, Raw(concavity))
}

#[test]
fn edges_compare_by_the_opposites_of_their_costs() {
    assert!(edge(1.0) == edge(1.0) && edge(1.0) != edge(2.0));
    assert!(edge(0.0) == edge(-0.0));
    assert_eq!(edge(1.0).partial_cmp(&edge(2.0)), Some(Ordering::Less));
    assert_eq!(edge(2.0).partial_cmp(&edge(1.0)), Some(Ordering::Greater));
    assert_eq!(edge(0.0).partial_cmp(&edge(-0.0)), Some(Ordering::Equal));
    assert_eq!(edge(1.0).cmp(&edge(2.0)), Ordering::Less);
    assert_eq!(edge(2.0).cmp(&edge(1.0)), Ordering::Greater);
    assert_eq!(edge(0.0).cmp(&edge(-0.0)), Ordering::Equal);
}

#[test]
fn edges_whose_costs_do_not_compare() {
    let nan = f64::NAN;
    assert!(edge(nan) != edge(nan) && edge(nan) != edge(1.0));
    assert_eq!(edge(nan).partial_cmp(&edge(nan)), None);
    assert_eq!(edge(nan).partial_cmp(&edge(1.0)), None);
    assert_eq!(edge(1.0).partial_cmp(&edge(nan)), None);
    assert_eq!(edge(nan).cmp(&edge(1.0)), Ordering::Equal);
    assert_eq!(edge(1.0).cmp(&edge(nan)), Ordering::Equal);
}

#[test]
fn entries_whose_concavities_do_not_compare() {
    let nan = f64::NAN;
    assert!(entry(1, nan) != entry(1, nan) && entry(1, nan) != entry(1, 0.0));
    assert!(entry(1, 0.0) == entry(1, -0.0));
    // Their rays decide.
    assert_eq!(entry(1, nan).partial_cmp(&entry(2, 5.0)), Some(Ordering::Less));
    assert_eq!(entry(3, nan).partial_cmp(&entry(2, 5.0)), Some(Ordering::Greater));
    assert_eq!(entry(2, nan).partial_cmp(&entry(2, 5.0)), Some(Ordering::Equal));
    assert_eq!(entry(1, nan).cmp(&entry(2, 5.0)), Ordering::Less);
    assert_eq!(entry(3, 5.0).cmp(&entry(2, nan)), Ordering::Greater);
    assert_eq!(entry(2, nan).cmp(&entry(2, nan)), Ordering::Equal);
}
