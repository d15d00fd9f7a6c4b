//! The rays that a part of the mesh knows, with the concavity that each has shown.
use crate::queue::{higher, Prioritized};
use crate::scalar::{coincide, compares, lawful, precedes, rank, Scalar};
use core::cmp::Ordering;
use vstd::prelude::*;
use vstd::std_specs::cmp::PartialEqSpec;

verus! {

/// A ray, with the concavity measured along it.
#[derive(Clone, Copy, Debug)]
pub struct VertexWithConcavity<N> {
    pub id: usize,
    pub concavity: N,
}

impl<N> View for VertexWithConcavity<N> {
    type V = VertexWithConcavity<N>;

    open spec fn view(&self) -> VertexWithConcavity<N> {
        *self
    }
}

impl<N> VertexWithConcavity<N> {
    pub fn new(id: usize, concavity: N) -> (res: VertexWithConcavity<N>)
        ensures
            res.id == id,
            res.concavity == concavity,
    {
        VertexWithConcavity { id, concavity }
    }
}

/// The order of two entries: that of their concavities, and of their rays where neither concavity
/// comes before the other.
pub open spec fn entry_order<N: Scalar>(
    a: VertexWithConcavity<N>,
    b: VertexWithConcavity<N>,
) -> Ordering {
    if precedes(a.concavity, b.concavity) {
        Ordering::Less
    } else if precedes(b.concavity, a.concavity) {
        Ordering::Greater
    } else if a.id < b.id {
        Ordering::Less
    } else if a.id > b.id {
        Ordering::Greater
    } else {
        Ordering::Equal
    }
}

impl<N: Scalar> VertexWithConcavity<N> {
    /// Compares two entries.
    pub fn cmp(&self, other: &VertexWithConcavity<N>) -> (res: Ordering)
        requires
            compares::<N>(),
        ensures
            res == entry_order(*self, *other),
    {
        if self.concavity.less(other.concavity) {
            Ordering::Less
        } else if other.concavity.less(self.concavity) {
            Ordering::Greater
        } else if self.id < other.id {
            Ordering::Less
        } else if self.id > other.id {
            Ordering::Greater
        } else {
            Ordering::Equal
        }
    }
}

impl<N: Scalar> PartialEq for VertexWithConcavity<N> {
    fn eq(&self, other: &VertexWithConcavity<N>) -> (res: bool) {
        self.concavity.equals(other.concavity) && self.id == other.id
    }
}

impl<N: Scalar> vstd::std_specs::cmp::PartialEqSpecImpl for VertexWithConcavity<N> {
    open spec fn obeys_eq_spec() -> bool {
        compares::<N>()
    }

    open spec fn eq_spec(&self, other: &VertexWithConcavity<N>) -> bool {
        coincide(self.concavity, other.concavity) && self.id == other.id
    }
}

impl<N: Scalar> Eq for VertexWithConcavity<N> {

}

impl<N: Scalar> PartialOrd for VertexWithConcavity<N> {
    fn partial_cmp(&self, other: &VertexWithConcavity<N>) -> (res: Option<Ordering>) {
        if self.concavity.less(other.concavity) {
            Some(Ordering::Less)
        } else if other.concavity.less(self.concavity) {
            Some(Ordering::Greater)
        } else if self.id < other.id {
            Some(Ordering::Less)
        } else if self.id > other.id {
            Some(Ordering::Greater)
        } else {
            Some(Ordering::Equal)
        }
    }
}

impl<N: Scalar> vstd::std_specs::cmp::PartialOrdSpecImpl for VertexWithConcavity<N> {
    open spec fn obeys_partial_cmp_spec() -> bool {
        compares::<N>()
    }

    open spec fn partial_cmp_spec(&self, other: &VertexWithConcavity<N>) -> Option<Ordering> {
        Some(entry_order(*self, *other))
    }
}

impl<N: Scalar> Prioritized for VertexWithConcavity<N> {
    open spec fn comparable() -> bool {
        lawful::<N>()
    }

    open spec fn priority(value: VertexWithConcavity<N>) -> (int, int) {
        (rank(value.concavity) as int, value.id as int)
    }

    open spec fn sound(&self) -> bool {
        true
    }

    fn above(&self, other: &VertexWithConcavity<N>) -> (res: bool) {
        match self.cmp(other) {
            Ordering::Greater => true,
            _ => false,
        }
    }
}

/// Where the order of the numbers is total, so is that of the entries, and the greater one has the
/// greater priority. Entries are equal exactly where they compare as equal, provided that it is so
/// with their concavities.
pub proof fn entries_are_ordered<N: Scalar>(
    a: VertexWithConcavity<N>,
    b: VertexWithConcavity<N>,
    c: VertexWithConcavity<N>,
)
    requires
        lawful::<N>(),
    ensures
        entry_order(a, a) == Ordering::Equal,
        entry_order(a, b) == Ordering::Less <==> entry_order(b, a) == Ordering::Greater,
        (coincide(a.concavity, b.concavity) <==> rank(a.concavity) == rank(b.concavity)) ==> (
        entry_order(a, b) == Ordering::Equal <==> a.eq_spec(&b)),
        entry_order(a, b) != Ordering::Greater && entry_order(b, c) != Ordering::Greater ==> entry_order(
            a,
            c,
        ) != Ordering::Greater,
        entry_order(a, b) == Ordering::Greater <==> higher(
            VertexWithConcavity::<N>::priority(a),
            VertexWithConcavity::<N>::priority(b),
        ),
        rank(a.concavity) > rank(b.concavity) ==> entry_order(a, b) == Ordering::Greater,
        rank(a.concavity) == rank(b.concavity) && a.id > b.id ==> entry_order(a, b)
            == Ordering::Greater,
        entry_order(a, b) == Ordering::Equal <==> rank(a.concavity) == rank(b.concavity) && a.id
            == b.id,
{
    assert(precedes(a.concavity, a.concavity) == false);
    assert(precedes(a.concavity, b.concavity) == (rank(a.concavity) < rank(b.concavity)));
}

} // verus!
