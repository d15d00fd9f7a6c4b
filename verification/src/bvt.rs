//! A binary tree of bounding volumes.
use crate::aabb::{merging_keeps_meetings, AABB};
use crate::scalar::{lawful, Scalar};
use vstd::prelude::*;

verus! {

/// A node of the tree, with the box that holds everything below it.
pub enum BVTNode<N> {
    Leaf(usize, AABB<N>),
    Inner(AABB<N>, Box<BVTNode<N>>, Box<BVTNode<N>>),
}

/// A balanced tree of boxes, which finds those that meet a given box.
pub struct BVT<N> {
    tree: Option<BVTNode<N>>,
}

/// The values of the leaves whose box meets `volume`, in order.
pub open spec fn interferences<N: Scalar>(leaves: Seq<(usize, AABB<N>)>, volume: AABB<N>) -> Seq<usize>
    decreases leaves.len(),
{
    if leaves.len() == 0 {
        Seq::empty()
    } else {
        let before = interferences(leaves.drop_last(), volume);
        if leaves.last().1.meets(volume) {
            before.push(leaves.last().0)
        } else {
            before
        }
    }
}

/// A value is found exactly where it is that of a leaf whose box meets the given one.
pub proof fn interferences_are_the_meeting_leaves<N: Scalar>(
    leaves: Seq<(usize, AABB<N>)>,
    volume: AABB<N>,
    value: usize,
)
    ensures
        interferences(leaves, volume).contains(value) <==> exists|i: int|
            0 <= i < leaves.len() && #[trigger] leaves[i].0 == value && leaves[i].1.meets(volume),
    decreases leaves.len(),
{
    if leaves.len() > 0 {
        let shorter = leaves.drop_last();
        let before = interferences(shorter, volume);
        interferences_are_the_meeting_leaves(shorter, volume, value);
        if before.contains(value) {
            let i = choose|i: int|
                0 <= i < shorter.len() && #[trigger] shorter[i].0 == value && shorter[i].1.meets(volume);
            assert(leaves[i].0 == value);
            let k = choose|k: int| 0 <= k < before.len() && before[k] == value;
            assert(before.push(leaves.last().0)[k] == value);
        }
        if exists|i: int|
            0 <= i < leaves.len() && #[trigger] leaves[i].0 == value && leaves[i].1.meets(volume) {
            let i = choose|i: int|
                0 <= i < leaves.len() && #[trigger] leaves[i].0 == value && leaves[i].1.meets(volume);
            if i < shorter.len() {
                assert(shorter[i].0 == value);
            } else {
                assert(before.push(leaves.last().0)[before.len() as int] == value);
            }
        } else if interferences(leaves, volume).contains(value) {
            let k = choose|k: int|
                0 <= k < interferences(leaves, volume).len() && interferences(leaves, volume)[k] == value;
            if k < before.len() {
                assert(before[k] == value);
            } else {
                assert(leaves[leaves.len() - 1].0 == value);
            }
        }
    }
}

proof fn interferences_of_concatenation<N: Scalar>(
    a: Seq<(usize, AABB<N>)>,
    b: Seq<(usize, AABB<N>)>,
    volume: AABB<N>,
)
    ensures
        interferences(a + b, volume) == interferences(a, volume) + interferences(b, volume),
    decreases b.len(),
{
    if b.len() == 0 {
        assert(a + b =~= a);
    } else {
        assert((a + b).drop_last() =~= a + b.drop_last());
        interferences_of_concatenation(a, b.drop_last(), volume);
    }
    assert(interferences(a + b, volume) =~= interferences(a, volume) + interferences(b, volume));
}

impl<N: Scalar> BVTNode<N> {
    /// The leaves below the node, from left to right.
    pub open spec fn leaves(self) -> Seq<(usize, AABB<N>)>
        decreases self,
    {
        match self {
            BVTNode::Leaf(value, volume) => seq![(value, volume)],
            BVTNode::Inner(_, left, right) => left.leaves() + right.leaves(),
        }
    }

    pub open spec fn bounds(self) -> AABB<N> {
        match self {
            BVTNode::Leaf(_, volume) => volume,
            BVTNode::Inner(volume, _, _) => volume,
        }
    }

    /// The box of each inner node is the merge of the boxes of its children.
    pub open spec fn wf(self) -> bool
        decreases self,
    {
        match self {
            BVTNode::Leaf(_, _) => true,
            BVTNode::Inner(volume, left, right) => {
                &&& left.wf()
                &&& right.wf()
                &&& volume == left.bounds().hull(right.bounds())
            },
        }
    }

    /// Below a node whose box does not meet `volume`, no leaf does.
    proof fn pruned(self, volume: AABB<N>)
        requires
            self.wf(),
            !self.bounds().meets(volume),
        ensures
            interferences(self.leaves(), volume) == Seq::<usize>::empty(),
        decreases self,
    {
        match self {
            BVTNode::Leaf(value, bounds) => {
                let leaves = seq![(value, bounds)];
                assert(self.leaves() == leaves);
                assert(interferences(leaves.drop_last(), volume) == Seq::<usize>::empty());
            },
            BVTNode::Inner(_, left, right) => {
                merging_keeps_meetings(left.bounds(), right.bounds(), volume);
                left.pruned(volume);
                right.pruned(volume);
                interferences_of_concatenation(left.leaves(), right.leaves(), volume);
                assert(interferences(self.leaves(), volume) =~= Seq::<usize>::empty());
            },
        }
    }

    fn volume(&self) -> (res: AABB<N>)
        ensures
            res == self.bounds(),
    {
        match self {
            BVTNode::Leaf(_, volume) => *volume,
            BVTNode::Inner(volume, _, _) => *volume,
        }
    }

    fn build(leaves: &Vec<(usize, AABB<N>)>, lo: usize, hi: usize) -> (res: Self)
        requires
            lawful::<N>(),
            lo < hi <= leaves@.len(),
        ensures
            res.wf(),
            res.leaves() == leaves@.subrange(lo as int, hi as int),
        decreases hi - lo,
    {
        if hi - lo == 1 {
            let res = BVTNode::Leaf(leaves[lo].0, leaves[lo].1);
            assert(res.leaves() =~= leaves@.subrange(lo as int, hi as int));
            res
        } else {
            let mid: usize = lo + (hi - lo) / 2;
            let left = Self::build(leaves, lo, mid);
            let right = Self::build(leaves, mid, hi);
            let volume = left.volume().merged(&right.volume());
            let res = BVTNode::Inner(volume, Box::new(left), Box::new(right));
            assert(res.leaves() =~= leaves@.subrange(lo as int, hi as int));
            res
        }
    }

    fn collect(&self, volume: &AABB<N>, found: &mut Vec<usize>)
        requires
            lawful::<N>(),
            self.wf(),
        ensures
            final(found)@ == old(found)@ + interferences(self.leaves(), *volume),
        decreases self,
    {
        if !self.volume().intersects(volume) {
            proof {
                self.pruned(*volume);
            }
            assert(found@ =~= found@ + interferences(self.leaves(), *volume));
            return ;
        }
        match self {
            BVTNode::Leaf(value, bounds) => {
                found.push(*value);
                proof {
                    let leaves = seq![(*value, *bounds)];
                    assert(self.leaves() == leaves);
                    assert(interferences(leaves.drop_last(), *volume) == Seq::<usize>::empty());
                    assert(interferences(leaves, *volume) =~= seq![*value]);
                }
                assert(found@ =~= old(found)@ + interferences(self.leaves(), *volume));
            },
            BVTNode::Inner(_, left, right) => {
                left.collect(volume, found);
                right.collect(volume, found);
                proof {
                    interferences_of_concatenation(left.leaves(), right.leaves(), *volume);
                }
                assert(found@ =~= old(found)@ + interferences(self.leaves(), *volume));
            },
        }
    }
}

impl<N: Scalar> BVT<N> {
    /// The leaves of the tree, from left to right.
    pub closed spec fn leaves(self) -> Seq<(usize, AABB<N>)> {
        match self.tree {
            Some(tree) => tree.leaves(),
            None => Seq::empty(),
        }
    }

    /// The boxes of the tree hold what is below them.
    pub closed spec fn wf(self) -> bool {
        self.tree matches Some(tree) ==> tree.wf()
    }

    /// A balanced tree with the given leaves.
    pub fn new_balanced(leaves: Vec<(usize, AABB<N>)>) -> (res: Self)
        requires
            lawful::<N>(),
        ensures
            res.wf(),
            res.leaves() == leaves@,
    {
        if leaves.len() == 0 {
            assert(leaves@ =~= Seq::empty());
            BVT { tree: None }
        } else {
            let tree = BVTNode::build(&leaves, 0, leaves.len());
            assert(leaves@.subrange(0, leaves@.len() as int) =~= leaves@);
            BVT { tree: Some(tree) }
        }
    }

    /// The values of the leaves whose box meets `volume`.
    pub fn visit(&self, volume: &AABB<N>) -> (res: Vec<usize>)
        requires
            lawful::<N>(),
            self.wf(),
        ensures
            res@ == interferences(self.leaves(), *volume),
    {
        let mut found: Vec<usize> = Vec::new();
        match &self.tree {
            Some(tree) => {
                tree.collect(volume, &mut found);
                assert(found@ =~= interferences(self.leaves(), *volume));
            },
            None => {
                assert(found@ =~= interferences(self.leaves(), *volume));
            },
        }
        found
    }
}

} // verus!
