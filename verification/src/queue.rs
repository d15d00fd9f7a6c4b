//! A priority queue.
use vstd::multiset::Multiset;
use vstd::prelude::*;

verus! {

/// What can wait in a `PriorityQueue`.
pub trait Prioritized: View {
    /// Whether values of the type can be compared.
    spec fn comparable() -> bool;

    /// The priority of a value: the first component decides, the second one breaks ties.
    spec fn priority(value: Self::V) -> (int, int);

    /// Whether the value is in order itself.
    spec fn sound(&self) -> bool;

    /// Whether `self` has to leave before `other`.
    fn above(&self, other: &Self) -> (res: bool)
        requires
            Self::comparable(),
        ensures
            res == higher(Self::priority(self@), Self::priority(other@)),
    ;
}

/// Whether priority `a` is strictly greater than priority `b`.
pub open spec fn higher(a: (int, int), b: (int, int)) -> bool {
    a.0 > b.0 || (a.0 == b.0 && a.1 > b.1)
}

/// Whether no value of the multiset has a greater priority than `value`.
pub open spec fn leads<T: Prioritized>(value: T::V, all: Multiset<T::V>) -> bool {
    &&& all.contains(value)
    &&& forall|other: T::V| #[trigger]
        all.contains(other) ==> !higher(T::priority(other), T::priority(value))
}

/// Whether no value of the list has a greater priority than one that stands before it.
pub open spec fn descending<T: Prioritized>(s: Seq<T::V>) -> bool {
    forall|i: int, j: int|
        0 <= i < j < s.len() ==> !higher(T::priority(#[trigger] s[j]), T::priority(#[trigger] s[i]))
}

/// Of two values of a descending list, the later one has no greater priority.
pub proof fn later_is_not_above<T: Prioritized>(s: Seq<T::V>, i: int, j: int)
    requires
        descending::<T>(s),
        0 <= i < j < s.len(),
    ensures
        !higher(T::priority(s[j]), T::priority(s[i])),
{
}

/// The values that the list holds.
pub open spec fn viewed<T: View>(s: Seq<T>) -> Seq<T::V> {
    s.map_values(|x: T| x@)
}

/// The place above `i` in the tree.
spec fn parent(i: int) -> int {
    (i - 1) / 2
}

/// Whether the value at place `i` may stand under the one above it.
spec fn fits<T: Prioritized>(s: Seq<T::V>, i: int) -> bool {
    i <= 0 || !higher(T::priority(s[i]), T::priority(s[parent(i)]))
}

/// Whether the tree is in order but for the value at place `i`, which may have to move up.
spec fn rises<T: Prioritized>(s: Seq<T::V>, i: int) -> bool {
    &&& forall|c: int| 0 <= c < s.len() && c != i ==> #[trigger] fits::<T>(s, c)
    &&& forall|c: int|
        #![trigger s[c]]
        0 < c < s.len() && parent(c) == i && i > 0 ==> !higher(
            T::priority(s[c]),
            T::priority(s[parent(i)]),
        )
}

/// Whether the tree is in order but for the value at place `i`, which may have to move down.
spec fn sinks<T: Prioritized>(s: Seq<T::V>, i: int) -> bool {
    &&& forall|c: int| 0 <= c < s.len() && (parent(c) != i || c == 0) ==> #[trigger] fits::<T>(s, c)
    &&& forall|c: int|
        #![trigger s[c]]
        0 < c < s.len() && parent(c) == i && i > 0 ==> !higher(
            T::priority(s[c]),
            T::priority(s[parent(i)]),
        )
}

proof fn rising_keeps_order<T: Prioritized>(v: Seq<T::V>, i: int)
    requires
        0 < i < v.len(),
        rises::<T>(v, i),
        !fits::<T>(v, i),
    ensures
        rises::<T>(v.update(parent(i), v[i]).update(i, v[parent(i)]), parent(i)),
{
    let p = parent(i);
    let w = v.update(p, v[i]).update(i, v[p]);
    assert(fits::<T>(v, p));
    assert forall|c: int| 0 <= c < w.len() && c != p implies #[trigger] fits::<T>(w, c) by {
        if c > 0 && c != i {
            assert(fits::<T>(v, c));
            assert(w[c] == v[c]);
            if parent(c) == i {
                assert(w[parent(c)] == v[p]);
            } else if parent(c) == p {
                assert(w[parent(c)] == v[i]);
            } else {
                assert(w[parent(c)] == v[parent(c)]);
            }
        }
    }
    assert forall|c: int|
        #![trigger w[c]]
        0 < c < w.len() && parent(c) == p && p > 0 implies !higher(
        T::priority(w[c]),
        T::priority(w[parent(p)]),
    ) by {
        assert(w[parent(p)] == v[parent(p)]);
        if c != i {
            assert(fits::<T>(v, c));
            assert(w[c] == v[c]);
        }
    }
}

proof fn sinking_keeps_order<T: Prioritized>(v: Seq<T::V>, i: int, child: int)
    requires
        0 <= i < child < v.len(),
        parent(child) == i,
        sinks::<T>(v, i),
        !fits::<T>(v, child),
        forall|c: int|
            #![trigger v[c]]
            0 < c < v.len() && parent(c) == i ==> !higher(T::priority(v[c]), T::priority(v[child])),
    ensures
        sinks::<T>(v.update(i, v[child]).update(child, v[i]), child),
{
    let w = v.update(i, v[child]).update(child, v[i]);
    assert forall|c: int| 0 <= c < w.len() && (parent(c) != child || c == 0) implies #[trigger] fits::<T>(
        w,
        c,
    ) by {
        if c > 0 {
            if c == i {
                assert(w[c] == v[child]);
                assert(w[parent(c)] == v[parent(i)]);
            } else if c == child {
                assert(w[c] == v[i]);
                assert(w[parent(c)] == v[child]);
            } else {
                assert(w[c] == v[c]);
                if parent(c) == i {
                    assert(w[parent(c)] == v[child]);
                } else {
                    assert(fits::<T>(v, c));
                    assert(w[parent(c)] == v[parent(c)]);
                }
            }
        }
    }
    assert forall|c: int|
        #![trigger w[c]]
        0 < c < w.len() && parent(c) == child && child > 0 implies !higher(
        T::priority(w[c]),
        T::priority(w[parent(child)]),
    ) by {
        assert(fits::<T>(v, c));
        assert(w[c] == v[c]);
        assert(w[parent(child)] == v[child]);
    }
}

/// The queue, as a binary tree in which no value has a greater priority than the one above
/// it. The children of place `i` stand at the places `2 * i + 1` and `2 * i + 2`.
pub struct PriorityQueue<T> {
    items: Vec<T>,
}

impl<T: Prioritized> View for PriorityQueue<T> {
    type V = Multiset<T::V>;

    closed spec fn view(&self) -> Multiset<T::V> {
        viewed(self.items@).to_multiset()
    }
}

impl<T: Prioritized> PriorityQueue<T> {
    /// The values stand in heap order, and each of them is in order itself.
    pub closed spec fn wf(&self) -> bool {
        &&& forall|i: int| 0 <= i < self.items@.len() ==> #[trigger] fits::<T>(viewed(self.items@), i)
        &&& self.sound()
    }

    /// Each of the values is in order itself.
    closed spec fn sound(&self) -> bool {
        forall|i: int| 0 <= i < self.items@.len() ==> (#[trigger] self.items@[i]).sound()
    }

    /// The empty queue.
    pub fn new() -> (res: Self)
        ensures
            res.wf(),
            res@ == Multiset::<T::V>::empty(),
    {
        let res = PriorityQueue { items: Vec::new() };
        proof {
            broadcast use vstd::seq_lib::group_to_multiset_ensures;

            assert(viewed(res.items@) =~= Seq::<T::V>::empty());
            assert(viewed(res.items@).to_multiset() =~= Multiset::empty());
        }
        res
    }

    /// Whether nothing waits.
    pub fn is_empty(&self) -> (res: bool)
        ensures
            res == (self@.len() == 0),
    {
        proof {
            broadcast use vstd::seq_lib::group_to_multiset_ensures;

            viewed(self.items@).to_multiset_ensures();
        }
        self.items.len() == 0
    }

    /// Exchanges the values at two places.
    fn swap(&mut self, i: usize, j: usize)
        requires
            i < j < old(self).items@.len(),
        ensures
            final(self).items@ == old(self).items@.update(i as int, old(self).items@[j as int]).update(
                j as int,
                old(self).items@[i as int],
            ),
            final(self)@ == old(self)@,
            old(self).sound() ==> final(self).sound(),
    {
        let ghost before = self.items@;
        let (left, right) = self.items.as_mut_slice().split_at_mut(j);
        core::mem::swap(&mut left[i], &mut right[0]);
        proof {
            broadcast use vstd::seq_lib::group_to_multiset_ensures;

            let after = before.update(i as int, before[j as int]).update(j as int, before[i as int]);
            assert(self.items@ =~= after);
            let v = viewed(before);
            let v1 = v.update(i as int, v[j as int]);
            assert(viewed(after) =~= v1.update(j as int, v[i as int]));
            vstd::seq_lib::to_multiset_update(v, i as int, v[j as int]);
            vstd::seq_lib::to_multiset_update(v1, j as int, v[i as int]);
            assert(viewed(after).to_multiset() =~= v.to_multiset());
        }
    }

    /// Adds a value.
    pub fn push(&mut self, value: T)
        requires
            T::comparable(),
            old(self).wf(),
            value.sound(),
        ensures
            final(self).wf(),
            final(self)@ == old(self)@.insert(value@),
    {
        let ghost before = viewed(self.items@);
        self.items.push(value);
        let mut i: usize = self.items.len() - 1;
        proof {
            broadcast use vstd::seq_lib::group_to_multiset_ensures;

            assert(viewed(self.items@) =~= before.push(value@));
            assert forall|c: int| 0 <= c < self.items@.len() && c != i implies #[trigger] fits::<T>(
                viewed(self.items@),
                c,
            ) by {
                assert(fits::<T>(before, c));
            }
        }
        while i > 0
            invariant
                T::comparable(),
                i < self.items@.len(),
                self.sound(),
                self@ == old(self)@.insert(value@),
                rises::<T>(viewed(self.items@), i as int),
            ensures
                self.wf(),
                self@ == old(self)@.insert(value@),
            decreases i,
        {
            let p: usize = (i - 1) / 2;
            let ghost v = viewed(self.items@);
            if !self.items[i].above(&self.items[p]) {
                assert(fits::<T>(v, i as int));
                break;
            }
            self.swap(p, i);
            proof {
                let w = viewed(self.items@);
                assert(w =~= v.update(p as int, v[i as int]).update(i as int, v[p as int]));
                rising_keeps_order::<T>(v, i as int);
            }
            i = p;
        }
    }

    /// The value that leaves next.
    pub fn top(&self) -> (res: Option<&T>)
        requires
            self.wf(),
        ensures
            match res {
                None => self@.len() == 0,
                Some(value) => leads::<T>(value@, self@),
            },
    {
        proof {
            broadcast use vstd::seq_lib::group_to_multiset_ensures;

            viewed(self.items@).to_multiset_ensures();
        }
        if self.items.len() == 0 {
            None
        } else {
            proof {
                self.root_leads();
            }
            Some(&self.items[0])
        }
    }

    /// The value at the root has the greatest priority.
    proof fn root_leads(&self)
        requires
            self.wf(),
            self.items@.len() > 0,
        ensures
            leads::<T>(self.items@[0]@, self@),
    {
        broadcast use vstd::seq_lib::group_to_multiset_ensures;

        let v = viewed(self.items@);
        v.to_multiset_ensures();
        assert(v[0] == self.items@[0]@);
        assert(v.contains(v[0]));
        assert forall|other: T::V| #[trigger] self@.contains(other) implies !higher(
            T::priority(other),
            T::priority(v[0]),
        ) by {
            assert(v.contains(other));
            let i = choose|i: int| 0 <= i < v.len() && v[i] == other;
            self.under_root(i);
        }
    }

    proof fn under_root(&self, i: int)
        requires
            self.wf(),
            0 <= i < self.items@.len(),
        ensures
            !higher(
                T::priority(viewed(self.items@)[i]),
                T::priority(viewed(self.items@)[0]),
            ),
        decreases i,
    {
        if i > 0 {
            assert(fits::<T>(viewed(self.items@), i));
            self.under_root(parent(i));
        }
    }

    /// Takes out a value of the greatest priority.
    pub fn pop(&mut self) -> (res: Option<T>)
        requires
            T::comparable(),
            old(self).wf(),
        ensures
            final(self).wf(),
            match res {
                None => old(self)@.len() == 0 && final(self)@ == old(self)@,
                Some(value) => {
                    &&& value.sound()
                    &&& leads::<T>(value@, old(self)@)
                    &&& final(self)@ == old(self)@.remove(value@)
                },
            },
    {
        proof {
            broadcast use vstd::seq_lib::group_to_multiset_ensures;

            viewed(self.items@).to_multiset_ensures();
        }
        if self.items.len() == 0 {
            return None;
        }
        proof {
            self.root_leads();
        }
        let ghost before = viewed(self.items@);
        let value = self.items.swap_remove(0);
        let ghost rest = old(self)@.remove(value@);
        let mut i: usize = 0;
        proof {
            broadcast use vstd::seq_lib::group_to_multiset_ensures;

            let moved = before.update(0, before.last());
            let after = moved.drop_last();
            assert(viewed(self.items@) =~= after);
            vstd::seq_lib::to_multiset_update(before, 0, before.last());
            vstd::seq_lib::to_multiset_remove(moved, moved.len() - 1);
            assert(moved.remove(moved.len() - 1) =~= after);
            assert(moved.last() == before.last());
            assert(after.to_multiset() =~= rest);
            assert forall|c: int| 0 <= c < after.len() && parent(c) != 0 implies #[trigger] fits::<T>(
                after,
                c,
            ) by {
                assert(fits::<T>(before, c));
            }
        }
        let len: usize = self.items.len();
        while i < len
            invariant
                T::comparable(),
                len == self.items@.len(),
                self.sound(),
                self@ == rest,
                sinks::<T>(viewed(self.items@), i as int),
            ensures
                self.wf(),
                self@ == rest,
            decreases len - i,
        {
            let ghost v = viewed(self.items@);
            if i >= (len - 1) / 2 && (len % 2 == 1 || i > (len - 1) / 2) {
                // There is nothing below this place.
                assert forall|c: int| 0 <= c < len implies #[trigger] fits::<T>(v, c) by {}
                break;
            }
            let left: usize = 2 * i + 1;
            let mut child: usize = left;
            if left < len - 1 && self.items[left + 1].above(&self.items[left]) {
                child = left + 1;
            }
            if !self.items[child].above(&self.items[i]) {
                assert forall|c: int| 0 <= c < len implies #[trigger] fits::<T>(v, c) by {
                    if parent(c) == i && c != 0 {
                        assert(c == left || c == left + 1);
                    }
                }
                break;
            }
            self.swap(i, child);
            proof {
                let w = viewed(self.items@);
                assert(w =~= v.update(i as int, v[child as int]).update(child as int, v[i as int]));
                sinking_keeps_order::<T>(v, i as int, child as int);
            }
            i = child;
        }
        Some(value)
    }
}

} // verus!
