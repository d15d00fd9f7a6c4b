//! Finite sets kept as ascending lists.
use crate::linalg::Vec2;
use vstd::prelude::*;

verus! {

/// What can be an element of a `SortedSet`: a value that an integer identifies.
pub trait Key: Copy {
    /// The integer by which the elements are ordered.
    spec fn key(self) -> int;

    /// The integer identifies the value.
    proof fn key_identifies(a: Self, b: Self)
        requires
            a.key() == b.key(),
        ensures
            a == b,
    ;

    /// Whether `self` comes strictly before `other`.
    fn before(&self, other: &Self) -> (res: bool)
        ensures
            res == (self.key() < other.key()),
    ;
}

impl Key for usize {
    open spec fn key(self) -> int {
        self as int
    }

    proof fn key_identifies(a: usize, b: usize) {
    }

    fn before(&self, other: &usize) -> (res: bool) {
        *self < *other
    }
}

impl Key for Vec2<u32> {
    open spec fn key(self) -> int {
        self.x * 0x1_0000_0000 + self.y
    }

    proof fn key_identifies(a: Vec2<u32>, b: Vec2<u32>) {
    }

    fn before(&self, other: &Vec2<u32>) -> (res: bool) {
        self.x < other.x || (self.x == other.x && self.y < other.y)
    }
}

/// Whether every element of the list comes strictly before those that follow it.
pub open spec fn ascending<K: Key>(s: Seq<K>) -> bool {
    forall|i: int, j: int| 0 <= i < j < s.len() ==> #[trigger] s[i].key() < #[trigger] s[j].key()
}

/// The elements of a finite set in ascending order.
pub open spec fn sorted<K: Key>(s: Set<K>) -> Seq<K> {
    choose|q: Seq<K>| ascending(q) && #[trigger] q.to_set() == s
}

/// The elements that are in exactly one of the two sets.
pub open spec fn in_one_of<K>(a: Set<K>, b: Set<K>) -> Set<K> {
    a.difference(b).union(b.difference(a))
}

/// An ascending list is determined by its elements.
pub proof fn ascending_is_canonical<K: Key>(a: Seq<K>, b: Seq<K>)
    requires
        ascending(a),
        ascending(b),
        a.to_set() == b.to_set(),
    ensures
        a == b,
    decreases a.len(),
{
    if a.len() == 0 {
        if b.len() > 0 {
            assert(b.to_set().contains(b[0]));
            assert(a.to_set().contains(b[0]));
        }
        assert(a =~= b);
    } else {
        assert(a.to_set().contains(a.last()));
        assert(b.to_set().contains(a.last()));
        let j = choose|j: int| 0 <= j < b.len() && b[j] == a.last();
        assert(a.to_set().contains(b.last())) by {
            assert(b.to_set().contains(b.last()));
        }
        let i = choose|i: int| 0 <= i < a.len() && a[i] == b.last();
        K::key_identifies(a.last(), b.last());
        let a1 = a.drop_last();
        let b1 = b.drop_last();
        assert(a1.to_set() =~= b1.to_set()) by {
            assert forall|k: K| a1.to_set().contains(k) implies b1.to_set().contains(k) by {
                let m = choose|m: int| 0 <= m < a1.len() && a1[m] == k;
                assert(a[m] == k);
                assert(a.to_set().contains(k));
                let n = choose|n: int| 0 <= n < b.len() && b[n] == k;
                assert(a[m].key() < a[a.len() - 1].key());
                assert(n != b.len() - 1);
                assert(b1[n] == k);
            }
            assert forall|k: K| b1.to_set().contains(k) implies a1.to_set().contains(k) by {
                let m = choose|m: int| 0 <= m < b1.len() && b1[m] == k;
                assert(b[m] == k);
                assert(b.to_set().contains(k));
                let n = choose|n: int| 0 <= n < a.len() && a[n] == k;
                assert(b[m].key() < b[b.len() - 1].key());
                assert(n != a.len() - 1);
                assert(a1[n] == k);
            }
        }
        ascending_is_canonical(a1, b1);
        assert(a =~= a1.push(a.last()));
        assert(b =~= b1.push(b.last()));
    }
}

/// An ascending list with one more element in its place.
proof fn list_with<K: Key>(q: Seq<K>, k: K) -> (res: Seq<K>)
    requires
        ascending(q),
    ensures
        ascending(res),
        res.to_set() == q.to_set().insert(k),
    decreases q.len(),
{
    if q.len() == 0 {
        let res = seq![k];
        assert(res.to_set() =~= q.to_set().insert(k)) by {
            assert(res[0] == k);
        }
        res
    } else if q.last().key() < k.key() {
        let res = q.push(k);
        assert forall|x: K| res.to_set().contains(x) == q.to_set().insert(k).contains(x) by {
            has_pushed(q, k, x);
        }
        assert(res.to_set() =~= q.to_set().insert(k));
        res
    } else if q.last().key() == k.key() {
        K::key_identifies(q.last(), k);
        assert(q.to_set().contains(q.last()));
        assert(q.to_set() =~= q.to_set().insert(k));
        q
    } else {
        let (shorter, last) = (q.drop_last(), q.last());
        let before = list_with(shorter, k);
        let res = before.push(last);
        assert(q =~= shorter.push(last));
        assert forall|x: K| #[trigger] before.contains(x) implies x.key() < last.key() by {
            assert(before.to_set().contains(x));
            if x != k {
                assert(shorter.contains(x));
                let i = choose|i: int| 0 <= i < shorter.len() && shorter[i] == x;
                assert(q[i].key() < q[q.len() - 1].key());
            }
        }
        assert forall|i: int, j: int| 0 <= i < j < res.len() implies #[trigger] res[i].key()
            < #[trigger] res[j].key() by {
            if j == before.len() {
                assert(before.contains(before[i]));
            }
        }
        assert forall|x: K| res.to_set().contains(x) == q.to_set().insert(k).contains(x) by {
            has_pushed(before, last, x);
            has_pushed(shorter, last, x);
            assert(before.to_set().contains(x) == shorter.to_set().insert(k).contains(x));
        }
        assert(res.to_set() =~= q.to_set().insert(k));
        res
    }
}

proof fn list_of<K: Key>(s: Set<K>) -> (res: Seq<K>)
    requires
        s.finite(),
    ensures
        ascending(res),
        res.to_set() == s,
    decreases s.len(),
{
    if s.len() == 0 {
        assert(Seq::<K>::empty().to_set() =~= s);
        Seq::empty()
    } else {
        let k = s.choose();
        let before = list_of(s.remove(k));
        let res = list_with(before, k);
        assert(s.remove(k).insert(k) =~= s);
        res
    }
}

/// Every finite set can be listed in ascending order.
pub proof fn finite_sets_can_be_sorted<K: Key>(s: Set<K>)
    requires
        s.finite(),
    ensures
        ascending(sorted(s)),
        sorted(s).to_set() == s,
        forall|k: K| #[trigger] sorted(s).contains(k) <==> s.contains(k),
{
    let q = list_of(s);
    assert(ascending(q) && q.to_set() == s);
    assert forall|k: K| #[trigger] sorted(s).contains(k) <==> s.contains(k) by {
        assert(sorted(s).to_set().contains(k) == sorted(s).contains(k));
    }
}

/// There are finitely many indices.
pub proof fn index_sets_are_finite(s: Set<usize>)
    ensures
        s.finite(),
{
    broadcast use vstd::set_lib::full_set_properties;

    assert(s.subset_of(Set::<usize>::full()));
    vstd::set_lib::lemma_set_subset_finite(Set::<usize>::full(), s);
}

/// A finite set, kept as the ascending list of its elements.
pub struct SortedSet<K> {
    items: Vec<K>,
}

impl<K: Key> View for SortedSet<K> {
    type V = Set<K>;

    closed spec fn view(&self) -> Set<K> {
        self.items@.to_set()
    }
}

impl<K: Key> SortedSet<K> {
    /// The elements, in the order in which the set keeps them.
    pub closed spec fn list(&self) -> Seq<K> {
        self.items@
    }

    /// The list is ascending.
    pub closed spec fn wf(&self) -> bool {
        ascending(self.items@)
    }

    /// The list of a set is ascending, holds each of its elements once, and is the only
    /// such list.
    pub proof fn list_is_sorted(&self)
        requires
            self.wf(),
        ensures
            self.list() == sorted(self@),
            ascending(self.list()),
            self.list().to_set() == self@,
            self@.finite(),
    {
        let q = sorted(self@);
        assert(ascending(self.items@) && self.items@.to_set() == self@);
        ascending_is_canonical(q, self.items@);
        vstd::seq_lib::seq_to_set_is_finite(self.items@);
    }

    /// The empty set.
    pub fn new() -> (res: Self)
        ensures
            res.wf(),
            res@ == Set::<K>::empty(),
    {
        let res = SortedSet { items: Vec::new() };
        assert(res@ =~= Set::<K>::empty());
        res
    }

    /// The number of elements.
    pub fn len(&self) -> (res: usize)
        ensures
            res == self.list().len(),
    {
        self.items.len()
    }

    /// The element at place `i` of the ascending list.
    pub fn get(&self, i: usize) -> (res: K)
        requires
            i < self.list().len(),
        ensures
            res == self.list()[i as int],
    {
        self.items[i]
    }

    /// The number of elements that come before `k`.
    fn rank_of(&self, k: &K) -> (res: usize)
        requires
            self.wf(),
        ensures
            res <= self.items@.len(),
            forall|i: int| 0 <= i < res ==> #[trigger] self.items@[i].key() < k.key(),
            forall|i: int| res <= i < self.items@.len() ==> #[trigger] self.items@[i].key() >= k.key(),
    {
        let mut lo: usize = 0;
        let mut hi: usize = self.items.len();
        while lo < hi
            invariant
                self.wf(),
                lo <= hi <= self.items@.len(),
                forall|i: int| 0 <= i < lo ==> #[trigger] self.items@[i].key() < k.key(),
                forall|i: int| hi <= i < self.items@.len() ==> #[trigger] self.items@[i].key() >= k.key(),
            decreases hi - lo,
        {
            let mid: usize = lo + (hi - lo) / 2;
            if self.items[mid].before(k) {
                lo = mid + 1;
            } else {
                hi = mid;
            }
        }
        lo
    }

    /// Whether `k` is an element.
    pub fn contains(&self, k: &K) -> (res: bool)
        requires
            self.wf(),
        ensures
            res == self@.contains(*k),
    {
        let p: usize = self.rank_of(k);
        if p < self.items.len() && !k.before(&self.items[p]) {
            proof {
                K::key_identifies(*k, self.items@[p as int]);
                assert(self.items@.to_set().contains(self.items@[p as int]));
            }
            true
        } else {
            proof {
                if self.items@.contains(*k) {
                    let i = choose|i: int| 0 <= i < self.items@.len() && self.items@[i] == *k;
                    assert(self.items@[i].key() >= k.key());
                    assert(self.items@[p as int].key() <= self.items@[i].key());
                }
            }
            false
        }
    }

    /// Adds an element.
    pub fn insert(&mut self, k: K)
        requires
            old(self).wf(),
        ensures
            final(self).wf(),
            final(self)@ == old(self)@.insert(k),
    {
        let p: usize = self.rank_of(&k);
        let ghost before = self.items@;
        if p < self.items.len() && !k.before(&self.items[p]) {
            proof {
                K::key_identifies(k, before[p as int]);
                assert(before.to_set().contains(before[p as int]));
                assert(self@ =~= self@.insert(k));
            }
        } else {
            self.items.insert(p, k);
            proof {
                let after = self.items@;
                assert(after =~= before.insert(p as int, k));
                assert(ascending(after));
                assert forall|x: K| after.to_set().contains(x) == before.to_set().insert(k).contains(x) by {
                    if after.contains(x) {
                        let i = choose|i: int| 0 <= i < after.len() && after[i] == x;
                        if i < p {
                            assert(before[i] == x);
                        } else if i > p {
                            assert(before[i - 1] == x);
                        }
                    }
                    if before.contains(x) {
                        let i = choose|i: int| 0 <= i < before.len() && before[i] == x;
                        if i < p {
                            assert(after[i] == x);
                        } else {
                            assert(after[i + 1] == x);
                        }
                    }
                    assert(after[p as int] == k);
                }
                assert(self@ =~= before.to_set().insert(k));
            }
        }
    }

    /// Takes an element out, where it is one.
    pub fn remove(&mut self, k: &K)
        requires
            old(self).wf(),
        ensures
            final(self).wf(),
            final(self)@ == old(self)@.remove(*k),
    {
        let p: usize = self.rank_of(k);
        let ghost before = self.items@;
        if p < self.items.len() && !k.before(&self.items[p]) {
            self.items.remove(p);
            proof {
                let after = self.items@;
                K::key_identifies(*k, before[p as int]);
                assert(after =~= before.remove(p as int));
                assert(ascending(after));
                assert forall|x: K| after.to_set().contains(x) == before.to_set().remove(*k).contains(x) by {
                    if after.contains(x) {
                        let i = choose|i: int| 0 <= i < after.len() && after[i] == x;
                        if i < p {
                            assert(before[i] == x);
                            assert(before[i].key() < before[p as int].key());
                        } else {
                            assert(before[i + 1] == x);
                            assert(before[p as int].key() < before[i + 1].key());
                        }
                    }
                    if before.contains(x) && x != *k {
                        let i = choose|i: int| 0 <= i < before.len() && before[i] == x;
                        if i < p {
                            assert(after[i] == x);
                        } else {
                            assert(after[i - 1] == x);
                        }
                    }
                }
                assert(self@ =~= before.to_set().remove(*k));
            }
        } else {
            proof {
                if before.contains(*k) {
                    let i = choose|i: int| 0 <= i < before.len() && before[i] == *k;
                    assert(before[i].key() >= k.key());
                    assert(before[p as int].key() <= before[i].key());
                }
                assert(self@ =~= self@.remove(*k));
            }
        }
    }

    /// The elements of the two sets: all of them where `common` is true, those that are in
    /// exactly one of the two sets where it is false.
    fn merge(&self, other: &Self, common: bool) -> (res: Self)
        requires
            self.wf(),
            other.wf(),
        ensures
            res.wf(),
            res@ == if common {
                self@.union(other@)
            } else {
                in_one_of(self@, other@)
            },
    {
        let mut items: Vec<K> = Vec::new();
        let mut i: usize = 0;
        let mut j: usize = 0;
        let ghost a = self.items@;
        let ghost b = other.items@;
        while i < self.items.len() || j < other.items.len()
            invariant
                a == self.items@,
                b == other.items@,
                ascending(a),
                ascending(b),
                i <= a.len(),
                j <= b.len(),
                ascending(items@),
                forall|k: int, m: int|
                    0 <= k < items@.len() && i <= m < a.len() ==> (#[trigger] items@[k]).key() < (
                    #[trigger] a[m]).key(),
                forall|k: int, m: int|
                    0 <= k < items@.len() && j <= m < b.len() ==> (#[trigger] items@[k]).key() < (
                    #[trigger] b[m]).key(),
                forall|k: int, m: int|
                    0 <= k < i && j <= m < b.len() ==> (#[trigger] a[k]).key() < (#[trigger] b[m]).key(),
                forall|k: int, m: int|
                    0 <= k < j && i <= m < a.len() ==> (#[trigger] b[k]).key() < (#[trigger] a[m]).key(),
                forall|x: K| #[trigger]
                    items@.contains(x) == merged_has(a.take(i as int), b.take(j as int), common, x),
            decreases a.len() - i + b.len() - j,
        {
            let ghost seen = items@;
            let ghost (i0, j0) = (i as int, j as int);
            if i < self.items.len() && (j == other.items.len() || self.items[i].before(&other.items[j])) {
                items.push(self.items[i]);
                i = i + 1;
            } else if j < other.items.len() && (i == self.items.len() || other.items[j].before(
                &self.items[i],
            )) {
                items.push(other.items[j]);
                j = j + 1;
            } else {
                proof {
                    K::key_identifies(a[i0], b[j0]);
                }
                if common {
                    items.push(self.items[i]);
                }
                i = i + 1;
                j = j + 1;
            }
            proof {
                let (ta, tb) = (a.take(i0), b.take(j0));
                let (ua, ub) = (a.take(i as int), b.take(j as int));
                assert(i > i0 ==> ua =~= ta.push(a[i0]));
                assert(i == i0 ==> ua =~= ta);
                assert(j > j0 ==> ub =~= tb.push(b[j0]));
                assert(j == j0 ==> ub =~= tb);
                assert forall|x: K| #[trigger] items@.contains(x) == merged_has(ua, ub, common, x) by {
                    assert(seen.contains(x) == merged_has(ta, tb, common, x));
                    has_pushed(ta, a[i0], x);
                    has_pushed(tb, b[j0], x);
                    has_pushed(seen, items@.last(), x);
                    assert(items@.len() > seen.len() ==> items@ =~= seen.push(items@.last()));
                    if i > i0 && ta.contains(a[i0]) {
                        let m = choose|m: int| 0 <= m < ta.len() && ta[m] == a[i0];
                        assert(a[m].key() < a[i0].key());
                    }
                    if j > j0 && tb.contains(b[j0]) {
                        let m = choose|m: int| 0 <= m < tb.len() && tb[m] == b[j0];
                        assert(b[m].key() < b[j0].key());
                    }
                    if i > i0 && tb.contains(a[i0]) {
                        let m = choose|m: int| 0 <= m < tb.len() && tb[m] == a[i0];
                        assert(b[m].key() < a[i0].key());
                    }
                    if j > j0 && ta.contains(b[j0]) {
                        let m = choose|m: int| 0 <= m < ta.len() && ta[m] == b[j0];
                        assert(a[m].key() < b[j0].key());
                    }
                }
            }
        }
        let res = SortedSet { items };
        proof {
            assert(a.take(i as int) =~= a);
            assert(b.take(j as int) =~= b);
            assert forall|x: K| res@.contains(x) == merged_has(a, b, common, x) by {
                assert(items@.contains(x) == merged_has(a, b, common, x));
            }
            if common {
                assert(res@ =~= self@.union(other@));
            } else {
                assert(res@ =~= in_one_of(self@, other@));
            }
        }
        res
    }

    /// The elements of either set.
    pub fn union(&self, other: &Self) -> (res: Self)
        requires
            self.wf(),
            other.wf(),
        ensures
            res.wf(),
            res@ == self@.union(other@),
    {
        self.merge(other, true)
    }

    /// The elements of exactly one of the two sets.
    pub fn symmetric_difference(&self, other: &Self) -> (res: Self)
        requires
            self.wf(),
            other.wf(),
        ensures
            res.wf(),
            res@ == in_one_of(self@, other@),
    {
        self.merge(other, false)
    }
}

/// Whether merging the two lists keeps `x`.
spec fn merged_has<K>(a: Seq<K>, b: Seq<K>, common: bool, x: K) -> bool {
    if common {
        a.contains(x) || b.contains(x)
    } else {
        a.contains(x) != b.contains(x)
    }
}

/// What a list holds after one more value has been added.
pub proof fn has_pushed<K>(s: Seq<K>, k: K, x: K)
    ensures
        s.push(k).contains(x) == (s.contains(x) || x == k),
{
    if s.contains(x) {
        let m = choose|m: int| 0 <= m < s.len() && s[m] == x;
        assert(s.push(k)[m] == x);
    }
    assert(s.push(k)[s.len() as int] == k);
}

} // verus!
