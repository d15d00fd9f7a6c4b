use hacd::linalg::Vec2;
use hacd::queue::PriorityQueue;
use hacd::rays::PairMap;
use hacd::set::SortedSet;
use hacd::{Fixed, VertexWithConcavity};
use std::cmp::Ordering;

fn set(values: &[usize]) -> SortedSet<usize> {
    let mut s = SortedSet::new();
    for v in values {
        s.insert(*v);
    }
    s
}

fn listed(s: &SortedSet<usize>) -> Vec<usize> {
    (0..s.len()).map(|i| s.get(i)).collect()
}

fn entry(id: usize, concavity: i32) -> VertexWithConcavity<Fixed> {
    VertexWithConcavity::new(id, Fixed::whole(concavity))
}

#[test]
fn a_set_holds_each_value_once_and_in_order() {
    let s = set(&[5, 1, 9, 5, 1]);
    assert_eq!(listed(&s), vec![1, 5, 9]);
    assert!(s.contains(&5) && !s.contains(&6));
}

#[test]
fn removing_takes_a_value_out() {
    let mut s = set(&[1, 2, 3]);
    s.remove(&2);
    assert_eq!(listed(&s), vec![1, 3]);
    s.remove(&7);
    assert_eq!(listed(&s), vec![1, 3]);
}

#[test]
fn union_and_symmetric_difference() {
    let (a, b) = (set(&[1, 2, 4]), set(&[2, 3, 4, 8]));
    assert_eq!(listed(&a.union(&b)), vec![1, 2, 3, 4, 8]);
    assert_eq!(listed(&a.symmetric_difference(&b)), vec![1, 3, 8]);
    assert_eq!(listed(&a.symmetric_difference(&a)), Vec::<usize>::new());
}

#[test]
fn pairs_are_ordered_by_their_first_component() {
    let mut s: SortedSet<Vec2<u32>> = SortedSet::new();
    s.insert(Vec2::new(2, 0));
    s.insert(Vec2::new(1, 9));
    s.insert(Vec2::new(1, 3));
    let list: Vec<(u32, u32)> = (0..s.len()).map(|i| (s.get(i).x, s.get(i).y)).collect();
    assert_eq!(list, vec![(1, 3), (1, 9), (2, 0)]);
}

#[test]
fn a_pair_map_tells_pairs_apart() {
    let mut m = PairMap::new();
    m.insert(Vec2::new(1, 2), 10);
    m.insert(Vec2::new(2, 1), 20);
    assert_eq!(m.find(&Vec2::new(1, 2)), Some(10));
    assert_eq!(m.find(&Vec2::new(2, 1)), Some(20));
    assert_eq!(m.find(&Vec2::new(1, 1)), None);
    m.insert(Vec2::new(1, 2), 30);
    assert_eq!(m.find(&Vec2::new(1, 2)), Some(30));
}

#[test]
fn a_queue_hands_out_the_greatest_first() {
    let mut q = PriorityQueue::new();
    for (id, concavity) in [(3, 1), (1, 5), (2, 5), (9, -2), (4, 0), (7, 3)] {
        q.push(entry(id, concavity));
    }
    assert_eq!(q.top().map(|e| e.id), Some(2));
    let mut ids = Vec::new();
    while let Some(e) = q.pop() {
        ids.push(e.id);
    }
    assert_eq!(ids, vec![2, 1, 7, 3, 4, 9]);
    assert!(q.is_empty() && q.top().is_none());
}

#[test]
fn equal_values_all_come_out() {
    let mut q = PriorityQueue::new();
    for _ in 0..5 {
        q.push(entry(4, 2));
    }
    let mut count = 0;
    while q.pop().is_some() {
        count += 1;
    }
    assert_eq!(count, 5);
}

#[test]
fn entries_compare_by_concavity_first() {
    assert_eq!(entry(9, 1).cmp(&entry(1, 2)), Ordering::Less);
    assert_eq!(entry(1, 2).cmp(&entry(9, 1)), Ordering::Greater);
    assert_eq!(entry(1, 2).cmp(&entry(3, 2)), Ordering::Less);
    assert_eq!(entry(3, 2).cmp(&entry(1, 2)), Ordering::Greater);
    assert_eq!(entry(3, 2).cmp(&entry(3, 2)), Ordering::Equal);
    assert_eq!(entry(1, 2).partial_cmp(&entry(3, 2)), Some(Ordering::Less));
    assert_eq!(entry(3, 2).partial_cmp(&entry(1, 2)), Some(Ordering::Greater));
    assert_eq!(entry(0, 1).partial_cmp(&entry(0, 1)), Some(Ordering::Equal));
    assert_eq!(entry(0, 1).partial_cmp(&entry(0, 4)), Some(Ordering::Less));
    assert_eq!(entry(0, 4).partial_cmp(&entry(0, 1)), Some(Ordering::Greater));
    assert!(entry(3, 2) == entry(3, 2));
    assert!(entry(3, 2) != entry(4, 2));
    assert!(entry(3, 2) != entry(3, 1));
}
