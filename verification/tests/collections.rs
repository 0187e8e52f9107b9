use lib::collections::{InvertibleSet, StackedMap, ZeroOneMany};

#[test]
fn zero_one_many_iterates_from_both_ends() {
    let mut it = ZeroOneMany::Many(vec![1u64, 2, 3]).into_iter();
    assert_eq!(it.size_hint(), (3, Some(3)));
    assert_eq!(it.next(), Some(1));
    assert_eq!(it.next_back(), Some(3));
    assert_eq!(it.next(), Some(2));
    assert_eq!(it.next(), None);
    assert_eq!(it.next_back(), None);

    let mut one = ZeroOneMany::One(7u64).into_iter();
    assert_eq!(one.next_back(), Some(7));
    assert_eq!(one.next(), None);

    let mut zero = ZeroOneMany::<u64>::Zero.into_iter();
    assert_eq!(zero.size_hint(), (0, Some(0)));
    assert_eq!(zero.next(), None);
}

#[test]
fn stacked_map_child_sees_parent_and_shadows() {
    let mut parent: StackedMap<u64, u64> = StackedMap::new();
    assert_eq!(parent.insert_self(1, 10), None);
    assert_eq!(parent.insert_self(2, 20), None);
    let mut child = parent.child();
    assert_eq!(child.get_all(&1), Some(&10));
    assert_eq!(child.get_self(&1), None);
    assert_eq!(child.insert_self(1, 11), None);
    assert_eq!(child.get_all(&1), Some(&11));
    assert_eq!(child.get_all(&2), Some(&20));
    // removing the child's entry uncovers the parent's
    assert_eq!(child.remove_self(&1), Some(11));
    assert_eq!(child.get_all(&1), Some(&10));
}

#[test]
fn invertible_set_included_and_excluded() {
    let incl = InvertibleSet::from_included(vec![1u64, 2]);
    let excl = InvertibleSet::from_excluded(vec![1u64, 2]);
    for x in 0u64..4 {
        assert_eq!(excl.contains(&x), !incl.contains(&x));
    }
    let mut s = InvertibleSet::new();
    assert!(!s.contains(&5u64));
    assert!(s.insert(5));
    assert!(!s.insert(5));
    assert!(s.contains(&5));
    assert!(s.remove(5));
    assert!(!s.contains(&5));
    s.insert_everything_except(vec![3]);
    assert!(s.contains(&4));
    assert!(!s.contains(&3));
    let mut u = InvertibleSet::from_included(vec![3u64]);
    u.union_with(InvertibleSet::from_included(vec![9u64]));
    assert!(u.contains(&3) && u.contains(&9) && !u.contains(&4));
}

#[test]
fn stacked_map_insert_then_remove_restores_parent_view() {
    let mut parent: StackedMap<u64, u64> = StackedMap::default();
    parent.insert_self(4, 40);
    let mut m = parent.child();
    assert_eq!(m.insert_self(4, 41), None);
    assert_eq!(m.remove_self(&4), Some(41));
    assert_eq!(m.get_self(&4), None);
    assert_eq!(m.get_all(&4), Some(&40));
    assert_eq!(m.get_all(&5), None);
}

#[test]
fn invertible_set_default_is_empty() {
    let s: InvertibleSet<u64> = InvertibleSet::default();
    assert!(!s.contains(&0));
}
