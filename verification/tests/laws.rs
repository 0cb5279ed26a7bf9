use im_hashset::hashset::HashSet;

fn set_of(values: &[u32]) -> HashSet<u32> {
    HashSet::from(values.to_vec())
}

fn order(set: &HashSet<u32>) -> Vec<u32> {
    let mut out = Vec::new();
    let mut it = set.iter();
    while let Some(v) = it.next() {
        out.push(*v);
    }
    out
}

#[test]
fn inserted_value_is_contained_and_nothing_is_lost() {
    let mut set = set_of(&[1, 2]);
    set.insert(9);
    assert!(set.contains(&9));
    assert!(set.contains(&1) && set.contains(&2));
}

#[test]
fn insert_grows_only_for_new_values() {
    let mut set = set_of(&[1, 2]);
    set.insert(2);
    assert_eq!(set.len(), 2);
    set.insert(3);
    assert_eq!(set.len(), 3);
}

#[test]
fn remove_shrinks_only_for_present_values() {
    let mut set = set_of(&[1, 2]);
    set.remove(&5);
    assert_eq!(set.len(), 2);
    set.remove(&1);
    assert_eq!(set.len(), 1);
    assert!(!set.contains(&1));
}

#[test]
fn remove_undoes_insert_of_a_new_value() {
    let original = set_of(&[4, 5]);
    let mut set = original.clone();
    set.insert(6);
    set.remove(&6);
    assert_eq!(set, original);
}

#[test]
fn union_laws_on_values() {
    let a = set_of(&[1, 2]);
    let b = set_of(&[2, 3]);
    let c = set_of(&[5]);
    assert_eq!(a.clone().union(b.clone()), b.clone().union(a.clone()));
    assert_eq!(
        a.clone().union(b.clone()).union(c.clone()),
        a.clone().union(b.clone().union(c.clone()))
    );
    assert_eq!(a.clone().union(a.clone()), a);
    assert_eq!(a.clone().union(HashSet::new()), a);
    assert!(a.is_subset(&a.clone().union(b.clone())));
}

#[test]
fn intersection_laws_on_values() {
    let a = set_of(&[1, 2, 3]);
    let b = set_of(&[2, 3, 4]);
    assert_eq!(a.clone().intersection(b.clone()), b.clone().intersection(a.clone()));
    assert_eq!(a.clone().intersection(a.clone()), a);
    assert!(a.clone().intersection(b.clone()).is_subset(&a));
    assert!(a.clone().intersection(HashSet::new()).is_empty());
}

#[test]
fn difference_laws_on_values() {
    let a = set_of(&[1, 2, 3]);
    let b = set_of(&[3, 4]);
    assert_eq!(a.clone().difference(b.clone()), b.clone().difference(a.clone()));
    assert!(a.clone().difference(a.clone()).is_empty());
    assert_eq!(a.clone().difference(HashSet::new()), a);
    assert_eq!(a.clone().difference(b.clone()).difference(b.clone()), a);
    assert_eq!(a.clone().difference(b.clone()), set_of(&[1, 2, 4]));
}

#[test]
fn subset_laws_on_values() {
    let a = set_of(&[1]);
    let b = set_of(&[1, 2]);
    let c = set_of(&[1, 2, 3]);
    assert!(a.is_subset(&a));
    assert!(a.is_subset(&b) && b.is_subset(&c) && a.is_subset(&c));
    let d = set_of(&[2, 1]);
    assert!(b.is_subset(&d) && d.is_subset(&b));
    assert_eq!(b, d);
}

#[test]
fn proper_subset_laws_on_values() {
    let a = set_of(&[1, 2]);
    let b = set_of(&[1, 2, 3]);
    assert!(a.is_proper_subset(&b));
    assert!(a.len() < b.len());
    assert!(!b.is_proper_subset(&b));
}

#[test]
fn equal_size_subset_is_equal() {
    let a = set_of(&[7, 8]);
    let b = set_of(&[8, 7]);
    assert_eq!(a.len(), b.len());
    assert!(a.is_subset(&b));
    assert_eq!(a, b);
}

#[test]
fn absorption_on_values() {
    let a = set_of(&[1, 2]);
    let b = set_of(&[2, 3]);
    assert_eq!(a.clone().union(a.clone().intersection(b.clone())), a);
    assert_eq!(a.clone().intersection(a.clone().union(b.clone())), a);
}

#[test]
fn unions_hold_what_some_set_holds() {
    let all = HashSet::unions(vec![set_of(&[1]), set_of(&[2]), set_of(&[2, 3])]);
    assert!(all.contains(&1) && all.contains(&2) && all.contains(&3));
    assert!(!all.contains(&4));
}

#[test]
fn set_from_list_counts_distinct_values() {
    assert_eq!(set_of(&[1, 1, 2]).len(), 2);
    assert_eq!(set_of(&[1, 2, 3]).len(), 3);
}

#[test]
fn iteration_order_repeats_for_the_same_set() {
    let set = set_of(&[10, 20, 30, 40, 50]);
    assert_eq!(order(&set), order(&set));
    assert_eq!(order(&set).len(), 5);
}

#[test]
fn insertion_order_does_not_matter() {
    let base = set_of(&[1, 2]);
    let mut s1 = base.clone();
    s1.insert(3);
    s1.insert(4);
    let mut s2 = base.clone();
    s2.insert(4);
    s2.insert(3);
    assert_eq!(s1, s2);
    assert_eq!(s1.len(), s2.len());
    let mut s3 = base.clone();
    s3.insert(2);
    assert_eq!(s3, base);
    assert_eq!(s3.len(), base.len());
}

#[test]
fn clones_iterate_alike() {
    let set = set_of(&[3, 1, 4, 15, 9, 26, 5]);
    let copy = set.clone();
    assert_eq!(order(&set), order(&copy));
}

#[test]
fn changing_a_clone_leaves_the_original() {
    let set = set_of(&[1, 2, 3]);
    let before = order(&set);
    let mut copy = set.clone();
    copy.insert(10);
    copy.remove(&1);
    assert_eq!(order(&set), before);
    assert_eq!(set, set_of(&[1, 2, 3]));
    assert_eq!(copy, set_of(&[2, 3, 10]));
}

#[test]
fn retain_extremes_on_values() {
    let mut all = set_of(&[1, 2, 3]);
    all.retain(|_| true);
    assert_eq!(all, set_of(&[1, 2, 3]));
    let mut none = set_of(&[1, 2, 3]);
    none.retain(|_| false);
    assert!(none.is_empty());
    assert_eq!(none.len(), 0);
}

#[test]
fn sizes_of_intersection_and_difference() {
    let a = set_of(&[1, 2, 3, 4]);
    let b = set_of(&[3, 4, 5]);
    let i = a.clone().intersection(b.clone());
    assert_eq!(i.len(), 2);
    assert!(i.len() <= a.len() && i.len() <= b.len());
    let d = a.clone().difference(b.clone());
    assert_eq!(d.len(), a.len() + b.len() - 2 * i.len());
}
