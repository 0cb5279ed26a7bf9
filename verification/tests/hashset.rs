use im_hashset::hashset::HashSet;
use std::cmp::Ordering;
use std::collections::hash_map::RandomState;

fn set_of(values: &[i32]) -> HashSet<i32> {
    let mut set = HashSet::new();
    for v in values {
        set.insert(*v);
    }
    set
}

fn sorted(set: &HashSet<i32>) -> Vec<i32> {
    let mut out = Vec::new();
    let mut it = set.iter();
    while let Some(v) = it.next() {
        out.push(*v);
    }
    out.sort();
    out
}

#[test]
fn match_strings_with_string_slices() {
    let mut source: HashSet<&str> = HashSet::new();
    source.insert("foo");
    source.insert("bar");
    let mut set: HashSet<String> = From::from(&source);
    set = set.without("bar");
    assert!(!set.contains("bar"));
    set.remove("foo");
    assert!(!set.contains("foo"));
}

#[test]
fn macro_allows_trailing_comma() {
    let mut set1 = HashSet::new();
    set1.insert("foo");
    set1.insert("bar");
    let mut set2 = HashSet::new();
    set2.insert("foo");
    set2.insert("bar");
    assert_eq!(set1, set2);
}

#[test]
fn singleton_contains_its_value() {
    let set = HashSet::singleton(123);
    assert!(set.contains(&123));
    assert_eq!(set.len(), 1);
}

#[test]
fn is_empty_examples() {
    assert!(!set_of(&[1, 2, 3]).is_empty());
    assert!(HashSet::<i32>::new().is_empty());
}

#[test]
fn len_counts_distinct_values() {
    assert_eq!(3, set_of(&[1, 2, 3]).len());
    assert_eq!(2, set_of(&[1, 2, 2, 1]).len());
}

#[test]
fn update_adds_a_value() {
    let set = set_of(&[123]);
    assert_eq!(set.update(456), set_of(&[123, 456]));
    assert_eq!(set, set_of(&[123]));
}

#[test]
fn union_example() {
    let set1 = set_of(&[1, 2]);
    let set2 = set_of(&[2, 3]);
    assert_eq!(set_of(&[1, 2, 3]), set1.union(set2));
}

#[test]
fn difference_example() {
    let set1 = set_of(&[1, 2]);
    let set2 = set_of(&[2, 3]);
    assert_eq!(set_of(&[1, 3]), set1.difference(set2));
}

#[test]
fn intersection_example() {
    let set1 = set_of(&[1, 2]);
    let set2 = set_of(&[2, 3]);
    assert_eq!(set_of(&[2]), set1.intersection(set2));
}

#[test]
fn insert_reports_the_replaced_value() {
    let mut set = HashSet::new();
    assert_eq!(set.insert(5), None);
    assert_eq!(set.insert(5), Some(5));
    assert_eq!(set.len(), 1);
    assert!(set.contains(&5));
}

#[test]
fn remove_hands_back_the_value() {
    let mut set = set_of(&[1, 2]);
    assert_eq!(set.remove(&2), Some(2));
    assert_eq!(set.remove(&2), None);
    assert_eq!(sorted(&set), vec![1]);
}

#[test]
fn without_leaves_the_original() {
    let set = set_of(&[1, 2, 3]);
    let smaller = set.without(&2);
    assert_eq!(sorted(&smaller), vec![1, 3]);
    assert_eq!(sorted(&set), vec![1, 2, 3]);
    assert_eq!(set.without(&7), set);
}

#[test]
fn retain_keeps_what_the_predicate_accepts() {
    let mut set = set_of(&[1, 2, 3, 4, 5, 6]);
    set.retain(|v| v % 2 == 0);
    assert_eq!(sorted(&set), vec![2, 4, 6]);
}

#[test]
fn unions_of_several_sets() {
    let sets = vec![set_of(&[1]), set_of(&[2, 3]), set_of(&[3, 4])];
    let all: HashSet<i32> = HashSet::unions(sets);
    assert_eq!(sorted(&all), vec![1, 2, 3, 4]);
    assert!(HashSet::<i32>::unions(Vec::new()).is_empty());
}

#[test]
fn subset_tests() {
    let small = set_of(&[1, 2]);
    let big = set_of(&[1, 2, 3]);
    assert!(small.is_subset(&big));
    assert!(!big.is_subset(&small));
    assert!(small.is_subset(&small));
    assert!(small.is_proper_subset(&big));
    assert!(!small.is_proper_subset(&small));
    assert!(!set_of(&[1, 4]).is_subset(&big));
}

#[test]
fn equality_ignores_insertion_order() {
    assert_eq!(set_of(&[1, 2, 3]), set_of(&[3, 1, 2]));
    assert_ne!(set_of(&[1, 2, 3]), set_of(&[1, 2]));
    assert_ne!(set_of(&[1, 2]), set_of(&[1, 3]));
}

#[test]
fn iter_yields_each_value_once() {
    let set = set_of(&[4, 8, 15, 16, 23, 42]);
    assert_eq!(sorted(&set), vec![4, 8, 15, 16, 23, 42]);
    let empty = HashSet::<i32>::new();
    let mut it = empty.iter();
    assert_eq!(it.next(), None);
}

#[test]
fn into_iter_hands_out_every_value() {
    let mut it = set_of(&[7, 9]).into_iter();
    let mut out = Vec::new();
    while let Some(v) = it.next() {
        out.push(v);
    }
    out.sort();
    assert_eq!(out, vec![7, 9]);
    assert_eq!(it.next(), None);
}

#[test]
fn operators_union_and_intersect() {
    let a = set_of(&[1, 2]);
    let b = set_of(&[2, 3]);
    assert_eq!(&a + &b, set_of(&[1, 2, 3]));
    assert_eq!(&a * &b, set_of(&[2]));
    assert_eq!(a.clone() + b.clone(), set_of(&[1, 2, 3]));
    assert_eq!(a * b, set_of(&[2]));
}

#[test]
fn conversions_from_collections() {
    let from_vec: HashSet<i32> = HashSet::from(vec![1, 2, 3, 2]);
    assert_eq!(sorted(&from_vec), vec![1, 2, 3]);
    let v = vec![5, 6, 5];
    let from_ref_vec: HashSet<i32> = HashSet::from(&v);
    assert_eq!(sorted(&from_ref_vec), vec![5, 6]);
    let from_slice: HashSet<i32> = HashSet::from(&v[..]);
    assert_eq!(from_slice, from_ref_vec);
    let mut std_set = std::collections::HashSet::new();
    std_set.insert(10);
    std_set.insert(11);
    let from_std_ref: HashSet<i32> = HashSet::from(&std_set);
    assert_eq!(sorted(&from_std_ref), vec![10, 11]);
    let from_std: HashSet<i32> = HashSet::from(std_set);
    assert_eq!(from_std, from_std_ref);
    let btree: std::collections::BTreeSet<i32> = [3, 1, 2].iter().cloned().collect();
    let from_btree: HashSet<i32> = HashSet::from(&btree);
    assert_eq!(sorted(&from_btree), vec![1, 2, 3]);
}

#[test]
fn strings_convert_to_owned_strings() {
    let mut source: HashSet<&str> = HashSet::new();
    source.insert("a");
    source.insert("b");
    let owned: HashSet<String> = HashSet::from(&source);
    assert_eq!(owned.len(), 2);
    assert!(owned.contains("a"));
    assert!(owned.contains(&"b".to_string()));
}

#[test]
fn default_clone_and_hashers() {
    let empty: HashSet<i32> = HashSet::default();
    assert!(empty.is_empty());
    let set = set_of(&[1, 2]);
    let copy = set.clone();
    assert_eq!(copy, set);
    let with: HashSet<i32, RandomState> = HashSet::with_hasher(RandomState::new());
    assert!(with.is_empty());
    let _hasher: &RandomState = set.hasher();
    let other: HashSet<u8> = set.new_from();
    assert!(other.is_empty());
}

#[test]
fn extend_adds_all_values() {
    let mut set = set_of(&[1]);
    set.extend(vec![2, 3, 1]);
    assert_eq!(sorted(&set), vec![1, 2, 3]);
}

#[test]
fn sets_order_by_their_iteration_sequences() {
    let a = set_of(&[1, 2, 3]);
    assert_eq!(a.partial_cmp(&a.clone()), Some(Ordering::Equal));
    assert_eq!(a.cmp(&a.clone()), Ordering::Equal);
    assert_eq!(set_of(&[1]).partial_cmp(&set_of(&[2])), Some(Ordering::Less));
    assert_eq!(set_of(&[2]).cmp(&set_of(&[1])), Ordering::Greater);
    assert_eq!(set_of(&[1]).cmp(&set_of(&[1, 2])), Ordering::Less);
    assert_eq!(HashSet::<i32>::new().partial_cmp(&set_of(&[5])), Some(Ordering::Less));
    assert!(set_of(&[1]) < set_of(&[2]));
}

#[test]
fn equal_sets_compare_equal_whatever_their_history() {
    let s = set_of(&[1, 2, 3, 4, 5, 6, 7, 8]);
    let t = s.update(100).without(&100);
    assert_eq!(s.cmp(&t), Ordering::Equal);
    assert_eq!(s.partial_cmp(&t), Some(Ordering::Equal));
    let u = set_of(&[8, 7, 6, 5, 4, 3, 2, 1]);
    assert_eq!(s.cmp(&u), Ordering::Equal);
    assert_eq!(u.partial_cmp(&s), Some(Ordering::Equal));
}

#[test]
fn comparison_flips_and_agrees() {
    let a = set_of(&[1, 5, 9]);
    let b = set_of(&[2, 5, 7]);
    assert_eq!(b.cmp(&a), a.cmp(&b).reverse());
    assert_eq!(a.partial_cmp(&b), Some(a.cmp(&b)));
    assert_eq!(a.cmp(&b), a.cmp(&b));
    assert_ne!(a.cmp(&b), Ordering::Equal);
}
