use ordered_iter::join::{InnerJoinMap, InnerJoinSet, OuterJoin};
use ordered_iter::ordered::{MapStream, OrderedMapIterator, OrderedSetIterator, SetStream};
use ordered_iter::source::{DenseMap, DenseSet, SortedMapIter, SortedSetIter};
use std::collections::{BTreeMap, BTreeSet};

fn set_of<K: Ord + Copy + ordered_iter::key::JoinKey>(s: &BTreeSet<K>) -> SortedSetIter<K> {
    SortedSetIter::from_vec(s.iter().copied().collect()).unwrap()
}

fn map_of<'a>(m: &'a BTreeMap<i32, i32>) -> SortedMapIter<&'a i32, &'a i32> {
    SortedMapIter::from_vec(m.iter().collect()).unwrap()
}

fn drain_set<S: SetStream>(mut s: S) -> Vec<S::Key> {
    let mut out = Vec::new();
    while let Some(k) = s.next() {
        out.push(k);
    }
    out
}

fn drain_map<S: MapStream>(mut s: S) -> Vec<(S::Key, S::Val)> {
    let mut out = Vec::new();
    while let Some(e) = s.next() {
        out.push(e);
    }
    out
}

#[test]
fn join_two_sets() {
    let powers_of_two: BTreeSet<i32> = (1..10).map(|x| x * 2).collect();
    let powers_of_three: BTreeSet<i32> = (1..10).map(|x| x * 3).collect();

    let expected = vec![6, 12, 18];

    let powers_of_two_and_three: Vec<i32> =
        drain_set(set_of(&powers_of_two).inner_join_set(set_of(&powers_of_three)));

    assert_eq!(expected, powers_of_two_and_three);
}

#[test]
fn join_three_sets() {
    let powers_of_two: BTreeSet<i32> = (1..100).map(|x| x * 2).collect();
    let powers_of_three: BTreeSet<i32> = (1..100).map(|x| x * 3).collect();
    let powers_of_five: BTreeSet<i32> = (1..100).map(|x| x * 5).collect();

    let expected = vec![30, 60, 90, 120, 150, 180];

    let powers_of_two_and_three: Vec<i32> = drain_set(
        set_of(&powers_of_two)
            .inner_join_set(set_of(&powers_of_three))
            .inner_join_set(set_of(&powers_of_five)),
    );

    assert_eq!(expected, powers_of_two_and_three);
}

#[test]
fn join_two_maps() {
    let powers_of_two: BTreeMap<i32, i32> = (1..10).map(|x| (x * 2, x)).collect();
    let powers_of_three: BTreeMap<i32, i32> = (1..10).map(|x| (x * 3, x)).collect();

    let mut joined = map_of(&powers_of_two).inner_join_map(map_of(&powers_of_three));
    let mut next = || joined.next().map(|(&k, (&a, &b))| (k, a, b));

    assert_eq!(Some((6, 3, 2)), next());
    assert_eq!(Some((12, 6, 4)), next());
    assert_eq!(Some((18, 9, 6)), next());
    assert_eq!(None, next());
}

#[test]
fn join_two_maps_to_set() {
    let powers_of_two: BTreeSet<i32> = (1..10).map(|x| x * 2).collect();
    let powers_of_three: BTreeMap<i32, i32> = (1..10).map(|x| (x * 3, x)).collect();

    let two: SortedSetIter<&i32> = SortedSetIter::from_vec(powers_of_two.iter().collect()).unwrap();
    let mut joined = two.inner_join_map(map_of(&powers_of_three));
    let mut next = || joined.next().map(|(&k, &a)| (k, a));

    assert_eq!(Some((6, 2)), next());
    assert_eq!(Some((12, 4)), next());
    assert_eq!(Some((18, 6)), next());
    assert_eq!(None, next());
}

#[test]
fn outer_join_fizz_buzz() {
    let mul_of_three: BTreeMap<i32, i32> = (0..100).map(|x| (x * 3, x)).collect();
    let mul_of_five: BTreeMap<i32, i32> = (0..100).map(|x| (x * 5, x)).collect();

    let mut fizz_buzz = BTreeMap::new();

    for (key, (three, five)) in drain_map(map_of(&mul_of_three).outer_join(map_of(&mul_of_five))) {
        fizz_buzz.insert(*key, (three.is_some(), five.is_some()));
    }

    let res: BTreeMap<i32, String> = (1..100)
        .map(|i| {
            (
                i,
                match fizz_buzz.get(&i) {
                    None => format!("{}", i),
                    Some(&(true, false)) => format!("Fizz"),
                    Some(&(false, true)) => format!("Buzz"),
                    Some(&(true, true)) => format!("FizzBuzz"),
                    Some(&(false, false)) => panic!("Outer join failed..."),
                },
            )
        })
        .collect();

    for i in 1..100 {
        match (i % 3, i % 5) {
            (0, 0) => assert_eq!("FizzBuzz", res[&i]),
            (0, _) => assert_eq!("Fizz", res[&i]),
            (_, 0) => assert_eq!("Buzz", res[&i]),
            _ => assert_eq!(format!("{}", i), res[&i]),
        }
    }
}

#[test]
fn unsorted_inputs_are_refused() {
    assert!(SortedSetIter::from_vec(vec![1u64, 3, 2]).is_none());
    assert!(SortedSetIter::from_vec(vec![1u64, 1]).is_none());
    assert!(SortedMapIter::from_vec(vec![(2u32, 'a'), (1u32, 'b')]).is_none());
    assert!(SortedSetIter::from_vec(Vec::<u64>::new()).is_some());
    assert!(SortedMapIter::from_vec(vec![(1u32, 'a'), (2u32, 'b')]).is_some());
}

#[test]
fn sorted_stream_yields_its_vector() {
    let s = SortedMapIter::from_vec(vec![(1i64, "a"), (5, "b"), (9, "c")]).unwrap();
    assert_eq!(drain_map(s), vec![(1, "a"), (5, "b"), (9, "c")]);
}

#[test]
fn inner_join_stops_at_first_exhausted_side() {
    let a = SortedSetIter::from_vec(vec![1u32, 2]).unwrap();
    let b = SortedSetIter::from_vec(vec![2u32, 3, 4, 5]).unwrap();
    let mut j: InnerJoinSet<_, _> = a.inner_join_set(b);
    assert_eq!(j.next(), Some(2));
    assert_eq!(j.next(), None);
    assert_eq!(j.next(), None);
}

#[test]
fn inner_join_with_empty_side_is_empty() {
    let a = SortedMapIter::from_vec(vec![(1u8, 10u8), (2, 20)]).unwrap();
    let b = SortedMapIter::from_vec(Vec::<(u8, u8)>::new()).unwrap();
    let j: InnerJoinMap<_, _> = a.inner_join_map(b);
    assert!(drain_map(j).is_empty());

    let a = SortedSetIter::from_vec(Vec::<u8>::new()).unwrap();
    let m = SortedMapIter::from_vec(vec![(1u8, 'x')]).unwrap();
    assert!(drain_map(a.inner_join_map(m)).is_empty());
}

#[test]
fn map_filtered_by_set_keeps_map_values() {
    let m = SortedMapIter::from_vec(vec![(1i32, 'a'), (4, 'b'), (7, 'c'), (9, 'd')]).unwrap();
    let s = SortedSetIter::from_vec(vec![0i32, 4, 5, 9, 12]).unwrap();
    assert_eq!(drain_map(m.inner_join_set(s)), vec![(4, 'b'), (9, 'd')]);
}

#[test]
fn outer_join_marks_missing_sides() {
    let a = SortedMapIter::from_vec(vec![(1u64, 'a'), (3, 'c'), (8, 'h')]).unwrap();
    let b = SortedMapIter::from_vec(vec![(2u64, 20u64), (3, 30), (10, 100), (11, 110)]).unwrap();
    let j: OuterJoin<_, _> = a.outer_join(b);
    assert_eq!(
        drain_map(j),
        vec![
            (1, (Some('a'), None)),
            (2, (None, Some(20))),
            (3, (Some('c'), Some(30))),
            (8, (Some('h'), None)),
            (10, (None, Some(100))),
            (11, (None, Some(110))),
        ]
    );
}

#[test]
fn outer_join_of_empty_inputs_is_empty() {
    let a = SortedMapIter::from_vec(Vec::<(i16, i16)>::new()).unwrap();
    let b = SortedMapIter::from_vec(Vec::<(i16, i16)>::new()).unwrap();
    let mut j = a.outer_join(b);
    assert_eq!(j.next(), None);
    assert_eq!(j.next(), None);
}

#[test]
fn joins_chain_across_kinds() {
    let a = SortedMapIter::from_vec(vec![(1u32, 'a'), (2, 'b'), (3, 'c'), (6, 'f')]).unwrap();
    let b = SortedMapIter::from_vec(vec![(2u32, 2u32), (3, 3), (6, 6)]).unwrap();
    let s = SortedSetIter::from_vec(vec![3u32, 6, 7]).unwrap();
    let joined = a.inner_join_map(b).inner_join_set(s);
    assert_eq!(drain_map(joined), vec![(3, ('c', 3)), (6, ('f', 6))]);
}

#[test]
fn large_keys_compare_correctly() {
    let a = SortedSetIter::from_vec(vec![0u64, u64::MAX - 1, u64::MAX]).unwrap();
    let b = SortedSetIter::from_vec(vec![1u64, u64::MAX]).unwrap();
    assert_eq!(drain_set(a.inner_join_set(b)), vec![u64::MAX]);
    let a = SortedSetIter::from_vec(vec![i64::MIN, -1, 0]).unwrap();
    let b = SortedSetIter::from_vec(vec![i64::MIN, 0, i64::MAX]).unwrap();
    assert_eq!(drain_set(a.inner_join_set(b)), vec![i64::MIN, 0]);
}

#[test]
fn dense_set_streams_members_ascending() {
    let mut d = DenseSet::new();
    assert!(d.insert(9));
    assert!(d.insert(3));
    assert!(d.insert(40));
    assert!(!d.insert(3));
    assert!(d.insert(0));
    assert_eq!(drain_set(SortedSetIter::from_dense_set(&d)), vec![0usize, 3, 9, 40]);

    let other = SortedSetIter::from_vec(vec![3usize, 4, 40]).unwrap();
    assert_eq!(drain_set(SortedSetIter::from_dense_set(&d).inner_join_set(other)), vec![3, 40]);
}

#[test]
fn dense_map_streams_entries_ascending() {
    let mut m = DenseMap::new();
    assert_eq!(m.insert(7, "seven"), None);
    assert_eq!(m.insert(2, "two"), None);
    assert_eq!(m.insert(5, "fiv"), None);
    assert_eq!(m.insert(5, "five"), Some("fiv"));
    let got: Vec<(usize, &str)> =
        drain_map(SortedMapIter::from_dense_map(&m)).into_iter().map(|(k, v)| (k, *v)).collect();
    assert_eq!(got, vec![(2, "two"), (5, "five"), (7, "seven")]);

    let s = SortedSetIter::from_vec(vec![5usize, 7, 8]).unwrap();
    let got: Vec<(usize, &str)> = drain_map(SortedMapIter::from_dense_map(&m).inner_join_set(s))
        .into_iter()
        .map(|(k, v)| (k, *v))
        .collect();
    assert_eq!(got, vec![(5, "five"), (7, "seven")]);
}

#[test]
fn empty_dense_map_streams_nothing() {
    let m: DenseMap<u8> = DenseMap::new();
    assert!(drain_map(SortedMapIter::from_dense_map(&m)).is_empty());
}

#[test]
fn three_way_intersection_under_hundred() {
    let twos: BTreeSet<u32> = (1..100).filter(|x| x % 2 == 0).collect();
    let threes: BTreeSet<u32> = (1..100).filter(|x| x % 3 == 0).collect();
    let fives: BTreeSet<u32> = (1..100).filter(|x| x % 5 == 0).collect();
    let got = drain_set(set_of(&twos).inner_join_set(set_of(&threes)).inner_join_set(set_of(&fives)));
    assert_eq!(got, vec![30, 60, 90]);
}

#[test]
fn cloned_join_continues_independently() {
    let a = SortedMapIter::from_vec(vec![(1u16, 'a'), (2, 'b'), (4, 'd')]).unwrap();
    let b = SortedMapIter::from_vec(vec![(2u16, 'B'), (3, 'C')]).unwrap();
    let mut j = a.outer_join(b);
    assert_eq!(j.next(), Some((1, (Some('a'), None))));
    let copy = j.clone();
    assert_eq!(drain_map(j), vec![(2, (Some('b'), Some('B'))), (3, (None, Some('C'))), (4, (Some('d'), None))]);
    assert_eq!(drain_map(copy), vec![(2, (Some('b'), Some('B'))), (3, (None, Some('C'))), (4, (Some('d'), None))]);

    let s = SortedSetIter::from_vec(vec![1u8, 2, 3]).unwrap();
    let t = SortedSetIter::from_vec(vec![2u8, 3]).unwrap();
    let mut i = s.inner_join_set(t);
    assert_eq!(i.next(), Some(2));
    let copy = i.clone();
    assert_eq!(drain_set(i), vec![3]);
    assert_eq!(drain_set(copy), vec![3]);
}

#[test]
fn set_joins_associate() {
    let s1 = || SortedSetIter::from_vec(vec![1u32, 2, 4, 6, 8, 12]).unwrap();
    let s2 = || SortedSetIter::from_vec(vec![2u32, 3, 4, 6, 12, 13]).unwrap();
    let s3 = || SortedSetIter::from_vec(vec![0u32, 4, 5, 12]).unwrap();
    let left = drain_set(s1().inner_join_set(s2()).inner_join_set(s3()));
    let right = drain_set(s1().inner_join_set(s2().inner_join_set(s3())));
    assert_eq!(left, vec![4, 12]);
    assert_eq!(left, right);
}
