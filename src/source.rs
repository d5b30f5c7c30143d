//! Ordered streams over sorted vectors, and over dense sets and maps kept in
//! the `bit_set` and `vec_map` crates.

use crate::key::JoinKey;
use crate::model::{ascending, key_set, keys_ascending};
use crate::ordered::{MapStream, SetStream};
use std::cmp::Ordering;
use bit_set::BitSet;
use std::collections::VecDeque;
use vec_map::VecMap;
use vstd::prelude::*;

verus! {

/// A map stream that yields the entries of a vector whose keys strictly ascend.
#[derive(Clone)]
pub struct SortedMapIter<K, V> {
    entries: VecDeque<(K, V)>,
}

/// A set stream that yields the keys of a vector that strictly ascend.
#[derive(Clone)]
pub struct SortedSetIter<K> {
    keys: VecDeque<K>,
}

/// Moves the elements of a vector, in order, into a double-ended queue.
fn into_deque<T>(v: Vec<T>) -> (r: VecDeque<T>)
    ensures
        r@ == v@,
{
    let ghost all = v@;
    let mut v = v;
    let mut r: VecDeque<T> = VecDeque::new();
    while v.len() > 0
        invariant
            all == v@ + r@,
        decreases v.len(),
    {
        let ghost before = v@;
        let e = v.pop().unwrap();
        r.push_front(e);
        proof {
            assert(before =~= v@.push(e));
        }
        assert(all =~= v@ + r@);
    }
    assert(all =~= r@);
    r
}

/// Whether the keys of a vector of entries strictly ascend.
fn entry_keys_ascend<K: JoinKey, V>(v: &Vec<(K, V)>) -> (r: bool)
    ensures
        r == keys_ascending(v@),
{
    let n = v.len();
    if n == 0 {
        return true;
    }
    let mut i: usize = 1;
    while i < n
        invariant
            n == v@.len(),
            1 <= i <= n,
            keys_ascending(v@.subrange(0, i as int)),
        decreases n - i,
    {
        let c = v[i - 1].0.compare(&v[i].0);
        if !(c matches Ordering::Less) {
            proof {
                assert(!v@[i - 1].0.lt(v@[i as int].0));
            }
            return false;
        }
        proof {
            let s = v@.subrange(0, i as int + 1);
            assert forall|p: int, q: int| 0 <= p < q < s.len() implies #[trigger] s[p].0.lt(
                #[trigger] s[q].0,
            ) by {
                assert(s[p] == v@[p] && s[q] == v@[q]);
                if q < i {
                    assert(v@.subrange(0, i as int)[p] == v@[p]);
                    assert(v@.subrange(0, i as int)[q] == v@[q]);
                } else if p < i - 1 {
                    assert(v@.subrange(0, i as int)[p] == v@[p]);
                    assert(v@.subrange(0, i as int)[i - 1] == v@[i - 1]);
                    K::lemma_transitive(v@[p].0, v@[i - 1].0, v@[q].0);
                }
            }
        }
        i = i + 1;
    }
    assert(v@.subrange(0, n as int) =~= v@);
    true
}

/// Whether the elements of a vector strictly ascend.
fn keys_ascend<K: JoinKey>(v: &Vec<K>) -> (r: bool)
    ensures
        r == ascending(v@),
{
    let n = v.len();
    if n == 0 {
        return true;
    }
    let mut i: usize = 1;
    while i < n
        invariant
            n == v@.len(),
            1 <= i <= n,
            ascending(v@.subrange(0, i as int)),
        decreases n - i,
    {
        let c = v[i - 1].compare(&v[i]);
        if !(c matches Ordering::Less) {
            proof {
                assert(!v@[i - 1].lt(v@[i as int]));
            }
            return false;
        }
        proof {
            let s = v@.subrange(0, i as int + 1);
            assert forall|p: int, q: int| 0 <= p < q < s.len() implies #[trigger] s[p].lt(
                #[trigger] s[q],
            ) by {
                assert(s[p] == v@[p] && s[q] == v@[q]);
                if q < i {
                    assert(v@.subrange(0, i as int)[p] == v@[p]);
                    assert(v@.subrange(0, i as int)[q] == v@[q]);
                } else if p < i - 1 {
                    assert(v@.subrange(0, i as int)[p] == v@[p]);
                    assert(v@.subrange(0, i as int)[i - 1] == v@[i - 1]);
                    K::lemma_transitive(v@[p], v@[i - 1], v@[q]);
                }
            }
        }
        i = i + 1;
    }
    assert(v@.subrange(0, n as int) =~= v@);
    true
}

impl<K: JoinKey, V> SortedMapIter<K, V> {
    /// Streams the entries of `v` in order; `None` unless their keys strictly
    /// ascend.
    pub fn from_vec(v: Vec<(K, V)>) -> (r: Option<Self>)
        ensures
            r is Some <==> keys_ascending(v@),
            r matches Some(s) ==> s.valid() && s.rest() == v@,
    {
        if entry_keys_ascend(&v) {
            Some(SortedMapIter { entries: into_deque(v) })
        } else {
            None
        }
    }
}

impl<K: JoinKey, V> MapStream for SortedMapIter<K, V> {
    type Key = K;

    type Val = V;

    closed spec fn valid(&self) -> bool {
        keys_ascending(self.entries@)
    }

    closed spec fn rest(&self) -> Seq<(K, V)> {
        self.entries@
    }

    proof fn lemma_rest_ascending(&self) {
    }

    fn next(&mut self) -> (r: Option<(K, V)>) {
        let r = self.entries.pop_front();
        proof {
            let s = old(self).entries@;
            if s.len() > 0 {
                assert(self.entries@ =~= s.drop_first());
                assert forall|i: int, j: int|
                    0 <= i < j < self.entries@.len() implies #[trigger] self.entries@[i].0.lt(
                    #[trigger] self.entries@[j].0,
                ) by {
                    assert(self.entries@[i] == s[i + 1] && self.entries@[j] == s[j + 1]);
                }
            }
        }
        r
    }
}

impl<K: JoinKey> SortedSetIter<K> {
    /// Streams the keys of `v` in order; `None` unless they strictly ascend.
    pub fn from_vec(v: Vec<K>) -> (r: Option<Self>)
        ensures
            r is Some <==> ascending(v@),
            r matches Some(s) ==> s.valid() && s.rest() == v@,
    {
        if keys_ascend(&v) {
            Some(SortedSetIter { keys: into_deque(v) })
        } else {
            None
        }
    }
}

impl<K: JoinKey> SetStream for SortedSetIter<K> {
    type Key = K;

    closed spec fn valid(&self) -> bool {
        ascending(self.keys@)
    }

    closed spec fn rest(&self) -> Seq<K> {
        self.keys@
    }

    proof fn lemma_rest_ascending(&self) {
    }

    fn next(&mut self) -> (r: Option<K>) {
        let r = self.keys.pop_front();
        proof {
            let s = old(self).keys@;
            if s.len() > 0 {
                assert(self.keys@ =~= s.drop_first());
                assert forall|i: int, j: int|
                    0 <= i < j < self.keys@.len() implies #[trigger] self.keys@[i].lt(
                    #[trigger] self.keys@[j],
                ) by {
                    assert(self.keys@[i] == s[i + 1] && self.keys@[j] == s[j + 1]);
                }
            }
        }
        r
    }
}

#[verifier::external_type_specification]
#[verifier::external_body]
#[verifier::reject_recursive_types(V)]
pub struct ExVecMap<V>(VecMap<V>);

/// A dense set of small integers, kept in a `bit_set::BitSet`.
#[verifier::external_body]
pub struct DenseSet {
    bits: BitSet,
}

/// The members of a dense set.
pub uninterp spec fn dense_members(s: DenseSet) -> Set<usize>;

impl DenseSet {
    /// Relies on `bit_set::BitSet::new`: the set starts empty.
    #[verifier::external_body]
    pub fn new() -> (r: Self)
        ensures
            dense_members(r) == Set::<usize>::empty(),
    {
        DenseSet { bits: BitSet::new() }
    }

    /// Relies on `bit_set::BitSet::insert`: adds `value`, and tells whether
    /// it was absent. It computes `value + 1` bits when it grows.
    #[verifier::external_body]
    pub fn insert(&mut self, value: usize) -> (r: bool)
        requires
            value < usize::MAX,
        ensures
            dense_members(*final(self)) == dense_members(*old(self)).insert(value),
            r == !dense_members(*old(self)).contains(value),
    {
        self.bits.insert(value)
    }
}

/// Relies on `bit_set::BitSet::iter`: it walks the blocks in order and each
/// block from its lowest bit, so it yields every member once, ascending.
#[verifier::external_body]
fn dense_ascending(s: &DenseSet) -> (r: Vec<usize>)
    ensures
        ascending(r@),
        r@.to_set() == dense_members(*s),
{
    s.bits.iter().collect()
}

/// A dense map from small integers, kept in a `vec_map::VecMap`.
#[verifier::reject_recursive_types(V)]
pub struct DenseMap<V> {
    map: VecMap<V>,
    model: Ghost<Map<usize, V>>,
}

impl<V> DenseMap<V> {
    /// What the map holds.
    pub closed spec fn view(&self) -> Map<usize, V> {
        self.model@
    }

    /// Relies on `vec_map::VecMap::new`: the map starts empty.
    #[verifier::external_body]
    pub fn new() -> (r: DenseMap<V>)
        ensures
            r@.dom() == Set::<usize>::empty(),
    {
        DenseMap { map: VecMap::new(), model: Ghost(Map::empty()) }
    }

    /// Relies on `vec_map::VecMap::insert`: maps `key` to `value` and hands
    /// back the value it replaced. It computes `key + 1` slots when it grows.
    #[verifier::external_body]
    pub fn insert(&mut self, key: usize, value: V) -> (r: Option<V>)
        requires
            key < usize::MAX,
        ensures
            final(self)@ == old(self)@.insert(key, value),
            old(self)@.contains_key(key) ==> r == Some(old(self)@[key]),
            !old(self)@.contains_key(key) ==> r is None,
    {
        self.model = Ghost(self.model@.insert(key, value));
        self.map.insert(key, value)
    }
}

/// Relies on `vec_map::VecMap::iter`: it walks the slots by increasing index
/// and yields each occupied one with a reference to its value.
#[verifier::external_body]
fn dense_map_ascending<'a, V>(m: &'a DenseMap<V>) -> (r: Vec<(usize, &'a V)>)
    ensures
        keys_ascending(r@),
        key_set(r@) == m@.dom(),
        forall|i: int|
            #![trigger r@[i]]
            0 <= i < r@.len() ==> m@.contains_key(r@[i].0) && *r@[i].1 == m@[r@[i].0],
{
    m.map.iter().collect()
}

impl SortedSetIter<usize> {
    /// Streams the members of a dense set, ascending.
    pub fn from_dense_set(s: &DenseSet) -> (r: Self)
        ensures
            r.valid(),
            r.rest().to_set() == dense_members(*s),
    {
        SortedSetIter { keys: into_deque(dense_ascending(s)) }
    }
}

impl<'a, V> SortedMapIter<usize, &'a V> {
    /// Streams the entries of a dense map, ascending by key.
    pub fn from_dense_map(m: &'a DenseMap<V>) -> (r: Self)
        ensures
            r.valid(),
            key_set(r.rest()) == m@.dom(),
            forall|i: int|
                #![trigger r.rest()[i]]
                0 <= i < r.rest().len() ==> *r.rest()[i].1 == m@[r.rest()[i].0],
    {
        SortedMapIter { entries: into_deque(dense_map_ascending(m)) }
    }
}

} // verus!
