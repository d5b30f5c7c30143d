//! The join adaptors.

use crate::key::JoinKey;
use crate::lemmas::{
    lemma_above_lower, lemma_ascending_split, lemma_asymmetric, lemma_common_ascending,
    lemma_common_empty, lemma_common_match, lemma_common_skip_a, lemma_common_skip_b,
    lemma_cons_ascending, lemma_entries_ascending, lemma_entries_empty, lemma_entries_match,
    lemma_entries_skip_map, lemma_entries_skip_set, lemma_keys_above_lower, lemma_merged_ascending,
    lemma_paired_ascending, lemma_paired_empty, lemma_paired_match, lemma_paired_skip_a,
    lemma_paired_skip_b, lemma_set_ascending_split,
};
use crate::model::{above, common_keys, entries_in, keys_above, merged, paired};
use crate::ordered::{MapStream, SetStream};
use std::cmp::Ordering;
use vstd::prelude::*;

verus! {

/// Inner join of two ordered maps: each key that both hold, with both values.
#[derive(Clone)]
pub struct InnerJoinMap<A, B> {
    a: A,
    b: B,
}

impl<A: MapStream, B: MapStream<Key = A::Key>> InnerJoinMap<A, B> {
    /// Wraps two streams; nothing is pulled until the first `next`.
    pub fn new(a: A, b: B) -> (r: Self)
        requires
            a.valid(),
            b.valid(),
        ensures
            r.valid(),
            r.rest() == paired(a.rest(), b.rest()),
    {
        InnerJoinMap { a, b }
    }
}

impl<A: MapStream, B: MapStream<Key = A::Key>> MapStream for InnerJoinMap<A, B> {
    type Key = A::Key;

    type Val = (A::Val, B::Val);

    closed spec fn valid(&self) -> bool {
        self.a.valid() && self.b.valid()
    }

    closed spec fn rest(&self) -> Seq<(Self::Key, Self::Val)> {
        paired(self.a.rest(), self.b.rest())
    }

    proof fn lemma_rest_ascending(&self) {
        self.a.lemma_rest_ascending();
        lemma_paired_ascending(self.a.rest(), self.b.rest());
    }

    fn next(&mut self) -> (r: Option<(Self::Key, Self::Val)>) {
        let ghost target = self.rest();
        proof {
            self.a.lemma_rest_ascending();
            self.b.lemma_rest_ascending();
        }
        let ghost a0 = self.a.rest();
        let (mut key_a, mut val_a) = match self.a.next() {
            None => {
                proof {
                    lemma_paired_empty(self.a.rest(), self.b.rest());
                    assert(self.rest() =~= target);
                }
                return None;
            },
            Some(e) => e,
        };
        proof {
            lemma_ascending_split(a0);
        }
        let ghost b0 = self.b.rest();
        let (mut key_b, mut val_b) = match self.b.next() {
            None => {
                proof {
                    lemma_paired_empty(self.a.rest(), self.b.rest());
                    assert(self.rest() =~= target);
                }
                return None;
            },
            Some(e) => e,
        };
        proof {
            lemma_ascending_split(b0);
        }
        loop
            invariant
                target == old(self).rest(),
                self.a.valid(),
                self.b.valid(),
                keys_above(self.a.rest(), key_a),
                keys_above(self.b.rest(), key_b),
                target == paired(
                    seq![(key_a, val_a)] + self.a.rest(),
                    seq![(key_b, val_b)] + self.b.rest(),
                ),
            decreases self.a.rest().len() + self.b.rest().len(),
        {
            proof {
                self.a.lemma_rest_ascending();
                self.b.lemma_rest_ascending();
            }
            match key_a.compare(&key_b) {
                Ordering::Less => {
                    proof {
                        lemma_keys_above_lower(self.b.rest(), key_a, key_b);
                        lemma_paired_skip_a(
                            (key_a, val_a),
                            self.a.rest(),
                            seq![(key_b, val_b)] + self.b.rest(),
                        );
                    }
                    let ghost a1 = self.a.rest();
                    match self.a.next() {
                        None => {
                            proof {
                                lemma_paired_empty(a1, seq![(key_b, val_b)] + self.b.rest());
                                lemma_paired_empty(self.a.rest(), self.b.rest());
                                assert(self.rest() =~= target);
                            }
                            return None;
                        },
                        Some((k, v)) => {
                            proof {
                                lemma_ascending_split(a1);
                            }
                            key_a = k;
                            val_a = v;
                        },
                    }
                },
                Ordering::Equal => {
                    proof {
                        lemma_paired_match(
                            (key_a, val_a),
                            self.a.rest(),
                            (key_b, val_b),
                            self.b.rest(),
                        );
                        assert(self.rest() =~= target.drop_first());
                    }
                    return Some((key_a, (val_a, val_b)));
                },
                Ordering::Greater => {
                    proof {
                        lemma_keys_above_lower(self.a.rest(), key_b, key_a);
                        lemma_paired_skip_b(
                            seq![(key_a, val_a)] + self.a.rest(),
                            (key_b, val_b),
                            self.b.rest(),
                        );
                    }
                    let ghost b1 = self.b.rest();
                    match self.b.next() {
                        None => {
                            proof {
                                lemma_paired_empty(seq![(key_a, val_a)] + self.a.rest(), b1);
                                lemma_paired_empty(self.a.rest(), self.b.rest());
                                assert(self.rest() =~= target);
                            }
                            return None;
                        },
                        Some((k, v)) => {
                            proof {
                                lemma_ascending_split(b1);
                            }
                            key_b = k;
                            val_b = v;
                        },
                    }
                },
            }
        }
    }
}

/// Inner join of an ordered map with an ordered set: each entry of the map
/// whose key the set holds.
#[derive(Clone)]
pub struct InnerJoinMapSet<A, B> {
    map: A,
    set: B,
}

impl<A: MapStream, B: SetStream<Key = A::Key>> InnerJoinMapSet<A, B> {
    /// Wraps two streams; nothing is pulled until the first `next`.
    pub fn new(map: A, set: B) -> (r: Self)
        requires
            map.valid(),
            set.valid(),
        ensures
            r.valid(),
            r.rest() == entries_in(map.rest(), set.rest()),
    {
        InnerJoinMapSet { map, set }
    }
}

impl<A: MapStream, B: SetStream<Key = A::Key>> MapStream for InnerJoinMapSet<A, B> {
    type Key = A::Key;

    type Val = A::Val;

    closed spec fn valid(&self) -> bool {
        self.map.valid() && self.set.valid()
    }

    closed spec fn rest(&self) -> Seq<(Self::Key, Self::Val)> {
        entries_in(self.map.rest(), self.set.rest())
    }

    proof fn lemma_rest_ascending(&self) {
        self.map.lemma_rest_ascending();
        lemma_entries_ascending(self.map.rest(), self.set.rest());
    }

    fn next(&mut self) -> (r: Option<(Self::Key, Self::Val)>) {
        let ghost target = self.rest();
        proof {
            self.map.lemma_rest_ascending();
            self.set.lemma_rest_ascending();
        }
        let ghost s0 = self.set.rest();
        let mut key_set = match self.set.next() {
            None => {
                proof {
                    lemma_entries_empty(self.map.rest(), self.set.rest());
                    assert(self.rest() =~= target);
                }
                return None;
            },
            Some(k) => k,
        };
        proof {
            lemma_set_ascending_split(s0);
        }
        let ghost m0 = self.map.rest();
        let (mut key_map, mut data) = match self.map.next() {
            None => {
                proof {
                    lemma_entries_empty(self.map.rest(), self.set.rest());
                    assert(self.rest() =~= target);
                }
                return None;
            },
            Some(e) => e,
        };
        proof {
            lemma_ascending_split(m0);
        }
        loop
            invariant
                target == old(self).rest(),
                self.map.valid(),
                self.set.valid(),
                above(self.set.rest(), key_set),
                keys_above(self.map.rest(), key_map),
                target == entries_in(
                    seq![(key_map, data)] + self.map.rest(),
                    seq![key_set] + self.set.rest(),
                ),
            decreases self.map.rest().len() + self.set.rest().len(),
        {
            proof {
                self.map.lemma_rest_ascending();
                self.set.lemma_rest_ascending();
            }
            match key_set.compare(&key_map) {
                Ordering::Less => {
                    proof {
                        lemma_keys_above_lower(self.map.rest(), key_set, key_map);
                        lemma_entries_skip_set(
                            seq![(key_map, data)] + self.map.rest(),
                            key_set,
                            self.set.rest(),
                        );
                    }
                    let ghost s1 = self.set.rest();
                    match self.set.next() {
                        None => {
                            proof {
                                lemma_entries_empty(seq![(key_map, data)] + self.map.rest(), s1);
                                lemma_entries_empty(self.map.rest(), self.set.rest());
                                assert(self.rest() =~= target);
                            }
                            return None;
                        },
                        Some(k) => {
                            proof {
                                lemma_set_ascending_split(s1);
                            }
                            key_set = k;
                        },
                    }
                },
                Ordering::Equal => {
                    proof {
                        lemma_entries_match((key_map, data), self.map.rest(), self.set.rest());
                        assert(self.rest() =~= target.drop_first());
                    }
                    return Some((key_set, data));
                },
                Ordering::Greater => {
                    proof {
                        lemma_above_lower(self.set.rest(), key_map, key_set);
                        lemma_entries_skip_map(
                            (key_map, data),
                            self.map.rest(),
                            seq![key_set] + self.set.rest(),
                        );
                    }
                    let ghost m1 = self.map.rest();
                    match self.map.next() {
                        None => {
                            proof {
                                lemma_entries_empty(m1, seq![key_set] + self.set.rest());
                                lemma_entries_empty(self.map.rest(), self.set.rest());
                                assert(self.rest() =~= target);
                            }
                            return None;
                        },
                        Some((k, d)) => {
                            proof {
                                lemma_ascending_split(m1);
                            }
                            key_map = k;
                            data = d;
                        },
                    }
                },
            }
        }
    }
}

/// Inner join of two ordered sets: each key that both hold.
#[derive(Clone)]
pub struct InnerJoinSet<A, B> {
    a: A,
    b: B,
}

impl<A: SetStream, B: SetStream<Key = A::Key>> InnerJoinSet<A, B> {
    /// Wraps two streams; nothing is pulled until the first `next`.
    pub fn new(a: A, b: B) -> (r: Self)
        requires
            a.valid(),
            b.valid(),
        ensures
            r.valid(),
            r.rest() == common_keys(a.rest(), b.rest()),
    {
        InnerJoinSet { a, b }
    }
}

impl<A: SetStream, B: SetStream<Key = A::Key>> SetStream for InnerJoinSet<A, B> {
    type Key = A::Key;

    closed spec fn valid(&self) -> bool {
        self.a.valid() && self.b.valid()
    }

    closed spec fn rest(&self) -> Seq<Self::Key> {
        common_keys(self.a.rest(), self.b.rest())
    }

    proof fn lemma_rest_ascending(&self) {
        self.a.lemma_rest_ascending();
        lemma_common_ascending(self.a.rest(), self.b.rest());
    }

    fn next(&mut self) -> (r: Option<Self::Key>) {
        let ghost target = self.rest();
        proof {
            self.a.lemma_rest_ascending();
            self.b.lemma_rest_ascending();
        }
        let ghost a0 = self.a.rest();
        let mut key_a = match self.a.next() {
            None => {
                proof {
                    lemma_common_empty(self.a.rest(), self.b.rest());
                    assert(self.rest() =~= target);
                }
                return None;
            },
            Some(k) => k,
        };
        proof {
            lemma_set_ascending_split(a0);
        }
        let ghost b0 = self.b.rest();
        let mut key_b = match self.b.next() {
            None => {
                proof {
                    lemma_common_empty(self.a.rest(), self.b.rest());
                    assert(self.rest() =~= target);
                }
                return None;
            },
            Some(k) => k,
        };
        proof {
            lemma_set_ascending_split(b0);
        }
        loop
            invariant
                target == old(self).rest(),
                self.a.valid(),
                self.b.valid(),
                above(self.a.rest(), key_a),
                above(self.b.rest(), key_b),
                target == common_keys(seq![key_a] + self.a.rest(), seq![key_b] + self.b.rest()),
            decreases self.a.rest().len() + self.b.rest().len(),
        {
            proof {
                self.a.lemma_rest_ascending();
                self.b.lemma_rest_ascending();
            }
            match key_a.compare(&key_b) {
                Ordering::Less => {
                    proof {
                        lemma_above_lower(self.b.rest(), key_a, key_b);
                        lemma_common_skip_a(key_a, self.a.rest(), seq![key_b] + self.b.rest());
                    }
                    let ghost a1 = self.a.rest();
                    match self.a.next() {
                        None => {
                            proof {
                                lemma_common_empty(a1, seq![key_b] + self.b.rest());
                                lemma_common_empty(self.a.rest(), self.b.rest());
                                assert(self.rest() =~= target);
                            }
                            return None;
                        },
                        Some(k) => {
                            proof {
                                lemma_set_ascending_split(a1);
                            }
                            key_a = k;
                        },
                    }
                },
                Ordering::Equal => {
                    proof {
                        lemma_common_match(key_a, self.a.rest(), self.b.rest());
                        assert(self.rest() =~= target.drop_first());
                    }
                    return Some(key_a);
                },
                Ordering::Greater => {
                    proof {
                        lemma_above_lower(self.a.rest(), key_b, key_a);
                        lemma_common_skip_b(seq![key_a] + self.a.rest(), key_b, self.b.rest());
                    }
                    let ghost b1 = self.b.rest();
                    match self.b.next() {
                        None => {
                            proof {
                                lemma_common_empty(seq![key_a] + self.a.rest(), b1);
                                lemma_common_empty(self.a.rest(), self.b.rest());
                                assert(self.rest() =~= target);
                            }
                            return None;
                        },
                        Some(k) => {
                            proof {
                                lemma_set_ascending_split(b1);
                            }
                            key_b = k;
                        },
                    }
                },
            }
        }
    }
}

/// What a side of an outer join has still to yield: its look-ahead slot, then
/// its stream.
pub open spec fn with_slot<T>(slot: Option<T>, rest: Seq<T>) -> Seq<T> {
    match slot {
        Some(e) => seq![e] + rest,
        None => rest,
    }
}

/// Outer join of two ordered maps: every key of either, with the value of
/// each side that holds it. Each side has a look-ahead slot, filled lazily.
pub struct OuterJoin<A: MapStream, B: MapStream> {
    left: A,
    right: B,
    left_peek: Option<(A::Key, A::Val)>,
    right_peek: Option<(B::Key, B::Val)>,
}

impl<A: MapStream + Clone, B: MapStream + Clone> Clone for OuterJoin<A, B> where
    A::Key: Clone,
    A::Val: Clone,
    B::Key: Clone,
    B::Val: Clone,
 {
    fn clone(&self) -> Self {
        OuterJoin {
            left: self.left.clone(),
            right: self.right.clone(),
            left_peek: self.left_peek.clone(),
            right_peek: self.right_peek.clone(),
        }
    }
}

impl<A: MapStream, B: MapStream<Key = A::Key>> OuterJoin<A, B> {
    /// Wraps two streams with empty look-ahead slots; nothing is pulled
    /// until the first `next`.
    pub fn new(left: A, right: B) -> (r: Self)
        requires
            left.valid(),
            right.valid(),
        ensures
            r.valid(),
            r.rest() == merged(left.rest(), right.rest()),
    {
        OuterJoin { left, right, left_peek: None, right_peek: None }
    }
}

impl<A: MapStream, B: MapStream<Key = A::Key>> MapStream for OuterJoin<A, B> {
    type Key = A::Key;

    type Val = (Option<A::Val>, Option<B::Val>);

    closed spec fn valid(&self) -> bool {
        &&& self.left.valid()
        &&& self.right.valid()
        &&& (self.left_peek matches Some(e) ==> keys_above(self.left.rest(), e.0))
        &&& (self.right_peek matches Some(e) ==> keys_above(self.right.rest(), e.0))
    }

    closed spec fn rest(&self) -> Seq<(Self::Key, Self::Val)> {
        merged(
            with_slot(self.left_peek, self.left.rest()),
            with_slot(self.right_peek, self.right.rest()),
        )
    }

    proof fn lemma_rest_ascending(&self) {
        self.left.lemma_rest_ascending();
        self.right.lemma_rest_ascending();
        if let Some(e) = self.left_peek {
            lemma_cons_ascending(e, self.left.rest());
        }
        if let Some(e) = self.right_peek {
            lemma_cons_ascending(e, self.right.rest());
        }
        lemma_merged_ascending(
            with_slot(self.left_peek, self.left.rest()),
            with_slot(self.right_peek, self.right.rest()),
        );
    }

    fn next(&mut self) -> (r: Option<(Self::Key, Self::Val)>) {
        let ghost target = self.rest();
        let ghost la = with_slot(self.left_peek, self.left.rest());
        let ghost ra = with_slot(self.right_peek, self.right.rest());
        proof {
            self.left.lemma_rest_ascending();
            self.right.lemma_rest_ascending();
        }
        // Fill the look-ahead slot from the stream if it is empty.
        let ghost l0 = self.left.rest();
        let ghost left_held = self.left_peek is Some;
        let left = match self.left_peek.take() {
            Some(e) => Some(e),
            None => self.left.next(),
        };
        proof {
            if !left_held && left is Some {
                lemma_ascending_split(l0);
            }
            assert(la == with_slot(left, self.left.rest()));
        }
        // Fill the look-ahead slot from the stream if it is empty.
        let ghost r0 = self.right.rest();
        let ghost right_held = self.right_peek is Some;
        let right = match self.right_peek.take() {
            Some(e) => Some(e),
            None => self.right.next(),
        };
        proof {
            if !right_held && right is Some {
                lemma_ascending_split(r0);
            }
            assert(ra == with_slot(right, self.right.rest()));
        }
        match (left, right) {
            (None, None) => {
                proof {
                    assert(self.rest() =~= target);
                }
                None
            },
            (Some(x), None) => {
                proof {
                    assert(la.drop_first() =~= self.left.rest());
                    assert(self.rest() =~= target.drop_first());
                }
                Some((x.0, (Some(x.1), None)))
            },
            (None, Some(y)) => {
                proof {
                    assert(ra.drop_first() =~= self.right.rest());
                    assert(self.rest() =~= target.drop_first());
                }
                Some((y.0, (None, Some(y.1))))
            },
            (Some(x), Some(y)) => {
                proof {
                    assert(la.drop_first() =~= self.left.rest());
                    assert(ra.drop_first() =~= self.right.rest());
                }
                match y.0.compare(&x.0) {
                    Ordering::Equal => {
                        proof {
                            <A::Key as JoinKey>::lemma_irreflexive(x.0);
                            assert(self.rest() =~= target.drop_first());
                        }
                        Some((x.0, (Some(x.1), Some(y.1))))
                    },
                    Ordering::Less => {
                        proof {
                            lemma_asymmetric(y.0, x.0);
                        }
                        self.left_peek = Some(x);
                        proof {
                            assert(self.rest() =~= target.drop_first());
                        }
                        Some((y.0, (None, Some(y.1))))
                    },
                    Ordering::Greater => {
                        self.right_peek = Some(y);
                        proof {
                            assert(self.rest() =~= target.drop_first());
                        }
                        Some((x.0, (Some(x.1), None)))
                    },
                }
            },
        }
    }
}

} // verus!
