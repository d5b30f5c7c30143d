//! The capabilities a sequence offers to take part in a join.
//!
//! `MapStream` and `SetStream` are pull-based sequences whose keys come in
//! strictly ascending order; `OrderedMapIterator` and `OrderedSetIterator`
//! give every such sequence the join combinators.

use crate::join::{InnerJoinMap, InnerJoinMapSet, InnerJoinSet, OuterJoin};
use crate::key::JoinKey;
use crate::model::{ascending, common_keys, entries_in, keys_ascending, merged, paired, pulled};
use vstd::prelude::*;

verus! {

/// A sequence of key-value pairs whose keys come in strictly ascending order.
pub trait MapStream: Sized {
    type Key: JoinKey;

    type Val;

    /// The state in which `next` may be called.
    spec fn valid(&self) -> bool;

    /// What the sequence has still to yield.
    spec fn rest(&self) -> Seq<(Self::Key, Self::Val)>;

    proof fn lemma_rest_ascending(&self)
        requires
            self.valid(),
        ensures
            keys_ascending(self.rest()),
    ;

    /// Yields the next pair, or `None` once nothing is left.
    fn next(&mut self) -> (r: Option<(Self::Key, Self::Val)>)
        requires
            old(self).valid(),
        ensures
            final(self).valid(),
            pulled(old(self).rest(), final(self).rest(), r),
    ;
}

/// A sequence of keys that come in strictly ascending order.
pub trait SetStream: Sized {
    type Key: JoinKey;

    /// The state in which `next` may be called.
    spec fn valid(&self) -> bool;

    /// What the sequence has still to yield.
    spec fn rest(&self) -> Seq<Self::Key>;

    proof fn lemma_rest_ascending(&self)
        requires
            self.valid(),
        ensures
            ascending(self.rest()),
    ;

    /// Yields the next key, or `None` once nothing is left.
    fn next(&mut self) -> (r: Option<Self::Key>)
        requires
            old(self).valid(),
        ensures
            final(self).valid(),
            pulled(old(self).rest(), final(self).rest(), r),
    ;
}

/// Lets an ordered map do an inner join with another ordered sequence, to
/// combine their values or to filter on their keys, or an outer join.
pub trait OrderedMapIterator: MapStream {
    /// Joins two ordered maps together.
    fn inner_join_map<I: MapStream<Key = Self::Key>>(self, map: I) -> (r: InnerJoinMap<Self, I>)
        requires
            self.valid(),
            map.valid(),
        ensures
            r.valid(),
            r.rest() == paired(self.rest(), map.rest()),
    {
        InnerJoinMap::new(self, map)
    }

    /// Filters an ordered map with an ordered set.
    fn inner_join_set<I: SetStream<Key = Self::Key>>(self, set: I) -> (r: InnerJoinMapSet<
        Self,
        I,
    >)
        requires
            self.valid(),
            set.valid(),
        ensures
            r.valid(),
            r.rest() == entries_in(self.rest(), set.rest()),
    {
        InnerJoinMapSet::new(self, set)
    }

    /// Joins with another ordered map: every key of either, with its value
    /// on each side that holds it.
    fn outer_join<I: MapStream<Key = Self::Key>>(self, other: I) -> (r: OuterJoin<Self, I>)
        requires
            self.valid(),
            other.valid(),
        ensures
            r.valid(),
            r.rest() == merged(self.rest(), other.rest()),
    {
        OuterJoin::new(self, other)
    }
}

impl<T: MapStream> OrderedMapIterator for T {}

/// Lets an ordered set do an inner join with another ordered sequence.
pub trait OrderedSetIterator: SetStream {
    /// Filters an ordered map with this set.
    fn inner_join_map<I: MapStream<Key = Self::Key>>(self, map: I) -> (r: InnerJoinMapSet<
        I,
        Self,
    >)
        requires
            self.valid(),
            map.valid(),
        ensures
            r.valid(),
            r.rest() == entries_in(map.rest(), self.rest()),
    {
        InnerJoinMapSet::new(map, self)
    }

    /// Intersects two ordered sets.
    fn inner_join_set<I: SetStream<Key = Self::Key>>(self, set: I) -> (r: InnerJoinSet<Self, I>)
        requires
            self.valid(),
            set.valid(),
        ensures
            r.valid(),
            r.rest() == common_keys(self.rest(), set.rest()),
    {
        InnerJoinSet::new(self, set)
    }
}

impl<T: SetStream> OrderedSetIterator for T {}

} // verus!
