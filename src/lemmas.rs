//! Facts about the model that the adaptors' proofs rest on.

use crate::key::JoinKey;
use crate::model::{
    above, ascending, common_keys, entries_in, keys_above, keys_ascending, lookup, merged, paired,
};
use vstd::prelude::*;

verus! {

/// A bound below a bound is a bound.
pub proof fn lemma_keys_above_lower<K: JoinKey, V>(s: Seq<(K, V)>, lo: K, k: K)
    requires
        keys_above(s, k),
        lo.lt(k),
    ensures
        keys_above(s, lo),
{
    assert forall|i: int| 0 <= i < s.len() implies lo.lt(#[trigger] s[i].0) by {
        K::lemma_transitive(lo, k, s[i].0);
    }
}

/// The rest of an ascending sequence lies above its first key.
pub proof fn lemma_ascending_split<K: JoinKey, V>(s: Seq<(K, V)>)
    requires
        keys_ascending(s),
        s.len() > 0,
    ensures
        keys_above(s.drop_first(), s[0].0),
        keys_ascending(s.drop_first()),
        s == seq![s[0]] + s.drop_first(),
{
    assert forall|i: int| 0 <= i < s.drop_first().len() implies s[0].0.lt(
        #[trigger] s.drop_first()[i].0,
    ) by {
        assert(s.drop_first()[i] == s[i + 1]);
    }
    assert(s =~= seq![s[0]] + s.drop_first());
}

/// Nothing is found under a key below all keys.
pub proof fn lemma_lookup_below<K: JoinKey, V>(s: Seq<(K, V)>, k: K)
    requires
        keys_above(s, k),
    ensures
        lookup(s, k) is None,
    decreases s.len(),
{
    if s.len() > 0 {
        K::lemma_irreflexive(k);
        assert(keys_above(s.drop_first(), k)) by {
            assert forall|i: int| 0 <= i < s.drop_first().len() implies k.lt(
                #[trigger] s.drop_first()[i].0,
            ) by {
                assert(s.drop_first()[i] == s[i + 1]);
            }
        }
        lemma_lookup_below(s.drop_first(), k);
    }
}

/// A first entry under another key does not change a lookup.
pub proof fn lemma_lookup_skip<K, V>(y: (K, V), s: Seq<(K, V)>, k: K)
    requires
        y.0 != k,
    ensures
        lookup(seq![y] + s, k) == lookup(s, k),
{
    assert((seq![y] + s).drop_first() =~= s);
}

/// Pairing with a sequence that starts below all keys of `a` ignores that start.
pub proof fn lemma_paired_skip_b<K: JoinKey, VA, VB>(
    a: Seq<(K, VA)>,
    y: (K, VB),
    b: Seq<(K, VB)>,
)
    requires
        keys_above(a, y.0),
    ensures
        paired(a, seq![y] + b) == paired(a, b),
    decreases a.len(),
{
    if a.len() > 0 {
        K::lemma_irreflexive(y.0);
        lemma_lookup_skip(y, b, a[0].0);
        assert(keys_above(a.drop_first(), y.0)) by {
            assert forall|i: int| 0 <= i < a.drop_first().len() implies y.0.lt(
                #[trigger] a.drop_first()[i].0,
            ) by {
                assert(a.drop_first()[i] == a[i + 1]);
            }
        }
        lemma_paired_skip_b(a.drop_first(), y, b);
    }
}

/// An entry of `a` below all keys of `b` contributes nothing.
pub proof fn lemma_paired_skip_a<K: JoinKey, VA, VB>(
    x: (K, VA),
    a: Seq<(K, VA)>,
    b: Seq<(K, VB)>,
)
    requires
        keys_above(b, x.0),
    ensures
        paired(seq![x] + a, b) == paired(a, b),
{
    lemma_lookup_below(b, x.0);
    assert((seq![x] + a).drop_first() =~= a);
}

/// Two first entries under one key pair up.
pub proof fn lemma_paired_match<K: JoinKey, VA, VB>(
    x: (K, VA),
    a: Seq<(K, VA)>,
    y: (K, VB),
    b: Seq<(K, VB)>,
)
    requires
        x.0 == y.0,
        keys_above(a, x.0),
    ensures
        paired(seq![x] + a, seq![y] + b) == seq![(x.0, (x.1, y.1))] + paired(a, b),
{
    assert((seq![x] + a).drop_first() =~= a);
    assert((seq![y] + b).drop_first() =~= b);
    lemma_paired_skip_b(a, y, b);
}

/// Pairing with an empty sequence yields nothing.
pub proof fn lemma_paired_empty<K, VA, VB>(a: Seq<(K, VA)>, b: Seq<(K, VB)>)
    requires
        a.len() == 0 || b.len() == 0,
    ensures
        paired(a, b).len() == 0,
    decreases a.len(),
{
    if a.len() > 0 {
        lemma_paired_empty(a.drop_first(), b);
    }
}

/// Pairing keeps a lower bound of `a`.
pub proof fn lemma_paired_above<K: JoinKey, VA, VB>(a: Seq<(K, VA)>, b: Seq<(K, VB)>, k: K)
    requires
        keys_above(a, k),
    ensures
        keys_above(paired(a, b), k),
    decreases a.len(),
{
    if a.len() > 0 {
        assert(keys_above(a.drop_first(), k)) by {
            assert forall|i: int| 0 <= i < a.drop_first().len() implies k.lt(
                #[trigger] a.drop_first()[i].0,
            ) by {
                assert(a.drop_first()[i] == a[i + 1]);
            }
        }
        lemma_paired_above(a.drop_first(), b, k);
    }
}

/// Pairing keeps the order of `a`.
pub proof fn lemma_paired_ascending<K: JoinKey, VA, VB>(a: Seq<(K, VA)>, b: Seq<(K, VB)>)
    requires
        keys_ascending(a),
    ensures
        keys_ascending(paired(a, b)),
    decreases a.len(),
{
    if a.len() > 0 {
        lemma_ascending_split(a);
        lemma_paired_ascending(a.drop_first(), b);
        lemma_paired_above(a.drop_first(), b, a[0].0);
        let t = paired(a.drop_first(), b);
        if let Some(vb) = lookup(b, a[0].0) {
            let s = seq![(a[0].0, (a[0].1, vb))] + t;
            assert forall|i: int, j: int| 0 <= i < j < s.len() implies #[trigger] s[i].0.lt(
                #[trigger] s[j].0,
            ) by {
                if i > 0 {
                    assert(s[i] == t[i - 1] && s[j] == t[j - 1]);
                } else {
                    assert(s[j] == t[j - 1]);
                }
            }
        }
    }
}

/// A bound below a bound is a bound.
pub proof fn lemma_above_lower<K: JoinKey>(s: Seq<K>, lo: K, k: K)
    requires
        above(s, k),
        lo.lt(k),
    ensures
        above(s, lo),
{
    assert forall|i: int| 0 <= i < s.len() implies lo.lt(#[trigger] s[i]) by {
        K::lemma_transitive(lo, k, s[i]);
    }
}

/// The rest of an ascending key sequence lies above its first key.
pub proof fn lemma_set_ascending_split<K: JoinKey>(s: Seq<K>)
    requires
        ascending(s),
        s.len() > 0,
    ensures
        above(s.drop_first(), s[0]),
        ascending(s.drop_first()),
        s == seq![s[0]] + s.drop_first(),
{
    assert forall|i: int| 0 <= i < s.drop_first().len() implies s[0].lt(
        #[trigger] s.drop_first()[i],
    ) by {
        assert(s.drop_first()[i] == s[i + 1]);
    }
    assert(s =~= seq![s[0]] + s.drop_first());
}

/// A key below all elements is not among them.
pub proof fn lemma_not_contains_below<K: JoinKey>(s: Seq<K>, k: K)
    requires
        above(s, k),
    ensures
        !s.contains(k),
{
    K::lemma_irreflexive(k);
}

/// A first element other than `k` does not change whether `k` is held.
pub proof fn lemma_contains_skip<K>(y: K, s: Seq<K>, k: K)
    requires
        y != k,
    ensures
        (seq![y] + s).contains(k) == s.contains(k),
{
    let t = seq![y] + s;
    if t.contains(k) {
        let i = choose|i: int| 0 <= i < t.len() && t[i] == k;
        assert(s[i - 1] == k);
    }
    if s.contains(k) {
        let j = choose|j: int| 0 <= j < s.len() && s[j] == k;
        assert(t[j + 1] == k);
    }
}

/// Dropping the first element keeps a lower bound.
pub proof fn lemma_above_drop<K: JoinKey>(s: Seq<K>, k: K)
    requires
        above(s, k),
        s.len() > 0,
    ensures
        above(s.drop_first(), k),
{
    assert forall|i: int| 0 <= i < s.drop_first().len() implies k.lt(
        #[trigger] s.drop_first()[i],
    ) by {
        assert(s.drop_first()[i] == s[i + 1]);
    }
}

/// Dropping the first entry keeps a lower bound.
pub proof fn lemma_keys_above_drop<K: JoinKey, V>(s: Seq<(K, V)>, k: K)
    requires
        keys_above(s, k),
        s.len() > 0,
    ensures
        keys_above(s.drop_first(), k),
{
    assert forall|i: int| 0 <= i < s.drop_first().len() implies k.lt(
        #[trigger] s.drop_first()[i].0,
    ) by {
        assert(s.drop_first()[i] == s[i + 1]);
    }
}

/// Intersecting with a sequence that starts below all of `a` ignores that start.
pub proof fn lemma_common_skip_b<K: JoinKey>(a: Seq<K>, y: K, b: Seq<K>)
    requires
        above(a, y),
    ensures
        common_keys(a, seq![y] + b) == common_keys(a, b),
    decreases a.len(),
{
    if a.len() > 0 {
        K::lemma_irreflexive(y);
        lemma_contains_skip(y, b, a[0]);
        lemma_above_drop(a, y);
        lemma_common_skip_b(a.drop_first(), y, b);
    }
}

/// An element of `a` below all of `b` contributes nothing.
pub proof fn lemma_common_skip_a<K: JoinKey>(x: K, a: Seq<K>, b: Seq<K>)
    requires
        above(b, x),
    ensures
        common_keys(seq![x] + a, b) == common_keys(a, b),
{
    lemma_not_contains_below(b, x);
    assert((seq![x] + a).drop_first() =~= a);
}

/// Two equal first elements are kept once.
pub proof fn lemma_common_match<K: JoinKey>(x: K, a: Seq<K>, b: Seq<K>)
    requires
        above(a, x),
    ensures
        common_keys(seq![x] + a, seq![x] + b) == seq![x] + common_keys(a, b),
{
    assert((seq![x] + a).drop_first() =~= a);
    assert((seq![x] + b)[0] == x);
    lemma_common_skip_b(a, x, b);
}

/// Intersecting with an empty sequence yields nothing.
pub proof fn lemma_common_empty<K>(a: Seq<K>, b: Seq<K>)
    requires
        a.len() == 0 || b.len() == 0,
    ensures
        common_keys(a, b).len() == 0,
    decreases a.len(),
{
    if a.len() > 0 {
        lemma_common_empty(a.drop_first(), b);
    }
}

/// Intersecting keeps a lower bound of `a`.
pub proof fn lemma_common_above<K: JoinKey>(a: Seq<K>, b: Seq<K>, k: K)
    requires
        above(a, k),
    ensures
        above(common_keys(a, b), k),
    decreases a.len(),
{
    if a.len() > 0 {
        lemma_above_drop(a, k);
        lemma_common_above(a.drop_first(), b, k);
    }
}

/// Intersecting keeps the order of `a`.
pub proof fn lemma_common_ascending<K: JoinKey>(a: Seq<K>, b: Seq<K>)
    requires
        ascending(a),
    ensures
        ascending(common_keys(a, b)),
    decreases a.len(),
{
    if a.len() > 0 {
        lemma_set_ascending_split(a);
        lemma_common_ascending(a.drop_first(), b);
        lemma_common_above(a.drop_first(), b, a[0]);
        let t = common_keys(a.drop_first(), b);
        if b.contains(a[0]) {
            let s = seq![a[0]] + t;
            assert forall|i: int, j: int| 0 <= i < j < s.len() implies #[trigger] s[i].lt(
                #[trigger] s[j],
            ) by {
                assert(s[j] == t[j - 1]);
                if i > 0 {
                    assert(s[i] == t[i - 1]);
                }
            }
        }
    }
}

/// Filtering by a set that starts below all keys of `m` ignores that start.
pub proof fn lemma_entries_skip_set<K: JoinKey, V>(m: Seq<(K, V)>, y: K, s: Seq<K>)
    requires
        keys_above(m, y),
    ensures
        entries_in(m, seq![y] + s) == entries_in(m, s),
    decreases m.len(),
{
    if m.len() > 0 {
        K::lemma_irreflexive(y);
        lemma_contains_skip(y, s, m[0].0);
        lemma_keys_above_drop(m, y);
        lemma_entries_skip_set(m.drop_first(), y, s);
    }
}

/// An entry below all of the set contributes nothing.
pub proof fn lemma_entries_skip_map<K: JoinKey, V>(x: (K, V), m: Seq<(K, V)>, s: Seq<K>)
    requires
        above(s, x.0),
    ensures
        entries_in(seq![x] + m, s) == entries_in(m, s),
{
    lemma_not_contains_below(s, x.0);
    assert((seq![x] + m).drop_first() =~= m);
}

/// A first entry whose key starts the set is kept.
pub proof fn lemma_entries_match<K: JoinKey, V>(x: (K, V), m: Seq<(K, V)>, s: Seq<K>)
    requires
        keys_above(m, x.0),
    ensures
        entries_in(seq![x] + m, seq![x.0] + s) == seq![x] + entries_in(m, s),
{
    assert((seq![x] + m).drop_first() =~= m);
    assert((seq![x.0] + s)[0] == x.0);
    lemma_entries_skip_set(m, x.0, s);
}

/// Filtering by an empty set, or an empty map, yields nothing.
pub proof fn lemma_entries_empty<K, V>(m: Seq<(K, V)>, s: Seq<K>)
    requires
        m.len() == 0 || s.len() == 0,
    ensures
        entries_in(m, s).len() == 0,
    decreases m.len(),
{
    if m.len() > 0 {
        lemma_entries_empty(m.drop_first(), s);
    }
}

/// Filtering keeps a lower bound of the map.
pub proof fn lemma_entries_above<K: JoinKey, V>(m: Seq<(K, V)>, s: Seq<K>, k: K)
    requires
        keys_above(m, k),
    ensures
        keys_above(entries_in(m, s), k),
    decreases m.len(),
{
    if m.len() > 0 {
        lemma_keys_above_drop(m, k);
        lemma_entries_above(m.drop_first(), s, k);
    }
}

/// Filtering keeps the order of the map.
pub proof fn lemma_entries_ascending<K: JoinKey, V>(m: Seq<(K, V)>, s: Seq<K>)
    requires
        keys_ascending(m),
    ensures
        keys_ascending(entries_in(m, s)),
    decreases m.len(),
{
    if m.len() > 0 {
        lemma_ascending_split(m);
        lemma_entries_ascending(m.drop_first(), s);
        lemma_entries_above(m.drop_first(), s, m[0].0);
        let t = entries_in(m.drop_first(), s);
        if s.contains(m[0].0) {
            let r = seq![m[0]] + t;
            assert forall|i: int, j: int| 0 <= i < j < r.len() implies #[trigger] r[i].0.lt(
                #[trigger] r[j].0,
            ) by {
                assert(r[j] == t[j - 1]);
                if i > 0 {
                    assert(r[i] == t[i - 1]);
                }
            }
        }
    }
}

/// An entry below an ascending sequence may stand before it.
pub proof fn lemma_cons_ascending<K: JoinKey, V>(h: (K, V), t: Seq<(K, V)>)
    requires
        keys_above(t, h.0),
        keys_ascending(t),
    ensures
        keys_ascending(seq![h] + t),
{
    let s = seq![h] + t;
    assert forall|i: int, j: int| 0 <= i < j < s.len() implies #[trigger] s[i].0.lt(
        #[trigger] s[j].0,
    ) by {
        assert(s[j] == t[j - 1]);
        if i > 0 {
            assert(s[i] == t[i - 1]);
        }
    }
}

/// Of two keys, at most one lies below the other.
pub proof fn lemma_asymmetric<K: JoinKey>(x: K, y: K)
    requires
        x.lt(y),
    ensures
        !y.lt(x),
        x != y,
{
    K::lemma_irreflexive(x);
    if y.lt(x) {
        K::lemma_transitive(x, y, x);
    }
}

/// Merging keeps a lower bound of both sides.
pub proof fn lemma_merged_above<K: JoinKey, VA, VB>(a: Seq<(K, VA)>, b: Seq<(K, VB)>, k: K)
    requires
        keys_above(a, k),
        keys_above(b, k),
    ensures
        keys_above(merged(a, b), k),
    decreases a.len() + b.len(),
{
    if a.len() == 0 && b.len() == 0 {
    } else if b.len() == 0 || (a.len() > 0 && a[0].0.lt(b[0].0)) {
        lemma_keys_above_drop(a, k);
        lemma_merged_above(a.drop_first(), b, k);
        let t = merged(a.drop_first(), b);
        let s = seq![(a[0].0, (Some(a[0].1), None::<VB>))] + t;
        assert forall|i: int| 0 <= i < s.len() implies k.lt(#[trigger] s[i].0) by {
            if i > 0 {
                assert(s[i] == t[i - 1]);
            }
        }
    } else if a.len() == 0 || b[0].0.lt(a[0].0) {
        lemma_keys_above_drop(b, k);
        lemma_merged_above(a, b.drop_first(), k);
        let t = merged(a, b.drop_first());
        let s = seq![(b[0].0, (None::<VA>, Some(b[0].1)))] + t;
        assert forall|i: int| 0 <= i < s.len() implies k.lt(#[trigger] s[i].0) by {
            if i > 0 {
                assert(s[i] == t[i - 1]);
            }
        }
    } else {
        lemma_keys_above_drop(a, k);
        lemma_keys_above_drop(b, k);
        lemma_merged_above(a.drop_first(), b.drop_first(), k);
        let t = merged(a.drop_first(), b.drop_first());
        let s = seq![(a[0].0, (Some(a[0].1), Some(b[0].1)))] + t;
        assert forall|i: int| 0 <= i < s.len() implies k.lt(#[trigger] s[i].0) by {
            if i > 0 {
                assert(s[i] == t[i - 1]);
            }
        }
    }
}

/// Merging two ascending sequences gives an ascending sequence.
pub proof fn lemma_merged_ascending<K: JoinKey, VA, VB>(a: Seq<(K, VA)>, b: Seq<(K, VB)>)
    requires
        keys_ascending(a),
        keys_ascending(b),
    ensures
        keys_ascending(merged(a, b)),
    decreases a.len() + b.len(),
{
    if a.len() == 0 && b.len() == 0 {
    } else if b.len() == 0 || (a.len() > 0 && a[0].0.lt(b[0].0)) {
        lemma_ascending_split(a);
        if b.len() > 0 {
            lemma_ascending_split(b);
            lemma_keys_above_lower(b.drop_first(), a[0].0, b[0].0);
        }
        lemma_merged_ascending(a.drop_first(), b);
        lemma_merged_above(a.drop_first(), b, a[0].0);
        lemma_cons_ascending((a[0].0, (Some(a[0].1), None::<VB>)), merged(a.drop_first(), b));
    } else if a.len() == 0 || b[0].0.lt(a[0].0) {
        lemma_ascending_split(b);
        if a.len() > 0 {
            lemma_ascending_split(a);
            lemma_keys_above_lower(a.drop_first(), b[0].0, a[0].0);
        }
        lemma_merged_ascending(a, b.drop_first());
        lemma_merged_above(a, b.drop_first(), b[0].0);
        lemma_cons_ascending((b[0].0, (None::<VA>, Some(b[0].1))), merged(a, b.drop_first()));
    } else {
        K::lemma_total(a[0].0, b[0].0);
        lemma_ascending_split(a);
        lemma_ascending_split(b);
        lemma_merged_ascending(a.drop_first(), b.drop_first());
        lemma_merged_above(a.drop_first(), b.drop_first(), a[0].0);
        lemma_cons_ascending(
            (a[0].0, (Some(a[0].1), Some(b[0].1))),
            merged(a.drop_first(), b.drop_first()),
        );
    }
}

} // verus!
