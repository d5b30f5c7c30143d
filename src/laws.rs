//! What holds of every join on every ordered input.

use crate::key::JoinKey;
use crate::lemmas::{
    lemma_ascending_split, lemma_asymmetric, lemma_common_ascending, lemma_common_empty,
    lemma_contains_skip, lemma_entries_above, lemma_entries_ascending, lemma_entries_empty,
    lemma_keys_above_lower, lemma_lookup_below, lemma_merged_above, lemma_merged_ascending,
    lemma_paired_above, lemma_paired_ascending, lemma_paired_empty, lemma_set_ascending_split,
};
use crate::model::{
    ascending, common_keys, entries_in, key_set, keys_ascending, lookup, merged, paired,
};
use vstd::prelude::*;

verus! {

/// The keys of an entry put before a sequence.
proof fn lemma_key_set_cons<K, V>(x: (K, V), t: Seq<(K, V)>)
    ensures
        key_set(seq![x] + t) == key_set(t).insert(x.0),
{
    let s = seq![x] + t;
    assert forall|k: K| key_set(s).contains(k) implies key_set(t).insert(x.0).contains(k) by {
        let i = choose|i: int| 0 <= i < s.len() && s[i].0 == k;
        if i > 0 {
            assert(t[i - 1].0 == k);
        }
    }
    assert forall|k: K| key_set(t).insert(x.0).contains(k) implies key_set(s).contains(k) by {
        if k == x.0 {
            assert(s[0].0 == k);
        } else {
            let j = choose|j: int| 0 <= j < t.len() && t[j].0 == k;
            assert(s[j + 1].0 == k);
        }
    }
    assert(key_set(s) =~= key_set(t).insert(x.0));
}

/// The elements of a key put before a sequence.
proof fn lemma_to_set_cons<K>(x: K, t: Seq<K>)
    ensures
        (seq![x] + t).to_set() == t.to_set().insert(x),
{
    assert forall|k: K|
        (seq![x] + t).to_set().contains(k) <==> t.to_set().insert(x).contains(k) by {
        if k != x {
            lemma_contains_skip(x, t, k);
        } else {
            assert((seq![x] + t)[0] == x);
        }
    }
    assert((seq![x] + t).to_set() =~= t.to_set().insert(x));
}

/// A lookup finds something exactly under the keys the sequence holds.
proof fn lemma_lookup_found<K, V>(s: Seq<(K, V)>, k: K)
    ensures
        lookup(s, k) is Some <==> key_set(s).contains(k),
    decreases s.len(),
{
    if s.len() > 0 {
        lemma_lookup_found(s.drop_first(), k);
        lemma_key_set_cons(s[0], s.drop_first());
        assert(s == seq![s[0]] + s.drop_first());
    } else {
        assert(!key_set(s).contains(k));
    }
}

/// In an ascending sequence, a lookup under the key of an entry finds that
/// entry's value.
proof fn lemma_lookup_at<K: JoinKey, V>(s: Seq<(K, V)>, i: int)
    requires
        keys_ascending(s),
        0 <= i < s.len(),
    ensures
        lookup(s, s[i].0) == Some(s[i].1),
    decreases s.len(),
{
    if i > 0 {
        lemma_ascending_split(s);
        lemma_asymmetric(s[0].0, s[i].0);
        assert(s.drop_first()[i - 1] == s[i]);
        lemma_lookup_at(s.drop_first(), i - 1);
    }
}

/// A key above the first key of a sequence is looked up in the rest.
proof fn lemma_lookup_tail<K: JoinKey, V>(s: Seq<(K, V)>, k: K)
    requires
        s.len() > 0,
        s[0].0.lt(k),
    ensures
        lookup(s, k) == lookup(s.drop_first(), k),
{
    K::lemma_irreflexive(k);
}

/// The output of each join comes in strictly ascending key order, given
/// inputs that do.
pub proof fn law_joins_ascending<K: JoinKey, VA, VB>(
    a: Seq<(K, VA)>,
    b: Seq<(K, VB)>,
    sa: Seq<K>,
    sb: Seq<K>,
)
    requires
        keys_ascending(a),
        keys_ascending(b),
        ascending(sa),
        ascending(sb),
    ensures
        keys_ascending(paired(a, b)),
        keys_ascending(entries_in(a, sb)),
        ascending(common_keys(sa, sb)),
        keys_ascending(merged(a, b)),
{
    lemma_paired_ascending(a, b);
    lemma_entries_ascending(a, sb);
    lemma_common_ascending(sa, sb);
    lemma_merged_ascending(a, b);
}

/// The keys of an inner join of two maps are the keys both hold.
proof fn lemma_paired_keys<K, VA, VB>(a: Seq<(K, VA)>, b: Seq<(K, VB)>)
    ensures
        key_set(paired(a, b)) == key_set(a).intersect(key_set(b)),
    decreases a.len(),
{
    if a.len() == 0 {
        assert(key_set(paired(a, b)) =~= key_set(a).intersect(key_set(b)));
    } else {
        let t = a.drop_first();
        lemma_paired_keys(t, b);
        lemma_key_set_cons(a[0], t);
        assert(a == seq![a[0]] + t);
        lemma_lookup_found(b, a[0].0);
        if let Some(vb) = lookup(b, a[0].0) {
            lemma_key_set_cons((a[0].0, (a[0].1, vb)), paired(t, b));
        }
        assert(key_set(paired(a, b)) =~= key_set(a).intersect(key_set(b)));
    }
}

/// Each entry of an inner join of two maps carries the values that both
/// inputs hold under its key.
proof fn lemma_paired_values<K: JoinKey, VA, VB>(a: Seq<(K, VA)>, b: Seq<(K, VB)>, j: int)
    requires
        keys_ascending(a),
        0 <= j < paired(a, b).len(),
    ensures
        lookup(a, paired(a, b)[j].0) == Some(paired(a, b)[j].1.0),
        lookup(b, paired(a, b)[j].0) == Some(paired(a, b)[j].1.1),
    decreases a.len(),
{
    let t = a.drop_first();
    lemma_ascending_split(a);
    let p = paired(a, b);
    let pt = paired(t, b);
    match lookup(b, a[0].0) {
        Some(vb) => {
            if j == 0 {
            } else {
                assert(p[j] == pt[j - 1]);
                lemma_paired_values(t, b, j - 1);
                lemma_paired_above(t, b, a[0].0);
                lemma_lookup_tail(a, pt[j - 1].0);
            }
        },
        None => {
            lemma_paired_values(t, b, j);
            lemma_paired_above(t, b, a[0].0);
            lemma_lookup_tail(a, pt[j].0);
        },
    }
}

/// An inner join of two ordered maps holds exactly the keys that both hold,
/// each with the value that each input holds under it.
pub proof fn law_inner_join_map<K: JoinKey, VA, VB>(a: Seq<(K, VA)>, b: Seq<(K, VB)>)
    requires
        keys_ascending(a),
        keys_ascending(b),
    ensures
        key_set(paired(a, b)) == key_set(a).intersect(key_set(b)),
        forall|j: int|
            #![trigger paired(a, b)[j]]
            0 <= j < paired(a, b).len() ==> lookup(a, paired(a, b)[j].0) == Some(
                paired(a, b)[j].1.0,
            ) && lookup(b, paired(a, b)[j].0) == Some(paired(a, b)[j].1.1),
{
    lemma_paired_keys(a, b);
    assert forall|j: int| 0 <= j < paired(a, b).len() implies lookup(
        a,
        #[trigger] paired(a, b)[j].0,
    ) == Some(paired(a, b)[j].1.0) && lookup(b, paired(a, b)[j].0) == Some(
        paired(a, b)[j].1.1,
    ) by {
        lemma_paired_values(a, b, j);
    }
}

/// The keys of a map filtered by a set are the keys both hold.
proof fn lemma_entries_keys<K, V>(m: Seq<(K, V)>, s: Seq<K>)
    ensures
        key_set(entries_in(m, s)) == key_set(m).intersect(s.to_set()),
    decreases m.len(),
{
    if m.len() == 0 {
        assert(key_set(entries_in(m, s)) =~= key_set(m).intersect(s.to_set()));
    } else {
        let t = m.drop_first();
        lemma_entries_keys(t, s);
        lemma_key_set_cons(m[0], t);
        assert(m == seq![m[0]] + t);
        if s.contains(m[0].0) {
            lemma_key_set_cons(m[0], entries_in(t, s));
        }
        assert(key_set(entries_in(m, s)) =~= key_set(m).intersect(s.to_set()));
    }
}

/// Each entry of a map filtered by a set is an entry of the map.
proof fn lemma_entries_values<K: JoinKey, V>(m: Seq<(K, V)>, s: Seq<K>, j: int)
    requires
        keys_ascending(m),
        0 <= j < entries_in(m, s).len(),
    ensures
        lookup(m, entries_in(m, s)[j].0) == Some(entries_in(m, s)[j].1),
    decreases m.len(),
{
    let t = m.drop_first();
    lemma_ascending_split(m);
    let p = entries_in(m, s);
    let pt = entries_in(t, s);
    if s.contains(m[0].0) {
        if j > 0 {
            assert(p[j] == pt[j - 1]);
            lemma_entries_values(t, s, j - 1);
            lemma_entries_above(t, s, m[0].0);
            lemma_lookup_tail(m, pt[j - 1].0);
        }
    } else {
        lemma_entries_values(t, s, j);
        lemma_entries_above(t, s, m[0].0);
        lemma_lookup_tail(m, pt[j].0);
    }
}

/// An inner join of an ordered map with an ordered set holds exactly the
/// keys that both hold, each with the value the map holds under it.
pub proof fn law_inner_join_map_set<K: JoinKey, V>(m: Seq<(K, V)>, s: Seq<K>)
    requires
        keys_ascending(m),
        ascending(s),
    ensures
        key_set(entries_in(m, s)) == key_set(m).intersect(s.to_set()),
        forall|j: int|
            #![trigger entries_in(m, s)[j]]
            0 <= j < entries_in(m, s).len() ==> lookup(m, entries_in(m, s)[j].0) == Some(
                entries_in(m, s)[j].1,
            ),
{
    lemma_entries_keys(m, s);
    assert forall|j: int| 0 <= j < entries_in(m, s).len() implies lookup(
        m,
        #[trigger] entries_in(m, s)[j].0,
    ) == Some(entries_in(m, s)[j].1) by {
        lemma_entries_values(m, s, j);
    }
}

/// An inner join of two ordered sets holds exactly the keys that both hold.
pub proof fn law_inner_join_set<K>(a: Seq<K>, b: Seq<K>)
    ensures
        common_keys(a, b).to_set() == a.to_set().intersect(b.to_set()),
    decreases a.len(),
{
    if a.len() == 0 {
        assert(common_keys(a, b).to_set() =~= a.to_set().intersect(b.to_set()));
    } else {
        let t = a.drop_first();
        law_inner_join_set(t, b);
        lemma_to_set_cons(a[0], t);
        assert(a == seq![a[0]] + t);
        if b.contains(a[0]) {
            lemma_to_set_cons(a[0], common_keys(t, b));
        }
        assert(common_keys(a, b).to_set() =~= a.to_set().intersect(b.to_set()));
    }
}

/// Two ascending sequences that hold the same keys are the same sequence.
proof fn lemma_ascending_unique<K: JoinKey>(a: Seq<K>, b: Seq<K>)
    requires
        ascending(a),
        ascending(b),
        a.to_set() == b.to_set(),
    ensures
        a == b,
    decreases a.len(),
{
    if a.len() == 0 {
        if b.len() > 0 {
            assert(b.to_set().contains(b[0]));
        }
        assert(a =~= b);
    } else {
        assert(a.to_set().contains(a[0]));
        assert(b.len() > 0);
        assert(b.to_set().contains(b[0]));
        let i = choose|i: int| 0 <= i < a.len() && a[i] == b[0];
        let j = choose|j: int| 0 <= j < b.len() && b[j] == a[0];
        if i > 0 && j > 0 {
            lemma_asymmetric(a[0], a[i]);
        }
        let a1 = a.drop_first();
        let b1 = b.drop_first();
        lemma_set_ascending_split(a);
        lemma_set_ascending_split(b);
        lemma_to_set_cons(a[0], a1);
        lemma_to_set_cons(b[0], b1);
        K::lemma_irreflexive(a[0]);
        assert(!a1.to_set().contains(a[0]));
        assert(!b1.to_set().contains(b[0]));
        assert(a1.to_set() =~= a.to_set().remove(a[0]));
        assert(b1.to_set() =~= b.to_set().remove(b[0]));
        lemma_ascending_unique(a1, b1);
    }
}

/// Two chained inner joins of ordered sets yield, in ascending order, exactly
/// the keys that all three hold, whichever pair is joined first.
pub proof fn law_chained_inner_join_set<K: JoinKey>(s1: Seq<K>, s2: Seq<K>, s3: Seq<K>)
    requires
        ascending(s1),
        ascending(s2),
        ascending(s3),
    ensures
        ascending(common_keys(common_keys(s1, s2), s3)),
        common_keys(common_keys(s1, s2), s3).to_set() == s1.to_set().intersect(
            s2.to_set(),
        ).intersect(s3.to_set()),
        common_keys(common_keys(s1, s2), s3) == common_keys(s1, common_keys(s2, s3)),
{
    lemma_common_ascending(s1, s2);
    lemma_common_ascending(common_keys(s1, s2), s3);
    lemma_common_ascending(s1, common_keys(s2, s3));
    law_inner_join_set(s1, s2);
    law_inner_join_set(common_keys(s1, s2), s3);
    law_inner_join_set(s2, s3);
    law_inner_join_set(s1, common_keys(s2, s3));
    assert(s1.to_set().intersect(s2.to_set()).intersect(s3.to_set()) =~= s1.to_set().intersect(
        s2.to_set().intersect(s3.to_set()),
    ));
    lemma_ascending_unique(
        common_keys(common_keys(s1, s2), s3),
        common_keys(s1, common_keys(s2, s3)),
    );
}

/// The keys of an outer join are the keys either side holds.
proof fn lemma_merged_keys<K: JoinKey, VA, VB>(a: Seq<(K, VA)>, b: Seq<(K, VB)>)
    ensures
        key_set(merged(a, b)) == key_set(a).union(key_set(b)),
    decreases a.len() + b.len(),
{
    let m = merged(a, b);
    if a.len() == 0 && b.len() == 0 {
        assert(key_set(m) =~= key_set(a).union(key_set(b)));
    } else if b.len() == 0 || (a.len() > 0 && a[0].0.lt(b[0].0)) {
        lemma_merged_keys(a.drop_first(), b);
        lemma_key_set_cons(a[0], a.drop_first());
        assert(a == seq![a[0]] + a.drop_first());
        lemma_key_set_cons((a[0].0, (Some(a[0].1), None::<VB>)), merged(a.drop_first(), b));
        assert(key_set(m) =~= key_set(a).union(key_set(b)));
    } else if a.len() == 0 || b[0].0.lt(a[0].0) {
        lemma_merged_keys(a, b.drop_first());
        lemma_key_set_cons(b[0], b.drop_first());
        assert(b == seq![b[0]] + b.drop_first());
        lemma_key_set_cons((b[0].0, (None::<VA>, Some(b[0].1))), merged(a, b.drop_first()));
        assert(key_set(m) =~= key_set(a).union(key_set(b)));
    } else {
        K::lemma_total(a[0].0, b[0].0);
        lemma_merged_keys(a.drop_first(), b.drop_first());
        lemma_key_set_cons(a[0], a.drop_first());
        assert(a == seq![a[0]] + a.drop_first());
        lemma_key_set_cons(b[0], b.drop_first());
        assert(b == seq![b[0]] + b.drop_first());
        lemma_key_set_cons(
            (a[0].0, (Some(a[0].1), Some(b[0].1))),
            merged(a.drop_first(), b.drop_first()),
        );
        assert(key_set(m) =~= key_set(a).union(key_set(b)));
    }
}

/// Each entry of an outer join carries, on each side, what that side holds
/// under its key.
proof fn lemma_merged_values<K: JoinKey, VA, VB>(a: Seq<(K, VA)>, b: Seq<(K, VB)>, j: int)
    requires
        keys_ascending(a),
        keys_ascending(b),
        0 <= j < merged(a, b).len(),
    ensures
        merged(a, b)[j].1.0 == lookup(a, merged(a, b)[j].0),
        merged(a, b)[j].1.1 == lookup(b, merged(a, b)[j].0),
    decreases a.len() + b.len(),
{
    let m = merged(a, b);
    if a.len() > 0 {
        lemma_ascending_split(a);
    }
    if b.len() > 0 {
        lemma_ascending_split(b);
    }
    if a.len() == 0 && b.len() == 0 {
    } else if b.len() == 0 || (a.len() > 0 && a[0].0.lt(b[0].0)) {
        let k = a[0].0;
        if b.len() > 0 {
            lemma_keys_above_lower(b.drop_first(), k, b[0].0);
        }
        if j == 0 {
            lemma_lookup_below(b, k);
        } else {
            let t = merged(a.drop_first(), b);
            assert(m[j] == t[j - 1]);
            lemma_merged_values(a.drop_first(), b, j - 1);
            lemma_merged_above(a.drop_first(), b, k);
            lemma_lookup_tail(a, t[j - 1].0);
        }
    } else if a.len() == 0 || b[0].0.lt(a[0].0) {
        let k = b[0].0;
        if a.len() > 0 {
            lemma_keys_above_lower(a.drop_first(), k, a[0].0);
        }
        if j == 0 {
            lemma_lookup_below(a, k);
        } else {
            let t = merged(a, b.drop_first());
            assert(m[j] == t[j - 1]);
            lemma_merged_values(a, b.drop_first(), j - 1);
            lemma_merged_above(a, b.drop_first(), k);
            lemma_lookup_tail(b, t[j - 1].0);
        }
    } else {
        K::lemma_total(a[0].0, b[0].0);
        let k = a[0].0;
        if j > 0 {
            let t = merged(a.drop_first(), b.drop_first());
            assert(m[j] == t[j - 1]);
            lemma_merged_values(a.drop_first(), b.drop_first(), j - 1);
            lemma_merged_above(a.drop_first(), b.drop_first(), k);
            lemma_lookup_tail(a, t[j - 1].0);
            lemma_lookup_tail(b, t[j - 1].0);
        }
    }
}

/// An outer join of two ordered maps holds exactly the keys that either
/// holds; each entry carries the value of each side that holds its key, and
/// nothing on a side that does not.
pub proof fn law_outer_join<K: JoinKey, VA, VB>(a: Seq<(K, VA)>, b: Seq<(K, VB)>)
    requires
        keys_ascending(a),
        keys_ascending(b),
    ensures
        key_set(merged(a, b)) == key_set(a).union(key_set(b)),
        forall|j: int|
            #![trigger merged(a, b)[j]]
            0 <= j < merged(a, b).len() ==> merged(a, b)[j].1.0 == lookup(a, merged(a, b)[j].0)
                && merged(a, b)[j].1.1 == lookup(b, merged(a, b)[j].0),
{
    lemma_merged_keys(a, b);
    assert forall|j: int| 0 <= j < merged(a, b).len() implies #[trigger] merged(a, b)[j].1.0
        == lookup(a, merged(a, b)[j].0) && merged(a, b)[j].1.1 == lookup(
        b,
        merged(a, b)[j].0,
    ) by {
        lemma_merged_values(a, b, j);
    }
}

/// An inner join is over once either input is: nothing more comes of it,
/// whatever the other input still holds. An outer join is over only once
/// both inputs are.
pub proof fn law_exhaustion<K: JoinKey, VA, VB>(
    a: Seq<(K, VA)>,
    b: Seq<(K, VB)>,
    sa: Seq<K>,
    sb: Seq<K>,
)
    ensures
        a.len() == 0 || b.len() == 0 ==> paired(a, b).len() == 0,
        a.len() == 0 || sb.len() == 0 ==> entries_in(a, sb).len() == 0,
        sa.len() == 0 || sb.len() == 0 ==> common_keys(sa, sb).len() == 0,
        merged(a, b).len() == 0 <==> a.len() == 0 && b.len() == 0,
{
    if a.len() == 0 || b.len() == 0 {
        lemma_paired_empty(a, b);
    }
    if a.len() == 0 || sb.len() == 0 {
        lemma_entries_empty(a, sb);
    }
    if sa.len() == 0 || sb.len() == 0 {
        lemma_common_empty(sa, sb);
    }
}

} // verus!
