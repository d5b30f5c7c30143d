//! Mathematical model of ordered sequences and of what each join yields.

use crate::key::JoinKey;
use vstd::prelude::*;

verus! {

/// Keys of a key-value sequence are strictly ascending.
pub open spec fn keys_ascending<K: JoinKey, V>(s: Seq<(K, V)>) -> bool {
    forall|i: int, j: int|
        #![trigger s[i], s[j]]
        0 <= i < j < s.len() ==> s[i].0.lt(s[j].0)
}

/// A key sequence is strictly ascending.
pub open spec fn ascending<K: JoinKey>(s: Seq<K>) -> bool {
    forall|i: int, j: int| #![trigger s[i], s[j]] 0 <= i < j < s.len() ==> s[i].lt(s[j])
}

/// Every key of `s` lies above `k`.
pub open spec fn keys_above<K: JoinKey, V>(s: Seq<(K, V)>, k: K) -> bool {
    forall|i: int| #![trigger s[i]] 0 <= i < s.len() ==> k.lt(s[i].0)
}

/// Every element of `s` lies above `k`.
pub open spec fn above<K: JoinKey>(s: Seq<K>, k: K) -> bool {
    forall|i: int| #![trigger s[i]] 0 <= i < s.len() ==> k.lt(s[i])
}

/// The keys that a key-value sequence holds.
pub open spec fn key_set<K, V>(s: Seq<(K, V)>) -> Set<K> {
    Set::new(|k: K| exists|i: int| 0 <= i < s.len() && s[i].0 == k)
}

/// One pull from a sequence: an empty sequence yields nothing and stays empty,
/// any other yields its first element and loses it.
pub open spec fn pulled<T>(before: Seq<T>, after: Seq<T>, r: Option<T>) -> bool {
    if before.len() == 0 {
        r is None && after == before
    } else {
        r == Some(before[0]) && after == before.drop_first()
    }
}

/// The value that a key-value sequence holds for `k`, at its first occurrence.
pub open spec fn lookup<K, V>(s: Seq<(K, V)>, k: K) -> Option<V>
    decreases s.len(),
{
    if s.len() == 0 {
        None
    } else if s[0].0 == k {
        Some(s[0].1)
    } else {
        lookup(s.drop_first(), k)
    }
}

/// Keys of `a` that `b` also holds, in the order of `a`.
pub open spec fn common_keys<K>(a: Seq<K>, b: Seq<K>) -> Seq<K>
    decreases a.len(),
{
    if a.len() == 0 {
        Seq::empty()
    } else if b.contains(a[0]) {
        seq![a[0]] + common_keys(a.drop_first(), b)
    } else {
        common_keys(a.drop_first(), b)
    }
}

/// Entries of `m` whose key `s` holds, in the order of `m`.
pub open spec fn entries_in<K, V>(m: Seq<(K, V)>, s: Seq<K>) -> Seq<(K, V)>
    decreases m.len(),
{
    if m.len() == 0 {
        Seq::empty()
    } else if s.contains(m[0].0) {
        seq![m[0]] + entries_in(m.drop_first(), s)
    } else {
        entries_in(m.drop_first(), s)
    }
}

/// For each key of `a` that `b` also holds, in the order of `a`: the key with
/// its value in `a` and its value in `b`.
pub open spec fn paired<K, VA, VB>(a: Seq<(K, VA)>, b: Seq<(K, VB)>) -> Seq<(K, (VA, VB))>
    decreases a.len(),
{
    if a.len() == 0 {
        Seq::empty()
    } else {
        let tail = paired(a.drop_first(), b);
        match lookup(b, a[0].0) {
            Some(vb) => seq![(a[0].0, (a[0].1, vb))] + tail,
            None => tail,
        }
    }
}

/// The merge of two ascending key-value sequences: every key of either, the
/// smaller first, with its value on each side where that side holds it.
pub open spec fn merged<K: JoinKey, VA, VB>(a: Seq<(K, VA)>, b: Seq<(K, VB)>) -> Seq<
    (K, (Option<VA>, Option<VB>)),
>
    decreases a.len() + b.len(),
{
    if a.len() == 0 && b.len() == 0 {
        Seq::empty()
    } else if b.len() == 0 || (a.len() > 0 && a[0].0.lt(b[0].0)) {
        seq![(a[0].0, (Some(a[0].1), None))] + merged(a.drop_first(), b)
    } else if a.len() == 0 || b[0].0.lt(a[0].0) {
        seq![(b[0].0, (None, Some(b[0].1)))] + merged(a, b.drop_first())
    } else {
        seq![(a[0].0, (Some(a[0].1), Some(b[0].1)))] + merged(a.drop_first(), b.drop_first())
    }
}

} // verus!
