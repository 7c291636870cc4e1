//! Keyed index entries on the ledger, modelled as a sequence of
//! `(key, target)` pairs.  Entries are only ever added or removed, never
//! edited in place.
use vstd::prelude::*;

verus! {

/// The entries whose key differs from `k`, in their order.
pub open spec fn without_key<V>(s: Seq<(Seq<char>, V)>, k: Seq<char>) -> Seq<(Seq<char>, V)>
    decreases s.len(),
{
    if s.len() == 0 {
        s
    } else {
        let rest = without_key(s.drop_last(), k);
        if s.last().0 == k {
            rest
        } else {
            rest.push(s.last())
        }
    }
}

/// How many entries are filed under `k`.
pub open spec fn count_key<V>(s: Seq<(Seq<char>, V)>, k: Seq<char>) -> nat
    decreases s.len(),
{
    if s.len() == 0 {
        0
    } else {
        count_key(s.drop_last(), k) + if s.last().0 == k {
            1nat
        } else {
            0nat
        }
    }
}

/// The target of the latest entry filed under `k`.
pub open spec fn lookup<V>(s: Seq<(Seq<char>, V)>, k: Seq<char>) -> Option<V>
    decreases s.len(),
{
    if s.len() == 0 {
        None
    } else if s.last().0 == k {
        Some(s.last().1)
    } else {
        lookup(s.drop_last(), k)
    }
}

/// No key has more than one entry.
pub open spec fn keys_unique<V>(s: Seq<(Seq<char>, V)>) -> bool {
    forall|k: Seq<char>| #[trigger] count_key(s, k) <= 1
}

pub proof fn lemma_without_key_count<V>(s: Seq<(Seq<char>, V)>, k: Seq<char>, k2: Seq<char>)
    ensures
        count_key(without_key(s, k), k2) == if k2 == k {
            0
        } else {
            count_key(s, k2)
        },
    decreases s.len(),
{
    if s.len() > 0 {
        lemma_without_key_count(s.drop_last(), k, k2);
        let rest = without_key(s.drop_last(), k);
        if s.last().0 != k {
            assert(rest.push(s.last()).drop_last() == rest);
        }
    }
}

pub proof fn lemma_without_key_lookup<V>(s: Seq<(Seq<char>, V)>, k: Seq<char>, k2: Seq<char>)
    ensures
        lookup(without_key(s, k), k2) == if k2 == k {
            None
        } else {
            lookup(s, k2)
        },
    decreases s.len(),
{
    if s.len() > 0 {
        lemma_without_key_lookup(s.drop_last(), k, k2);
        let rest = without_key(s.drop_last(), k);
        if s.last().0 != k {
            assert(rest.push(s.last()).drop_last() == rest);
        }
    }
}

pub proof fn lemma_push_contains<A>(s: Seq<A>, e: A, x: A)
    ensures
        s.push(e).contains(x) <==> (s.contains(x) || x == e),
{
    if s.contains(x) {
        let i = choose|i: int| 0 <= i < s.len() && s[i] == x;
        assert(s.push(e)[i] == x);
    }
    if x == e {
        assert(s.push(e)[s.len() as int] == x);
    }
    if s.push(e).contains(x) && x != e {
        let i = choose|i: int| 0 <= i < s.push(e).len() && s.push(e)[i] == x;
        assert(s[i] == x);
    }
}

pub proof fn lemma_without_key_contains<V>(s: Seq<(Seq<char>, V)>, k: Seq<char>, x: (Seq<char>, V))
    ensures
        without_key(s, k).contains(x) <==> (s.contains(x) && x.0 != k),
    decreases s.len(),
{
    if s.len() > 0 {
        let d = s.drop_last();
        lemma_without_key_contains(d, k, x);
        assert(s == d.push(s.last()));
        lemma_push_contains(d, s.last(), x);
        lemma_push_contains(without_key(d, k), s.last(), x);
    }
}

pub proof fn lemma_push_count<V>(s: Seq<(Seq<char>, V)>, e: (Seq<char>, V), k: Seq<char>)
    ensures
        count_key(s.push(e), k) == count_key(s, k) + if e.0 == k {
            1nat
        } else {
            0nat
        },
        lookup(s.push(e), k) == if e.0 == k {
            Some(e.1)
        } else {
            lookup(s, k)
        },
{
    assert(s.push(e).drop_last() == s);
}

/// Removing every entry of one key and adding one fresh entry for it keeps
/// each key to at most one entry.
pub proof fn lemma_replace_unique<V>(s: Seq<(Seq<char>, V)>, k: Seq<char>, v: V)
    requires
        keys_unique(s),
    ensures
        keys_unique(without_key(s, k).push((k, v))),
        count_key(without_key(s, k).push((k, v)), k) == 1,
        lookup(without_key(s, k).push((k, v)), k) == Some(v),
{
    let r = without_key(s, k).push((k, v));
    assert forall|k2: Seq<char>| #[trigger] count_key(r, k2) <= 1 by {
        lemma_push_count(without_key(s, k), (k, v), k2);
        lemma_without_key_count(s, k, k2);
        assert(count_key(s, k2) <= 1);
    }
    lemma_push_count(without_key(s, k), (k, v), k);
    lemma_without_key_count(s, k, k);
}

/// Removing the entries of a key keeps each key to at most one entry.
pub proof fn lemma_remove_unique<V>(s: Seq<(Seq<char>, V)>, k: Seq<char>)
    requires
        keys_unique(s),
    ensures
        keys_unique(without_key(s, k)),
        count_key(without_key(s, k), k) == 0,
        lookup(without_key(s, k), k) is None,
{
    assert forall|k2: Seq<char>| #[trigger] count_key(without_key(s, k), k2) <= 1 by {
        lemma_without_key_count(s, k, k2);
        assert(count_key(s, k2) <= 1);
    }
    lemma_without_key_count(s, k, k);
    lemma_without_key_lookup(s, k, k);
}


pub proof fn lemma_lookup_count<V>(s: Seq<(Seq<char>, V)>, k: Seq<char>)
    ensures
        lookup(s, k) is Some <==> count_key(s, k) >= 1,
    decreases s.len(),
{
    if s.len() > 0 {
        lemma_lookup_count(s.drop_last(), k);
    }
}

} // verus!
