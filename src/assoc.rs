//! Association lists keyed by text: unique keys, first-insertion order.

use vstd::prelude::*;
use crate::json::same_text;

verus! {

/// The value under `key`: the first entry with that key.
pub open spec fn assoc_lookup<V>(entries: Seq<(String, V)>, key: Seq<char>) -> Option<V>
    decreases entries.len(),
{
    if entries.len() == 0 {
        None
    } else if entries[0].0@ == key {
        Some(entries[0].1)
    } else {
        assoc_lookup(entries.drop_first(), key)
    }
}

/// The keys, in order.
pub open spec fn assoc_keys<V>(entries: Seq<(String, V)>) -> Seq<Seq<char>> {
    Seq::new(entries.len(), |i: int| entries[i].0@)
}

/// The index of the entry under `key`.
pub fn assoc_find<V>(entries: &Vec<(String, V)>, key: &str) -> (r: Option<usize>)
    ensures
        match r {
            Some(i) => i < entries@.len() && entries@[i as int].0@ == key@ && assoc_lookup(
                entries@,
                key@,
            ) == Some(entries@[i as int].1) && forall|k: int|
                0 <= k < i ==> (#[trigger] entries@[k]).0@ != key@,
            None => assoc_lookup(entries@, key@) is None && forall|k: int|
                0 <= k < entries@.len() ==> (#[trigger] entries@[k]).0@ != key@,
        },
{
    let mut i: usize = 0;
    let ghost es = entries@;
    assert(es.skip(0) =~= es);
    while i < entries.len()
        invariant
            es == entries@,
            i <= es.len(),
            assoc_lookup(es, key@) == assoc_lookup(es.skip(i as int), key@),
            forall|k: int| 0 <= k < i ==> (#[trigger] es[k]).0@ != key@,
        decreases es.len() - i,
    {
        assert(es.skip(i as int).drop_first() =~= es.skip(i + 1));
        if same_text(&entries[i].0, key) {
            assert(es.skip(i as int)[0] == es[i as int]);
            return Some(i);
        }
        i = i + 1;
    }
    None
}

pub proof fn lemma_lookup_update<V>(
    ps: Seq<(String, V)>,
    ns: Seq<(String, V)>,
    i: int,
    n: Seq<char>,
    name: Seq<char>,
    p: V,
)
    requires
        0 <= i < ps.len(),
        ns.len() == ps.len(),
        ps[i].0@ == name,
        ns[i].0@ == name,
        ns[i].1 == p,
        forall|k: int| 0 <= k < ps.len() && k != i ==> ns[k] == ps[k],
        forall|k: int| 0 <= k < i ==> ps[k].0@ != name,
    ensures
        assoc_lookup(ns, n) == (if n == name { Some(p) } else { assoc_lookup(ps, n) }),
    decreases i,
{
    if i == 0 {
        assert(ns.drop_first() =~= ps.drop_first());
    } else {
        assert(ns[0] == ps[0]);
        if ps[0].0@ != n {
            let a = ps.drop_first();
            let b = ns.drop_first();
            assert forall|k: int| 0 <= k < a.len() && k != i - 1 implies b[k] == a[k] by {
                assert(b[k] == ns[k + 1]);
                assert(a[k] == ps[k + 1]);
            }
            lemma_lookup_update(a, b, i - 1, n, name, p);
        }
    }
}

pub proof fn lemma_lookup_push<V>(
    ps: Seq<(String, V)>,
    n: Seq<char>,
    name: Seq<char>,
    p: V,
    ns: Seq<(String, V)>,
)
    requires
        ns.len() == ps.len() + 1,
        forall|k: int| 0 <= k < ps.len() ==> ns[k] == ps[k],
        ns[ps.len() as int].0@ == name,
        ns[ps.len() as int].1 == p,
        forall|k: int| 0 <= k < ps.len() ==> ps[k].0@ != name,
    ensures
        assoc_lookup(ns, n) == (if n == name { Some(p) } else { assoc_lookup(ps, n) }),
    decreases ps.len(),
{
    if ps.len() == 0 {
        assert(ns.drop_first().len() == 0);
        assert(assoc_lookup(ns.drop_first(), n) is None);
    } else {
        assert(ns[0] == ps[0]);
        if ps[0].0@ != n {
            lemma_lookup_push(ps.drop_first(), n, name, p, ns.drop_first());
        }
    }
}

/// Sets the value under `key`, in place when the key is present, else at the end.
pub fn assoc_insert<V>(entries: &mut Vec<(String, V)>, key: String, value: V)
    ensures
        assoc_lookup(final(entries)@, key@) == Some(value),
        forall|n: Seq<char>|
            n != key@ ==> #[trigger] assoc_lookup(final(entries)@, n) == assoc_lookup(
                old(entries)@,
                n,
            ),
        forall|n: Seq<char>|
            assoc_keys(old(entries)@).contains(n) ==> #[trigger] assoc_keys(final(entries)@).contains(n),
{
    let ghost ps = entries@;
    match assoc_find(entries, key.as_str()) {
        Some(i) => {
            let k = entries[i].0.clone();
            entries.set(i, (k, value));
            proof {
                let ns = entries@;
                lemma_lookup_update(ps, ns, i as int, key@, key@, value);
                assert forall|n: Seq<char>| n != key@ implies #[trigger] assoc_lookup(ns, n)
                    == assoc_lookup(ps, n) by {
                    lemma_lookup_update(ps, ns, i as int, n, key@, value);
                }
                assert(assoc_keys(ns) =~= assoc_keys(ps));
            }
        },
        None => {
            entries.push((key, value));
            proof {
                let ns = entries@;
                lemma_lookup_push(ps, key@, key@, value, ns);
                assert forall|n: Seq<char>| n != key@ implies #[trigger] assoc_lookup(ns, n)
                    == assoc_lookup(ps, n) by {
                    lemma_lookup_push(ps, n, key@, value, ns);
                }
                assert forall|n: Seq<char>| assoc_keys(ps).contains(n) implies #[trigger] assoc_keys(
                    ns,
                ).contains(n) by {
                    let j = choose|j: int| 0 <= j < assoc_keys(ps).len() && assoc_keys(ps)[j] == n;
                    assert(assoc_keys(ns)[j] == n);
                }
            }
        },
    }
}

} // verus!
