//! Stable ordering of price-keyed entries: entries flagged `true` first by ascending
//! price, then entries flagged `false` by descending price; ties keep arrival order.

use vstd::prelude::*;

verus! {

/// Whether key `a` goes strictly before key `b`, arrival order aside.
pub open spec fn key_before(a: (bool, i64), b: (bool, i64)) -> bool {
    if a.0 != b.0 {
        a.0
    } else if a.0 {
        a.1 < b.1
    } else {
        a.1 > b.1
    }
}

/// Whether entry `ia` (key `a`) goes before entry `ib` (key `b`): by key, then by arrival.
pub open spec fn entry_before(a: (bool, i64), ia: int, b: (bool, i64), ib: int) -> bool {
    key_before(a, b) || (a == b && ia < ib)
}

/// `idx` lists every index of `keys` once, in the stable order.
pub open spec fn stably_ordered(keys: Seq<(bool, i64)>, idx: Seq<usize>) -> bool {
    &&& idx.len() == keys.len()
    &&& forall|j: int| 0 <= j < idx.len() ==> (#[trigger] idx[j]) < keys.len()
    &&& forall|i: int, j: int|
        0 <= i < j < idx.len() ==> entry_before(
            keys[idx[i] as int],
            idx[i] as int,
            keys[#[trigger] idx[j] as int],
            idx[j] as int,
        ) && #[trigger] idx[i] != idx[j]
}

proof fn lemma_key_order(a: (bool, i64), b: (bool, i64), c: (bool, i64))
    ensures
        key_before(a, b) && key_before(b, c) ==> key_before(a, c),
        !key_before(a, b) && !key_before(b, a) ==> a == b,
        key_before(a, b) ==> !key_before(b, a),
        !key_before(a, b) && key_before(b, c) ==> key_before(a, c) || a == b || key_before(b, a),
{
}

fn key_before_exec(a: (bool, i64), b: (bool, i64)) -> (r: bool)
    ensures
        r == key_before(a, b),
{
    if a.0 != b.0 {
        a.0
    } else if a.0 {
        a.1 < b.1
    } else {
        a.1 > b.1
    }
}

/// The indices of `keys` in the stable order.
pub fn stable_order(keys: &Vec<(bool, i64)>) -> (r: Vec<usize>)
    ensures
        stably_ordered(keys@, r@),
{
    let n = keys.len();
    let mut out: Vec<usize> = Vec::new();
    let mut i: usize = 0;
    while i < n
        invariant
            n == keys@.len(),
            i <= n,
            out@.len() == i,
            forall|j: int| 0 <= j < out@.len() ==> (#[trigger] out@[j]) < i,
            forall|a: int, b: int|
                0 <= a < b < out@.len() ==> entry_before(
                    keys@[out@[a] as int],
                    out@[a] as int,
                    keys@[#[trigger] out@[b] as int],
                    out@[b] as int,
                ) && #[trigger] out@[a] != out@[b],
        decreases n - i,
    {
        let ki = keys[i];
        // first position whose key goes strictly after key i
        let mut p: usize = 0;
        while p < out.len() && !key_before_exec(ki, keys[out[p]])
            invariant
                n == keys@.len(),
                i < n,
                ki == keys@[i as int],
                p <= out@.len(),
                forall|j: int| 0 <= j < out@.len() ==> (#[trigger] out@[j]) < i,
                forall|j: int| 0 <= j < p ==> !key_before(ki, #[trigger] keys@[out@[j] as int]),
            decreases out@.len() - p,
        {
            p = p + 1;
        }
        proof {
            assert forall|j: int| p <= j < out@.len() implies key_before(
                ki,
                #[trigger] keys@[out@[j] as int],
            ) by {
                if j > p {
                    let kp = keys@[out@[p as int] as int];
                    let kj = keys@[out@[j] as int];
                    assert(entry_before(kp, out@[p as int] as int, kj, out@[j] as int));
                    lemma_key_order(ki, kp, kj);
                }
            }
        }
        let ghost old_out = out@;
        out.insert(p, i);
        proof {
            assert forall|a: int, b: int| 0 <= a < b < out@.len() implies entry_before(
                keys@[out@[a] as int],
                out@[a] as int,
                keys@[#[trigger] out@[b] as int],
                out@[b] as int,
            ) && #[trigger] out@[a] != out@[b] by {
                if a < p && b == p {
                    let ka = keys@[old_out[a] as int];
                    lemma_key_order(ka, ki, ki);
                    lemma_key_order(ki, ka, ka);
                } else if a == p && b > p {
                    assert(out@[b] == old_out[b - 1]);
                } else if a < p && b > p {
                    assert(out@[b] == old_out[b - 1]);
                    assert(out@[a] == old_out[a]);
                } else if a > p {
                    assert(out@[a] == old_out[a - 1]);
                    assert(out@[b] == old_out[b - 1]);
                } else {
                    assert(out@[a] == old_out[a]);
                    assert(out@[b] == old_out[b]);
                }
            }
        }
        i = i + 1;
    }
    out
}

/// In the stable order, flagged entries come first with non-decreasing prices, and
/// unflagged entries follow with non-increasing prices.
pub proof fn lemma_stable_order_shape(keys: Seq<(bool, i64)>, idx: Seq<usize>, i: int, j: int)
    requires
        stably_ordered(keys, idx),
        0 <= i < j < idx.len(),
    ensures
        keys[idx[j] as int].0 ==> keys[idx[i] as int].0,
        keys[idx[i] as int].0 && keys[idx[j] as int].0 ==> keys[idx[i] as int].1 <= keys[idx[j] as int].1,
        !keys[idx[i] as int].0 && !keys[idx[j] as int].0 ==> keys[idx[i] as int].1 >= keys[idx[j] as int].1,
{
    assert(entry_before(keys[idx[i] as int], idx[i] as int, keys[idx[j] as int], idx[j] as int));
}

} // verus!
