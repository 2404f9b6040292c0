//! Display ordering.
//!
//! The store keeps categories and items in insertion order and never relies
//! on it for the interface; every listing shown to the user is sorted by
//! timestamp, newest first, through the permutations built here.

use vstd::prelude::*;

verus! {

/// The positions `0..keys.len()` ordered so that their keys never increase:
/// a permutation that lists the newest timestamp first.  Ties keep the
/// earlier position first.
pub fn indices_by_key_desc(keys: &Vec<i64>) -> (r: Vec<usize>)
    ensures
        r@.len() == keys@.len(),
        forall|i: int| 0 <= i < r@.len() ==> (#[trigger] r@[i]) < keys@.len(),
        forall|i: int, j: int| 0 <= i < j < r@.len() ==> r@[i] != r@[j],
        forall|i: int, j: int|
            0 <= i < j < r@.len() ==> keys@[r@[i] as int] >= keys@[r@[j] as int],
        forall|i: int, j: int|
            0 <= i < j < r@.len() && keys@[r@[i] as int] == keys@[r@[j] as int] ==> r@[i] < r@[j],
        forall|k: usize| k < keys@.len() ==> r@.contains(k),
{
    let n = keys.len();
    let mut r: Vec<usize> = Vec::new();
    let mut idx: usize = 0;
    while idx < n
        invariant
            idx <= n,
            n == keys@.len(),
            r@.len() == idx,
            forall|i: int| 0 <= i < r@.len() ==> (#[trigger] r@[i]) < idx,
            forall|i: int, j: int| 0 <= i < j < r@.len() ==> r@[i] != r@[j],
            forall|i: int, j: int|
                0 <= i < j < r@.len() ==> keys@[r@[i] as int] >= keys@[r@[j] as int],
            forall|i: int, j: int|
                0 <= i < j < r@.len() && keys@[r@[i] as int] == keys@[r@[j] as int] ==> r@[i]
                    < r@[j],
            forall|k: usize| k < idx ==> r@.contains(k),
        decreases n - idx,
    {
        let ghost pre = r@;
        let mut p: usize = 0;
        while p < r.len() && keys[r[p]] >= keys[idx]
            invariant
                p <= r@.len(),
                r@ == pre,
                n == keys@.len(),
                idx < n,
                forall|i: int| 0 <= i < r@.len() ==> (#[trigger] r@[i]) < idx,
                forall|q: int| 0 <= q < p ==> keys@[(#[trigger] r@[q]) as int] >= keys@[idx as int],
            decreases r@.len() - p,
        {
            p += 1;
        }
        r.insert(p, idx);
        proof {
            assert(r@ == pre.insert(p as int, idx));
            assert forall|i: int, j: int| 0 <= i < j < r@.len() implies keys@[(
            #[trigger] r@[i]) as int] >= keys@[(#[trigger] r@[j]) as int] by {
                if i == p as int {
                    if (p as int) < j {
                        assert(r@[j] == pre[j - 1]);
                        if p < pre.len() {
                            assert(keys@[pre[p as int] as int] < keys@[idx as int]);
                            if j - 1 > p as int {
                                assert(keys@[pre[p as int] as int] >= keys@[pre[j - 1] as int]);
                            }
                        }
                    }
                } else if j == p as int {
                    assert(r@[i] == pre[i]);
                    assert(keys@[pre[i] as int] >= keys@[idx as int]);
                } else {
                    let i0 = if i < p as int { i } else { i - 1 };
                    let j0 = if j < p as int { j } else { j - 1 };
                    assert(r@[i] == pre[i0]);
                    assert(r@[j] == pre[j0]);
                    if i0 < j0 {
                        assert(keys@[pre[i0] as int] >= keys@[pre[j0] as int]);
                    }
                }
            }
            assert forall|i: int, j: int|
                0 <= i < j < r@.len() && keys@[(#[trigger] r@[i]) as int] == keys@[(
                #[trigger] r@[j]) as int] implies r@[i] < r@[j] by {
                if i != p as int && j != p as int {
                    let i0 = if i < p as int { i } else { i - 1 };
                    let j0 = if j < p as int { j } else { j - 1 };
                    assert(r@[i] == pre[i0]);
                    assert(r@[j] == pre[j0]);
                } else if j == p as int {
                    assert(r@[i] == pre[i]);
                    assert(pre[i] < idx);
                } else {
                    assert(r@[j] == pre[j - 1]);
                    assert(j - 1 >= p as int && p < pre.len());
                    assert(keys@[pre[p as int] as int] < keys@[idx as int]);
                    if j - 1 > p as int {
                        assert(keys@[pre[p as int] as int] >= keys@[pre[j - 1] as int]);
                    }
                }
            }
            assert forall|i: int, j: int| 0 <= i < j < r@.len() implies (#[trigger] r@[i]) != (
            #[trigger] r@[j]) by {
                if i != p as int && j != p as int {
                    let i0 = if i < p as int { i } else { i - 1 };
                    let j0 = if j < p as int { j } else { j - 1 };
                    assert(r@[i] == pre[i0]);
                    assert(r@[j] == pre[j0]);
                } else if i == p as int {
                    assert(r@[j] == pre[j - 1]);
                    assert(pre[j - 1] < idx);
                } else {
                    assert(r@[i] == pre[i]);
                    assert(pre[i] < idx);
                }
            }
            assert forall|k: usize| k < idx + 1 implies r@.contains(k) by {
                if k < idx {
                    assert(pre.contains(k));
                    let w = choose|w: int| 0 <= w < pre.len() && pre[w] == k;
                    assert(0 <= w < pre.len() && pre[w] == k);
                    if w < p as int {
                        assert(r@[w] == k);
                    } else {
                        assert(r@[w + 1] == k);
                    }
                } else {
                    assert(r@[p as int] == k);
                }
            }
        }
        idx += 1;
    }
    r
}

} // verus!
