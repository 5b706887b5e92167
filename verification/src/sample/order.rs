//! Indices in the order of their keys.
use vstd::prelude::*;

verus! {

/// Whether index `a` comes before index `b`: the smaller key first, and the smaller index
/// where the keys are equal.
pub open spec fn comes_before(keys: Seq<i64>, a: int, b: int) -> bool {
    keys[a] < keys[b] || (keys[a] == keys[b] && a < b)
}

/// Whether `keys` are what `key` gives for some values, one by one.
pub open spec fn keys_of<T, K: Fn(T) -> i64>(key: K, values: Seq<T>, keys: Seq<i64>) -> bool {
    &&& keys.len() == values.len()
    &&& forall|i: int| 0 <= i < keys.len() ==> call_ensures(key, (values[i],), #[trigger] keys[i])
}

/// The keys of some values.
pub fn keys_for<T: Copy, K: Fn(T) -> i64>(values: &[T], key: &K) -> (r: Vec<i64>)
    requires
        forall|v: T| call_requires(*key, (v,)),
    ensures
        keys_of(*key, values@, r@),
{
    let mut keys: Vec<i64> = Vec::new();
    let mut i: usize = 0;
    while i < values.len()
        invariant
            i <= values.len(),
            keys.len() == i,
            forall|v: T| call_requires(*key, (v,)),
            forall|j: int| 0 <= j < i ==> call_ensures(*key, (values@[j],), #[trigger] keys@[j]),
        decreases values.len() - i,
    {
        let v: T = values[i];
        keys.push(key(v));
        i += 1;
    }
    keys
}

/// Whether `s` holds each of the indices below `n` once.
pub open spec fn is_permutation(s: Seq<usize>, n: int) -> bool {
    &&& s.len() == n
    &&& forall|i: int| 0 <= i < n ==> (#[trigger] s[i]) < n
    &&& forall|i: int, j: int| #![trigger s[i], s[j]] 0 <= i < j < n ==> s[i] != s[j]
}

/// Whether `s` is in ascending order of keys.
pub open spec fn is_ascending(keys: Seq<i64>, s: Seq<usize>) -> bool {
    forall|i: int, j: int|
        #![trigger s[i], s[j]]
        0 <= i < j < s.len() ==> comes_before(keys, s[i] as int, s[j] as int)
}

/// Every index below `n` stands somewhere in a permutation of them.
pub proof fn lemma_permutation_reaches(s: Seq<usize>, n: int, x: int)
    requires
        is_permutation(s, n),
        0 <= x < n,
    ensures
        exists|p: int| 0 <= p < n && (#[trigger] s[p]) == x,
    decreases n,
{
    let last = s[n - 1];
    if last != x {
        // Take `last` out, and let the highest index take its place.
        let shorter = Seq::new(
            (n - 1) as nat,
            |i: int|
                if s[i] == n - 1 {
                    last
                } else {
                    s[i]
                },
        );
        assert forall|i: int| 0 <= i < n - 1 implies (#[trigger] shorter[i]) < n - 1 by {
            assert(s[i] < n);
            assert(s[i] != s[n - 1]);
        }
        assert forall|i: int, j: int|
            #![trigger shorter[i], shorter[j]]
            0 <= i < j < n - 1 implies shorter[i] != shorter[j] by {
            assert(s[i] != s[j]);
            assert(s[i] != s[n - 1]);
            assert(s[j] != s[n - 1]);
        }
        let y = if x == n - 1 {
            last as int
        } else {
            x
        };
        lemma_permutation_reaches(shorter, n - 1, y);
        let p = choose|p: int| 0 <= p < n - 1 && (#[trigger] shorter[p]) == y;
        if x == n - 1 {
            assert(s[p] == n - 1) by {
                if s[p] != n - 1 {
                    assert(s[p] == last);
                    assert(s[p] != s[n - 1]);
                }
            }
        } else {
            assert(s[p] == x) by {
                if s[p] == n - 1 {
                    assert(last == x);
                }
            }
        }
    }
}

/// There is one ascending permutation.
pub proof fn ascending_order_is_one(keys: Seq<i64>, s: Seq<usize>, t: Seq<usize>)
    requires
        is_permutation(s, keys.len() as int),
        is_permutation(t, keys.len() as int),
        is_ascending(keys, s),
        is_ascending(keys, t),
    ensures
        s == t,
{
    let n = keys.len() as int;
    assert forall|k: int| 0 <= k < n implies s[k] == t[k] by {
        lemma_same_at(keys, s, t, k);
    }
    assert(s =~= t);
}

proof fn lemma_same_at(keys: Seq<i64>, s: Seq<usize>, t: Seq<usize>, k: int)
    requires
        is_permutation(s, keys.len() as int),
        is_permutation(t, keys.len() as int),
        is_ascending(keys, s),
        is_ascending(keys, t),
        0 <= k < keys.len(),
    ensures
        s[k] == t[k],
    decreases k,
{
    let n = keys.len() as int;
    assert forall|j: int| 0 <= j < k implies s[j] == t[j] by {
        lemma_same_at(keys, s, t, j);
    }
    if s[k] != t[k] {
        lemma_permutation_reaches(s, n, t[k] as int);
        let a = choose|p: int| 0 <= p < n && (#[trigger] s[p]) == t[k];
        lemma_permutation_reaches(t, n, s[k] as int);
        let b = choose|p: int| 0 <= p < n && (#[trigger] t[p]) == s[k];
        if a < k {
            assert(t[a] == t[k]);
            assert(t[a] != t[k]);
        }
        if b < k {
            assert(s[b] == s[k]);
            assert(s[b] != s[k]);
        }
        assert(a > k && b > k);
        assert(comes_before(keys, s[k] as int, s[a] as int));
        assert(comes_before(keys, t[k] as int, t[b] as int));
    }
}

// ---------------------------------------------------------------------------
// sorting
// ---------------------------------------------------------------------------
/// Whether all of the indices are from `from` up to `to`.
spec fn in_range(s: Seq<usize>, from: usize, to: usize) -> bool {
    forall|i: int| 0 <= i < s.len() ==> from <= (#[trigger] s[i]) < to
}

/// Merges two ascending runs of indices from `from` up to `to`.
fn merge(keys: &[i64], a: &Vec<usize>, b: &Vec<usize>, from: usize, to: usize) -> (r: Vec<usize>)
    requires
        to <= keys.len(),
        in_range(a@, from, to),
        in_range(b@, from, to),
        is_ascending(keys@, a@),
        is_ascending(keys@, b@),
        forall|i: int, j: int|
            #![trigger a[i], b[j]]
            0 <= i < a.len() && 0 <= j < b.len() ==> a[i] != b[j],
    ensures
        is_ascending(keys@, r@),
        in_range(r@, from, to),
        r.len() == a.len() + b.len(),
{
    let mut out: Vec<usize> = Vec::new();
    let mut i: usize = 0;
    let mut j: usize = 0;
    while i < a.len() || j < b.len()
        invariant
            i <= a.len(),
            j <= b.len(),
            out.len() == i + j,
            to <= keys.len(),
            in_range(a@, from, to),
            in_range(b@, from, to),
            in_range(out@, from, to),
            is_ascending(keys@, a@),
            is_ascending(keys@, b@),
            forall|k: int, l: int|
                #![trigger a[k], b[l]]
                0 <= k < a.len() && 0 <= l < b.len() ==> a[k] != b[l],
            is_ascending(keys@, out@),
            forall|p: int, k: int|
                #![trigger out@[p], a@[k]]
                0 <= p < out.len() && i <= k < a.len() ==> comes_before(
                    keys@,
                    out@[p] as int,
                    a@[k] as int,
                ),
            forall|p: int, k: int|
                #![trigger out@[p], b@[k]]
                0 <= p < out.len() && j <= k < b.len() ==> comes_before(
                    keys@,
                    out@[p] as int,
                    b@[k] as int,
                ),
        decreases a.len() - i + b.len() - j,
    {
        let ghost before = out@;
        let left: bool = if i == a.len() {
            false
        } else if j == b.len() {
            true
        } else {
            let x: i64 = keys[a[i]];
            let y: i64 = keys[b[j]];
            x < y || (x == y && a[i] < b[j])
        };
        if left {
            let next: usize = a[i];
            out.push(next);
            proof {
                assert forall|p: int, k: int|
                    #![trigger out@[p], b@[k]]
                    0 <= p < out.len() && j <= k < b.len() implies comes_before(
                    keys@,
                    out@[p] as int,
                    b@[k] as int,
                ) by {
                    if p == out.len() - 1 {
                        assert(out@[p] == next);
                        assert(comes_before(keys@, next as int, b@[j as int] as int)) by {
                            assert(a[i as int] != b[j as int]);
                        }
                        if k > j {
                            assert(comes_before(keys@, b@[j as int] as int, b@[k] as int));
                        }
                    } else {
                        assert(out@[p] == before[p]);
                    }
                }
                assert forall|p: int, k: int|
                    #![trigger out@[p], a@[k]]
                    0 <= p < out.len() && i + 1 <= k < a.len() implies comes_before(
                    keys@,
                    out@[p] as int,
                    a@[k] as int,
                ) by {
                    if p == out.len() - 1 {
                        assert(out@[p] == a@[i as int]);
                    } else {
                        assert(out@[p] == before[p]);
                    }
                }
                assert forall|p: int, q: int|
                    #![trigger out@[p], out@[q]]
                    0 <= p < q < out.len() implies comes_before(
                    keys@,
                    out@[p] as int,
                    out@[q] as int,
                ) by {
                    assert(out@[p] == before[p]);
                    if q == out.len() - 1 {
                        assert(out@[q] == a@[i as int]);
                    } else {
                        assert(out@[q] == before[q]);
                    }
                }
            }
            i += 1;
        } else {
            let next: usize = b[j];
            out.push(next);
            proof {
                assert forall|p: int, k: int|
                    #![trigger out@[p], a@[k]]
                    0 <= p < out.len() && i <= k < a.len() implies comes_before(
                    keys@,
                    out@[p] as int,
                    a@[k] as int,
                ) by {
                    if p == out.len() - 1 {
                        assert(out@[p] == next);
                        assert(comes_before(keys@, next as int, a@[i as int] as int)) by {
                            assert(a[i as int] != b[j as int]);
                        }
                        if k > i {
                            assert(comes_before(keys@, a@[i as int] as int, a@[k] as int));
                        }
                    } else {
                        assert(out@[p] == before[p]);
                    }
                }
                assert forall|p: int, k: int|
                    #![trigger out@[p], b@[k]]
                    0 <= p < out.len() && j + 1 <= k < b.len() implies comes_before(
                    keys@,
                    out@[p] as int,
                    b@[k] as int,
                ) by {
                    if p == out.len() - 1 {
                        assert(out@[p] == b@[j as int]);
                    } else {
                        assert(out@[p] == before[p]);
                    }
                }
                assert forall|p: int, q: int|
                    #![trigger out@[p], out@[q]]
                    0 <= p < q < out.len() implies comes_before(
                    keys@,
                    out@[p] as int,
                    out@[q] as int,
                ) by {
                    assert(out@[p] == before[p]);
                    if q == out.len() - 1 {
                        assert(out@[q] == b@[j as int]);
                    } else {
                        assert(out@[q] == before[q]);
                    }
                }
            }
            j += 1;
        }
    }
    out
}

/// The indices from `from` up to `to`, in ascending order of keys.
fn sorted_range(keys: &[i64], from: usize, to: usize) -> (r: Vec<usize>)
    requires
        from <= to <= keys.len(),
    ensures
        r.len() == to - from,
        is_ascending(keys@, r@),
        in_range(r@, from, to),
    decreases to - from,
{
    let mut out: Vec<usize> = Vec::new();
    if to - from == 0 {
        return out;
    }
    if to - from == 1 {
        out.push(from);
        return out;
    }
    let mid: usize = from + (to - from) / 2;
    let a = sorted_range(keys, from, mid);
    let b = sorted_range(keys, mid, to);
    merge(keys, &a, &b, from, to)
}

/// The indices of `keys` in ascending order of keys; equal keys stay in ascending order of
/// index.
pub fn ascending_order(keys: &[i64]) -> (r: Vec<usize>)
    ensures
        is_permutation(r@, keys.len() as int),
        is_ascending(keys@, r@),
{
    let r = sorted_range(keys, 0, keys.len());
    assert forall|i: int, j: int| #![trigger r@[i], r@[j]] 0 <= i < j < r.len() implies r@[i]
        != r@[j] by {
        assert(comes_before(keys@, r@[i] as int, r@[j] as int));
    }
    r
}

/// The indices of `keys` in descending order of keys; equal keys stay in ascending order of
/// index.
pub fn descending_order(keys: &[i64]) -> (r: Vec<usize>)
    requires
        forall|i: int| 0 <= i < keys.len() ==> (#[trigger] keys[i]) > i64::MIN,
    ensures
        is_permutation(r@, keys.len() as int),
        forall|i: int, j: int|
            #![trigger r@[i], r@[j]]
            0 <= i < j < r.len() ==> keys[r@[i] as int] > keys[r@[j] as int] || (
            keys[r@[i] as int] == keys[r@[j] as int] && r@[i] < r@[j]),
{
    let mut turned: Vec<i64> = Vec::new();
    let mut i: usize = 0;
    while i < keys.len()
        invariant
            i <= keys.len(),
            turned.len() == i,
            forall|k: int| 0 <= k < keys.len() ==> (#[trigger] keys[k]) > i64::MIN,
            forall|k: int| 0 <= k < i ==> #[trigger] turned[k] == -keys[k],
        decreases keys.len() - i,
    {
        turned.push(-keys[i]);
        i += 1;
    }
    let r = ascending_order(turned.as_slice());
    assert forall|i: int, j: int|
        #![trigger r@[i], r@[j]]
        0 <= i < j < r.len() implies keys[r@[i] as int] > keys[r@[j] as int] || (keys[r@[i] as int]
        == keys[r@[j] as int] && r@[i] < r@[j]) by {
        assert(comes_before(turned@, r@[i] as int, r@[j] as int));
        assert(turned[r@[i] as int] == -keys[r@[i] as int]);
        assert(turned[r@[j] as int] == -keys[r@[j] as int]);
    }
    r
}

} // verus!
