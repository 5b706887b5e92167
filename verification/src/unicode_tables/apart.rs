//! When tables have nothing in common.
//!
//! Rows that follow one another in one table and lie between two neighbouring rows of another
//! are checked together.
pub mod categories;
pub mod compositions;
pub mod pairs;
pub mod singletons;

use super::order;
use vstd::prelude::*;

verus! {

// ---------------------------------------------------------------------------
// ranges
// ---------------------------------------------------------------------------
/// Whether the ranges are ascending and disjoint.
#[verifier::opaque]
pub open spec fn are_in_order(s: Seq<(u32, u32)>) -> bool {
    order::sorted_ranges(s)
}

/// Whether the first `n` ranges of `s` meet no range of `t`.
#[verifier::opaque]
pub open spec fn ranges_apart(s: Seq<(u32, u32)>, t: Seq<(u32, u32)>, n: int) -> bool {
    forall|i: int, j: int|
        #![trigger s[i], t[j]]
        0 <= i < n && 0 <= j < t.len() ==> s[i].1 < t[j].0 || t[j].1 < s[i].0
}

/// No ranges meet none.
pub proof fn lemma_ranges_start(s: Seq<(u32, u32)>, t: Seq<(u32, u32)>)
    ensures
        ranges_apart(s, t, 0),
{
    reveal(ranges_apart);
}

/// Ranges that lie before range `k` and behind the one in front of it meet none.
pub proof fn lemma_ranges_run(s: Seq<(u32, u32)>, t: Seq<(u32, u32)>, n: int, upto: int, k: int)
    requires
        are_in_order(s),
        are_in_order(t),
        ranges_apart(s, t, n),
        0 <= n < upto <= s.len(),
        0 <= k <= t.len(),
        k > 0 ==> t[k - 1].1 < s[n].0,
        k < t.len() ==> s[upto - 1].1 < t[k].0,
    ensures
        ranges_apart(s, t, upto),
{
    reveal(ranges_apart);
    reveal(are_in_order);
    assert forall|i: int, j: int|
        #![trigger s[i], t[j]]
        0 <= i < upto && 0 <= j < t.len() implies s[i].1 < t[j].0 || t[j].1 < s[i].0 by {
        if i >= n {
            assert(s[n].0 <= s[n].1 && s[i].0 <= s[i].1);
            if n < i {
                assert(s[n].1 < s[i].0);
            }
            if i < upto - 1 {
                assert(s[i].1 < s[upto - 1].0);
                assert(s[upto - 1].0 <= s[upto - 1].1);
            }
            if j < k - 1 {
                assert(t[j].1 < t[k - 1].0);
                assert(t[k - 1].0 <= t[k - 1].1);
            } else if j > k {
                assert(t[k].1 < t[j].0);
                assert(t[k].0 <= t[k].1);
            }
        }
    }
}

// ---------------------------------------------------------------------------
// keys
// ---------------------------------------------------------------------------
/// Whether keys ascend.
#[verifier::opaque]
pub open spec fn keys_in_order(keys: Seq<int>) -> bool {
    order::ascending(keys)
}

/// Whether a code point is one of the tone marks that decompose though they are no starters,
/// or lies among them.
pub open spec fn tone_mark(c: int) -> bool {
    0x340 <= c <= 0x344
}

/// Whether the first `n` of some keys are not among others, the tone marks aside.
#[verifier::opaque]
pub open spec fn keys_apart(a: Seq<int>, b: Seq<int>, n: int) -> bool {
    forall|i: int| 0 <= i < n ==> tone_mark(#[trigger] a[i]) || !b.contains(a[i])
}

pub proof fn lemma_keys_start(a: Seq<int>, b: Seq<int>)
    ensures
        keys_apart(a, b, 0),
{
    reveal(keys_apart);
}

/// Keys that lie before key `k` and behind the one in front of it are not among them.
pub proof fn lemma_keys_run(a: Seq<int>, b: Seq<int>, n: int, upto: int, k: int)
    requires
        keys_in_order(a),
        keys_in_order(b),
        keys_apart(a, b, n),
        0 <= n < upto <= a.len(),
        0 <= k <= b.len(),
        k > 0 ==> b[k - 1] < a[n],
        k < b.len() ==> a[upto - 1] < b[k],
    ensures
        keys_apart(a, b, upto),
{
    reveal(keys_apart);
    reveal(keys_in_order);
    assert forall|i: int| 0 <= i < upto implies tone_mark(#[trigger] a[i]) || !b.contains(a[i]) by {
        if i >= n && b.contains(a[i]) {
            let j = choose|j: int| 0 <= j < b.len() && b[j] == a[i];
            if n < i {
                assert(a[n] < a[i]);
            }
            if i < upto - 1 {
                assert(a[i] < a[upto - 1]);
            }
            if j < k - 1 {
                assert(b[j] < b[k - 1]);
            } else if j > k {
                assert(b[k] < b[j]);
            }
        }
    }
}

/// The same of the keys of rows.
pub proof fn lemma_pairs_run(s: Seq<(u32, u32)>, t: Seq<(u32, u32, u32)>, n: int, upto: int, k: int)
    requires
        keys_in_order(order::pair_keys(s)),
        keys_in_order(order::triple_keys(t)),
        keys_apart(order::pair_keys(s), order::triple_keys(t), n),
        0 <= n < upto <= s.len(),
        0 <= k <= t.len(),
        k > 0 ==> t[k - 1].0 < s[n].0,
        k < t.len() ==> s[upto - 1].0 < t[k].0,
    ensures
        keys_apart(order::pair_keys(s), order::triple_keys(t), upto),
{
    lemma_keys_run(order::pair_keys(s), order::triple_keys(t), n, upto, k);
}

/// The same of the keys of rows.
pub proof fn lemma_singletons_run(s: Seq<(u32, u32)>, t: Seq<(u32, u32)>, n: int, upto: int, k: int)
    requires
        keys_in_order(order::pair_keys(s)),
        keys_in_order(order::pair_keys(t)),
        keys_apart(order::pair_keys(s), order::pair_keys(t), n),
        0 <= n < upto <= s.len(),
        0 <= k <= t.len(),
        k > 0 ==> t[k - 1].0 < s[n].0,
        k < t.len() ==> s[upto - 1].0 < t[k].0,
    ensures
        keys_apart(order::pair_keys(s), order::pair_keys(t), upto),
{
    lemma_keys_run(order::pair_keys(s), order::pair_keys(t), n, upto, k);
}

/// The tone marks need not be apart.
pub proof fn lemma_keys_aside(s: Seq<(u32, u32)>, b: Seq<int>, n: int, upto: int)
    requires
        keys_in_order(order::pair_keys(s)),
        keys_apart(order::pair_keys(s), b, n),
        0 <= n < upto <= s.len(),
        tone_mark(s[n].0 as int),
        tone_mark(s[upto - 1].0 as int),
    ensures
        keys_apart(order::pair_keys(s), b, upto),
{
    let a = order::pair_keys(s);
    reveal(keys_apart);
    reveal(keys_in_order);
    assert forall|i: int| 0 <= i < upto implies tone_mark(#[trigger] a[i]) || !b.contains(a[i]) by {
        if n < i < upto - 1 {
            assert(a[n] < a[i] < a[upto - 1]);
        }
    }
}

// ---------------------------------------------------------------------------
// the first of two
// ---------------------------------------------------------------------------
/// Whether the first code point of each of the first `n` pairs is not among the keys of `s`.
#[verifier::opaque]
pub open spec fn firsts_apart(t: Seq<(u64, u32)>, s: Seq<(u32, u32)>, n: int) -> bool {
    forall|i: int, j: int|
        #![trigger t[i], s[j]]
        0 <= i < n && 0 <= j < s.len() ==> t[i].0 as int / 0x20_0000 != s[j].0
}

pub proof fn lemma_firsts_start(t: Seq<(u64, u32)>, s: Seq<(u32, u32)>)
    ensures
        firsts_apart(t, s, 0),
{
    reveal(firsts_apart);
}

/// Pairs whose first lies before key `k` and behind the one in front of it.
pub proof fn lemma_firsts_run(t: Seq<(u64, u32)>, s: Seq<(u32, u32)>, n: int, upto: int, k: int)
    requires
        keys_in_order(order::wide_keys(t)),
        keys_in_order(order::pair_keys(s)),
        firsts_apart(t, s, n),
        0 <= n < upto <= t.len(),
        0 <= k <= s.len(),
        k > 0 ==> s[k - 1].0 * 0x20_0000 + 0x20_0000 <= t[n].0,
        k < s.len() ==> t[upto - 1].0 < s[k].0 * 0x20_0000,
    ensures
        firsts_apart(t, s, upto),
{
    reveal(firsts_apart);
    reveal(keys_in_order);
    let a = order::wide_keys(t);
    let b = order::pair_keys(s);
    assert forall|i: int, j: int|
        #![trigger t[i], s[j]]
        0 <= i < upto && 0 <= j < s.len() implies t[i].0 as int / 0x20_0000 != s[j].0 by {
        if i >= n {
            if n < i {
                assert(a[n] < a[i]);
            }
            if i < upto - 1 {
                assert(a[i] < a[upto - 1]);
            }
            if j < k - 1 {
                assert(b[j] < b[k - 1]);
            } else if j > k {
                assert(b[k] < b[j]);
            }
        }
    }
}

} // verus!
