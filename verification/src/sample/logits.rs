//! The filters on the logits themselves, and the draw from what they leave.
//!
//! The arithmetic on single values is handed in, and so is `softmax`; which values each filter
//! changes, which it leaves alone and which it masks is decided here.
use super::filters;
use super::filters::{
    first_largest, kept_by_min_p, kept_by_top_p, kept_by_typical_p, kth_largest, selected_token,
};
use super::order;
use super::order::{ascending_order, keys_for};
use super::penalties;
use super::penalties::{banned_tokens, token_counts};
use vstd::prelude::*;

verus! {

// ---------------------------------------------------------------------------
// penalties
// ---------------------------------------------------------------------------
/// Whether a token has appeared.
pub open spec fn appeared(history: Seq<u32>, i: int) -> bool {
    exists|k: int| 0 <= k < history.len() && (#[trigger] history[k]) == i
}

/// Whether `after` is `before` with each token that has appeared changed **once**, given how
/// often it did, and every other one as it was.
pub open spec fn changes_appeared<T, F: Fn(T, usize) -> T>(
    change: F,
    history: Seq<u32>,
    before: Seq<T>,
    after: Seq<T>,
) -> bool {
    &&& after.len() == before.len()
    &&& forall|i: int|
        0 <= i < before.len() ==> if appeared(history, i) {
            call_ensures(
                change,
                (before[i], penalties::occurrences(history, i as usize) as usize),
                #[trigger] after[i],
            )
        } else {
            after[i] == before[i]
        }
}

/// Changes each token that has appeared once.
fn change_appeared<T: Copy, F: Fn(T, usize) -> T>(
    logits: &mut Vec<T>,
    history: &[u32],
    change: F,
)
    requires
        forall|v: T, n: usize| call_requires(change, (v, n)),
    ensures
        changes_appeared(change, history@, old(logits)@, final(logits)@),
{
    let ghost before = logits@;
    let tokens = token_counts(history, logits.len());
    let ghost seen = penalties::distinct(history@, before.len() as int);
    proof {
        assert(tokens.len() == seen.len());
        assert forall|k: int| 0 <= k < tokens.len() implies (#[trigger] tokens@[k]).0 == seen[k] by {
        }
        penalties::distinct_tokens_are_those_that_appeared(history@, before.len() as int, 0);
    }
    let mut k: usize = 0;
    while k < tokens.len()
        invariant
            k <= tokens.len(),
            before == old(logits)@,
            logits.len() == before.len(),
            seen == penalties::distinct(history@, before.len() as int),
            seen.no_duplicates(),
            tokens.len() == seen.len(),
            forall|j: int| 0 <= j < tokens.len() ==> (#[trigger] tokens@[j]).0 == seen[j],
            forall|j: int|
                0 <= j < tokens.len() ==> (#[trigger] tokens@[j]).1 == penalties::occurrences(
                    history@,
                    tokens@[j].0,
                ),
            forall|v: T, n: usize| call_requires(change, (v, n)),
            forall|j: int|
                0 <= j < k ==> call_ensures(
                    change,
                    (before[seen[j] as int], penalties::occurrences(history@, seen[j]) as usize),
                    logits@[(#[trigger] seen[j]) as int],
                ),
            forall|i: int|
                0 <= i < before.len() && !seen.take(k as int).contains(i as usize)
                    ==> #[trigger] logits@[i] == before[i],
        decreases tokens.len() - k,
    {
        let (i, n) = tokens[k];
        let ghost now = logits@;
        proof {
            assert(tokens@[k as int].0 == seen[k as int]);
            assert(seen.contains(i));
            penalties::distinct_tokens_are_those_that_appeared(
                history@,
                before.len() as int,
                i,
            );
            assert(!seen.take(k as int).contains(i)) by {
                if seen.take(k as int).contains(i) {
                    let j = choose|j: int| 0 <= j < k && seen.take(k as int)[j] == i;
                    assert(seen[j] == seen[k as int]);
                }
            }
        }
        let v: T = logits[i];
        let y: T = change(v, n);
        logits.set(i, y);
        proof {
            assert forall|j: int| 0 <= j < k + 1 implies call_ensures(
                change,
                (before[seen[j] as int], penalties::occurrences(history@, seen[j]) as usize),
                logits@[(#[trigger] seen[j]) as int],
            ) by {
                if j < k {
                    assert(seen[j] != seen[k as int]);
                    assert(seen.contains(seen[j]));
                    penalties::distinct_tokens_are_those_that_appeared(
                        history@,
                        before.len() as int,
                        seen[j],
                    );
                }
            }
            assert forall|m: int|
                0 <= m < before.len() && !seen.take(k + 1).contains(
                    m as usize,
                ) implies #[trigger] logits@[m] == before[m] by {
                assert(seen.take(k + 1)[k as int] == i);
                assert(m != i);
                if seen.take(k as int).contains(m as usize) {
                    let j = choose|j: int| 0 <= j < k && seen.take(k as int)[j] == m as usize;
                    assert(seen.take(k + 1)[j] == m as usize);
                }
                assert(now[m] == before[m]);
            }
        }
        k += 1;
    }
    proof {
        assert(seen.take(k as int) =~= seen);
        assert forall|i: int| 0 <= i < before.len() implies if appeared(history@, i) {
            call_ensures(
                change,
                (before[i], penalties::occurrences(history@, i as usize) as usize),
                #[trigger] logits@[i],
            )
        } else {
            logits@[i] == before[i]
        } by {
            penalties::distinct_tokens_are_those_that_appeared(
                history@,
                before.len() as int,
                i as usize,
            );
            if appeared(history@, i) {
                let h = choose|h: int| 0 <= h < history.len() && (#[trigger] history@[h]) == i;
                assert(history@[h] == i as usize);
                assert(seen.contains(i as usize));
                let j = choose|j: int| 0 <= j < seen.len() && seen[j] == i as usize;
                assert(seen[j] as int == i);
            } else {
                if seen.contains(i as usize) {
                    let h = choose|h: int|
                        0 <= h < history.len() && (#[trigger] history@[h]) == i as usize;
                    assert(history@[h] == i);
                }
            }
        }
    }
}

/// What the repetition penalty makes of a score: `score < 0 ? score * penalty : score /
/// penalty`, and a masked one stays masked.
pub open spec fn repetition_makes<
    T,
    X,
    P: Fn(T) -> bool,
    Q: Fn(T) -> bool,
    F: Fn(T, X) -> T,
    G: Fn(T, X) -> T,
>(penalty: X, is_filtered: &P, is_negative: &Q, times: &F, over: &G, v: T, y: T) -> bool {
    ||| call_ensures(*is_filtered, (v,), true) && y == v
    ||| {
        &&& call_ensures(*is_filtered, (v,), false)
        &&& {
            ||| call_ensures(*is_negative, (v,), true) && call_ensures(*times, (v, penalty), y)
            ||| call_ensures(*is_negative, (v,), false) && call_ensures(*over, (v, penalty), y)
        }
    }
}

/// Whether `after` is `before` with the repetition penalty on each token that has appeared,
/// **once** for each.
pub open spec fn repetition_penalised<
    T,
    X,
    P: Fn(T) -> bool,
    Q: Fn(T) -> bool,
    F: Fn(T, X) -> T,
    G: Fn(T, X) -> T,
>(
    history: Seq<u32>,
    penalty: X,
    is_filtered: P,
    is_negative: Q,
    times: F,
    over: G,
    before: Seq<T>,
    after: Seq<T>,
) -> bool {
    &&& after.len() == before.len()
    &&& forall|i: int|
        0 <= i < before.len() ==> if appeared(history, i) {
            repetition_makes(
                penalty,
                &is_filtered,
                &is_negative,
                &times,
                &over,
                before[i],
                #[trigger] after[i],
            )
        } else {
            after[i] == before[i]
        }
}

/// `score < 0 ? score * penalty : score / penalty`, **once per distinct token**.
///
/// Penalising per occurrence is the obvious reading of "repetition penalty" and gives a
/// completely different distribution: `1.5^5 = 7.6x` instead of `1.5x` on a token seen five
/// times, which is the difference between a nudge and a ban. Ids past the logits are ignored.
pub fn repetition_penalty<
    T: Copy,
    X: Copy,
    P: Fn(T) -> bool,
    Q: Fn(T) -> bool,
    F: Fn(T, X) -> T,
    G: Fn(T, X) -> T,
>(
    logits: &mut Vec<T>,
    history: &[u32],
    penalty: X,
    is_filtered: &P,
    is_negative: &Q,
    times: &F,
    over: &G,
)
    requires
        forall|v: T| call_requires(*is_filtered, (v,)),
        forall|v: T| call_requires(*is_negative, (v,)),
        forall|v: T, x: X| call_requires(*times, (v, x)),
        forall|v: T, x: X| call_requires(*over, (v, x)),
    ensures
        repetition_penalised(
            history@,
            penalty,
            *is_filtered,
            *is_negative,
            *times,
            *over,
            old(logits)@,
            final(logits)@,
        ),
{
    let change = |v: T, n: usize| -> (y: T)
        ensures
            repetition_makes(penalty, is_filtered, is_negative, times, over, v, y),
        {
            let masked: bool = is_filtered(v);
            if masked {
                v
            } else {
                let negative: bool = is_negative(v);
                if negative {
                    times(v, penalty)
                } else {
                    over(v, penalty)
                }
            }
        };
    change_appeared(logits, history, change);
}

/// What a penalty that is taken off makes of a score: a masked one stays masked.
pub open spec fn subtraction_makes<T, X, P: Fn(T) -> bool, F: Fn(T, X, usize) -> T>(
    penalty: X,
    is_filtered: &P,
    minus: &F,
    v: T,
    n: usize,
    y: T,
) -> bool {
    ||| call_ensures(*is_filtered, (v,), true) && y == v
    ||| call_ensures(*is_filtered, (v,), false) && call_ensures(*minus, (v, penalty, n), y)
}

/// Whether `after` is `before` with a penalty taken off each token that has appeared; `times`
/// says how often for one that appeared that many times.
pub open spec fn penalty_subtracted<T, X, P: Fn(T) -> bool, F: Fn(T, X, usize) -> T>(
    history: Seq<u32>,
    penalty: X,
    is_filtered: P,
    minus: F,
    times: spec_fn(nat) -> nat,
    before: Seq<T>,
    after: Seq<T>,
) -> bool {
    &&& after.len() == before.len()
    &&& forall|i: int|
        0 <= i < before.len() ==> if appeared(history, i) {
            subtraction_makes(
                penalty,
                &is_filtered,
                &minus,
                before[i],
                times(penalties::occurrences(history, i as usize)) as usize,
                #[trigger] after[i],
            )
        } else {
            after[i] == before[i]
        }
}

/// Taken off once, however often a token appeared.
pub open spec fn once() -> spec_fn(nat) -> nat {
    |n: nat| 1nat
}

/// Taken off as often as a token appeared.
pub open spec fn each_time() -> spec_fn(nat) -> nat {
    |n: nat| n
}

/// `logit -= penalty` for every token that has appeared, **once** regardless of how many times
/// it did. `minus` takes the penalty off a score as many times as it is told.
pub fn presence_penalty<T: Copy, X: Copy, P: Fn(T) -> bool, F: Fn(T, X, usize) -> T>(
    logits: &mut Vec<T>,
    history: &[u32],
    penalty: X,
    is_filtered: &P,
    minus: &F,
)
    requires
        forall|v: T| call_requires(*is_filtered, (v,)),
        forall|v: T, x: X, n: usize| call_requires(*minus, (v, x, n)),
    ensures
        penalty_subtracted(
            history@,
            penalty,
            *is_filtered,
            *minus,
            once(),
            old(logits)@,
            final(logits)@,
        ),
{
    let change = |v: T, n: usize| -> (y: T)
        ensures
            subtraction_makes(penalty, is_filtered, minus, v, 1, y),
        {
            if is_filtered(v) {
                v
            } else {
                minus(v, penalty, 1)
            }
        };
    change_appeared(logits, history, change);
}

/// `logit -= penalty * count` for every token that has appeared. Unlike the repetition
/// penalty this one *is* per occurrence, which is the whole difference between the two.
pub fn frequency_penalty<T: Copy, X: Copy, P: Fn(T) -> bool, F: Fn(T, X, usize) -> T>(
    logits: &mut Vec<T>,
    history: &[u32],
    penalty: X,
    is_filtered: &P,
    minus: &F,
)
    requires
        forall|v: T| call_requires(*is_filtered, (v,)),
        forall|v: T, x: X, n: usize| call_requires(*minus, (v, x, n)),
    ensures
        penalty_subtracted(
            history@,
            penalty,
            *is_filtered,
            *minus,
            each_time(),
            old(logits)@,
            final(logits)@,
        ),
{
    let change = |v: T, n: usize| -> (y: T)
        ensures
            subtraction_makes(penalty, is_filtered, minus, v, n, y),
        {
            if is_filtered(v) {
                v
            } else {
                minus(v, penalty, n)
            }
        };
    change_appeared(logits, history, change);
}

/// `x` with `filtered` where an n-gram of `n` tokens would repeat.
pub open spec fn without_repeats<T>(
    history: Seq<u32>,
    n: int,
    filtered: T,
    x: Seq<T>,
) -> Seq<T> {
    Seq::new(
        x.len(),
        |i: int|
            if penalties::banned(history, n).contains(i as u32) && i <= u32::MAX {
                filtered
            } else {
                x[i]
            },
    )
}

/// Masks the token that followed every previous occurrence of the current suffix.
///
/// The last `n-1` tokens are matched against every window of length `n-1`, and each matching
/// window's following token is banned. With `n < 2`, or a sequence shorter than `n`, nothing
/// is. Ids past the logits are ignored.
pub fn no_repeat_ngram<T: Copy>(logits: &mut Vec<T>, history: &[u32], n: usize, filtered: T)
    ensures
        final(logits)@ == without_repeats(history@, n as int, filtered, old(logits)@),
{
    let ghost before = logits@;
    let banned = banned_tokens(history, n);
    let ghost b = banned@;
    let mut k: usize = 0;
    while k < banned.len()
        invariant
            k <= banned.len(),
            b == banned@,
            before == old(logits)@,
            logits.len() == before.len(),
            forall|i: int|
                0 <= i < before.len() ==> #[trigger] logits@[i] == if i <= u32::MAX && b.take(
                    k as int,
                ).contains(i as u32) {
                    filtered
                } else {
                    before[i]
                },
        decreases banned.len() - k,
    {
        let t: u32 = banned[k];
        let ghost now = logits@;
        if (t as u64) < logits.len() as u64 {
            logits.set(t as usize, filtered);
        }
        proof {
            assert forall|i: int| 0 <= i < before.len() implies #[trigger] logits@[i] == if i
                <= u32::MAX && b.take(k + 1).contains(i as u32) {
                filtered
            } else {
                before[i]
            } by {
                let longer = b.take(k + 1);
                assert(longer =~= b.take(k as int).push(t));
                if i == t {
                    assert(b.take(k + 1)[k as int] == t);
                } else if i <= u32::MAX {
                    if b.take(k as int).contains(i as u32) {
                        let j = choose|j: int| 0 <= j < k && b.take(k as int)[j] == i as u32;
                        assert(b.take(k + 1)[j] == i as u32);
                    }
                    if b.take(k + 1).contains(i as u32) {
                        let j = choose|j: int| 0 <= j < longer.len() && longer[j] == i as u32;
                        assert(j < k);
                        assert(b.take(k as int)[j] == i as u32);
                    }
                    assert(logits@[i] == now[i]);
                }
            }
        }
        k += 1;
    }
    proof {
        assert(b.take(k as int) =~= b);
        assert(logits@ =~= without_repeats(history@, n as int, filtered, before));
    }
}

/// Whether `after` are the scores of `before` divided by the temperature.
pub open spec fn is_divided<T, X, F: Fn(T, X) -> T>(
    over: F,
    by: X,
    before: Seq<T>,
    after: Seq<T>,
) -> bool {
    &&& after.len() == before.len()
    &&& forall|i: int|
        0 <= i < before.len() ==> call_ensures(over, (before[i], by), #[trigger] after[i])
}

/// Every score divided by the temperature, which is what `over` does.
pub fn temperature<T: Copy, X: Copy, F: Fn(T, X) -> T>(logits: &mut Vec<T>, by: X, over: &F)
    requires
        forall|v: T, x: X| call_requires(*over, (v, x)),
    ensures
        is_divided(*over, by, old(logits)@, final(logits)@),
{
    let ghost before = logits@;
    let mut i: usize = 0;
    while i < logits.len()
        invariant
            i <= logits.len(),
            before == old(logits)@,
            logits.len() == before.len(),
            forall|v: T, x: X| call_requires(*over, (v, x)),
            forall|j: int|
                0 <= j < i ==> call_ensures(*over, (before[j], by), #[trigger] logits@[j]),
            forall|j: int| i <= j < before.len() ==> #[trigger] logits@[j] == before[j],
        decreases logits.len() - i,
    {
        let v: T = logits[i];
        let y: T = over(v, by);
        logits.set(i, y);
        i += 1;
    }
}

// ---------------------------------------------------------------------------
// masks
// ---------------------------------------------------------------------------
/// `x` with `filtered` where the mask does not keep a value.
pub open spec fn masked<T>(x: Seq<T>, mask: Seq<bool>, filtered: T) -> Seq<T> {
    Seq::new(
        x.len(),
        |i: int|
            if mask[i] {
                x[i]
            } else {
                filtered
            },
    )
}

/// Masks what is not kept.
fn apply_mask<T: Copy>(logits: &mut Vec<T>, mask: &Vec<bool>, filtered: T)
    requires
        mask.len() == old(logits).len(),
    ensures
        final(logits)@ == masked(old(logits)@, mask@, filtered),
{
    let ghost before = logits@;
    let mut i: usize = 0;
    while i < logits.len()
        invariant
            i <= logits.len(),
            before == old(logits)@,
            logits.len() == before.len(),
            mask.len() == before.len(),
            forall|j: int|
                0 <= j < before.len() ==> #[trigger] logits@[j] == if j >= i || mask@[j] {
                    before[j]
                } else {
                    filtered
                },
        decreases logits.len() - i,
    {
        if !mask[i] {
            logits.set(i, filtered);
        }
        i += 1;
    }
    assert(logits@ =~= masked(before, mask@, filtered));
}

/// Whether `flags` say of each value whether a test against `x` holds.
pub open spec fn flags_against<T, X, U: Fn(T, X) -> bool>(
    test: U,
    values: Seq<T>,
    x: X,
    flags: Seq<bool>,
) -> bool {
    &&& flags.len() == values.len()
    &&& forall|i: int|
        0 <= i < flags.len() ==> call_ensures(test, (values[i], x), #[trigger] flags[i])
}

/// What a test against `x` says of some values, one by one.
fn test_against<T: Copy, X: Copy, U: Fn(T, X) -> bool>(values: &[T], test: &U, x: X) -> (r: Vec<
    bool,
>)
    requires
        forall|v: T, w: X| call_requires(*test, (v, w)),
    ensures
        flags_against(*test, values@, x, r@),
{
    let mut out: Vec<bool> = Vec::new();
    let mut i: usize = 0;
    while i < values.len()
        invariant
            i <= values.len(),
            out.len() == i,
            forall|v: T, w: X| call_requires(*test, (v, w)),
            forall|j: int|
                0 <= j < i ==> call_ensures(*test, (values@[j], x), #[trigger] out@[j]),
        decreases values.len() - i,
    {
        let v: T = values[i];
        out.push(test(v, x));
        i += 1;
    }
    out
}

/// The mask that keeps what is not below.
pub open spec fn not_below(below: Seq<bool>) -> Seq<bool> {
    Seq::new(below.len(), |i: int| !below[i])
}

/// Whether `after` is `before` without what is strictly less than a `k`-th largest value.
pub open spec fn top_k_filters<T, K: Fn(T) -> i64, L: Fn(T, T) -> bool>(
    key: K,
    less: L,
    k: nat,
    filtered: T,
    before: Seq<T>,
    after: Seq<T>,
) -> bool {
    if k == 0 || k >= before.len() {
        after == before
    } else {
        exists|keys: Seq<i64>, kth: int, below: Seq<bool>|
            {
                &&& #[trigger] order::keys_of(key, before, keys)
                &&& #[trigger] filters::is_kth_largest(keys, k, kth)
                &&& #[trigger] flags_against(less, before, before[kth], below)
                &&& after == masked(before, not_below(below), filtered)
            }
    }
}

/// Keep every token whose logit is **not strictly less than** the `k`-th largest, and mask
/// the others. `key` gives integers that order the scores, and `less` compares two of them.
///
/// This is not "the top k": ties at the boundary all survive, so `top_k=1` can keep four
/// tokens. Sorting and truncating is the natural implementation and it disagrees. A `NaN` is
/// less than nothing and is never masked. `0` and a `k` of as many as there are keep
/// everything.
pub fn top_k<T: Copy, K: Fn(T) -> i64, L: Fn(T, T) -> bool>(
    logits: &mut Vec<T>,
    k: usize,
    filtered: T,
    key: &K,
    less: &L,
)
    requires
        forall|v: T| call_requires(*key, (v,)),
        forall|a: T, b: T| call_requires(*less, (a, b)),
    ensures
        top_k_filters(*key, *less, k as nat, filtered, old(logits)@, final(logits)@),
{
    if k == 0 || k >= logits.len() {
        return;
    }
    let ghost before = logits@;
    let keys = keys_for(logits.as_slice(), key);
    let p: usize = kth_largest(keys.as_slice(), k);
    let kth: T = logits[p];
    let below = test_against(logits.as_slice(), less, kth);
    mask_below(logits, &below, filtered);
    assert(order::keys_of(*key, before, keys@));
    assert(filters::is_kth_largest(keys@, k as nat, p as int));
    assert(flags_against(*less, before, before[p as int], below@));
}

/// Masks what is below.
fn mask_below<T: Copy>(logits: &mut Vec<T>, below: &Vec<bool>, filtered: T)
    requires
        below.len() == old(logits).len(),
    ensures
        final(logits)@ == masked(old(logits)@, not_below(below@), filtered),
{
    let mut mask: Vec<bool> = Vec::new();
    let mut i: usize = 0;
    while i < below.len()
        invariant
            i <= below.len(),
            mask@ == not_below(below@).take(i as int),
        decreases below.len() - i,
    {
        mask.push(!below[i]);
        i += 1;
        assert(mask@ =~= not_below(below@).take(i as int));
    }
    assert(mask@ =~= not_below(below@));
    apply_mask(logits, &mask, filtered);
}

/// Where comparing goes by the keys, top-k keeps what fewer than `k` tokens beat.
pub proof fn top_k_keeps_what_fewer_beat<T, K: Fn(T) -> i64, L: Fn(T, T) -> bool>(
    key: K,
    less: L,
    k: nat,
    filtered: T,
    before: Seq<T>,
    after: Seq<T>,
)
    requires
        top_k_filters(key, less, k, filtered, before, after),
        forall|v: T, w: T, x: i64, y: i64, r: bool|
            #![trigger
                call_ensures(less, (v, w), r),
                call_ensures(key, (v,), x),
                call_ensures(key, (w,), y)]
            call_ensures(key, (v,), x) && call_ensures(key, (w,), y) && call_ensures(
                less,
                (v, w),
                r,
            ) ==> r == (x < y),
    ensures
        0 < k < before.len() ==> exists|keys: Seq<i64>| #[trigger]
            order::keys_of(key, before, keys) && after == masked(
                before,
                filters::top_k_mask(keys, k),
                filtered,
            ),
{
    if 0 < k < before.len() {
        let (keys, kth, below) = choose|keys: Seq<i64>, kth: int, below: Seq<bool>|
            {
                &&& #[trigger] order::keys_of(key, before, keys)
                &&& #[trigger] filters::is_kth_largest(keys, k, kth)
                &&& #[trigger] flags_against(less, before, before[kth], below)
                &&& after == masked(before, not_below(below), filtered)
            };
        assert forall|i: int| 0 <= i < before.len() implies not_below(below)[i]
            == #[trigger] filters::top_k_mask(keys, k)[i] by {
            filters::top_k_thresholds(keys, k, kth, i);
            assert(call_ensures(key, (before[i],), keys[i]));
            assert(call_ensures(key, (before[kth],), keys[kth]));
            assert(call_ensures(less, (before[i], before[kth]), below[i]));
        }
        assert(not_below(below) =~= filters::top_k_mask(keys, k));
    }
}

/// A score that is less than nothing, as a `NaN` is, comes through top-k as it was.
pub proof fn what_is_less_than_nothing_stays<T, K: Fn(T) -> i64, L: Fn(T, T) -> bool>(
    key: K,
    less: L,
    k: nat,
    filtered: T,
    before: Seq<T>,
    after: Seq<T>,
    i: int,
)
    requires
        top_k_filters(key, less, k, filtered, before, after),
        0 <= i < before.len(),
        forall|w: T, r: bool| #[trigger] call_ensures(less, (before[i], w), r) ==> !r,
    ensures
        after[i] == before[i],
{
    if 0 < k < before.len() {
        let (keys, kth, below) = choose|keys: Seq<i64>, kth: int, below: Seq<bool>|
            {
                &&& #[trigger] order::keys_of(key, before, keys)
                &&& #[trigger] filters::is_kth_largest(keys, k, kth)
                &&& #[trigger] flags_against(less, before, before[kth], below)
                &&& after == masked(before, not_below(below), filtered)
            };
        assert(call_ensures(less, (before[i], before[kth]), below[i]));
    }
}

/// Whether `y` is what `f` makes of `x`.
pub open spec fn vector_gives<T, S: Fn(&[T]) -> Vec<T>>(f: S, x: Seq<T>, y: Seq<T>) -> bool {
    exists|a: &[T], r: Vec<T>| a@ == x && r@ == y && #[trigger] call_ensures(f, (a,), r)
}

/// Whether `b` is what a test says of `x`.
pub open spec fn test_gives<T, M: Fn(&[T]) -> bool>(f: M, x: Seq<T>, b: bool) -> bool {
    exists|a: &[T]| a@ == x && #[trigger] call_ensures(f, (a,), b)
}

/// What stands before place `p` of a running sum.
pub open spec fn sum_before<T>(sums: Seq<T>, zero: T, p: int) -> T {
    if p <= 0 {
        zero
    } else {
        sums[p - 1]
    }
}

/// Whether place `p` of a running sum is the one before it and the value there.
pub open spec fn sum_steps<T, A: Fn(T, T) -> T>(
    plus: A,
    zero: T,
    values: Seq<T>,
    ascending: Seq<usize>,
    sums: Seq<T>,
    p: int,
) -> bool {
    call_ensures(plus, (sum_before(sums, zero, p), values[ascending[p] as int]), sums[p])
}

/// Whether `sums` is the running sum of some values, taken in an order.
pub open spec fn is_running_sum<T, A: Fn(T, T) -> T>(
    plus: A,
    zero: T,
    values: Seq<T>,
    ascending: Seq<usize>,
    sums: Seq<T>,
) -> bool {
    &&& sums.len() == ascending.len()
    &&& forall|p: int|
        0 <= p < sums.len() ==> #[trigger] sum_steps(plus, zero, values, ascending, sums, p)
}

/// The running sum of some values, taken in an order.
fn running_sum<T: Copy, A: Fn(T, T) -> T>(
    values: &Vec<T>,
    ascending: &Vec<usize>,
    zero: T,
    plus: &A,
) -> (sums: Vec<T>)
    requires
        order::is_permutation(ascending@, values.len() as int),
        forall|a: T, b: T| call_requires(*plus, (a, b)),
    ensures
        is_running_sum(*plus, zero, values@, ascending@, sums@),
{
    let mut sums: Vec<T> = Vec::new();
    let mut acc: T = zero;
    let mut p: usize = 0;
    while p < ascending.len()
        invariant
            p <= ascending.len(),
            order::is_permutation(ascending@, values.len() as int),
            forall|a: T, b: T| call_requires(*plus, (a, b)),
            sums.len() == p,
            acc == sum_before(sums@, zero, p as int),
            forall|q: int|
                0 <= q < p ==> #[trigger] sum_steps(*plus, zero, values@, ascending@, sums@, q),
        decreases ascending.len() - p,
    {
        let ghost before = sums@;
        assert(ascending@[p as int] < values.len());
        let v: T = values[ascending[p]];
        let next: T = plus(acc, v);
        sums.push(next);
        proof {
            assert forall|q: int| 0 <= q < p + 1 implies #[trigger] sum_steps(
                *plus,
                zero,
                values@,
                ascending@,
                sums@,
                q,
            ) by {
                if q < p {
                    assert(sum_steps(*plus, zero, values@, ascending@, before, q));
                    assert(sum_before(sums@, zero, q) == sum_before(before, zero, q));
                } else {
                    assert(sum_before(sums@, zero, q) == acc);
                }
            }
        }
        acc = next;
        p += 1;
    }
    sums
}

/// Whether `flags` are what a test says of some values, one by one.
pub open spec fn flags_of<T, U: Fn(T) -> bool>(test: U, values: Seq<T>, flags: Seq<bool>) -> bool {
    &&& flags.len() == values.len()
    &&& forall|i: int| 0 <= i < flags.len() ==> call_ensures(test, (values[i],), #[trigger] flags[i])
}

/// What a test says of some values, one by one.
pub(crate) fn flags_for<T: Copy, U: Fn(T) -> bool>(values: &[T], test: &U) -> (r: Vec<bool>)
    requires
        forall|v: T| call_requires(*test, (v,)),
    ensures
        flags_of(*test, values@, r@),
{
    let mut out: Vec<bool> = Vec::new();
    let mut i: usize = 0;
    while i < values.len()
        invariant
            i <= values.len(),
            out.len() == i,
            forall|v: T| call_requires(*test, (v,)),
            forall|j: int| 0 <= j < i ==> call_ensures(*test, (values@[j],), #[trigger] out@[j]),
        decreases values.len() - i,
    {
        let v: T = values[i];
        out.push(test(v));
        i += 1;
    }
    out
}

/// Whether `after` is `before` without the small end: with the probabilities summed in
/// ascending order of the scores, what stands in front of the first sum beyond the threshold
/// is masked, and the last of the order never is.
pub open spec fn top_p_filters<T, X, K: Fn(T) -> i64, A: Fn(T, T) -> T, U: Fn(T, X) -> bool>(
    p: X,
    key: K,
    plus: A,
    at_most: U,
    zero: T,
    filtered: T,
    probs: Seq<T>,
    before: Seq<T>,
    after: Seq<T>,
) -> bool {
    exists|
        keys: Seq<i64>,
        ascending: Seq<usize>,
        sums: Seq<T>,
        under: Seq<bool>,
        mask: Seq<bool>,
    |
        {
            &&& #[trigger] order::keys_of(key, before, keys)
            &&& order::is_permutation(ascending, before.len() as int)
            &&& order::is_ascending(keys, ascending)
            &&& #[trigger] is_running_sum(plus, zero, probs, ascending, sums)
            &&& #[trigger] flags_against(at_most, sums, p, under)
            &&& #[trigger] filters::is_top_p_mask(ascending, under, mask)
            &&& after == masked(before, mask, filtered)
        }
}

/// Remove the tokens whose **ascending** cumulative probability is at most `1 - top_p`.
///
/// The direction is the surprising part: at ties the ascending scan removes the smallest
/// tokens first and thereby decides which of several equal tokens survives. Without any mass
/// nothing changes.
pub fn top_p<
    T: Copy,
    X: Copy,
    K: Fn(T) -> i64,
    S: Fn(&[T]) -> Vec<T>,
    M: Fn(&[T]) -> bool,
    A: Fn(T, T) -> T,
    U: Fn(T, X) -> bool,
>(
    logits: &mut Vec<T>,
    p: X,
    filtered: T,
    key: &K,
    softmax: &S,
    has_mass: &M,
    zero: T,
    plus: &A,
    at_most: &U,
)
    requires
        forall|v: T| call_requires(*key, (v,)),
        forall|l: &[T]| call_requires(*softmax, (l,)),
        forall|l: &[T], y: Vec<T>| #[trigger]
            call_ensures(*softmax, (l,), y) ==> y.len() == l.len(),
        forall|l: &[T]| call_requires(*has_mass, (l,)),
        forall|a: T, b: T| call_requires(*plus, (a, b)),
        forall|v: T, x: X| call_requires(*at_most, (v, x)),
    ensures
        top_p_makes(
            p,
            filtered,
            *key,
            *softmax,
            *has_mass,
            zero,
            *plus,
            *at_most,
            old(logits)@,
            final(logits)@,
        ),
{
    let ghost before = logits@;
    let probs: Vec<T> = softmax(logits.as_slice());
    assert(vector_gives(*softmax, before, probs@));
    let mass: bool = has_mass(probs.as_slice());
    assert(test_gives(*has_mass, probs@, mass));
    if !mass {
        return;
    }
    let keys = keys_for(logits.as_slice(), key);
    let ascending = ascending_order(keys.as_slice());
    let sums = running_sum(&probs, &ascending, zero, plus);
    let under = test_against(sums.as_slice(), at_most, p);
    let mask = kept_by_top_p(ascending.as_slice(), under.as_slice());
    apply_mask(logits, &mask, filtered);
    assert(order::keys_of(*key, before, keys@));
    assert(filters::is_top_p_mask(ascending@, under@, mask@));
    assert(top_p_filters(p, *key, *plus, *at_most, zero, filtered, probs@, before, logits@));
}

/// Whether `after` is what top-p makes of `before`: without any mass nothing changes.
pub open spec fn top_p_makes<
    T,
    X,
    K: Fn(T) -> i64,
    S: Fn(&[T]) -> Vec<T>,
    M: Fn(&[T]) -> bool,
    A: Fn(T, T) -> T,
    U: Fn(T, X) -> bool,
>(
    p: X,
    filtered: T,
    key: K,
    softmax: S,
    has_mass: M,
    zero: T,
    plus: A,
    at_most: U,
    before: Seq<T>,
    after: Seq<T>,
) -> bool {
    exists|probs: Seq<T>, mass: bool|
        {
            &&& #[trigger] vector_gives(softmax, before, probs)
            &&& #[trigger] test_gives(has_mass, probs, mass)
            &&& if mass {
                top_p_filters(p, key, plus, at_most, zero, filtered, probs, before, after)
            } else {
                after == before
            }
        }
}

/// Whether `after` is `before` without what is strictly below the floor, which `scale` makes
/// of the largest probability.
pub open spec fn min_p_filters<T, X, K: Fn(T) -> i64, F: Fn(T, X) -> T, L: Fn(T, T) -> bool>(
    p: X,
    key: K,
    scale: F,
    less: L,
    filtered: T,
    probs: Seq<T>,
    before: Seq<T>,
    after: Seq<T>,
) -> bool {
    exists|keys: Seq<i64>, best: int, floor: T, below: Seq<bool>|
        {
            &&& #[trigger] order::keys_of(key, probs, keys)
            &&& #[trigger] filters::is_first_largest(keys, best)
            &&& #[trigger] call_ensures(scale, (probs[best], p), floor)
            &&& #[trigger] flags_against(less, probs, floor, below)
            &&& after == masked(before, filters::min_p_mask(keys, below), filtered)
        }
}

/// Whether `after` is what min-p makes of `before`: without any mass nothing changes.
pub open spec fn min_p_makes<
    T,
    X,
    K: Fn(T) -> i64,
    S: Fn(&[T]) -> Vec<T>,
    M: Fn(&[T]) -> bool,
    F: Fn(T, X) -> T,
    L: Fn(T, T) -> bool,
>(
    p: X,
    filtered: T,
    key: K,
    softmax: S,
    has_mass: M,
    scale: F,
    less: L,
    before: Seq<T>,
    after: Seq<T>,
) -> bool {
    exists|probs: Seq<T>, mass: bool|
        {
            &&& #[trigger] vector_gives(softmax, before, probs)
            &&& #[trigger] test_gives(has_mass, probs, mass)
            &&& if mass && before.len() > 0 {
                min_p_filters(p, key, scale, less, filtered, probs, before, after)
            } else {
                after == before
            }
        }
}

/// `min_p * max_prob` is the floor; a token strictly below it is removed.
///
/// The probabilities are computed *here*, over whatever the earlier filters left, and the
/// comparison is strict, so a token exactly at the threshold survives. Without any mass
/// nothing changes.
pub fn min_p<
    T: Copy,
    X: Copy,
    K: Fn(T) -> i64,
    S: Fn(&[T]) -> Vec<T>,
    M: Fn(&[T]) -> bool,
    F: Fn(T, X) -> T,
    L: Fn(T, T) -> bool,
>(
    logits: &mut Vec<T>,
    p: X,
    filtered: T,
    key: &K,
    softmax: &S,
    has_mass: &M,
    scale: &F,
    less: &L,
)
    requires
        forall|v: T| call_requires(*key, (v,)),
        forall|l: &[T]| call_requires(*softmax, (l,)),
        forall|l: &[T], y: Vec<T>| #[trigger]
            call_ensures(*softmax, (l,), y) ==> y.len() == l.len(),
        forall|l: &[T]| call_requires(*has_mass, (l,)),
        forall|v: T, x: X| call_requires(*scale, (v, x)),
        forall|a: T, b: T| call_requires(*less, (a, b)),
    ensures
        min_p_makes(
            p,
            filtered,
            *key,
            *softmax,
            *has_mass,
            *scale,
            *less,
            old(logits)@,
            final(logits)@,
        ),
{
    let ghost before = logits@;
    let probs: Vec<T> = softmax(logits.as_slice());
    assert(vector_gives(*softmax, before, probs@));
    let mass: bool = has_mass(probs.as_slice());
    assert(test_gives(*has_mass, probs@, mass));
    if !mass || logits.len() == 0 {
        return;
    }
    let keys = keys_for(probs.as_slice(), key);
    let best: usize = first_largest(keys.as_slice());
    let top: T = probs[best];
    let floor: T = scale(top, p);
    let below = test_against(probs.as_slice(), less, floor);
    let mask = kept_by_min_p(keys.as_slice(), below.as_slice());
    apply_mask(logits, &mask, filtered);
    assert(order::keys_of(*key, probs@, keys@));
    assert(call_ensures(*scale, (probs@[best as int], p), floor));
    assert(flags_against(*less, probs@, floor, below@));
    assert(min_p_filters(p, *key, *scale, *less, filtered, probs@, before, logits@));
}

/// Whether `y` is what `f` makes of some logits and their probabilities.
pub open spec fn pair_gives<T, D: Fn(&[T], &[T]) -> Vec<T>>(
    f: D,
    logits: Seq<T>,
    probs: Seq<T>,
    y: Seq<T>,
) -> bool {
    exists|a: &[T], b: &[T], r: Vec<T>|
        a@ == logits && b@ == probs && r@ == y && #[trigger] call_ensures(f, (a, b), r)
}

/// What stands before each place of a running sum.
pub open spec fn sums_before<T>(sums: Seq<T>, zero: T) -> Seq<T> {
    Seq::new(sums.len(), |p: int| sum_before(sums, zero, p))
}

/// Whether `after` is `before` without what is less typical: in ascending order of distance,
/// the last place in front of which the mass is still under the wanted one is the cutoff.
pub open spec fn typical_filters<T, X, K: Fn(T) -> i64, A: Fn(T, T) -> T, U: Fn(T, X) -> bool>(
    p: X,
    key: K,
    plus: A,
    under_mass: U,
    zero: T,
    filtered: T,
    probs: Seq<T>,
    distances: Seq<T>,
    before: Seq<T>,
    after: Seq<T>,
) -> bool {
    exists|keys: Seq<i64>, ascending: Seq<usize>, sums: Seq<T>, under: Seq<bool>|
        {
            &&& #[trigger] order::keys_of(key, distances, keys)
            &&& order::is_permutation(ascending, before.len() as int)
            &&& order::is_ascending(keys, ascending)
            &&& #[trigger] is_running_sum(plus, zero, probs, ascending, sums)
            &&& #[trigger] flags_against(under_mass, sums_before(sums, zero), p, under)
            &&& after == masked(before, filters::typical_mask(keys, ascending, under), filtered)
        }
}

/// Whether `after` is what typical sampling makes of `before`: without any mass nothing
/// changes.
pub open spec fn typical_makes<
    T,
    X,
    K: Fn(T) -> i64,
    S: Fn(&[T]) -> Vec<T>,
    M: Fn(&[T]) -> bool,
    D: Fn(&[T], &[T]) -> Vec<T>,
    A: Fn(T, T) -> T,
    U: Fn(T, X) -> bool,
>(
    p: X,
    filtered: T,
    key: K,
    softmax: S,
    has_mass: M,
    distance: D,
    zero: T,
    plus: A,
    under_mass: U,
    before: Seq<T>,
    after: Seq<T>,
) -> bool {
    exists|probs: Seq<T>, mass: bool|
        {
            &&& #[trigger] vector_gives(softmax, before, probs)
            &&& #[trigger] test_gives(has_mass, probs, mass)
            &&& if mass && before.len() > 0 {
                exists|distances: Seq<T>| #[trigger]
                    pair_gives(distance, before, probs, distances) && typical_filters(
                        p,
                        key,
                        plus,
                        under_mass,
                        zero,
                        filtered,
                        probs,
                        distances,
                        before,
                        after,
                    )
            } else {
                after == before
            }
        }
}

/// Typical sampling: keep the tokens whose *surprise* is closest to the mean surprise.
///
/// `distance` gives for each token how far its surprise is from the mean. Without any mass
/// nothing changes.
pub fn typical_p<
    T: Copy,
    X: Copy,
    K: Fn(T) -> i64,
    S: Fn(&[T]) -> Vec<T>,
    M: Fn(&[T]) -> bool,
    D: Fn(&[T], &[T]) -> Vec<T>,
    A: Fn(T, T) -> T,
    U: Fn(T, X) -> bool,
>(
    logits: &mut Vec<T>,
    p: X,
    filtered: T,
    key: &K,
    softmax: &S,
    has_mass: &M,
    distance: &D,
    zero: T,
    plus: &A,
    under_mass: &U,
)
    requires
        forall|v: T| call_requires(*key, (v,)),
        forall|l: &[T]| call_requires(*softmax, (l,)),
        forall|l: &[T], y: Vec<T>| #[trigger]
            call_ensures(*softmax, (l,), y) ==> y.len() == l.len(),
        forall|l: &[T]| call_requires(*has_mass, (l,)),
        forall|l: &[T], q: &[T]| call_requires(*distance, (l, q)),
        forall|l: &[T], q: &[T], y: Vec<T>| #[trigger]
            call_ensures(*distance, (l, q), y) ==> y.len() == l.len(),
        forall|a: T, b: T| call_requires(*plus, (a, b)),
        forall|v: T, x: X| call_requires(*under_mass, (v, x)),
    ensures
        typical_makes(
            p,
            filtered,
            *key,
            *softmax,
            *has_mass,
            *distance,
            zero,
            *plus,
            *under_mass,
            old(logits)@,
            final(logits)@,
        ),
{
    let ghost before = logits@;
    let probs: Vec<T> = softmax(logits.as_slice());
    assert(vector_gives(*softmax, before, probs@));
    let mass: bool = has_mass(probs.as_slice());
    assert(test_gives(*has_mass, probs@, mass));
    if !mass || logits.len() == 0 {
        return;
    }
    let distances: Vec<T> = distance(logits.as_slice(), probs.as_slice());
    assert(pair_gives(*distance, before, probs@, distances@));
    let keys = keys_for(distances.as_slice(), key);
    let ascending = ascending_order(keys.as_slice());
    let sums = running_sum(&probs, &ascending, zero, plus);
    let mut in_front: Vec<T> = Vec::new();
    let mut q: usize = 0;
    while q < sums.len()
        invariant
            q <= sums.len(),
            in_front@ == sums_before(sums@, zero).take(q as int),
        decreases sums.len() - q,
    {
        in_front.push(
            if q == 0 {
                zero
            } else {
                sums[q - 1]
            },
        );
        q += 1;
        assert(in_front@ =~= sums_before(sums@, zero).take(q as int));
    }
    assert(in_front@ =~= sums_before(sums@, zero));
    let under = test_against(in_front.as_slice(), under_mass, p);
    let mask = kept_by_typical_p(keys.as_slice(), ascending.as_slice(), under.as_slice());
    apply_mask(logits, &mask, filtered);
    assert(order::keys_of(*key, distances@, keys@));
    assert(flags_against(*under_mass, sums_before(sums@, zero), p, under@));
    assert(typical_filters(
        p,
        *key,
        *plus,
        *under_mass,
        zero,
        filtered,
        probs@,
        distances@,
        before,
        logits@,
    ));
}

// ---------------------------------------------------------------------------
// the draw
// ---------------------------------------------------------------------------
/// Whether `accs` is the cumulative mass in front of each token and behind the last: only
/// tokens with mass add to it.
pub open spec fn is_walk<T, A, D: Fn(A, T) -> A>(
    plus: D,
    zero: A,
    probs: Seq<T>,
    positive: Seq<bool>,
    accs: Seq<A>,
) -> bool {
    &&& accs.len() == probs.len() + 1
    &&& accs[0] == zero
    &&& forall|i: int|
        0 <= i < probs.len() ==> if #[trigger] positive[i] {
            call_ensures(plus, (accs[i], probs[i]), accs[i + 1])
        } else {
            accs[i + 1] == accs[i]
        }
}

/// Whether `reached` says of each token whether the cumulative mass up to it is beyond the
/// draw.
pub open spec fn reaches<A, B: Fn(A, u64) -> bool>(
    beyond: B,
    accs: Seq<A>,
    u: u64,
    reached: Seq<bool>,
) -> bool {
    &&& reached.len() + 1 == accs.len()
    &&& forall|i: int|
        0 <= i < reached.len() ==> call_ensures(beyond, (accs[i + 1], u), #[trigger] reached[i])
}

/// Whether the draw `u` finds `found`: of the tokens with mass the first whose cumulative mass
/// is beyond it, and the last one where none is.
pub open spec fn draw_finds<T, A, D: Fn(A, T) -> A, B: Fn(A, u64) -> bool>(
    plus: D,
    beyond: B,
    zero: A,
    probs: Seq<T>,
    positive: Seq<bool>,
    u: u64,
    found: Option<int>,
) -> bool {
    exists|accs: Seq<A>, reached: Seq<bool>|
        {
            &&& #[trigger] is_walk(plus, zero, probs, positive, accs)
            &&& #[trigger] reaches(beyond, accs, u, reached)
            &&& found == filters::selected(positive, reached)
        }
}

/// The token that a draw finds, given which tokens have mass.
pub(crate) fn find_draw<T: Copy, A: Copy, D: Fn(A, T) -> A, B: Fn(A, u64) -> bool>(
    probs: &[T],
    positive: &Vec<bool>,
    u: u64,
    zero: A,
    plus: &D,
    beyond: &B,
) -> (r: Option<usize>)
    requires
        positive.len() == probs.len(),
        forall|a: A, v: T| call_requires(*plus, (a, v)),
        forall|a: A, w: u64| call_requires(*beyond, (a, w)),
    ensures
        draw_finds(
            *plus,
            *beyond,
            zero,
            probs@,
            positive@,
            u,
            match r {
                Some(i) => Some(i as int),
                None => None,
            },
        ),
{
    let mut reached: Vec<bool> = Vec::new();
    let mut acc: A = zero;
    let ghost mut accs: Seq<A> = seq![zero];
    let mut k: usize = 0;
    while k < probs.len()
        invariant
            k <= probs.len(),
            positive.len() == probs.len(),
            forall|a: A, v: T| call_requires(*plus, (a, v)),
            forall|a: A, w: u64| call_requires(*beyond, (a, w)),
            reached.len() == k,
            accs.len() == k + 1,
            accs[0] == zero,
            acc == accs[k as int],
            forall|j: int|
                0 <= j < k ==> if #[trigger] positive@[j] {
                    call_ensures(*plus, (accs[j], probs@[j]), accs[j + 1])
                } else {
                    accs[j + 1] == accs[j]
                },
            forall|j: int|
                0 <= j < k ==> call_ensures(*beyond, (accs[j + 1], u), #[trigger] reached@[j]),
        decreases probs.len() - k,
    {
        if positive[k] {
            let v: T = probs[k];
            acc = plus(acc, v);
        }
        reached.push(beyond(acc, u));
        proof {
            accs = accs.push(acc);
        }
        k += 1;
    }
    assert(is_walk(*plus, zero, probs@, positive@, accs));
    assert(reaches(*beyond, accs, u, reached@));
    selected_token(positive.as_slice(), reached.as_slice())
}

/// Ascending-id inverse CDF: the first token whose cumulative mass exceeds the draw `u`.
///
/// `plus` accumulates the mass and `beyond` says whether it exceeds a draw. Tokens without
/// mass are skipped, not selected. The draw can exceed the sum by a few ulp; the last token
/// with mass takes it.
pub fn select<T: Copy, A: Copy, P: Fn(T) -> bool, D: Fn(A, T) -> A, B: Fn(A, u64) -> bool>(
    probs: &[T],
    u: u64,
    is_positive: P,
    zero: A,
    plus: D,
    beyond: B,
) -> (r: Option<usize>)
    requires
        forall|v: T| call_requires(is_positive, (v,)),
        forall|a: A, v: T| call_requires(plus, (a, v)),
        forall|a: A, w: u64| call_requires(beyond, (a, w)),
    ensures
        exists|positive: Seq<bool>| #[trigger]
            flags_of(is_positive, probs@, positive) && draw_finds(
                plus,
                beyond,
                zero,
                probs@,
                positive,
                u,
                match r {
                    Some(i) => Some(i as int),
                    None => None,
                },
            ),
{
    let positive = flags_for(probs, &is_positive);
    find_draw(probs, &positive, u, zero, &plus, &beyond)
}

} // verus!
