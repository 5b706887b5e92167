//! Which tokens the filters keep, and which one is drawn.
use super::order;
use super::order::ascending_order;
use vstd::prelude::*;

verus! {

/// The bits of the single-precision infinity. Those of a `NaN` are beyond it.
pub const INFINITY_BITS: u32 = 0x7f80_0000;

/// An integer that compares as the single-precision float with these bits does: the
/// magnitude, negated where the sign bit is set. The two zeros are equal. A `NaN`, which is
/// larger than nothing, comes below all numbers.
pub open spec fn key_of(bits: u32) -> i64 {
    if bits <= INFINITY_BITS {
        bits as i64
    } else if 0x8000_0000 <= bits <= 0x8000_0000 + INFINITY_BITS {
        (0x8000_0000 - bits) as i64
    } else {
        (-0x8000_0000) as i64
    }
}

/// An integer that compares as the single-precision float with these bits does, and that
/// puts a `NaN` below all numbers.
pub fn order_key(bits: u32) -> (r: i64)
    ensures
        r == key_of(bits),
{
    if bits <= INFINITY_BITS {
        bits as i64
    } else if 0x8000_0000 <= bits && bits - 0x8000_0000 <= INFINITY_BITS {
        0x8000_0000i64 - bits as i64
    } else {
        -0x8000_0000i64
    }
}

/// `-x` has the opposite key of `x`, a greater magnitude a key further from zero, and a `NaN`
/// a key below that of every number.
pub proof fn keys_follow_sign_and_magnitude(a: u32, b: u32, nan: u32)
    requires
        a <= INFINITY_BITS,
        b <= INFINITY_BITS,
        INFINITY_BITS < nan < 0x8000_0000 || 0x8000_0000 + INFINITY_BITS < nan,
    ensures
        key_of((a + 0x8000_0000) as u32) == -key_of(a),
        a < b <==> key_of(a) < key_of(b),
        key_of(0) == key_of(0x8000_0000),
        key_of(nan) < -key_of(a) <= key_of(a),
{
}

// ---------------------------------------------------------------------------
// top_k
// ---------------------------------------------------------------------------
/// The positions of the keys that are larger than `x`.
pub open spec fn larger(keys: Seq<i64>, x: int) -> Set<int> {
    Set::new(|i: int| 0 <= i < keys.len() && keys[i] > x)
}

proof fn lemma_range_len(from: int, to: int)
    requires
        from <= to,
    ensures
        Set::new(|i: int| from <= i < to).finite(),
        Set::new(|i: int| from <= i < to).len() == to - from,
    decreases to - from,
{
    let s = Set::new(|i: int| from <= i < to);
    if from == to {
        assert(s =~= Set::empty());
    } else {
        lemma_range_len(from, to - 1);
        assert(s =~= Set::new(|i: int| from <= i < to - 1).insert(to - 1));
    }
}

/// How many keys are larger than the one at position `p` of the ascending order.
proof fn lemma_larger(keys: Seq<i64>, s: Seq<usize>, x: int, m: int)
    requires
        order::is_permutation(s, keys.len() as int),
        0 <= m <= keys.len(),
        forall|p: int| 0 <= p < m ==> keys[(#[trigger] s[p]) as int] <= x,
        forall|p: int| m <= p < keys.len() ==> keys[(#[trigger] s[p]) as int] > x,
    ensures
        larger(keys, x).finite(),
        larger(keys, x).len() == keys.len() - m,
{
    let n = keys.len() as int;
    let tail = Set::new(|p: int| m <= p < n);
    lemma_range_len(m, n);
    let f = |p: int| s[p] as int;
    let image = tail.map(f);
    assert(image =~= larger(keys, x)) by {
        assert forall|i: int| larger(keys, x).contains(i) implies image.contains(i) by {
            order::lemma_permutation_reaches(s, n, i);
            let p = choose|p: int| 0 <= p < n && (#[trigger] s[p]) == i;
            assert(p >= m);
            assert(tail.contains(p));
            assert(f(p) == i);
        }
        assert forall|i: int| image.contains(i) implies larger(keys, x).contains(i) by {
            let p = choose|p: int| tail.contains(p) && f(p) == i;
            assert(keys[s[p] as int] > x);
        }
    }
    assert forall|p: int, q: int| tail.contains(p) && tail.contains(q) && f(p) == f(q) implies p
        == q by {
        if p < q {
            assert(s[p] != s[q]);
        } else if q < p {
            assert(s[q] != s[p]);
        }
    }
    vstd::set_lib::lemma_map_size(tail, image, f);
}

/// What top-k keeps: every token that fewer than `k` tokens beat.
pub open spec fn top_k_mask(keys: Seq<i64>, k: nat) -> Seq<bool> {
    Seq::new(
        keys.len(),
        |i: int| k == 0 || k >= keys.len() || larger(keys, keys[i] as int).len() < k,
    )
}

/// Whether a `k`-th largest key stands at `p`: fewer than `k` are larger, and at least `k` are
/// not smaller.
pub open spec fn is_kth_largest(keys: Seq<i64>, k: nat, p: int) -> bool {
    &&& 0 <= p < keys.len()
    &&& larger(keys, keys[p] as int).len() < k
    &&& k <= larger(keys, keys[p] - 1).len()
}

/// Where a `k`-th largest key stands.
pub fn kth_largest(keys: &[i64], k: usize) -> (r: usize)
    requires
        0 < k <= keys.len(),
    ensures
        is_kth_largest(keys@, k as nat, r as int),
{
    let s = ascending_order(keys);
    proof {
        let n = keys.len() as int;
        let x = keys@[s@[n - k] as int] as int;
        let m = lemma_boundary(keys@, s@, x, n);
        lemma_larger(keys@, s@, x, m);
        assert(m > n - k) by {
            if m <= n - k {
                assert(keys@[s@[n - k] as int] > x);
            }
        }
        let l = lemma_boundary(keys@, s@, x - 1, n);
        lemma_larger(keys@, s@, x - 1, l);
        assert(l <= n - k) by {
            if l > n - k {
                assert(keys@[s@[n - k] as int] <= x - 1);
            }
        }
    }
    s[keys.len() - k]
}

proof fn lemma_fewer_are_larger(keys: Seq<i64>, x: int, y: int)
    requires
        x <= y,
    ensures
        larger(keys, y).len() <= larger(keys, x).len(),
{
    let all = Set::new(|i: int| 0 <= i < keys.len());
    lemma_range_len(0, keys.len() as int);
    assert(larger(keys, x).subset_of(all));
    vstd::set_lib::lemma_set_subset_finite(all, larger(keys, x));
    assert(larger(keys, y).subset_of(larger(keys, x)));
    vstd::set_lib::lemma_len_subset(larger(keys, y), larger(keys, x));
}

/// Masking what is below a `k`-th largest key keeps what top-k keeps.
pub proof fn top_k_thresholds(keys: Seq<i64>, k: nat, p: int, i: int)
    requires
        0 < k < keys.len(),
        is_kth_largest(keys, k, p),
        0 <= i < keys.len(),
    ensures
        top_k_mask(keys, k)[i] <==> !(keys[i] < keys[p]),
{
    if keys[i] < keys[p] {
        lemma_fewer_are_larger(keys, keys[i] as int, keys[p] - 1);
    } else {
        lemma_fewer_are_larger(keys, keys[p] as int, keys[i] as int);
    }
}

/// Where the keys of the ascending order that are larger than `x` begin.
proof fn lemma_boundary(keys: Seq<i64>, s: Seq<usize>, x: int, upto: int) -> (m: int)
    requires
        order::is_permutation(s, keys.len() as int),
        order::is_ascending(keys, s),
        0 <= upto <= keys.len(),
    ensures
        0 <= m <= upto,
        forall|p: int| 0 <= p < m ==> keys[(#[trigger] s[p]) as int] <= x,
        forall|p: int| m <= p < upto ==> keys[(#[trigger] s[p]) as int] > x,
    decreases upto,
{
    if upto == 0 {
        0
    } else if keys[s[upto - 1] as int] <= x {
        assert forall|p: int| 0 <= p < upto implies keys[(#[trigger] s[p]) as int] <= x by {
            if p < upto - 1 {
                assert(order::comes_before(keys, s[p] as int, s[upto - 1] as int));
            }
        }
        upto
    } else {
        lemma_boundary(keys, s, x, upto - 1)
    }
}

// ---------------------------------------------------------------------------
// the largest
// ---------------------------------------------------------------------------
/// Whether `i` is the first position of the largest key.
pub open spec fn is_first_largest(keys: Seq<i64>, i: int) -> bool {
    &&& 0 <= i < keys.len()
    &&& forall|j: int| 0 <= j < keys.len() ==> #[trigger] keys[j] <= keys[i]
    &&& forall|j: int| 0 <= j < i ==> #[trigger] keys[j] < keys[i]
}

/// The position of the largest key, the first on ties.
pub fn first_largest(keys: &[i64]) -> (r: usize)
    requires
        keys.len() > 0,
    ensures
        is_first_largest(keys@, r as int),
{
    let mut best: usize = 0;
    let mut i: usize = 1;
    while i < keys.len()
        invariant
            best < i <= keys.len(),
            forall|j: int| 0 <= j < i ==> #[trigger] keys[j] <= keys[best as int],
            forall|j: int| 0 <= j < best ==> #[trigger] keys[j] < keys[best as int],
        decreases keys.len() - i,
    {
        if keys[i] > keys[best] {
            best = i;
        }
        i += 1;
    }
    best
}

/// Masking what is not the argmax, with what is smallest, leaves the argmax; and top-k and
/// min-p are such masks.
pub proof fn the_argmax_survives(
    keys: Seq<i64>,
    i: int,
    k: nat,
    below: Seq<bool>,
    mask: Seq<bool>,
    low: i64,
)
    requires
        is_first_largest(keys, i),
        mask.len() == keys.len(),
        mask[i],
        forall|j: int| 0 <= j < keys.len() ==> low <= #[trigger] keys[j],
    ensures
        is_first_largest(
            Seq::new(
                keys.len(),
                |j: int|
                    if mask[j] {
                        keys[j]
                    } else {
                        low
                    },
            ),
            i,
        ),
        top_k_mask(keys, k)[i],
        min_p_mask(keys, below)[i],
{
    assert(larger(keys, keys[i] as int) =~= Set::empty());
    let left = Seq::new(
        keys.len(),
        |j: int|
            if mask[j] {
                keys[j]
            } else {
                low
            },
    );
    assert forall|j: int| 0 <= j < left.len() implies #[trigger] left[j] <= left[i] by {
        assert(low <= keys[i] && keys[j] <= keys[i]);
    }
    assert forall|j: int| 0 <= j < i implies #[trigger] left[j] < left[i] by {
        assert(low <= keys[j] && keys[j] < keys[i]);
    }
}

// ---------------------------------------------------------------------------
// top_p, min_p, typical_p
// ---------------------------------------------------------------------------
/// How many of the flags are set before the first that is not.
pub open spec fn leading(flags: Seq<bool>) -> nat
    decreases flags.len(),
{
    if flags.len() == 0 || !flags[0] {
        0
    } else {
        1 + leading(flags.drop_first())
    }
}

/// Whether `mask` is what top-p keeps: all but the places in front of the first that is not
/// under the threshold, and the last in any case.
pub open spec fn is_top_p_mask(ascending: Seq<usize>, under: Seq<bool>, mask: Seq<bool>) -> bool {
    &&& mask.len() == ascending.len()
    &&& forall|p: int|
        0 <= p < ascending.len() ==> mask[(#[trigger] ascending[p]) as int] == (p >= leading(under)
            || p == ascending.len() - 1)
}

/// Remove the tokens whose **ascending** cumulative probability is at most `1 - top_p`.
///
/// `ascending` is the ascending order of the scores, and `under` says for each place in it
/// whether the cumulative probability up to there is at most the threshold. Only the places
/// in front of the first that is not count: the cumulative sum is monotone, so nothing later
/// can fall back under the threshold.
///
/// The direction is the surprising part. Written descending, "keep the smallest set
/// whose mass reaches `top_p`" sounds equivalent, and it is -- except at ties, where the
/// ascending scan removes the smallest tokens first and thereby decides which of several
/// equal tokens survives. The last token of the order survives even where all are under.
pub fn kept_by_top_p(ascending: &[usize], under: &[bool]) -> (r: Vec<bool>)
    requires
        order::is_permutation(ascending@, ascending.len() as int),
        under.len() == ascending.len(),
    ensures
        is_top_p_mask(ascending@, under@, r@),
{
    let n: usize = ascending.len();
    let mut out: Vec<bool> = Vec::new();
    let mut i: usize = 0;
    while i < n
        invariant
            i <= n,
            out.len() == i,
            forall|j: int| 0 <= j < i ==> #[trigger] out[j],
        decreases n - i,
    {
        out.push(true);
        i += 1;
    }
    let mut p: usize = 0;
    assert(under@.skip(0) =~= under@);
    while p < n && under[p]
        invariant
            n == ascending.len(),
            under.len() == n,
            p <= n,
            out.len() == n,
            order::is_permutation(ascending@, n as int),
            leading(under@) == p + leading(under@.skip(p as int)),
            forall|q: int|
                0 <= q < n ==> out[(#[trigger] ascending[q]) as int] == (q >= p || q == n - 1),
        ensures
            p == leading(under@),
            out.len() == n,
            forall|q: int|
                0 <= q < n ==> out[(#[trigger] ascending[q]) as int] == (q >= p || q == n - 1),
        decreases n - p,
    {
        proof {
            assert(under@.skip(p as int).drop_first() =~= under@.skip(p + 1));
        }
        if p < n - 1 {
            let at: usize = ascending[p];
            let ghost before = out@;
            out.set(at, false);
            assert forall|q: int| 0 <= q < n implies out[(#[trigger] ascending[q]) as int] == (q
                >= p + 1 || q == n - 1) by {
                if q < p {
                    assert(ascending[q] != ascending[p as int]);
                } else if q > p {
                    assert(ascending[p as int] != ascending[q]);
                }
            }
        }
        p += 1;
    }
    out
}

/// What min-p keeps: what is not below the floor, and the first of the largest.
pub open spec fn min_p_mask(keys: Seq<i64>, below: Seq<bool>) -> Seq<bool> {
    Seq::new(keys.len(), |i: int| !below[i] || is_first_largest(keys, i))
}

/// Remove the tokens whose probability is strictly below the floor, `min_p` times the
/// largest.
///
/// `below` says for each token whether it is. The test is strict, so a token exactly at the
/// threshold survives and `min_p = 1.0` keeps the argmax; that the argmax is never removed
/// is enforced rather than argued.
pub fn kept_by_min_p(keys: &[i64], below: &[bool]) -> (r: Vec<bool>)
    requires
        keys.len() > 0,
        below.len() == keys.len(),
    ensures
        r@ == min_p_mask(keys@, below@),
{
    let best: usize = first_largest(keys);
    let mut out: Vec<bool> = Vec::new();
    let mut i: usize = 0;
    while i < keys.len()
        invariant
            i <= keys.len(),
            below.len() == keys.len(),
            is_first_largest(keys@, best as int),
            out.len() == i,
            forall|j: int|
                0 <= j < i ==> #[trigger] out[j] == (!below[j] || is_first_largest(keys@, j)),
        decreases keys.len() - i,
    {
        proof {
            if is_first_largest(keys@, i as int) && i != best {
                assert(keys@[i as int] <= keys@[best as int]);
                assert(keys@[best as int] <= keys@[i as int]);
            }
        }
        out.push(!below[i] || i == best);
        i += 1;
    }
    assert(out@ =~= min_p_mask(keys@, below@));
    out
}

/// The last flag that is set, and 0 where none is.
pub open spec fn last_set(flags: Seq<bool>) -> int
    decreases flags.len(),
{
    if flags.len() == 0 {
        0
    } else if flags.last() {
        flags.len() - 1
    } else {
        last_set(flags.drop_last())
    }
}

/// What typical sampling keeps: what is no further from the mean than the last place in the
/// order in front of which the mass is still under the wanted one.
pub open spec fn typical_mask(keys: Seq<i64>, ascending: Seq<usize>, under: Seq<bool>) -> Seq<bool> {
    Seq::new(keys.len(), |i: int| keys[i] <= keys[ascending[last_set(under)] as int])
}

/// Typical sampling: keep the tokens whose *surprise* is closest to the mean surprise.
///
/// `keys` are those of the distances between a token's surprise and the mean, `ascending`
/// their ascending order, and `under` says for each place in it whether the mass **in
/// front** of that place is under the wanted mass. The distance at the last such place is
/// the cutoff, and what lies beyond it is removed -- so a token is kept that reaches the
/// mass, which is one more than those under it.
pub fn kept_by_typical_p(keys: &[i64], ascending: &[usize], under: &[bool]) -> (r: Vec<bool>)
    requires
        keys.len() > 0,
        order::is_permutation(ascending@, keys.len() as int),
        order::is_ascending(keys@, ascending@),
        under.len() == keys.len(),
    ensures
        r@ == typical_mask(keys@, ascending@, under@),
{
    let n: usize = keys.len();
    let mut last: usize = 0;
    let mut p: usize = 0;
    while p < n
        invariant
            p <= n,
            n == under.len(),
            0 < n,
            last < n,
            last == last_set(under@.take(p as int)),
        decreases n - p,
    {
        proof {
            assert(under@.take(p + 1).drop_last() =~= under@.take(p as int));
            assert(under@.take(p + 1).last() == under@[p as int]);
        }
        if under[p] {
            last = p;
        }
        p += 1;
    }
    assert(under@.take(p as int) =~= under@);
    let cutoff: i64 = keys[ascending[last]];
    let mut out: Vec<bool> = Vec::new();
    let mut i: usize = 0;
    while i < n
        invariant
            i <= n,
            n == keys.len(),
            out.len() == i,
            forall|j: int| 0 <= j < i ==> #[trigger] out[j] == (keys[j] <= cutoff),
        decreases n - i,
    {
        out.push(keys[i] <= cutoff);
        i += 1;
    }
    assert(out@ =~= typical_mask(keys@, ascending@, under@));
    out
}

/// Each filter keeps something: top-k and min-p a token of the largest score, top-p the last
/// token of the ascending order, typical-p the most typical one.
pub proof fn filters_keep_something(keys: Seq<i64>, ascending: Seq<usize>, i: int, k: nat, last: int)
    requires
        is_first_largest(keys, i),
        0 < k,
        order::is_permutation(ascending, keys.len() as int),
        order::is_ascending(keys, ascending),
        0 <= last < keys.len(),
    ensures
        larger(keys, keys[i] as int).len() < k,
        keys[ascending[0] as int] <= keys[ascending[last] as int],
        keys[ascending[keys.len() - 1] as int] == keys[i],
{
    assert(larger(keys, keys[i] as int) =~= Set::empty());
    if last > 0 {
        assert(order::comes_before(keys, ascending[0] as int, ascending[last] as int));
    }
    let n = keys.len() as int;
    order::lemma_permutation_reaches(ascending, n, i);
    let p = choose|p: int| 0 <= p < n && (#[trigger] ascending[p]) == i;
    if p < n - 1 {
        assert(order::comes_before(keys, ascending[p] as int, ascending[n - 1] as int));
    }
    assert(keys[ascending[n - 1] as int] <= keys[i]);
}

// ---------------------------------------------------------------------------
// the draw
// ---------------------------------------------------------------------------
/// The first token with mass at which the draw is reached, from `i` on.
pub open spec fn reached_from(positive: Seq<bool>, reached: Seq<bool>, i: int) -> Option<int>
    decreases positive.len() - i,
{
    if i < 0 || i >= positive.len() {
        None
    } else if positive[i] && reached[i] {
        Some(i)
    } else {
        reached_from(positive, reached, i + 1)
    }
}

/// The last token with mass among the first `n`.
pub open spec fn last_with_mass(positive: Seq<bool>, n: int) -> Option<int>
    decreases n,
{
    if n <= 0 {
        None
    } else if positive[n - 1] {
        Some(n - 1)
    } else {
        last_with_mass(positive, n - 1)
    }
}

/// The token that a draw selects.
pub open spec fn selected(positive: Seq<bool>, reached: Seq<bool>) -> Option<int> {
    match reached_from(positive, reached, 0) {
        Some(i) => Some(i),
        None => last_with_mass(positive, positive.len() as int),
    }
}

/// Ascending-id inverse CDF: the first token whose cumulative mass exceeds the draw.
///
/// `positive` says for each token whether it has any mass, and `reached` whether the
/// cumulative mass up to it exceeds the draw. Tokens without mass are skipped, not
/// selected. The draw can exceed the sum by a few ulp; the last token with mass takes it.
pub fn selected_token(positive: &[bool], reached: &[bool]) -> (r: Option<usize>)
    requires
        positive.len() == reached.len(),
    ensures
        match r {
            Some(i) => selected(positive@, reached@) == Some(i as int),
            None => selected(positive@, reached@) is None,
        },
{
    let mut last: Option<usize> = None;
    let mut i: usize = 0;
    while i < positive.len()
        invariant
            i <= positive.len(),
            positive.len() == reached.len(),
            reached_from(positive@, reached@, 0) == reached_from(positive@, reached@, i as int),
            match last {
                Some(l) => last_with_mass(positive@, i as int) == Some(l as int),
                None => last_with_mass(positive@, i as int) is None,
            },
        decreases positive.len() - i,
    {
        if positive[i] {
            last = Some(i);
            if reached[i] {
                return Some(i);
            }
        }
        i += 1;
    }
    last
}

/// A draw finds a token exactly where one has mass, and what it finds has mass.
pub proof fn draws_find_a_token_with_mass(positive: Seq<bool>, reached: Seq<bool>)
    requires
        positive.len() == reached.len(),
    ensures
        selected(positive, reached) is Some <==> exists|i: int|
            0 <= i < positive.len() && #[trigger] positive[i],
        selected(positive, reached) matches Some(i) ==> 0 <= i < positive.len() && positive[i],
{
    lemma_reached(positive, reached, 0);
    lemma_last_with_mass(positive, positive.len() as int);
}

proof fn lemma_reached(positive: Seq<bool>, reached: Seq<bool>, i: int)
    requires
        0 <= i,
    ensures
        reached_from(positive, reached, i) matches Some(k) ==> i <= k < positive.len()
            && positive[k],
    decreases positive.len() - i,
{
    if i < positive.len() && !(positive[i] && reached[i]) {
        lemma_reached(positive, reached, i + 1);
    }
}

proof fn lemma_last_with_mass(positive: Seq<bool>, n: int)
    requires
        0 <= n <= positive.len(),
    ensures
        match last_with_mass(positive, n) {
            Some(k) => 0 <= k < n && positive[k],
            None => forall|i: int| 0 <= i < n ==> !#[trigger] positive[i],
        },
    decreases n,
{
    if n > 0 && !positive[n - 1] {
        lemma_last_with_mass(positive, n - 1);
    }
}

} // verus!
