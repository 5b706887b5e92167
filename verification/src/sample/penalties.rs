//! Which tokens the penalties touch.
use vstd::prelude::*;

verus! {

// ---------------------------------------------------------------------------
// tokens that have appeared
// ---------------------------------------------------------------------------
/// The tokens below `vocab` that have appeared, each once, in the order in which they
/// first did.
pub open spec fn distinct(history: Seq<u32>, vocab: int) -> Seq<usize>
    decreases history.len(),
{
    if history.len() == 0 {
        seq![]
    } else {
        let before = distinct(history.drop_last(), vocab);
        let t = history.last() as usize;
        if t < vocab && !before.contains(t) {
            before.push(t)
        } else {
            before
        }
    }
}

/// How often a token has appeared.
pub open spec fn occurrences(history: Seq<u32>, t: usize) -> nat
    decreases history.len(),
{
    if history.len() == 0 {
        0
    } else {
        occurrences(history.drop_last(), t) + if history.last() == t {
            1nat
        } else {
            0nat
        }
    }
}

/// The tokens that have appeared are exactly those below `vocab` that the history holds,
/// and none is there twice: a penalty that walks them touches each once, however often it
/// appeared.
pub proof fn distinct_tokens_are_those_that_appeared(history: Seq<u32>, vocab: int, t: usize)
    ensures
        distinct(history, vocab).contains(t) <==> t < vocab && exists|k: int|
            0 <= k < history.len() && (#[trigger] history[k]) == t,
        distinct(history, vocab).no_duplicates(),
        occurrences(history, t) > 0 <==> exists|k: int|
            0 <= k < history.len() && (#[trigger] history[k]) == t,
    decreases history.len(),
{
    if history.len() > 0 {
        let shorter = history.drop_last();
        let last = history.last();
        distinct_tokens_are_those_that_appeared(shorter, vocab, t);
        let before = distinct(shorter, vocab);
        let now = distinct(history, vocab);
        assert(history[history.len() - 1] == last);
        if exists|k: int| 0 <= k < shorter.len() && (#[trigger] shorter[k]) == t {
            let k = choose|k: int| 0 <= k < shorter.len() && (#[trigger] shorter[k]) == t;
            assert(history[k] == t);
        }
        if exists|k: int| 0 <= k < history.len() && (#[trigger] history[k]) == t {
            let k = choose|k: int| 0 <= k < history.len() && (#[trigger] history[k]) == t;
            if k < shorter.len() {
                assert(shorter[k] == t);
            }
        }
        if before.contains(t) {
            let i = choose|i: int| 0 <= i < before.len() && before[i] == t;
            assert(now[i] == t);
        }
        if now.len() > before.len() {
            assert(now[before.len() as int] == last as usize);
            if now.contains(t) && !before.contains(t) {
                let i = choose|i: int| 0 <= i < now.len() && now[i] == t;
                assert(i == before.len()) by {
                    if i < before.len() {
                        assert(before[i] == t);
                    }
                }
            }
        }
    }
}

/// Whether `v` holds `x`.
fn holds_index(v: &Vec<usize>, x: usize) -> (r: bool)
    ensures
        r == v@.contains(x),
{
    let mut i: usize = 0;
    while i < v.len()
        invariant
            i <= v.len(),
            forall|k: int| 0 <= k < i ==> v@[k] != x,
        decreases v.len() - i,
    {
        if v[i] == x {
            assert(v@[i as int] == x);
            return true;
        }
        i += 1;
    }
    false
}

/// Tokens come in the order in which they first appeared: `k` is where an earlier one stands before
/// the later one did.
pub proof fn first_seen_first(history: Seq<u32>, vocab: int, i: int, j: int) -> (k: int)
    requires
        0 <= i < j < distinct(history, vocab).len(),
    ensures
        0 <= k < history.len(),
        history[k] == distinct(history, vocab)[i],
        forall|m: int| 0 <= m <= k ==> (#[trigger] history[m]) != distinct(history, vocab)[j],
    decreases history.len(),
{
    let shorter = history.drop_last();
    let before = distinct(shorter, vocab);
    let now = distinct(history, vocab);
    let a = now[i];
    let b = now[j];
    distinct_tokens_are_those_that_appeared(shorter, vocab, a);
    distinct_tokens_are_those_that_appeared(shorter, vocab, b);
    assert(before[i] == a);
    assert(before.contains(a));
    if j < before.len() {
        let k = first_seen_first(shorter, vocab, i, j);
        assert forall|m: int| 0 <= m <= k implies (#[trigger] history[m]) != b by {
            assert(shorter[m] == history[m]);
        }
        k
    } else {
        let k = choose|k: int| 0 <= k < shorter.len() && (#[trigger] shorter[k]) == a;
        assert forall|m: int| 0 <= m <= k implies (#[trigger] history[m]) != b by {
            assert(shorter[m] == history[m]);
        }
        k
    }
}

/// The in-range tokens that have appeared, each once.
///
/// Both penalties need this and getting it wrong is the mistake they are prone to: a token
/// seen five times is penalised once. Looping over the history directly compounds instead,
/// turning "penalise a repeat" into "ban a repeat".
pub fn distinct_tokens(history: &[u32], vocab: usize) -> (r: Vec<usize>)
    ensures
        r@ == distinct(history@, vocab as int),
{
    let mut seen: Vec<usize> = Vec::new();
    let mut i: usize = 0;
    assert(history@.take(0) =~= seq![]);
    while i < history.len()
        invariant
            i <= history.len(),
            seen@ == distinct(history@.take(i as int), vocab as int),
        decreases history.len() - i,
    {
        proof {
            assert(history@.take(i + 1).drop_last() =~= history@.take(i as int));
            assert(history@.take(i + 1).last() == history@[i as int]);
        }
        let t: usize = history[i] as usize;
        if t < vocab && !holds_index(&seen, t) {
            seen.push(t);
        }
        i += 1;
    }
    assert(history@.take(i as int) =~= history@);
    seen
}

/// How often `t` stands in `history`.
fn count(history: &[u32], t: usize) -> (r: usize)
    ensures
        r == occurrences(history@, t),
{
    let mut n: usize = 0;
    let mut i: usize = 0;
    assert(history@.take(0) =~= seq![]);
    while i < history.len()
        invariant
            i <= history.len(),
            n == occurrences(history@.take(i as int), t),
            n <= i,
        decreases history.len() - i,
    {
        proof {
            assert(history@.take(i + 1).drop_last() =~= history@.take(i as int));
            assert(history@.take(i + 1).last() == history@[i as int]);
        }
        if history[i] as usize == t {
            n += 1;
        }
        i += 1;
    }
    assert(history@.take(i as int) =~= history@);
    n
}

/// The in-range tokens that have appeared, each once, with how often they did: what a
/// penalty per occurrence multiplies by.
pub fn token_counts(history: &[u32], vocab: usize) -> (r: Vec<(usize, usize)>)
    ensures
        r@ == distinct(history@, vocab as int).map_values(
            |t: usize| (t, occurrences(history@, t) as usize),
        ),
        forall|k: int|
            0 <= k < r.len() ==> (#[trigger] r[k]).1 == occurrences(history@, r[k].0),
{
    let tokens = distinct_tokens(history, vocab);
    let mut out: Vec<(usize, usize)> = Vec::new();
    let mut i: usize = 0;
    while i < tokens.len()
        invariant
            i <= tokens.len(),
            out.len() == i,
            forall|k: int|
                0 <= k < i ==> (#[trigger] out[k]).0 == tokens[k] && out[k].1 == occurrences(
                    history@,
                    tokens[k],
                ),
        decreases tokens.len() - i,
    {
        out.push((tokens[i], count(history, tokens[i])));
        i += 1;
    }
    assert(out@ =~= tokens@.map_values(|t: usize| (t, occurrences(history@, t) as usize)));
    out
}

// ---------------------------------------------------------------------------
// repeats
// ---------------------------------------------------------------------------
/// Whether the window of `n - 1` tokens at `w` is the suffix of the history.
pub open spec fn window_matches(history: Seq<u32>, n: int, w: int) -> bool {
    history.subrange(w, w + n - 1) == history.subrange(history.len() - (n - 1), history.len() as int)
}

/// The tokens that followed a match among the first `m` windows, each once.
pub open spec fn followers(history: Seq<u32>, n: int, m: int) -> Seq<u32>
    decreases m,
{
    if m <= 0 {
        seq![]
    } else {
        let before = followers(history, n, m - 1);
        let t = history[m - 1 + n - 1];
        if window_matches(history, n, m - 1) && !before.contains(t) {
            before.push(t)
        } else {
            before
        }
    }
}

/// The tokens that a ban on repeats of `n` tokens rules out.
pub open spec fn banned(history: Seq<u32>, n: int) -> Seq<u32> {
    if n < 2 || history.len() < n {
        seq![]
    } else {
        followers(history, n, history.len() - n + 1)
    }
}

proof fn lemma_followers(history: Seq<u32>, n: int, m: int, t: u32)
    requires
        2 <= n <= history.len(),
        0 <= m <= history.len() - n + 1,
    ensures
        followers(history, n, m).contains(t) <==> exists|w: int|
            0 <= w < m && #[trigger] window_matches(history, n, w) && history[w + n - 1] == t,
    decreases m,
{
    if m > 0 {
        lemma_followers(history, n, m - 1, t);
        let before = followers(history, n, m - 1);
        let now = followers(history, n, m);
        let x = history[m - 1 + n - 1];
        if before.contains(t) {
            let i = choose|i: int| 0 <= i < before.len() && before[i] == t;
            assert(now[i] == t);
        }
        if now.len() > before.len() {
            assert(now[before.len() as int] == x);
            if now.contains(t) && t != x {
                let i = choose|i: int| 0 <= i < now.len() && now[i] == t;
                assert(before[i] == t);
            }
        }
        if exists|w: int|
            0 <= w < m && #[trigger] window_matches(history, n, w) && history[w + n - 1] == t {
            let w = choose|w: int|
                0 <= w < m && #[trigger] window_matches(history, n, w) && history[w + n - 1] == t;
            if w < m - 1 {
                assert(window_matches(history, n, w));
            }
        }
        if before.contains(t) {
            let w = choose|w: int|
                0 <= w < m - 1 && #[trigger] window_matches(history, n, w) && history[w + n - 1]
                    == t;
            assert(window_matches(history, n, w));
        }
    }
}

/// A token is banned exactly where it followed a previous occurrence of the current
/// suffix. What is banned is decided against the history alone, so a token banned by one
/// match cannot hide another match.
pub proof fn banned_tokens_followed_the_suffix(history: Seq<u32>, n: int, t: u32)
    requires
        2 <= n <= history.len(),
    ensures
        banned(history, n).contains(t) <==> exists|w: int|
            0 <= w <= history.len() - n && #[trigger] window_matches(history, n, w) && history[w
                + n - 1] == t,
{
    lemma_followers(history, n, history.len() - n + 1, t);
}

/// Whether `v` holds `x`.
fn holds_token(v: &Vec<u32>, x: u32) -> (r: bool)
    ensures
        r == v@.contains(x),
{
    let mut i: usize = 0;
    while i < v.len()
        invariant
            i <= v.len(),
            forall|k: int| 0 <= k < i ==> v@[k] != x,
        decreases v.len() - i,
    {
        if v[i] == x {
            assert(v@[i as int] == x);
            return true;
        }
        i += 1;
    }
    false
}

/// Whether the window at `w` is the suffix of the history.
fn matches_suffix(history: &[u32], n: usize, w: usize) -> (r: bool)
    requires
        2 <= n <= history.len(),
        w <= history.len() - n,
    ensures
        r == window_matches(history@, n as int, w as int),
{
    let start: usize = history.len() - (n - 1);
    let ghost window = history@.subrange(w as int, w + n - 1);
    let ghost suffix = history@.subrange(start as int, history.len() as int);
    let mut i: usize = 0;
    while i < n - 1
        invariant
            2 <= n <= history.len(),
            w <= history.len() - n,
            start == history.len() - (n - 1),
            i <= n - 1,
            window == history@.subrange(w as int, w + n - 1),
            suffix == history@.subrange(start as int, history.len() as int),
            forall|k: int| 0 <= k < i ==> window[k] == suffix[k],
        decreases n - 1 - i,
    {
        if history[w + i] != history[start + i] {
            assert(window[i as int] != suffix[i as int]);
            return false;
        }
        assert(window[i as int] == suffix[i as int]);
        i += 1;
    }
    assert(window =~= suffix);
    true
}

/// The tokens that followed every previous occurrence of the current suffix, each once.
///
/// The last `n-1` tokens are matched against every window of length `n-1`, and each
/// matching window's following token is banned. With `n < 2`, or a sequence shorter than
/// `n`, nothing is.
pub fn banned_tokens(history: &[u32], n: usize) -> (r: Vec<u32>)
    ensures
        r@ == banned(history@, n as int),
{
    let mut out: Vec<u32> = Vec::new();
    if n < 2 || history.len() < n {
        return out;
    }
    let mut w: usize = 0;
    while w < history.len() - n + 1
        invariant
            2 <= n <= history.len(),
            w <= history.len() - n + 1,
            out@ == followers(history@, n as int, w as int),
        decreases history.len() - n + 1 - w,
    {
        let t: u32 = history[w + n - 1];
        if matches_suffix(history, n, w) && !holds_token(&out, t) {
            out.push(t);
        }
        w += 1;
    }
    out
}

} // verus!
