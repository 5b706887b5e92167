use gdn::pyjson::{parse_exact, Float, Value};
use gdn::sample::{
    self, ascending_order, banned_tokens, descending_order, distinct_tokens, first_largest,
    kept_by_min_p, kept_by_top_p, kept_by_typical_p, kth_largest, order_key, run_stage,
    selected_token,
    token_counts, Arithmetic, Sampler, SamplerConfig, SplitMix64, Stage,
};

/// The value the filters mask with.
const FILTERED: f32 = f32::NEG_INFINITY;

/// The decimal that stands for a double.
fn num(x: f64) -> Float {
    if x.is_nan() {
        return Float::Nan;
    }
    if x.is_infinite() {
        return Float::Infinite { negative: x < 0.0 };
    }
    match parse_exact(&format!("{x:?}")).unwrap() {
        Value::Float(f) => f,
        other => panic!("{other:?} is no float"),
    }
}

fn cfg() -> SamplerConfig {
    SamplerConfig { temperature: num(1.0), seed: 12345, ..Default::default() }
}

fn key(x: f32) -> i64 {
    order_key(x.to_bits())
}

fn is_filtered(x: f32) -> bool {
    x == FILTERED
}

fn is_positive(x: f32) -> bool {
    x > 0.0
}

fn has_mass(probs: &[f32]) -> bool {
    is_positive(probs.iter().sum::<f32>())
}

fn plus(a: f32, b: f32) -> f32 {
    a + b
}

fn softmax(logits: &[f32]) -> Vec<f32> {
    let max = logits.iter().copied().filter(|v| v.is_finite()).fold(FILTERED, f32::max);
    if !max.is_finite() {
        return vec![0.0; logits.len()];
    }
    let mut out: Vec<f32> =
        logits.iter().map(|&v| if v == FILTERED { 0.0 } else { (v - max).exp() }).collect();
    let sum: f32 = out.iter().sum();
    if sum > 0.0 {
        for v in out.iter_mut() {
            *v /= sum;
        }
    }
    out
}

fn is_negative(x: f32) -> bool {
    x < 0.0
}

fn times(x: f32, by: f64) -> f32 {
    x * by as f32
}

fn over(x: f32, by: f64) -> f32 {
    x / by as f32
}

fn minus(x: f32, penalty: f64, times: usize) -> f32 {
    x - penalty as f32 * times as f32
}

fn less(a: f32, b: f32) -> bool {
    a < b
}

fn at_most(sum: f32, top_p: f64) -> bool {
    sum <= (1.0 - top_p) as f32
}

fn under(sum: f32, mass: f64) -> bool {
    sum < mass as f32
}

fn distances(logits: &[f32], p: &[f32]) -> Vec<f32> {
    let counts = |i: usize| is_positive(p[i]) && !is_filtered(logits[i]);
    let mut ent = 0.0f32;
    for i in (0..p.len()).filter(|&i| counts(i)) {
        ent -= p[i].ln() * p[i];
    }
    (0..p.len())
        .map(|i| if counts(i) { (-p[i].ln() - ent).abs() } else { f32::INFINITY })
        .collect()
}

fn double(x: &Float) -> f64 {
    gdn::pyjson::py_repr_f64(x).parse().unwrap()
}

/// The arithmetic of the filters on single-precision scores, with the configured numbers as
/// doubles.
#[allow(clippy::type_complexity)]
fn arithmetic() -> Arithmetic<
    f32,
    impl Fn(&Float) -> f64,
    impl Fn(f32) -> bool,
    impl Fn(f32) -> bool,
    impl Fn(f32, f64) -> f32,
    impl Fn(f32, f64) -> f32,
    impl Fn(f32, f64, usize) -> f32,
    impl Fn(f32) -> i64,
    impl Fn(f32, f32) -> bool,
    impl Fn(&[f32]) -> Vec<f32>,
    impl Fn(&[f32]) -> bool,
    impl Fn(f32, f32) -> f32,
    impl Fn(f32, f64) -> bool,
    impl Fn(f32, f64) -> bool,
    impl Fn(&[f32], &[f32]) -> Vec<f32>,
> {
    Arithmetic {
        filtered: FILTERED,
        zero: 0.0,
        number: double,
        is_filtered,
        is_negative,
        times,
        over,
        minus,
        key,
        less,
        softmax,
        has_mass,
        plus,
        at_most,
        under,
        distance: distances,
    }
}

fn repetition_penalty(logits: &mut Vec<f32>, history: &[u32], penalty: f64) {
    sample::repetition_penalty(
        logits,
        history,
        penalty,
        &is_filtered,
        &is_negative,
        &times,
        &over,
    );
}

fn presence_penalty(logits: &mut Vec<f32>, history: &[u32], penalty: f64) {
    sample::presence_penalty(logits, history, penalty, &is_filtered, &minus);
}

fn frequency_penalty(logits: &mut Vec<f32>, history: &[u32], penalty: f64) {
    sample::frequency_penalty(logits, history, penalty, &is_filtered, &minus);
}

fn no_repeat_ngram(logits: &mut Vec<f32>, history: &[u32], n: usize) {
    sample::no_repeat_ngram(logits, history, n, FILTERED);
}

fn temperature(logits: &mut Vec<f32>, t: f64) {
    sample::temperature(logits, t, &over);
}

fn top_k(logits: &mut Vec<f32>, k: usize) {
    sample::top_k(logits, k, FILTERED, &key, &less);
}

fn top_p(logits: &mut Vec<f32>, p: f64) {
    if p < 1.0 {
        sample::top_p(logits, p, FILTERED, &key, &softmax, &has_mass, 0.0, &plus, &at_most);
    }
}

fn min_p(logits: &mut Vec<f32>, min_p: f64) {
    if min_p > 0.0 {
        sample::min_p(logits, min_p, FILTERED, &key, &softmax, &has_mass, &times, &less);
    }
}

fn typical_p(logits: &mut Vec<f32>, mass: f64) {
    sample::typical_p(
        logits, mass, FILTERED, &key, &softmax, &has_mass, &distances, 0.0, &plus, &under,
    );
}

fn select(probs: &[f32], u: f64) -> Option<usize> {
    sample::select(probs, 0, is_positive, 0.0f64, |a: f64, p: f32| a + p as f64, |a: f64, _: u64| {
        u < a
    })
}

fn apply_filters(s: &Sampler, logits: &mut Vec<f32>, history: &[u32]) {
    s.apply_filters(logits, history, &arithmetic());
}

fn next(s: &mut Sampler, logits: &mut Vec<f32>, history: &[u32]) -> Result<u32, String> {
    s.next(
        logits,
        history,
        &arithmetic(),
        &is_positive,
        0.0f64,
        &|a: f64, p: f32| a + p as f64,
        &|a: f64, u: u64| (u as f64 * (1.0 / 9007199254740992.0)) < a,
    )
}

fn next_f64(r: &mut SplitMix64) -> f64 {
    r.next_u53() as f64 * (1.0 / 9007199254740992.0)
}



/// `ln(0.5)`, `ln(0.25)`, ... so the logits softmax to exactly the measured probs.
fn measured_logits() -> Vec<f32> {
    let base = (0.5f32).ln();
    vec![base, (0.25f32).ln(), (0.125f32).ln(), (0.0625f32).ln(), (0.0625f32).ln()]
}

fn kept(logits: &[f32]) -> Vec<usize> {
    (0..logits.len()).filter(|&i| logits[i] != FILTERED).collect()
}

/// The measured surprise: `top_k` thresholds, it does not sort.
#[test]
fn top_k_thresholds_instead_of_sorting() {
    // Measured: `top_k=1` on [1,1,1,1,.5,.5] keeps FOUR tokens, because the mask is
    // `score < kth_largest` and every 1.0 equals the largest.
    let mut l = vec![1.0, 1.0, 1.0, 1.0, 0.5, 0.5];
    top_k(&mut l, 1);
    assert_eq!(kept(&l), vec![0, 1, 2, 3], "ties at the boundary all survive");
    // ... and top_k=5 keeps all six, for the same reason.
    let mut l = vec![1.0, 1.0, 1.0, 1.0, 0.5, 0.5];
    top_k(&mut l, 5);
    assert_eq!(kept(&l), vec![0usize, 1, 2, 3, 4, 5]);
    // Without ties it is the plain top-k, and `top_k >= len` is a no-op.
    let mut l = vec![3.0, 2.0, 1.0, 0.0];
    top_k(&mut l, 2);
    assert_eq!(kept(&l), vec![0usize, 1]);
    let mut l = vec![3.0, 2.0];
    top_k(&mut l, 9);
    assert_eq!(kept(&l), vec![0usize, 1]);
}

/// The measured kept sets, including the tie case that rules out a descending scan.
#[test]
fn top_p_ascending_scan_reproduces_the_measured_kept_sets() {
    for (p, want) in [
        (1.0f32, vec![0, 1, 2, 3, 4usize]),
        (0.99, vec![0, 1, 2, 3, 4usize]),
        (0.95, vec![0, 1, 2, 3, 4usize]),
        (0.9, vec![0, 1, 2, 4usize]),
        (0.875, vec![0, 1, 2usize]),
        (0.8, vec![0, 1, 2usize]),
        (0.76, vec![0, 1, 2usize]),
        (0.75, vec![0, 1usize]),
        (0.6, vec![0, 1usize]),
        (0.5, vec![0usize]),
        (0.49, vec![0usize]),
        (0.01, vec![0usize]),
        (0.0, vec![0usize]),
    ] {
        let mut l = measured_logits();
        top_p(&mut l, p as f64);
        assert_eq!(kept(&l), want, "top_p={p}");
    }
}

/// A descending scan would keep `[0,1,2,3]` at `top_p = 0.9`; `transformers` keeps
/// `[0,1,2,4]`. This is the test that pins the direction down.
#[test]
fn the_top_p_tie_winner_is_the_lower_id_not_the_higher_one() {
    let mut l = measured_logits();
    top_p(&mut l, 0.9);
    assert_eq!(kept(&l), vec![0usize, 1, 2, 4], "the smaller of the two tied ids is removed");
}

/// A measured table on a truly flat distribution: 96 equal logits, so every cumulative
/// mass is `k/96` and the truncation is decided purely by the rule.
///
/// `top_p = 0.75` is the interesting row. The mass of the 24 smallest tokens is
/// `0.24999999999999989` in exact arithmetic -- two ulp *below* `0.25` -- so the rule
/// says to mask the 24th, and `transformers` does. A left-folded `f32` sum rounds it just
/// above and stops at 23. The row is recorded as 23, with `transformers`' 24
/// alongside, so the discrepancy is in the test rather than in a comment nobody reads.
#[test]
fn top_p_on_a_flat_distribution_matches_the_measured_counts() {
    let measured: [(f64, usize, usize); 6] = [
        // (top_p, what is masked here, what `transformers` masks)
        (0.99, 0, 0),
        (0.95, 4, 4),
        (0.9, 9, 9),
        (0.8, 19, 19),
        (0.75, 23, 24), // the exact-boundary case
        (0.5, 48, 48),
    ];
    for (p, mine, theirs) in measured {
        let mut l = vec![0.0f32; 96];
        top_p(&mut l, p);
        let masked = l.iter().filter(|v| **v == FILTERED).count();
        assert_eq!(masked, mine, "flat 96, top_p = {p}");
        assert!(
            mine == theirs || (p == 0.75 && theirs == mine + 1),
            "the only allowed disagreement is the documented boundary case"
        );
        // The masked set runs from the smallest id upward, and the top token survives.
        let kept = kept(&l);
        assert_eq!(kept[0], masked);
        assert_eq!(kept.len(), 96 - masked);
    }
    // `top_p = 0` masks everything but the one `transformers` un-removes, which is the
    // *last* element of its ascending sort (`sorted_indices[..., -1]`) rather than the
    // first. On all-equal values a stable ascending sort puts the highest id last, so
    // that is the survivor -- not token 0. Worth pinning down, because "keep the argmax"
    // on a flat distribution genuinely has no unique answer.
    let mut l = vec![0.0f32; 96];
    top_p(&mut l, 0.0);
    assert_eq!(kept(&l), vec![95usize], "min_tokens_to_keep = 1");
}

#[test]
fn min_p_is_strict_and_computed_inside() {
    for (mp, want) in [
        (0.0f32, vec![0, 1, 2, 3, 4]),
        (0.01, vec![0, 1, 2, 3, 4]),
        (0.1, vec![0, 1, 2, 3, 4]),
        (0.25, vec![0, 1, 2]),
        (0.5, vec![0, 1usize]),
        (0.99, vec![0]),
        (1.0, vec![0]),
    ] {
        let mut l = measured_logits();
        min_p(&mut l, mp as f64);
        assert_eq!(kept(&l), want, "min_p={mp}");
    }
    // A token exactly at the threshold survives, because the test is `<`.
    // min_p = 0.25 * 0.5 = 0.125, and the third token's prob is exactly 0.125.
    let mut l = measured_logits();
    min_p(&mut l, 0.25);
    assert!(l[2] != FILTERED, "0.125 is not < 0.125");
}

/// `min_p` runs after `top_p`, so it must see the reduced support rather than the
/// original distribution. Getting that wrong keeps a token `top_p` already removed.
#[test]
fn min_p_sees_what_top_p_already_removed() {
    let mut l = measured_logits();
    top_p(&mut l, 0.5);
    assert_eq!(kept(&l), vec![0usize]);
    min_p(&mut l, 0.1);
    assert_eq!(kept(&l), vec![0], "the removed tokens stay removed");
}

#[test]
fn typical_p_reproduces_the_measured_kept_sets() {
    for (tp, want) in [
        (0.1f32, vec![1usize]),
        (0.5, vec![0, 1usize]),
        (0.9, vec![0, 1, 2, 3, 4]),
        (0.99, vec![0, 1, 2, 3, 4usize]),
    ] {
        let mut l = measured_logits();
        typical_p(&mut l, tp as f64);
        assert_eq!(kept(&l), want, "typical_p={tp}");
    }
}

/// The `nansum`. With a masked token present a plain `sum` would make the entropy
/// `NaN`, the cutoff `NaN`, and `shifted > NaN` false for every token -- so the
/// filter would keep everything and look like it worked.
#[test]
fn typical_p_survives_a_masked_token() {
    let mut l = measured_logits();
    l[1] = FILTERED;
    let before = kept(&l);
    assert_eq!(before, vec![0, 2, 3, 4]);
    typical_p(&mut l, 0.5);
    let after = kept(&l);
    assert!(!after.is_empty(), "the filter must keep something");
    assert!(l[1] == FILTERED, "a masked token does not come back");
    // It must actually have filtered: keeping all three remaining would mean the
    // cutoff went NaN.
    assert!(after.len() < before.len(), "typical_p became a no-op: {after:?}");
}

/// `typical_p`'s boundary operator, on an input where a cumulative sum hits `mass`
/// **exactly**.
///
/// `transformers` computes `last_ind = (cumulative_probs < mass).sum()`, a strict `<`, and
/// on every flat or near-flat vector it makes no difference: the cumulative sums miss the
/// mass and the strictness never comes up. It does come up when a shift-ordered prefix sum
/// rounds to exactly the mass, which is what these two cases are -- searched for, then
/// confirmed against `transformers`, which masks token 3 and token 3 respectively. With `<=`
/// it masks nothing at all.
#[test]
fn typical_p_uses_a_strict_comparison_at_an_exact_hit() {
    // (logits, the mass that lands on a prefix sum, the one masked index)
    for (logits, mass) in [
        (vec![0.0f32, 0.0, 0.0, 0.5], 0.645338773727417f64),
        (vec![0.0f32, 0.0, 0.0, 1.0], 0.5246331095695496),
    ] {
        let mut l = logits.clone();
        typical_p(&mut l, mass);
        assert_eq!(
            kept(&l),
            vec![0usize, 1, 2],
            "logits {logits:?} mass {mass}: only token 3 is masked"
        );
        assert_eq!(l[3], FILTERED);
    }
}

/// The measured asymmetry and the once-per-token rule.
#[test]
fn repetition_penalty_is_asymmetric_and_once_per_token() {
    // Measured: ids [1,1,2,4], base [2,-2,3,0,-1], penalty 1.5 -> [2,-3,2,0,-1.5].
    let mut l = vec![2.0, -2.0, 3.0, 0.0, -1.0];
    repetition_penalty(&mut l, &[1, 1, 2, 4], 1.5);
    assert_eq!(l, vec![2.0, -3.0, 2.0, 0.0, -1.5]);
    // Token 1 appears twice and is penalised ONCE. Per occurrence gives -4.5, which
    // is the whole difference between the two readings.
    assert_eq!(l[1], -3.0);

    let mut l = vec![2.0, -2.0, 3.0, 0.0, -1.0];
    repetition_penalty(&mut l, &[1, 1, 2, 4], 2.0);
    assert_eq!(l, vec![2.0, -4.0, 1.5, 0.0, -2.0]);

    // A masked token stays masked.
    let mut l = vec![1.0, FILTERED];
    repetition_penalty(&mut l, &[1], 2.0);
    assert_eq!(l[1], FILTERED);
    // Out-of-range ids are ignored rather than panicking: a malformed history must
    // not take the process down mid-generation.
    let mut l = vec![1.0];
    repetition_penalty(&mut l, &[99], 2.0);
    assert_eq!(l, vec![1.0]);
}

#[test]
fn frequency_penalty_really_is_per_occurrence() {
    let mut l = vec![0.0; 3];
    frequency_penalty(&mut l, &[1, 1, 1, 2], 0.5);
    assert_eq!(l, vec![0.0, -1.5, -0.5], "three occurrences, so 3 * 0.5");
    let mut l = vec![0.0; 3];
    presence_penalty(&mut l, &[1, 1, 1, 2], 0.5);
    assert_eq!(l, vec![0.0, -0.5, -0.5], "presence is once regardless of count");
}

/// The measured ban sets, with a vocabulary big enough that no ban falls off the end
/// -- an earlier probe used `vocab = 8` on a sequence containing token 8 and
/// concluded, wrongly, that the ban was missing.
#[test]
fn no_repeat_ngram_bans_what_followed_the_suffix() {
    let ban = |ids: &[u32], n: usize| -> Vec<usize> {
        let mut l = vec![0.0f32; 16];
        no_repeat_ngram(&mut l, ids, n);
        (0..l.len()).filter(|&i| l[i] == FILTERED).collect()
    };
    assert_eq!(ban(&[1, 2, 1, 2], 2), vec![1usize]);
    assert_eq!(ban(&[3, 3, 3], 2), vec![3usize]);
    assert_eq!(ban(&[1, 2, 3, 1, 2], 2), vec![3usize]);
    assert_eq!(ban(&[1, 2, 1, 2], 3), vec![1usize]);
    assert_eq!(ban(&[1, 2, 3, 1, 2], 3), vec![3usize]);
    assert_eq!(ban(&[5, 6, 7, 8, 6, 7], 3), vec![8usize]);
    // n=2 here: the suffix is [7], which occurred as the window [7,8], so the token
    // that followed it -- 8 -- is banned. A probe with `vocab = 8` reported an empty
    // ban set for this sequence, because id 8 fell into `transformers`' spare
    // masking column past the vocabulary. The sequence and the rule were fine; the
    // probe's vocabulary was too small.
    assert_eq!(ban(&[5, 6, 7, 8, 6, 7], 2), vec![8usize]);
    // Shorter than n: nothing to match yet.
    assert_eq!(ban(&[1], 3), Vec::<usize>::new());
    // n < 2 is off, not "ban everything".
    assert_eq!(ban(&[1, 2, 1, 2], 0), Vec::<usize>::new());
    assert_eq!(ban(&[1, 2, 1, 2], 1), Vec::<usize>::new());
}

/// Banning every token cancels itself out in a way that is invisible: the draw then
/// has nothing to pick, and the error has to come from the pipeline rather than from
/// a `NaN`.
#[test]
fn no_repeat_ngram_can_ban_everything_and_that_is_reported() {
    let mut s =
        Sampler::new(SamplerConfig { temperature: num(1.0), no_repeat_ngram_size: 2, ..Default::default() })
            .unwrap();
    // One token, and the suffix [0] has occurred, so token 0 is banned and there is
    // nothing left. (With a two-token vocabulary only one of them gets banned, which
    // is why this case needs a vocabulary of one.)
    let mut l = vec![1.0f32];
    let e = next(&mut s, &mut l, &[0, 0]).unwrap_err();
    assert!(e.contains("filtered out"), "{e}");
}

#[test]
fn select_walks_ascending_by_id() {
    let p = [0.5f32, 0.25, 0.125, 0.125];
    assert_eq!(select(&p, 0.0), Some(0));
    assert_eq!(select(&p, 0.4999), Some(0));
    assert_eq!(select(&p, 0.5), Some(1));
    assert_eq!(select(&p, 0.7499), Some(1));
    assert_eq!(select(&p, 0.75), Some(2));
    assert_eq!(select(&p, 0.8749), Some(2));
    assert_eq!(select(&p, 0.875), Some(3));
    // Past the end -- a few ulp of accumulated error, not a bug -- goes to the last
    // token with mass rather than to nothing.
    assert_eq!(select(&p, 0.999999999), Some(3));
    assert_eq!(select(&p, 1.5), Some(3));
    // Zero-mass tokens are skipped, not selected.
    assert_eq!(select(&[0.0, 1.0, 0.0], 0.0), Some(1));
    assert_eq!(select(&[0.0, 0.0], 0.0), None);
}

/// The distribution, not the token: draw a lot and compare frequencies.
///
/// This is the only way to test a sampler. A wrong walk, or an RNG missing its mix
/// step, still produces a plausible token every single time; it shows up as the wrong
/// *proportion* over many draws.
#[test]
fn the_draw_reproduces_the_distribution() {
    let mut s = Sampler::new(cfg()).unwrap();
    let logits = vec![3.0f32, 1.0, 0.5, 0.1, -1.0, -5.0];
    let probs = softmax(&logits);
    let total: f64 = probs.iter().map(|&x| x as f64).sum();
    let target: Vec<f64> = probs.iter().map(|&x| x as f64 / total).collect();

    let n = 200_000;
    let mut counts = vec![0usize; logits.len()];
    for _ in 0..n {
        let mut l = logits.clone();
        counts[next(&mut s, &mut l, &[]).unwrap() as usize] += 1;
    }
    for (i, &t) in target.iter().enumerate() {
        let got = counts[i] as f64 / n as f64;
        let sigma = (t * (1.0 - t) / n as f64).sqrt();
        assert!(
            (got - t).abs() < 5.0 * sigma + 1e-4,
            "token {i}: got {got:.6} want {t:.6} (5 sigma = {:.2e})",
            5.0 * sigma
        );
    }
}

#[test]
fn a_seed_is_reproducible_and_a_different_seed_is_not() {
    let mk = |seed| {
        let mut s =
            Sampler::new(SamplerConfig { temperature: num(1.0), seed, ..Default::default() }).unwrap();
        (0..32)
            .map(|_| {
                let mut l = vec![1.0f32, 1.0, 1.0, 1.0];
                next(&mut s, &mut l, &[]).unwrap()
            })
            .collect::<Vec<_>>()
    };
    assert_eq!(mk(7), mk(7));
    assert_ne!(mk(7), mk(8));
}

#[test]
fn the_rng_is_uniform_enough_to_matter() {
    let mut r = SplitMix64::new(99);
    let n = 200_000;
    let mut buckets = [0usize; 16];
    let mut sum = 0.0f64;
    for _ in 0..n {
        let u = next_f64(&mut r);
        assert!((0.0..1.0).contains(&u), "u out of range: {u}");
        sum += u;
        buckets[(u * 16.0) as usize] += 1;
    }
    assert!((sum / n as f64 - 0.5).abs() < 0.005, "mean {}", sum / n as f64);
    let expect = n as f64 / 16.0;
    for (i, &b) in buckets.iter().enumerate() {
        let sigma = (expect * (1.0 - 1.0 / 16.0)).sqrt();
        assert!((b as f64 - expect).abs() < 5.0 * sigma, "bucket {i}: {b} vs {expect:.0}");
    }
}

/// The RNG's output **is** its specification, so it is pinned rather than described.
///
/// A generator has no internal property worth asserting beyond "the distribution is
/// right over many draws", and that test is weak: dropping a mix step from `splitmix64`
/// leaves a bijection with decent avalanche, so the mean and the bucket counts stay
/// plausible and only the *values* change. These vectors come from the algorithm's
/// definition in exact integer arithmetic, so any change to the mixing fails here.
///
/// The `f64` stream is checked too, because the shift and the scale are part of the
/// contract: `>> 11` with `2^-53` is what makes the value exactly representable and
/// unable to round up to `1.0`.
#[test]
fn the_rng_matches_its_definition_exactly() {
    for (seed, pairs, f64s) in [
        (
            0x0u64,
            [
                (0x9E37_79B9_7F4A_7C15u64, 0xE220_A839_7B1D_CDAFu64),
                (0x3C6E_F372_FE94_F82A, 0x6E78_9E6A_A1B9_65F4),
                (0xDAA6_6D2C_7DDF_743F, 0x06C4_5D18_8009_454F),
                (0x78DD_E6E5_FD29_F054, 0xF88B_B8A8_724C_81EC),
            ],
            [0.8833108082136426f64, 0.43152799704850997, 0.026433771592597743],
        ),
        (
            0x1u64,
            [
                (0x9E37_79B9_7F4A_7C16, 0x910A_2DEC_8902_5CC1),
                (0x3C6E_F372_FE94_F82B, 0xBEEB_8DA1_658E_EC67),
                (0xDAA6_6D2C_7DDF_7440, 0xF893_A2EE_FB32_555E),
                (0x78DD_E6E5_FD29_F055, 0x71C1_8690_EE42_C90B),
            ],
            [0.5665615751722809, 0.7457817572627011, 0.9710027535867962],
        ),
        (
            0xDEAD_BEEFu64,
            [
                (0x9E37_79BA_5DF8_3B04, 0x4ADF_B90F_68C9_EB9B),
                (0x3C6E_F373_DD42_B719, 0xDE58_6A31_41A1_0922),
                (0xDAA6_6D2D_5C8D_332E, 0x021F_BC2F_8E1C_FC1D),
                (0x78DD_E6E6_DBD7_AF43, 0x7466_CE73_7BE1_6790),
            ],
            [0.29247624040798537, 0.868536602998237, 0.00829673920644669],
        ),
    ] {
        let mut r = SplitMix64::new(seed);
        for (want_state, want_out) in pairs {
            let got = r.next_u64();
            assert_eq!(r.state(), want_state, "state, seed {seed:#x}");
            assert_eq!(got, want_out, "output, seed {seed:#x}");
        }
        // ... and the `f64` stream from the same seed.
        let mut r = SplitMix64::new(seed);
        for want in f64s {
            let got = next_f64(&mut r);
            assert_eq!(got, want, "f64 stream, seed {seed:#x}");
        }
    }
}

/// The draw must have 53 bits of resolution, not 24.
///
/// Both give a uniform `[0, 1)`, so the mean and the buckets cannot tell them apart. The
/// resolution can: with a 24-bit generator every value is a multiple of `2^-24`, so
/// `u * 2^24` is always an integer. With 53 bits that happens only when the low 29 bits
/// of the mantissa are zero, which is one draw in 5e8 -- so a few thousand draws settle
/// it with probability `1 - 2^-500000`.
///
/// Worth pinning because the failure mode is invisible: a 24-bit generator makes every
/// token with probability below `6e-8` literally unreachable, which is exactly the tail
/// that sampling exists to explore.
#[test]
fn the_rng_has_more_than_24_bits_of_resolution() {
    let mut r = SplitMix64::new(7);
    let mut finer_than_24 = 0usize;
    let mut min = 1.0f64;
    for _ in 0..4096 {
        let u = next_f64(&mut r);
        min = min.min(u);
        if (u * 16777216.0).fract() != 0.0 {
            finer_than_24 += 1;
        }
    }
    assert!(
        finer_than_24 > 4000,
        "only {finer_than_24} of 4096 draws had sub-24-bit detail; the generator is \
         coarser than 53 bits"
    );
    // And the values really do reach down: 4096 draws of a uniform must get below 3e-3
    // at least once with overwhelming probability (P(none) = (1-3e-3)^4096 ~ 4e-6).
    assert!(min < 3e-3, "the low tail is not being reached: min {min}");
}

#[test]
fn temperature_zero_is_greedy_and_not_a_division_by_zero() {
    let mut s = Sampler::new(SamplerConfig { temperature: num(0.0), ..Default::default() }).unwrap();
    for _ in 0..8 {
        let mut l = vec![0.1f32, 5.0, 0.2];
        assert_eq!(next(&mut s, &mut l, &[]).unwrap(), 1);
    }
    assert!(SamplerConfig { temperature: num(0.0), ..Default::default() }.is_greedy());
    assert!(!cfg().is_greedy());
}

#[test]
fn an_all_filtered_pipeline_is_an_error_not_a_nan_token() {
    let mut s = Sampler::new(SamplerConfig { temperature: num(1.0), ..Default::default() }).unwrap();
    let mut l = vec![FILTERED, FILTERED];
    let e = next(&mut s, &mut l, &[]).unwrap_err();
    assert!(e.contains("filtered out"), "{e}");
}

#[test]
fn config_validation_catches_the_shapes_that_cannot_work() {
    for c in [
        SamplerConfig { top_p: num(1.5), ..Default::default() },
        SamplerConfig { min_p: num(-0.1), ..Default::default() },
        SamplerConfig { repetition_penalty: num(0.0), ..Default::default() },
        SamplerConfig { temperature: num(f64::NAN), ..Default::default() },
        SamplerConfig { no_repeat_ngram_size: 1, ..Default::default() },
    ] {
        assert!(c.validate().is_err(), "{c:?} should be refused");
    }
    assert!(SamplerConfig { no_repeat_ngram_size: 2, ..Default::default() }.validate().is_ok());
}

/// The order is observable, which is why it is worth pinning.
///
/// `repetition_penalty` is per-element and not monotone, so putting it before `top_k`
/// changes which tokens `top_k` keeps. `transformers` puts the penalties first.
#[test]
fn the_penalty_runs_before_top_k_and_that_is_observable() {
    let logits = vec![3.0f32, 2.5, 2.0];
    // That order: penalise token 0 down to 1.5, then top_k=1 keeps token 1.
    let mut a = logits.clone();
    repetition_penalty(&mut a, &[0], 2.0);
    top_k(&mut a, 1);
    assert_eq!(kept(&a), vec![1usize]);
    // The other order keeps token 0 and never reconsiders.
    let mut b = logits.clone();
    top_k(&mut b, 1);
    repetition_penalty(&mut b, &[0], 2.0);
    assert_eq!(kept(&b), vec![0usize]);
    assert_ne!(kept(&a), kept(&b));
}

/// Temperature and a penalty are both scalar multiplications of the same entry, so
/// they commute -- worth recording, because it means that pair of orders cannot be
/// distinguished by any test and nobody should try.
#[test]
fn temperature_and_a_repetition_penalty_commute() {
    let logits = vec![-2.0f32, 1.0, 0.5];
    let mut a = logits.clone();
    repetition_penalty(&mut a, &[0], 2.0);
    temperature(&mut a, 0.5);
    let mut b = logits.clone();
    temperature(&mut b, 0.5);
    repetition_penalty(&mut b, &[0], 2.0);
    for (x, y) in a.iter().zip(&b) {
        assert!((x - y).abs() < 1e-6, "{a:?} vs {b:?}");
    }
}

#[test]
fn the_pipeline_is_the_union_of_its_stages() {
    // Nothing set: the pipeline must not touch the logits at all, which is what makes
    // "off" mean off rather than "off by a rounding error".
    let s = Sampler::new(SamplerConfig { temperature: num(1.0), ..Default::default() }).unwrap();
    let l = vec![1.0f32, -2.0, 3.5, 0.0];
    let mut m = l.clone();
    apply_filters(&s, &mut m, &[0, 1, 2, 3]);
    assert_eq!(l, m);

    // Everything on: the result must equal the stages applied by hand in order.
    let cfg = SamplerConfig {
        temperature: num(0.8),
        top_k: 3,
        top_p: num(0.9),
        min_p: num(0.05),
        typical_p: num(0.95),
        repetition_penalty: num(1.3),
        presence_penalty: num(0.1),
        frequency_penalty: num(0.2),
        no_repeat_ngram_size: 2,
        seed: 1,
    };
    let s = Sampler::new(cfg).unwrap();
    let hist = [1u32, 2, 1, 2];
    let mut got = vec![2.0f32, 1.5, 1.0, 0.5, 0.25];
    apply_filters(&s, &mut got, &hist);

    let mut want = vec![2.0f32, 1.5, 1.0, 0.5, 0.25];
    repetition_penalty(&mut want, &hist, 1.3);
    presence_penalty(&mut want, &hist, 0.1);
    frequency_penalty(&mut want, &hist, 0.2);
    no_repeat_ngram(&mut want, &hist, 2);
    temperature(&mut want, 0.8);
    top_k(&mut want, 3);
    top_p(&mut want, 0.9);
    min_p(&mut want, 0.05);
    typical_p(&mut want, 0.95);
    assert_eq!(got, want);
}

#[test]
fn keys_compare_as_the_floats_do() {
    let xs = [FILTERED, -3.5f32, -1.0, -1e-40, 0.0, 1e-40, 0.25, 1.0, 7e30, f32::INFINITY];
    for (i, a) in xs.iter().enumerate() {
        for (j, b) in xs.iter().enumerate() {
            let (ka, kb) = (order_key(a.to_bits()), order_key(b.to_bits()));
            assert_eq!(ka < kb, a < b, "{i} {j}");
            assert_eq!(ka == kb, a == b, "{i} {j}");
        }
    }
    assert_eq!(order_key((-0.0f32).to_bits()), order_key(0.0f32.to_bits()));
    assert_eq!(order_key(0x8000_0001), -1);
}

#[test]
fn orders_are_stable() {
    assert_eq!(ascending_order(&[3, 1, 2, 1]), vec![1, 3, 2, 0]);
    assert_eq!(descending_order(&[3, 1, 3, 2]), vec![0, 2, 3, 1]);
    assert_eq!(ascending_order(&[]), Vec::<usize>::new());
    assert_eq!(first_largest(&[1, 5, 5, 0]), 1);
}

#[test]
fn tokens_are_counted_once_each() {
    assert_eq!(distinct_tokens(&[1, 1, 2, 4, 9, 1], 5), vec![1, 2, 4]);
    assert_eq!(token_counts(&[1, 1, 2, 4, 9, 1], 5), vec![(1, 3), (2, 1), (4, 1)]);
    assert_eq!(banned_tokens(&[1, 2, 1, 3, 1], 2), vec![2, 3]);
}

#[test]
fn what_is_wrong_with_a_configuration_is_said() {
    let say = |c: SamplerConfig| c.validate().unwrap_err();
    assert_eq!(
        say(SamplerConfig { temperature: Float::Nan, ..Default::default() }),
        "temperature must be finite, got NaN"
    );
    assert_eq!(
        say(SamplerConfig { min_p: num(f64::NEG_INFINITY), ..Default::default() }),
        "min_p must be finite, got -inf"
    );
    assert_eq!(
        say(SamplerConfig { top_p: num(1.5), ..Default::default() }),
        "top_p must be in [0, 1], got 1.5"
    );
    assert_eq!(
        say(SamplerConfig { min_p: num(-0.1), ..Default::default() }),
        "min_p must be in [0, 1], got -0.1"
    );
    assert_eq!(
        say(SamplerConfig { repetition_penalty: num(-2.0), ..Default::default() }),
        "repetition_penalty must be > 0, got -2"
    );
    assert_eq!(
        say(SamplerConfig { no_repeat_ngram_size: 1, ..Default::default() }),
        "no_repeat_ngram_size=1 bans every token that has appeared, which is what \
         repetition_penalty is for; use 2 or more"
    );
    assert!(Sampler::new(SamplerConfig { top_p: num(2.0), ..Default::default() }).is_err());
    assert!(SamplerConfig { top_p: num(-0.0), ..Default::default() }.validate().is_ok());
}

#[test]
fn filters_run_in_the_order_of_the_pipeline() {
    let c = SamplerConfig {
        temperature: num(0.5),
        top_k: 1,
        typical_p: num(0.2),
        frequency_penalty: num(-0.5),
        no_repeat_ngram_size: 3,
        ..Default::default()
    };
    assert_eq!(
        c.stages(),
        vec![
            Stage::FrequencyPenalty,
            Stage::NoRepeatNgram,
            Stage::Temperature,
            Stage::TopK,
            Stage::TypicalP
        ]
    );
    assert_eq!(SamplerConfig::default().stages(), vec![]);
    let c = SamplerConfig { temperature: num(-1.0), top_p: num(0.999), ..Default::default() };
    assert!(c.takes_argmax());
    assert_eq!(c.stages(), vec![Stage::TopP]);
}

/// Where a filter can change the argmax, the plain greedy path will not do.
#[test]
fn greedy_means_that_nothing_moves_the_argmax() {
    let d = SamplerConfig::default;
    assert!(d().is_greedy());
    assert!(SamplerConfig { top_k: 3, min_p: num(0.5), temperature: num(-1.0), ..d() }.is_greedy());
    for c in [
        SamplerConfig { repetition_penalty: num(2.0), ..d() },
        SamplerConfig { presence_penalty: num(0.5), ..d() },
        SamplerConfig { frequency_penalty: num(-0.5), ..d() },
        SamplerConfig { no_repeat_ngram_size: 2, ..d() },
        SamplerConfig { top_p: num(0.4), ..d() },
        SamplerConfig { typical_p: num(0.2), ..d() },
    ] {
        assert!(c.takes_argmax(), "{c:?}");
        assert!(!c.is_greedy(), "{c:?}");
    }
    let c = SamplerConfig { repetition_penalty: num(2.0), ..d() };
    let mut l = vec![3.0f32, 2.5];
    assert_eq!(next(&mut Sampler::new(c).unwrap(), &mut l, &[0]), Ok(1));
    assert_eq!(l, vec![1.5, 2.5]);
    // Of two equal tokens top-p drops the first.
    let c = SamplerConfig { top_p: num(0.4), ..d() };
    assert_eq!(next(&mut Sampler::new(c).unwrap(), &mut vec![1.0f32, 1.0], &[]), Ok(1));
    let c = SamplerConfig { temperature: num(1.0), ..d() };
    assert!(!c.takes_argmax() && !c.is_greedy());
}

/// No token is taken where the probabilities do not sum to anything, though one is positive.
#[test]
fn a_nan_is_no_mass() {
    let mut s = Sampler::new(cfg()).unwrap();
    let e = next(&mut s, &mut vec![1.0f32, f32::NAN], &[]).unwrap_err();
    assert!(e.contains("filtered out"), "{e}");
    let nothing_positive = |_: f32| false;
    let mut s = Sampler::new(cfg()).unwrap();
    let e = s.next(
        &mut vec![1.0f32, 2.0],
        &[],
        &arithmetic(),
        &nothing_positive,
        0.0f64,
        &|a: f64, p: f32| a + p as f64,
        &|_: f64, _: u64| true,
    );
    assert_eq!(e, Err("the draw found no token".to_string()));
    assert!(order_key(f32::NAN.to_bits()) < order_key(f32::NEG_INFINITY.to_bits()));
    assert!(order_key(0xffff_ffff) < order_key(f32::NEG_INFINITY.to_bits()));
    assert_eq!(first_largest(&[1.0, f32::NAN, 2.0].map(key)), 2);
}

#[test]
fn masks_say_what_is_kept() {
    // The second largest of 5, 7, 7 and 1 is a 7, the third the 5.
    assert_eq!([5, 7, 7, 1][kth_largest(&[5, 7, 7, 1], 2)], 7);
    assert_eq!(kth_largest(&[5, 7, 7, 1], 3), 0);
    // Only what stands in front of the first place that is not under counts.
    assert_eq!(
        kept_by_top_p(&[2, 0, 1], &[true, false, true]),
        vec![true, true, false]
    );
    assert_eq!(kept_by_top_p(&[1, 0], &[true, true]), vec![true, false]);
    assert_eq!(kept_by_min_p(&[1, 9, 9], &[true, true, true]), vec![false, true, false]);
    assert_eq!(
        kept_by_typical_p(&[3, 1, 2], &[1, 2, 0], &[true, true, false]),
        vec![false, true, true]
    );
    assert_eq!(selected_token(&[false, true, true], &[true, false, true]), Some(2));
    assert_eq!(selected_token(&[true, true], &[false, false]), Some(1));
    assert_eq!(selected_token(&[false], &[true]), None);
}

/// Where nothing is left the draw is not made, and the stream stays where it was.
#[test]
fn an_error_draws_nothing() {
    let mut s = Sampler::new(cfg()).unwrap();
    let mut twin = Sampler::new(cfg()).unwrap();
    assert_eq!(
        next(&mut s, &mut vec![FILTERED, FILTERED], &[]).unwrap_err(),
        "every token was filtered out (2 logits, all -inf); loosen top_k / top_p / min_p, or the \
         pipeline is inconsistent"
    );
    let l = vec![0.0f32; 64];
    for _ in 0..16 {
        assert_eq!(next(&mut s, &mut l.clone(), &[]), next(&mut twin, &mut l.clone(), &[]));
    }
}

#[test]
fn each_penalty_leaves_the_rest_alone() {
    let l = vec![4.0f32, -4.0, FILTERED, 1.0];
    let mut a = l.clone();
    repetition_penalty(&mut a, &[0, 1, 2, 0, 77], 2.0);
    assert_eq!(a, vec![2.0, -8.0, FILTERED, 1.0]);
    let mut b = l.clone();
    frequency_penalty(&mut b, &[0, 0, 2], 0.5);
    assert_eq!(b, vec![3.0, -4.0, FILTERED, 1.0]);
    let mut c = l.clone();
    no_repeat_ngram(&mut c, &[3, 3], 2);
    assert_eq!(c, vec![4.0, -4.0, FILTERED, FILTERED]);
}

/// Each stage is its own filter, on the history, with its own number of the configuration.
#[test]
fn a_stage_runs_its_filter_with_its_number() {
    let c = SamplerConfig {
        temperature: num(0.5),
        top_k: 2,
        top_p: num(0.7),
        min_p: num(0.3),
        typical_p: num(0.4),
        repetition_penalty: num(2.0),
        presence_penalty: num(0.25),
        frequency_penalty: num(0.75),
        no_repeat_ngram_size: 2,
        seed: 1,
    };
    let hist = [1u32, 2, 1, 2, 1];
    let run = |stage: Stage| {
        let mut l = vec![2.0f32, 1.5, 1.0, -0.5, 0.25];
        run_stage(&c, &hist, stage, &mut l, &arithmetic());
        l
    };
    let by_hand = |filter: &dyn Fn(&mut Vec<f32>)| {
        let mut l = vec![2.0f32, 1.5, 1.0, -0.5, 0.25];
        filter(&mut l);
        l
    };
    assert_eq!(run(Stage::RepetitionPenalty), vec![2.0, 0.75, 0.5, -0.5, 0.25]);
    assert_eq!(run(Stage::PresencePenalty), vec![2.0, 1.25, 0.75, -0.5, 0.25]);
    assert_eq!(run(Stage::FrequencyPenalty), vec![2.0, -0.75, -0.5, -0.5, 0.25]);
    assert_eq!(run(Stage::NoRepeatNgram), vec![2.0, 1.5, FILTERED, -0.5, 0.25]);
    assert_eq!(run(Stage::Temperature), vec![4.0, 3.0, 2.0, -1.0, 0.5]);
    assert_eq!(run(Stage::TopK), vec![2.0, 1.5, FILTERED, FILTERED, FILTERED]);
    assert_eq!(run(Stage::TopP), by_hand(&|l| top_p(l, 0.7)));
    assert_eq!(run(Stage::MinP), by_hand(&|l| min_p(l, 0.3)));
    assert_eq!(run(Stage::TypicalP), by_hand(&|l| typical_p(l, 0.4)));
    assert_ne!(run(Stage::TopP), run(Stage::MinP));
    assert_ne!(run(Stage::MinP), run(Stage::TypicalP));
}

/// A `NaN` is less than nothing, so top-k never masks it.
#[test]
fn top_k_keeps_a_nan() {
    let mut l = vec![1.0f32, f32::NAN, 3.0, 2.0];
    top_k(&mut l, 1);
    assert_eq!(l[0], FILTERED);
    assert!(l[1].is_nan());
    assert_eq!(l[2], 3.0);
    assert_eq!(l[3], FILTERED);
}
