use gdn::mixer::{forward_with_state, GdnConfig, GdnWeights};
use gdn::model::{embed, mixer_kind, AttnState, Cache, LayerKind, MixerState, ModelConfig, ModelTrace, Network};

const EPS: f32 = 1e-6;

fn silu(x: f32) -> f32 {
    x / (1.0 + (-x).exp())
}

fn dot(a: &[f32], b: &[f32]) -> f32 {
    a.iter().zip(b).map(|(x, y)| *x as f64 * *y as f64).sum::<f64>() as f32
}

fn cell(a: &[f32], b: &[f32], _: usize) -> f32 {
    dot(a, b)
}

fn linear(w: &[f32], x: &[f32], rows: usize, in_dim: usize, out_dim: usize) -> Vec<f32> {
    gdn::tensor::linear(w, x, rows, in_dim, out_dim, cell)
}

fn norm_rows(w: &[f32], x: &[f32]) -> Vec<f32> {
    let mut y = vec![];
    for row in x.chunks(w.len()) {
        let inv = 1.0f32 / (dot(row, row) / row.len() as f32 + EPS).sqrt();
        y.extend(row.iter().zip(w).map(|(v, s)| v * inv * (1.0 + s)));
    }
    y
}

struct Attn {
    head_dim: usize,
    rotary_dim: usize,
    rope_theta: f32,
    q_proj: Vec<f32>,
    k_proj: Vec<f32>,
    v_proj: Vec<f32>,
    o_proj: Vec<f32>,
    q_norm: Vec<f32>,
    k_norm: Vec<f32>,
}

struct Layer {
    kind: LayerKind,
    input_layernorm: Vec<f32>,
    post_attention_layernorm: Vec<f32>,
    gate_proj: Vec<f32>,
    up_proj: Vec<f32>,
    down_proj: Vec<f32>,
    gdn: Option<GdnWeights<f32>>,
    attn: Option<Attn>,
}

struct Model {
    cfg: ModelConfig,
    gdn: GdnConfig,
    embed_tokens: Vec<f32>,
    final_norm: Vec<f32>,
    lm_head: Vec<f32>,
    layers: Vec<Layer>,
}

fn tiny() -> Model {
    let hidden = 4usize;
    let vocab = 6usize;
    let gdn = GdnConfig {
        hidden,
        num_k_heads: 1,
        num_v_heads: 1,
        head_k_dim: 2,
        head_v_dim: 2,
        conv_kernel: 2,
    };
    let head_dim = 4usize;
    let conv_dim = gdn.conv_dim();
    let value_dim = gdn.value_dim();
    let layer = |kind, gdn, attn| Layer {
        kind,
        input_layernorm: vec![1.0; hidden],
        post_attention_layernorm: vec![1.0; hidden],
        gate_proj: vec![0.01; 8 * hidden],
        up_proj: vec![0.01; 8 * hidden],
        down_proj: vec![0.01; hidden * 8],
        gdn,
        attn,
    };
    let lin = layer(
        LayerKind::LinearAttention,
        Some(GdnWeights {
            in_proj_qkv: vec![0.02; conv_dim * hidden],
            in_proj_z: vec![0.02; value_dim * hidden],
            in_proj_b: vec![0.0; hidden],
            in_proj_a: vec![0.0; hidden],
            conv1d: vec![0.5; conv_dim * gdn.conv_kernel],
            a_log: vec![0.1; 1],
            dt_bias: vec![0.0; 1],
            norm: vec![1.0; 2],
            out_proj: vec![0.02; hidden * value_dim],
        }),
        None,
    );
    let full = layer(
        LayerKind::FullAttention,
        None,
        Some(Attn {
            head_dim,
            rotary_dim: 2,
            rope_theta: 10000.0,
            q_proj: vec![0.02; 2 * head_dim * hidden],
            k_proj: vec![0.02; head_dim * hidden],
            v_proj: vec![0.02; head_dim * hidden],
            o_proj: vec![0.02; hidden * head_dim],
            q_norm: vec![1.0; head_dim],
            k_norm: vec![1.0; head_dim],
        }),
    );
    Model {
        cfg: ModelConfig { vocab, hidden },
        gdn,
        embed_tokens: (0..vocab * hidden).map(|i| (i % 7) as f32 * 0.1).collect(),
        final_norm: vec![1.0; hidden],
        lm_head: vec![0.05; vocab * hidden],
        layers: vec![lin, full],
    }
}

/// Rotates the first `rotary_dim` values of a row for an absolute position.
fn rotate(a: &Attn, row: &mut [f32], position: usize) {
    let half = a.rotary_dim / 2;
    for i in 0..half {
        let angle = position as f32 / a.rope_theta.powf(2.0 * i as f32 / a.rotary_dim as f32);
        let (x, y) = (row[i], row[i + half]);
        row[i] = x * angle.cos() - y * angle.sin();
        row[i + half] = y * angle.cos() + x * angle.sin();
    }
}

/// One head of gated causal attention over everything that the state holds.
fn attend(a: &Attn, x: &[f32], hidden: usize, start: usize, st: &mut AttnState<f32>) -> Vec<f32> {
    let (t, d) = (x.len() / hidden, a.head_dim);
    let mixed = linear(&a.q_proj, x, t, hidden, 2 * d);
    let mut k = norm_rows(&a.k_norm, &linear(&a.k_proj, x, t, hidden, d));
    for ti in 0..t {
        rotate(a, &mut k[ti * d..(ti + 1) * d], start + ti);
    }
    st.k.extend(k);
    st.v.extend(linear(&a.v_proj, x, t, hidden, d));
    let mut out = vec![];
    for ti in 0..t {
        let mut q = norm_rows(&a.q_norm, &mixed[ti * 2 * d..ti * 2 * d + d]);
        let gate = &mixed[ti * 2 * d + d..(ti + 1) * 2 * d];
        rotate(a, &mut q, start + ti);
        let scores: Vec<f32> = (0..start + ti + 1)
            .map(|s| (dot(&q, &st.k[s * d..(s + 1) * d]) / (d as f32).sqrt()).exp())
            .collect();
        let total: f32 = scores.iter().sum();
        for j in 0..d {
            let mut acc = 0f32;
            for (s, p) in scores.iter().enumerate() {
                acc += p / total * st.v[s * d + j];
            }
            out.push(acc / (1.0 + (-gate[j]).exp()));
        }
    }
    linear(&a.o_proj, &out, t, d, hidden)
}

/// The gated delta rule for one head, from its state.
fn delta_rule(
    kd: usize,
    vd: usize,
    q: &[f32],
    k: &[f32],
    v: &[f32],
    g: &[f32],
    beta: &[f32],
    start: Option<&[f32]>,
) -> (Vec<f32>, Vec<f32>) {
    let mut s = start.map(|s| s.to_vec()).unwrap_or(vec![0f32; kd * vd]);
    let mut out = vec![];
    for ti in 0..g.len() {
        let (qr, kr) = (&q[ti * kd..(ti + 1) * kd], &k[ti * kd..(ti + 1) * kd]);
        for x in s.iter_mut() {
            *x *= g[ti].exp();
        }
        for j in 0..vd {
            let seen: f32 = (0..kd).map(|i| s[i * vd + j] * kr[i]).sum();
            let delta = (v[ti * vd + j] - seen) * beta[ti];
            for i in 0..kd {
                s[i * vd + j] += kr[i] * delta;
            }
            out.push((0..kd).map(|i| s[i * vd + j] * qr[i]).sum());
        }
    }
    (out, s)
}

fn mix(m: &Model, l: &Layer, start: usize, x: &[f32], st: &mut MixerState<f32>) -> Vec<f32> {
    match st {
        MixerState::LinearAttention(g) => {
            let (kd, vd) = (m.gdn.head_k_dim, m.gdn.head_v_dim);
            forward_with_state(
                &m.gdn,
                l.gdn.as_ref().unwrap(),
                x,
                1,
                x.len() / m.gdn.hidden,
                g,
                0.0,
                cell,
                |w: &[f32], window: &[f32], _: usize| silu(dot(w, window)),
                |b: f32| 1.0 / (1.0 + (-b).exp()),
                |a: f32, a_log: f32, dt: f32| -a_log.exp() * (1.0 + (a + dt).exp()).ln(),
                |q: &[f32], k: &[f32], v: &[f32], g: &[f32], be: &[f32], s: Option<&[f32]>| {
                    delta_rule(kd, vd, q, k, v, g, be, s)
                },
                |w: &[f32], x: &[f32], z: &[f32]| {
                    let inv = 1.0f32 / (dot(x, x) / x.len() as f32 + EPS).sqrt();
                    (0..x.len()).map(|i| w[i] * x[i] * inv * silu(z[i])).collect()
                },
            )
            .out_proj
        }
        MixerState::FullAttention(a) => {
            attend(l.attn.as_ref().unwrap(), x, m.cfg.hidden, start, a)
        }
    }
}

/// A decoder layer: the mixer and the MLP, each behind a norm and a residual.
fn run_layer(
    m: &Model,
    i: usize,
    start: usize,
    h: &[f32],
    st: &MixerState<f32>,
) -> Result<(Vec<f32>, MixerState<f32>), String> {
    let l = &m.layers[i];
    mixer_kind(l.kind, l.gdn.is_some(), l.attn.is_some())?;
    let (t, hidden) = (h.len() / m.cfg.hidden, m.cfg.hidden);
    let mut st = st.clone();
    let mixed = mix(m, l, start, &norm_rows(&l.input_layernorm, h), &mut st);
    let first: Vec<f32> = h.iter().zip(&mixed).map(|(a, b)| a + b).collect();
    let x = norm_rows(&l.post_attention_layernorm, &first);
    let gate = linear(&l.gate_proj, &x, t, hidden, 8);
    let up = linear(&l.up_proj, &x, t, hidden, 8);
    let inner: Vec<f32> = gate.iter().zip(&up).map(|(g, u)| silu(*g) * u).collect();
    let down = linear(&l.down_proj, &inner, t, 8, hidden);
    Ok((first.iter().zip(&down).map(|(a, b)| a + b).collect(), st))
}

fn new_cache(m: &Model) -> Cache<f32> {
    Cache::new(&m.gdn, &kinds(m), 1, 0.0)
}

fn forward(m: &Model, ids: &[u32]) -> Result<ModelTrace<f32>, String> {
    gdn::model::forward(
        &m.cfg,
        &m.embed_tokens,
        &m.lm_head,
        new_cache(m).states,
        ids,
        &|i: usize, s: usize, h: &[f32], st: &MixerState<f32>| run_layer(m, i, s, h, st),
        &|h: &[f32]| norm_rows(&m.final_norm, h),
        &cell,
    )
}

fn forward_cached(
    m: &Model,
    cache: &mut Cache<f32>,
    tokens: &[u32],
) -> Result<ModelTrace<f32>, String> {
    gdn::model::forward_cached(
        &m.cfg,
        &m.embed_tokens,
        &m.lm_head,
        m.layers.len(),
        cache,
        tokens,
        &|i: usize, s: usize, h: &[f32], st: &MixerState<f32>| run_layer(m, i, s, h, st),
        &|h: &[f32]| norm_rows(&m.final_norm, h),
        &cell,
    )
}

fn argmax_last(tr: &ModelTrace<f32>) -> usize {
    tr.argmax_last(&|a: f32, b: f32| a > b)
}

fn kinds(m: &Model) -> Vec<LayerKind> {
    m.layers.iter().map(|l| l.kind).collect()
}

fn network<'a>(
    m: &'a Model,
    kinds: &'a [LayerKind],
) -> Network<
    'a,
    f32,
    impl Fn(usize, usize, &[f32], &MixerState<f32>) -> Result<(Vec<f32>, MixerState<f32>), String> + 'a,
    impl Fn(&[f32]) -> Vec<f32> + 'a,
    impl Fn(&[f32], &[f32], usize) -> f32,
    impl Fn(f32, f32) -> bool,
> {
    Network {
        sizes: m.cfg,
        gdn: m.gdn,
        kinds,
        embed_tokens: &m.embed_tokens,
        lm_head: &m.lm_head,
        zero: 0.0,
        layer: move |i: usize, s: usize, h: &[f32], st: &MixerState<f32>| {
            run_layer(m, i, s, h, st)
        },
        norm: move |h: &[f32]| norm_rows(&m.final_norm, h),
        dot: cell,
        exceeds: |a: f32, b: f32| a > b,
    }
}

fn greedy(
    m: &Model,
    prompt: &[u32],
    steps: usize,
) -> Result<(Vec<u32>, Vec<ModelTrace<f32>>), String> {
    gdn::model::greedy(&network(m, &kinds(m)), prompt, steps)
}

fn greedy_cached(
    m: &Model,
    prompt: &[u32],
    steps: usize,
) -> Result<(Vec<u32>, Vec<ModelTrace<f32>>), String> {
    gdn::model::greedy_cached(&network(m, &kinds(m)), prompt, steps)
}

#[test]
fn embedding_lookup_picks_the_right_rows() {
    let w = vec![0f32, 1.0, 2.0, 3.0, 10.0, 11.0, 12.0, 13.0];
    let e = embed(&w, &[1, 0], 2, 4).unwrap();
    assert_eq!(e, vec![10.0, 11.0, 12.0, 13.0, 0.0, 1.0, 2.0, 3.0]);
}

#[test]
fn out_of_range_token_is_reported() {
    let w = vec![0f32; 8];
    let err = embed(&w, &[5], 2, 4).unwrap_err();
    assert!(err.contains("out of range"), "{err}");
}

#[test]
fn forward_shapes_and_finiteness() {
    let m = tiny();
    let tr = forward(&m, &[1, 2, 3]).unwrap();
    assert_eq!(tr.t, 3);
    assert_eq!(tr.logits.len(), 3 * m.cfg.vocab);
    assert_eq!(tr.layers.len(), 2);
    assert!(tr.logits.iter().all(|x| x.is_finite()), "logits not finite");
    assert_eq!(tr.final_norm.len(), 3 * m.cfg.hidden);
    // Argmax must be a valid token id.
    assert!(argmax_last(&tr) < m.cfg.vocab);
}

/// A full-attention layer must actually mix across positions. If the mixer were
/// silently a no-op, changing an earlier token would leave later residual
/// streams untouched.
#[test]
fn attention_layer_mixes_across_positions() {
    let m = tiny();
    let a = forward(&m, &[1, 2, 3]).unwrap();
    let b = forward(&m, &[1, 2, 4]).unwrap();
    let la = &a.layers[1];
    let lb = &b.layers[1];
    // Position 0 precedes the change at position 2, so causality says its
    // attention output must be identical.
    let d0: f32 = la
        .iter()
        .zip(lb.iter())
        .take(m.cfg.hidden)
        .map(|(x, y)| (x - y).abs())
        .fold(0f32, f32::max);
    assert!(d0 < 1e-6, "position 0 changed when a later token changed: {d0}");
    // Position 2 must change.
    let d2: f32 = la
        .iter()
        .zip(lb.iter())
        .skip(2 * m.cfg.hidden)
        .map(|(x, y)| (x - y).abs())
        .fold(0f32, f32::max);
    assert!(d2 > 1e-9, "position 2 did not change: {d2}");
}

/// Prefilling with a fresh cache must equal the uncached whole-sequence path, bit for
/// bit. This is the strongest statement available: not "close enough", but the same
/// arithmetic reached two ways.
#[test]
fn prefill_equals_the_uncached_path() {
    let m = tiny();
    let prompt = [1u32, 2, 3, 4];
    let a = forward(&m, &prompt).unwrap();
    let mut cache = new_cache(&m);
    let b = forward_cached(&m, &mut cache, &prompt).unwrap();
    assert_eq!(a.logits.len(), b.logits.len());
    for i in 0..a.logits.len() {
        assert_eq!(
            a.logits[i].to_bits(),
            b.logits[i].to_bits(),
            "logit {i}: uncached {} vs prefill {}",
            a.logits[i],
            b.logits[i]
        );
    }
    assert_eq!(cache.len, prompt.len());
}

/// Decoding one token at a time with a cache must equal processing the whole growing
/// sequence at once. If the rotary tables were built from position 0 instead of the
/// absolute position, this is the test that would fail.
#[test]
fn token_at_a_time_equals_the_whole_sequence() {
    let m = tiny();
    // Ids must stay inside the fixture's vocabulary (6), which is also why this
    // asserts bit-level closeness rather than exactness: the two paths call `linear`
    // with different row counts.
    let seq = [1u32, 2, 3, 4, 5, 0];
    let whole = forward(&m, &seq).unwrap();

    let mut cache = new_cache(&m);
    let split = 3usize;
    let _ = forward_cached(&m, &mut cache, &seq[..split]).unwrap();
    let mut last = None;
    for &tok in &seq[split..] {
        last = Some(forward_cached(&m, &mut cache, &[tok]).unwrap());
    }
    let step = last.unwrap();
    assert_eq!(cache.len, seq.len());
    // Bit-exact, not "close". Both paths evaluate the same recurrence in the same
    // order -- `linear` computes each row independently, the convolution and the
    // delta rule are continued rather than restarted, and `attend` sums over the
    // same keys in the same order. A tolerance here would hide a cache that drops
    // part of its contents, because the fixture's attention output is small in
    // absolute terms; an earlier version of this test used 1e-4 and missed exactly
    // that bug.
    let a = whole.last_logits();
    let b = step.last_logits();
    for i in 0..a.len() {
        assert_eq!(
            a[i].to_bits(),
            b[i].to_bits(),
            "logit {i}: whole {} vs incremental {}",
            a[i],
            b[i]
        );
    }
}

/// Cached greedy must generate the same tokens as uncached greedy.
#[test]
fn cached_greedy_matches_uncached_greedy() {
    let m = tiny();
    let prompt = [1u32, 2, 3];
    let (want, want_tr) = greedy(&m, &prompt, 5).unwrap();
    let (got, got_tr) = greedy_cached(&m, &prompt, 5).unwrap();
    assert_eq!(got, want, "cached greedy diverged from the uncached path");
    assert_eq!(got_tr.len(), want_tr.len());
    for (g, w) in got_tr.iter().zip(&want_tr) {
        assert_eq!(g.last_logits(), w.last_logits());
    }
}

/// The cache must exist per layer and in the shape the model needs; a mismatch would
/// otherwise be caught only by an index panic somewhere deep.
#[test]
fn cache_is_allocated_per_layer_and_the_two_kinds_differ() {
    let m = tiny();
    let cache = new_cache(&m);
    assert_eq!(cache.states.len(), m.layers.len());
    assert_eq!(cache.len, 0);
    let (lin, full) = cache.bytes_by_kind();
    // The fixture has one linear layer and one full layer, and at zero sequence length
    // the linear state dominates: it is fixed-size, while the KV part starts empty.
    assert!(lin > 0, "linear state should be allocated up front");
    assert_eq!(full, 0, "attention state should start empty, not preallocated");
    assert_eq!(cache.bytes(), lin + full);
}

#[test]
fn greedy_appends_the_argmax() {
    let m = tiny();
    let (gen, traces) = greedy(&m, &[1, 2], 3).unwrap();
    assert_eq!(gen.len(), 3);
    assert_eq!(traces.len(), 3);
    for (i, g) in gen.iter().enumerate() {
        assert_eq!(*g as usize, argmax_last(&traces[i]));
        assert_eq!(traces[i].t, 2 + i);
    }
}

/// A layer that keeps all it has seen, and fails behind a nine.
fn counting_layer(
    _: usize,
    start: usize,
    h: &[i64],
    st: &MixerState<i64>,
) -> Result<(Vec<i64>, MixerState<i64>), String> {
    let mut st = st.clone();
    let MixerState::FullAttention(a) = &mut st else { return Err("linear".to_string()) };
    assert_eq!(a.k.len(), start);
    a.k.extend(h);
    if a.k.contains(&9) {
        return Err("nine".to_string());
    }
    Ok((h.to_vec(), st))
}

/// A stop token ends the turn and is not part of it; the step limit does not count as a stop.
#[test]
fn stopping_gives_a_prefix() {
    // Each token is one more than the last, modulo ten.
    let table: Vec<i64> = (0..10).collect();
    let net = Network {
        sizes: ModelConfig { vocab: 10, hidden: 1 },
        gdn: tiny().gdn,
        kinds: &[LayerKind::FullAttention],
        embed_tokens: &table,
        lm_head: &table,
        zero: 0,
        layer: counting_layer,
        norm: |h: &[i64]| h.to_vec(),
        dot: |w: &[i64], x: &[i64], _: usize| -(w[0] - (x[0] + 1) % 10).abs(),
        exceeds: |a: i64, b: i64| a > b,
    };
    let lengths = |traces: &[ModelTrace<i64>]| traces.iter().map(|t| t.t).collect::<Vec<_>>();
    let stop = |prompt: &[u32], steps: usize, stop: &[u32]| {
        gdn::model::greedy_cached_stopping(&net, prompt, steps, stop)
            .map(|(ids, traces, hit)| (ids, lengths(&traces), hit))
    };
    assert_eq!(stop(&[1, 2], 3, &[]), Ok((vec![3, 4, 5], vec![2, 1, 1], false)));
    assert_eq!(stop(&[1, 2], 3, &[5, 7]), Ok((vec![3, 4], vec![2, 1], true)));
    assert_eq!(stop(&[1, 2], 2, &[5]), Ok((vec![3, 4], vec![2, 1], false)));
    assert_eq!(stop(&[1, 2], 0, &[3]), Ok((vec![], vec![], false)));
    assert_eq!(stop(&[1, 2], 20, &[]), Err("layer 0: nine".to_string()));
    assert_eq!(
        stop(&[1, 12], 2, &[]),
        Err("token id 12 is out of range for vocab 10".to_string())
    );
    assert_eq!(stop(&[], 2, &[]), Err("empty prompt".to_string()));
    let both = |(ids, traces): (Vec<u32>, Vec<ModelTrace<i64>>)| (ids, lengths(&traces));
    assert_eq!(
        gdn::model::greedy_cached(&net, &[1, 2], 3).map(both),
        Ok((vec![3, 4, 5], vec![2, 1, 1]))
    );
    assert_eq!(
        gdn::model::greedy(&net, &[1, 2], 3).map(both),
        Ok((vec![3, 4, 5], vec![2, 3, 4]))
    );
    assert_eq!(gdn::model::greedy(&net, &[1, 2], 20).map(both), Err("layer 0: nine".to_string()));
    assert_eq!(gdn::model::greedy(&net, &[], 1).map(both), Err("empty input".to_string()));
    assert_eq!(gdn::model::greedy(&net, &[], 0).map(both), Ok((vec![], vec![])));
}

#[test]
fn what_cannot_run_is_said() {
    let m = tiny();
    let say = |r: Result<ModelTrace<f32>, String>| r.err().unwrap();
    assert_eq!(say(forward(&m, &[])), "empty input");
    assert_eq!(say(forward(&m, &[1, 6])), "token id 6 is out of range for vocab 6");
    let mut cache = new_cache(&m);
    assert_eq!(say(forward_cached(&m, &mut cache, &[])), "empty chunk");
    cache.states.pop();
    assert_eq!(
        say(forward_cached(&m, &mut cache, &[1])),
        "cache holds 1 layer states but the model has 2 layers"
    );
    let mut short = tiny();
    short.embed_tokens.pop();
    assert_eq!(say(forward(&short, &[1])), "embed_tokens is 23 values, vocab*hidden = 24");
    let mut bare = tiny();
    bare.layers[1].attn = None;
    assert_eq!(say(forward(&bare, &[1])), "layer 1: full_attention layer has no attention weights");
    assert_eq!(
        mixer_kind(LayerKind::LinearAttention, false, true),
        Err("linear_attention layer has no gated-delta-net weights".to_string())
    );
    assert_eq!(
        mixer_kind(LayerKind::LinearAttention, true, false),
        Ok(LayerKind::LinearAttention)
    );
}

#[test]
fn the_argmax_is_the_first_of_the_largest() {
    let tr = ModelTrace {
        embedding: vec![],
        layers: vec![],
        final_norm: vec![],
        logits: vec![9.0f32, 0.0, 0.0, 1.0, 2.5, 2.5],
        t: 2,
        vocab: 3,
    };
    assert_eq!(tr.last_logits(), &[1.0, 2.5, 2.5]);
    assert_eq!(argmax_last(&tr), 1);
}

#[test]
fn only_attention_states_grow() {
    let m = tiny();
    let mut cache = new_cache(&m);
    let (lin, _) = cache.bytes_by_kind();
    forward_cached(&m, &mut cache, &[1, 2, 3]).unwrap();
    // Three positions of keys and values, four numbers each.
    assert_eq!(cache.bytes_by_kind(), (lin, 3 * 2 * 4 * 4));
    assert_eq!(cache.bytes(), lin + 96);
}

/// The walk starts at the first logit, and only what exceeds the best so far replaces it: a
/// `NaN` in front stays, and one further on is passed over.
#[test]
fn argmax_with_a_nan() {
    let trace = |logits: Vec<f32>| ModelTrace {
        embedding: vec![],
        layers: vec![],
        final_norm: vec![],
        t: 1,
        vocab: logits.len(),
        logits,
    };
    assert_eq!(argmax_last(&trace(vec![f32::NAN, 1.0, 2.0])), 0);
    assert_eq!(argmax_last(&trace(vec![1.0, f32::NAN, 2.0])), 2);
    assert_eq!(argmax_last(&trace(vec![2.0, f32::NAN, 2.0])), 0);
    assert_eq!(argmax_last(&trace(vec![])), 0);
}

/// A cached call needs the embedding rows of the ids it is given, and no others.
#[test]
fn only_the_rows_that_are_used_need_be_there() {
    let whole = tiny();
    let mut short = tiny();
    short.embed_tokens.truncate(4 * short.cfg.hidden);
    let mut a = new_cache(&whole);
    let mut b = new_cache(&short);
    let x = forward_cached(&whole, &mut a, &[1, 3]).unwrap();
    let y = forward_cached(&short, &mut b, &[1, 3]).unwrap();
    assert_eq!(x.logits, y.logits);
}
