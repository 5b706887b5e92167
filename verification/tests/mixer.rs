use gdn::conv::conv_forward as convolve;
use gdn::mixer::{GdnConfig, GdnState, GdnTrace, GdnWeights};
use gdn::tensor::{bct_to_btc, btc_to_bct, columns, linear_range, repeat_interleave_heads};
use gdn::threads::{chunk_len, chunk_plan, thread_count, MAX_THREADS, WORK_PER_THREAD};

const EPS: f32 = 1e-6;

fn silu(x: f32) -> f32 {
    x / (1.0 + (-x).exp())
}

fn sigmoid(x: f32) -> f32 {
    1.0 / (1.0 + (-x).exp())
}

fn softplus(x: f32) -> f32 {
    if x > 20.0 {
        x
    } else {
        (1.0 + x.exp()).ln()
    }
}

/// One cell of a product: a sum in double precision, in order, and the bias.
fn cell(bias: Option<&[f32]>, wo: &[f32], xr: &[f32], o: usize) -> f32 {
    let mut acc = 0f64;
    for i in 0..wo.len() {
        acc += wo[i] as f64 * xr[i] as f64;
    }
    if let Some(b) = bias {
        acc += b[o] as f64;
    }
    acc as f32
}

/// The product range by range, as threads would compute it.
fn linear(
    w: &[f32],
    bias: Option<&[f32]>,
    x: &[f32],
    rows: usize,
    in_dim: usize,
    out_dim: usize,
) -> Vec<f32> {
    let threads = thread_count(rows, in_dim, out_dim, 16);
    if threads <= 1 {
        return gdn::tensor::linear(w, x, rows, in_dim, out_dim, |a: &[f32], b: &[f32], o: usize| {
            cell(bias, a, b, o)
        });
    }
    let mut y = vec![];
    for (base, len) in chunk_plan(rows * out_dim, threads) {
        y.extend(linear_range(
            w,
            x,
            rows,
            in_dim,
            out_dim,
            base,
            len,
            |a: &[f32], b: &[f32], o: usize| cell(bias, a, b, o),
        ));
    }
    y
}

fn tap(w: &[f32], window: &[f32]) -> f32 {
    let mut acc = 0f32;
    for (wk, xk) in w.iter().zip(window) {
        acc += wk * xk;
    }
    silu(acc)
}

fn conv_forward(
    w: &[f32],
    bias: Option<&[f32]>,
    x_bct: &[f32],
    b: usize,
    channels: usize,
    t: usize,
    k: usize,
    state_in: Option<&[f32]>,
) -> (Vec<f32>, Vec<f32>) {
    assert!(bias.is_none());
    convolve(w, x_bct, b, channels, t, k, state_in, 0.0, |a: &[f32], c: &[f32], _: usize| tap(a, c))
}

/// The gated delta rule on one sequence of `h` heads, from a state `[H, K, V]`.
fn delta_rule(
    cfg: &GdnConfig,
    q: &[f32],
    k: &[f32],
    v: &[f32],
    g: &[f32],
    beta: &[f32],
    start: Option<&[f32]>,
) -> (Vec<f32>, Vec<f32>) {
    let (h, kd, vd) = (cfg.num_v_heads, cfg.head_k_dim, cfg.head_v_dim);
    let mut s = match start {
        Some(s) => s.to_vec(),
        None => vec![0f32; h * kd * vd],
    };
    let t = g.len() / h;
    let mut out = vec![0f32; t * h * vd];
    for ti in 0..t {
        for hi in 0..h {
            let at = ti * h + hi;
            let (qr, kr) = (&q[at * kd..(at + 1) * kd], &k[at * kd..(at + 1) * kd]);
            let vr = &v[at * vd..(at + 1) * vd];
            let state = &mut s[hi * kd * vd..(hi + 1) * kd * vd];
            for x in state.iter_mut() {
                *x *= g[at].exp();
            }
            for j in 0..vd {
                let seen: f32 = (0..kd).map(|i| state[i * vd + j] * kr[i]).sum();
                let delta = (vr[j] - seen) * beta[at];
                for i in 0..kd {
                    state[i * vd + j] += kr[i] * delta;
                }
                out[at * vd + j] = (0..kd).map(|i| state[i * vd + j] * qr[i]).sum();
            }
        }
    }
    (out, s)
}

fn rmsnorm_gated_row(w: &[f32], x: &[f32], z: &[f32]) -> Vec<f32> {
    let ss: f64 = x.iter().map(|v| *v as f64 * *v as f64).sum();
    let inv = 1.0f32 / ((ss / x.len() as f64) as f32 + EPS).sqrt();
    (0..x.len()).map(|i| w[i] * (x[i] * inv) * silu(z[i])).collect()
}

fn forward(cfg: &GdnConfig, w: &GdnWeights<f32>, x: &[f32], b: usize, t: usize) -> GdnTrace<f32> {
    gdn::mixer::forward(
        cfg,
        w,
        x,
        b,
        t,
        0.0,
        |a: &[f32], c: &[f32], o: usize| cell(None, a, c, o),
        |a: &[f32], c: &[f32], _: usize| tap(a, c),
        sigmoid,
        |a: f32, a_log: f32, dt: f32| -a_log.exp() * softplus(a + dt),
        |q: &[f32], k: &[f32], v: &[f32], g: &[f32], be: &[f32], s: Option<&[f32]>| {
            delta_rule(cfg, q, k, v, g, be, s)
        },
        rmsnorm_gated_row,
    )
    .0
}

fn forward_with_state(
    cfg: &GdnConfig,
    w: &GdnWeights<f32>,
    x: &[f32],
    b: usize,
    t: usize,
    state: &mut GdnState<f32>,
) -> GdnTrace<f32> {
    gdn::mixer::forward_with_state(
        cfg,
        w,
        x,
        b,
        t,
        state,
        0.0,
        |a: &[f32], c: &[f32], o: usize| cell(None, a, c, o),
        |a: &[f32], c: &[f32], _: usize| tap(a, c),
        sigmoid,
        |a: f32, a_log: f32, dt: f32| -a_log.exp() * softplus(a + dt),
        |q: &[f32], k: &[f32], v: &[f32], g: &[f32], be: &[f32], s: Option<&[f32]>| {
            delta_rule(cfg, q, k, v, g, be, s)
        },
        rmsnorm_gated_row,
    )
}


#[test]
fn conv_is_causal_and_shapes_hold() {
    let (b, c, t, k) = (1usize, 1usize, 5usize, 4usize);
    let w = vec![1.0f32, 1.0, 1.0, 1.0];
    let x = vec![1.0f32, 2.0, 3.0, 4.0, 5.0];
    let (y, _) = conv_forward(&w, None, &x, b, c, t, k, None);
    assert_eq!(y.len(), b * c * t);
    // out[t] = silu(sum of x[t-3..=t] present)
    // t=0 -> x[0] = 1
    assert!((y[0] - silu(1.0)).abs() < 1e-6);
    // t=1 -> x[0]+x[1] = 3
    assert!((y[1] - silu(3.0)).abs() < 1e-6);
    // t=3 -> x[0..=3] = 10
    assert!((y[3] - silu(10.0)).abs() < 1e-6);
    // causality: changing x[4] must not alter y[0..=3]
    let mut x2 = x.clone();
    x2[4] = 100.0;
    let (y2, _) = conv_forward(&w, None, &x2, b, c, t, k, None);
    for i in 0..4 {
        assert!((y[i] - y2[i]).abs() < 1e-6, "position {i} saw the future");
    }
    assert!((y[4] - y2[4]).abs() > 1e-3, "position 4 should change");
}

/// Two batches must not mix, and a batch's channel block must not read the
/// neighbouring batch's samples.
#[test]
fn conv_does_not_mix_batches() {
    let (b, c, t, k) = (2usize, 1usize, 3usize, 2usize);
    let w = vec![1.0f32, 0.0];
    let x = vec![1.0f32, 2.0, 3.0, /* batch 1 */ 10.0, 20.0, 30.0];
    let (y, _) = conv_forward(&w, None, &x, b, c, t, k, None);
    // out[b, 0, t] = silu(x[b, 0, t-1]) with the left pad dropped
    assert!((y[0] - silu(0.0)).abs() < 1e-6);
    assert!((y[1] - silu(1.0)).abs() < 1e-6);
    assert!((y[2] - silu(2.0)).abs() < 1e-6);
    assert!((y[3] - silu(0.0)).abs() < 1e-6, "batch 1 leaked batch 0");
    assert!((y[4] - silu(10.0)).abs() < 1e-6, "batch 1 leaked batch 0");
    assert!((y[5] - silu(20.0)).abs() < 1e-6);
}

#[test]
fn repeat_interleave_duplicates_consecutively() {
    // [1, 1, 2, 2] heads of dim 1
    let x = vec![10.0f32, 20.0];
    let y = repeat_interleave_heads(&x, 1, 1, 2, 1, 2);
    assert_eq!(y, vec![10.0, 10.0, 20.0, 20.0]);
    // ratio 1 is a copy
    let z = repeat_interleave_heads(&x, 1, 1, 2, 1, 1);
    assert_eq!(z, x);
}

#[test]
fn transpose_round_trips_and_places_elements() {
    let (b, t, c) = (2usize, 4usize, 3usize);
    // x is [B, T, C]; element (bi, ti, ci) carries a unique tag.
    let mut x = vec![0f32; b * t * c];
    for bi in 0..b {
        for ti in 0..t {
            for ci in 0..c {
                x[(bi * t + ti) * c + ci] = (bi * 100 + ti * 10 + ci) as f32;
            }
        }
    }
    let y = btc_to_bct(&x, b, t, c);
    // y must be [B, C, T]: (bi, ci, ti) reads the same tag
    for bi in 0..b {
        for ti in 0..t {
            for ci in 0..c {
                let want = (bi * 100 + ti * 10 + ci) as f32;
                assert_eq!(y[(bi * c + ci) * t + ti], want,
                           "bct layout wrong at bi={bi} ci={ci} ti={ti}");
            }
        }
    }
    let z = bct_to_btc(&y, b, c, t);
    assert_eq!(x, z, "round trip");
}

/// Threading splits the *output* index space and leaves each output element's
/// accumulation order untouched, so the parallel path must agree with the serial one bit
/// for bit. A test that only compared within a tolerance would not notice a reduction-order
/// change, which is exactly what would make results irreproducible.
///
/// `serial_linear` is spelled out here rather than shared with the implementation, because
/// the point is to compare against an *independent* statement of the arithmetic.
fn serial_linear(
    w: &[f32],
    bias: Option<&[f32]>,
    x: &[f32],
    rows: usize,
    in_dim: usize,
    out_dim: usize,
) -> Vec<f32> {
    let mut y = vec![0f32; rows * out_dim];
    for r in 0..rows {
        for o in 0..out_dim {
            let mut acc = 0f64;
            for i in 0..in_dim {
                acc += w[o * in_dim + i] as f64 * x[r * in_dim + i] as f64;
            }
            if let Some(b) = bias {
                acc += b[o] as f64;
            }
            y[r * out_dim + o] = acc as f32;
        }
    }
    y
}

/// The shape that was broken: `T=1` decode, where the old split (by row) produced exactly
/// one chunk and therefore used one thread for the whole model.
///
/// Asserted with the dimensions of the real model's MLP, because the failure was not an
/// arithmetic error that any small fixture would show -- it was a chunk count of 1. This
/// test cannot observe the thread count directly, but it does hold the parallel path to
/// bit-exactness on the shape where the parallel path used to be a no-op.
#[test]
fn t1_decode_shape_is_bit_identical_and_does_parallelise() {
    // 24 layers * (8 heads * 256 head_dim) and the 3584-wide MLP are the real numbers.
    for (rows, in_dim, out_dim) in [
        (1usize, 1024usize, 3584usize),
        (1, 1024, 2048),
        (1, 2048, 1024),
    ] {
        assert!(
            rows * in_dim * out_dim >= WORK_PER_THREAD,
            "({rows}, {in_dim}, {out_dim}) must clear the threshold or this proves nothing"
        );
        let w: Vec<f32> = (0..out_dim * in_dim)
            .map(|i| ((i * 2654435761) % 1000) as f32 / 500.0 - 1.0)
            .collect();
        let x: Vec<f32> = (0..rows * in_dim)
            .map(|i| ((i * 40503) % 997) as f32 / 500.0 - 1.0)
            .collect();
        let bias: Vec<f32> = (0..out_dim).map(|i| (i % 7) as f32 / 4.0 - 0.5).collect();
        let par = linear(&w, Some(&bias), &x, rows, in_dim, out_dim);
        let ser = serial_linear(&w, Some(&bias), &x, rows, in_dim, out_dim);
        assert_eq!(par, ser, "({rows}, {in_dim}, {out_dim}) differs");
    }
}

/// The chunk count is what actually changed, so it is asserted directly.
///
/// The discriminating property is this: **when there are more threads than rows, the number
/// of chunks must exceed the number of rows.** Splitting by row gives exactly `rows` chunks
/// in that situation -- one per row -- so a regression to the old split fails here, and
/// nothing else in this file would notice, because splitting by row is arithmetically
/// correct, just single-threaded at `T=1`.
///
/// The balance property is asserted too: a chunk is `ceil(items / nthreads)`, so no thread
/// gets more than its even share. Note that this does not imply exactly `nthreads` chunks --
/// 1024 items over 88 threads is 86 chunks of 12, not 88 -- which is why the assertion is
/// stated as coverage and balance rather than as a chunk count.
#[test]
fn the_split_is_over_output_elements_not_rows() {
    for (rows, out_dim) in [(1usize, 3584usize), (1, 1024), (64, 3584), (1, 2), (128, 1024)] {
        let items = rows * out_dim;
        for nthreads in [1usize, 2, 8, 32, 88] {
            let chunk = chunk_len(items, nthreads);
            let chunks = chunk_plan(items, nthreads).len();

            // Coverage: the chunks cover every item, with no empty chunk.
            assert!(chunk >= 1, "({rows}, {out_dim}) / {nthreads}: empty chunk");
            assert!(
                (chunks - 1) * chunk < items,
                "({rows}, {out_dim}) / {nthreads}: {chunks} chunks of {chunk} overshoot {items}"
            );
            // Balance: no chunk is bigger than an even share, rounded up.
            assert!(
                chunk <= items.div_ceil(nthreads).max(1),
                "({rows}, {out_dim}) / {nthreads}: chunk {chunk} exceeds the even share"
            );
            // The discriminating clause.
            if nthreads > rows && items > rows {
                assert!(
                    chunks > rows,
                    "({rows}, {out_dim}) / {nthreads} threads gave {chunks} chunk(s): \
                     that is a split by row, which is one chunk at T=1"
                );
            }
        }
    }
}

/// The thread count is derived from the work, not from the core count.
///
/// This is the test that keeps the model's thousands of *small* linear calls from spawning
/// threads they cannot pay for. Without the derivation, every call would take
/// `MAX_THREADS`, and a 512x1024 projection -- about 0.5 ms of work against ~0.3 ms of
/// thread creation -- would get slower by being parallelised.
#[test]
fn the_thread_count_scales_with_the_work() {
    let threads = |rows: usize, in_dim: usize, out_dim: usize| {
        thread_count(rows, in_dim, out_dim, 16)
    };
    // Below one thread's worth: serial.
    assert!(threads(1, 64, 64) <= 1, "a 64x64 matmul must stay serial");
    assert!(threads(1, 512, 256) <= 1, "131072 work is under one thread's share");
    // The model's real shapes, at T=1. The smallest is a full-attention k/v projection.
    assert_eq!(threads(1, 1024, 512), 2, "a 512-wide projection gets 2 threads");
    assert_eq!(threads(1, 1024, 1024), 4);
    assert_eq!(threads(1, 1024, 3584), 14, "the MLP gate/up");
    assert_eq!(threads(1, 3584, 1024), 14, "the MLP down");
    // The head, 248320 x 1024, is capped rather than given 970 threads.
    assert_eq!(threads(1, 1024, 248320), 16);
    // Prefill reaches the cap on every call.
    assert_eq!(threads(64, 1024, 3584), 16);
    // And no configuration can exceed the cap.
    for (r, i, o) in [(4096, 4096, 4096), (1, 100000, 100000)] {
        assert!(threads(r, i, o) <= MAX_THREADS);
    }
}

#[test]
fn parallel_linear_is_bit_identical_to_serial() {
    let (rows, in_dim, out_dim) = (200usize, 64usize, 40usize);
    // Enough work to clear the threshold, so the parallel branch is taken.
    assert!(rows * in_dim * out_dim >= WORK_PER_THREAD);
    let w: Vec<f32> = (0..out_dim * in_dim)
        .map(|i| ((i * 2654435761) % 1000) as f32 / 500.0 - 1.0)
        .collect();
    let x: Vec<f32> = (0..rows * in_dim)
        .map(|i| ((i * 40503) % 997) as f32 / 500.0 - 1.0)
        .collect();

    let par = linear(&w, None, &x, rows, in_dim, out_dim);

    // Reproduce the serial reduction exactly, with the same f64 accumulator the
    // implementation uses. The property under test is that threading does not
    // change the result, so the two paths must differ in *scheduling* only.
    let mut ser = vec![0f32; rows * out_dim];
    for r in 0..rows {
        for o in 0..out_dim {
            let mut acc = 0f64;
            for i in 0..in_dim {
                acc += w[o * in_dim + i] as f64 * x[r * in_dim + i] as f64;
            }
            ser[r * out_dim + o] = acc as f32;
        }
    }
    assert_eq!(par.len(), ser.len());
    for i in 0..par.len() {
        assert_eq!(
            par[i].to_bits(),
            ser[i].to_bits(),
            "index {i}: parallel {} vs serial {}",
            par[i],
            ser[i]
        );
    }
}

#[test]
fn linear_matches_explicit_matmul() {
    // w [2, 3], x [1, 3]
    let w = vec![1.0f32, 2.0, 3.0, 4.0, 5.0, 6.0];
    let x = vec![1.0f32, 1.0, 1.0];
    let y = linear(&w, None, &x, 1, 3, 2);
    assert_eq!(y, vec![6.0, 15.0]);
}

/// A test fixture: a small but structurally complete gated delta net.
fn gdn_fixture() -> (GdnConfig, GdnWeights<f32>) {
    let cfg = GdnConfig {
        hidden: 8,
        num_k_heads: 2,
        num_v_heads: 2,
        head_k_dim: 3,
        head_v_dim: 4,
        conv_kernel: 4,
    };
    let det = |n: usize, seed: u32| -> Vec<f32> {
        (0..n)
            .map(|i| {
                let x = (i as u32).wrapping_mul(2654435761).wrapping_add(seed);
                ((x >> 8) % 2000) as f32 / 1000.0 - 1.0
            })
            .collect()
    };
    let w = GdnWeights {
        in_proj_qkv: det(cfg.conv_dim() * cfg.hidden, 1),
        in_proj_z: det(cfg.value_dim() * cfg.hidden, 2),
        in_proj_b: det(cfg.num_v_heads * cfg.hidden, 3),
        in_proj_a: det(cfg.num_v_heads * cfg.hidden, 4),
        conv1d: det(cfg.conv_dim() * cfg.conv_kernel, 5),
        a_log: vec![0.1; cfg.num_v_heads],
        dt_bias: vec![0.0; cfg.num_v_heads],
        norm: vec![0.5; cfg.head_v_dim],
        out_proj: det(cfg.hidden * cfg.value_dim(), 6),
    };
    (cfg, w)
}

/// The convolution with a carried state must equal the convolution of the whole
/// signal at once. This is the conv half of what a cache depends on.
#[test]
fn conv_with_state_equals_the_whole_signal() {
    let (b, c, k) = (2usize, 3usize, 4usize);
    let t = 9usize;
    let w: Vec<f32> = (0..c * k).map(|i| ((i % 5) as f32) * 0.25 - 0.5).collect();
    let x: Vec<f32> = (0..b * c * t).map(|i| ((i * 37 % 23) as f32) - 11.0).collect();

    let (whole, _) = conv_forward(&w, None, &x, b, c, t, k, None);

    // Feed it in chunks of 1, 2, 3 and 3, carrying the state.
    let mut state = vec![0f32; b * c * (k - 1)];
    let mut got = vec![0f32; b * c * t];
    let mut done = 0usize;
    for len in [1usize, 2, 3, 3] {
        // Gather the chunk for every (batch, channel).
        let mut chunk = vec![0f32; b * c * len];
        for bi in 0..b {
            for ci in 0..c {
                let src = (bi * c + ci) * t + done;
                let dst = (bi * c + ci) * len;
                chunk[dst..dst + len].copy_from_slice(&x[src..src + len]);
            }
        }
        let (out, ns) = conv_forward(&w, None, &chunk, b, c, len, k, Some(&state));
        for bi in 0..b {
            for ci in 0..c {
                let dst = (bi * c + ci) * t + done;
                let src = (bi * c + ci) * len;
                got[dst..dst + len].copy_from_slice(&out[src..src + len]);
            }
        }
        state = ns;
        done += len;
    }
    assert_eq!(done, t);
    for (i, (a, b)) in got.iter().zip(whole.iter()).enumerate() {
        assert_eq!(a.to_bits(), b.to_bits(), "index {i}: chunked {a} vs whole {b}");
    }
}

/// The full mixer, one token at a time with a state, must equal the whole-sequence
/// call. This is the invariant the KV/recurrent cache rests on.
#[test]
fn incremental_mixer_equals_whole_sequence() {
    let (cfg, w) = gdn_fixture();
    let (b, t) = (1usize, 6usize);
    let x: Vec<f32> = (0..b * t * cfg.hidden)
        .map(|i| ((i * 17 % 31) as f32) * 0.1 - 1.5)
        .collect();

    let whole = forward(&cfg, &w, &x, b, t);

    let mut st = GdnState::new(&cfg, b, 0.0);
    let mut got = vec![0f32; b * t * cfg.hidden];
    for ti in 0..t {
        let chunk: Vec<f32> = x[ti * cfg.hidden..(ti + 1) * cfg.hidden].to_vec();
        let tr = forward_with_state(&cfg, &w, &chunk, b, 1, &mut st);
        got[ti * cfg.hidden..(ti + 1) * cfg.hidden].copy_from_slice(&tr.out_proj);
    }
    for (i, (a, b)) in got.iter().zip(whole.out_proj.iter()).enumerate() {
        assert_eq!(
            a.to_bits(),
            b.to_bits(),
            "index {i}: incremental {a} vs whole {b}"
        );
    }
}

/// The state must actually be used and advanced. If the conv state were ignored, a
/// single-token step would lose its left context; if it were not written back, the
/// next step would too. Both would still produce finite numbers.
#[test]
fn the_state_is_used_and_advanced() {
    let (cfg, w) = gdn_fixture();
    let b = 1usize;
    let x: Vec<f32> = vec![0.3, -0.2, 0.5, 0.1, -0.4, 0.2, 0.0, 0.7];

    // A fresh state gives one answer.
    let mut st_fresh = GdnState::new(&cfg, b, 0.0);
    let a = forward_with_state(&cfg, &w, &x, b, 1, &mut st_fresh).out_proj;

    // A pre-used state must give a different one, or the state is being ignored.
    let mut st_used = GdnState::new(&cfg, b, 0.0);
    let warm: Vec<f32> = vec![0.9; cfg.hidden];
    forward_with_state(&cfg, &w, &warm, b, 1, &mut st_used);
    let b_out = forward_with_state(&cfg, &w, &x, b, 1, &mut st_used).out_proj;

    let differs = a.iter().zip(b_out.iter()).any(|(p, q)| (p - q).abs() > 1e-6);
    assert!(differs, "the initial state had no effect on the output");

    // And the state must move after the call.
    let mut st2 = GdnState::new(&cfg, b, 0.0);
    let before = st2.conv.clone();
    let ssm_before = st2.ssm.clone();
    forward_with_state(&cfg, &w, &x, b, 1, &mut st2);
    assert_ne!(st2.conv, before, "conv state was not advanced");
    assert_ne!(st2.ssm, ssm_before, "ssm state was not advanced");
}

#[test]
fn transposition_of_integers_is_exact() {
    // [1, 2, 3] to [1, 3, 2].
    assert_eq!(btc_to_bct(&[1, 2, 3, 4, 5, 6], 1, 2, 3), vec![1, 4, 2, 5, 3, 6]);
    assert_eq!(columns(&[1, 2, 3, 4, 5, 6], 2, 3, 1, 2), vec![2, 3, 5, 6]);
    assert_eq!(repeat_interleave_heads(&[1, 2, 3, 4], 1, 1, 2, 2, 2), vec![1, 2, 1, 2, 3, 4, 3, 4]);
}

#[test]
fn ranges_put_together_are_the_product() {
    let w: Vec<u64> = (0..15).collect();
    let x: Vec<u64> = (0..6).collect();
    let dot = |a: &[u64], b: &[u64], o: usize| {
        a.iter().zip(b).map(|(p, q)| p * q).sum::<u64>() + o as u64
    };
    let whole = gdn::tensor::linear(&w, &x, 2, 3, 5, dot);
    assert_eq!(whole[0], 0 * 0 + 1 * 1 + 2 * 2);
    assert_eq!(whole[6], 3 * 3 + 4 * 4 + 5 * 5 + 1);
    for threads in 1..12 {
        let mut y = vec![];
        for (base, len) in chunk_plan(10, threads) {
            y.extend(linear_range(&w, &x, 2, 3, 5, base, len, dot));
        }
        assert_eq!(y, whole, "{threads} threads");
    }
}

#[test]
fn a_split_covers_everything_evenly() {
    assert_eq!(chunk_plan(10, 4), vec![(0, 3), (3, 3), (6, 3), (9, 1)]);
    assert_eq!(chunk_plan(0, 4), Vec::<(usize, usize)>::new());
    assert_eq!(chunk_len(1024, 88), 12);
    assert_eq!(chunk_plan(1024, 88).len(), 86);
    assert_eq!(chunk_len(0, 3), 1);
    assert_eq!(thread_count(usize::MAX, 2, 2, 5), 5);
    assert_eq!(thread_count(1, 1024, 1024, 1), 1);
}

#[test]
fn the_convolution_keeps_what_the_next_chunk_needs() {
    let sum = |w: &[i64], x: &[i64], c: usize| {
        w.iter().zip(x).map(|(p, q)| p * q).sum::<i64>() + 1000 * c as i64
    };
    // Two channels, kernel 3, two steps.
    let (y, s) = convolve(&[1, 10, 100, 1, 1, 1], &[1, 2, 3, 4], 1, 2, 2, 3, None, 0, sum);
    assert_eq!(y, vec![100, 210, 1003, 1007]);
    assert_eq!(s, vec![1, 2, 3, 4]);
    let (y, s) = convolve(&[1, 10, 100, 1, 1, 1], &[5, 6], 1, 2, 1, 3, Some(&s), 0, sum);
    assert_eq!(y, vec![521, 1013]);
    assert_eq!(s, vec![2, 5, 4, 6]);
    // A kernel of one keeps nothing.
    let (y, s) = convolve(&[7], &[1, 2], 1, 1, 2, 1, None, 0, sum);
    assert_eq!(y, vec![7, 14]);
    assert!(s.is_empty());
}

#[test]
fn sizes_of_a_block() {
    let (cfg, _) = gdn_fixture();
    assert_eq!(cfg.key_dim(), 6);
    assert_eq!(cfg.value_dim(), 8);
    assert_eq!(cfg.conv_dim(), 20);
    assert_eq!(cfg.kv_ratio(), 1);
    let st = GdnState::new(&cfg, 2, 0.0f32);
    assert_eq!(st.conv.len(), 2 * 20 * 3);
    assert_eq!(st.ssm.len(), 2 * 2 * 3 * 4);
    assert_eq!(st.bytes(), (120 + 48) * 4);
}

#[test]
fn heads_are_expanded_before_the_rule() {
    let (mut cfg, mut w) = gdn_fixture();
    cfg.num_k_heads = 1;
    w.in_proj_qkv.truncate(cfg.conv_dim() * cfg.hidden);
    w.conv1d.truncate(cfg.conv_dim() * cfg.conv_kernel);
    let x: Vec<f32> = (0..2 * cfg.hidden).map(|i| i as f32 * 0.1 - 0.7).collect();
    let tr = forward(&cfg, &w, &x, 1, 2);
    assert_eq!(cfg.kv_ratio(), 2);
    assert_eq!(tr.q.len(), 2 * 2 * 3);
    for r in 0..2 {
        assert_eq!(tr.q[r * 6..r * 6 + 3], tr.q[r * 6 + 3..r * 6 + 6]);
        assert_eq!(tr.k[r * 6..r * 6 + 3], tr.k[r * 6 + 3..r * 6 + 6]);
    }
    assert_eq!(tr.out_proj.len(), x.len());
}
