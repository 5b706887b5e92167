//! The gated delta net (`Qwen3_5GatedDeltaNet`): the linear-attention block, around its rule.
//!
//! # The chain
//!
//! ```text
//! mixed = in_proj_qkv(x)                       [B, T, 2*key_dim + value_dim]
//! mixed = conv1d_silu(mixed)                   depthwise, causal
//! q, k, v = split(mixed, [key_dim, key_dim, value_dim])
//! z = in_proj_z(x)                             [B, T, value_dim]
//! b = in_proj_b(x);  a = in_proj_a(x)          [B, T, num_v_heads]
//! beta = sigmoid(b)
//! g = -exp(A_log) * softplus(a + dt_bias)
//! q,k = repeat_interleave(q,k, num_v_heads/num_k_heads)   <- GQA, before the rule
//! out, state = delta_rule(q, k, v, g, beta)    [B,T,H,head_v_dim], [B,H,K,V]
//! out = norm(out, z)                           gated RMSNorm over head_v_dim
//! y = out_proj(out)
//! ```
//!
//! The arithmetic on single values and rows is handed in: what a cell of a product or of the
//! convolution is, the two gates, the rule and the norm. What is fixed here is which values
//! each of them is handed, in which order, and where its result goes.
//!
//! # Where the GQA expansion goes
//!
//! `repeat_interleave` on the head axis happens **before** the delta rule, so the
//! rule sees `num_v_heads`, not `num_k_heads`.
use crate::conv;
use crate::conv::conv_forward;
use crate::tensor;
use crate::tensor::{bct_to_btc, btc_to_bct, columns, linear, repeat_interleave_heads};
use vstd::prelude::*;
use vstd::slice::slice_subrange;

pub mod laws;
pub mod trace_laws;

verus! {

/// How many bytes a value of the weights and states takes.
pub const VALUE_BYTES: usize = 4;

/// Sizes for one gated-delta-net block.
#[derive(Debug, Clone, Copy)]
pub struct GdnConfig {
    pub hidden: usize,
    pub num_k_heads: usize,
    pub num_v_heads: usize,
    pub head_k_dim: usize,
    pub head_v_dim: usize,
    pub conv_kernel: usize,
}

impl GdnConfig {
    pub open spec fn keys(self) -> int {
        self.head_k_dim * self.num_k_heads
    }

    pub open spec fn values(self) -> int {
        self.head_v_dim * self.num_v_heads
    }

    pub open spec fn channels(self) -> int {
        self.keys() * 2 + self.values()
    }

    pub open spec fn ratio(self) -> int {
        self.num_v_heads as int / self.num_k_heads as int
    }

    pub fn key_dim(&self) -> (r: usize)
        requires
            self.keys() <= usize::MAX,
        ensures
            r == self.keys(),
    {
        self.head_k_dim * self.num_k_heads
    }

    pub fn value_dim(&self) -> (r: usize)
        requires
            self.values() <= usize::MAX,
        ensures
            r == self.values(),
    {
        self.head_v_dim * self.num_v_heads
    }

    pub fn conv_dim(&self) -> (r: usize)
        requires
            self.channels() <= usize::MAX,
        ensures
            r == self.channels(),
    {
        proof {
            assert(self.keys() >= 0 && self.values() >= 0) by (nonlinear_arith)
                requires
                    self.keys() == self.head_k_dim * self.num_k_heads,
                    self.values() == self.head_v_dim * self.num_v_heads,
            ;
        }
        self.key_dim() * 2 + self.value_dim()
    }

    /// `num_v_heads / num_k_heads`; 1 means no GQA expansion is applied.
    pub fn kv_ratio(&self) -> (r: usize)
        requires
            self.num_k_heads > 0,
        ensures
            r == self.ratio(),
    {
        self.num_v_heads / self.num_k_heads
    }
}

/// All weights of one block, in the layout PyTorch stores them.
#[derive(Debug, Clone)]
pub struct GdnWeights<T> {
    /// `[conv_dim, hidden]`
    pub in_proj_qkv: Vec<T>,
    /// `[value_dim, hidden]`
    pub in_proj_z: Vec<T>,
    /// `[num_v_heads, hidden]`
    pub in_proj_b: Vec<T>,
    /// `[num_v_heads, hidden]`
    pub in_proj_a: Vec<T>,
    /// `[conv_dim, 1, conv_kernel]` as stored; only `[conv_dim, conv_kernel]` is used.
    pub conv1d: Vec<T>,
    /// `[num_v_heads]`
    pub a_log: Vec<T>,
    /// `[num_v_heads]`
    pub dt_bias: Vec<T>,
    /// `[head_v_dim]` -- `Qwen3_5RMSNormGated`, applied as `w * x_hat * silu(z)`.
    pub norm: Vec<T>,
    /// `[hidden, value_dim]`
    pub out_proj: Vec<T>,
}

impl<T> GdnWeights<T> {
    /// Whether the weights have the sizes of a block.
    pub open spec fn fit(self, cfg: GdnConfig) -> bool {
        &&& self.in_proj_qkv.len() == cfg.channels() * cfg.hidden
        &&& self.in_proj_z.len() == cfg.values() * cfg.hidden
        &&& self.in_proj_b.len() == cfg.num_v_heads * cfg.hidden
        &&& self.in_proj_a.len() == cfg.num_v_heads * cfg.hidden
        &&& self.conv1d.len() == cfg.channels() * cfg.conv_kernel
        &&& self.a_log.len() >= cfg.num_v_heads
        &&& self.dt_bias.len() >= cfg.num_v_heads
        &&& self.out_proj.len() == cfg.hidden * cfg.values()
    }
}

/// Every intermediate of one block, so a caller can compare against a golden
/// bundle at whichever step diverges first.
#[derive(Debug, Clone)]
pub struct GdnTrace<T> {
    pub in_proj_qkv: Vec<T>,
    pub conv_in: Vec<T>,
    pub conv_out: Vec<T>,
    pub in_proj_z: Vec<T>,
    pub in_proj_b: Vec<T>,
    pub in_proj_a: Vec<T>,
    /// post-GQA-expansion, `[B, T, num_v_heads, head_k_dim]`
    pub q: Vec<T>,
    pub k: Vec<T>,
    pub v: Vec<T>,
    pub g: Vec<T>,
    pub beta: Vec<T>,
    pub delta_out: Vec<T>,
    pub delta_state: Vec<T>,
    pub norm: Vec<T>,
    pub out_proj: Vec<T>,
}

/// Per-layer state the linear-attention mixer carries between calls.
///
/// The mixer has two kinds of memory, and they are not the same thing:
///
/// * [`conv`](GdnState::conv) is the previous `conv_kernel - 1` inputs. The depthwise
///   causal convolution needs exactly that much left context, so this is tiny and
///   bounded.
/// * [`ssm`](GdnState::ssm) is the delta rule's recurrent state, `[B, H, K, V]`. This is
///   the reason a linear-attention layer exists at all: it is a **constant** amount of
///   state, so unlike a KV cache it does not grow with context.
#[derive(Debug, Clone)]
pub struct GdnState<T> {
    /// `[B, conv_dim, K-1]`, channels-first to match the convolution's layout.
    pub conv: Vec<T>,
    /// `[B, num_v_heads, head_k_dim, head_v_dim]`
    pub ssm: Vec<T>,
}

/// How many values the convolution's state has.
pub open spec fn conv_state_len(cfg: GdnConfig, b: int) -> int {
    b * cfg.channels() * conv::kept(cfg.conv_kernel as int)
}

/// How many values the rule's state has.
pub open spec fn rule_state_len(cfg: GdnConfig, b: int) -> int {
    b * cfg.num_v_heads * cfg.head_k_dim * cfg.head_v_dim
}

/// `n` times `zero`.
fn filled<T: Copy>(zero: T, n: usize) -> (r: Vec<T>)
    ensures
        r@ == Seq::new(n as nat, |i: int| zero),
{
    let mut out: Vec<T> = Vec::new();
    let mut i: usize = 0;
    while i < n
        invariant
            i <= n,
            out@ == Seq::new(i as nat, |j: int| zero),
        decreases n - i,
    {
        out.push(zero);
        i += 1;
        assert(out@ =~= Seq::new(i as nat, |j: int| zero));
    }
    out
}

/// A copy of `x`.
fn copied<T: Copy>(x: &Vec<T>) -> (r: Vec<T>)
    ensures
        r@ == x@,
{
    let mut out: Vec<T> = Vec::new();
    let mut i: usize = 0;
    while i < x.len()
        invariant
            i <= x.len(),
            out@ == x@.take(i as int),
        decreases x.len() - i,
    {
        out.push(x[i]);
        i += 1;
        assert(out@ =~= x@.take(i as int));
    }
    assert(x@.take(i as int) =~= x@);
    out
}

/// A product of four sizes, where it can be counted.
fn product4(a: usize, b: usize, c: usize, d: usize) -> (r: usize)
    requires
        a * b * c * d <= usize::MAX,
    ensures
        r == a * b * c * d,
{
    if a == 0 || b == 0 || c == 0 || d == 0 {
        proof {
            assert(a * b * c * d == 0) by (nonlinear_arith)
                requires
                    a == 0 || b == 0 || c == 0 || d == 0,
            ;
        }
        return 0;
    }
    proof {
        assert(a * b <= a * b * c) by (nonlinear_arith)
            requires
                c >= 1,
                a >= 1,
                b >= 1,
        ;
        assert(a * b * c <= a * b * c * d) by (nonlinear_arith)
            requires
                a >= 1,
                b >= 1,
                c >= 1,
                d >= 1,
        ;
    }
    a * b * c * d
}

impl<T> GdnState<T> {
    /// How many bytes the state takes.
    pub open spec fn size(self) -> int {
        (self.conv.len() + self.ssm.len()) * VALUE_BYTES
    }

    /// Bytes of state, so a caller can report what the cache costs.
    pub fn bytes(&self) -> (r: usize)
        requires
            self.size() <= usize::MAX,
        ensures
            r == self.size(),
    {
        (self.conv.len() + self.ssm.len()) * VALUE_BYTES
    }
}

impl<T: Copy> GdnState<T> {
    /// A state of zeros, which is what the first chunk of a sequence starts from.
    pub fn new(cfg: &GdnConfig, b: usize, zero: T) -> (r: Self)
        requires
            cfg.channels() <= usize::MAX,
            conv_state_len(*cfg, b as int) <= usize::MAX,
            rule_state_len(*cfg, b as int) <= usize::MAX,
        ensures
            r.conv@ == Seq::new(conv_state_len(*cfg, b as int) as nat, |i: int| zero),
            r.ssm@ == Seq::new(rule_state_len(*cfg, b as int) as nat, |i: int| zero),
    {
        let keep: usize = if cfg.conv_kernel > 0 {
            cfg.conv_kernel - 1
        } else {
            0
        };
        let channels: usize = cfg.conv_dim();
        proof {
            assert(b * channels * keep * 1 == b * channels * keep) by (nonlinear_arith);
        }
        let conv_len: usize = product4(b, channels, keep, 1);
        let rule_len: usize = product4(b, cfg.num_v_heads, cfg.head_k_dim, cfg.head_v_dim);
        GdnState { conv: filled(zero, conv_len), ssm: filled(zero, rule_len) }
    }
}

// ---------------------------------------------------------------------------
// what the block computes
// ---------------------------------------------------------------------------
/// Whether the sizes of a call can be counted.
pub open spec fn sizes_fit(cfg: GdnConfig, b: int, t: int) -> bool {
    let rows = b * t;
    &&& cfg.num_k_heads > 0
    &&& rows <= usize::MAX
    &&& cfg.keys() <= usize::MAX
    &&& cfg.values() <= usize::MAX
    &&& cfg.channels() <= usize::MAX
    &&& rows * cfg.channels() <= usize::MAX
    &&& rows * cfg.values() <= usize::MAX
    &&& rows * cfg.num_v_heads <= usize::MAX
    &&& rows * cfg.hidden <= usize::MAX
    &&& rows * cfg.num_k_heads <= usize::MAX
    &&& rows * cfg.num_k_heads * cfg.ratio() * cfg.head_k_dim <= usize::MAX
    &&& b * cfg.channels() <= usize::MAX
    &&& conv_state_len(cfg, b) <= usize::MAX
    &&& conv::kept(cfg.conv_kernel as int) + t <= usize::MAX
}

/// Whether `y` is the product of `w` and `x`, cell by cell.
pub open spec fn is_product<T, F: Fn(&[T], &[T], usize) -> T>(
    cell: F,
    w: Seq<T>,
    x: Seq<T>,
    rows: int,
    in_dim: int,
    out_dim: int,
    y: Seq<T>,
) -> bool {
    &&& y.len() == rows * out_dim
    &&& forall|i: int|
        0 <= i < y.len() ==> tensor::product_at(cell, w, x, in_dim, out_dim, i, #[trigger] y[i])
}

/// The heads of `q` or `k`, expanded to those of `v`.
pub open spec fn expanded<T>(x: Seq<T>, cfg: GdnConfig, rows: int) -> Seq<T> {
    if cfg.ratio() == 1 {
        x
    } else {
        tensor::interleaved(x, rows * cfg.num_k_heads, cfg.head_k_dim as int, cfg.ratio())
    }
}

/// Whether `y` is what `norm` makes of the weights, a row of values and a row of gates.
pub open spec fn norm_gives<T, N: Fn(&[T], &[T], &[T]) -> Vec<T>>(
    norm: N,
    w: Seq<T>,
    x: Seq<T>,
    z: Seq<T>,
    y: Seq<T>,
) -> bool {
    exists|a: &[T], b: &[T], c: &[T], r: Vec<T>|
        a@ == w && b@ == x && c@ == z && r@ == y && #[trigger] call_ensures(norm, (a, b, c), r)
}

/// Whether `y` is normed row by row.
pub open spec fn is_normed<T, N: Fn(&[T], &[T], &[T]) -> Vec<T>>(
    norm: N,
    w: Seq<T>,
    x: Seq<T>,
    z: Seq<T>,
    rows: int,
    dim: int,
    y: Seq<T>,
) -> bool {
    &&& y.len() == rows * dim
    &&& forall|r: int|
        0 <= r < rows ==> norm_gives(
            norm,
            w,
            tensor::row(x, r, dim),
            tensor::row(z, r, dim),
            #[trigger] tensor::row(y, r, dim),
        )
}

/// Whether `out` and `after` are what the rule makes of its operands and the state before.
pub open spec fn rule_gives<
    T,
    R: Fn(&[T], &[T], &[T], &[T], &[T], Option<&[T]>) -> (Vec<T>, Vec<T>),
>(
    rule: R,
    q: Seq<T>,
    k: Seq<T>,
    v: Seq<T>,
    g: Seq<T>,
    beta: Seq<T>,
    before: Option<Seq<T>>,
    out: Seq<T>,
    after: Seq<T>,
) -> bool {
    exists|
        aq: &[T],
        ak: &[T],
        av: &[T],
        ag: &[T],
        ab: &[T],
        s: Option<&[T]>,
        r: (Vec<T>, Vec<T>),
    |
        {
            &&& aq@ == q && ak@ == k && av@ == v && ag@ == g && ab@ == beta
            &&& conv::state_view(s) == before
            &&& r.0@ == out && r.1@ == after
            &&& #[trigger] call_ensures(rule, (aq, ak, av, ag, ab, s), r)
        }
}

/// Whether a trace is that of a block: each intermediate is what its step makes of the ones
/// before it.
pub open spec fn is_trace<
    T,
    D: Fn(&[T], &[T], usize) -> T,
    C: Fn(&[T], &[T], usize) -> T,
    S: Fn(T) -> T,
    G: Fn(T, T, T) -> T,
    R: Fn(&[T], &[T], &[T], &[T], &[T], Option<&[T]>) -> (Vec<T>, Vec<T>),
    N: Fn(&[T], &[T], &[T]) -> Vec<T>,
>(
    cfg: GdnConfig,
    w: GdnWeights<T>,
    x: Seq<T>,
    b: int,
    t: int,
    before: Option<(Seq<T>, Seq<T>)>,
    zero: T,
    dot: D,
    tap: C,
    gate: S,
    decay: G,
    rule: R,
    norm: N,
    tr: GdnTrace<T>,
    after: GdnState<T>,
) -> bool {
    let rows = b * t;
    let h = cfg.hidden as int;
    let heads = cfg.num_v_heads as int;
    let conv_before = match before {
        Some(s) => Some(s.0),
        None => None,
    };
    let rule_before = match before {
        Some(s) => Some(s.1),
        None => None,
    };
    let mixed = tensor::transposed(tr.conv_out@, b, cfg.channels(), t);
    // projections
    &&& is_product(dot, w.in_proj_qkv@, x, rows, h, cfg.channels(), tr.in_proj_qkv@)
    &&& is_product(dot, w.in_proj_z@, x, rows, h, cfg.values(), tr.in_proj_z@)
    &&& is_product(dot, w.in_proj_b@, x, rows, h, heads, tr.in_proj_b@)
    &&& is_product(
        dot,
        w.in_proj_a@,
        x,
        rows,
        h,
        heads,
        tr.in_proj_a@,
    )
    // convolution, channels first
    &&& tr.conv_in@ == tensor::transposed(tr.in_proj_qkv@, b, t, cfg.channels())
    &&& tr.conv_out.len() == tr.conv_in.len()
    &&& forall|i: int|
        0 <= i < tr.conv_out.len() ==> conv::conv_at(
            tap,
            w.conv1d@,
            tr.conv_in@,
            conv_before,
            zero,
            cfg.channels(),
            t,
            cfg.conv_kernel as int,
            i,
            #[trigger] tr.conv_out[i],
        )
    &&& after.conv@ == conv::state_behind(
        tr.conv_in@,
        conv_before,
        zero,
        b * cfg.channels(),
        t,
        cfg.conv_kernel as int,
    )
    // split along the last axis, and the expansion of `q` and `k`
    &&& tr.q@ == expanded(
        tensor::columns_of(mixed, rows, cfg.channels(), 0, cfg.keys()),
        cfg,
        rows,
    )
    &&& tr.k@ == expanded(
        tensor::columns_of(mixed, rows, cfg.channels(), cfg.keys(), cfg.keys()),
        cfg,
        rows,
    )
    &&& tr.v@ == tensor::columns_of(
        mixed,
        rows,
        cfg.channels(),
        2 * cfg.keys(),
        cfg.values(),
    )
    // gates
    &&& tr.beta.len() == rows * heads
    &&& tr.g.len() == rows * heads
    &&& forall|i: int|
        0 <= i < rows * heads ==> call_ensures(gate, (tr.in_proj_b[i],), #[trigger] tr.beta[i])
    &&& forall|i: int|
        0 <= i < rows * heads ==> call_ensures(
            decay,
            (tr.in_proj_a[i], w.a_log[i % heads], w.dt_bias[i % heads]),
            #[trigger] tr.g[i],
        )
    // the rule, the gated norm over each head, and the output projection
    &&& rule_gives(
        rule,
        tr.q@,
        tr.k@,
        tr.v@,
        tr.g@,
        tr.beta@,
        rule_before,
        tr.delta_out@,
        tr.delta_state@,
    )
    &&& after.ssm@ == tr.delta_state@
    &&& is_normed(
        norm,
        w.norm@,
        tr.delta_out@,
        tr.in_proj_z@,
        rows * heads,
        cfg.head_v_dim as int,
        tr.norm@,
    )
    &&& is_product(dot, w.out_proj@, tr.norm@, rows, cfg.values(), h, tr.out_proj@)
}

/// The gates of a call, one value each.
fn gates<T: Copy, S: Fn(T) -> T>(x: &Vec<T>, gate: &S) -> (r: Vec<T>)
    requires
        forall|v: T| call_requires(*gate, (v,)),
    ensures
        r.len() == x.len(),
        forall|i: int| 0 <= i < x.len() ==> call_ensures(*gate, (x[i],), #[trigger] r[i]),
{
    let mut out: Vec<T> = Vec::new();
    let mut i: usize = 0;
    while i < x.len()
        invariant
            i <= x.len(),
            forall|v: T| call_requires(*gate, (v,)),
            out.len() == i,
            forall|j: int| 0 <= j < i ==> call_ensures(*gate, (x[j],), #[trigger] out[j]),
        decreases x.len() - i,
    {
        out.push(gate(x[i]));
        i += 1;
    }
    out
}

/// The decays of a call, one value per row and head.
fn decays<T: Copy, G: Fn(T, T, T) -> T>(
    x: &Vec<T>,
    a_log: &Vec<T>,
    dt_bias: &Vec<T>,
    heads: usize,
    decay: &G,
) -> (r: Vec<T>)
    requires
        a_log.len() >= heads,
        dt_bias.len() >= heads,
        x.len() > 0 ==> heads > 0,
        forall|u: T, v: T, w: T| call_requires(*decay, (u, v, w)),
    ensures
        r.len() == x.len(),
        forall|i: int|
            0 <= i < x.len() ==> call_ensures(
                *decay,
                (x[i], a_log[i % (heads as int)], dt_bias[i % (heads as int)]),
                #[trigger] r[i],
            ),
{
    let mut out: Vec<T> = Vec::new();
    let mut i: usize = 0;
    while i < x.len()
        invariant
            i <= x.len(),
            a_log.len() >= heads,
            dt_bias.len() >= heads,
            x.len() > 0 ==> heads > 0,
            forall|u: T, v: T, w: T| call_requires(*decay, (u, v, w)),
            out.len() == i,
            forall|j: int|
                0 <= j < i ==> call_ensures(
                    *decay,
                    (x[j], a_log[j % (heads as int)], dt_bias[j % (heads as int)]),
                    #[trigger] out[j],
                ),
        decreases x.len() - i,
    {
        let hh: usize = i % heads;
        out.push(decay(x[i], a_log[hh], dt_bias[hh]));
        i += 1;
    }
    out
}

/// Norms row by row.
fn norm_rows<T: Copy, N: Fn(&[T], &[T], &[T]) -> Vec<T>>(
    w: &[T],
    x: &[T],
    z: &[T],
    rows: usize,
    dim: usize,
    norm: &N,
) -> (r: Vec<T>)
    requires
        x.len() == rows * dim,
        z.len() == rows * dim,
        forall|a: &[T], b: &[T], c: &[T]| call_requires(*norm, (a, b, c)),
        forall|a: &[T], b: &[T], c: &[T], y: Vec<T>| #[trigger]
            call_ensures(*norm, (a, b, c), y) ==> y.len() == b.len(),
    ensures
        is_normed(*norm, w@, x@, z@, rows as int, dim as int, r@),
{
    let mut out: Vec<T> = Vec::new();
    let mut r: usize = 0;
    assert(0 * dim == 0) by (nonlinear_arith);
    while r < rows
        invariant
            r <= rows,
            x.len() == rows * dim,
            z.len() == rows * dim,
            forall|a: &[T], b: &[T], c: &[T]| call_requires(*norm, (a, b, c)),
            forall|a: &[T], b: &[T], c: &[T], y: Vec<T>| #[trigger]
                call_ensures(*norm, (a, b, c), y) ==> y.len() == b.len(),
            out.len() == r * dim,
            forall|q: int|
                0 <= q < r ==> norm_gives(
                    *norm,
                    w@,
                    tensor::row(x@, q, dim as int),
                    tensor::row(z@, q, dim as int),
                    #[trigger] tensor::row(out@, q, dim as int),
                ),
        decreases rows - r,
    {
        proof {
            tensor::lemma_row_fits(r as int, rows as int, dim as int);
        }
        let xr = slice_subrange(x, r * dim, r * dim + dim);
        let zr = slice_subrange(z, r * dim, r * dim + dim);
        let mut y: Vec<T> = norm(w, xr, zr);
        let ghost made = y;
        let ghost before = out@;
        out.append(&mut y);
        proof {
            assert(out@ =~= before + made@);
            assert forall|q: int| 0 <= q < r + 1 implies norm_gives(
                *norm,
                w@,
                tensor::row(x@, q, dim as int),
                tensor::row(z@, q, dim as int),
                #[trigger] tensor::row(out@, q, dim as int),
            ) by {
                if q < r {
                    tensor::lemma_row_fits(q, r as int, dim as int);
                    assert(tensor::row(out@, q, dim as int) =~= tensor::row(before, q, dim as int));
                } else {
                    assert(tensor::row(out@, q, dim as int) =~= made@);
                    assert(call_ensures(*norm, (w, xr, zr), made));
                }
            }
            assert((r + 1) * dim == r * dim + dim) by (nonlinear_arith);
        }
        r += 1;
    }
    out
}

/// The view of a state.
pub open spec fn state_parts<T>(state: Option<&GdnState<T>>) -> Option<(Seq<T>, Seq<T>)> {
    match state {
        Some(s) => Some((s.conv@, s.ssm@)),
        None => None,
    }
}

/// Runs the mixer from `state` where there is one and from zeros where there is none, and
/// gives the state behind the chunk.
fn forward_impl<
    T: Copy,
    D: Fn(&[T], &[T], usize) -> T,
    C: Fn(&[T], &[T], usize) -> T,
    S: Fn(T) -> T,
    G: Fn(T, T, T) -> T,
    R: Fn(&[T], &[T], &[T], &[T], &[T], Option<&[T]>) -> (Vec<T>, Vec<T>),
    N: Fn(&[T], &[T], &[T]) -> Vec<T>,
>(
    cfg: &GdnConfig,
    w: &GdnWeights<T>,
    x: &[T],
    b: usize,
    t: usize,
    state: Option<&GdnState<T>>,
    zero: T,
    dot: D,
    tap: C,
    gate: S,
    decay: G,
    rule: R,
    norm: N,
) -> (r: (GdnTrace<T>, GdnState<T>))
    requires
        sizes_fit(*cfg, b as int, t as int),
        w.fit(*cfg),
        x.len() == b * t * cfg.hidden,
        state matches Some(s) ==> s.conv.len() == conv_state_len(*cfg, b as int),
        forall|a: &[T], c: &[T], o: usize| call_requires(dot, (a, c, o)),
        forall|a: &[T], c: &[T], o: usize| call_requires(tap, (a, c, o)),
        forall|v: T| call_requires(gate, (v,)),
        forall|u: T, v: T, a: T| call_requires(decay, (u, v, a)),
        forall|q: &[T], k: &[T], v: &[T], g: &[T], be: &[T], s: Option<&[T]>|
            call_requires(rule, (q, k, v, g, be, s)),
        forall|
            q: &[T],
            k: &[T],
            v: &[T],
            g: &[T],
            be: &[T],
            s: Option<&[T]>,
            y: (Vec<T>, Vec<T>),
        | #[trigger]
            call_ensures(rule, (q, k, v, g, be, s), y) ==> y.0.len() == v.len(),
        forall|a: &[T], c: &[T], z: &[T]| call_requires(norm, (a, c, z)),
        forall|a: &[T], c: &[T], z: &[T], y: Vec<T>| #[trigger]
            call_ensures(norm, (a, c, z), y) ==> y.len() == c.len(),
    ensures
        is_trace(
            *cfg,
            *w,
            x@,
            b as int,
            t as int,
            state_parts(state),
            zero,
            dot,
            tap,
            gate,
            decay,
            rule,
            norm,
            r.0,
            r.1,
        ),
{
    let h: usize = cfg.hidden;
    let heads: usize = cfg.num_v_heads;
    let rows: usize = b * t;
    let channels: usize = cfg.conv_dim();
    let kd: usize = cfg.key_dim();
    let vd: usize = cfg.value_dim();
    // 1. projections
    let mixed = linear(w.in_proj_qkv.as_slice(), x, rows, h, channels, &dot);
    let z_full = linear(w.in_proj_z.as_slice(), x, rows, h, vd, &dot);
    let bb = linear(w.in_proj_b.as_slice(), x, rows, h, heads, &dot);
    let aa = linear(w.in_proj_a.as_slice(), x, rows, h, heads, &dot);
    // 2. conv over [B, C, T]
    let mixed_bct = btc_to_bct(mixed.as_slice(), b, t, channels);
    proof {
        assert(b * channels * t == b * t * channels) by (nonlinear_arith);
    }
    let conv_state: Option<&[T]> = match state {
        Some(s) => Some(s.conv.as_slice()),
        None => None,
    };
    let (conv_out, new_conv) = conv_forward(
        w.conv1d.as_slice(),
        mixed_bct.as_slice(),
        b,
        channels,
        t,
        cfg.conv_kernel,
        conv_state,
        zero,
        tap,
    );
    let conv_btc = bct_to_btc(conv_out.as_slice(), b, channels, t);
    // 3. split into q, k, v along the last axis
    proof {
        assert(b * t * channels == rows * channels);
    }
    let q_raw = columns(conv_btc.as_slice(), rows, channels, 0, kd);
    let k_raw = columns(conv_btc.as_slice(), rows, channels, kd, kd);
    let v_raw = columns(conv_btc.as_slice(), rows, channels, 2 * kd, vd);
    // 4. g and beta
    proof {
        if rows * heads > 0 {
            assert(heads > 0) by (nonlinear_arith)
                requires
                    rows * heads > 0,
                    heads >= 0,
            ;
        }
    }
    let beta = gates(&bb, &gate);
    let g = decays(&aa, &w.a_log, &w.dt_bias, heads, &decay);
    // 5. GQA expansion, before the rule
    let ratio: usize = cfg.kv_ratio();
    proof {
        let hk = cfg.num_k_heads;
        let d = cfg.head_k_dim;
        assert(rows * kd == b * t * hk * d) by (nonlinear_arith)
            requires
                rows == b * t,
                kd == d * hk,
        ;
    }
    let q = repeat_interleave_heads(
        q_raw.as_slice(),
        b,
        t,
        cfg.num_k_heads,
        cfg.head_k_dim,
        ratio,
    );
    let k = repeat_interleave_heads(
        k_raw.as_slice(),
        b,
        t,
        cfg.num_k_heads,
        cfg.head_k_dim,
        ratio,
    );
    // 6. the rule, continued from the state when there is one
    let rule_state: Option<&[T]> = match state {
        Some(s) => Some(s.ssm.as_slice()),
        None => None,
    };
    let (delta_out, delta_state) = rule(
        q.as_slice(),
        k.as_slice(),
        v_raw.as_slice(),
        g.as_slice(),
        beta.as_slice(),
        rule_state,
    );
    // 7. norm over head_v_dim, gated by z. It sees `B*T*H` rows, not `B*T`.
    let norm_rows_count: usize = rows * heads;
    proof {
        let d = cfg.head_v_dim;
        assert(rows * vd == rows * heads * d) by (nonlinear_arith)
            requires
                vd == d * heads,
        ;
    }
    let normed = norm_rows(
        w.norm.as_slice(),
        delta_out.as_slice(),
        z_full.as_slice(),
        norm_rows_count,
        cfg.head_v_dim,
        &norm,
    );
    // 8. out_proj
    let out_proj = linear(w.out_proj.as_slice(), normed.as_slice(), rows, vd, h, &dot);
    let ssm: Vec<T> = copied(&delta_state);
    let tr = GdnTrace {
        in_proj_qkv: mixed,
        conv_in: mixed_bct,
        conv_out,
        in_proj_z: z_full,
        in_proj_b: bb,
        in_proj_a: aa,
        q,
        k,
        v: v_raw,
        g,
        beta,
        delta_out,
        delta_state,
        norm: normed,
        out_proj,
    };
    (tr, GdnState { conv: new_conv, ssm })
}

/// Run the mixer on an **already-normalised** input, with no prior state.
///
/// `x` is the output of the decoder layer's `input_layernorm`, which the layer
/// owns: applying it here instead would look correct on a single layer while
/// double-normalising in a chain, so the layer does it.
///
/// `x` is `[B, T, hidden]`. The trace's `out_proj` is the mixer's output, and the state is
/// the one behind the whole sequence.
///
/// This is the whole-sequence path: it re-runs from zero state every time, so a caller
/// that decodes one token at a time pays for the entire prefix at each step. Use
/// [`forward_with_state`] to avoid that.
pub fn forward<
    T: Copy,
    D: Fn(&[T], &[T], usize) -> T,
    C: Fn(&[T], &[T], usize) -> T,
    S: Fn(T) -> T,
    G: Fn(T, T, T) -> T,
    R: Fn(&[T], &[T], &[T], &[T], &[T], Option<&[T]>) -> (Vec<T>, Vec<T>),
    N: Fn(&[T], &[T], &[T]) -> Vec<T>,
>(
    cfg: &GdnConfig,
    w: &GdnWeights<T>,
    x: &[T],
    b: usize,
    t: usize,
    zero: T,
    dot: D,
    tap: C,
    gate: S,
    decay: G,
    rule: R,
    norm: N,
) -> (r: (GdnTrace<T>, GdnState<T>))
    requires
        sizes_fit(*cfg, b as int, t as int),
        w.fit(*cfg),
        x.len() == b * t * cfg.hidden,
        forall|a: &[T], c: &[T], o: usize| call_requires(dot, (a, c, o)),
        forall|a: &[T], c: &[T], o: usize| call_requires(tap, (a, c, o)),
        forall|v: T| call_requires(gate, (v,)),
        forall|u: T, v: T, a: T| call_requires(decay, (u, v, a)),
        forall|q: &[T], k: &[T], v: &[T], g: &[T], be: &[T], s: Option<&[T]>|
            call_requires(rule, (q, k, v, g, be, s)),
        forall|
            q: &[T],
            k: &[T],
            v: &[T],
            g: &[T],
            be: &[T],
            s: Option<&[T]>,
            y: (Vec<T>, Vec<T>),
        | #[trigger]
            call_ensures(rule, (q, k, v, g, be, s), y) ==> y.0.len() == v.len(),
        forall|a: &[T], c: &[T], z: &[T]| call_requires(norm, (a, c, z)),
        forall|a: &[T], c: &[T], z: &[T], y: Vec<T>| #[trigger]
            call_ensures(norm, (a, c, z), y) ==> y.len() == c.len(),
    ensures
        is_trace(
            *cfg,
            *w,
            x@,
            b as int,
            t as int,
            None,
            zero,
            dot,
            tap,
            gate,
            decay,
            rule,
            norm,
            r.0,
            r.1,
        ),
{
    forward_impl(cfg, w, x, b, t, None, zero, dot, tap, gate, decay, rule, norm)
}

/// Run the mixer continuing from `state`, which is advanced in place.
///
/// `x` is the new chunk, `[B, T, hidden]`. Decoding passes `T = 1` and lets `state`
/// carry everything the mixer remembers. Because the state is *continued* rather than
/// restarted, this is the same arithmetic as [`forward`] over the concatenated sequence, not
/// an approximation of it.
pub fn forward_with_state<
    T: Copy,
    D: Fn(&[T], &[T], usize) -> T,
    C: Fn(&[T], &[T], usize) -> T,
    S: Fn(T) -> T,
    G: Fn(T, T, T) -> T,
    R: Fn(&[T], &[T], &[T], &[T], &[T], Option<&[T]>) -> (Vec<T>, Vec<T>),
    N: Fn(&[T], &[T], &[T]) -> Vec<T>,
>(
    cfg: &GdnConfig,
    w: &GdnWeights<T>,
    x: &[T],
    b: usize,
    t: usize,
    state: &mut GdnState<T>,
    zero: T,
    dot: D,
    tap: C,
    gate: S,
    decay: G,
    rule: R,
    norm: N,
) -> (r: GdnTrace<T>)
    requires
        sizes_fit(*cfg, b as int, t as int),
        w.fit(*cfg),
        x.len() == b * t * cfg.hidden,
        old(state).conv.len() == conv_state_len(*cfg, b as int),
        forall|a: &[T], c: &[T], o: usize| call_requires(dot, (a, c, o)),
        forall|a: &[T], c: &[T], o: usize| call_requires(tap, (a, c, o)),
        forall|v: T| call_requires(gate, (v,)),
        forall|u: T, v: T, a: T| call_requires(decay, (u, v, a)),
        forall|q: &[T], k: &[T], v: &[T], g: &[T], be: &[T], s: Option<&[T]>|
            call_requires(rule, (q, k, v, g, be, s)),
        forall|
            q: &[T],
            k: &[T],
            v: &[T],
            g: &[T],
            be: &[T],
            s: Option<&[T]>,
            y: (Vec<T>, Vec<T>),
        | #[trigger]
            call_ensures(rule, (q, k, v, g, be, s), y) ==> y.0.len() == v.len(),
        forall|a: &[T], c: &[T], z: &[T]| call_requires(norm, (a, c, z)),
        forall|a: &[T], c: &[T], z: &[T], y: Vec<T>| #[trigger]
            call_ensures(norm, (a, c, z), y) ==> y.len() == c.len(),
    ensures
        is_trace(
            *cfg,
            *w,
            x@,
            b as int,
            t as int,
            Some((old(state).conv@, old(state).ssm@)),
            zero,
            dot,
            tap,
            gate,
            decay,
            rule,
            norm,
            r,
            *final(state),
        ),
{
    let (tr, next) = forward_impl(
        cfg,
        w,
        x,
        b,
        t,
        Some(&*state),
        zero,
        dot,
        tap,
        gate,
        decay,
        rule,
        norm,
    );
    *state = next;
    tr
}

} // verus!
