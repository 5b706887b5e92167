//! What each value of a block is made of, in terms of the values that the block was given.
use super::{GdnConfig, GdnState, GdnTrace, GdnWeights};
use crate::conv;
use crate::tensor;
use vstd::prelude::*;

verus! {

pub(crate) proof fn lemma_product_value<T, F: Fn(&[T], &[T], usize) -> T>(
    cell: F,
    w: Seq<T>,
    x: Seq<T>,
    rows: int,
    in_dim: int,
    out_dim: int,
    y: Seq<T>,
    r: int,
    o: int,
)
    requires
        super::is_product(cell, w, x, rows, in_dim, out_dim, y),
        0 <= r < rows,
        0 <= o < out_dim,
    ensures
        exists|a: &[T], c: &[T]|
            {
                &&& a@ == w.subrange(o * in_dim, o * in_dim + in_dim)
                &&& c@ == x.subrange(r * in_dim, r * in_dim + in_dim)
                &&& #[trigger] call_ensures(cell, (a, c, o as usize), y[r * out_dim + o])
            },
{
    tensor::lemma_flat(r, o, out_dim);
    tensor::lemma_row_fits(r, rows, out_dim);
    let i = r * out_dim + o;
    let v = y[i];
    assert(tensor::product_at(cell, w, x, in_dim, out_dim, i, y[i]));
    let (a, c) = choose|a: &[T], c: &[T]|
        a@ == tensor::row(w, o, in_dim) && c@ == tensor::row(x, r, in_dim)
            && #[trigger] call_ensures(cell, (a, c, o as usize), y[i]);
    assert(call_ensures(cell, (a, c, o as usize), y[r * out_dim + o]));
}

/// **The projections.** Each value of a projection is the product of its own row of the weights and
/// its own row of the input: row `r`, output `o`.
pub proof fn projections_are_of_the_input<
    T,
    D: Fn(&[T], &[T], usize) -> T,
    C: Fn(&[T], &[T], usize) -> T,
    S: Fn(T) -> T,
    G: Fn(T, T, T) -> T,
    R: Fn(&[T], &[T], &[T], &[T], &[T], Option<&[T]>) -> (Vec<T>, Vec<T>),
    N: Fn(&[T], &[T], &[T]) -> Vec<T>,
>(
    cfg: GdnConfig,
    w: GdnWeights<T>,
    x: Seq<T>,
    b: int,
    t: int,
    before: Option<(Seq<T>, Seq<T>)>,
    zero: T,
    dot: D,
    tap: C,
    gate: S,
    decay: G,
    rule: R,
    norm: N,
    tr: GdnTrace<T>,
    after: GdnState<T>,
    r: int,
    o: int,
)
    requires
        super::is_trace(
            cfg,
            w,
            x,
            b,
            t,
            before,
            zero,
            dot,
            tap,
            gate,
            decay,
            rule,
            norm,
            tr,
            after,
        ),
        0 <= r < b * t,
    ensures
        0 <= o < cfg.head_k_dim * cfg.num_k_heads * 2 + cfg.head_v_dim * cfg.num_v_heads ==> exists|a: &[T], c: &[T]|
            {
                &&& a@ == w.in_proj_qkv@.subrange(o * cfg.hidden, o * cfg.hidden + cfg.hidden)
                &&& c@ == x.subrange(r * cfg.hidden, r * cfg.hidden + cfg.hidden)
                &&& #[trigger] call_ensures(dot, (a, c, o as usize), tr.in_proj_qkv@[r * (cfg.head_k_dim * cfg.num_k_heads * 2 + cfg.head_v_dim * cfg.num_v_heads) + o])
            },
        0 <= o < cfg.head_v_dim * cfg.num_v_heads ==> exists|a: &[T], c: &[T]|
            {
                &&& a@ == w.in_proj_z@.subrange(o * cfg.hidden, o * cfg.hidden + cfg.hidden)
                &&& c@ == x.subrange(r * cfg.hidden, r * cfg.hidden + cfg.hidden)
                &&& #[trigger] call_ensures(dot, (a, c, o as usize), tr.in_proj_z@[r * (cfg.head_v_dim * cfg.num_v_heads) + o])
            },
        0 <= o < cfg.num_v_heads ==> exists|a: &[T], c: &[T]|
            {
                &&& a@ == w.in_proj_b@.subrange(o * cfg.hidden, o * cfg.hidden + cfg.hidden)
                &&& c@ == x.subrange(r * cfg.hidden, r * cfg.hidden + cfg.hidden)
                &&& #[trigger] call_ensures(dot, (a, c, o as usize), tr.in_proj_b@[r * (cfg.num_v_heads) + o])
            },
        0 <= o < cfg.num_v_heads ==> exists|a: &[T], c: &[T]|
            {
                &&& a@ == w.in_proj_a@.subrange(o * cfg.hidden, o * cfg.hidden + cfg.hidden)
                &&& c@ == x.subrange(r * cfg.hidden, r * cfg.hidden + cfg.hidden)
                &&& #[trigger] call_ensures(dot, (a, c, o as usize), tr.in_proj_a@[r * (cfg.num_v_heads) + o])
            },
{
    if 0 <= o < cfg.head_k_dim * cfg.num_k_heads * 2 + cfg.head_v_dim * cfg.num_v_heads {
        lemma_product_value(
            dot,
            w.in_proj_qkv@,
            x,
            b * t,
            cfg.hidden as int,
            (cfg.head_k_dim * cfg.num_k_heads * 2 + cfg.head_v_dim * cfg.num_v_heads) as int,
            tr.in_proj_qkv@,
            r,
            o,
        );
    }
    if 0 <= o < cfg.head_v_dim * cfg.num_v_heads {
        lemma_product_value(
            dot,
            w.in_proj_z@,
            x,
            b * t,
            cfg.hidden as int,
            (cfg.head_v_dim * cfg.num_v_heads) as int,
            tr.in_proj_z@,
            r,
            o,
        );
    }
    if 0 <= o < cfg.num_v_heads {
        lemma_product_value(
            dot,
            w.in_proj_b@,
            x,
            b * t,
            cfg.hidden as int,
            (cfg.num_v_heads) as int,
            tr.in_proj_b@,
            r,
            o,
        );
    }
    if 0 <= o < cfg.num_v_heads {
        lemma_product_value(
            dot,
            w.in_proj_a@,
            x,
            b * t,
            cfg.hidden as int,
            (cfg.num_v_heads) as int,
            tr.in_proj_a@,
            r,
            o,
        );
    }
}

/// **The output.** Each value of the output is the product of its own row of the weights and its own
/// row of what the norm gave.
pub proof fn output_is_of_the_norm<
    T,
    D: Fn(&[T], &[T], usize) -> T,
    C: Fn(&[T], &[T], usize) -> T,
    S: Fn(T) -> T,
    G: Fn(T, T, T) -> T,
    R: Fn(&[T], &[T], &[T], &[T], &[T], Option<&[T]>) -> (Vec<T>, Vec<T>),
    N: Fn(&[T], &[T], &[T]) -> Vec<T>,
>(
    cfg: GdnConfig,
    w: GdnWeights<T>,
    x: Seq<T>,
    b: int,
    t: int,
    before: Option<(Seq<T>, Seq<T>)>,
    zero: T,
    dot: D,
    tap: C,
    gate: S,
    decay: G,
    rule: R,
    norm: N,
    tr: GdnTrace<T>,
    after: GdnState<T>,
    r: int,
    o: int,
)
    requires
        super::is_trace(
            cfg,
            w,
            x,
            b,
            t,
            before,
            zero,
            dot,
            tap,
            gate,
            decay,
            rule,
            norm,
            tr,
            after,
        ),
        0 <= r < b * t,
    ensures
        0 <= o < cfg.hidden ==> exists|a: &[T], c: &[T]|
            {
                &&& a@ == w.out_proj@.subrange(o * (cfg.head_v_dim * cfg.num_v_heads), o * (cfg.head_v_dim * cfg.num_v_heads) + (cfg.head_v_dim * cfg.num_v_heads))
                &&& c@ == tr.norm@.subrange(r * (cfg.head_v_dim * cfg.num_v_heads), r * (cfg.head_v_dim * cfg.num_v_heads) + (cfg.head_v_dim * cfg.num_v_heads))
                &&& #[trigger] call_ensures(dot, (a, c, o as usize), tr.out_proj@[r * (cfg.hidden) + o])
            },
{
    if 0 <= o < cfg.hidden {
        lemma_product_value(
            dot,
            w.out_proj@,
            tr.norm@,
            b * t,
            cfg.head_v_dim * cfg.num_v_heads,
            cfg.hidden as int,
            tr.out_proj@,
            r,
            o,
        );
    }
}

/// **The convolution.** Channel `ci` at position `ti` is made, with that channel's own taps, of that
/// channel's own values at `ti` and the `conv_kernel - 1` positions before it. What lies in front
/// of the chunk is the carried state, and zeros where there is none.
pub proof fn convolution_reads_its_own_channel<
    T,
    D: Fn(&[T], &[T], usize) -> T,
    C: Fn(&[T], &[T], usize) -> T,
    S: Fn(T) -> T,
    G: Fn(T, T, T) -> T,
    R: Fn(&[T], &[T], &[T], &[T], &[T], Option<&[T]>) -> (Vec<T>, Vec<T>),
    N: Fn(&[T], &[T], &[T]) -> Vec<T>,
>(
    cfg: GdnConfig,
    w: GdnWeights<T>,
    x: Seq<T>,
    b: int,
    t: int,
    before: Option<(Seq<T>, Seq<T>)>,
    zero: T,
    dot: D,
    tap: C,
    gate: S,
    decay: G,
    rule: R,
    norm: N,
    tr: GdnTrace<T>,
    after: GdnState<T>,
    bi: int,
    ti: int,
    ci: int,
) -> (read: Seq<T>)
    requires
        super::is_trace(
            cfg,
            w,
            x,
            b,
            t,
            before,
            zero,
            dot,
            tap,
            gate,
            decay,
            rule,
            norm,
            tr,
            after,
        ),
        0 <= bi < b,
        0 <= ti < t,
        0 <= ci < cfg.head_k_dim * cfg.num_k_heads * 2 + cfg.head_v_dim * cfg.num_v_heads,
        before matches Some(s) ==> s.0.len() == b * (cfg.head_k_dim * cfg.num_k_heads * 2 + cfg.head_v_dim * cfg.num_v_heads) * (cfg.conv_kernel - 1),
        cfg.conv_kernel >= 1,
    ensures
        read.len() == cfg.conv_kernel,
        forall|j: int|
            0 <= j < cfg.conv_kernel ==> #[trigger] read[j] == if ti + j >= cfg.conv_kernel - 1 {
                tr.in_proj_qkv@[(bi * t + (ti + j - (cfg.conv_kernel - 1))) * (
                cfg.head_k_dim * cfg.num_k_heads * 2 + cfg.head_v_dim * cfg.num_v_heads) + ci]
            } else {
                match before {
                    Some(s) => s.0[(bi * (
                    cfg.head_k_dim * cfg.num_k_heads * 2 + cfg.head_v_dim * cfg.num_v_heads) + ci) * (cfg.conv_kernel - 1) + ti + j],
                    None => zero,
                }
            },
        exists|a: &[T], c: &[T]|
            {
                &&& a@ == w.conv1d@.subrange(
                    ci * cfg.conv_kernel,
                    ci * cfg.conv_kernel + cfg.conv_kernel,
                )
                &&& c@ == read
                &&& #[trigger] call_ensures(
                    tap,
                    (a, c, ci as usize),
                    tr.conv_out@[(bi * (
                    cfg.head_k_dim * cfg.num_k_heads * 2 + cfg.head_v_dim * cfg.num_v_heads) + ci) * t + ti],
                )
            },
{
    let channels = cfg.channels();
    let k = cfg.conv_kernel as int;
    let g = bi * channels + ci;
    let i = g * t + ti;
    let conv_before = match before {
        Some(s) => Some(s.0),
        None => None,
    };
    tensor::lemma_flat(bi, ci, channels);
    tensor::lemma_flat(g, ti, t);
    tensor::lemma_row_fits(bi, b, channels);
    tensor::lemma_row_fits(g, b * channels, t);
    assert(tr.conv_in.len() == b * channels * t);
    let v = tr.conv_out[i];
    let signal = conv::signal(tr.conv_in@, conv_before, zero, t, k, g);
    let read = conv::window(signal, ti, k);
    assert(conv::conv_at(
        tap,
        w.conv1d@,
        tr.conv_in@,
        conv_before,
        zero,
        channels,
        t,
        k,
        i,
        tr.conv_out[i],
    ));
    tensor::lemma_row_fits(g, b * channels, k - 1);
    assert(conv::context(conv_before, zero, k - 1, g).len() == k - 1);
    assert(tensor::row(tr.conv_in@, g, t).len() == t);
    assert(signal.len() == k - 1 + t);
    assert forall|j: int| 0 <= j < k implies #[trigger] read[j] == if ti + j >= k - 1 {
        tr.in_proj_qkv@[(bi * t + (ti + j - (k - 1))) * channels + ci]
    } else {
        match before {
            Some(s) => s.0[(bi * channels + ci) * (k - 1) + ti + j],
            None => zero,
        }
    } by {
        assert(read[j] == signal[ti + j]);
        if ti + j >= k - 1 {
            let p = ti + j - (k - 1);
            assert(signal[ti + j] == tr.conv_in@[g * t + p]);
            tensor::transposition_places_values(
                tr.in_proj_qkv@,
                b,
                t,
                channels,
                bi,
                p,
                ci,
            );
        }
    }
    let (a, c) = choose|a: &[T], c: &[T]|
        a@ == tensor::row(w.conv1d@, ci, k) && c@ == read && #[trigger] call_ensures(
            tap,
            (a, c, ci as usize),
            tr.conv_out@[i],
        );
    assert(call_ensures(tap, (a, c, ci as usize), tr.conv_out@[(bi * (
    cfg.head_k_dim * cfg.num_k_heads * 2 + cfg.head_v_dim * cfg.num_v_heads) + ci) * t + ti]));
    read
}

/// **Queries, keys and values.** The convolved channels are split in that order: the first
/// `key_dim` are the queries, the next `key_dim` the keys, and the rest the values. Each head of the
/// queries and of the keys is there as often as there are value heads to a key head, one copy behind
/// the other.
pub proof fn queries_keys_and_values_are_split_in_that_order<
    T,
    D: Fn(&[T], &[T], usize) -> T,
    C: Fn(&[T], &[T], usize) -> T,
    S: Fn(T) -> T,
    G: Fn(T, T, T) -> T,
    R: Fn(&[T], &[T], &[T], &[T], &[T], Option<&[T]>) -> (Vec<T>, Vec<T>),
    N: Fn(&[T], &[T], &[T]) -> Vec<T>,
>(
    cfg: GdnConfig,
    w: GdnWeights<T>,
    x: Seq<T>,
    b: int,
    t: int,
    before: Option<(Seq<T>, Seq<T>)>,
    zero: T,
    dot: D,
    tap: C,
    gate: S,
    decay: G,
    rule: R,
    norm: N,
    tr: GdnTrace<T>,
    after: GdnState<T>,
    bi: int,
    ti: int,
    head: int,
    rep: int,
    d: int,
    j: int,
)
    requires
        super::is_trace(
            cfg,
            w,
            x,
            b,
            t,
            before,
            zero,
            dot,
            tap,
            gate,
            decay,
            rule,
            norm,
            tr,
            after,
        ),
        0 <= bi < b,
        0 <= ti < t,
        0 <= head < cfg.num_k_heads,
        0 <= rep < cfg.num_v_heads as int / cfg.num_k_heads as int,
        0 <= d < cfg.head_k_dim,
        0 <= j < cfg.head_v_dim * cfg.num_v_heads,
    ensures
        tr.q@[(((bi * t + ti) * cfg.num_k_heads + head) * (cfg.num_v_heads as int
            / cfg.num_k_heads as int) + rep) * cfg.head_k_dim + d] == tr.conv_out@[(bi * (
        cfg.head_k_dim * cfg.num_k_heads * 2 + cfg.head_v_dim * cfg.num_v_heads) + head * cfg.head_k_dim + d) * t + ti],
        tr.k@[(((bi * t + ti) * cfg.num_k_heads + head) * (cfg.num_v_heads as int
            / cfg.num_k_heads as int) + rep) * cfg.head_k_dim + d] == tr.conv_out@[(bi * (
        cfg.head_k_dim * cfg.num_k_heads * 2 + cfg.head_v_dim * cfg.num_v_heads) + (
        cfg.head_k_dim * cfg.num_k_heads) + head * cfg.head_k_dim + d) * t + ti],
        tr.v@[(bi * t + ti) * (cfg.head_v_dim * cfg.num_v_heads) + j] == tr.conv_out@[(bi * (
        cfg.head_k_dim * cfg.num_k_heads * 2 + cfg.head_v_dim * cfg.num_v_heads) + 2 * (
        cfg.head_k_dim * cfg.num_k_heads) + j) * t + ti],
{
    let channels = cfg.channels();
    let keys = cfg.keys();
    let r = bi * t + ti;
    let rows = b * t;
    let mixed = tensor::transposed(tr.conv_out@, b, channels, t);
    tensor::lemma_row_fits(bi, b, t);
    assert(keys == cfg.num_k_heads * cfg.head_k_dim) by (nonlinear_arith)
        requires
            keys == cfg.head_k_dim * cfg.num_k_heads,
    ;
    tensor::lemma_row_fits(head, cfg.num_k_heads as int, cfg.head_k_dim as int);
    let at = head * cfg.head_k_dim + d;
    lemma_column(tr.conv_out@, b, t, channels, 0, keys, bi, ti, at);
    lemma_column(tr.conv_out@, b, t, channels, keys, keys, bi, ti, at);
    assert(cfg.values() >= 0) by (nonlinear_arith)
        requires
            cfg.values() == cfg.head_v_dim * cfg.num_v_heads,
    ;
    lemma_column(tr.conv_out@, b, t, channels, 2 * keys, cfg.values(), bi, ti, j);
    lemma_expanded(
        tensor::columns_of(mixed, rows, channels, 0, keys),
        cfg,
        rows,
        r,
        head,
        rep,
        d,
    );
    lemma_expanded(
        tensor::columns_of(mixed, rows, channels, keys, keys),
        cfg,
        rows,
        r,
        head,
        rep,
        d,
    );
}

/// **The gates.** Those of row `r` and head `head` are made of the projections there and of that
/// head's own decay and bias.
pub proof fn gates_are_of_their_own_head<
    T,
    D: Fn(&[T], &[T], usize) -> T,
    C: Fn(&[T], &[T], usize) -> T,
    S: Fn(T) -> T,
    G: Fn(T, T, T) -> T,
    R: Fn(&[T], &[T], &[T], &[T], &[T], Option<&[T]>) -> (Vec<T>, Vec<T>),
    N: Fn(&[T], &[T], &[T]) -> Vec<T>,
>(
    cfg: GdnConfig,
    w: GdnWeights<T>,
    x: Seq<T>,
    b: int,
    t: int,
    before: Option<(Seq<T>, Seq<T>)>,
    zero: T,
    dot: D,
    tap: C,
    gate: S,
    decay: G,
    rule: R,
    norm: N,
    tr: GdnTrace<T>,
    after: GdnState<T>,
    r: int,
    head: int,
)
    requires
        super::is_trace(
            cfg,
            w,
            x,
            b,
            t,
            before,
            zero,
            dot,
            tap,
            gate,
            decay,
            rule,
            norm,
            tr,
            after,
        ),
        0 <= r < b * t,
        0 <= head < cfg.num_v_heads,
    ensures
        call_ensures(
            gate,
            (tr.in_proj_b@[r * cfg.num_v_heads + head],),
            tr.beta@[r * cfg.num_v_heads + head],
        ),
        call_ensures(
            decay,
            (tr.in_proj_a@[r * cfg.num_v_heads + head], w.a_log@[head], w.dt_bias@[head]),
            tr.g@[r * cfg.num_v_heads + head],
        ),
{
    tensor::lemma_flat(r, head, cfg.num_v_heads as int);
    tensor::lemma_row_fits(r, b * t, cfg.num_v_heads as int);
    let i = r * cfg.num_v_heads + head;
    let x1 = tr.beta[i];
    let x2 = tr.g[i];
}

/// **The rule and its state.** The rule is handed the queries, the keys, the values, the decays and
/// the gates, in that order, and the state that the call before left; what it leaves is carried on.
/// Each head of what it gives is normed on its own, with the gates of that row and head.
pub proof fn the_rule_is_handed_what_was_made<
    T,
    D: Fn(&[T], &[T], usize) -> T,
    C: Fn(&[T], &[T], usize) -> T,
    S: Fn(T) -> T,
    G: Fn(T, T, T) -> T,
    R: Fn(&[T], &[T], &[T], &[T], &[T], Option<&[T]>) -> (Vec<T>, Vec<T>),
    N: Fn(&[T], &[T], &[T]) -> Vec<T>,
>(
    cfg: GdnConfig,
    w: GdnWeights<T>,
    x: Seq<T>,
    b: int,
    t: int,
    before: Option<(Seq<T>, Seq<T>)>,
    zero: T,
    dot: D,
    tap: C,
    gate: S,
    decay: G,
    rule: R,
    norm: N,
    tr: GdnTrace<T>,
    after: GdnState<T>,
    r: int,
)
    requires
        super::is_trace(
            cfg,
            w,
            x,
            b,
            t,
            before,
            zero,
            dot,
            tap,
            gate,
            decay,
            rule,
            norm,
            tr,
            after,
        ),
        0 <= r < b * t * cfg.num_v_heads,
    ensures
        exists|
            q: &[T],
            k: &[T],
            v: &[T],
            g: &[T],
            beta: &[T],
            state: Option<&[T]>,
            out: (Vec<T>, Vec<T>),
        |
            {
                &&& q@ == tr.q@ && k@ == tr.k@ && v@ == tr.v@ && g@ == tr.g@ && beta@ == tr.beta@
                &&& match (state, before) {
                    (Some(s), Some(kept)) => s@ == kept.1,
                    (None, None) => true,
                    _ => false,
                }
                &&& out.0@ == tr.delta_out@
                &&& out.1@ == tr.delta_state@
                &&& #[trigger] call_ensures(rule, (q, k, v, g, beta, state), out)
            },
        after.ssm@ == tr.delta_state@,
        exists|a: &[T], y: &[T], z: &[T], out: Vec<T>|
            {
                &&& a@ == w.norm@
                &&& y@ == tr.delta_out@.subrange(
                    r * cfg.head_v_dim,
                    r * cfg.head_v_dim + cfg.head_v_dim,
                )
                &&& z@ == tr.in_proj_z@.subrange(
                    r * cfg.head_v_dim,
                    r * cfg.head_v_dim + cfg.head_v_dim,
                )
                &&& out@ == tr.norm@.subrange(
                    r * cfg.head_v_dim,
                    r * cfg.head_v_dim + cfg.head_v_dim,
                )
                &&& #[trigger] call_ensures(norm, (a, y, z), out)
            },
{
    let rule_before = match before {
        Some(s) => Some(s.1),
        None => None,
    };
    let (q, k, v, g, beta, state, out) = choose|
        q: &[T],
        k: &[T],
        v: &[T],
        g: &[T],
        beta: &[T],
        state: Option<&[T]>,
        out: (Vec<T>, Vec<T>),
    |
        {
            &&& q@ == tr.q@ && k@ == tr.k@ && v@ == tr.v@ && g@ == tr.g@ && beta@ == tr.beta@
            &&& conv::state_view(state) == rule_before
            &&& out.0@ == tr.delta_out@ && out.1@ == tr.delta_state@
            &&& #[trigger] call_ensures(rule, (q, k, v, g, beta, state), out)
        };
    assert(call_ensures(rule, (q, k, v, g, beta, state), out));
    let dim = cfg.head_v_dim as int;
    let part = tensor::row(tr.norm@, r, dim);
    assert(super::norm_gives(
        norm,
        w.norm@,
        tensor::row(tr.delta_out@, r, dim),
        tensor::row(tr.in_proj_z@, r, dim),
        part,
    ));
}

/// **The convolution's state.** Behind a call it holds, for each channel, its last
/// `conv_kernel - 1` values: those of the chunk, and in front of them those carried before.
pub proof fn the_convolution_carries_its_last_values<
    T,
    D: Fn(&[T], &[T], usize) -> T,
    C: Fn(&[T], &[T], usize) -> T,
    S: Fn(T) -> T,
    G: Fn(T, T, T) -> T,
    R: Fn(&[T], &[T], &[T], &[T], &[T], Option<&[T]>) -> (Vec<T>, Vec<T>),
    N: Fn(&[T], &[T], &[T]) -> Vec<T>,
>(
    cfg: GdnConfig,
    w: GdnWeights<T>,
    x: Seq<T>,
    b: int,
    t: int,
    before: Option<(Seq<T>, Seq<T>)>,
    zero: T,
    dot: D,
    tap: C,
    gate: S,
    decay: G,
    rule: R,
    norm: N,
    tr: GdnTrace<T>,
    after: GdnState<T>,
    bi: int,
    ci: int,
    j: int,
)
    requires
        super::is_trace(
            cfg,
            w,
            x,
            b,
            t,
            before,
            zero,
            dot,
            tap,
            gate,
            decay,
            rule,
            norm,
            tr,
            after,
        ),
        0 <= bi < b,
        0 <= ci < cfg.head_k_dim * cfg.num_k_heads * 2 + cfg.head_v_dim * cfg.num_v_heads,
        0 <= t,
        0 <= j < cfg.conv_kernel - 1,
        before matches Some(s) ==> s.0.len() == b * (cfg.head_k_dim * cfg.num_k_heads * 2 + cfg.head_v_dim * cfg.num_v_heads) * (cfg.conv_kernel - 1),
    ensures
        after.conv@[(bi * (
        cfg.head_k_dim * cfg.num_k_heads * 2 + cfg.head_v_dim * cfg.num_v_heads) + ci) * (cfg.conv_kernel - 1) + j] == if t + j >= cfg.conv_kernel - 1 {
            tr.in_proj_qkv@[(bi * t + (t + j - (cfg.conv_kernel - 1))) * (
            cfg.head_k_dim * cfg.num_k_heads * 2 + cfg.head_v_dim * cfg.num_v_heads) + ci]
        } else {
            match before {
                Some(s) => s.0[(bi * (
                cfg.head_k_dim * cfg.num_k_heads * 2 + cfg.head_v_dim * cfg.num_v_heads) + ci) * (cfg.conv_kernel - 1) + t + j],
                None => zero,
            }
        },
{
    let channels = cfg.channels();
    let k = cfg.conv_kernel as int;
    let g = bi * channels + ci;
    let conv_before = match before {
        Some(s) => Some(s.0),
        None => None,
    };
    tensor::lemma_flat(bi, ci, channels);
    tensor::lemma_flat(g, j, k - 1);
    tensor::lemma_row_fits(bi, b, channels);
    tensor::lemma_row_fits(g, b * channels, t);
    tensor::lemma_row_fits(g, b * channels, k - 1);
    let signal = conv::signal(tr.conv_in@, conv_before, zero, t, k, g);
    assert(tr.conv_in.len() == b * channels * t);
    assert(conv::context(conv_before, zero, k - 1, g).len() == k - 1);
    assert(tensor::row(tr.conv_in@, g, t).len() == t);
    assert(after.conv@[g * (k - 1) + j] == signal[t + j]);
    if t + j >= k - 1 {
        let p = t + j - (k - 1);
        assert(signal[t + j] == tr.conv_in@[g * t + p]);
        tensor::transposition_places_values(tr.in_proj_qkv@, b, t, channels, bi, p, ci);
    }
}

/// A column of the convolved channels.
proof fn lemma_column<T>(
    x: Seq<T>,
    b: int,
    t: int,
    channels: int,
    from: int,
    len: int,
    bi: int,
    ti: int,
    j: int,
)
    requires
        0 <= bi < b,
        0 <= ti < t,
        0 <= from,
        from + len <= channels,
        0 <= j < len,
    ensures
        tensor::columns_of(tensor::transposed(x, b, channels, t), b * t, channels, from, len)[(bi
            * t + ti) * len + j] == x[(bi * channels + from + j) * t + ti],
{
    let r = bi * t + ti;
    tensor::lemma_row_fits(bi, b, t);
    tensor::lemma_flat(r, j, len);
    tensor::lemma_row_fits(r, b * t, len);
    tensor::transposition_places_values(x, b, channels, t, bi, from + j, ti);
}

/// A value of the expanded heads.
proof fn lemma_expanded<T>(
    x: Seq<T>,
    cfg: GdnConfig,
    rows: int,
    r: int,
    head: int,
    rep: int,
    d: int,
)
    requires
        0 <= r < rows,
        0 <= head < cfg.num_k_heads,
        0 <= rep < cfg.ratio(),
        0 <= d < cfg.head_k_dim,
    ensures
        super::expanded(x, cfg, rows)[((r * cfg.num_k_heads + head) * cfg.ratio() + rep)
            * cfg.head_k_dim + d] == x[r * cfg.keys() + (head * cfg.head_k_dim + d)],
{
    let h = r * cfg.num_k_heads + head;
    tensor::lemma_row_fits(r, rows, cfg.num_k_heads as int);
    assert(h * cfg.head_k_dim + d == r * cfg.keys() + (head * cfg.head_k_dim + d)) by (
        nonlinear_arith)
        requires
            h == r * cfg.num_k_heads + head,
            cfg.keys() == cfg.head_k_dim * cfg.num_k_heads,
    ;
    if cfg.ratio() == 1 {
        assert(h * 1 == h) by (nonlinear_arith);
    } else {
        tensor::heads_repeat_consecutively(
            x,
            rows * cfg.num_k_heads,
            cfg.head_k_dim as int,
            cfg.ratio(),
            h,
            rep,
            d,
        );
    }
}

/// **Sizes go by the heads**: so many key and value heads of so many values each, two lots of keys
/// and one of values through the convolution, which keeps one value less than its kernel for each
/// channel, and a matrix of a key by a value for each value head.
pub proof fn sizes_go_by_the_heads(cfg: GdnConfig, b: int)
    ensures
        cfg.keys() == cfg.num_k_heads * cfg.head_k_dim,
        cfg.values() == cfg.num_v_heads * cfg.head_v_dim,
        cfg.channels() == cfg.keys() + cfg.keys() + cfg.values(),
        cfg.conv_kernel > 0 ==> super::conv_state_len(cfg, b) == b * cfg.channels() * (
        cfg.conv_kernel - 1),
        super::rule_state_len(cfg, b) == b * cfg.num_v_heads * cfg.head_k_dim * cfg.head_v_dim,
{
    assert(cfg.num_k_heads * cfg.head_k_dim == cfg.head_k_dim * cfg.num_k_heads)
        by (nonlinear_arith);
    assert(cfg.num_v_heads * cfg.head_v_dim == cfg.head_v_dim * cfg.num_v_heads)
        by (nonlinear_arith);
}

} // verus!
