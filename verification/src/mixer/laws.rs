//! Running a sequence in chunks is running it at once.
use super::{GdnConfig, GdnState, GdnTrace, GdnWeights};
use crate::chunks;
use crate::conv;
use crate::tensor;
use vstd::prelude::*;

verus! {

// ---------------------------------------------------------------------------
// what is asked of the arithmetic that is handed in
// ---------------------------------------------------------------------------
/// Whether a cell always makes the same value of the same rows.
pub open spec fn cell_is_function<T, F: Fn(&[T], &[T], usize) -> T>(cell: F) -> bool {
    forall|w: Seq<T>, x: Seq<T>, o: usize, y: T, z: T|
        #![trigger tensor::cell_gives(cell, w, x, o, y), tensor::cell_gives(cell, w, x, o, z)]
        tensor::cell_gives(cell, w, x, o, y) && tensor::cell_gives(cell, w, x, o, z) ==> y == z
}

/// Whether a gate always makes the same value of the same one.
pub open spec fn gate_is_function<T, S: Fn(T) -> T>(gate: S) -> bool {
    forall|v: T, y: T, z: T|
        #![trigger call_ensures(gate, (v,), y), call_ensures(gate, (v,), z)]
        call_ensures(gate, (v,), y) && call_ensures(gate, (v,), z) ==> y == z
}

/// Whether a decay always makes the same value of the same three.
pub open spec fn decay_is_function<T, G: Fn(T, T, T) -> T>(decay: G) -> bool {
    forall|a: T, l: T, d: T, y: T, z: T|
        #![trigger call_ensures(decay, (a, l, d), y), call_ensures(decay, (a, l, d), z)]
        call_ensures(decay, (a, l, d), y) && call_ensures(decay, (a, l, d), z) ==> y == z
}

/// Whether a norm always makes the same row of the same rows.
pub open spec fn norm_is_function<T, N: Fn(&[T], &[T], &[T]) -> Vec<T>>(norm: N) -> bool {
    forall|w: Seq<T>, x: Seq<T>, z: Seq<T>, y1: Seq<T>, y2: Seq<T>|
        #![trigger super::norm_gives(norm, w, x, z, y1), super::norm_gives(norm, w, x, z, y2)]
        super::norm_gives(norm, w, x, z, y1) && super::norm_gives(norm, w, x, z, y2) ==> y1 == y2
}

/// The operands of the rule.
pub ghost struct Operands<T> {
    pub q: Seq<T>,
    pub k: Seq<T>,
    pub v: Seq<T>,
    pub g: Seq<T>,
    pub beta: Seq<T>,
}

/// The operands in a trace.
pub open spec fn operands<T>(tr: GdnTrace<T>) -> Operands<T> {
    Operands { q: tr.q@, k: tr.k@, v: tr.v@, g: tr.g@, beta: tr.beta@ }
}

/// How many values a row of an expanded `q` or `k` has.
pub open spec fn expanded_width(cfg: GdnConfig) -> int {
    if cfg.ratio() == 1 {
        cfg.keys()
    } else {
        cfg.num_k_heads * cfg.ratio() * cfg.head_k_dim
    }
}

/// Whether operands are made of those of two chunks.
pub open spec fn operands_join<T>(
    cfg: GdnConfig,
    whole: Operands<T>,
    first: Operands<T>,
    second: Operands<T>,
    b: int,
    t1: int,
    t2: int,
) -> bool {
    let heads = cfg.num_v_heads as int;
    &&& chunks::joins(whole.q, first.q, second.q, b, t1, t2, expanded_width(cfg))
    &&& chunks::joins(whole.k, first.k, second.k, b, t1, t2, expanded_width(cfg))
    &&& chunks::joins(whole.v, first.v, second.v, b, t1, t2, cfg.values())
    &&& chunks::joins(whole.g, first.g, second.g, b, t1, t2, heads)
    &&& chunks::joins(whole.beta, first.beta, second.beta, b, t1, t2, heads)
}

/// Whether the rule makes `out` and `after` of its operands and the state before.
pub open spec fn rule_makes<
    T,
    R: Fn(&[T], &[T], &[T], &[T], &[T], Option<&[T]>) -> (Vec<T>, Vec<T>),
>(
    rule: R,
    of: Operands<T>,
    before: Option<Seq<T>>,
    out: Seq<T>,
    after: Seq<T>,
) -> bool {
    super::rule_gives(rule, of.q, of.k, of.v, of.g, of.beta, before, out, after)
}

/// Whether the rule is a recurrence: continued from the state that a first chunk leaves, it
/// makes of a second chunk what it makes of it within the whole.
pub open spec fn rule_continues<
    T,
    R: Fn(&[T], &[T], &[T], &[T], &[T], Option<&[T]>) -> (Vec<T>, Vec<T>),
>(rule: R, cfg: GdnConfig, b: int, t1: int, t2: int) -> bool {
    forall|
        whole: Operands<T>,
        first: Operands<T>,
        second: Operands<T>,
        before: Option<Seq<T>>,
        out: Seq<T>,
        after: Seq<T>,
        out1: Seq<T>,
        mid: Seq<T>,
        out2: Seq<T>,
        after2: Seq<T>,
    |
        #![trigger rule_makes(rule, whole, before, out, after), rule_makes(rule, first, before, out1, mid), rule_makes(rule, second, Some(mid), out2, after2)]
        {
            &&& operands_join(cfg, whole, first, second, b, t1, t2)
            &&& rule_makes(rule, whole, before, out, after)
            &&& rule_makes(rule, first, before, out1, mid)
            &&& rule_makes(rule, second, Some(mid), out2, after2)
        } ==> {
            &&& chunks::joins(out, out1, out2, b, t1, t2, cfg.values())
            &&& after == after2
        }
}

// ---------------------------------------------------------------------------
// row by row
// ---------------------------------------------------------------------------
/// Products are made row by row.
pub proof fn lemma_product_joins<T, F: Fn(&[T], &[T], usize) -> T>(
    cell: F,
    w: Seq<T>,
    x: Seq<T>,
    x1: Seq<T>,
    x2: Seq<T>,
    b: int,
    t1: int,
    t2: int,
    in_dim: int,
    out_dim: int,
    y: Seq<T>,
    y1: Seq<T>,
    y2: Seq<T>,
)
    requires
        0 <= t1,
        0 <= t2,
        0 <= in_dim,
        0 <= out_dim,
        cell_is_function(cell),
        chunks::joins(x, x1, x2, b, t1, t2, in_dim),
        super::is_product(cell, w, x, b * (t1 + t2), in_dim, out_dim, y),
        super::is_product(cell, w, x1, b * t1, in_dim, out_dim, y1),
        super::is_product(cell, w, x2, b * t2, in_dim, out_dim, y2),
    ensures
        chunks::joins(y, y1, y2, b, t1, t2, out_dim),
{
    assert forall|r: int, j: int|
        0 <= r < b * (t1 + t2) && 0 <= j < out_dim implies #[trigger] y[r * out_dim + j]
        == if chunks::in_first(r, t1, t2) {
        y1[chunks::place(r, t1, t2) * out_dim + j]
    } else {
        y2[chunks::place(r, t1, t2) * out_dim + j]
    } by {
        chunks::lemma_place(r, b, t1, t2);
        let p = chunks::place(r, t1, t2);
        tensor::lemma_flat(r, j, out_dim);
        chunks::lemma_value(y, r, b * (t1 + t2), out_dim, j);
        tensor::lemma_flat(p, j, out_dim);
        assert(tensor::row(x, r, in_dim) == chunks::chunk_row(x1, x2, t1, t2, in_dim, r));
        let a = tensor::row(w, j, in_dim);
        let v = tensor::row(x, r, in_dim);
        assert(tensor::product_at(cell, w, x, in_dim, out_dim, r * out_dim + j, y[r * out_dim + j]));
        assert(tensor::cell_gives(cell, a, v, j as usize, y[r * out_dim + j]));
        if chunks::in_first(r, t1, t2) {
            chunks::lemma_value(y1, p, b * t1, out_dim, j);
            let z = y1[p * out_dim + j];
            assert(tensor::product_at(cell, w, x1, in_dim, out_dim, p * out_dim + j, z));
            assert(tensor::cell_gives(cell, a, v, j as usize, z));
        } else {
            chunks::lemma_value(y2, p, b * t2, out_dim, j);
            let z = y2[p * out_dim + j];
            assert(tensor::product_at(cell, w, x2, in_dim, out_dim, p * out_dim + j, z));
            assert(tensor::cell_gives(cell, a, v, j as usize, z));
        }
    }
    chunks::lemma_joins_by_values(y, y1, y2, b, t1, t2, out_dim);
}

/// Columns are taken row by row.
proof fn lemma_columns_join<T>(
    x: Seq<T>,
    x1: Seq<T>,
    x2: Seq<T>,
    b: int,
    t1: int,
    t2: int,
    width: int,
    from: int,
    len: int,
)
    requires
        0 <= b,
        0 <= t1,
        0 <= t2,
        0 <= from,
        0 <= len,
        from + len <= width,
        chunks::joins(x, x1, x2, b, t1, t2, width),
    ensures
        chunks::joins(
            tensor::columns_of(x, b * (t1 + t2), width, from, len),
            tensor::columns_of(x1, b * t1, width, from, len),
            tensor::columns_of(x2, b * t2, width, from, len),
            b,
            t1,
            t2,
            len,
        ),
{
    let y = tensor::columns_of(x, b * (t1 + t2), width, from, len);
    let y1 = tensor::columns_of(x1, b * t1, width, from, len);
    let y2 = tensor::columns_of(x2, b * t2, width, from, len);
    assert(b * (t1 + t2) * len >= 0 && b * t1 * len >= 0 && b * t2 * len >= 0) by (nonlinear_arith)
        requires
            0 <= b,
            0 <= t1,
            0 <= t2,
            0 <= len,
    ;
    assert forall|r: int, j: int|
        0 <= r < b * (t1 + t2) && 0 <= j < len implies #[trigger] y[r * len + j]
        == if chunks::in_first(r, t1, t2) {
        y1[chunks::place(r, t1, t2) * len + j]
    } else {
        y2[chunks::place(r, t1, t2) * len + j]
    } by {
        chunks::lemma_place(r, b, t1, t2);
        let p = chunks::place(r, t1, t2);
        tensor::lemma_flat(r, j, len);
        tensor::lemma_flat(p, j, len);
        chunks::lemma_value(y, r, b * (t1 + t2), len, j);
        if chunks::in_first(r, t1, t2) {
            chunks::lemma_value(y1, p, b * t1, len, j);
        } else {
            chunks::lemma_value(y2, p, b * t2, len, j);
        }
        chunks::lemma_joined_value(x, x1, x2, b, t1, t2, width, r, from + j);
    }
    chunks::lemma_joins_by_values(y, y1, y2, b, t1, t2, len);
}

/// Where value `j` of row `r` of an expanded tensor comes from.
proof fn lemma_expanded_value<T>(x: Seq<T>, rows: int, hk: int, d: int, ratio: int, r: int, j: int)
    requires
        0 <= r < rows,
        0 < d,
        0 < ratio,
        0 <= hk,
        0 <= j < hk * ratio * d,
    ensures
        0 <= ((j / d) / ratio) * d + j % d < d * hk,
        0 <= r * (hk * ratio * d) + j < rows * hk * ratio * d,
        tensor::interleaved(x, rows * hk, d, ratio)[r * (hk * ratio * d) + j] == x[r * (d * hk) + (((
        j / d) / ratio) * d + j % d)],
{
    let wide = hk * ratio * d;
    tensor::lemma_unflat(j, hk * ratio, d);
    tensor::lemma_unflat(j / d, hk, ratio);
    let h = (j / d) / ratio;
    let rep = (j / d) % ratio;
    let k = j % d;
    assert(r * wide + j == ((r * hk + h) * ratio + rep) * d + k) by (nonlinear_arith)
        requires
            wide == hk * ratio * d,
            j == (h * ratio + rep) * d + k,
    ;
    tensor::lemma_row_fits(r, rows, hk);
    tensor::lemma_row_fits(h, hk, d);
    tensor::lemma_row_fits(r, rows, wide);
    assert(rows * wide == rows * hk * ratio * d) by (nonlinear_arith)
        requires
            wide == hk * ratio * d,
    ;
    tensor::heads_repeat_consecutively(x, rows * hk, d, ratio, r * hk + h, rep, k);
    assert((r * hk + h) * d + k == r * (d * hk) + (h * d + k)) by (nonlinear_arith);
    assert(hk * d == d * hk) by (nonlinear_arith);
}

/// Heads are expanded row by row.
proof fn lemma_expanded_joins<T>(
    cfg: GdnConfig,
    x: Seq<T>,
    x1: Seq<T>,
    x2: Seq<T>,
    b: int,
    t1: int,
    t2: int,
)
    requires
        0 <= b,
        0 <= t1,
        0 <= t2,
        cfg.num_k_heads > 0,
        chunks::joins(x, x1, x2, b, t1, t2, cfg.keys()),
    ensures
        chunks::joins(
            super::expanded(x, cfg, b * (t1 + t2)),
            super::expanded(x1, cfg, b * t1),
            super::expanded(x2, cfg, b * t2),
            b,
            t1,
            t2,
            expanded_width(cfg),
        ),
{
    let ratio = cfg.ratio();
    if ratio != 1 {
        let hk = cfg.num_k_heads as int;
        let d = cfg.head_k_dim as int;
        let wide = hk * ratio * d;
        vstd::arithmetic::div_mod::lemma_div_pos_is_pos(cfg.num_v_heads as int, hk);
        assert(wide >= 0) by (nonlinear_arith)
            requires
                wide == hk * ratio * d,
                hk >= 0,
                ratio >= 0,
                d >= 0,
        ;
        let y = super::expanded(x, cfg, b * (t1 + t2));
        let y1 = super::expanded(x1, cfg, b * t1);
        let y2 = super::expanded(x2, cfg, b * t2);
        lemma_expanded_len(b * (t1 + t2), hk, ratio, d);
        lemma_expanded_len(b * t1, hk, ratio, d);
        lemma_expanded_len(b * t2, hk, ratio, d);
        assert(b * (t1 + t2) >= 0 && b * t1 >= 0 && b * t2 >= 0) by (nonlinear_arith)
            requires
                0 <= b,
                0 <= t1,
                0 <= t2,
        ;
        assert forall|r: int, j: int|
            0 <= r < b * (t1 + t2) && 0 <= j < wide implies #[trigger] y[r * wide + j]
            == if chunks::in_first(r, t1, t2) {
            y1[chunks::place(r, t1, t2) * wide + j]
        } else {
            y2[chunks::place(r, t1, t2) * wide + j]
        } by {
            chunks::lemma_place(r, b, t1, t2);
            let p = chunks::place(r, t1, t2);
            assert(d > 0 && ratio > 0) by (nonlinear_arith)
                requires
                    0 <= j < wide,
                    wide == hk * ratio * d,
                    hk >= 0,
                    ratio >= 0,
                    d >= 0,
            ;
            let k = ((j / d) / ratio) * d + j % d;
            lemma_expanded_value(x, b * (t1 + t2), hk, d, ratio, r, j);
            if chunks::in_first(r, t1, t2) {
                lemma_expanded_value(x1, b * t1, hk, d, ratio, p, j);
            } else {
                lemma_expanded_value(x2, b * t2, hk, d, ratio, p, j);
            }
            chunks::lemma_joined_value(x, x1, x2, b, t1, t2, d * hk, r, k);
        }
        chunks::lemma_joins_by_values(y, y1, y2, b, t1, t2, wide);
    }
}

proof fn lemma_expanded_len(rows: int, hk: int, ratio: int, d: int)
    requires
        0 <= hk,
        0 <= ratio,
        0 <= d,
    ensures
        rows * hk * ratio * d == rows * (hk * ratio * d),
        0 <= rows ==> 0 <= rows * (hk * ratio * d),
{
    assert(rows * hk * ratio * d == rows * (hk * ratio * d)) by (nonlinear_arith);
    assert(0 <= rows ==> 0 <= rows * (hk * ratio * d)) by (nonlinear_arith)
        requires
            0 <= hk,
            0 <= ratio,
            0 <= d,
    ;
}

/// Gates are made value by value.
proof fn lemma_gates_join<T, S: Fn(T) -> T>(
    gate: S,
    x: Seq<T>,
    x1: Seq<T>,
    x2: Seq<T>,
    b: int,
    t1: int,
    t2: int,
    heads: int,
    y: Seq<T>,
    y1: Seq<T>,
    y2: Seq<T>,
)
    requires
        0 <= t1,
        0 <= t2,
        0 <= heads,
        gate_is_function(gate),
        chunks::joins(x, x1, x2, b, t1, t2, heads),
        y.len() == b * (t1 + t2) * heads,
        y1.len() == b * t1 * heads,
        y2.len() == b * t2 * heads,
        forall|i: int| 0 <= i < y.len() ==> call_ensures(gate, (x[i],), #[trigger] y[i]),
        forall|i: int| 0 <= i < y1.len() ==> call_ensures(gate, (x1[i],), #[trigger] y1[i]),
        forall|i: int| 0 <= i < y2.len() ==> call_ensures(gate, (x2[i],), #[trigger] y2[i]),
    ensures
        chunks::joins(y, y1, y2, b, t1, t2, heads),
{
    assert forall|r: int, j: int|
        0 <= r < b * (t1 + t2) && 0 <= j < heads implies #[trigger] y[r * heads + j]
        == if chunks::in_first(r, t1, t2) {
        y1[chunks::place(r, t1, t2) * heads + j]
    } else {
        y2[chunks::place(r, t1, t2) * heads + j]
    } by {
        chunks::lemma_place(r, b, t1, t2);
        let p = chunks::place(r, t1, t2);
        chunks::lemma_value(y, r, b * (t1 + t2), heads, j);
        chunks::lemma_joined_value(x, x1, x2, b, t1, t2, heads, r, j);
        assert(call_ensures(gate, (x[r * heads + j],), y[r * heads + j]));
        if chunks::in_first(r, t1, t2) {
            chunks::lemma_value(y1, p, b * t1, heads, j);
            assert(call_ensures(gate, (x1[p * heads + j],), y1[p * heads + j]));
        } else {
            chunks::lemma_value(y2, p, b * t2, heads, j);
            assert(call_ensures(gate, (x2[p * heads + j],), y2[p * heads + j]));
        }
    }
    chunks::lemma_joins_by_values(y, y1, y2, b, t1, t2, heads);
}

/// Whether `y` holds the decays of `x`, one value per row and head.
spec fn are_decays<T, G: Fn(T, T, T) -> T>(
    decay: G,
    x: Seq<T>,
    a_log: Seq<T>,
    dt_bias: Seq<T>,
    heads: int,
    n: int,
    y: Seq<T>,
) -> bool {
    &&& y.len() == n
    &&& forall|i: int|
        0 <= i < n ==> call_ensures(
            decay,
            (x[i], a_log[i % heads], dt_bias[i % heads]),
            #[trigger] y[i],
        )
}

/// Decays are made value by value, with the weights of their head.
proof fn lemma_decays_join<T, G: Fn(T, T, T) -> T>(
    decay: G,
    x: Seq<T>,
    x1: Seq<T>,
    x2: Seq<T>,
    a_log: Seq<T>,
    dt_bias: Seq<T>,
    b: int,
    t1: int,
    t2: int,
    heads: int,
    y: Seq<T>,
    y1: Seq<T>,
    y2: Seq<T>,
)
    requires
        0 <= t1,
        0 <= t2,
        0 <= heads,
        decay_is_function(decay),
        chunks::joins(x, x1, x2, b, t1, t2, heads),
        are_decays(decay, x, a_log, dt_bias, heads, b * (t1 + t2) * heads, y),
        are_decays(decay, x1, a_log, dt_bias, heads, b * t1 * heads, y1),
        are_decays(decay, x2, a_log, dt_bias, heads, b * t2 * heads, y2),
    ensures
        chunks::joins(y, y1, y2, b, t1, t2, heads),
{
    assert forall|r: int, j: int|
        0 <= r < b * (t1 + t2) && 0 <= j < heads implies #[trigger] y[r * heads + j]
        == if chunks::in_first(r, t1, t2) {
        y1[chunks::place(r, t1, t2) * heads + j]
    } else {
        y2[chunks::place(r, t1, t2) * heads + j]
    } by {
        chunks::lemma_place(r, b, t1, t2);
        let p = chunks::place(r, t1, t2);
        tensor::lemma_flat(r, j, heads);
        tensor::lemma_flat(p, j, heads);
        chunks::lemma_value(y, r, b * (t1 + t2), heads, j);
        chunks::lemma_joined_value(x, x1, x2, b, t1, t2, heads, r, j);
        assert(call_ensures(
            decay,
            (x[r * heads + j], a_log[j], dt_bias[j]),
            y[r * heads + j],
        ));
        if chunks::in_first(r, t1, t2) {
            chunks::lemma_value(y1, p, b * t1, heads, j);
            assert(call_ensures(
                decay,
                (x1[p * heads + j], a_log[j], dt_bias[j]),
                y1[p * heads + j],
            ));
        } else {
            chunks::lemma_value(y2, p, b * t2, heads, j);
            assert(call_ensures(
                decay,
                (x2[p * heads + j], a_log[j], dt_bias[j]),
                y2[p * heads + j],
            ));
        }
    }
    chunks::lemma_joins_by_values(y, y1, y2, b, t1, t2, heads);
}

/// Head `h` of row `r` of a tensor with `heads` heads of `d` values each is its row
/// `r * heads + h`.
proof fn lemma_head_row<T>(x: Seq<T>, rows: int, heads: int, d: int, r: int, h: int)
    requires
        0 <= r < rows,
        0 <= h < heads,
        0 <= d,
        x.len() == rows * (d * heads),
    ensures
        0 <= r * heads + h < rows * heads,
        tensor::row(x, r * heads + h, d) == tensor::row(x, r, d * heads).subrange(
            h * d,
            h * d + d,
        ),
{
    tensor::lemma_row_fits(r, rows, heads);
    tensor::lemma_row_fits(r, rows, d * heads);
    tensor::lemma_row_fits(h, heads, d);
    assert(heads * d == d * heads) by (nonlinear_arith);
    assert((r * heads + h) * d == r * (d * heads) + h * d) by (nonlinear_arith);
    assert(tensor::row(x, r * heads + h, d) =~= tensor::row(x, r, d * heads).subrange(
        h * d,
        h * d + d,
    ));
}

/// Heads are normed one by one.
proof fn lemma_normed_joins<T, N: Fn(&[T], &[T], &[T]) -> Vec<T>>(
    norm: N,
    w: Seq<T>,
    x: Seq<T>,
    x1: Seq<T>,
    x2: Seq<T>,
    z: Seq<T>,
    z1: Seq<T>,
    z2: Seq<T>,
    b: int,
    t1: int,
    t2: int,
    heads: int,
    d: int,
    y: Seq<T>,
    y1: Seq<T>,
    y2: Seq<T>,
)
    requires
        0 <= t1,
        0 <= t2,
        0 <= heads,
        0 <= d,
        norm_is_function(norm),
        chunks::joins(x, x1, x2, b, t1, t2, d * heads),
        chunks::joins(z, z1, z2, b, t1, t2, d * heads),
        super::is_normed(norm, w, x, z, b * (t1 + t2) * heads, d, y),
        super::is_normed(norm, w, x1, z1, b * t1 * heads, d, y1),
        super::is_normed(norm, w, x2, z2, b * t2 * heads, d, y2),
    ensures
        chunks::joins(y, y1, y2, b, t1, t2, d * heads),
{
    let wide = d * heads;
    assert(b * (t1 + t2) * heads * d == b * (t1 + t2) * wide && b * t1 * heads * d == b * t1 * wide
        && b * t2 * heads * d == b * t2 * wide) by (nonlinear_arith)
        requires
            wide == d * heads,
    ;
    assert(wide >= 0) by (nonlinear_arith)
        requires
            wide == d * heads,
            0 <= d,
            0 <= heads,
    ;
    assert forall|r: int, j: int|
        0 <= r < b * (t1 + t2) && 0 <= j < wide implies #[trigger] y[r * wide + j]
        == if chunks::in_first(r, t1, t2) {
        y1[chunks::place(r, t1, t2) * wide + j]
    } else {
        y2[chunks::place(r, t1, t2) * wide + j]
    } by {
        chunks::lemma_place(r, b, t1, t2);
        let p = chunks::place(r, t1, t2);
        assert(d > 0) by (nonlinear_arith)
            requires
                0 <= j < d * heads,
                0 <= d,
                0 <= heads,
        ;
        assert(heads * d == wide) by (nonlinear_arith)
            requires
                wide == d * heads,
        ;
        tensor::lemma_unflat(j, heads, d);
        let h = j / d;
        let k = j % d;
        tensor::lemma_row_fits(h, heads, d);
        let rows = b * (t1 + t2);
        lemma_head_row(x, rows, heads, d, r, h);
        lemma_head_row(z, rows, heads, d, r, h);
        lemma_head_row(y, rows, heads, d, r, h);
        chunks::lemma_value(y, r, rows, wide, j);
        assert(tensor::row(x, r, wide) == chunks::chunk_row(x1, x2, t1, t2, wide, r));
        assert(tensor::row(z, r, wide) == chunks::chunk_row(z1, z2, t1, t2, wide, r));
        let xr = tensor::row(x, r * heads + h, d);
        let zr = tensor::row(z, r * heads + h, d);
        let yr = tensor::row(y, r * heads + h, d);
        assert(super::norm_gives(norm, w, xr, zr, yr));
        assert(yr[k] == y[r * wide + j]);
        if chunks::in_first(r, t1, t2) {
            lemma_head_row(x1, b * t1, heads, d, p, h);
            lemma_head_row(z1, b * t1, heads, d, p, h);
            lemma_head_row(y1, b * t1, heads, d, p, h);
            chunks::lemma_value(y1, p, b * t1, wide, j);
            let yp = tensor::row(y1, p * heads + h, d);
            assert(super::norm_gives(norm, w, xr, zr, yp));
            assert(yp[k] == y1[p * wide + j]);
        } else {
            lemma_head_row(x2, b * t2, heads, d, p, h);
            lemma_head_row(z2, b * t2, heads, d, p, h);
            lemma_head_row(y2, b * t2, heads, d, p, h);
            chunks::lemma_value(y2, p, b * t2, wide, j);
            let yp = tensor::row(y2, p * heads + h, d);
            assert(super::norm_gives(norm, w, xr, zr, yp));
            assert(yp[k] == y2[p * wide + j]);
        }
    }
    chunks::lemma_joins_by_values(y, y1, y2, b, t1, t2, wide);
}

// ---------------------------------------------------------------------------
// channel by channel
// ---------------------------------------------------------------------------
/// Chunks that join row by row join channel by channel, once transposed.
proof fn lemma_channels_first<T>(
    x: Seq<T>,
    x1: Seq<T>,
    x2: Seq<T>,
    b: int,
    t1: int,
    t2: int,
    c: int,
)
    requires
        0 <= b,
        0 <= t1,
        0 <= t2,
        0 <= c,
        chunks::joins(x, x1, x2, b, t1, t2, c),
    ensures
        conv::laws::channels_join(
            tensor::transposed(x, b, t1 + t2, c),
            tensor::transposed(x1, b, t1, c),
            tensor::transposed(x2, b, t2, c),
            b * c,
            t1,
            t2,
        ),
{
    let t = t1 + t2;
    let y = tensor::transposed(x, b, t, c);
    let y1 = tensor::transposed(x1, b, t1, c);
    let y2 = tensor::transposed(x2, b, t2, c);
    assert(b * c * t >= 0 && b * c * t1 >= 0 && b * c * t2 >= 0) by (nonlinear_arith)
        requires
            0 <= b,
            0 <= c,
            0 <= t,
            0 <= t1,
            0 <= t2,
    ;
    assert forall|g: int| 0 <= g < b * c implies #[trigger] tensor::row(y, g, t) == tensor::row(
        y1,
        g,
        t1,
    ) + tensor::row(y2, g, t2) by {
        assert(c > 0) by (nonlinear_arith)
            requires
                0 <= g < b * c,
                0 <= c,
                0 <= b,
        ;
        tensor::lemma_unflat(g, b, c);
        let bi = g / c;
        let ci = g % c;
        tensor::lemma_row_fits(g, b * c, t);
        tensor::lemma_row_fits(g, b * c, t1);
        tensor::lemma_row_fits(g, b * c, t2);
        let have = tensor::row(y, g, t);
        let want = tensor::row(y1, g, t1) + tensor::row(y2, g, t2);
        assert forall|ti: int| 0 <= ti < t implies have[ti] == want[ti] by {
            tensor::transposition_places_values(x, b, t, c, bi, ti, ci);
            chunks::lemma_row_of(bi, ti, b, t1, t2);
            chunks::lemma_joined_value(x, x1, x2, b, t1, t2, c, bi * t + ti, ci);
            if ti < t1 {
                tensor::transposition_places_values(x1, b, t1, c, bi, ti, ci);
            } else {
                tensor::transposition_places_values(x2, b, t2, c, bi, ti - t1, ci);
            }
        }
        assert(have =~= want);
    }
}

/// Chunks that join channel by channel join row by row, once transposed.
proof fn lemma_rows_first<T>(
    x: Seq<T>,
    x1: Seq<T>,
    x2: Seq<T>,
    b: int,
    t1: int,
    t2: int,
    c: int,
)
    requires
        0 <= b,
        0 <= t1,
        0 <= t2,
        0 <= c,
        conv::laws::channels_join(x, x1, x2, b * c, t1, t2),
    ensures
        chunks::joins(
            tensor::transposed(x, b, c, t1 + t2),
            tensor::transposed(x1, b, c, t1),
            tensor::transposed(x2, b, c, t2),
            b,
            t1,
            t2,
            c,
        ),
{
    let t = t1 + t2;
    let y = tensor::transposed(x, b, c, t);
    let y1 = tensor::transposed(x1, b, c, t1);
    let y2 = tensor::transposed(x2, b, c, t2);
    assert(b * t * c >= 0 && b * t1 * c >= 0 && b * t2 * c >= 0) by (nonlinear_arith)
        requires
            0 <= b,
            0 <= c,
            0 <= t,
            0 <= t1,
            0 <= t2,
    ;
    assert forall|r: int, ci: int|
        0 <= r < b * t && 0 <= ci < c implies #[trigger] y[r * c + ci] == if chunks::in_first(
        r,
        t1,
        t2,
    ) {
        y1[chunks::place(r, t1, t2) * c + ci]
    } else {
        y2[chunks::place(r, t1, t2) * c + ci]
    } by {
        chunks::lemma_place(r, b, t1, t2);
        let bi = r / t;
        let ti = r % t;
        let g = bi * c + ci;
        tensor::lemma_row_fits(bi, b, c);
        tensor::transposition_places_values(x, b, c, t, bi, ci, ti);
        chunks::lemma_value(x, g, b * c, t, ti);
        assert(tensor::row(x, g, t) == tensor::row(x1, g, t1) + tensor::row(x2, g, t2));
        tensor::lemma_row_fits(g, b * c, t1);
        tensor::lemma_row_fits(g, b * c, t2);
        if ti < t1 {
            tensor::transposition_places_values(x1, b, c, t1, bi, ci, ti);
            chunks::lemma_value(x1, g, b * c, t1, ti);
        } else {
            tensor::transposition_places_values(x2, b, c, t2, bi, ci, ti - t1);
            chunks::lemma_value(x2, g, b * c, t2, ti - t1);
        }
    }
    chunks::lemma_joins_by_values(y, y1, y2, b, t1, t2, c);
}

// ---------------------------------------------------------------------------
// the block
// ---------------------------------------------------------------------------
/// **Continuing is the whole.** Run on two chunks, the second from the state that the first
/// leaves, the block gives what it gives on the whole sequence at once -- the same values,
/// not close ones -- and leaves the same state. This is what a cache rests on.
///
/// It holds of arithmetic that always makes the same of the same, and of a rule that is a
/// recurrence.
pub proof fn mixer_continues<
    T,
    D: Fn(&[T], &[T], usize) -> T,
    C: Fn(&[T], &[T], usize) -> T,
    S: Fn(T) -> T,
    G: Fn(T, T, T) -> T,
    R: Fn(&[T], &[T], &[T], &[T], &[T], Option<&[T]>) -> (Vec<T>, Vec<T>),
    N: Fn(&[T], &[T], &[T]) -> Vec<T>,
>(
    cfg: GdnConfig,
    w: GdnWeights<T>,
    x: Seq<T>,
    x1: Seq<T>,
    x2: Seq<T>,
    b: int,
    t1: int,
    t2: int,
    before: Option<(Seq<T>, Seq<T>)>,
    zero: T,
    dot: D,
    tap: C,
    gate: S,
    decay: G,
    rule: R,
    norm: N,
    whole: GdnTrace<T>,
    after: GdnState<T>,
    first: GdnTrace<T>,
    mid: GdnState<T>,
    second: GdnTrace<T>,
    after2: GdnState<T>,
)
    requires
        0 <= b,
        0 <= t1,
        0 <= t2,
        cfg.num_k_heads > 0,
        before matches Some(s) ==> s.0.len() == super::conv_state_len(cfg, b),
        cell_is_function(dot),
        cell_is_function(tap),
        gate_is_function(gate),
        decay_is_function(decay),
        norm_is_function(norm),
        rule_continues(rule, cfg, b, t1, t2),
        chunks::joins(x, x1, x2, b, t1, t2, cfg.hidden as int),
        super::is_trace(
            cfg,
            w,
            x,
            b,
            t1 + t2,
            before,
            zero,
            dot,
            tap,
            gate,
            decay,
            rule,
            norm,
            whole,
            after,
        ),
        super::is_trace(
            cfg,
            w,
            x1,
            b,
            t1,
            before,
            zero,
            dot,
            tap,
            gate,
            decay,
            rule,
            norm,
            first,
            mid,
        ),
        super::is_trace(
            cfg,
            w,
            x2,
            b,
            t2,
            Some((mid.conv@, mid.ssm@)),
            zero,
            dot,
            tap,
            gate,
            decay,
            rule,
            norm,
            second,
            after2,
        ),
    ensures
        chunks::joins(
            whole.out_proj@,
            first.out_proj@,
            second.out_proj@,
            b,
            t1,
            t2,
            cfg.hidden as int,
        ),
        after.conv@ == after2.conv@,
        after.ssm@ == after2.ssm@,
{
    let t = t1 + t2;
    let h = cfg.hidden as int;
    let heads = cfg.num_v_heads as int;
    let channels = cfg.channels();
    let kd = cfg.keys();
    let vd = cfg.values();
    assert(kd >= 0 && vd >= 0) by (nonlinear_arith)
        requires
            kd == cfg.head_k_dim * cfg.num_k_heads,
            vd == cfg.head_v_dim * cfg.num_v_heads,
    ;
    // projections
    lemma_product_joins(
        dot,
        w.in_proj_qkv@,
        x,
        x1,
        x2,
        b,
        t1,
        t2,
        h,
        channels,
        whole.in_proj_qkv@,
        first.in_proj_qkv@,
        second.in_proj_qkv@,
    );
    lemma_product_joins(
        dot,
        w.in_proj_z@,
        x,
        x1,
        x2,
        b,
        t1,
        t2,
        h,
        vd,
        whole.in_proj_z@,
        first.in_proj_z@,
        second.in_proj_z@,
    );
    lemma_product_joins(
        dot,
        w.in_proj_b@,
        x,
        x1,
        x2,
        b,
        t1,
        t2,
        h,
        heads,
        whole.in_proj_b@,
        first.in_proj_b@,
        second.in_proj_b@,
    );
    lemma_product_joins(
        dot,
        w.in_proj_a@,
        x,
        x1,
        x2,
        b,
        t1,
        t2,
        h,
        heads,
        whole.in_proj_a@,
        first.in_proj_a@,
        second.in_proj_a@,
    );
    // convolution
    lemma_channels_first(
        whole.in_proj_qkv@,
        first.in_proj_qkv@,
        second.in_proj_qkv@,
        b,
        t1,
        t2,
        channels,
    );
    assert(b * channels >= 0) by (nonlinear_arith)
        requires
            b >= 0,
            channels >= 0,
    ;
    let conv_before = match before {
        Some(s) => Some(s.0),
        None => None,
    };
    conv::laws::convolution_in_chunks(
        tap,
        w.conv1d@,
        whole.conv_in@,
        first.conv_in@,
        second.conv_in@,
        conv_before,
        mid.conv@,
        zero,
        channels,
        b * channels,
        t1,
        t2,
        cfg.conv_kernel as int,
        whole.conv_out@,
        first.conv_out@,
        second.conv_out@,
    );
    lemma_rows_first(whole.conv_out@, first.conv_out@, second.conv_out@, b, t1, t2, channels);
    // operands
    let mixed = tensor::transposed(whole.conv_out@, b, channels, t);
    let mixed1 = tensor::transposed(first.conv_out@, b, channels, t1);
    let mixed2 = tensor::transposed(second.conv_out@, b, channels, t2);
    lemma_columns_join(mixed, mixed1, mixed2, b, t1, t2, channels, 0, kd);
    lemma_columns_join(mixed, mixed1, mixed2, b, t1, t2, channels, kd, kd);
    lemma_columns_join(mixed, mixed1, mixed2, b, t1, t2, channels, 2 * kd, vd);
    lemma_expanded_joins(
        cfg,
        tensor::columns_of(mixed, b * t, channels, 0, kd),
        tensor::columns_of(mixed1, b * t1, channels, 0, kd),
        tensor::columns_of(mixed2, b * t2, channels, 0, kd),
        b,
        t1,
        t2,
    );
    lemma_expanded_joins(
        cfg,
        tensor::columns_of(mixed, b * t, channels, kd, kd),
        tensor::columns_of(mixed1, b * t1, channels, kd, kd),
        tensor::columns_of(mixed2, b * t2, channels, kd, kd),
        b,
        t1,
        t2,
    );
    lemma_gates_join(
        gate,
        whole.in_proj_b@,
        first.in_proj_b@,
        second.in_proj_b@,
        b,
        t1,
        t2,
        heads,
        whole.beta@,
        first.beta@,
        second.beta@,
    );
    lemma_decays_join(
        decay,
        whole.in_proj_a@,
        first.in_proj_a@,
        second.in_proj_a@,
        w.a_log@,
        w.dt_bias@,
        b,
        t1,
        t2,
        heads,
        whole.g@,
        first.g@,
        second.g@,
    );
    // the rule
    let rule_before = match before {
        Some(s) => Some(s.1),
        None => None,
    };
    assert(operands_join(cfg, operands(whole), operands(first), operands(second), b, t1, t2));
    assert(rule_makes(rule, operands(whole), rule_before, whole.delta_out@, after.ssm@));
    assert(rule_makes(rule, operands(first), rule_before, first.delta_out@, mid.ssm@));
    assert(rule_makes(
        rule,
        operands(second),
        Some(mid.ssm@),
        second.delta_out@,
        after2.ssm@,
    ));
    // norm and output
    lemma_normed_joins(
        norm,
        w.norm@,
        whole.delta_out@,
        first.delta_out@,
        second.delta_out@,
        whole.in_proj_z@,
        first.in_proj_z@,
        second.in_proj_z@,
        b,
        t1,
        t2,
        heads,
        cfg.head_v_dim as int,
        whole.norm@,
        first.norm@,
        second.norm@,
    );
    lemma_product_joins(
        dot,
        w.out_proj@,
        whole.norm@,
        first.norm@,
        second.norm@,
        b,
        t1,
        t2,
        vd,
        h,
        whole.out_proj@,
        first.out_proj@,
        second.out_proj@,
    );
}

/// Whether the rule starts from zeros where it is given no state.
pub open spec fn rule_starts_at_zeros<
    T,
    R: Fn(&[T], &[T], &[T], &[T], &[T], Option<&[T]>) -> (Vec<T>, Vec<T>),
>(rule: R, zeros: Seq<T>) -> bool {
    forall|of: Operands<T>, out: Seq<T>, after: Seq<T>| #[trigger]
        rule_makes(rule, of, None, out, after) ==> rule_makes(rule, of, Some(zeros), out, after)
}

/// **A fresh state is no state.** What the block gives without a state it also gives from a
/// state of zeros, which is what [`GdnState::new`] makes.
pub proof fn fresh_state_is_no_state<
    T,
    D: Fn(&[T], &[T], usize) -> T,
    C: Fn(&[T], &[T], usize) -> T,
    S: Fn(T) -> T,
    G: Fn(T, T, T) -> T,
    R: Fn(&[T], &[T], &[T], &[T], &[T], Option<&[T]>) -> (Vec<T>, Vec<T>),
    N: Fn(&[T], &[T], &[T]) -> Vec<T>,
>(
    cfg: GdnConfig,
    w: GdnWeights<T>,
    x: Seq<T>,
    b: int,
    t: int,
    zero: T,
    dot: D,
    tap: C,
    gate: S,
    decay: G,
    rule: R,
    norm: N,
    tr: GdnTrace<T>,
    after: GdnState<T>,
    conv_zeros: Seq<T>,
    rule_zeros: Seq<T>,
)
    requires
        0 <= b,
        0 <= t,
        conv_zeros == Seq::new(super::conv_state_len(cfg, b) as nat, |i: int| zero),
        rule_starts_at_zeros(rule, rule_zeros),
        super::is_trace(
            cfg,
            w,
            x,
            b,
            t,
            None,
            zero,
            dot,
            tap,
            gate,
            decay,
            rule,
            norm,
            tr,
            after,
        ),
    ensures
        super::is_trace(
            cfg,
            w,
            x,
            b,
            t,
            Some((conv_zeros, rule_zeros)),
            zero,
            dot,
            tap,
            gate,
            decay,
            rule,
            norm,
            tr,
            after,
        ),
{
    let channels = cfg.channels();
    let k = cfg.conv_kernel as int;
    let keep = conv::kept(k);
    let groups = b * channels;
    assert(cfg.keys() >= 0 && cfg.values() >= 0) by (nonlinear_arith)
        requires
            cfg.keys() == cfg.head_k_dim * cfg.num_k_heads,
            cfg.values() == cfg.head_v_dim * cfg.num_v_heads,
    ;
    assert(groups >= 0 && groups * keep >= 0) by (nonlinear_arith)
        requires
            groups == b * channels,
            b >= 0,
            channels >= 0,
            keep >= 0,
    ;
    let s = Some(conv_zeros);
    assert forall|g: int| 0 <= g < groups implies #[trigger] conv::signal(
        tr.conv_in@,
        s,
        zero,
        t,
        k,
        g,
    ) == conv::signal(tr.conv_in@, None, zero, t, k, g) by {
        tensor::lemma_row_fits(g, groups, keep);
        assert(tensor::row(conv_zeros, g, keep) =~= Seq::new(keep as nat, |i: int| zero));
    }
    assert forall|i: int| 0 <= i < tr.conv_out.len() implies conv::conv_at(
        tap,
        w.conv1d@,
        tr.conv_in@,
        s,
        zero,
        channels,
        t,
        k,
        i,
        #[trigger] tr.conv_out[i],
    ) by {
        assert(tr.conv_in.len() == groups * t);
        assert(t > 0) by (nonlinear_arith)
            requires
                0 <= i < groups * t,
                0 <= t,
                0 <= groups,
        ;
        tensor::lemma_unflat(i, groups, t);
    }
    assert(conv::state_behind(tr.conv_in@, s, zero, groups, t, k) =~= conv::state_behind(
        tr.conv_in@,
        None,
        zero,
        groups,
        t,
        k,
    )) by {
        assert forall|i: int| 0 <= i < groups * keep implies 0 <= #[trigger] (i / keep) < groups by {
            assert(keep > 0) by (nonlinear_arith)
                requires
                    0 <= i < groups * keep,
                    0 <= keep,
                    0 <= groups,
            ;
            tensor::lemma_unflat(i, groups, keep);
        }
    }
    assert(rule_makes(rule, operands(tr), None, tr.delta_out@, tr.delta_state@));
}

} // verus!
