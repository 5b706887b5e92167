//! Tensors as flat runs of values: where each value goes.
//!
//! A tensor of shape `[A, B, C]` is held in row-major order, so its value at `(i, j, k)` is
//! at `(i * B + j) * C + k`. Nothing here computes with the values; what a cell of a product
//! holds is left to the caller.
use vstd::arithmetic::div_mod::{lemma_fundamental_div_mod, lemma_fundamental_div_mod_converse};
use vstd::prelude::*;
use vstd::slice::slice_subrange;

verus! {

// ---------------------------------------------------------------------------
// indices
// ---------------------------------------------------------------------------
/// The flat index of row `q` and column `r` gives both back.
pub proof fn lemma_flat(q: int, r: int, d: int)
    requires
        0 <= r < d,
        0 <= q,
    ensures
        (q * d + r) / d == q,
        (q * d + r) % d == r,
        0 <= q * d + r,
{
    lemma_fundamental_div_mod_converse(q * d + r, d, q, r);
    assert(q * d >= 0) by (nonlinear_arith)
        requires
            0 <= q,
            0 <= d,
    ;
}

/// A flat index is made of its row and its column.
pub proof fn lemma_unflat(i: int, n: int, d: int)
    requires
        0 < d,
        0 <= i < n * d,
    ensures
        0 <= i / d < n,
        0 <= i % d < d,
        i == (i / d) * d + i % d,
{
    lemma_fundamental_div_mod(i, d);
    let q = i / d;
    let r = i % d;
    assert(i == q * d + r) by (nonlinear_arith)
        requires
            i == d * q + r,
    ;
    assert(0 <= q < n) by (nonlinear_arith)
        requires
            i == q * d + r,
            0 <= r < d,
            0 <= i < n * d,
    ;
}

/// A row is within the rows that are there.
pub proof fn lemma_row_fits(q: int, n: int, d: int)
    requires
        0 <= q < n,
        0 <= d,
    ensures
        0 <= q * d,
        q * d + d <= n * d,
        (q + 1) * d == q * d + d,
{
    assert(0 <= q * d && q * d + d <= n * d && (q + 1) * d == q * d + d) by (nonlinear_arith)
        requires
            0 <= q < n,
            0 <= d,
    ;
}

/// The flat index of a place in three dimensions is within them.
proof fn lemma_flat3(i: int, a: int, j: int, b: int, k: int, c: int)
    requires
        0 <= i < a,
        0 <= j < b,
        0 <= k < c,
    ensures
        0 <= i * b + j < a * b,
        0 <= (i * b + j) * c + k < a * b * c,
        (i * b + j) * c + c <= a * b * c,
{
    lemma_row_fits(i, a, b);
    lemma_row_fits(i * b + j, a * b, c);
}

// ---------------------------------------------------------------------------
// transposition
// ---------------------------------------------------------------------------
/// Where the value at flat index `i` of a `[B, C, T]` tensor is in its `[B, T, C]` form.
pub open spec fn transposed_from(i: int, t: int, c: int) -> int {
    (((i / t) / c) * t + i % t) * c + (i / t) % c
}

/// A `[B, T, C]` tensor as a `[B, C, T]` one.
pub open spec fn transposed<T>(x: Seq<T>, b: int, t: int, c: int) -> Seq<T> {
    Seq::new((b * c * t) as nat, |i: int| x[transposed_from(i, t, c)])
}

proof fn lemma_transposed_from(bi: int, ci: int, c: int, ti: int, t: int)
    requires
        0 <= bi,
        0 <= ci < c,
        0 <= ti < t,
    ensures
        transposed_from((bi * c + ci) * t + ti, t, c) == (bi * t + ti) * c + ci,
{
    lemma_flat(bi, ci, c);
    lemma_flat(bi * c + ci, ti, t);
}

/// The place of a value in a transposed tensor: what was at `(bi, ti, ci)` is at
/// `(bi, ci, ti)`.
pub proof fn transposition_places_values<T>(
    x: Seq<T>,
    b: int,
    t: int,
    c: int,
    bi: int,
    ti: int,
    ci: int,
)
    requires
        0 <= bi < b,
        0 <= ti < t,
        0 <= ci < c,
    ensures
        transposed(x, b, t, c)[(bi * c + ci) * t + ti] == x[(bi * t + ti) * c + ci],
{
    lemma_transposed_from(bi, ci, c, ti, t);
    lemma_flat3(bi, b, ci, c, ti, t);
}

/// Transposing twice gives the tensor back.
pub proof fn transposition_round_trips<T>(x: Seq<T>, b: int, t: int, c: int)
    requires
        0 <= b,
        0 <= t,
        0 <= c,
        x.len() == b * t * c,
    ensures
        transposed(transposed(x, b, t, c), b, c, t) == x,
{
    let y = transposed(x, b, t, c);
    let z = transposed(y, b, c, t);
    assert(b * t * c == b * c * t) by (nonlinear_arith);
    assert forall|i: int| 0 <= i < x.len() implies #[trigger] z[i] == x[i] by {
        assert(c > 0 && b * t > 0) by (nonlinear_arith)
            requires
                0 <= i < b * t * c,
                0 <= b,
                0 <= t,
                0 <= c,
        ;
        lemma_unflat(i, b * t, c);
        let row = i / c;
        let ci = i % c;
        assert(t > 0) by (nonlinear_arith)
            requires
                b * t > 0,
                0 <= b,
                0 <= t,
        ;
        lemma_unflat(row, b, t);
        let bi = row / t;
        let ti = row % t;
        lemma_transposed_from(bi, ti, t, ci, c);
        lemma_flat3(bi, b, ci, c, ti, t);
        transposition_places_values(x, b, t, c, bi, ti, ci);
    }
    assert(z =~= x);
}

/// Transposes the inner two dimensions.
fn transpose<T: Copy>(x: &[T], b: usize, t: usize, c: usize) -> (y: Vec<T>)
    requires
        x.len() == b * t * c,
    ensures
        y@ == transposed(x@, b as int, t as int, c as int),
{
    let ghost want = transposed(x@, b as int, t as int, c as int);
    let mut y: Vec<T> = Vec::new();
    proof {
        assert(b * t * c == b * c * t) by (nonlinear_arith);
    }
    let mut bi: usize = 0;
    assert(0 * (c * t) == 0) by (nonlinear_arith);
    while bi < b
        invariant
            x.len() == b * t * c,
            bi <= b,
            want == transposed(x@, b as int, t as int, c as int),
            y.len() == bi * (c * t),
            forall|k: int| 0 <= k < y.len() ==> y@[k] == want[k],
        decreases b - bi,
    {
        let mut ci: usize = 0;
        assert((bi * c + 0) * t == bi * (c * t)) by (nonlinear_arith);
        while ci < c
            invariant
                x.len() == b * t * c,
                bi < b,
                ci <= c,
                want == transposed(x@, b as int, t as int, c as int),
                y.len() == (bi * c + ci) * t,
                forall|k: int| 0 <= k < y.len() ==> y@[k] == want[k],
            decreases c - ci,
        {
            let mut ti: usize = 0;
            while ti < t
                invariant
                    x.len() == b * t * c,
                    bi < b,
                    ci < c,
                    ti <= t,
                    want == transposed(x@, b as int, t as int, c as int),
                    y.len() == (bi * c + ci) * t + ti,
                    forall|k: int| 0 <= k < y.len() ==> y@[k] == want[k],
                decreases t - ti,
            {
                proof {
                    lemma_flat3(bi as int, b as int, ti as int, t as int, ci as int, c as int);
                    lemma_row_fits(bi as int, b as int, t as int);
                    assert(bi * t + ti <= (bi * t + ti) * c) by (nonlinear_arith)
                        requires
                            c >= 1,
                            bi * t + ti >= 0,
                    ;
                    transposition_places_values(
                        x@,
                        b as int,
                        t as int,
                        c as int,
                        bi as int,
                        ti as int,
                        ci as int,
                    );
                }
                y.push(x[(bi * t + ti) * c + ci]);
                ti += 1;
            }
            assert((bi * c + ci) * t + t == (bi * c + (ci + 1)) * t) by (nonlinear_arith);
            ci += 1;
        }
        assert((bi * c + c) * t == (bi + 1) * (c * t)) by (nonlinear_arith);
        bi += 1;
    }
    assert(b * (c * t) == b * c * t) by (nonlinear_arith);
    assert(y@ =~= want);
    y
}

/// `[B, T, C]` -> `[B, C, T]`. The convolution works channels-first.
pub fn btc_to_bct<T: Copy>(x: &[T], b: usize, t: usize, c: usize) -> (y: Vec<T>)
    requires
        x.len() == b * t * c,
    ensures
        y@ == transposed(x@, b as int, t as int, c as int),
{
    transpose(x, b, t, c)
}

/// `[B, C, T]` -> `[B, T, C]`, the inverse of [`btc_to_bct`].
pub fn bct_to_btc<T: Copy>(x: &[T], b: usize, c: usize, t: usize) -> (y: Vec<T>)
    requires
        x.len() == b * c * t,
    ensures
        y@ == transposed(x@, b as int, c as int, t as int),
{
    transpose(x, b, c, t)
}

// ---------------------------------------------------------------------------
// columns
// ---------------------------------------------------------------------------
/// The columns `from..from + len` of a tensor with rows of `width` values.
pub open spec fn columns_of<T>(x: Seq<T>, rows: int, width: int, from: int, len: int) -> Seq<T> {
    Seq::new((rows * len) as nat, |i: int| x[(i / len) * width + from + i % len])
}

/// Cutting out columns keeps the rows: column `j` of a row of the cut is column `from + j` of that
/// row of the whole.
pub proof fn columns_keep_their_rows<T>(
    x: Seq<T>,
    rows: int,
    width: int,
    from: int,
    len: int,
    r: int,
    j: int,
)
    requires
        0 <= r < rows,
        0 <= j < len,
    ensures
        columns_of(x, rows, width, from, len).len() == rows * len,
        columns_of(x, rows, width, from, len)[r * len + j] == x[r * width + from + j],
{
    lemma_flat(r, j, len);
    lemma_row_fits(r, rows, len);
}

/// The columns `from..from + len` of a tensor with rows of `width` values.
pub fn columns<T: Copy>(x: &[T], rows: usize, width: usize, from: usize, len: usize) -> (y: Vec<T>)
    requires
        x.len() == rows * width,
        from + len <= width,
    ensures
        y@ == columns_of(x@, rows as int, width as int, from as int, len as int),
{
    let ghost want = columns_of(x@, rows as int, width as int, from as int, len as int);
    let mut y: Vec<T> = Vec::new();
    let mut r: usize = 0;
    assert(0 * len == 0) by (nonlinear_arith);
    while r < rows
        invariant
            x.len() == rows * width,
            from + len <= width,
            r <= rows,
            want == columns_of(x@, rows as int, width as int, from as int, len as int),
            y.len() == r * len,
            forall|k: int| 0 <= k < y.len() ==> y@[k] == want[k],
        decreases rows - r,
    {
        let mut j: usize = 0;
        proof {
            lemma_row_fits(r as int, rows as int, width as int);
            lemma_row_fits(r as int, rows as int, len as int);
        }
        while j < len
            invariant
                x.len() == rows * width,
                from + len <= width,
                r < rows,
                j <= len,
                r * width + width <= rows * width,
                r * len + len <= rows * len,
                want == columns_of(x@, rows as int, width as int, from as int, len as int),
                y.len() == r * len + j,
                forall|k: int| 0 <= k < y.len() ==> y@[k] == want[k],
            decreases len - j,
        {
            proof {
                lemma_flat(r as int, j as int, len as int);
            }
            y.push(x[r * width + from + j]);
            j += 1;
        }
        assert(r * len + len == (r + 1) * len) by (nonlinear_arith);
        r += 1;
    }
    assert(y@ =~= want);
    y
}

// ---------------------------------------------------------------------------
// heads
// ---------------------------------------------------------------------------
/// Each head of `d` values `ratio` times in a row, for `heads` heads.
pub open spec fn interleaved<T>(x: Seq<T>, heads: int, d: int, ratio: int) -> Seq<T> {
    Seq::new((heads * ratio * d) as nat, |i: int| x[((i / d) / ratio) * d + i % d])
}

/// `repeat_interleave(x, ratio)` on the head axis of a `[B, T, H, D]` tensor.
///
/// Each head is duplicated `ratio` times consecutively, so head `h` maps to
/// output heads `h*ratio .. h*ratio + ratio - 1`.
pub fn repeat_interleave_heads<T: Copy>(
    x: &[T],
    b: usize,
    t: usize,
    h: usize,
    d: usize,
    ratio: usize,
) -> (y: Vec<T>)
    requires
        ratio == 1 || (x.len() >= b * t * h * d && b * t * h <= usize::MAX && b * t * h * ratio * d
            <= usize::MAX),
    ensures
        y@ == if ratio == 1 {
            x@
        } else {
            interleaved(x@, b * t * h, d as int, ratio as int)
        },
{
    let mut y: Vec<T> = Vec::new();
    if ratio == 1 {
        let mut i: usize = 0;
        while i < x.len()
            invariant
                i <= x.len(),
                y@ == x@.take(i as int),
            decreases x.len() - i,
        {
            y.push(x[i]);
            i += 1;
            assert(y@ =~= x@.take(i as int));
        }
        assert(x@.take(i as int) =~= x@);
        return y;
    }
    proof {
        assert(b * t <= usize::MAX || h == 0) by (nonlinear_arith)
            requires
                b * t * h <= usize::MAX,
                h >= 0,
                b >= 0,
                t >= 0,
        ;
    }
    let heads: usize = if h == 0 {
        0
    } else {
        b * t * h
    };
    assert(heads == b * t * h) by {
        assert(h == 0 ==> b * t * h == 0) by (nonlinear_arith);
    }
    let ghost want = interleaved(x@, heads as int, d as int, ratio as int);
    let mut q: usize = 0;
    assert(0 * ratio * d == 0) by (nonlinear_arith);
    while q < heads
        invariant
            x.len() >= heads * d,
            q <= heads,
            want == interleaved(x@, heads as int, d as int, ratio as int),
            y.len() == q * ratio * d,
            forall|k: int| 0 <= k < y.len() ==> y@[k] == want[k],
        decreases heads - q,
    {
        let mut rep: usize = 0;
        proof {
            lemma_row_fits(q as int, heads as int, ratio as int);
            lemma_row_fits(q as int, heads as int, d as int);
            assert((q * ratio + 0) * d == q * ratio * d) by (nonlinear_arith);
        }
        while rep < ratio
            invariant
                x.len() >= heads * d,
                q < heads,
                rep <= ratio,
                q * d + d <= heads * d,
                q * ratio + ratio <= heads * ratio,
                want == interleaved(x@, heads as int, d as int, ratio as int),
                y.len() == (q * ratio + rep) * d,
                forall|k: int| 0 <= k < y.len() ==> y@[k] == want[k],
            decreases ratio - rep,
        {
            let mut j: usize = 0;
            while j < d
                invariant
                    x.len() >= heads * d,
                    q < heads,
                    rep < ratio,
                    j <= d,
                    q * d + d <= heads * d,
                    q * ratio + ratio <= heads * ratio,
                    want == interleaved(x@, heads as int, d as int, ratio as int),
                    y.len() == (q * ratio + rep) * d + j,
                    forall|k: int| 0 <= k < y.len() ==> y@[k] == want[k],
                decreases d - j,
            {
                proof {
                    lemma_flat(q as int, rep as int, ratio as int);
                    lemma_flat(q * ratio + rep, j as int, d as int);
                    lemma_row_fits(q * ratio + rep, heads * ratio, d as int);
                    assert(0 <= q * d) by (nonlinear_arith)
                        requires
                            0 <= q,
                            0 <= d,
                    ;
                }
                y.push(x[q * d + j]);
                j += 1;
            }
            assert((q * ratio + rep) * d + d == (q * ratio + (rep + 1)) * d) by (nonlinear_arith);
            rep += 1;
        }
        assert((q * ratio + ratio) * d == (q + 1) * ratio * d) by (nonlinear_arith);
        q += 1;
    }
    assert(y@ =~= want);
    y
}

/// Head `g` of an expanded tensor is head `g / ratio` of the given one.
pub proof fn heads_repeat_consecutively<T>(
    x: Seq<T>,
    heads: int,
    d: int,
    ratio: int,
    head: int,
    rep: int,
    j: int,
)
    requires
        0 <= head < heads,
        0 <= rep < ratio,
        0 <= j < d,
    ensures
        interleaved(x, heads, d, ratio)[(head * ratio + rep) * d + j] == x[head * d + j],
{
    lemma_flat(head, rep, ratio);
    lemma_flat(head * ratio + rep, j, d);
    lemma_flat3(head, heads, rep, ratio, j, d);
}

// ---------------------------------------------------------------------------
// products
// ---------------------------------------------------------------------------
/// Row `r` of a tensor with rows of `dim` values.
pub open spec fn row<T>(x: Seq<T>, r: int, dim: int) -> Seq<T> {
    x.subrange(r * dim, r * dim + dim)
}

/// Whether `y` is what `cell` makes of a row of weights, a row of inputs and the number of
/// the output.
pub open spec fn cell_gives<T, F: Fn(&[T], &[T], usize) -> T>(
    cell: F,
    w: Seq<T>,
    x: Seq<T>,
    o: usize,
    y: T,
) -> bool {
    exists|a: &[T], b: &[T]|
        a@ == w && b@ == x && #[trigger] call_ensures(cell, (a, b, o), y)
}

/// Whether `y` is the product's value at flat index `i`.
pub open spec fn product_at<T, F: Fn(&[T], &[T], usize) -> T>(
    cell: F,
    w: Seq<T>,
    x: Seq<T>,
    in_dim: int,
    out_dim: int,
    i: int,
    y: T,
) -> bool {
    cell_gives(cell, row(w, i % out_dim, in_dim), row(x, i / out_dim, in_dim), (i % out_dim) as usize, y)
}

/// A product holds, for each row of inputs and each output, what `cell` makes of that row of the
/// weights and that row of the inputs.
pub proof fn a_product_is_of_its_rows<T, F: Fn(&[T], &[T], usize) -> T>(
    cell: F,
    w: Seq<T>,
    x: Seq<T>,
    in_dim: int,
    out_dim: int,
    r: int,
    o: int,
    y: T,
)
    requires
        0 <= r,
        0 <= o < out_dim <= usize::MAX,
        product_at(cell, w, x, in_dim, out_dim, r * out_dim + o, y),
    ensures
        exists|a: &[T], b: &[T]|
            {
                &&& a@ == w.subrange(o * in_dim, o * in_dim + in_dim)
                &&& b@ == x.subrange(r * in_dim, r * in_dim + in_dim)
                &&& #[trigger] call_ensures(cell, (a, b, o as usize), y)
            },
{
    lemma_flat(r, o, out_dim);
}

/// The values `base..base + len` of a product, in row-major order of `(row, output)`.
///
/// `w` is `[out_dim, in_dim]` and `x` is `[rows, in_dim]`. **Every output value is
/// independent**, so a product can be computed in as many ranges as one likes: what changes
/// is who computes a value, never how. Splitting the *reduction* instead, half of a row each,
/// would change the order of additions and with it the bits.
pub fn linear_range<T, F: Fn(&[T], &[T], usize) -> T>(
    w: &[T],
    x: &[T],
    rows: usize,
    in_dim: usize,
    out_dim: usize,
    base: usize,
    len: usize,
    cell: F,
) -> (y: Vec<T>)
    requires
        w.len() == out_dim * in_dim,
        x.len() == rows * in_dim,
        base + len <= rows * out_dim,
        base + len <= usize::MAX,
        forall|a: &[T], b: &[T], o: usize| call_requires(cell, (a, b, o)),
    ensures
        y.len() == len,
        forall|k: int|
            0 <= k < len ==> product_at(
                cell,
                w@,
                x@,
                in_dim as int,
                out_dim as int,
                base + k,
                #[trigger] y[k],
            ),
{
    let mut y: Vec<T> = Vec::new();
    if len == 0 {
        return y;
    }
    proof {
        assert(out_dim > 0) by (nonlinear_arith)
            requires
                0 < base + len <= rows * out_dim,
                out_dim >= 0,
        ;
        lemma_unflat(base as int, rows as int, out_dim as int);
    }
    let mut r: usize = base / out_dim;
    let mut o: usize = base % out_dim;
    let mut k: usize = 0;
    while k < len
        invariant
            w.len() == out_dim * in_dim,
            x.len() == rows * in_dim,
            base + len <= rows * out_dim,
            base + len <= usize::MAX,
            forall|a: &[T], b: &[T], o: usize| call_requires(cell, (a, b, o)),
            0 <= k <= len,
            o < out_dim,
            base + k == r * out_dim + o,
            y.len() == k,
            forall|j: int|
                0 <= j < k ==> product_at(
                    cell,
                    w@,
                    x@,
                    in_dim as int,
                    out_dim as int,
                    base + j,
                    #[trigger] y[j],
                ),
        decreases len - k,
    {
        proof {
            lemma_flat(r as int, o as int, out_dim as int);
            lemma_unflat(base + k, rows as int, out_dim as int);
            lemma_row_fits(r as int, rows as int, in_dim as int);
            lemma_row_fits(o as int, out_dim as int, in_dim as int);
        }
        let a = slice_subrange(w, o * in_dim, o * in_dim + in_dim);
        let b = slice_subrange(x, r * in_dim, r * in_dim + in_dim);
        let v: T = cell(a, b, o);
        assert(cell_gives(
            cell,
            row(w@, o as int, in_dim as int),
            row(x@, r as int, in_dim as int),
            o,
            v,
        ));
        y.push(v);
        o += 1;
        k += 1;
        if o == out_dim {
            assert((r + 1) * out_dim == r * out_dim + out_dim) by (nonlinear_arith);
            if k < len {
                proof {
                    lemma_unflat(base + k, rows as int, out_dim as int);
                    assert(r + 1 <= usize::MAX) by {
                        assert(r + 1 <= (r + 1) * out_dim) by (nonlinear_arith)
                            requires
                                out_dim >= 1,
                                r >= 0,
                        ;
                    }
                }
                o = 0;
                r += 1;
            } else {
                return y;
            }
        }
    }
    y
}

/// `y[r, o] = cell(w[o, ..], x[r, ..], o)`
///
/// `w` is `[out_dim, in_dim]`, matching `nn.Linear`'s storage, and `x` is `[rows, in_dim]`.
pub fn linear<T, F: Fn(&[T], &[T], usize) -> T>(
    w: &[T],
    x: &[T],
    rows: usize,
    in_dim: usize,
    out_dim: usize,
    cell: F,
) -> (y: Vec<T>)
    requires
        w.len() == out_dim * in_dim,
        x.len() == rows * in_dim,
        rows * out_dim <= usize::MAX,
        forall|a: &[T], b: &[T], o: usize| call_requires(cell, (a, b, o)),
    ensures
        y.len() == rows * out_dim,
        forall|i: int|
            0 <= i < y.len() ==> product_at(
                cell,
                w@,
                x@,
                in_dim as int,
                out_dim as int,
                i,
                #[trigger] y[i],
            ),
{
    linear_range(w, x, rows, in_dim, out_dim, 0, rows * out_dim, cell)
}

} // verus!
