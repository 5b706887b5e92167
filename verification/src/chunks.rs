//! Two chunks of a sequence, and the whole that they make.
//!
//! A tensor of shape `[B, T, D]` has `B * T` rows of `D` values. Where `T = T1 + T2`, each of
//! its rows belongs to one of two chunks of shapes `[B, T1, D]` and `[B, T2, D]`.
use crate::tensor;
use vstd::prelude::*;

verus! {

/// Whether row `r` of the whole belongs to the first chunk.
pub open spec fn in_first(r: int, t1: int, t2: int) -> bool {
    r % (t1 + t2) < t1
}

/// Which row of its chunk row `r` of the whole is.
pub open spec fn place(r: int, t1: int, t2: int) -> int {
    let bi = r / (t1 + t2);
    let ti = r % (t1 + t2);
    if ti < t1 {
        bi * t1 + ti
    } else {
        bi * t2 + (ti - t1)
    }
}

/// Row `r` of the whole, as its chunk has it.
pub open spec fn chunk_row<T>(
    first: Seq<T>,
    second: Seq<T>,
    t1: int,
    t2: int,
    d: int,
    r: int,
) -> Seq<T> {
    if in_first(r, t1, t2) {
        tensor::row(first, place(r, t1, t2), d)
    } else {
        tensor::row(second, place(r, t1, t2), d)
    }
}

/// Whether `x` is made of two chunks, one behind the other in time for each batch.
pub open spec fn joins<T>(
    x: Seq<T>,
    first: Seq<T>,
    second: Seq<T>,
    b: int,
    t1: int,
    t2: int,
    d: int,
) -> bool {
    &&& x.len() == b * (t1 + t2) * d
    &&& first.len() == b * t1 * d
    &&& second.len() == b * t2 * d
    &&& forall|r: int|
        0 <= r < b * (t1 + t2) ==> #[trigger] tensor::row(x, r, d) == chunk_row(
            first,
            second,
            t1,
            t2,
            d,
            r,
        )
}

/// The place of a row is within its chunk.
pub proof fn lemma_place(r: int, b: int, t1: int, t2: int)
    requires
        0 <= t1,
        0 <= t2,
        0 <= r < b * (t1 + t2),
    ensures
        t1 + t2 > 0,
        0 <= r / (t1 + t2) < b,
        0 <= r % (t1 + t2) < t1 + t2,
        r == (r / (t1 + t2)) * (t1 + t2) + r % (t1 + t2),
        in_first(r, t1, t2) ==> 0 <= place(r, t1, t2) < b * t1,
        !in_first(r, t1, t2) ==> 0 <= place(r, t1, t2) < b * t2,
{
    let t = t1 + t2;
    assert(t > 0) by (nonlinear_arith)
        requires
            0 <= r < b * t,
            0 <= t,
    ;
    tensor::lemma_unflat(r, b, t);
    tensor::lemma_row_fits(r / t, b, t1);
    tensor::lemma_row_fits(r / t, b, t2);
}

/// Where row `ti` of batch `bi` is.
pub proof fn lemma_row_of(bi: int, ti: int, b: int, t1: int, t2: int)
    requires
        0 <= t1,
        0 <= t2,
        0 <= bi < b,
        0 <= ti < t1 + t2,
    ensures
        0 <= bi * (t1 + t2) + ti < b * (t1 + t2),
        in_first(bi * (t1 + t2) + ti, t1, t2) <==> ti < t1,
        place(bi * (t1 + t2) + ti, t1, t2) == if ti < t1 {
            bi * t1 + ti
        } else {
            bi * t2 + (ti - t1)
        },
{
    tensor::lemma_flat(bi, ti, t1 + t2);
    tensor::lemma_row_fits(bi, b, t1 + t2);
}

/// A value of a row.
pub proof fn lemma_value<T>(x: Seq<T>, r: int, rows: int, d: int, j: int)
    requires
        0 <= r < rows,
        0 <= j < d,
        x.len() == rows * d,
    ensures
        0 <= r * d + j < x.len(),
        tensor::row(x, r, d).len() == d,
        tensor::row(x, r, d)[j] == x[r * d + j],
{
    tensor::lemma_row_fits(r, rows, d);
}

/// Chunks join where every value is where it belongs.
pub proof fn lemma_joins_by_values<T>(
    x: Seq<T>,
    first: Seq<T>,
    second: Seq<T>,
    b: int,
    t1: int,
    t2: int,
    d: int,
)
    requires
        0 <= t1,
        0 <= t2,
        0 <= d,
        x.len() == b * (t1 + t2) * d,
        first.len() == b * t1 * d,
        second.len() == b * t2 * d,
        forall|r: int, j: int|
            0 <= r < b * (t1 + t2) && 0 <= j < d ==> #[trigger] x[r * d + j] == if in_first(
                r,
                t1,
                t2,
            ) {
                first[place(r, t1, t2) * d + j]
            } else {
                second[place(r, t1, t2) * d + j]
            },
    ensures
        joins(x, first, second, b, t1, t2, d),
{
    assert forall|r: int| 0 <= r < b * (t1 + t2) implies #[trigger] tensor::row(x, r, d)
        == chunk_row(first, second, t1, t2, d, r) by {
        lemma_place(r, b, t1, t2);
        tensor::lemma_row_fits(r, b * (t1 + t2), d);
        if in_first(r, t1, t2) {
            tensor::lemma_row_fits(place(r, t1, t2), b * t1, d);
        } else {
            tensor::lemma_row_fits(place(r, t1, t2), b * t2, d);
        }
        let have = tensor::row(x, r, d);
        let want = chunk_row(first, second, t1, t2, d, r);
        assert forall|j: int| 0 <= j < d implies have[j] == want[j] by {
            assert(have[j] == x[r * d + j]);
        }
        assert(have =~= want);
    }
}

/// Every value of a whole is where its chunk has it.
pub proof fn lemma_joined_value<T>(
    x: Seq<T>,
    first: Seq<T>,
    second: Seq<T>,
    b: int,
    t1: int,
    t2: int,
    d: int,
    r: int,
    j: int,
)
    requires
        0 <= t1,
        0 <= t2,
        joins(x, first, second, b, t1, t2, d),
        0 <= r < b * (t1 + t2),
        0 <= j < d,
    ensures
        x[r * d + j] == if in_first(r, t1, t2) {
            first[place(r, t1, t2) * d + j]
        } else {
            second[place(r, t1, t2) * d + j]
        },
{
    lemma_place(r, b, t1, t2);
    lemma_value(x, r, b * (t1 + t2), d, j);
    if in_first(r, t1, t2) {
        lemma_value(first, place(r, t1, t2), b * t1, d, j);
    } else {
        lemma_value(second, place(r, t1, t2), b * t2, d, j);
    }
    assert(tensor::row(x, r, d) == chunk_row(first, second, t1, t2, d, r));
}

/// For one batch, the whole is one chunk behind the other.
pub proof fn one_batch_joins_by_concatenation<T>(
    x: Seq<T>,
    first: Seq<T>,
    second: Seq<T>,
    t1: int,
    t2: int,
    d: int,
)
    requires
        0 <= t1,
        0 <= t2,
        0 <= d,
        first.len() == t1 * d,
        second.len() == t2 * d,
    ensures
        joins(x, first, second, 1, t1, t2, d) <==> x == first + second,
{
    let t = t1 + t2;
    assert(t * d == t1 * d + t2 * d) by (nonlinear_arith)
        requires
            t == t1 + t2,
    ;
    let cat = first + second;
    assert forall|r: int, j: int| 0 <= r < t && 0 <= j < d implies #[trigger] cat[r * d + j]
        == if in_first(r, t1, t2) {
        first[place(r, t1, t2) * d + j]
    } else {
        second[place(r, t1, t2) * d + j]
    } by {
        lemma_row_of(0, r, 1, t1, t2);
        if r < t1 {
            tensor::lemma_row_fits(r, t1, d);
        } else {
            tensor::lemma_row_fits(r - t1, t2, d);
            assert(r * d + j == t1 * d + ((r - t1) * d + j)) by (nonlinear_arith);
        }
    }
    lemma_joins_by_values(cat, first, second, 1, t1, t2, d);
    if joins(x, first, second, 1, t1, t2, d) {
        assert(x.len() == cat.len());
        assert forall|i: int| 0 <= i < x.len() implies x[i] == cat[i] by {
            assert(d > 0) by (nonlinear_arith)
                requires
                    0 <= i < t * d,
                    0 <= d,
                    0 <= t,
            ;
            tensor::lemma_unflat(i, t, d);
            lemma_joined_value(x, first, second, 1, t1, t2, d, i / d, i % d);
            lemma_joined_value(cat, first, second, 1, t1, t2, d, i / d, i % d);
        }
        assert(x =~= cat);
    }
}

} // verus!
