//! Convolving a signal in chunks is convolving it at once.
use crate::conv;
use crate::mixer;
use crate::tensor;
use vstd::prelude::*;

verus! {

/// Whether every channel of a `[B, C, T]` tensor is made of two chunks, one behind the other.
pub open spec fn channels_join<T>(
    x: Seq<T>,
    first: Seq<T>,
    second: Seq<T>,
    groups: int,
    t1: int,
    t2: int,
) -> bool {
    &&& x.len() == groups * (t1 + t2)
    &&& first.len() == groups * t1
    &&& second.len() == groups * t2
    &&& forall|g: int|
        0 <= g < groups ==> #[trigger] tensor::row(x, g, t1 + t2) == tensor::row(first, g, t1)
            + tensor::row(second, g, t2)
}

/// The state that a chunk leaves for a channel.
proof fn lemma_state_of_channel<T>(
    x: Seq<T>,
    before: Option<Seq<T>>,
    zero: T,
    groups: int,
    t: int,
    k: int,
    g: int,
)
    requires
        0 <= k,
        0 <= t,
        0 <= g < groups,
        x.len() == groups * t,
        before matches Some(s) ==> s.len() == groups * conv::kept(k),
    ensures
        conv::context(before, zero, conv::kept(k), g).len() == conv::kept(k),
        conv::signal(x, before, zero, t, k, g).len() == conv::kept(k) + t,
        tensor::row(conv::state_behind(x, before, zero, groups, t, k), g, conv::kept(k))
            == conv::tail(conv::signal(x, before, zero, t, k, g), t, k),
{
    let keep = conv::kept(k);
    tensor::lemma_row_fits(g, groups, keep);
    tensor::lemma_row_fits(g, groups, t);
    let s = conv::state_behind(x, before, zero, groups, t, k);
    let want = conv::tail(conv::signal(x, before, zero, t, k, g), t, k);
    assert(groups * keep >= 0);
    assert forall|j: int| 0 <= j < keep implies tensor::row(s, g, keep)[j] == want[j] by {
        tensor::lemma_flat(g, j, keep);
    }
    assert(tensor::row(s, g, keep) =~= want);
}

/// **A convolution in chunks is the convolution.** With a signal cut in two in time, what
/// [`conv_forward`](super::conv_forward) gives of the first chunk, and of the second from the
/// state that the first leaves, are the two chunks of what it gives of the whole -- the same
/// values, not close ones -- and the state behind them is the same, `k - 1` values for each
/// channel of each batch.
///
/// It holds of a cell that always makes the same of the same.
pub proof fn convolution_in_chunks<T, C: Fn(&[T], &[T], usize) -> T>(
    tap: C,
    w: Seq<T>,
    x: Seq<T>,
    x1: Seq<T>,
    x2: Seq<T>,
    before: Option<Seq<T>>,
    mid: Seq<T>,
    zero: T,
    channels: int,
    groups: int,
    t1: int,
    t2: int,
    k: int,
    y: Seq<T>,
    y1: Seq<T>,
    y2: Seq<T>,
)
    requires
        0 <= k,
        0 <= t1,
        0 <= t2,
        0 <= groups,
        mixer::laws::cell_is_function(tap),
        channels_join(x, x1, x2, groups, t1, t2),
        before matches Some(s) ==> s.len() == groups * conv::kept(k),
        mid == conv::state_behind(x1, before, zero, groups, t1, k),
        conv::is_convolved(tap, w, x, before, zero, channels, t1 + t2, k, y),
        conv::is_convolved(tap, w, x1, before, zero, channels, t1, k, y1),
        conv::is_convolved(tap, w, x2, Some(mid), zero, channels, t2, k, y2),
    ensures
        channels_join(y, y1, y2, groups, t1, t2),
        conv::state_behind(x2, Some(mid), zero, groups, t2, k).len() == groups * conv::kept(k),
        conv::state_behind(x2, Some(mid), zero, groups, t2, k) == conv::state_behind(
            x,
            before,
            zero,
            groups,
            t1 + t2,
            k,
        ),
{
    let t = t1 + t2;
    let keep = conv::kept(k);
    assert(groups * keep >= 0) by (nonlinear_arith)
        requires
            groups >= 0,
            keep >= 0,
    ;
    assert(mid.len() == groups * keep);
    assert forall|g: int| 0 <= g < groups implies #[trigger] tensor::row(y, g, t) == tensor::row(
        y1,
        g,
        t1,
    ) + tensor::row(y2, g, t2) && conv::tail(conv::signal(x2, Some(mid), zero, t2, k, g), t2, k)
        == conv::tail(conv::signal(x, before, zero, t, k, g), t, k) by {
        let left = conv::context(before, zero, keep, g);
        let first = tensor::row(x1, g, t1);
        let second = tensor::row(x2, g, t2);
        lemma_state_of_channel(x, before, zero, groups, t, k, g);
        lemma_state_of_channel(x1, before, zero, groups, t1, k, g);
        lemma_state_of_channel(x2, Some(mid), zero, groups, t2, k, g);
        tensor::lemma_row_fits(g, groups, t);
        tensor::lemma_row_fits(g, groups, t1);
        tensor::lemma_row_fits(g, groups, t2);
        assert(tensor::row(x, g, t) == first + second);
        let whole = conv::signal(x, before, zero, t, k, g);
        assert(whole == left + (first + second));
        let state = conv::tail(left + first, t1, k);
        let behind = conv::signal(x2, Some(mid), zero, t2, k, g);
        assert(behind == state + second);
        assert(conv::tail(behind, t2, k) =~= conv::tail(whole, t, k));
        let have = tensor::row(y, g, t);
        let want = tensor::row(y1, g, t1) + tensor::row(y2, g, t2);
        assert forall|ti: int| 0 <= ti < t implies have[ti] == want[ti] by {
            tensor::lemma_flat(g, ti, t);
            let a = tensor::row(w, g % channels, k);
            let o = (g % channels) as usize;
            assert(conv::conv_at(
                tap,
                w,
                x,
                before,
                zero,
                channels,
                t,
                k,
                g * t + ti,
                y[g * t + ti],
            ));
            assert(tensor::cell_gives(tap, a, conv::window(whole, ti, k), o, y[g * t + ti]));
            if ti < t1 {
                conv::convolution_starts_alike(left, first, second, k, ti);
                tensor::lemma_flat(g, ti, t1);
                let z = y1[g * t1 + ti];
                assert(conv::conv_at(tap, w, x1, before, zero, channels, t1, k, g * t1 + ti, z));
                assert(tensor::cell_gives(tap, a, conv::window(left + first, ti, k), o, z));
            } else {
                let tj = ti - t1;
                conv::convolution_continues(left, first, second, k, tj);
                tensor::lemma_flat(g, tj, t2);
                let z = y2[g * t2 + tj];
                assert(conv::conv_at(tap, w, x2, Some(mid), zero, channels, t2, k, g * t2 + tj, z));
                assert(tensor::cell_gives(tap, a, conv::window(state + second, tj, k), o, z));
            }
        }
        assert(have =~= want);
    }
    let s = conv::state_behind(x, before, zero, groups, t, k);
    let s2 = conv::state_behind(x2, Some(mid), zero, groups, t2, k);
    assert forall|i: int| 0 <= i < groups * keep implies s[i] == s2[i] by {
        assert(keep > 0) by (nonlinear_arith)
            requires
                0 <= i < groups * keep,
                0 <= keep,
                0 <= groups,
        ;
        tensor::lemma_unflat(i, groups, keep);
        let g = i / keep;
        assert(tensor::row(y, g, t) == tensor::row(y1, g, t1) + tensor::row(y2, g, t2));
    }
    assert(s =~= s2);
}

} // verus!
