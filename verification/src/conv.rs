//! The depthwise causal convolution: which values each output reads, and what a chunk
//! leaves for the next one.
pub mod laws;

use crate::tensor;
use vstd::prelude::*;
use vstd::slice::slice_subrange;

verus! {

/// How many inputs of the past a kernel of `k` taps reads.
pub open spec fn kept(k: int) -> int {
    if k > 0 {
        k - 1
    } else {
        0
    }
}

/// What a channel reads to the left of its chunk: the state where there is one, and
/// otherwise zeros.
pub open spec fn context<T>(state: Option<Seq<T>>, zero: T, keep: int, g: int) -> Seq<T> {
    match state {
        Some(s) => tensor::row(s, g, keep),
        None => Seq::new(keep as nat, |i: int| zero),
    }
}

/// All that channel `g` reads, of all batches' channels in a row: its context, then its
/// chunk of `t` values.
pub open spec fn signal<T>(
    x: Seq<T>,
    state: Option<Seq<T>>,
    zero: T,
    t: int,
    k: int,
    g: int,
) -> Seq<T> {
    context(state, zero, kept(k), g) + tensor::row(x, g, t)
}

/// What position `ti` of a signal reads: its own value and the `k - 1` before it.
pub open spec fn window<T>(signal: Seq<T>, ti: int, k: int) -> Seq<T> {
    signal.subrange(ti, ti + k)
}

/// What a signal leaves for the next chunk: its last `k - 1` values.
pub open spec fn tail<T>(signal: Seq<T>, t: int, k: int) -> Seq<T> {
    signal.subrange(t, t + kept(k))
}

/// Whether `y` is the convolution's value at flat index `i` of `[B, C, T]`.
pub open spec fn conv_at<T, F: Fn(&[T], &[T], usize) -> T>(
    cell: F,
    w: Seq<T>,
    x: Seq<T>,
    state: Option<Seq<T>>,
    zero: T,
    channels: int,
    t: int,
    k: int,
    i: int,
    y: T,
) -> bool {
    let g = i / t;
    tensor::cell_gives(
        cell,
        tensor::row(w, g % channels, k),
        window(signal(x, state, zero, t, k, g), i % t, k),
        (g % channels) as usize,
        y,
    )
}

/// Whether `y` is the convolution of `x`.
pub open spec fn is_convolved<T, F: Fn(&[T], &[T], usize) -> T>(
    cell: F,
    w: Seq<T>,
    x: Seq<T>,
    before: Option<Seq<T>>,
    zero: T,
    channels: int,
    t: int,
    k: int,
    y: Seq<T>,
) -> bool {
    &&& y.len() == x.len()
    &&& forall|i: int|
        0 <= i < y.len() ==> conv_at(cell, w, x, before, zero, channels, t, k, i, #[trigger] y[i])
}

/// The state behind a chunk, `[B, C, K-1]`.
pub open spec fn state_behind<T>(
    x: Seq<T>,
    state: Option<Seq<T>>,
    zero: T,
    groups: int,
    t: int,
    k: int,
) -> Seq<T> {
    Seq::new(
        (groups * kept(k)) as nat,
        |i: int| tail(signal(x, state, zero, t, k, i / kept(k)), t, k)[i % kept(k)],
    )
}

/// The view of a state.
pub open spec fn state_view<T>(state: Option<&[T]>) -> Option<Seq<T>> {
    match state {
        Some(s) => Some(s@),
        None => None,
    }
}

/// The signal of channel `g`.
fn read_signal<T: Copy>(
    x: &[T],
    state: Option<&[T]>,
    zero: T,
    groups: usize,
    t: usize,
    k: usize,
    g: usize,
) -> (r: Vec<T>)
    requires
        g < groups,
        x.len() == groups * t,
        state matches Some(s) ==> s.len() == groups * kept(k as int),
        kept(k as int) + t <= usize::MAX,
    ensures
        r@ == signal(x@, state_view(state), zero, t as int, k as int, g as int),
        r.len() == kept(k as int) + t,
{
    let keep: usize = if k > 0 {
        k - 1
    } else {
        0
    };
    let mut full: Vec<T> = Vec::new();
    match state {
        Some(s) => {
            proof {
                tensor::lemma_row_fits(g as int, groups as int, keep as int);
            }
            let mut i: usize = 0;
            while i < keep
                invariant
                    i <= keep,
                    s.len() == groups * keep,
                    0 <= g * keep,
                    g * keep + keep <= groups * keep,
                    full@ == tensor::row(s@, g as int, keep as int).take(i as int),
                decreases keep - i,
            {
                full.push(s[g * keep + i]);
                i += 1;
                assert(full@ =~= tensor::row(s@, g as int, keep as int).take(i as int));
            }
        },
        None => {
            let mut i: usize = 0;
            while i < keep
                invariant
                    i <= keep,
                    full@ == Seq::new(i as nat, |j: int| zero),
                decreases keep - i,
            {
                full.push(zero);
                i += 1;
                assert(full@ =~= Seq::new(i as nat, |j: int| zero));
            }
        },
    }
    let ghost left = context(state_view(state), zero, keep as int, g as int);
    assert(full@ =~= left);
    proof {
        tensor::lemma_row_fits(g as int, groups as int, t as int);
    }
    let mut i: usize = 0;
    assert(full@ =~= left + tensor::row(x@, g as int, t as int).take(0));
    while i < t
        invariant
            i <= t,
            x.len() == groups * t,
            0 <= g * t,
            g * t + t <= groups * t,
            full@ == left + tensor::row(x@, g as int, t as int).take(i as int),
        decreases t - i,
    {
        full.push(x[g * t + i]);
        i += 1;
        assert(full@ =~= left + tensor::row(x@, g as int, t as int).take(i as int));
    }
    assert(tensor::row(x@, g as int, t as int).take(i as int) =~= tensor::row(
        x@,
        g as int,
        t as int,
    ));
    full
}

/// Depthwise causal convolution over `[B, C, T]`, optionally continuing from a carried
/// state.
///
/// Returns `(out, new_state)`: `out` is `[B, C, T]`, `new_state` is `[B, C, K-1]`. `cell`
/// makes an output of the weights of a channel, the window that the output reads, and the
/// number of the channel.
///
/// The whole `(K-1)` padding is on the **left**, which is what makes it causal: position `p`
/// reads `x[p-(K-1) ..= p]` and never a future step. Both call modes evaluate the same
/// expression, and they differ only in where the left context comes from:
///
/// * no state: it must be inside the chunk, so a short chunk is zero-padded.
/// * a state: it is prepended. This is what makes a **single-token** step possible,
///   because a chunk of one has no left context of its own.
pub fn conv_forward<T: Copy, F: Fn(&[T], &[T], usize) -> T>(
    w: &[T],
    x_bct: &[T],
    b: usize,
    channels: usize,
    t: usize,
    k: usize,
    state_in: Option<&[T]>,
    zero: T,
    cell: F,
) -> (r: (Vec<T>, Vec<T>))
    requires
        b * channels <= usize::MAX,
        w.len() == channels * k,
        x_bct.len() == b * channels * t,
        state_in matches Some(s) ==> s.len() == b * channels * kept(k as int),
        b * channels * kept(k as int) <= usize::MAX,
        kept(k as int) + t <= usize::MAX,
        forall|a: &[T], c: &[T], o: usize| call_requires(cell, (a, c, o)),
    ensures
        is_convolved(
            cell,
            w@,
            x_bct@,
            state_view(state_in),
            zero,
            channels as int,
            t as int,
            k as int,
            r.0@,
        ),
        r.1@ == state_behind(
            x_bct@,
            state_view(state_in),
            zero,
            b * channels,
            t as int,
            k as int,
        ),
{
    let keep: usize = if k > 0 {
        k - 1
    } else {
        0
    };
    let groups: usize = b * channels;
    let ghost st = state_view(state_in);
    let ghost want = state_behind(x_bct@, st, zero, groups as int, t as int, k as int);
    let mut out: Vec<T> = Vec::new();
    let mut new_state: Vec<T> = Vec::new();
    let mut g: usize = 0;
    let mut c: usize = 0;
    proof {
        assert(0 * t == 0 && 0 * keep == 0) by (nonlinear_arith);
        if groups > 0 {
            vstd::arithmetic::div_mod::lemma_small_mod(0, channels as nat);
        }
        if channels == 0 {
            assert(b * channels == 0) by (nonlinear_arith)
                requires
                    channels == 0,
            ;
        }
    }
    while g < groups
        invariant
            groups == b * channels,
            g <= groups,
            groups > 0 ==> channels > 0,
            g < groups ==> c == (g as int) % (channels as int) && c < channels,
            keep == kept(k as int),
            w.len() == channels * k,
            x_bct.len() == groups * t,
            state_in matches Some(s) ==> s.len() == groups * keep,
            groups * keep <= usize::MAX,
            keep + t <= usize::MAX,
            st == state_view(state_in),
            want == state_behind(x_bct@, st, zero, groups as int, t as int, k as int),
            forall|a: &[T], c: &[T], o: usize| call_requires(cell, (a, c, o)),
            out.len() == g * t,
            forall|i: int|
                0 <= i < out.len() ==> conv_at(
                    cell,
                    w@,
                    x_bct@,
                    st,
                    zero,
                    channels as int,
                    t as int,
                    k as int,
                    i,
                    #[trigger] out[i],
                ),
            new_state.len() == g * keep,
            forall|i: int| 0 <= i < new_state.len() ==> new_state@[i] == want[i],
        decreases groups - g,
    {
        let full = read_signal(x_bct, state_in, zero, groups, t, k, g);
        proof {
            tensor::lemma_row_fits(c as int, channels as int, k as int);
            tensor::lemma_row_fits(g as int, groups as int, t as int);
            tensor::lemma_row_fits(g as int, groups as int, keep as int);
        }
        let wc = slice_subrange(w, c * k, c * k + k);
        let mut ti: usize = 0;
        while ti < t
            invariant
                g < groups,
                c == (g as int) % (channels as int),
                c < channels,
                keep == kept(k as int),
                ti <= t,
                full.len() == keep + t,
                full@ == signal(x_bct@, st, zero, t as int, k as int, g as int),
                wc@ == tensor::row(w@, c as int, k as int),
                forall|a: &[T], c: &[T], o: usize| call_requires(cell, (a, c, o)),
                out.len() == g * t + ti,
                forall|i: int|
                    0 <= i < out.len() ==> conv_at(
                        cell,
                        w@,
                        x_bct@,
                        st,
                        zero,
                        channels as int,
                        t as int,
                        k as int,
                        i,
                        #[trigger] out[i],
                    ),
            decreases t - ti,
        {
            let seen = slice_subrange(full.as_slice(), ti, ti + k);
            let v: T = cell(wc, seen, c);
            proof {
                tensor::lemma_flat(g as int, ti as int, t as int);
                assert(seen@ == window(full@, ti as int, k as int));
                assert(tensor::cell_gives(cell, wc@, seen@, c, v));
            }
            out.push(v);
            ti += 1;
        }
        let mut j: usize = 0;
        while j < keep
            invariant
                g < groups,
                keep == kept(k as int),
                j <= keep,
                full.len() == keep + t,
                full@ == signal(x_bct@, st, zero, t as int, k as int, g as int),
                want == state_behind(x_bct@, st, zero, groups as int, t as int, k as int),
                g * keep + keep <= groups * keep,
                new_state.len() == g * keep + j,
                forall|i: int| 0 <= i < new_state.len() ==> new_state@[i] == want[i],
            decreases keep - j,
        {
            proof {
                tensor::lemma_flat(g as int, j as int, keep as int);
            }
            new_state.push(full[t + j]);
            j += 1;
        }
        proof {
            assert(g * t + t == (g + 1) * t) by (nonlinear_arith);
            assert(g * keep + keep == (g + 1) * keep) by (nonlinear_arith);
            lemma_next_channel(g as int, channels as int);
        }
        g += 1;
        c = if c + 1 == channels {
            0
        } else {
            c + 1
        };
    }
    assert(new_state@ =~= want);
    (out, new_state)
}

proof fn lemma_next_channel(g: int, channels: int)
    requires
        0 <= g,
        0 < channels,
    ensures
        (g + 1) % channels == if g % channels + 1 == channels {
            0
        } else {
            g % channels + 1
        },
        0 <= g % channels < channels,
{
    vstd::arithmetic::div_mod::lemma_fundamental_div_mod(g, channels);
    let q = g / channels;
    let r = g % channels;
    assert(q >= 0) by {
        vstd::arithmetic::div_mod::lemma_div_pos_is_pos(g, channels);
    }
    assert(channels * q == q * channels) by (nonlinear_arith);
    if r + 1 == channels {
        assert((q + 1) * channels + 0 == g + 1) by (nonlinear_arith)
            requires
                g == q * channels + r,
                r + 1 == channels,
        ;
        vstd::arithmetic::div_mod::lemma_fundamental_div_mod_converse(g + 1, channels, q + 1, 0);
    } else {
        vstd::arithmetic::div_mod::lemma_fundamental_div_mod_converse(
            g + 1,
            channels,
            q,
            r + 1,
        );
    }
}

// ---------------------------------------------------------------------------
// what holds of it
// ---------------------------------------------------------------------------
/// Continuing from the state is the same as convolving the whole signal at once: with the
/// state that `first` leaves in front of `second`, every position of `second` reads what it
/// reads in the whole, and leaves the same state behind.
pub proof fn convolution_continues<T>(left: Seq<T>, first: Seq<T>, second: Seq<T>, k: int, ti: int)
    requires
        0 <= k,
        left.len() == kept(k),
        0 <= ti < second.len(),
    ensures
        ({
            let t1 = first.len() as int;
            let t2 = second.len() as int;
            let whole = left + (first + second);
            let state = tail(left + first, t1, k);
            &&& window(state + second, ti, k) == window(whole, t1 + ti, k)
            &&& tail(state + second, t2, k) == tail(whole, t1 + t2, k)
        }),
{
    let t1 = first.len() as int;
    let t2 = second.len() as int;
    let whole = left + (first + second);
    let state = tail(left + first, t1, k);
    assert(window(state + second, ti, k) =~= window(whole, t1 + ti, k));
    assert(tail(state + second, t2, k) =~= tail(whole, t1 + t2, k));
}

/// What the first chunk gives is what the whole gives there.
pub proof fn convolution_starts_alike<T>(left: Seq<T>, first: Seq<T>, second: Seq<T>, k: int, ti: int)
    requires
        0 <= k,
        left.len() == kept(k),
        0 <= ti < first.len(),
    ensures
        window(left + first, ti, k) == window(left + (first + second), ti, k),
{
    assert(window(left + first, ti, k) =~= window(left + (first + second), ti, k));
}

/// The convolution is causal: position `ti` reads nothing behind itself.
pub proof fn convolution_is_causal<T>(left: Seq<T>, x: Seq<T>, y: Seq<T>, k: int, ti: int)
    requires
        0 <= k,
        left.len() == kept(k),
        x.len() == y.len(),
        0 <= ti < x.len(),
        forall|i: int| 0 <= i <= ti ==> x[i] == y[i],
    ensures
        window(left + x, ti, k) == window(left + y, ti, k),
{
    assert(window(left + x, ti, k) =~= window(left + y, ti, k));
}

/// Channels do not mix: what a channel reads and leaves depends on its own chunk and its own
/// state alone.
pub proof fn channels_do_not_mix<T>(
    x: Seq<T>,
    y: Seq<T>,
    s: Seq<T>,
    r: Seq<T>,
    zero: T,
    t: int,
    k: int,
    g: int,
)
    requires
        tensor::row(x, g, t) == tensor::row(y, g, t),
        tensor::row(s, g, kept(k)) == tensor::row(r, g, kept(k)),
    ensures
        signal(x, Some(s), zero, t, k, g) == signal(y, Some(r), zero, t, k, g),
        signal(x, None, zero, t, k, g) == signal(y, None, zero, t, k, g),
{
}

} // verus!
