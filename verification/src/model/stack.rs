//! Running the stack on a chunk of tokens.
use super::cache::{Cache, LayerKind, MixerState};
use crate::mixer;
use crate::tensor;
use crate::tensor::linear;
use crate::text;
use crate::text::{push_decimal, push_text, to_owned_text};
use vstd::prelude::*;
use vstd::slice::slice_subrange;

verus! {

/// Model-level sizes.
#[derive(Debug, Clone, Copy)]
pub struct ModelConfig {
    pub vocab: usize,
    pub hidden: usize,
}

/// Result of a full forward.
#[derive(Debug, Clone)]
pub struct ModelTrace<T> {
    /// Embedding output, before any layer.
    pub embedding: Vec<T>,
    /// The output of each layer, in order.
    pub layers: Vec<Vec<T>>,
    /// Output of the final norm.
    pub final_norm: Vec<T>,
    /// `[T, vocab]`
    pub logits: Vec<T>,
    pub t: usize,
    pub vocab: usize,
}

impl<T> ModelTrace<T> {
    /// Logits at the last position, `[vocab]` -- what greedy decoding reads.
    pub fn last_logits(&self) -> (r: &[T])
        requires
            self.t > 0,
            self.logits.len() == self.t * self.vocab,
        ensures
            r@ == tensor::row(self.logits@, self.t - 1, self.vocab as int),
    {
        proof {
            tensor::lemma_row_fits(self.t - 1, self.t as int, self.vocab as int);
        }
        let n: usize = self.logits.len();
        slice_subrange(self.logits.as_slice(), (self.t - 1) * self.vocab, n)
    }
}

/// Whether the best so far of some values goes on as it must at place `i`: a value that exceeds
/// the best so far takes its place, and any other does not.
pub open spec fn best_steps<T, G: Fn(T, T) -> bool>(
    exceeds: G,
    x: Seq<T>,
    bests: Seq<int>,
    i: int,
) -> bool {
    ||| call_ensures(exceeds, (x[i], x[bests[i]]), true) && bests[i + 1] == i
    ||| call_ensures(exceeds, (x[i], x[bests[i]]), false) && bests[i + 1] == bests[i]
}

/// Whether `bests` are the places of the best of the first values, for each number of them,
/// where the first is the best to begin with.
pub open spec fn are_bests<T, G: Fn(T, T) -> bool>(
    exceeds: G,
    x: Seq<T>,
    bests: Seq<int>,
) -> bool {
    &&& bests.len() == x.len() + 1
    &&& bests[0] == 0
    &&& forall|i: int| 0 <= i < x.len() ==> #[trigger] best_steps(exceeds, x, bests, i)
}

/// Whether `best` is the argmax of some values: the first, until another exceeds it, and so on
/// from there. Without values it is 0.
///
/// Of values that are ordered it is the first of the largest. A value that exceeds nothing and
/// that nothing exceeds, as a `NaN` is, is passed over, or stays where it comes first.
pub open spec fn is_argmax<T, G: Fn(T, T) -> bool>(exceeds: G, x: Seq<T>, best: int) -> bool {
    exists|bests: Seq<int>| #[trigger] are_bests(exceeds, x, bests) && best == bests.last()
}

impl<T: Copy> ModelTrace<T> {
    /// Argmax over the last position, on ties the first maximum. `exceeds` compares two
    /// logits. Without a vocabulary it is 0.
    pub fn argmax_last<G: Fn(T, T) -> bool>(&self, exceeds: &G) -> (r: usize)
        requires
            self.t > 0,
            self.logits.len() == self.t * self.vocab,
            forall|a: T, b: T| call_requires(*exceeds, (a, b)),
        ensures
            is_argmax(
                *exceeds,
                tensor::row(self.logits@, self.t - 1, self.vocab as int),
                r as int,
            ),
            self.vocab == 0 ==> r == 0,
            self.vocab > 0 ==> r < self.vocab,
    {
        let last: &[T] = self.last_logits();
        proof {
            tensor::lemma_row_fits(self.t - 1, self.t as int, self.vocab as int);
        }
        let mut best: usize = 0;
        let ghost mut bests: Seq<int> = seq![0];
        let mut i: usize = 0;
        while i < last.len()
            invariant
                i <= last.len(),
                forall|a: T, b: T| call_requires(*exceeds, (a, b)),
                bests.len() == i + 1,
                bests[0] == 0,
                best == bests[i as int],
                i == 0 ==> best == 0,
                i > 0 ==> best < last.len(),
                forall|j: int| 0 <= j < i ==> #[trigger] best_steps(*exceeds, last@, bests, j),
            decreases last.len() - i,
        {
            let ghost before = bests;
            let held: usize = best;
            let v: T = last[i];
            let w: T = last[held];
            let larger: bool = exceeds(v, w);
            if larger {
                best = i;
            }
            proof {
                bests = bests.push(best as int);
                assert forall|j: int| 0 <= j < i + 1 implies #[trigger] best_steps(
                    *exceeds,
                    last@,
                    bests,
                    j,
                ) by {
                    if j < i {
                        assert(best_steps(*exceeds, last@, before, j));
                    }
                }
            }
            i += 1;
        }
        assert(are_bests(*exceeds, last@, bests));
        best
    }
}

/// The mixer that a layer runs: that of its kind, where its weights are there.
pub open spec fn mixer_of(kind: LayerKind, has_gdn: bool, has_attn: bool) -> Result<
    LayerKind,
    Seq<char>,
> {
    match kind {
        LayerKind::LinearAttention => if has_gdn {
            Ok(kind)
        } else {
            Err("linear_attention layer has no gated-delta-net weights"@)
        },
        LayerKind::FullAttention => if has_attn {
            Ok(kind)
        } else {
            Err("full_attention layer has no attention weights"@)
        },
    }
}

/// The mixer that a layer runs: that of its kind, where its weights are there.
pub fn mixer_kind(kind: LayerKind, has_gdn: bool, has_attn: bool) -> (r: Result<LayerKind, String>)
    ensures
        match (r, mixer_of(kind, has_gdn, has_attn)) {
            (Ok(k), Ok(s)) => k == s,
            (Err(e), Err(s)) => e@ == s,
            _ => false,
        },
{
    match kind {
        LayerKind::LinearAttention => if has_gdn {
            Ok(kind)
        } else {
            Err(to_owned_text("linear_attention layer has no gated-delta-net weights"))
        },
        LayerKind::FullAttention => if has_attn {
            Ok(kind)
        } else {
            Err(to_owned_text("full_attention layer has no attention weights"))
        },
    }
}

// ---------------------------------------------------------------------------
// embedding
// ---------------------------------------------------------------------------
/// The embedding rows of some ids, and what is wrong with the first that has none.
pub open spec fn embedded<T>(w: Seq<T>, ids: Seq<u32>, vocab: int, hidden: int) -> Result<
    Seq<T>,
    Seq<char>,
>
    decreases ids.len(),
{
    if ids.len() == 0 {
        Ok(seq![])
    } else {
        match embedded(w, ids.drop_last(), vocab, hidden) {
            Err(e) => Err(e),
            Ok(before) => if ids.last() < vocab {
                Ok(before + tensor::row(w, ids.last() as int, hidden))
            } else {
                Err(
                    "token id "@ + text::decimal(ids.last() as nat)
                        + " is out of range for vocab "@ + text::decimal(vocab as nat),
                )
            },
        }
    }
}

proof fn lemma_embed_error<T>(w: Seq<T>, ids: Seq<u32>, vocab: int, hidden: int, n: int)
    requires
        0 <= n <= ids.len(),
        embedded(w, ids.take(n), vocab, hidden) is Err,
    ensures
        embedded(w, ids, vocab, hidden) == embedded(w, ids.take(n), vocab, hidden),
    decreases ids.len(),
{
    if n == ids.len() {
        assert(ids.take(n) =~= ids);
    } else {
        assert(ids.drop_last().take(n) =~= ids.take(n));
        lemma_embed_error(w, ids.drop_last(), vocab, hidden, n);
    }
}

/// The embedding succeeds exactly where every id is in range, and gives one row for each.
pub proof fn embedding_gives_a_row_per_token<T>(w: Seq<T>, ids: Seq<u32>, vocab: int, hidden: int)
    requires
        0 <= hidden,
        forall|i: int|
            0 <= i < ids.len() && (#[trigger] ids[i]) < vocab ==> ids[i] * hidden + hidden
                <= w.len(),
    ensures
        embedded(w, ids, vocab, hidden) is Ok <==> forall|i: int|
            0 <= i < ids.len() ==> (#[trigger] ids[i]) < vocab,
        embedded(w, ids, vocab, hidden) matches Ok(e) ==> e.len() == ids.len() * hidden,
    decreases ids.len(),
{
    if ids.len() > 0 {
        let shorter = ids.drop_last();
        assert forall|i: int|
            0 <= i < shorter.len() && (#[trigger] shorter[i]) < vocab implies shorter[i] * hidden
            + hidden <= w.len() by {
            assert(shorter[i] == ids[i]);
        }
        embedding_gives_a_row_per_token(w, shorter, vocab, hidden);
        let last = ids[ids.len() - 1];
        if embedded(w, shorter, vocab, hidden) is Ok {
            assert forall|i: int| 0 <= i < shorter.len() implies (#[trigger] ids[i]) < vocab by {
                assert(shorter[i] == ids[i]);
            }
        } else {
            assert(!(forall|i: int| 0 <= i < ids.len() ==> (#[trigger] ids[i]) < vocab)) by {
                let i = choose|i: int| 0 <= i < shorter.len() && !((#[trigger] shorter[i]) < vocab);
                assert(ids[i] == shorter[i]);
            }
        }
        assert(last * hidden >= 0) by (nonlinear_arith)
            requires
                last >= 0,
                hidden >= 0,
        ;
        assert(shorter.len() * hidden + hidden == ids.len() * hidden) by (nonlinear_arith)
            requires
                ids.len() == shorter.len() + 1,
        ;
    } else {
        assert(0 * hidden == 0) by (nonlinear_arith);
    }
}

/// Whether a table of `len` values holds the rows of those ids that have one.
pub open spec fn rows_are_there(ids: Seq<u32>, vocab: int, hidden: int, len: int) -> bool {
    forall|i: int|
        0 <= i < ids.len() && (#[trigger] ids[i]) < vocab ==> ids[i] * hidden + hidden <= len
}

/// A full table holds the rows of all ids that have one.
pub proof fn a_full_table_holds_the_rows(ids: Seq<u32>, vocab: int, hidden: int, len: int)
    requires
        0 <= hidden,
        len >= vocab * hidden,
    ensures
        rows_are_there(ids, vocab, hidden, len),
{
    assert forall|i: int| 0 <= i < ids.len() && (#[trigger] ids[i]) < vocab implies ids[i] * hidden
        + hidden <= len by {
        tensor::lemma_row_fits(ids[i] as int, vocab, hidden);
    }
}

/// Look up embedding rows for `input_ids`.
pub fn embed<T: Copy>(w: &[T], input_ids: &[u32], vocab: usize, hidden: usize) -> (r: Result<
    Vec<T>,
    String,
>)
    requires
        rows_are_there(input_ids@, vocab as int, hidden as int, w.len() as int),
    ensures
        match (r, embedded(w@, input_ids@, vocab as int, hidden as int)) {
            (Ok(e), Ok(s)) => e@ == s,
            (Err(e), Err(s)) => e@ == s,
            _ => false,
        },
{
    let ghost ids = input_ids@;
    let mut out: Vec<T> = Vec::new();
    let mut i: usize = 0;
    assert(ids.take(0) =~= seq![]);
    while i < input_ids.len()
        invariant
            i <= input_ids.len(),
            ids == input_ids@,
            forall|j: int|
                0 <= j < input_ids.len() && (#[trigger] input_ids[j]) < vocab ==> input_ids[j]
                    * hidden + hidden <= w.len(),
            embedded(w@, ids.take(i as int), vocab as int, hidden as int) == Ok::<_, Seq<char>>(
                out@,
            ),
        decreases input_ids.len() - i,
    {
        proof {
            assert(ids.take(i + 1).drop_last() =~= ids.take(i as int));
            assert(ids.take(i + 1).last() == ids[i as int]);
        }
        let id: u32 = input_ids[i];
        if id as u64 >= vocab as u64 {
            let mut e = to_owned_text("token id ");
            push_decimal(&mut e, id as u128);
            push_text(&mut e, " is out of range for vocab ");
            push_decimal(&mut e, vocab as u128);
            proof {
                lemma_embed_error(w@, ids, vocab as int, hidden as int, i + 1);
            }
            return Err(e);
        }
        let row_of: usize = id as usize;
        assert(input_ids[i as int] * hidden + hidden <= w.len());
        assert(0 <= row_of * hidden) by (nonlinear_arith)
            requires
                0 <= row_of,
                0 <= hidden,
        ;
        let ghost before = out@;
        let ghost whole = tensor::row(w@, row_of as int, hidden as int);
        let mut j: usize = 0;
        assert(out@ =~= before + whole.take(0));
        while j < hidden
            invariant
                j <= hidden,
                0 <= row_of * hidden,
                row_of * hidden + hidden <= w.len(),
                whole == tensor::row(w@, row_of as int, hidden as int),
                out@ == before + whole.take(j as int),
            decreases hidden - j,
        {
            out.push(w[row_of * hidden + j]);
            j += 1;
            assert(out@ =~= before + whole.take(j as int));
        }
        assert(whole.take(j as int) =~= whole);
        i += 1;
    }
    assert(ids.take(i as int) =~= ids);
    Ok(out)
}

// ---------------------------------------------------------------------------
// the layers
// ---------------------------------------------------------------------------
/// Whether a layer makes `out` and `after` of its input and its state.
pub open spec fn layer_gives<
    T,
    L: Fn(usize, usize, &[T], &MixerState<T>) -> Result<(Vec<T>, MixerState<T>), String>,
>(
    layer: L,
    i: int,
    start: usize,
    h: Seq<T>,
    before: MixerState<T>,
    out: Seq<T>,
    after: MixerState<T>,
) -> bool {
    exists|a: &[T], r: (Vec<T>, MixerState<T>)|
        {
            &&& a@ == h
            &&& r.0@ == out
            &&& r.1 == after
            &&& #[trigger] call_ensures(
                layer,
                (i as usize, start, a, &before),
                Ok::<(Vec<T>, MixerState<T>), String>(r),
            )
        }
}

/// Whether a layer fails on its input and its state, with that message.
pub open spec fn layer_fails<
    T,
    L: Fn(usize, usize, &[T], &MixerState<T>) -> Result<(Vec<T>, MixerState<T>), String>,
>(
    layer: L,
    i: int,
    start: usize,
    h: Seq<T>,
    before: MixerState<T>,
    message: Seq<char>,
) -> bool {
    exists|a: &[T], e: String|
        {
            &&& a@ == h
            &&& e@ == message
            &&& #[trigger] call_ensures(
                layer,
                (i as usize, start, a, &before),
                Err::<(Vec<T>, MixerState<T>), String>(e),
            )
        }
}

/// What layer `i` reads: the embedding, or what the layer before it made.
pub open spec fn layer_input<T>(embedding: Seq<T>, outs: Seq<Seq<T>>, i: int) -> Seq<T> {
    if i <= 0 {
        embedding
    } else {
        outs[i - 1]
    }
}

/// Whether the first `n` layers, one after the other, make `outs` and `after`.
pub open spec fn layers_give<
    T,
    L: Fn(usize, usize, &[T], &MixerState<T>) -> Result<(Vec<T>, MixerState<T>), String>,
>(
    layer: L,
    start: usize,
    embedding: Seq<T>,
    before: Seq<MixerState<T>>,
    outs: Seq<Seq<T>>,
    after: Seq<MixerState<T>>,
    n: int,
) -> bool {
    &&& outs.len() == n
    &&& after.len() == before.len()
    &&& forall|i: int|
        0 <= i < n ==> layer_gives(
            layer,
            i,
            start,
            layer_input(embedding, outs, i),
            before[i],
            #[trigger] outs[i],
            after[i],
        )
    &&& forall|i: int| n <= i < before.len() ==> #[trigger] after[i] == before[i]
}

/// The contents of a list of tensors.
pub open spec fn tensors<T>(v: Seq<Vec<T>>) -> Seq<Seq<T>> {
    v.map_values(|x: Vec<T>| x@)
}

/// The error of layer `i`.
pub open spec fn layer_error(i: int, message: Seq<char>) -> Seq<char> {
    "layer "@ + text::decimal(i as nat) + ": "@ + message
}

/// Runs the layers, one after the other.
fn run_layers<
    T: Copy,
    L: Fn(usize, usize, &[T], &MixerState<T>) -> Result<(Vec<T>, MixerState<T>), String>,
>(
    embedding: &Vec<T>,
    states: &mut Vec<MixerState<T>>,
    start: usize,
    layer: &L,
) -> (r: Result<Vec<Vec<T>>, String>)
    requires
        forall|i: usize, s: usize, h: &[T], m: &MixerState<T>|
            call_requires(*layer, (i, s, h, m)),
        forall|
            i: usize,
            s: usize,
            h: &[T],
            m: &MixerState<T>,
            y: (Vec<T>, MixerState<T>),
        | #[trigger]
            call_ensures(*layer, (i, s, h, m), Ok::<(Vec<T>, MixerState<T>), String>(y))
                ==> y.0.len() == h.len(),
    ensures
        match r {
            Ok(outs) => layers_give(
                *layer,
                start,
                embedding@,
                old(states)@,
                tensors(outs@),
                final(states)@,
                old(states).len() as int,
            ) && forall|i: int| 0 <= i < outs.len() ==> (#[trigger] outs[i]).len()
                == embedding.len(),
            Err(e) => exists|n: int, outs: Seq<Seq<T>>, message: Seq<char>|
                {
                    &&& 0 <= n < old(states).len()
                    &&& #[trigger] layers_give(
                        *layer,
                        start,
                        embedding@,
                        old(states)@,
                        outs,
                        final(states)@,
                        n,
                    )
                    &&& #[trigger] layer_fails(
                        *layer,
                        n,
                        start,
                        layer_input(embedding@, outs, n),
                        old(states)@[n],
                        message,
                    )
                    &&& e@ == layer_error(n, message)
                },
        },
{
    let ghost before = states@;
    let mut outs: Vec<Vec<T>> = Vec::new();
    let mut i: usize = 0;
    assert(tensors(outs@) =~= seq![]);
    while i < states.len()
        invariant
            i <= states.len(),
            states.len() == before.len(),
            before == old(states)@,
            forall|i: usize, s: usize, h: &[T], m: &MixerState<T>|
                call_requires(*layer, (i, s, h, m)),
            forall|
                i: usize,
                s: usize,
                h: &[T],
                m: &MixerState<T>,
                y: (Vec<T>, MixerState<T>),
            | #[trigger]
                call_ensures(*layer, (i, s, h, m), Ok::<(Vec<T>, MixerState<T>), String>(y))
                    ==> y.0.len() == h.len(),
            layers_give(
                *layer,
                start,
                embedding@,
                before,
                tensors(outs@),
                states@,
                i as int,
            ),
            outs.len() == i,
            forall|j: int| 0 <= j < i ==> (#[trigger] outs[j]).len() == embedding.len(),
        decreases states.len() - i,
    {
        let ghost so_far = tensors(outs@);
        let h: &[T] = if i == 0 {
            embedding.as_slice()
        } else {
            outs[i - 1].as_slice()
        };
        assert(h@ == layer_input(embedding@, so_far, i as int)) by {
            if i > 0 {
                assert(so_far[i - 1] == outs@[i - 1]@);
            }
        }
        let result = layer(i, start, h, &states[i]);
        match result {
            Ok((out, next)) => {
                let ghost made = (out, next);
                let ghost now = states@;
                proof {
                    assert(states@[i as int] == before[i as int]);
                    assert(call_ensures(
                        *layer,
                        (i, start, h, &before[i as int]),
                        Ok::<(Vec<T>, MixerState<T>), String>(made),
                    ));
                    assert(layer_gives(
                        *layer,
                        i as int,
                        start,
                        h@,
                        before[i as int],
                        made.0@,
                        made.1,
                    ));
                }
                states.set(i, next);
                outs.push(out);
                proof {
                    let t = tensors(outs@);
                    assert(t =~= so_far.push(made.0@));
                    assert forall|j: int| 0 <= j < i + 1 implies layer_gives(
                        *layer,
                        j,
                        start,
                        layer_input(embedding@, t, j),
                        before[j],
                        #[trigger] t[j],
                        states@[j],
                    ) by {
                        if j < i {
                            assert(t[j] == so_far[j]);
                            assert(layer_input(embedding@, t, j) == layer_input(
                                embedding@,
                                so_far,
                                j,
                            ));
                            assert(states@[j] == now[j]);
                        } else {
                            assert(layer_input(embedding@, t, j) == layer_input(
                                embedding@,
                                so_far,
                                j,
                            ));
                        }
                    }
                }
            },
            Err(e) => {
                let mut message = to_owned_text("layer ");
                push_decimal(&mut message, i as u128);
                push_text(&mut message, ": ");
                push_text(&mut message, e.as_str());
                proof {
                    assert(states@[i as int] == before[i as int]);
                    assert(call_ensures(
                        *layer,
                        (i, start, h, &before[i as int]),
                        Err::<(Vec<T>, MixerState<T>), String>(e),
                    ));
                    assert(layer_fails(
                        *layer,
                        i as int,
                        start,
                        layer_input(embedding@, so_far, i as int),
                        before[i as int],
                        e@,
                    ));
                    assert(layers_give(
                        *layer,
                        start,
                        embedding@,
                        before,
                        so_far,
                        states@,
                        i as int,
                    ));
                    assert(message@ == layer_error(i as int, e@));
                }
                return Err(message);
            },
        }
        i += 1;
    }
    Ok(outs)
}

// ---------------------------------------------------------------------------
// a chunk
// ---------------------------------------------------------------------------
/// Whether the final norm makes `y` of `h`.
pub open spec fn final_norm_gives<T, N: Fn(&[T]) -> Vec<T>>(norm: N, h: Seq<T>, y: Seq<T>) -> bool {
    exists|a: &[T], r: Vec<T>|
        a@ == h && r@ == y && #[trigger] call_ensures(norm, (a,), r)
}

/// Whether a trace is that of a chunk at absolute position `start`.
pub open spec fn is_trace<
    T,
    L: Fn(usize, usize, &[T], &MixerState<T>) -> Result<(Vec<T>, MixerState<T>), String>,
    N: Fn(&[T]) -> Vec<T>,
    D: Fn(&[T], &[T], usize) -> T,
>(
    mcfg: ModelConfig,
    embed_tokens: Seq<T>,
    lm_head: Seq<T>,
    start: usize,
    tokens: Seq<u32>,
    before: Seq<MixerState<T>>,
    after: Seq<MixerState<T>>,
    layer: L,
    norm: N,
    dot: D,
    tr: ModelTrace<T>,
) -> bool {
    let outs = tensors(tr.layers@);
    &&& tr.t == tokens.len()
    &&& tr.vocab == mcfg.vocab
    &&& embedded(embed_tokens, tokens, mcfg.vocab as int, mcfg.hidden as int) == Ok::<
        _,
        Seq<char>,
    >(tr.embedding@)
    &&& layers_give(layer, start, tr.embedding@, before, outs, after, before.len() as int)
    &&& final_norm_gives(
        norm,
        layer_input(tr.embedding@, outs, before.len() as int),
        tr.final_norm@,
    )
    &&& mixer::is_product(
        dot,
        lm_head,
        tr.final_norm@,
        tokens.len() as int,
        mcfg.hidden as int,
        mcfg.vocab as int,
        tr.logits@,
    )
}

/// Whether the sizes of a call can be counted.
pub open spec fn sizes_fit(mcfg: ModelConfig, t: int) -> bool {
    t * mcfg.hidden <= usize::MAX && t * mcfg.vocab <= usize::MAX
}

/// Runs a chunk at absolute position `start`, from `states`, which are advanced in place.
fn run_chunk<
    T: Copy,
    L: Fn(usize, usize, &[T], &MixerState<T>) -> Result<(Vec<T>, MixerState<T>), String>,
    N: Fn(&[T]) -> Vec<T>,
    D: Fn(&[T], &[T], usize) -> T,
>(
    mcfg: &ModelConfig,
    embed_tokens: &[T],
    lm_head: &[T],
    start: usize,
    tokens: &[u32],
    states: &mut Vec<MixerState<T>>,
    layer: &L,
    norm: &N,
    dot: &D,
) -> (r: Result<ModelTrace<T>, String>)
    requires
        rows_are_there(
            tokens@,
            mcfg.vocab as int,
            mcfg.hidden as int,
            embed_tokens.len() as int,
        ),
        lm_head.len() == mcfg.vocab * mcfg.hidden,
        sizes_fit(*mcfg, tokens.len() as int),
        forall|i: usize, s: usize, h: &[T], m: &MixerState<T>|
            call_requires(*layer, (i, s, h, m)),
        forall|
            i: usize,
            s: usize,
            h: &[T],
            m: &MixerState<T>,
            y: (Vec<T>, MixerState<T>),
        | #[trigger]
            call_ensures(*layer, (i, s, h, m), Ok::<(Vec<T>, MixerState<T>), String>(y))
                ==> y.0.len() == h.len(),
        forall|h: &[T]| call_requires(*norm, (h,)),
        forall|h: &[T], y: Vec<T>| #[trigger] call_ensures(*norm, (h,), y) ==> y.len() == h.len(),
        forall|a: &[T], c: &[T], o: usize| call_requires(*dot, (a, c, o)),
    ensures
        match r {
            Ok(tr) => {
                &&& is_trace(
                    *mcfg,
                    embed_tokens@,
                    lm_head@,
                    start,
                    tokens@,
                    old(states)@,
                    final(states)@,
                    *layer,
                    *norm,
                    *dot,
                    tr,
                )
                &&& tr.layers.len() == old(states).len()
                &&& exists|h: &[T], y: Vec<T>|
                    {
                        &&& h@ == if old(states).len() == 0 {
                            tr.embedding@
                        } else {
                            tr.layers@[old(states).len() - 1]@
                        }
                        &&& y@ == tr.final_norm@
                        &&& #[trigger] call_ensures(*norm, (h,), y)
                    }
            },
            Err(e) => chunk_fails(
                *mcfg,
                embed_tokens@,
                start,
                tokens@,
                old(states)@,
                final(states)@,
                *layer,
                e@,
            ),
        },
{
    proof {
        embedding_gives_a_row_per_token(
            embed_tokens@,
            tokens@,
            mcfg.vocab as int,
            mcfg.hidden as int,
        );
    }
    let embedding = match embed(embed_tokens, tokens, mcfg.vocab, mcfg.hidden) {
        Ok(e) => e,
        Err(e) => {
            return Err(e);
        },
    };
    let outs = match run_layers(&embedding, states, start, layer) {
        Ok(o) => o,
        Err(e) => {
            return Err(e);
        },
    };
    let n: usize = outs.len();
    let h: &[T] = if n == 0 {
        embedding.as_slice()
    } else {
        outs[n - 1].as_slice()
    };
    assert(h@ == layer_input(embedding@, tensors(outs@), n as int)) by {
        if n > 0 {
            assert(tensors(outs@)[n - 1] == outs@[n - 1]@);
        }
    }
    let normed: Vec<T> = norm(h);
    assert(call_ensures(*norm, (h,), normed));
    assert(final_norm_gives(*norm, h@, normed@));
    let t: usize = tokens.len();
    let logits = linear(lm_head, normed.as_slice(), t, mcfg.hidden, mcfg.vocab, dot);
    Ok(
        ModelTrace { embedding, layers: outs, final_norm: normed, logits, t, vocab: mcfg.vocab },
    )
}

/// Whether a chunk fails with that message: at the embedding, which leaves the states as they
/// were, or in a layer, which leaves those of the layers in front of it advanced.
pub open spec fn chunk_fails<
    T,
    L: Fn(usize, usize, &[T], &MixerState<T>) -> Result<(Vec<T>, MixerState<T>), String>,
>(
    mcfg: ModelConfig,
    embed_tokens: Seq<T>,
    start: usize,
    tokens: Seq<u32>,
    before: Seq<MixerState<T>>,
    after: Seq<MixerState<T>>,
    layer: L,
    message: Seq<char>,
) -> bool {
    match embedded(embed_tokens, tokens, mcfg.vocab as int, mcfg.hidden as int) {
        Err(e) => message == e && after == before,
        Ok(embedding) => exists|n: int, outs: Seq<Seq<T>>, inner: Seq<char>|
            {
                &&& 0 <= n < before.len()
                &&& #[trigger] layers_give(layer, start, embedding, before, outs, after, n)
                &&& #[trigger] layer_fails(
                    layer,
                    n,
                    start,
                    layer_input(embedding, outs, n),
                    before[n],
                    inner,
                )
                &&& message == layer_error(n, inner)
            },
    }
}

/// The message for an embedding of the wrong size.
pub open spec fn embedding_fault(values: nat, wanted: nat) -> Seq<char> {
    "embed_tokens is "@ + text::decimal(values) + " values, vocab*hidden = "@ + text::decimal(
        wanted,
    )
}

/// The message for a cache of another model.
pub open spec fn cache_fault(states: nat, layers: nat) -> Seq<char> {
    "cache holds "@ + text::decimal(states) + " layer states but the model has "@ + text::decimal(
        layers,
    ) + " layers"@
}

/// Run the whole model on one sequence, from the states that a sequence starts from.
///
/// `input_ids` is the full token sequence; the batch is always 1. The first position is 0.
pub fn forward<
    T: Copy,
    L: Fn(usize, usize, &[T], &MixerState<T>) -> Result<(Vec<T>, MixerState<T>), String>,
    N: Fn(&[T]) -> Vec<T>,
    D: Fn(&[T], &[T], usize) -> T,
>(
    mcfg: &ModelConfig,
    embed_tokens: &[T],
    lm_head: &[T],
    fresh: Vec<MixerState<T>>,
    input_ids: &[u32],
    layer: &L,
    norm: &N,
    dot: &D,
) -> (r: Result<ModelTrace<T>, String>)
    requires
        mcfg.vocab * mcfg.hidden <= usize::MAX,
        lm_head.len() == mcfg.vocab * mcfg.hidden,
        sizes_fit(*mcfg, input_ids.len() as int),
        forall|i: usize, s: usize, h: &[T], m: &MixerState<T>|
            call_requires(*layer, (i, s, h, m)),
        forall|
            i: usize,
            s: usize,
            h: &[T],
            m: &MixerState<T>,
            y: (Vec<T>, MixerState<T>),
        | #[trigger]
            call_ensures(*layer, (i, s, h, m), Ok::<(Vec<T>, MixerState<T>), String>(y))
                ==> y.0.len() == h.len(),
        forall|h: &[T]| call_requires(*norm, (h,)),
        forall|h: &[T], y: Vec<T>| #[trigger] call_ensures(*norm, (h,), y) ==> y.len() == h.len(),
        forall|a: &[T], c: &[T], o: usize| call_requires(*dot, (a, c, o)),
    ensures
        match r {
            Ok(tr) => {
                &&& input_ids.len() > 0
                &&& embed_tokens.len() == mcfg.vocab * mcfg.hidden
                &&& tr.layers.len() == fresh.len()
                &&& exists|h: &[T], y: Vec<T>|
                    {
                        &&& h@ == if fresh.len() == 0 {
                            tr.embedding@
                        } else {
                            tr.layers@[fresh.len() - 1]@
                        }
                        &&& y@ == tr.final_norm@
                        &&& #[trigger] call_ensures(*norm, (h,), y)
                    }
                &&& exists|after: Seq<MixerState<T>>| #[trigger]
                    is_trace(
                        *mcfg,
                        embed_tokens@,
                        lm_head@,
                        0,
                        input_ids@,
                        fresh@,
                        after,
                        *layer,
                        *norm,
                        *dot,
                        tr,
                    )
            },
            Err(e) => if input_ids.len() == 0 {
                e@ == "empty input"@
            } else if embed_tokens.len() != mcfg.vocab * mcfg.hidden {
                e@ == embedding_fault(
                    embed_tokens.len() as nat,
                    (mcfg.vocab * mcfg.hidden) as nat,
                )
            } else {
                exists|after: Seq<MixerState<T>>| #[trigger]
                    chunk_fails(
                        *mcfg,
                        embed_tokens@,
                        0,
                        input_ids@,
                        fresh@,
                        after,
                        *layer,
                        e@,
                    )
            },
        },
{
    if input_ids.len() == 0 {
        return Err(to_owned_text("empty input"));
    }
    let wanted: usize = mcfg.vocab * mcfg.hidden;
    if wanted != embed_tokens.len() {
        let mut e = to_owned_text("embed_tokens is ");
        push_decimal(&mut e, embed_tokens.len() as u128);
        push_text(&mut e, " values, vocab*hidden = ");
        push_decimal(&mut e, wanted as u128);
        return Err(e);
    }
    let mut states = fresh;
    proof {
        a_full_table_holds_the_rows(
            input_ids@,
            mcfg.vocab as int,
            mcfg.hidden as int,
            embed_tokens.len() as int,
        );
    }
    run_chunk(mcfg, embed_tokens, lm_head, 0, input_ids, &mut states, layer, norm, dot)
}

/// Run the model on a **new chunk** of tokens, continuing from `cache`.
///
/// The first call is prefill: pass the whole prompt and the cache grows to cover it. Every
/// later call passes a single token. The layers are told the chunk's first absolute
/// position, which is the length of the cache and not zero.
pub fn forward_cached<
    T: Copy,
    L: Fn(usize, usize, &[T], &MixerState<T>) -> Result<(Vec<T>, MixerState<T>), String>,
    N: Fn(&[T]) -> Vec<T>,
    D: Fn(&[T], &[T], usize) -> T,
>(
    mcfg: &ModelConfig,
    embed_tokens: &[T],
    lm_head: &[T],
    layers: usize,
    cache: &mut Cache<T>,
    tokens: &[u32],
    layer: &L,
    norm: &N,
    dot: &D,
) -> (r: Result<ModelTrace<T>, String>)
    requires
        rows_are_there(
            tokens@,
            mcfg.vocab as int,
            mcfg.hidden as int,
            embed_tokens.len() as int,
        ),
        lm_head.len() == mcfg.vocab * mcfg.hidden,
        sizes_fit(*mcfg, tokens.len() as int),
        old(cache).len + tokens.len() <= usize::MAX,
        forall|i: usize, s: usize, h: &[T], m: &MixerState<T>|
            call_requires(*layer, (i, s, h, m)),
        forall|
            i: usize,
            s: usize,
            h: &[T],
            m: &MixerState<T>,
            y: (Vec<T>, MixerState<T>),
        | #[trigger]
            call_ensures(*layer, (i, s, h, m), Ok::<(Vec<T>, MixerState<T>), String>(y))
                ==> y.0.len() == h.len(),
        forall|h: &[T]| call_requires(*norm, (h,)),
        forall|h: &[T], y: Vec<T>| #[trigger] call_ensures(*norm, (h,), y) ==> y.len() == h.len(),
        forall|a: &[T], c: &[T], o: usize| call_requires(*dot, (a, c, o)),
    ensures
        match r {
            Ok(tr) => {
                &&& tokens.len() > 0
                &&& old(cache).states.len() == layers
                &&& final(cache).len == old(cache).len + tokens.len()
                &&& tr.layers.len() == layers
                &&& exists|h: &[T], y: Vec<T>|
                    {
                        &&& h@ == if layers == 0 {
                            tr.embedding@
                        } else {
                            tr.layers@[layers - 1]@
                        }
                        &&& y@ == tr.final_norm@
                        &&& #[trigger] call_ensures(*norm, (h,), y)
                    }
                &&& is_trace(
                    *mcfg,
                    embed_tokens@,
                    lm_head@,
                    old(cache).len,
                    tokens@,
                    old(cache).states@,
                    final(cache).states@,
                    *layer,
                    *norm,
                    *dot,
                    tr,
                )
            },
            Err(e) => {
                &&& final(cache).len == old(cache).len
                &&& if tokens.len() == 0 {
                    e@ == "empty chunk"@ && final(cache).states@ == old(cache).states@
                } else if old(cache).states.len() != layers {
                    &&& e@ == cache_fault(old(cache).states.len() as nat, layers as nat)
                    &&& final(cache).states@ == old(cache).states@
                } else {
                    chunk_fails(
                        *mcfg,
                        embed_tokens@,
                        old(cache).len,
                        tokens@,
                        old(cache).states@,
                        final(cache).states@,
                        *layer,
                        e@,
                    )
                }
            },
        },
{
    let t: usize = tokens.len();
    if t == 0 {
        return Err(to_owned_text("empty chunk"));
    }
    let start: usize = cache.len;
    if cache.states.len() != layers {
        let mut e = to_owned_text("cache holds ");
        push_decimal(&mut e, cache.states.len() as u128);
        push_text(&mut e, " layer states but the model has ");
        push_decimal(&mut e, layers as u128);
        push_text(&mut e, " layers");
        return Err(e);
    }
    let tr = run_chunk(
        mcfg,
        embed_tokens,
        lm_head,
        start,
        tokens,
        &mut cache.states,
        layer,
        norm,
        dot,
    );
    match tr {
        Ok(tr) => {
            cache.len = start + t;
            Ok(tr)
        },
        Err(e) => Err(e),
    }
}

} // verus!
