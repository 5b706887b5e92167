//! What each part of a run of the model is made of, in terms of the tokens, the weights and the
//! layers.
use super::cache::MixerState;
use super::stack;
use super::stack::{ModelConfig, ModelTrace};
use crate::tensor;
use crate::text;
use vstd::prelude::*;

verus! {

proof fn lemma_embedding_row<T>(
    w: Seq<T>,
    ids: Seq<u32>,
    vocab: int,
    hidden: int,
    e: Seq<T>,
    i: int,
)
    requires
        0 <= hidden,
        stack::rows_are_there(ids, vocab, hidden, w.len() as int),
        stack::embedded(w, ids, vocab, hidden) == Ok::<Seq<T>, Seq<char>>(e),
        0 <= i < ids.len(),
    ensures
        ids[i] < vocab,
        e.len() == ids.len() * hidden,
        0 <= i * hidden,
        i * hidden + hidden <= e.len(),
        e.subrange(i * hidden, i * hidden + hidden) == w.subrange(
            ids[i] * hidden,
            ids[i] * hidden + hidden,
        ),
    decreases ids.len(),
{
    let shorter = ids.drop_last();
    let last = ids.len() - 1;
    assert forall|j: int| 0 <= j < shorter.len() && (#[trigger] shorter[j]) < vocab implies shorter[j]
        * hidden + hidden <= w.len() by {
        assert(ids[j] == shorter[j]);
    }
    stack::embedding_gives_a_row_per_token(w, ids, vocab, hidden);
    stack::embedding_gives_a_row_per_token(w, shorter, vocab, hidden);
    let e1 = stack::embedded(w, shorter, vocab, hidden)->Ok_0;
    let row = tensor::row(w, ids[last] as int, hidden);
    assert(e == e1 + row);
    tensor::lemma_row_fits(i, ids.len() as int, hidden);
    if i < last {
        lemma_embedding_row(w, shorter, vocab, hidden, e1, i);
        tensor::lemma_row_fits(i, last, hidden);
        assert(e.subrange(i * hidden, i * hidden + hidden) =~= e1.subrange(
            i * hidden,
            i * hidden + hidden,
        ));
    } else {
        assert(ids[last] * hidden >= 0) by (nonlinear_arith)
            requires
                ids[last] >= 0,
                hidden >= 0,
        ;
        assert(e.subrange(i * hidden, i * hidden + hidden) =~= row);
    }
}

/// **What a run is.** The embedding has, for each token, that token's row of the table; there is an
/// output for each layer; and the final norm reads what the last layer gave.
pub proof fn a_run_is_embedding_layers_and_norm<
    T,
    L: Fn(usize, usize, &[T], &MixerState<T>) -> Result<(Vec<T>, MixerState<T>), String>,
    N: Fn(&[T]) -> Vec<T>,
    D: Fn(&[T], &[T], usize) -> T,
>(
    mcfg: ModelConfig,
    embed_tokens: Seq<T>,
    lm_head: Seq<T>,
    start: usize,
    tokens: Seq<u32>,
    before: Seq<MixerState<T>>,
    after: Seq<MixerState<T>>,
    layer: L,
    norm: N,
    dot: D,
    tr: ModelTrace<T>,
)
    requires
        stack::is_trace(
            mcfg,
            embed_tokens,
            lm_head,
            start,
            tokens,
            before,
            after,
            layer,
            norm,
            dot,
            tr,
        ),
        stack::rows_are_there(
            tokens,
            mcfg.vocab as int,
            mcfg.hidden as int,
            embed_tokens.len() as int,
        ),
    ensures
        tr.t == tokens.len(),
        tr.vocab == mcfg.vocab,
        tr.embedding@.len() == tokens.len() * mcfg.hidden,
        forall|i: int|
            #![trigger tokens[i]]
            0 <= i < tokens.len() ==> tokens[i] < mcfg.vocab && tr.embedding@.subrange(
                i * mcfg.hidden,
                i * mcfg.hidden + mcfg.hidden,
            ) == embed_tokens.subrange(
                tokens[i] * mcfg.hidden,
                tokens[i] * mcfg.hidden + mcfg.hidden,
            ),
        tr.layers@.len() == before.len(),
        after.len() == before.len(),
        exists|h: &[T], y: Vec<T>|
            {
                &&& h@ == if before.len() == 0 {
                    tr.embedding@
                } else {
                    tr.layers@[before.len() - 1]@
                }
                &&& y@ == tr.final_norm@
                &&& #[trigger] call_ensures(norm, (h,), y)
            },
{
    let outs = stack::tensors(tr.layers@);
    let hidden = mcfg.hidden as int;
    let vocab = mcfg.vocab as int;
    stack::embedding_gives_a_row_per_token(embed_tokens, tokens, vocab, hidden);
    assert forall|i: int| #![trigger tokens[i]] 0 <= i < tokens.len() implies tokens[i]
        < mcfg.vocab && tr.embedding@.subrange(i * mcfg.hidden, i * mcfg.hidden + mcfg.hidden)
        == embed_tokens.subrange(tokens[i] * mcfg.hidden, tokens[i] * mcfg.hidden + mcfg.hidden) by {
        lemma_embedding_row(embed_tokens, tokens, vocab, hidden, tr.embedding@, i);
    }
    assert forall|n: int| 0 <= n < before.len() implies #[trigger] outs[n] == tr.layers@[n]@ by {}
    if before.len() > 0 {
        assert(outs[before.len() - 1] == tr.layers@[before.len() - 1]@);
    }
}

/// **What a layer reads.** Each layer reads what the one before it gave, the first the embedding,
/// with the position of the chunk and its own state, and leaves its own state.
pub proof fn each_layer_reads_the_one_before<
    T,
    L: Fn(usize, usize, &[T], &MixerState<T>) -> Result<(Vec<T>, MixerState<T>), String>,
    N: Fn(&[T]) -> Vec<T>,
    D: Fn(&[T], &[T], usize) -> T,
>(
    mcfg: ModelConfig,
    embed_tokens: Seq<T>,
    lm_head: Seq<T>,
    start: usize,
    tokens: Seq<u32>,
    before: Seq<MixerState<T>>,
    after: Seq<MixerState<T>>,
    layer: L,
    norm: N,
    dot: D,
    tr: ModelTrace<T>,
    n: int,
)
    requires
        stack::is_trace(
            mcfg,
            embed_tokens,
            lm_head,
            start,
            tokens,
            before,
            after,
            layer,
            norm,
            dot,
            tr,
        ),
        0 <= n < before.len(),
    ensures
        exists|h: &[T], r: (Vec<T>, MixerState<T>)|
            {
                &&& h@ == if n == 0 {
                    tr.embedding@
                } else {
                    tr.layers@[n - 1]@
                }
                &&& r.0@ == tr.layers@[n]@
                &&& r.1 == after[n]
                &&& #[trigger] call_ensures(
                    layer,
                    (n as usize, start, h, &before[n]),
                    Ok::<(Vec<T>, MixerState<T>), String>(r),
                )
            },
{
    let outs = stack::tensors(tr.layers@);
    assert(outs[n] == tr.layers@[n]@);
    if n > 0 {
        assert(outs[n - 1] == tr.layers@[n - 1]@);
    }
    assert(stack::layer_gives(
        layer,
        n,
        start,
        stack::layer_input(tr.embedding@, outs, n),
        before[n],
        outs[n],
        after[n],
    ));
}

/// **The logits.** The logit of output `o` at position `r` is made of row `o` of the head and of row
/// `r` of what the final norm gave.
pub proof fn logits_are_of_the_final_norm<
    T,
    L: Fn(usize, usize, &[T], &MixerState<T>) -> Result<(Vec<T>, MixerState<T>), String>,
    N: Fn(&[T]) -> Vec<T>,
    D: Fn(&[T], &[T], usize) -> T,
>(
    mcfg: ModelConfig,
    embed_tokens: Seq<T>,
    lm_head: Seq<T>,
    start: usize,
    tokens: Seq<u32>,
    before: Seq<MixerState<T>>,
    after: Seq<MixerState<T>>,
    layer: L,
    norm: N,
    dot: D,
    tr: ModelTrace<T>,
    r: int,
    o: int,
)
    requires
        stack::is_trace(
            mcfg,
            embed_tokens,
            lm_head,
            start,
            tokens,
            before,
            after,
            layer,
            norm,
            dot,
            tr,
        ),
        0 <= r < tokens.len(),
        0 <= o < mcfg.vocab,
    ensures
        tr.logits@.len() == tokens.len() * mcfg.vocab,
        exists|a: &[T], c: &[T]|
            {
                &&& a@ == lm_head.subrange(o * mcfg.hidden, o * mcfg.hidden + mcfg.hidden)
                &&& c@ == tr.final_norm@.subrange(r * mcfg.hidden, r * mcfg.hidden + mcfg.hidden)
                &&& #[trigger] call_ensures(dot, (a, c, o as usize), tr.logits@[r * mcfg.vocab + o])
            },
{
    crate::mixer::trace_laws::lemma_product_value(
        dot,
        lm_head,
        tr.final_norm@,
        tokens.len() as int,
        mcfg.hidden as int,
        mcfg.vocab as int,
        tr.logits@,
        r,
        o,
    );
}

/// **The head sees the last layer and nothing else.** Two runs whose last layers gave the same,
/// whatever the tokens, the states and the layers were, have the same logits, where the norm and
/// a cell of the head always make the same of the same.
pub proof fn the_last_layer_decides_the_logits<
    T,
    L: Fn(usize, usize, &[T], &MixerState<T>) -> Result<(Vec<T>, MixerState<T>), String>,
    M: Fn(usize, usize, &[T], &MixerState<T>) -> Result<(Vec<T>, MixerState<T>), String>,
    N: Fn(&[T]) -> Vec<T>,
    D: Fn(&[T], &[T], usize) -> T,
>(
    mcfg: ModelConfig,
    lm_head: Seq<T>,
    norm: N,
    dot: D,
    embed1: Seq<T>,
    start1: usize,
    tokens1: Seq<u32>,
    before1: Seq<MixerState<T>>,
    after1: Seq<MixerState<T>>,
    layer1: L,
    tr1: ModelTrace<T>,
    embed2: Seq<T>,
    start2: usize,
    tokens2: Seq<u32>,
    before2: Seq<MixerState<T>>,
    after2: Seq<MixerState<T>>,
    layer2: M,
    tr2: ModelTrace<T>,
)
    requires
        stack::is_trace(
            mcfg,
            embed1,
            lm_head,
            start1,
            tokens1,
            before1,
            after1,
            layer1,
            norm,
            dot,
            tr1,
        ),
        stack::is_trace(
            mcfg,
            embed2,
            lm_head,
            start2,
            tokens2,
            before2,
            after2,
            layer2,
            norm,
            dot,
            tr2,
        ),
        tokens1.len() == tokens2.len(),
        tr1.layers@.len() > 0,
        tr2.layers@.len() > 0,
        tr1.layers@.last()@ == tr2.layers@.last()@,
        forall|h: &[T], k: &[T], y: Vec<T>, z: Vec<T>|
            #![trigger call_ensures(norm, (h,), y), call_ensures(norm, (k,), z)]
            h@ == k@ && call_ensures(norm, (h,), y) && call_ensures(norm, (k,), z) ==> y@ == z@,
        forall|a: &[T], b: &[T], c: &[T], d: &[T], o: usize, y: T, z: T|
            #![trigger call_ensures(dot, (a, b, o), y), call_ensures(dot, (c, d, o), z)]
            a@ == c@ && b@ == d@ && call_ensures(dot, (a, b, o), y) && call_ensures(
                dot,
                (c, d, o),
                z,
            ) ==> y == z,
    ensures
        tr1.final_norm@ == tr2.final_norm@,
        tr1.logits@ == tr2.logits@,
{
    let outs1 = stack::tensors(tr1.layers@);
    let outs2 = stack::tensors(tr2.layers@);
    let n1 = before1.len() as int;
    let n2 = before2.len() as int;
    assert(outs1[n1 - 1] == tr1.layers@[n1 - 1]@);
    assert(outs2[n2 - 1] == tr2.layers@[n2 - 1]@);
    let (h1, y1) = choose|h: &[T], y: Vec<T>|
        h@ == outs1[n1 - 1] && y@ == tr1.final_norm@ && #[trigger] call_ensures(norm, (h,), y);
    let (h2, y2) = choose|h: &[T], y: Vec<T>|
        h@ == outs2[n2 - 1] && y@ == tr2.final_norm@ && #[trigger] call_ensures(norm, (h,), y);
    assert(call_ensures(norm, (h1,), y1) && call_ensures(norm, (h2,), y2));
    let vocab = mcfg.vocab as int;
    assert(tr1.logits@.len() == tr2.logits@.len());
    assert forall|i: int| 0 <= i < tr1.logits@.len() implies tr1.logits@[i] == tr2.logits@[i] by {
        assert(tokens1.len() * vocab > 0);
        assert(vocab > 0) by (nonlinear_arith)
            requires
                tokens1.len() * vocab > 0,
                vocab >= 0,
        ;
        tensor::lemma_unflat(i, tokens1.len() as int, vocab);
        let r = i / vocab;
        let o = i % vocab;
        logits_are_of_the_final_norm(
            mcfg,
            embed1,
            lm_head,
            start1,
            tokens1,
            before1,
            after1,
            layer1,
            norm,
            dot,
            tr1,
            r,
            o,
        );
        logits_are_of_the_final_norm(
            mcfg,
            embed2,
            lm_head,
            start2,
            tokens2,
            before2,
            after2,
            layer2,
            norm,
            dot,
            tr2,
            r,
            o,
        );
    }
    assert(tr1.logits@ =~= tr2.logits@);
}

/// **One layer.** A model of one layer, whose layer makes `f` of what it reads, whose norm makes `g`
/// and whose head makes `head` of a row of its weights and a row of values, has the logits that
/// `head` makes of `g(f(embedding))`.
pub proof fn one_layer_gives_head_of_norm_of_layer<
    T,
    L: Fn(usize, usize, &[T], &MixerState<T>) -> Result<(Vec<T>, MixerState<T>), String>,
    N: Fn(&[T]) -> Vec<T>,
    D: Fn(&[T], &[T], usize) -> T,
>(
    mcfg: ModelConfig,
    embed_tokens: Seq<T>,
    lm_head: Seq<T>,
    start: usize,
    tokens: Seq<u32>,
    before: Seq<MixerState<T>>,
    after: Seq<MixerState<T>>,
    layer: L,
    norm: N,
    dot: D,
    tr: ModelTrace<T>,
    f: spec_fn(Seq<T>) -> Seq<T>,
    g: spec_fn(Seq<T>) -> Seq<T>,
    head: spec_fn(Seq<T>, Seq<T>, int) -> T,
    r: int,
    o: int,
)
    requires
        stack::is_trace(
            mcfg,
            embed_tokens,
            lm_head,
            start,
            tokens,
            before,
            after,
            layer,
            norm,
            dot,
            tr,
        ),
        before.len() == 1,
        forall|i: usize, s: usize, h: &[T], m: &MixerState<T>, y: (Vec<T>, MixerState<T>)| #[trigger]
            call_ensures(layer, (i, s, h, m), Ok::<(Vec<T>, MixerState<T>), String>(y)) ==> y.0@
                == f(h@),
        forall|h: &[T], y: Vec<T>| #[trigger] call_ensures(norm, (h,), y) ==> y@ == g(h@),
        forall|a: &[T], c: &[T], n: usize, y: T| #[trigger]
            call_ensures(dot, (a, c, n), y) ==> y == head(a@, c@, n as int),
        0 <= r < tokens.len(),
        0 <= o < mcfg.vocab,
    ensures
        tr.logits@[r * mcfg.vocab + o] == head(
            lm_head.subrange(o * mcfg.hidden, o * mcfg.hidden + mcfg.hidden),
            g(f(tr.embedding@)).subrange(r * mcfg.hidden, r * mcfg.hidden + mcfg.hidden),
            o,
        ),
{
    let outs = stack::tensors(tr.layers@);
    assert(stack::layer_gives(layer, 0, start, tr.embedding@, before[0], outs[0], after[0]));
    assert(outs[0] == f(tr.embedding@));
    assert(tr.final_norm@ == g(outs[0]));
    logits_are_of_the_final_norm(
        mcfg,
        embed_tokens,
        lm_head,
        start,
        tokens,
        before,
        after,
        layer,
        norm,
        dot,
        tr,
        r,
        o,
    );
}

/// **When a run fails.** Where every token is in the vocabulary, a run fails only because a layer
/// did, and says which and what that layer said. Where one is not, it fails for the first of them,
/// and no state has moved.
pub proof fn a_run_fails_for_a_token_or_a_layer<
    T,
    L: Fn(usize, usize, &[T], &MixerState<T>) -> Result<(Vec<T>, MixerState<T>), String>,
>(
    mcfg: ModelConfig,
    embed_tokens: Seq<T>,
    start: usize,
    tokens: Seq<u32>,
    before: Seq<MixerState<T>>,
    after: Seq<MixerState<T>>,
    layer: L,
    message: Seq<char>,
)
    requires
        stack::rows_are_there(
            tokens,
            mcfg.vocab as int,
            mcfg.hidden as int,
            embed_tokens.len() as int,
        ),
        stack::chunk_fails(mcfg, embed_tokens, start, tokens, before, after, layer, message),
    ensures
        if forall|i: int| 0 <= i < tokens.len() ==> (#[trigger] tokens[i]) < mcfg.vocab {
            exists|n: int, h: &[T], e: String|
                {
                    &&& 0 <= n < before.len()
                    &&& message == "layer "@ + text::decimal(n as nat) + ": "@ + e@
                    &&& #[trigger] call_ensures(
                        layer,
                        (n as usize, start, h, &before[n]),
                        Err::<(Vec<T>, MixerState<T>), String>(e),
                    )
                }
        } else {
            &&& after == before
            &&& exists|i: int|
                {
                    &&& 0 <= i < tokens.len()
                    &&& forall|j: int| 0 <= j < i ==> (#[trigger] tokens[j]) < mcfg.vocab
                    &&& (#[trigger] tokens[i]) >= mcfg.vocab
                    &&& message == "token id "@ + text::decimal(tokens[i] as nat)
                        + " is out of range for vocab "@ + text::decimal(mcfg.vocab as nat)
                }
        },
{
    let hidden = mcfg.hidden as int;
    let vocab = mcfg.vocab as int;
    stack::embedding_gives_a_row_per_token(embed_tokens, tokens, vocab, hidden);
    if forall|i: int| 0 <= i < tokens.len() ==> (#[trigger] tokens[i]) < mcfg.vocab {
        let embedding = stack::embedded(embed_tokens, tokens, vocab, hidden)->Ok_0;
        let (n, outs, inner) = choose|n: int, outs: Seq<Seq<T>>, inner: Seq<char>|
            {
                &&& 0 <= n < before.len()
                &&& #[trigger] stack::layers_give(
                    layer,
                    start,
                    embedding,
                    before,
                    outs,
                    after,
                    n,
                )
                &&& #[trigger] stack::layer_fails(
                    layer,
                    n,
                    start,
                    stack::layer_input(embedding, outs, n),
                    before[n],
                    inner,
                )
                &&& message == stack::layer_error(n, inner)
            };
        let (h, e) = choose|h: &[T], e: String|
            {
                &&& h@ == stack::layer_input(embedding, outs, n)
                &&& e@ == inner
                &&& #[trigger] call_ensures(
                    layer,
                    (n as usize, start, h, &before[n]),
                    Err::<(Vec<T>, MixerState<T>), String>(e),
                )
            };
        assert(call_ensures(
            layer,
            (n as usize, start, h, &before[n]),
            Err::<(Vec<T>, MixerState<T>), String>(e),
        ));
    } else {
        lemma_first_out_of_range(embed_tokens, tokens, vocab, hidden);
    }
}

proof fn lemma_first_out_of_range<T>(w: Seq<T>, ids: Seq<u32>, vocab: int, hidden: int)
    requires
        0 <= hidden,
        stack::embedded(w, ids, vocab, hidden) is Err,
    ensures
        exists|i: int|
            {
                &&& 0 <= i < ids.len()
                &&& forall|j: int| 0 <= j < i ==> (#[trigger] ids[j]) < vocab
                &&& (#[trigger] ids[i]) >= vocab
                &&& stack::embedded(w, ids, vocab, hidden)->Err_0 == "token id "@ + text::decimal(
                    ids[i] as nat,
                ) + " is out of range for vocab "@ + text::decimal(vocab as nat)
            },
    decreases ids.len(),
{
    let shorter = ids.drop_last();
    if stack::embedded(w, shorter, vocab, hidden) is Err {
        lemma_first_out_of_range(w, shorter, vocab, hidden);
        let i = choose|i: int|
            {
                &&& 0 <= i < shorter.len()
                &&& forall|j: int| 0 <= j < i ==> (#[trigger] shorter[j]) < vocab
                &&& (#[trigger] shorter[i]) >= vocab
                &&& stack::embedded(w, shorter, vocab, hidden)->Err_0 == "token id "@
                    + text::decimal(shorter[i] as nat) + " is out of range for vocab "@
                    + text::decimal(vocab as nat)
            };
        assert(ids[i] == shorter[i]);
        assert forall|j: int| 0 <= j < i implies (#[trigger] ids[j]) < vocab by {
            assert(ids[j] == shorter[j]);
        }
    } else {
        lemma_all_in_range(w, shorter, vocab, hidden);
        let i = ids.len() - 1;
        assert(ids[i] >= vocab);
        assert forall|j: int| 0 <= j < i implies (#[trigger] ids[j]) < vocab by {
            assert(ids[j] == shorter[j]);
        }
    }
}

proof fn lemma_all_in_range<T>(w: Seq<T>, ids: Seq<u32>, vocab: int, hidden: int)
    requires
        stack::embedded(w, ids, vocab, hidden) is Ok,
    ensures
        forall|j: int| 0 <= j < ids.len() ==> (#[trigger] ids[j]) < vocab,
    decreases ids.len(),
{
    if ids.len() > 0 {
        let shorter = ids.drop_last();
        lemma_all_in_range(w, shorter, vocab, hidden);
        assert forall|j: int| 0 <= j < ids.len() implies (#[trigger] ids[j]) < vocab by {
            if j < shorter.len() {
                assert(ids[j] == shorter[j]);
            }
        }
    }
}

} // verus!
