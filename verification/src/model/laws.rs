//! Running a sequence in chunks, with a cache, is running it at once.
use super::cache::MixerState;
use super::stack;
use super::stack::{ModelConfig, ModelTrace};
use crate::chunks;
use crate::mixer;
use crate::tensor;
use vstd::prelude::*;

verus! {

// ---------------------------------------------------------------------------
// what is asked of the arithmetic that is handed in
// ---------------------------------------------------------------------------
/// Whether two states hold the same values.
pub open spec fn same_state<T>(a: MixerState<T>, b: MixerState<T>) -> bool {
    match (a, b) {
        (MixerState::LinearAttention(x), MixerState::LinearAttention(y)) => x.conv@ == y.conv@
            && x.ssm@ == y.ssm@,
        (MixerState::FullAttention(x), MixerState::FullAttention(y)) => x.k@ == y.k@ && x.v@
            == y.v@,
        _ => false,
    }
}

/// Whether two lists of states hold the same values.
pub open spec fn same_states<T>(a: Seq<MixerState<T>>, b: Seq<MixerState<T>>) -> bool {
    a.len() == b.len() && forall|i: int| 0 <= i < a.len() ==> same_state(#[trigger] a[i], b[i])
}

/// Whether a layer always makes the same of the same.
pub open spec fn layer_is_function<
    T,
    L: Fn(usize, usize, &[T], &MixerState<T>) -> Result<(Vec<T>, MixerState<T>), String>,
>(layer: L) -> bool {
    forall|
        i: int,
        start: usize,
        h: Seq<T>,
        before: MixerState<T>,
        out: Seq<T>,
        after: MixerState<T>,
        before2: MixerState<T>,
        out2: Seq<T>,
        after2: MixerState<T>,
    |
        #![trigger stack::layer_gives(layer, i, start, h, before, out, after), stack::layer_gives(layer, i, start, h, before2, out2, after2)]
        {
            &&& same_state(before, before2)
            &&& stack::layer_gives(layer, i, start, h, before, out, after)
            &&& stack::layer_gives(layer, i, start, h, before2, out2, after2)
        } ==> out == out2 && same_state(after, after2)
}

/// Whether a layer does not fail on what it can do: on the same input and state it does not
/// give something one time and fail another.
pub open spec fn layer_is_settled<
    T,
    L: Fn(usize, usize, &[T], &MixerState<T>) -> Result<(Vec<T>, MixerState<T>), String>,
>(layer: L) -> bool {
    forall|
        i: int,
        start: usize,
        h: Seq<T>,
        before: MixerState<T>,
        out: Seq<T>,
        after: MixerState<T>,
        before2: MixerState<T>,
        message: Seq<char>,
    |
        #![trigger stack::layer_gives(layer, i, start, h, before, out, after), stack::layer_fails(layer, i, start, h, before2, message)]
        same_state(before, before2) && stack::layer_gives(layer, i, start, h, before, out, after)
            ==> !stack::layer_fails(layer, i, start, h, before2, message)
}

/// Whether a layer gives as many values as it takes.
pub open spec fn layer_keeps_length<
    T,
    L: Fn(usize, usize, &[T], &MixerState<T>) -> Result<(Vec<T>, MixerState<T>), String>,
>(layer: L) -> bool {
    forall|
        i: int,
        start: usize,
        h: Seq<T>,
        before: MixerState<T>,
        out: Seq<T>,
        after: MixerState<T>,
    | #[trigger]
        stack::layer_gives(layer, i, start, h, before, out, after) ==> out.len() == h.len()
}

/// Whether a layer continues: from the state that a first chunk leaves, and at the position
/// behind it, it makes of a second chunk what it makes of it within the whole.
pub open spec fn layer_continues<
    T,
    L: Fn(usize, usize, &[T], &MixerState<T>) -> Result<(Vec<T>, MixerState<T>), String>,
>(layer: L, start: usize, middle: usize, t1: int, t2: int, hidden: int) -> bool {
    forall|
        i: int,
        h1: Seq<T>,
        h2: Seq<T>,
        before: MixerState<T>,
        out: Seq<T>,
        after: MixerState<T>,
        before1: MixerState<T>,
        out1: Seq<T>,
        mid: MixerState<T>,
        mid2: MixerState<T>,
        out2: Seq<T>,
        after2: MixerState<T>,
    |
        #![trigger stack::layer_gives(layer, i, start, h1 + h2, before, out, after), stack::layer_gives(layer, i, start, h1, before1, out1, mid), stack::layer_gives(layer, i, middle, h2, mid2, out2, after2)]
        {
            &&& h1.len() == t1 * hidden
            &&& h2.len() == t2 * hidden
            &&& same_state(before, before1)
            &&& same_state(mid, mid2)
            &&& stack::layer_gives(layer, i, start, h1 + h2, before, out, after)
            &&& stack::layer_gives(layer, i, start, h1, before1, out1, mid)
            &&& stack::layer_gives(layer, i, middle, h2, mid2, out2, after2)
        } ==> out == out1 + out2 && same_state(after, after2)
}

/// Whether a layer goes on: where it can do the whole and a first chunk, it does not fail on
/// the second.
pub open spec fn layer_goes_on<
    T,
    L: Fn(usize, usize, &[T], &MixerState<T>) -> Result<(Vec<T>, MixerState<T>), String>,
>(layer: L, start: usize, middle: usize, t1: int, t2: int, hidden: int) -> bool {
    forall|
        i: int,
        h1: Seq<T>,
        h2: Seq<T>,
        before: MixerState<T>,
        out: Seq<T>,
        after: MixerState<T>,
        before1: MixerState<T>,
        out1: Seq<T>,
        mid: MixerState<T>,
        mid2: MixerState<T>,
        message: Seq<char>,
    |
        #![trigger stack::layer_gives(layer, i, start, h1 + h2, before, out, after), stack::layer_gives(layer, i, start, h1, before1, out1, mid), stack::layer_fails(layer, i, middle, h2, mid2, message)]
        {
            &&& h1.len() == t1 * hidden
            &&& h2.len() == t2 * hidden
            &&& same_state(before, before1)
            &&& same_state(mid, mid2)
            &&& stack::layer_gives(layer, i, start, h1 + h2, before, out, after)
            &&& stack::layer_gives(layer, i, start, h1, before1, out1, mid)
        } ==> !stack::layer_fails(layer, i, middle, h2, mid2, message)
}

/// Whether the final norm always makes the same of the same.
pub open spec fn norm_is_function<T, N: Fn(&[T]) -> Vec<T>>(norm: N) -> bool {
    forall|h: Seq<T>, y: Seq<T>, z: Seq<T>|
        #![trigger stack::final_norm_gives(norm, h, y), stack::final_norm_gives(norm, h, z)]
        stack::final_norm_gives(norm, h, y) && stack::final_norm_gives(norm, h, z) ==> y == z
}

/// Whether the final norm norms row by row.
pub open spec fn norm_goes_by_rows<T, N: Fn(&[T]) -> Vec<T>>(
    norm: N,
    t1: int,
    t2: int,
    hidden: int,
) -> bool {
    forall|h1: Seq<T>, h2: Seq<T>, y: Seq<T>, y1: Seq<T>, y2: Seq<T>|
        #![trigger stack::final_norm_gives(norm, h1 + h2, y), stack::final_norm_gives(norm, h1, y1), stack::final_norm_gives(norm, h2, y2)]
        {
            &&& h1.len() == t1 * hidden
            &&& h2.len() == t2 * hidden
            &&& stack::final_norm_gives(norm, h1 + h2, y)
            &&& stack::final_norm_gives(norm, h1, y1)
            &&& stack::final_norm_gives(norm, h2, y2)
        } ==> y == y1 + y2 && y1.len() == h1.len() && y2.len() == h2.len()
}

// ---------------------------------------------------------------------------
// embedding
// ---------------------------------------------------------------------------
/// Embedding goes token by token.
proof fn lemma_embedding_joins<T>(
    w: Seq<T>,
    ids1: Seq<u32>,
    ids2: Seq<u32>,
    vocab: int,
    hidden: int,
    e1: Seq<T>,
    e2: Seq<T>,
)
    requires
        stack::embedded(w, ids1, vocab, hidden) == Ok::<_, Seq<char>>(e1),
        stack::embedded(w, ids2, vocab, hidden) == Ok::<_, Seq<char>>(e2),
    ensures
        stack::embedded(w, ids1 + ids2, vocab, hidden) == Ok::<_, Seq<char>>(e1 + e2),
    decreases ids2.len(),
{
    if ids2.len() == 0 {
        assert(ids1 + ids2 =~= ids1);
        assert(e1 + e2 =~= e1);
    } else {
        let ids = ids1 + ids2;
        assert(ids.drop_last() =~= ids1 + ids2.drop_last());
        assert(ids.last() == ids2.last());
        let before = stack::embedded(w, ids2.drop_last(), vocab, hidden)->Ok_0;
        lemma_embedding_joins(w, ids1, ids2.drop_last(), vocab, hidden, e1, before);
        let last = tensor::row(w, ids2.last() as int, hidden);
        assert(e2 == before + last);
        assert((e1 + before) + last =~= e1 + e2);
    }
}

// ---------------------------------------------------------------------------
// the same twice
// ---------------------------------------------------------------------------
proof fn lemma_layers_agree<
    T,
    L: Fn(usize, usize, &[T], &MixerState<T>) -> Result<(Vec<T>, MixerState<T>), String>,
>(
    layer: L,
    start: usize,
    embedding: Seq<T>,
    before: Seq<MixerState<T>>,
    outs: Seq<Seq<T>>,
    after: Seq<MixerState<T>>,
    before2: Seq<MixerState<T>>,
    outs2: Seq<Seq<T>>,
    after2: Seq<MixerState<T>>,
    upto: int,
    n: int,
)
    requires
        layer_is_function(layer),
        same_states(before, before2),
        stack::layers_give(layer, start, embedding, before, outs, after, before.len() as int),
        stack::layers_give(layer, start, embedding, before2, outs2, after2, upto),
        0 <= n <= upto <= before.len(),
    ensures
        forall|i: int| 0 <= i < n ==> #[trigger] outs[i] == outs2[i],
        forall|i: int| 0 <= i < n ==> same_state(#[trigger] after[i], after2[i]),
    decreases n,
{
    if n > 0 {
        lemma_layers_agree(
            layer,
            start,
            embedding,
            before,
            outs,
            after,
            before2,
            outs2,
            after2,
            upto,
            n - 1,
        );
        let i = n - 1;
        let h = stack::layer_input(embedding, outs, i);
        assert(h == stack::layer_input(embedding, outs2, i));
        assert(same_state(before[i], before2[i]));
        assert(stack::layer_gives(layer, i, start, h, before[i], outs[i], after[i]));
        assert(stack::layer_gives(layer, i, start, h, before2[i], outs2[i], after2[i]));
    }
}

/// **A fresh cache is no cache.** Two runs of the same tokens at the same position, from
/// states of the same values, give the same: the same logits, the same trace, the same
/// states. With both from fresh states, that is prefill against the uncached path.
pub proof fn traces_are_unique<
    T,
    L: Fn(usize, usize, &[T], &MixerState<T>) -> Result<(Vec<T>, MixerState<T>), String>,
    N: Fn(&[T]) -> Vec<T>,
    D: Fn(&[T], &[T], usize) -> T,
>(
    mcfg: ModelConfig,
    embed_tokens: Seq<T>,
    lm_head: Seq<T>,
    start: usize,
    tokens: Seq<u32>,
    before: Seq<MixerState<T>>,
    after: Seq<MixerState<T>>,
    before2: Seq<MixerState<T>>,
    after2: Seq<MixerState<T>>,
    layer: L,
    norm: N,
    dot: D,
    tr: ModelTrace<T>,
    tr2: ModelTrace<T>,
)
    requires
        layer_is_function(layer),
        norm_is_function(norm),
        mixer::laws::cell_is_function(dot),
        same_states(before, before2),
        stack::is_trace(
            mcfg,
            embed_tokens,
            lm_head,
            start,
            tokens,
            before,
            after,
            layer,
            norm,
            dot,
            tr,
        ),
        stack::is_trace(
            mcfg,
            embed_tokens,
            lm_head,
            start,
            tokens,
            before2,
            after2,
            layer,
            norm,
            dot,
            tr2,
        ),
    ensures
        tr.embedding@ == tr2.embedding@,
        stack::tensors(tr.layers@) == stack::tensors(tr2.layers@),
        tr.final_norm@ == tr2.final_norm@,
        tr.logits@ == tr2.logits@,
        same_states(after, after2),
{
    let n = before.len() as int;
    let outs = stack::tensors(tr.layers@);
    let outs2 = stack::tensors(tr2.layers@);
    lemma_layers_agree(
        layer,
        start,
        tr.embedding@,
        before,
        outs,
        after,
        before2,
        outs2,
        after2,
        n,
        n,
    );
    assert(outs =~= outs2);
    let t = tokens.len() as int;
    let hidden = mcfg.hidden as int;
    let vocab = mcfg.vocab as int;
    assert forall|i: int| 0 <= i < t * vocab implies tr.logits@[i] == tr2.logits@[i] by {
        assert(tensor::product_at(
            dot,
            lm_head,
            tr.final_norm@,
            hidden,
            vocab,
            i,
            tr.logits@[i],
        ));
        assert(tensor::product_at(
            dot,
            lm_head,
            tr2.final_norm@,
            hidden,
            vocab,
            i,
            tr2.logits@[i],
        ));
    }
    assert(tr.logits@ =~= tr2.logits@);
}

/// What ran does not fail from the same: a run of the same tokens at the same position, from
/// states of the same values, has no fault.
pub proof fn what_ran_does_not_fail<
    T,
    L: Fn(usize, usize, &[T], &MixerState<T>) -> Result<(Vec<T>, MixerState<T>), String>,
    N: Fn(&[T]) -> Vec<T>,
    D: Fn(&[T], &[T], usize) -> T,
>(
    mcfg: ModelConfig,
    embed_tokens: Seq<T>,
    lm_head: Seq<T>,
    start: usize,
    tokens: Seq<u32>,
    before: Seq<MixerState<T>>,
    after: Seq<MixerState<T>>,
    before2: Seq<MixerState<T>>,
    after2: Seq<MixerState<T>>,
    layer: L,
    norm: N,
    dot: D,
    tr: ModelTrace<T>,
    message: Seq<char>,
)
    requires
        layer_is_function(layer),
        layer_is_settled(layer),
        same_states(before, before2),
        stack::is_trace(
            mcfg,
            embed_tokens,
            lm_head,
            start,
            tokens,
            before,
            after,
            layer,
            norm,
            dot,
            tr,
        ),
    ensures
        !stack::chunk_fails(
            mcfg,
            embed_tokens,
            start,
            tokens,
            before2,
            after2,
            layer,
            message,
        ),
{
    if stack::chunk_fails(mcfg, embed_tokens, start, tokens, before2, after2, layer, message) {
        let e = tr.embedding@;
        let outs = stack::tensors(tr.layers@);
        let (n, outs2, inner) = choose|n: int, outs2: Seq<Seq<T>>, inner: Seq<char>|
            {
                &&& 0 <= n < before2.len()
                &&& #[trigger] stack::layers_give(layer, start, e, before2, outs2, after2, n)
                &&& #[trigger] stack::layer_fails(
                    layer,
                    n,
                    start,
                    stack::layer_input(e, outs2, n),
                    before2[n],
                    inner,
                )
                &&& message == stack::layer_error(n, inner)
            };
        lemma_layers_agree(layer, start, e, before, outs, after, before2, outs2, after2, n, n);
        let h = stack::layer_input(e, outs, n);
        assert(h == stack::layer_input(e, outs2, n)) by {
            if n > 0 {
                assert(outs[n - 1] == outs2[n - 1]);
            }
        }
        assert(same_state(before[n], before2[n]));
        assert(stack::layer_gives(layer, n, start, h, before[n], outs[n], after[n]));
        assert(stack::layer_fails(layer, n, start, h, before2[n], inner));
    }
}

// ---------------------------------------------------------------------------
// chunks
// ---------------------------------------------------------------------------
proof fn lemma_layers_continue<
    T,
    L: Fn(usize, usize, &[T], &MixerState<T>) -> Result<(Vec<T>, MixerState<T>), String>,
>(
    layer: L,
    start: usize,
    middle: usize,
    e1: Seq<T>,
    e2: Seq<T>,
    before: Seq<MixerState<T>>,
    before1: Seq<MixerState<T>>,
    mid: Seq<MixerState<T>>,
    mid2: Seq<MixerState<T>>,
    outs: Seq<Seq<T>>,
    after: Seq<MixerState<T>>,
    outs1: Seq<Seq<T>>,
    outs2: Seq<Seq<T>>,
    after2: Seq<MixerState<T>>,
    t1: int,
    t2: int,
    hidden: int,
    upto: int,
    n: int,
)
    requires
        layer_keeps_length(layer),
        layer_continues(layer, start, middle, t1, t2, hidden),
        e1.len() == t1 * hidden,
        e2.len() == t2 * hidden,
        same_states(before, before1),
        same_states(mid, mid2),
        stack::layers_give(layer, start, e1 + e2, before, outs, after, before.len() as int),
        stack::layers_give(layer, start, e1, before1, outs1, mid, before.len() as int),
        stack::layers_give(layer, middle, e2, mid2, outs2, after2, upto),
        0 <= n <= upto <= before.len(),
    ensures
        forall|i: int| 0 <= i < n ==> #[trigger] outs[i] == outs1[i] + outs2[i],
        forall|i: int| 0 <= i < n ==> (#[trigger] outs1[i]).len() == t1 * hidden,
        forall|i: int| 0 <= i < n ==> (#[trigger] outs2[i]).len() == t2 * hidden,
        forall|i: int| 0 <= i < n ==> same_state(#[trigger] after[i], after2[i]),
    decreases n,
{
    if n > 0 {
        lemma_layers_continue(
            layer,
            start,
            middle,
            e1,
            e2,
            before,
            before1,
            mid,
            mid2,
            outs,
            after,
            outs1,
            outs2,
            after2,
            t1,
            t2,
            hidden,
            upto,
            n - 1,
        );
        let i = n - 1;
        let h1 = stack::layer_input(e1, outs1, i);
        let h2 = stack::layer_input(e2, outs2, i);
        assert(stack::layer_input(e1 + e2, outs, i) == h1 + h2) by {
            if i > 0 {
                assert(outs[i - 1] == outs1[i - 1] + outs2[i - 1]);
            }
        }
        assert(h1.len() == t1 * hidden && h2.len() == t2 * hidden) by {
            if i > 0 {
                assert(outs1[i - 1].len() == t1 * hidden);
                assert(outs2[i - 1].len() == t2 * hidden);
            }
        }
        assert(stack::layer_gives(layer, i, start, h1 + h2, before[i], outs[i], after[i]));
        assert(same_state(before[i], before1[i]));
        assert(same_state(mid[i], mid2[i]));
        assert(stack::layer_gives(layer, i, start, h1, before1[i], outs1[i], mid[i]));
        assert(stack::layer_gives(layer, i, middle, h2, mid2[i], outs2[i], after2[i]));
    }
}

/// **Continuing is the whole.** Run on two chunks, the second from the states that the first
/// leaves, or others that hold the same, and at the position behind it, the model gives what
/// it gives on the whole sequence at once -- the same logits, not close ones -- and leaves the
/// same states. In particular what comes first does not depend on what comes later.
///
/// It holds of layers that continue, and of a norm that goes row by row.
pub proof fn model_continues<
    T,
    L: Fn(usize, usize, &[T], &MixerState<T>) -> Result<(Vec<T>, MixerState<T>), String>,
    N: Fn(&[T]) -> Vec<T>,
    D: Fn(&[T], &[T], usize) -> T,
>(
    mcfg: ModelConfig,
    embed_tokens: Seq<T>,
    lm_head: Seq<T>,
    start: usize,
    middle: usize,
    tokens1: Seq<u32>,
    tokens2: Seq<u32>,
    before: Seq<MixerState<T>>,
    before1: Seq<MixerState<T>>,
    mid: Seq<MixerState<T>>,
    mid2: Seq<MixerState<T>>,
    after: Seq<MixerState<T>>,
    after2: Seq<MixerState<T>>,
    layer: L,
    norm: N,
    dot: D,
    whole: ModelTrace<T>,
    first: ModelTrace<T>,
    second: ModelTrace<T>,
)
    requires
        middle == start + tokens1.len(),
        stack::rows_are_there(
            tokens1,
            mcfg.vocab as int,
            mcfg.hidden as int,
            embed_tokens.len() as int,
        ),
        stack::rows_are_there(
            tokens2,
            mcfg.vocab as int,
            mcfg.hidden as int,
            embed_tokens.len() as int,
        ),
        layer_keeps_length(layer),
        layer_continues(
            layer,
            start,
            middle,
            tokens1.len() as int,
            tokens2.len() as int,
            mcfg.hidden as int,
        ),
        norm_goes_by_rows(norm, tokens1.len() as int, tokens2.len() as int, mcfg.hidden as int),
        mixer::laws::cell_is_function(dot),
        same_states(before, before1),
        same_states(mid, mid2),
        stack::is_trace(
            mcfg,
            embed_tokens,
            lm_head,
            start,
            tokens1 + tokens2,
            before,
            after,
            layer,
            norm,
            dot,
            whole,
        ),
        stack::is_trace(
            mcfg,
            embed_tokens,
            lm_head,
            start,
            tokens1,
            before1,
            mid,
            layer,
            norm,
            dot,
            first,
        ),
        stack::is_trace(
            mcfg,
            embed_tokens,
            lm_head,
            middle,
            tokens2,
            mid2,
            after2,
            layer,
            norm,
            dot,
            second,
        ),
    ensures
        whole.embedding@ == first.embedding@ + second.embedding@,
        forall|i: int|
            0 <= i < before.len() ==> #[trigger] stack::tensors(whole.layers@)[i]
                == stack::tensors(first.layers@)[i] + stack::tensors(second.layers@)[i],
        whole.final_norm@ == first.final_norm@ + second.final_norm@,
        whole.logits@ == first.logits@ + second.logits@,
        same_states(after, after2),
{
    let n = before.len() as int;
    let t1 = tokens1.len() as int;
    let t2 = tokens2.len() as int;
    let hidden = mcfg.hidden as int;
    let vocab = mcfg.vocab as int;
    let e1 = first.embedding@;
    let e2 = second.embedding@;
    lemma_embedding_joins(embed_tokens, tokens1, tokens2, vocab, hidden, e1, e2);
    stack::embedding_gives_a_row_per_token(embed_tokens, tokens1, vocab, hidden);
    stack::embedding_gives_a_row_per_token(embed_tokens, tokens2, vocab, hidden);
    let outs = stack::tensors(whole.layers@);
    let outs1 = stack::tensors(first.layers@);
    let outs2 = stack::tensors(second.layers@);
    lemma_layers_continue(
        layer,
        start,
        middle,
        e1,
        e2,
        before,
        before1,
        mid,
        mid2,
        outs,
        after,
        outs1,
        outs2,
        after2,
        t1,
        t2,
        hidden,
        n,
        n,
    );
    let h1 = stack::layer_input(e1, outs1, n);
    let h2 = stack::layer_input(e2, outs2, n);
    assert(stack::layer_input(e1 + e2, outs, n) == h1 + h2) by {
        if n > 0 {
            assert(outs[n - 1] == outs1[n - 1] + outs2[n - 1]);
        }
    }
    assert(h1.len() == t1 * hidden && h2.len() == t2 * hidden) by {
        if n > 0 {
            assert(outs1[n - 1].len() == t1 * hidden);
            assert(outs2[n - 1].len() == t2 * hidden);
        }
    }
    assert(stack::final_norm_gives(norm, h1 + h2, whole.final_norm@));
    assert(stack::final_norm_gives(norm, h1, first.final_norm@));
    assert(stack::final_norm_gives(norm, h2, second.final_norm@));
    chunks::one_batch_joins_by_concatenation(
        whole.final_norm@,
        first.final_norm@,
        second.final_norm@,
        t1,
        t2,
        hidden,
    );
    mixer::laws::lemma_product_joins(
        dot,
        lm_head,
        whole.final_norm@,
        first.final_norm@,
        second.final_norm@,
        1,
        t1,
        t2,
        hidden,
        vocab,
        whole.logits@,
        first.logits@,
        second.logits@,
    );
    chunks::one_batch_joins_by_concatenation(
        whole.logits@,
        first.logits@,
        second.logits@,
        t1,
        t2,
        vocab,
    );
}

/// Tokens of which the whole is in range are in range.
proof fn lemma_embedding_parts<T>(w: Seq<T>, ids1: Seq<u32>, ids2: Seq<u32>, vocab: int, hidden: int)
    requires
        stack::embedded(w, ids1 + ids2, vocab, hidden) is Ok,
    ensures
        stack::embedded(w, ids1, vocab, hidden) is Ok,
        stack::embedded(w, ids2, vocab, hidden) is Ok,
    decreases ids2.len(),
{
    if ids2.len() == 0 {
        assert(ids1 + ids2 =~= ids1);
    } else {
        let ids = ids1 + ids2;
        assert(ids.drop_last() =~= ids1 + ids2.drop_last());
        assert(ids.last() == ids2.last());
        lemma_embedding_parts(w, ids1, ids2.drop_last(), vocab, hidden);
    }
}

/// **What can run whole can run in chunks.** Where the whole ran, and the first chunk, the
/// second has no fault from the states that the first leaves, or others that hold the same.
pub proof fn a_second_chunk_does_not_fail<
    T,
    L: Fn(usize, usize, &[T], &MixerState<T>) -> Result<(Vec<T>, MixerState<T>), String>,
    N: Fn(&[T]) -> Vec<T>,
    D: Fn(&[T], &[T], usize) -> T,
>(
    mcfg: ModelConfig,
    embed_tokens: Seq<T>,
    lm_head: Seq<T>,
    start: usize,
    middle: usize,
    tokens1: Seq<u32>,
    tokens2: Seq<u32>,
    before: Seq<MixerState<T>>,
    before1: Seq<MixerState<T>>,
    mid: Seq<MixerState<T>>,
    mid2: Seq<MixerState<T>>,
    after: Seq<MixerState<T>>,
    after2: Seq<MixerState<T>>,
    layer: L,
    norm: N,
    dot: D,
    whole: ModelTrace<T>,
    first: ModelTrace<T>,
    message: Seq<char>,
)
    requires
        middle == start + tokens1.len(),
        stack::rows_are_there(
            tokens1,
            mcfg.vocab as int,
            mcfg.hidden as int,
            embed_tokens.len() as int,
        ),
        stack::rows_are_there(
            tokens2,
            mcfg.vocab as int,
            mcfg.hidden as int,
            embed_tokens.len() as int,
        ),
        layer_keeps_length(layer),
        layer_continues(
            layer,
            start,
            middle,
            tokens1.len() as int,
            tokens2.len() as int,
            mcfg.hidden as int,
        ),
        layer_goes_on(
            layer,
            start,
            middle,
            tokens1.len() as int,
            tokens2.len() as int,
            mcfg.hidden as int,
        ),
        same_states(before, before1),
        same_states(mid, mid2),
        stack::is_trace(
            mcfg,
            embed_tokens,
            lm_head,
            start,
            tokens1 + tokens2,
            before,
            after,
            layer,
            norm,
            dot,
            whole,
        ),
        stack::is_trace(
            mcfg,
            embed_tokens,
            lm_head,
            start,
            tokens1,
            before1,
            mid,
            layer,
            norm,
            dot,
            first,
        ),
    ensures
        !stack::chunk_fails(
            mcfg,
            embed_tokens,
            middle,
            tokens2,
            mid2,
            after2,
            layer,
            message,
        ),
{
    let t1 = tokens1.len() as int;
    let t2 = tokens2.len() as int;
    let hidden = mcfg.hidden as int;
    let vocab = mcfg.vocab as int;
    lemma_embedding_parts(embed_tokens, tokens1, tokens2, vocab, hidden);
    let e1 = first.embedding@;
    let e2 = stack::embedded(embed_tokens, tokens2, vocab, hidden)->Ok_0;
    if stack::chunk_fails(mcfg, embed_tokens, middle, tokens2, mid2, after2, layer, message) {
        let outs = stack::tensors(whole.layers@);
        let outs1 = stack::tensors(first.layers@);
        let (n, outs2, inner) = choose|n: int, outs2: Seq<Seq<T>>, inner: Seq<char>|
            {
                &&& 0 <= n < mid2.len()
                &&& #[trigger] stack::layers_give(layer, middle, e2, mid2, outs2, after2, n)
                &&& #[trigger] stack::layer_fails(
                    layer,
                    n,
                    middle,
                    stack::layer_input(e2, outs2, n),
                    mid2[n],
                    inner,
                )
                &&& message == stack::layer_error(n, inner)
            };
        lemma_embedding_joins(embed_tokens, tokens1, tokens2, vocab, hidden, e1, e2);
        stack::embedding_gives_a_row_per_token(embed_tokens, tokens1, vocab, hidden);
        stack::embedding_gives_a_row_per_token(embed_tokens, tokens2, vocab, hidden);
        lemma_layers_continue(
            layer,
            start,
            middle,
            e1,
            e2,
            before,
            before1,
            mid,
            mid2,
            outs,
            after,
            outs1,
            outs2,
            after2,
            t1,
            t2,
            hidden,
            n,
            n,
        );
        let h1 = stack::layer_input(e1, outs1, n);
        let h2 = stack::layer_input(e2, outs2, n);
        assert(stack::layer_input(e1 + e2, outs, n) == h1 + h2) by {
            if n > 0 {
                assert(outs[n - 1] == outs1[n - 1] + outs2[n - 1]);
            }
        }
        assert(h1.len() == t1 * hidden && h2.len() == t2 * hidden) by {
            if n > 0 {
                assert(outs1[n - 1].len() == t1 * hidden);
                assert(outs2[n - 1].len() == t2 * hidden);
            }
        }
        assert(same_state(before[n], before1[n]));
        assert(same_state(mid[n], mid2[n]));
        assert(stack::layer_gives(layer, n, start, h1 + h2, before[n], outs[n], after[n]));
        assert(stack::layer_gives(layer, n, start, h1, before1[n], outs1[n], mid[n]));
        assert(stack::layer_fails(layer, n, middle, h2, mid2[n], inner));
    }
}

} // verus!
