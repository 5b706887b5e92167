//! Which tokens decoding gives, in terms of the runs that they are read from.
use super::cache::{Cache, LayerKind, MixerState};
use super::decode_laws;
use super::network::Network;
use super::stack;
use super::stack::ModelTrace;
use crate::tensor;
use vstd::prelude::*;

verus! {

/// **A fresh sequence starts from nothing.** A linear-attention layer starts from zeros, as many as
/// its convolution and its rule carry for one sequence, and a full-attention layer from no keys
/// and no values.
pub proof fn fresh_states_hold_nothing<
    'a,
    T: Copy,
    L: Fn(usize, usize, &[T], &MixerState<T>) -> Result<(Vec<T>, MixerState<T>), String>,
    N: Fn(&[T]) -> Vec<T>,
    D: Fn(&[T], &[T], usize) -> T,
    G: Fn(T, T) -> bool,
>(net: Network<'a, T, L, N, D, G>, states: Seq<MixerState<T>>, i: int)
    requires
        net.starts_from(states),
        0 <= i < net.kinds.len(),
        net.gdn.conv_kernel >= 1,
    ensures
        states.len() == net.kinds.len(),
        net.kinds[i] == LayerKind::LinearAttention ==> states[i] is LinearAttention,
        net.kinds[i] == LayerKind::FullAttention ==> states[i] is FullAttention,
        states[i] matches MixerState::FullAttention(a) ==> a.k@.len() == 0 && a.v@.len() == 0,
        states[i] matches MixerState::LinearAttention(g) ==> {
            &&& g.conv@.len() == (net.gdn.head_k_dim * net.gdn.num_k_heads * 2 + net.gdn.head_v_dim
                * net.gdn.num_v_heads) * (net.gdn.conv_kernel - 1)
            &&& g.ssm@.len() == net.gdn.num_v_heads * net.gdn.head_k_dim * net.gdn.head_v_dim
            &&& forall|j: int| 0 <= j < g.conv@.len() ==> #[trigger] g.conv@[j] == net.zero
            &&& forall|j: int| 0 <= j < g.ssm@.len() ==> #[trigger] g.ssm@[j] == net.zero
        },
{
    let s = states[i];
    let c = net.gdn.channels();
    let k = net.gdn.conv_kernel - 1;
    assert(1 * c * k == c * k && c >= 0 && c * k >= 0) by (nonlinear_arith)
        requires
            k >= 0,
            c == net.gdn.head_k_dim * net.gdn.num_k_heads * 2 + net.gdn.head_v_dim
                * net.gdn.num_v_heads,
    ;
    let h = net.gdn.num_v_heads;
    assert(1 * h * net.gdn.head_k_dim * net.gdn.head_v_dim == h * net.gdn.head_k_dim
        * net.gdn.head_v_dim && h * net.gdn.head_k_dim * net.gdn.head_v_dim >= 0)
        by (nonlinear_arith);
}

impl<
    'a,
    T: Copy,
    L: Fn(usize, usize, &[T], &MixerState<T>) -> Result<(Vec<T>, MixerState<T>), String>,
    N: Fn(&[T]) -> Vec<T>,
    D: Fn(&[T], &[T], usize) -> T,
    G: Fn(T, T) -> bool,
> Network<'a, T, L, N, D, G> {
    /// **What is read from a run** is its argmax: no logit of the last position is larger, and
    /// none of a smaller id is as large.
    pub proof fn the_argmax_of_the_last_position_is_read(
        self,
        rank: spec_fn(T) -> i64,
        tr: ModelTrace<T>,
        next: u32,
        o: int,
    )
        requires
            super::network::reads(self.exceeds, tr, next),
            forall|v: T, w: T, r: bool| #[trigger]
                call_ensures(self.exceeds, (v, w), r) ==> r == (rank(v) > rank(w)),
            tr.t > 0,
            tr.logits@.len() == tr.t * tr.vocab,
            0 <= o < tr.vocab,
        ensures
            next < tr.vocab,
            rank(tr.logits@[(tr.t - 1) * tr.vocab + o]) <= rank(
                tr.logits@[(tr.t - 1) * tr.vocab + next],
            ),
            o < next ==> rank(tr.logits@[(tr.t - 1) * tr.vocab + o]) < rank(
                tr.logits@[(tr.t - 1) * tr.vocab + next],
            ),
    {
        let row = tensor::row(tr.logits@, tr.t - 1, tr.vocab as int);
        tensor::lemma_row_fits(tr.t - 1, tr.t as int, tr.vocab as int);
        decode_laws::argmax_is_the_first_of_the_largest(self.exceeds, rank, row, next as int);
        let keys = row.map_values(rank);
        assert(keys[o] == rank(row[o]));
        assert(keys[next as int] == rank(row[next as int]));
    }

    /// **Greedy decoding** reads each token from a run of the whole sequence so far: the prompt and
    /// all tokens before it, from the first position and fresh states.
    pub proof fn greedy_runs_the_whole_sequence(
        self,
        prompt: Seq<u32>,
        ids: Seq<u32>,
        traces: Seq<ModelTrace<T>>,
        i: int,
    ) -> (r: (Seq<MixerState<T>>, Seq<MixerState<T>>))
        requires
            self.appends_argmaxes(prompt, ids, traces),
            0 <= i < ids.len(),
        ensures
            traces.len() == ids.len(),
            traces[i].t == prompt.len() + i,
            traces[i].vocab == self.sizes.vocab,
            self.starts_from(r.0),
            stack::is_trace(
                self.sizes,
                self.embed_tokens@,
                self.lm_head@,
                0,
                prompt + ids.subrange(0, i),
                r.0,
                r.1,
                self.layer,
                self.norm,
                self.dot,
                traces[i],
            ),
            super::network::reads(self.exceeds, traces[i], ids[i]),
    {
        let tr = traces[i];
        let tokens = prompt + ids.take(i);
        assert(self.whole_traces(tokens, tr));
        assert(ids.take(i) =~= ids.subrange(0, i));
        choose|f: Seq<MixerState<T>>, after: Seq<MixerState<T>>|
            self.starts_from(f) && #[trigger] self.traces(0, tokens, f, after, tr)
    }

    /// **Decoding with a cache** runs the prompt once, from the first position and fresh states,
    /// and then each token on its own, at the position behind all before it and from the states
    /// that the call before left. Each token is read from the call before it. None of them is a
    /// stop token, and there are as many as asked for unless one was hit: then that is what the
    /// last call gives.
    pub proof fn cached_decoding_runs_each_token_once(
        self,
        prompt: Seq<u32>,
        steps: nat,
        stop: Seq<u32>,
        ids: Seq<u32>,
        traces: Seq<ModelTrace<T>>,
        hit: bool,
    ) -> (r: (Seq<Cache<T>>, Seq<(u32, ModelTrace<T>)>))
        requires
            self.cached_gives(prompt, steps, stop, ids, traces, hit),
        ensures
            traces.len() == ids.len(),
            ids.len() <= steps,
            hit <==> ids.len() < steps,
            r.0.len() == ids.len() + 2,
            r.1.len() == ids.len() + 1,
            r.0[0].len == 0,
            self.starts_from(r.0[0].states@),
            stack::is_trace(
                self.sizes,
                self.embed_tokens@,
                self.lm_head@,
                0,
                prompt,
                r.0[0].states@,
                r.0[1].states@,
                self.layer,
                self.norm,
                self.dot,
                r.1[0].1,
            ),
            forall|i: int|
                #![trigger ids[i]]
                0 <= i < ids.len() ==> {
                    &&& !stop.contains(ids[i])
                    &&& ids[i] == r.1[i].0
                    &&& traces[i] == r.1[i].1
                    &&& r.0[i + 1].len == prompt.len() + i
                    &&& stack::is_trace(
                        self.sizes,
                        self.embed_tokens@,
                        self.lm_head@,
                        (prompt.len() + i) as usize,
                        seq![ids[i]],
                        r.0[i + 1].states@,
                        r.0[i + 2].states@,
                        self.layer,
                        self.norm,
                        self.dot,
                        r.1[i + 1].1,
                    )
                },
            forall|i: int|
                0 <= i <= ids.len() ==> super::network::reads(
                    self.exceeds,
                    (#[trigger] r.1[i]).1,
                    r.1[i].0,
                ),
            hit ==> stop.contains(r.1.last().0),
    {
        let (fresh, tr, s) = choose|fresh: Cache<T>, tr: (u32, ModelTrace<T>), s: Cache<T>|
            #![trigger self.steps_to(prompt, fresh, tr, s)]
            {
                &&& fresh.len == 0
                &&& self.starts_from(fresh.states@)
                &&& self.steps_to(prompt, fresh, tr, s)
                &&& self.decodes(tr, s, steps, stop, ids, traces, hit)
            };
        let r = self.lemma_decoded(tr, s, steps, stop, ids, traces, hit);
        let caches = seq![fresh] + r.0;
        assert forall|i: int| #![trigger ids[i]] 0 <= i < ids.len() implies {
            &&& !stop.contains(ids[i])
            &&& ids[i] == r.1[i].0
            &&& traces[i] == r.1[i].1
            &&& caches[i + 1].len == prompt.len() + i
            &&& stack::is_trace(
                self.sizes,
                self.embed_tokens@,
                self.lm_head@,
                (prompt.len() + i) as usize,
                seq![ids[i]],
                caches[i + 1].states@,
                caches[i + 2].states@,
                self.layer,
                self.norm,
                self.dot,
                r.1[i + 1].1,
            )
        } by {
            assert(caches[i + 1] == r.0[i]);
            assert(caches[i + 2] == r.0[i + 1]);
        }
        assert(caches[1] == r.0[0]);
        (caches, r.1)
    }

    proof fn lemma_decoded(
        self,
        tr: (u32, ModelTrace<T>),
        s: Cache<T>,
        steps: nat,
        stop: Seq<u32>,
        ids: Seq<u32>,
        traces: Seq<ModelTrace<T>>,
        hit: bool,
    ) -> (r: (Seq<Cache<T>>, Seq<(u32, ModelTrace<T>)>))
        requires
            self.decodes(tr, s, steps, stop, ids, traces, hit),
            super::network::reads(self.exceeds, tr.1, tr.0),
        ensures
            traces.len() == ids.len(),
            ids.len() <= steps,
            hit <==> ids.len() < steps,
            r.0.len() == ids.len() + 1,
            r.1.len() == ids.len() + 1,
            r.0[0] == s,
            r.1[0] == tr,
            forall|i: int|
                #![trigger ids[i]]
                0 <= i < ids.len() ==> {
                    &&& !stop.contains(ids[i])
                    &&& ids[i] == r.1[i].0
                    &&& traces[i] == r.1[i].1
                    &&& r.0[i].len == s.len + i
                    &&& stack::is_trace(
                        self.sizes,
                        self.embed_tokens@,
                        self.lm_head@,
                        (s.len + i) as usize,
                        seq![ids[i]],
                        r.0[i].states@,
                        r.0[i + 1].states@,
                        self.layer,
                        self.norm,
                        self.dot,
                        r.1[i + 1].1,
                    )
                },
            forall|i: int|
                0 <= i <= ids.len() ==> super::network::reads(
                    self.exceeds,
                    (#[trigger] r.1[i]).1,
                    r.1[i].0,
                ),
            hit ==> stop.contains(r.1.last().0),
        decreases steps,
    {
        if steps == 0 || stop.contains(tr.0) {
            (seq![s], seq![tr])
        } else {
            let (next, s2) = choose|next: (u32, ModelTrace<T>), s2: Cache<T>|
                #![trigger self.steps_to(seq![tr.0], s, next, s2)]
                {
                    &&& self.steps_to(seq![tr.0], s, next, s2)
                    &&& self.decodes(
                        next,
                        s2,
                        (steps - 1) as nat,
                        stop,
                        ids.drop_first(),
                        traces.drop_first(),
                        hit,
                    )
                };
            let rest = self.lemma_decoded(
                next,
                s2,
                (steps - 1) as nat,
                stop,
                ids.drop_first(),
                traces.drop_first(),
                hit,
            );
            let caches = seq![s] + rest.0;
            let reads = seq![tr] + rest.1;
            assert forall|i: int| #![trigger ids[i]] 0 <= i < ids.len() implies {
                &&& !stop.contains(ids[i])
                &&& ids[i] == reads[i].0
                &&& traces[i] == reads[i].1
                &&& caches[i].len == s.len + i
                &&& stack::is_trace(
                    self.sizes,
                    self.embed_tokens@,
                    self.lm_head@,
                    (s.len + i) as usize,
                    seq![ids[i]],
                    caches[i].states@,
                    caches[i + 1].states@,
                    self.layer,
                    self.norm,
                    self.dot,
                    reads[i + 1].1,
                )
            } by {
                assert(caches[i + 1] == rest.0[i]);
                assert(reads[i + 1] == rest.1[i]);
                if i > 0 {
                    assert(ids[i] == ids.drop_first()[i - 1]);
                    assert(traces[i] == traces.drop_first()[i - 1]);
                    assert(caches[i] == rest.0[i - 1]);
                    assert(reads[i] == rest.1[i - 1]);
                }
            }
            assert forall|i: int| 0 <= i <= ids.len() implies super::network::reads(
                self.exceeds,
                (#[trigger] reads[i]).1,
                reads[i].0,
            ) by {
                if i > 0 {
                    assert(reads[i] == rest.1[i - 1]);
                }
            }
            (caches, reads)
        }
    }
}

} // verus!
