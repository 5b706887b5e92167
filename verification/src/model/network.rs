//! A model as decoding sees it: its sizes, its weights outside the layers, and what its layers,
//! its final norm and its head compute.
use super::cache;
use super::cache::{Cache, LayerKind, MixerState};
use super::stack;
use super::stack::{forward, forward_cached, ModelConfig, ModelTrace};
use crate::mixer;
use crate::mixer::GdnConfig;
use crate::tensor;
use vstd::prelude::*;

verus! {

/// A model. `layer` is what a layer computes, `norm` the final norm, `dot` a cell of the head,
/// and `exceeds` compares two logits.
pub struct Network<'a, T, L, N, D, G> {
    pub sizes: ModelConfig,
    pub gdn: GdnConfig,
    /// The kind of each layer, in order.
    pub kinds: &'a [LayerKind],
    /// `[vocab, hidden]`
    pub embed_tokens: &'a [T],
    /// `[vocab, hidden]`, no bias
    pub lm_head: &'a [T],
    pub zero: T,
    pub layer: L,
    pub norm: N,
    pub dot: D,
    pub exceeds: G,
}

/// Whether `next` is the argmax of the last position of a trace, the first on ties.
pub open spec fn reads<T, G: Fn(T, T) -> bool>(exceeds: G, tr: ModelTrace<T>, next: u32) -> bool {
    stack::is_argmax(
        exceeds,
        tensor::row(tr.logits@, tr.t - 1, tr.vocab as int),
        next as int,
    )
}

impl<
    'a,
    T: Copy,
    L: Fn(usize, usize, &[T], &MixerState<T>) -> Result<(Vec<T>, MixerState<T>), String>,
    N: Fn(&[T]) -> Vec<T>,
    D: Fn(&[T], &[T], usize) -> T,
    G: Fn(T, T) -> bool,
> Network<'a, T, L, N, D, G> {
    /// Whether the sizes of runs of up to `t` tokens can be counted, and what is handed in can
    /// be called and keeps lengths.
    pub open spec fn runs(self, t: int) -> bool {
        &&& self.sizes.vocab <= 0x1_0000_0000
        &&& self.sizes.vocab * self.sizes.hidden <= usize::MAX
        &&& self.lm_head.len() == self.sizes.vocab * self.sizes.hidden
        &&& stack::sizes_fit(self.sizes, t)
        &&& self.gdn.channels() <= usize::MAX
        &&& mixer::conv_state_len(self.gdn, 1) <= usize::MAX
        &&& mixer::rule_state_len(self.gdn, 1) <= usize::MAX
        &&& forall|i: usize, s: usize, h: &[T], m: &MixerState<T>|
            call_requires(self.layer, (i, s, h, m))
        &&& forall|
            i: usize,
            s: usize,
            h: &[T],
            m: &MixerState<T>,
            y: (Vec<T>, MixerState<T>),
        | #[trigger]
            call_ensures(self.layer, (i, s, h, m), Ok::<(Vec<T>, MixerState<T>), String>(y))
                ==> y.0.len() == h.len()
        &&& forall|h: &[T]| call_requires(self.norm, (h,))
        &&& forall|h: &[T], y: Vec<T>| #[trigger]
            call_ensures(self.norm, (h,), y) ==> y.len() == h.len()
        &&& forall|a: &[T], c: &[T], o: usize| call_requires(self.dot, (a, c, o))
        &&& forall|a: T, b: T| call_requires(self.exceeds, (a, b))
    }

    /// Whether the embedding rows of those ids that have one are there.
    pub open spec fn has_rows(self, ids: Seq<u32>) -> bool {
        stack::rows_are_there(
            ids,
            self.sizes.vocab as int,
            self.sizes.hidden as int,
            self.embed_tokens.len() as int,
        )
    }

    /// A full table has the rows of all ids that have one.
    pub proof fn a_full_table_has_rows(self, ids: Seq<u32>)
        requires
            self.embed_tokens.len() >= self.sizes.vocab * self.sizes.hidden,
        ensures
            self.has_rows(ids),
    {
        stack::a_full_table_holds_the_rows(
            ids,
            self.sizes.vocab as int,
            self.sizes.hidden as int,
            self.embed_tokens.len() as int,
        );
    }

    /// Whether states are what the layers start a sequence from.
    pub open spec fn starts_from(self, states: Seq<MixerState<T>>) -> bool {
        cache::are_fresh(self.gdn, 1, self.zero, self.kinds@, states)
    }

    /// Whether a trace is that of a chunk at `start`, from `before` to `after`.
    pub open spec fn traces(
        self,
        start: usize,
        tokens: Seq<u32>,
        before: Seq<MixerState<T>>,
        after: Seq<MixerState<T>>,
        tr: ModelTrace<T>,
    ) -> bool {
        stack::is_trace(
            self.sizes,
            self.embed_tokens@,
            self.lm_head@,
            start,
            tokens,
            before,
            after,
            self.layer,
            self.norm,
            self.dot,
            tr,
        )
    }

    /// Whether a chunk at `start` fails with that message.
    pub open spec fn fails(
        self,
        start: usize,
        tokens: Seq<u32>,
        before: Seq<MixerState<T>>,
        after: Seq<MixerState<T>>,
        message: Seq<char>,
    ) -> bool {
        stack::chunk_fails(
            self.sizes,
            self.embed_tokens@,
            start,
            tokens,
            before,
            after,
            self.layer,
            message,
        )
    }

    /// Whether a run of a whole sequence gives a trace.
    pub open spec fn whole_traces(self, tokens: Seq<u32>, tr: ModelTrace<T>) -> bool {
        &&& tokens.len() > 0
        &&& self.embed_tokens.len() == self.sizes.vocab * self.sizes.hidden
        &&& exists|fresh: Seq<MixerState<T>>, after: Seq<MixerState<T>>|
            self.starts_from(fresh) && #[trigger] self.traces(0, tokens, fresh, after, tr)
    }

    /// Whether a run of a whole sequence fails with that message.
    pub open spec fn whole_fails(self, tokens: Seq<u32>, message: Seq<char>) -> bool {
        if tokens.len() == 0 {
            message == "empty input"@
        } else if self.embed_tokens.len() != self.sizes.vocab * self.sizes.hidden {
            message == stack::embedding_fault(
                self.embed_tokens.len() as nat,
                (self.sizes.vocab * self.sizes.hidden) as nat,
            )
        } else {
            exists|fresh: Seq<MixerState<T>>, after: Seq<MixerState<T>>|
                self.starts_from(fresh) && #[trigger] self.fails(0, tokens, fresh, after, message)
        }
    }

    /// A cache that a sequence starts from.
    pub fn fresh_cache(&self) -> (r: Cache<T>)
        requires
            self.runs(0),
        ensures
            r.len == 0,
            self.starts_from(r.states@),
    {
        Cache::new(&self.gdn, self.kinds, 1, self.zero)
    }

    /// The argmax of the last position of a trace.
    fn argmax(&self, tr: &ModelTrace<T>) -> (next: u32)
        requires
            self.runs(0),
            tr.t > 0,
            tr.vocab == self.sizes.vocab,
            tr.logits.len() == tr.t * tr.vocab,
        ensures
            reads(self.exceeds, *tr, next),
    {
        let i: usize = tr.argmax_last(&self.exceeds);
        i as u32
    }

    /// Runs a whole sequence and reads its argmax.
    pub(crate) fn run_whole(&self, tokens: &[u32]) -> (r: Result<(u32, ModelTrace<T>), String>)
        requires
            self.runs(tokens.len() as int),
        ensures
            match r {
                Ok((next, tr)) => self.whole_traces(tokens@, tr) && reads(self.exceeds, tr, next),
                Err(e) => self.whole_fails(tokens@, e@),
            },
    {
        let fresh = self.fresh_cache().states;
        let ghost before = fresh@;
        match forward(
            &self.sizes,
            self.embed_tokens,
            self.lm_head,
            fresh,
            tokens,
            &self.layer,
            &self.norm,
            &self.dot,
        ) {
            Ok(tr) => {
                let next: u32 = self.argmax(&tr);
                proof {
                    let after = choose|after: Seq<MixerState<T>>| #[trigger]
                        stack::is_trace(
                            self.sizes,
                            self.embed_tokens@,
                            self.lm_head@,
                            0,
                            tokens@,
                            before,
                            after,
                            self.layer,
                            self.norm,
                            self.dot,
                            tr,
                        );
                    assert(self.traces(0, tokens@, before, after, tr));
                }
                Ok((next, tr))
            },
            Err(e) => {
                proof {
                    if tokens.len() > 0 && self.embed_tokens.len() == self.sizes.vocab
                        * self.sizes.hidden {
                        let after = choose|after: Seq<MixerState<T>>| #[trigger]
                            stack::chunk_fails(
                                self.sizes,
                                self.embed_tokens@,
                                0,
                                tokens@,
                                before,
                                after,
                                self.layer,
                                e@,
                            );
                        assert(self.fails(0, tokens@, before, after, e@));
                    }
                }
                Err(e)
            },
        }
    }

    /// Runs a chunk behind what a cache holds, and reads its argmax.
    pub(crate) fn run_chunk(&self, tokens: &[u32], c: &mut Cache<T>) -> (r: Result<
        (u32, ModelTrace<T>),
        String,
    >)
        requires
            self.runs(tokens.len() as int),
            self.has_rows(tokens@),
            tokens.len() > 0,
            old(c).states.len() == self.kinds.len(),
            old(c).len + tokens.len() <= usize::MAX,
        ensures
            match r {
                Ok((next, tr)) => {
                    &&& self.traces(
                        old(c).len,
                        tokens@,
                        old(c).states@,
                        final(c).states@,
                        tr,
                    )
                    &&& reads(self.exceeds, tr, next)
                    &&& final(c).len == old(c).len + tokens.len()
                    &&& final(c).states.len() == self.kinds.len()
                },
                Err(e) => self.fails(
                    old(c).len,
                    tokens@,
                    old(c).states@,
                    final(c).states@,
                    e@,
                ),
            },
    {
        match forward_cached(
            &self.sizes,
            self.embed_tokens,
            self.lm_head,
            self.kinds.len(),
            c,
            tokens,
            &self.layer,
            &self.norm,
            &self.dot,
        ) {
            Ok(tr) => {
                let next: u32 = self.argmax(&tr);
                Ok((next, tr))
            },
            Err(e) => Err(e),
        }
    }
}

} // verus!
