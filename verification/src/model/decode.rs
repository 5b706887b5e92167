//! Greedy decoding: read the argmax, append it, repeat.
use super::cache::{Cache, MixerState};
use super::network;
use super::network::Network;
use super::stack::ModelTrace;
use crate::text::to_owned_text;
use vstd::prelude::*;

verus! {

impl<
    'a,
    T: Copy,
    L: Fn(usize, usize, &[T], &MixerState<T>) -> Result<(Vec<T>, MixerState<T>), String>,
    N: Fn(&[T]) -> Vec<T>,
    D: Fn(&[T], &[T], usize) -> T,
    G: Fn(T, T) -> bool,
> Network<'a, T, L, N, D, G> {
    // -----------------------------------------------------------------------
    // with a cache
    // -----------------------------------------------------------------------
    /// Whether a chunk behind what a cache holds gives an argmax, a trace and the cache behind
    /// it.
    pub open spec fn steps_to(
        self,
        tokens: Seq<u32>,
        s: Cache<T>,
        next: (u32, ModelTrace<T>),
        s2: Cache<T>,
    ) -> bool {
        &&& self.traces(s.len, tokens, s.states@, s2.states@, next.1)
        &&& network::reads(self.exceeds, next.1, next.0)
        &&& s2.len == s.len + tokens.len()
    }

    /// Whether a chunk behind what a cache holds fails with that message.
    pub open spec fn step_fails(self, tokens: Seq<u32>, s: Cache<T>, message: Seq<char>) -> bool {
        exists|after: Seq<MixerState<T>>| #[trigger]
            self.fails(s.len, tokens, s.states@, after, message)
    }

    /// Whether decoding goes on to give `ids`, with `tr` read from the call before and `s` the
    /// cache behind it, and at most `steps` tokens to come. A stop token ends it and is not
    /// among the ids; `hit` says whether one did.
    pub open spec fn decodes(
        self,
        tr: (u32, ModelTrace<T>),
        s: Cache<T>,
        steps: nat,
        stop: Seq<u32>,
        ids: Seq<u32>,
        traces: Seq<ModelTrace<T>>,
        hit: bool,
    ) -> bool
        decreases steps,
    {
        if steps == 0 {
            ids.len() == 0 && traces.len() == 0 && !hit
        } else if stop.contains(tr.0) {
            ids.len() == 0 && traces.len() == 0 && hit
        } else {
            &&& ids.len() > 0
            &&& traces.len() > 0
            &&& ids[0] == tr.0
            &&& traces[0] == tr.1
            &&& exists|next: (u32, ModelTrace<T>), s2: Cache<T>|
                #![trigger self.steps_to(seq![tr.0], s, next, s2)]
                {
                    &&& self.steps_to(seq![tr.0], s, next, s2)
                    &&& self.decodes(
                        next,
                        s2,
                        (steps - 1) as nat,
                        stop,
                        ids.drop_first(),
                        traces.drop_first(),
                        hit,
                    )
                }
        }
    }

    /// Whether decoding goes on to fail with that message.
    pub open spec fn decoding_fails(
        self,
        tr: (u32, ModelTrace<T>),
        s: Cache<T>,
        steps: nat,
        stop: Seq<u32>,
        message: Seq<char>,
    ) -> bool
        decreases steps,
    {
        if steps == 0 || stop.contains(tr.0) {
            false
        } else {
            ||| self.step_fails(seq![tr.0], s, message)
            ||| exists|next: (u32, ModelTrace<T>), s2: Cache<T>|
                #![trigger self.steps_to(seq![tr.0], s, next, s2)]
                self.steps_to(seq![tr.0], s, next, s2) && self.decoding_fails(
                    next,
                    s2,
                    (steps - 1) as nat,
                    stop,
                    message,
                )
        }
    }

    /// Whether the embedding rows are there of whatever tokens decoding goes on to read back.
    pub open spec fn rows_to_come(
        self,
        tr: (u32, ModelTrace<T>),
        s: Cache<T>,
        steps: nat,
        stop: Seq<u32>,
    ) -> bool
        decreases steps,
    {
        if steps == 0 || stop.contains(tr.0) {
            true
        } else {
            &&& self.has_rows(seq![tr.0])
            &&& forall|next: (u32, ModelTrace<T>), s2: Cache<T>|
                #![trigger self.steps_to(seq![tr.0], s, next, s2)]
                self.steps_to(seq![tr.0], s, next, s2) ==> self.rows_to_come(
                    next,
                    s2,
                    (steps - 1) as nat,
                    stop,
                )
        }
    }

    /// Whether the embedding rows that decoding behind a prompt uses are there: those of the
    /// prompt, and those of the tokens that are read back.
    pub open spec fn rows_to_decode(self, prompt: Seq<u32>, steps: nat, stop: Seq<u32>) -> bool {
        &&& self.has_rows(prompt)
        &&& forall|fresh: Cache<T>, tr: (u32, ModelTrace<T>), s: Cache<T>|
            #![trigger self.steps_to(prompt, fresh, tr, s)]
            fresh.len == 0 && self.starts_from(fresh.states@) && self.steps_to(
                prompt,
                fresh,
                tr,
                s,
            ) ==> self.rows_to_come(tr, s, steps, stop)
    }

    proof fn lemma_full_table_goes_on(
        self,
        tr: (u32, ModelTrace<T>),
        s: Cache<T>,
        steps: nat,
        stop: Seq<u32>,
    )
        requires
            self.embed_tokens.len() >= self.sizes.vocab * self.sizes.hidden,
        ensures
            self.rows_to_come(tr, s, steps, stop),
        decreases steps,
    {
        if steps > 0 && !stop.contains(tr.0) {
            self.a_full_table_has_rows(seq![tr.0]);
            assert forall|next: (u32, ModelTrace<T>), s2: Cache<T>|
                #![trigger self.steps_to(seq![tr.0], s, next, s2)]
                self.steps_to(seq![tr.0], s, next, s2) implies self.rows_to_come(
                next,
                s2,
                (steps - 1) as nat,
                stop,
            ) by {
                self.lemma_full_table_goes_on(next, s2, (steps - 1) as nat, stop);
            }
        }
    }

    /// With a full embedding table every prompt can be decoded.
    pub proof fn a_full_table_is_enough(self, prompt: Seq<u32>, steps: nat, stop: Seq<u32>)
        requires
            self.embed_tokens.len() >= self.sizes.vocab * self.sizes.hidden,
        ensures
            self.rows_to_decode(prompt, steps, stop),
    {
        self.a_full_table_has_rows(prompt);
        assert forall|fresh: Cache<T>, tr: (u32, ModelTrace<T>), s: Cache<T>|
            #![trigger self.steps_to(prompt, fresh, tr, s)]
            fresh.len == 0 && self.starts_from(fresh.states@) && self.steps_to(
                prompt,
                fresh,
                tr,
                s,
            ) implies self.rows_to_come(tr, s, steps, stop) by {
            self.lemma_full_table_goes_on(tr, s, steps, stop);
        }
    }

    /// Whether decoding behind a prompt gives that: prefill once, then one token per step.
    pub open spec fn cached_gives(
        self,
        prompt: Seq<u32>,
        steps: nat,
        stop: Seq<u32>,
        ids: Seq<u32>,
        traces: Seq<ModelTrace<T>>,
        hit: bool,
    ) -> bool {
        &&& prompt.len() > 0
        &&& exists|fresh: Cache<T>, tr: (u32, ModelTrace<T>), s: Cache<T>|
            #![trigger self.steps_to(prompt, fresh, tr, s)]
            {
                &&& fresh.len == 0
                &&& self.starts_from(fresh.states@)
                &&& self.steps_to(prompt, fresh, tr, s)
                &&& self.decodes(tr, s, steps, stop, ids, traces, hit)
            }
    }

    /// Whether decoding behind a prompt fails with that message.
    pub open spec fn cached_fails(
        self,
        prompt: Seq<u32>,
        steps: nat,
        stop: Seq<u32>,
        message: Seq<char>,
    ) -> bool {
        if prompt.len() == 0 {
            message == "empty prompt"@
        } else {
            exists|fresh: Cache<T>|
                {
                    &&& fresh.len == 0
                    &&& #[trigger] self.starts_from(fresh.states@)
                    &&& self.prefill_fails(prompt, fresh, steps, stop, message)
                }
        }
    }

    /// Whether decoding behind a prompt, from a fresh cache, fails: in the prefill, or later.
    pub open spec fn prefill_fails(
        self,
        prompt: Seq<u32>,
        fresh: Cache<T>,
        steps: nat,
        stop: Seq<u32>,
        message: Seq<char>,
    ) -> bool {
        ||| self.step_fails(prompt, fresh, message)
        ||| exists|tr: (u32, ModelTrace<T>), s: Cache<T>|
            #![trigger self.steps_to(prompt, fresh, tr, s)]
            self.steps_to(prompt, fresh, tr, s) && self.decoding_fails(
                tr,
                s,
                steps,
                stop,
                message,
            )
    }

    /// What was done so far leads from where decoding began to wherever it goes from here.
    spec fn leads(
        self,
        tr0: (u32, ModelTrace<T>),
        s0: Cache<T>,
        steps0: nat,
        tr: (u32, ModelTrace<T>),
        s: Cache<T>,
        steps: nat,
        stop: Seq<u32>,
        ids: Seq<u32>,
        traces: Seq<ModelTrace<T>>,
    ) -> bool {
        &&& forall|i: Seq<u32>, t: Seq<ModelTrace<T>>, hit: bool| #[trigger]
            self.decodes(tr, s, steps, stop, i, t, hit) ==> self.decodes(
                tr0,
                s0,
                steps0,
                stop,
                ids + i,
                traces + t,
                hit,
            )
        &&& forall|e: Seq<char>| #[trigger]
            self.decoding_fails(tr, s, steps, stop, e) ==> self.decoding_fails(
                tr0,
                s0,
                steps0,
                stop,
                e,
            )
    }

    proof fn lemma_leads_on(
        self,
        tr0: (u32, ModelTrace<T>),
        s0: Cache<T>,
        steps0: nat,
        tr: (u32, ModelTrace<T>),
        s: Cache<T>,
        steps: nat,
        stop: Seq<u32>,
        ids: Seq<u32>,
        traces: Seq<ModelTrace<T>>,
        next: (u32, ModelTrace<T>),
        s2: Cache<T>,
    )
        requires
            self.leads(tr0, s0, steps0, tr, s, steps, stop, ids, traces),
            steps > 0,
            !stop.contains(tr.0),
            self.steps_to(seq![tr.0], s, next, s2),
        ensures
            self.leads(
                tr0,
                s0,
                steps0,
                next,
                s2,
                (steps - 1) as nat,
                stop,
                ids.push(tr.0),
                traces.push(tr.1),
            ),
    {
        let left = (steps - 1) as nat;
        assert forall|i: Seq<u32>, t: Seq<ModelTrace<T>>, hit: bool| #[trigger]
            self.decodes(next, s2, left, stop, i, t, hit) implies self.decodes(
            tr0,
            s0,
            steps0,
            stop,
            ids.push(tr.0) + i,
            traces.push(tr.1) + t,
            hit,
        ) by {
            let i2 = seq![tr.0] + i;
            let t2 = seq![tr.1] + t;
            assert(i2.drop_first() =~= i);
            assert(t2.drop_first() =~= t);
            assert(self.decodes(tr, s, steps, stop, i2, t2, hit));
            assert(ids + i2 =~= ids.push(tr.0) + i);
            assert(traces + t2 =~= traces.push(tr.1) + t);
        }
        assert forall|e: Seq<char>| #[trigger]
            self.decoding_fails(next, s2, left, stop, e) implies self.decoding_fails(
            tr0,
            s0,
            steps0,
            stop,
            e,
        ) by {
            assert(self.decoding_fails(tr, s, steps, stop, e));
        }
    }

    /// Decoding to the limit, with nothing that stops it.
    pub(crate) proof fn lemma_nothing_stops(
        self,
        tr: (u32, ModelTrace<T>),
        s: Cache<T>,
        steps: nat,
        ids: Seq<u32>,
        traces: Seq<ModelTrace<T>>,
        hit: bool,
    )
        requires
            self.decodes(tr, s, steps, seq![], ids, traces, hit),
        ensures
            !hit,
            ids.len() == steps,
            traces.len() == steps,
        decreases steps,
    {
        if steps > 0 {
            let (next, s2) = choose|next: (u32, ModelTrace<T>), s2: Cache<T>|
                #![trigger self.steps_to(seq![tr.0], s, next, s2)]
                {
                    &&& self.steps_to(seq![tr.0], s, next, s2)
                    &&& self.decodes(
                        next,
                        s2,
                        (steps - 1) as nat,
                        seq![],
                        ids.drop_first(),
                        traces.drop_first(),
                        hit,
                    )
                };
            self.lemma_nothing_stops(
                next,
                s2,
                (steps - 1) as nat,
                ids.drop_first(),
                traces.drop_first(),
                hit,
            );
        }
    }

    // -----------------------------------------------------------------------
    // without a cache
    // -----------------------------------------------------------------------
    /// Whether each of the ids is the argmax behind the prompt and the ids before it, read
    /// from a run of that whole sequence.
    pub open spec fn appends_argmaxes(
        self,
        prompt: Seq<u32>,
        ids: Seq<u32>,
        traces: Seq<ModelTrace<T>>,
    ) -> bool {
        &&& ids.len() == traces.len()
        &&& forall|i: int|
            0 <= i < ids.len() ==> self.whole_traces(prompt + ids.take(i), #[trigger] traces[i])
                && network::reads(self.exceeds, traces[i], ids[i])
    }

    proof fn lemma_appends_on(
        self,
        prompt: Seq<u32>,
        ids: Seq<u32>,
        traces: Seq<ModelTrace<T>>,
        next: u32,
        tr: ModelTrace<T>,
    )
        requires
            self.appends_argmaxes(prompt, ids, traces),
            self.whole_traces(prompt + ids, tr),
            network::reads(self.exceeds, tr, next),
        ensures
            self.appends_argmaxes(prompt, ids.push(next), traces.push(tr)),
    {
        let ids2 = ids.push(next);
        let traces2 = traces.push(tr);
        assert forall|i: int| 0 <= i < ids2.len() implies self.whole_traces(
            prompt + ids2.take(i),
            #[trigger] traces2[i],
        ) && network::reads(self.exceeds, traces2[i], ids2[i]) by {
            if i < ids.len() {
                assert(ids2.take(i) =~= ids.take(i));
                assert(traces2[i] == traces[i]);
            } else {
                assert(ids2.take(i) =~= ids);
            }
        }
    }
}

/// Whether `x` is one of `stop`.
fn is_stop(stop: &[u32], x: u32) -> (r: bool)
    ensures
        r == stop@.contains(x),
{
    let mut i: usize = 0;
    while i < stop.len()
        invariant
            i <= stop.len(),
            forall|k: int| 0 <= k < i ==> stop@[k] != x,
        decreases stop.len() - i,
    {
        if stop[i] == x {
            return true;
        }
        i += 1;
    }
    false
}

/// Greedy decoding with a cache and a stop set: prefill once, then one token per step.
///
/// `stop` is how a chat turn ends: generating the end-of-turn token means the assistant is
/// done. The stop token is **not** included in the returned ids -- it is the turn's
/// terminator rather than part of the reply -- and `true` in the third position says one was
/// hit. Hitting the step limit instead returns `false`, so a caller can tell a finished turn
/// from a truncated one.
///
/// Each returned trace covers only the tokens of the call that produced the token: the first
/// is the prefill.
pub fn greedy_cached_stopping<
    'a,
    T: Copy,
    L: Fn(usize, usize, &[T], &MixerState<T>) -> Result<(Vec<T>, MixerState<T>), String>,
    N: Fn(&[T]) -> Vec<T>,
    D: Fn(&[T], &[T], usize) -> T,
    G: Fn(T, T) -> bool,
>(
    net: &Network<'a, T, L, N, D, G>,
    prompt: &[u32],
    steps: usize,
    stop: &[u32],
) -> (r: Result<(Vec<u32>, Vec<ModelTrace<T>>, bool), String>)
    requires
        net.runs(prompt.len() as int),
        net.rows_to_decode(prompt@, steps as nat, stop@),
        prompt.len() + steps <= usize::MAX,
    ensures
        match r {
            Ok((ids, traces, hit)) => net.cached_gives(
                prompt@,
                steps as nat,
                stop@,
                ids@,
                traces@,
                hit,
            ),
            Err(e) => net.cached_fails(prompt@, steps as nat, stop@, e@),
        },
{
    if prompt.len() == 0 {
        return Err(to_owned_text("empty prompt"));
    }
    proof {
        lemma_fewer_fit(*net, prompt.len() as int, 1);
        lemma_fewer_fit(*net, prompt.len() as int, 0);
    }
    let mut cache = net.fresh_cache();
    let ghost fresh = cache;
    let (first, first_trace) = match net.run_chunk(prompt, &mut cache) {
        Ok(p) => p,
        Err(e) => {
            proof {
                assert(net.fails(fresh.len, prompt@, fresh.states@, cache.states@, e@));
                assert(net.starts_from(fresh.states@));
            }
            return Err(e);
        },
    };
    let mut next: u32 = first;
    let mut trace: ModelTrace<T> = first_trace;
    let ghost tr0 = (next, trace);
    let ghost s0 = cache;
    assert(net.steps_to(prompt@, fresh, tr0, s0));
    let mut generated: Vec<u32> = Vec::new();
    let mut traces: Vec<ModelTrace<T>> = Vec::new();
    let mut left: usize = steps;
    proof {
        assert forall|i: Seq<u32>, t: Seq<ModelTrace<T>>, hit: bool| #[trigger]
            net.decodes(tr0, s0, left as nat, stop@, i, t, hit) implies net.decodes(
            tr0,
            s0,
            steps as nat,
            stop@,
            generated@ + i,
            traces@ + t,
            hit,
        ) by {
            assert(generated@ + i =~= i);
            assert(traces@ + t =~= t);
        }
    }
    while left > 0
        invariant
            net.runs(1),
            net.rows_to_come((next, trace), cache, left as nat, stop@),
            prompt.len() > 0,
            prompt.len() + steps <= usize::MAX,
            left <= steps,
            cache.len == prompt.len() + (steps - left),
            cache.states.len() == net.kinds.len(),
            fresh.len == 0,
            net.starts_from(fresh.states@),
            net.steps_to(prompt@, fresh, tr0, s0),
            net.leads(
                tr0,
                s0,
                steps as nat,
                (next, trace),
                cache,
                left as nat,
                stop@,
                generated@,
                traces@,
            ),
        decreases left,
    {
        if is_stop(stop, next) {
            proof {
                assert(net.decodes((next, trace), cache, left as nat, stop@, seq![], seq![], true));
                assert(generated@ + Seq::<u32>::empty() =~= generated@);
                assert(traces@ + Seq::<ModelTrace<T>>::empty() =~= traces@);
            }
            return Ok((generated, traces, true));
        }
        let mut one: Vec<u32> = Vec::new();
        one.push(next);
        assert(one@ =~= seq![next]);
        let ghost before = cache;
        let ghost tr = (next, trace);
        match net.run_chunk(one.as_slice(), &mut cache) {
            Ok((next2, trace2)) => {
                proof {
                    assert(net.steps_to(seq![next], before, (next2, trace2), cache));
                    net.lemma_leads_on(
                        tr0,
                        s0,
                        steps as nat,
                        tr,
                        before,
                        left as nat,
                        stop@,
                        generated@,
                        traces@,
                        (next2, trace2),
                        cache,
                    );
                }
                generated.push(next);
                traces.push(trace);
                next = next2;
                trace = trace2;
            },
            Err(e) => {
                proof {
                    assert(net.fails(before.len, seq![next], before.states@, cache.states@, e@));
                    assert(net.step_fails(seq![next], before, e@));
                    assert(net.decoding_fails(tr, before, left as nat, stop@, e@));
                    assert(net.starts_from(fresh.states@));
                    assert(net.prefill_fails(prompt@, fresh, steps as nat, stop@, e@));
                }
                return Err(e);
            },
        }
        left -= 1;
    }
    proof {
        assert(net.decodes((next, trace), cache, 0, stop@, seq![], seq![], false));
        assert(generated@ + Seq::<u32>::empty() =~= generated@);
        assert(traces@ + Seq::<ModelTrace<T>>::empty() =~= traces@);
    }
    Ok((generated, traces, false))
}

/// What fits for some tokens fits for fewer.
proof fn lemma_fewer_fit<
    'a,
    T: Copy,
    L: Fn(usize, usize, &[T], &MixerState<T>) -> Result<(Vec<T>, MixerState<T>), String>,
    N: Fn(&[T]) -> Vec<T>,
    D: Fn(&[T], &[T], usize) -> T,
    G: Fn(T, T) -> bool,
>(net: Network<'a, T, L, N, D, G>, t: int, fewer: int)
    requires
        net.runs(t),
        0 <= fewer <= t,
    ensures
        net.runs(fewer),
{
    let h = net.sizes.hidden;
    let v = net.sizes.vocab;
    assert(fewer * h <= t * h && fewer * v <= t * v) by (nonlinear_arith)
        requires
            0 <= fewer <= t,
            0 <= h,
            0 <= v,
    ;
}

/// Greedy decoding with a cache: prefill once, then one token per step, to the step limit.
pub fn greedy_cached<
    'a,
    T: Copy,
    L: Fn(usize, usize, &[T], &MixerState<T>) -> Result<(Vec<T>, MixerState<T>), String>,
    N: Fn(&[T]) -> Vec<T>,
    D: Fn(&[T], &[T], usize) -> T,
    G: Fn(T, T) -> bool,
>(net: &Network<'a, T, L, N, D, G>, prompt: &[u32], steps: usize) -> (r: Result<
    (Vec<u32>, Vec<ModelTrace<T>>),
    String,
>)
    requires
        net.runs(prompt.len() as int),
        net.rows_to_decode(prompt@, steps as nat, seq![]),
        prompt.len() + steps <= usize::MAX,
    ensures
        match r {
            Ok((ids, traces)) => {
                &&& net.cached_gives(prompt@, steps as nat, seq![], ids@, traces@, false)
                &&& ids.len() == steps
                &&& traces.len() == steps
            },
            Err(e) => net.cached_fails(prompt@, steps as nat, seq![], e@),
        },
{
    let none: Vec<u32> = Vec::new();
    assert(none@ =~= seq![]);
    match greedy_cached_stopping(net, prompt, steps, none.as_slice()) {
        Ok((ids, traces, hit)) => {
            proof {
                let (fresh, tr, s) = choose|
                    fresh: Cache<T>,
                    tr: (u32, ModelTrace<T>),
                    s: Cache<T>,
                |
                    #![trigger net.steps_to(prompt@, fresh, tr, s)]
                    {
                        &&& fresh.len == 0
                        &&& net.starts_from(fresh.states@)
                        &&& net.steps_to(prompt@, fresh, tr, s)
                        &&& net.decodes(tr, s, steps as nat, seq![], ids@, traces@, hit)
                    };
                net.lemma_nothing_stops(tr, s, steps as nat, ids@, traces@, hit);
            }
            Ok((ids, traces))
        },
        Err(e) => Err(e),
    }
}

/// Greedy decoding: run, take the argmax of the last position, append, repeat -- re-running
/// the full sequence each step rather than using a cache.
pub fn greedy<
    'a,
    T: Copy,
    L: Fn(usize, usize, &[T], &MixerState<T>) -> Result<(Vec<T>, MixerState<T>), String>,
    N: Fn(&[T]) -> Vec<T>,
    D: Fn(&[T], &[T], usize) -> T,
    G: Fn(T, T) -> bool,
>(net: &Network<'a, T, L, N, D, G>, prompt: &[u32], steps: usize) -> (r: Result<
    (Vec<u32>, Vec<ModelTrace<T>>),
    String,
>)
    requires
        net.runs(prompt.len() + steps),
    ensures
        match r {
            Ok((ids, traces)) => ids.len() == steps && net.appends_argmaxes(
                prompt@,
                ids@,
                traces@,
            ),
            Err(e) => exists|ids: Seq<u32>, traces: Seq<ModelTrace<T>>|
                {
                    &&& ids.len() < steps
                    &&& #[trigger] net.appends_argmaxes(prompt@, ids, traces)
                    &&& net.whole_fails(prompt@ + ids, e@)
                },
        },
{
    let mut ids: Vec<u32> = Vec::new();
    ids.extend_from_slice(prompt);
    assert(ids@ =~= prompt@);
    let mut generated: Vec<u32> = Vec::new();
    let mut traces: Vec<ModelTrace<T>> = Vec::new();
    assert(prompt@ + generated@ =~= ids@);
    while generated.len() < steps
        invariant
            net.runs(prompt.len() + steps),
            generated.len() <= steps,
            ids@ == prompt@ + generated@,
            net.appends_argmaxes(prompt@, generated@, traces@),
        decreases steps - generated.len(),
    {
        proof {
            lemma_fewer_fit(*net, prompt.len() + steps, ids.len() as int);
        }
        let ghost before = generated@;
        let ghost seen = traces@;
        match net.run_whole(ids.as_slice()) {
            Ok((next, tr)) => {
                generated.push(next);
                ids.push(next);
                traces.push(tr);
                proof {
                    assert(ids@ =~= prompt@ + generated@);
                    net.lemma_appends_on(prompt@, before, seen, next, tr);
                }
            },
            Err(e) => {
                assert(net.appends_argmaxes(prompt@, before, seen));
                return Err(e);
            },
        }
    }
    Ok((generated, traces))
}

} // verus!
