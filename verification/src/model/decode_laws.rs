//! Greedy decoding gives the same tokens with a cache as without one, and a stop token only
//! cuts it short.
use super::cache;
use super::cache::{Cache, MixerState};
use super::laws;
use super::network;
use super::network::Network;
use super::stack;
use super::stack::ModelTrace;
use crate::mixer;
use crate::sample::filters;
use crate::tensor;
use vstd::prelude::*;

verus! {

/// Whether two values always compare alike.
pub open spec fn order_is_function<T, G: Fn(T, T) -> bool>(exceeds: G) -> bool {
    forall|v: T, w: T, a: bool, b: bool|
        #![trigger call_ensures(exceeds, (v, w), a), call_ensures(exceeds, (v, w), b)]
        call_ensures(exceeds, (v, w), a) && call_ensures(exceeds, (v, w), b) ==> a == b
}

/// The logits of the last position of a trace.
pub open spec fn last_logits<T>(tr: ModelTrace<T>) -> Seq<T> {
    tensor::row(tr.logits@, tr.t - 1, tr.vocab as int)
}

/// The best so far goes by the values.
proof fn lemma_bests_agree<T, G: Fn(T, T) -> bool>(
    exceeds: G,
    x: Seq<T>,
    a: Seq<int>,
    b: Seq<int>,
    i: int,
)
    requires
        order_is_function(exceeds),
        stack::are_bests(exceeds, x, a),
        stack::are_bests(exceeds, x, b),
        0 <= i <= x.len(),
    ensures
        a[i] == b[i],
    decreases i,
{
    if i > 0 {
        lemma_bests_agree(exceeds, x, a, b, i - 1);
        assert(stack::best_steps(exceeds, x, a, i - 1));
        assert(stack::best_steps(exceeds, x, b, i - 1));
    }
}

/// The argmax goes by the last logits.
proof fn lemma_argmaxes_agree<T, G: Fn(T, T) -> bool>(
    exceeds: G,
    a: ModelTrace<T>,
    b: ModelTrace<T>,
    x: u32,
    y: u32,
)
    requires
        order_is_function(exceeds),
        a.vocab == b.vocab,
        last_logits(a) == last_logits(b),
        network::reads(exceeds, a, x),
        network::reads(exceeds, b, y),
    ensures
        x == y,
{
    let row = last_logits(a);
    let k = choose|bests: Seq<int>| #[trigger]
        stack::are_bests(exceeds, row, bests) && x as int == bests.last();
    let l = choose|bests: Seq<int>| #[trigger]
        stack::are_bests(exceeds, row, bests) && y as int == bests.last();
    lemma_bests_agree(exceeds, row, k, l, row.len() as int);
}

/// Whether comparing goes by integers that stand for the values.
pub open spec fn follows_keys<T, G: Fn(T, T) -> bool>(exceeds: G, key: spec_fn(T) -> i64) -> bool {
    forall|v: T, w: T, r: bool| #[trigger]
        call_ensures(exceeds, (v, w), r) ==> r == (key(v) > key(w))
}

/// The best so far is the first of the largest so far.
proof fn lemma_bests_are_largest<T, G: Fn(T, T) -> bool>(
    exceeds: G,
    key: spec_fn(T) -> i64,
    x: Seq<T>,
    bests: Seq<int>,
    i: int,
)
    requires
        follows_keys(exceeds, key),
        stack::are_bests(exceeds, x, bests),
        0 < i <= x.len(),
    ensures
        filters::is_first_largest(x.take(i).map_values(key), bests[i]),
    decreases i,
{
    let keys = x.take(i).map_values(key);
    assert(stack::best_steps(exceeds, x, bests, i - 1));
    if i > 1 {
        lemma_bests_are_largest(exceeds, key, x, bests, i - 1);
        let less = x.take(i - 1).map_values(key);
        assert(less =~= keys.drop_last());
        assert forall|j: int| 0 <= j < keys.len() implies #[trigger] keys[j] <= keys[bests[i]] by {
            if j < i - 1 {
                assert(less[j] <= less[bests[i - 1]]);
            }
        }
        assert forall|j: int| 0 <= j < bests[i] implies #[trigger] keys[j] < keys[bests[i]] by {
            assert(less[j] <= less[bests[i - 1]]);
        }
    }
}

/// Of values that are ordered as integers are, the argmax is the first of the largest.
pub proof fn argmax_is_the_first_of_the_largest<T, G: Fn(T, T) -> bool>(
    exceeds: G,
    key: spec_fn(T) -> i64,
    x: Seq<T>,
    best: int,
)
    requires
        follows_keys(exceeds, key),
        x.len() > 0,
        stack::is_argmax(exceeds, x, best),
    ensures
        filters::is_first_largest(x.map_values(key), best),
{
    let bests = choose|bests: Seq<int>| #[trigger]
        stack::are_bests(exceeds, x, bests) && best == bests.last();
    lemma_bests_are_largest(exceeds, key, x, bests, x.len() as int);
    assert(x.take(x.len() as int) =~= x);
}

/// A first value that nothing exceeds stays the argmax: with a `NaN` in front, the argmax is 0.
pub proof fn what_nothing_exceeds_stays<T, G: Fn(T, T) -> bool>(
    exceeds: G,
    x: Seq<T>,
    best: int,
)
    requires
        x.len() > 0,
        forall|v: T, r: bool| #[trigger] call_ensures(exceeds, (v, x[0]), r) ==> !r,
        stack::is_argmax(exceeds, x, best),
    ensures
        best == 0,
{
    let bests = choose|bests: Seq<int>| #[trigger]
        stack::are_bests(exceeds, x, bests) && best == bests.last();
    lemma_first_stays(exceeds, x, bests, x.len() as int);
}

proof fn lemma_first_stays<T, G: Fn(T, T) -> bool>(
    exceeds: G,
    x: Seq<T>,
    bests: Seq<int>,
    i: int,
)
    requires
        forall|v: T, r: bool| #[trigger] call_ensures(exceeds, (v, x[0]), r) ==> !r,
        stack::are_bests(exceeds, x, bests),
        0 <= i <= x.len(),
    ensures
        bests[i] == 0,
    decreases i,
{
    if i > 0 {
        lemma_first_stays(exceeds, x, bests, i - 1);
        assert(stack::best_steps(exceeds, x, bests, i - 1));
    }
}

impl<
    'a,
    T: Copy,
    L: Fn(usize, usize, &[T], &MixerState<T>) -> Result<(Vec<T>, MixerState<T>), String>,
    N: Fn(&[T]) -> Vec<T>,
    D: Fn(&[T], &[T], usize) -> T,
    G: Fn(T, T) -> bool,
> Network<'a, T, L, N, D, G> {
    /// Whether what is handed in always makes the same of the same.
    pub open spec fn is_function(self) -> bool {
        &&& laws::layer_is_function(self.layer)
        &&& laws::norm_is_function(self.norm)
        &&& mixer::laws::cell_is_function(self.dot)
        &&& order_is_function(self.exceeds)
    }

    /// Whether what ran once does not fail on the same.
    pub open spec fn is_settled(self) -> bool {
        self.is_function() && laws::layer_is_settled(self.layer)
    }

    /// Whether the layers go on: where one can do the whole and a first chunk, it does not
    /// fail on the second.
    pub open spec fn goes_on(self) -> bool {
        forall|start: usize, middle: usize, t1: int, t2: int|
            0 <= t1 && 0 <= t2 && middle == start + t1 ==> #[trigger] laws::layer_goes_on(
                self.layer,
                start,
                middle,
                t1,
                t2,
                self.sizes.hidden as int,
            )
    }

    /// Whether the layers continue from whatever they stopped at, and the final norm goes row
    /// by row.
    pub open spec fn continues(self) -> bool {
        &&& laws::layer_keeps_length(self.layer)
        &&& forall|start: usize, middle: usize, t1: int, t2: int|
            0 <= t1 && 0 <= t2 && middle == start + t1 ==> #[trigger] laws::layer_continues(
                self.layer,
                start,
                middle,
                t1,
                t2,
                self.sizes.hidden as int,
            )
        &&& forall|t1: int, t2: int|
            0 <= t1 && 0 <= t2 ==> #[trigger] laws::norm_goes_by_rows(
                self.norm,
                t1,
                t2,
                self.sizes.hidden as int,
            )
    }

    /// All that sequences start from is the same.
    proof fn lemma_starts_agree(self, a: Seq<MixerState<T>>, b: Seq<MixerState<T>>)
        requires
            self.starts_from(a),
            self.starts_from(b),
        ensures
            laws::same_states(a, b),
    {
        assert forall|i: int| 0 <= i < a.len() implies laws::same_state(#[trigger] a[i], b[i]) by {
            assert(cache::is_fresh(self.gdn, 1, self.zero, self.kinds@[i], a[i]));
            assert(cache::is_fresh(self.gdn, 1, self.zero, self.kinds@[i], b[i]));
        }
    }

    /// Steps on the same from the same give the same.
    proof fn lemma_steps_agree(
        self,
        tokens: Seq<u32>,
        s: Cache<T>,
        a: (u32, ModelTrace<T>),
        s2: Cache<T>,
        t: Cache<T>,
        b: (u32, ModelTrace<T>),
        t2: Cache<T>,
    )
        requires
            self.is_function(),
            self.steps_to(tokens, s, a, s2),
            self.steps_to(tokens, t, b, t2),
            s.len == t.len,
            laws::same_states(s.states@, t.states@),
        ensures
            a.0 == b.0,
            last_logits(a.1) == last_logits(b.1),
            s2.len == t2.len,
            laws::same_states(s2.states@, t2.states@),
    {
        laws::traces_are_unique(
            self.sizes,
            self.embed_tokens@,
            self.lm_head@,
            s.len,
            tokens,
            s.states@,
            s2.states@,
            t.states@,
            t2.states@,
            self.layer,
            self.norm,
            self.dot,
            a.1,
            b.1,
        );
        lemma_argmaxes_agree(self.exceeds, a.1, b.1, a.0, b.0);
    }

    // -----------------------------------------------------------------------
    // stopping
    // -----------------------------------------------------------------------
    proof fn lemma_stopping_gives_a_prefix(
        self,
        tr: (u32, ModelTrace<T>),
        s: Cache<T>,
        tr2: (u32, ModelTrace<T>),
        s2: Cache<T>,
        steps: nat,
        stop: Seq<u32>,
        ids: Seq<u32>,
        traces: Seq<ModelTrace<T>>,
        hit: bool,
        all: Seq<u32>,
        all_traces: Seq<ModelTrace<T>>,
    )
        requires
            self.is_function(),
            tr.0 == tr2.0,
            s.len == s2.len,
            laws::same_states(s.states@, s2.states@),
            self.decodes(tr, s, steps, stop, ids, traces, hit),
            self.decodes(tr2, s2, steps, seq![], all, all_traces, false),
        ensures
            ids.len() <= all.len() == steps,
            ids.len() == traces.len(),
            ids == all.take(ids.len() as int),
            hit <==> ids.len() < steps,
            hit ==> stop.contains(all[ids.len() as int]),
            forall|i: int| 0 <= i < ids.len() ==> !stop.contains(#[trigger] ids[i]),
        decreases steps,
    {
        self.lemma_nothing_stops(tr2, s2, steps, all, all_traces, false);
        if steps == 0 || stop.contains(tr.0) {
            assert(ids =~= all.take(0));
        } else {
            let left = (steps - 1) as nat;
            let (n1, c1) = choose|next: (u32, ModelTrace<T>), c: Cache<T>|
                #![trigger self.steps_to(seq![tr.0], s, next, c)]
                {
                    &&& self.steps_to(seq![tr.0], s, next, c)
                    &&& self.decodes(
                        next,
                        c,
                        left,
                        stop,
                        ids.drop_first(),
                        traces.drop_first(),
                        hit,
                    )
                };
            let (n2, c2) = choose|next: (u32, ModelTrace<T>), c: Cache<T>|
                #![trigger self.steps_to(seq![tr2.0], s2, next, c)]
                {
                    &&& self.steps_to(seq![tr2.0], s2, next, c)
                    &&& self.decodes(
                        next,
                        c,
                        left,
                        seq![],
                        all.drop_first(),
                        all_traces.drop_first(),
                        false,
                    )
                };
            self.lemma_steps_agree(seq![tr.0], s, n1, c1, s2, n2, c2);
            self.lemma_stopping_gives_a_prefix(
                n1,
                c1,
                n2,
                c2,
                left,
                stop,
                ids.drop_first(),
                traces.drop_first(),
                hit,
                all.drop_first(),
                all_traces.drop_first(),
            );
            let rest = ids.drop_first();
            assert(ids =~= seq![tr.0] + rest);
            assert(all =~= seq![tr.0] + all.drop_first());
            assert(ids =~= all.take(ids.len() as int));
            assert forall|i: int| 0 <= i < ids.len() implies !stop.contains(#[trigger] ids[i]) by {
                if i > 0 {
                    assert(ids[i] == rest[i - 1]);
                }
            }
        }
    }

    /// **A stop token only cuts short.** What comes before a stop token is what comes without
    /// any: the ids are the longest prefix without a stop token of those that decoding to the
    /// limit gives, with a trace for each, and one was hit if and only if there is one among
    /// those -- the one that comes next.
    pub proof fn stopping_gives_a_prefix(
        self,
        prompt: Seq<u32>,
        steps: nat,
        stop: Seq<u32>,
        ids: Seq<u32>,
        traces: Seq<ModelTrace<T>>,
        hit: bool,
        all: Seq<u32>,
        all_traces: Seq<ModelTrace<T>>,
    )
        requires
            self.is_function(),
            self.cached_gives(prompt, steps, stop, ids, traces, hit),
            self.cached_gives(prompt, steps, seq![], all, all_traces, false),
        ensures
            ids.len() <= all.len() == steps,
            ids.len() == traces.len(),
            ids == all.take(ids.len() as int),
            hit <==> ids.len() < steps,
            hit <==> exists|i: int| 0 <= i < all.len() && stop.contains(#[trigger] all[i]),
            hit ==> stop.contains(all[ids.len() as int]),
            forall|i: int| 0 <= i < ids.len() ==> !stop.contains(#[trigger] ids[i]),
    {
        let (f1, tr1, s1) = choose|f: Cache<T>, tr: (u32, ModelTrace<T>), s: Cache<T>|
            #![trigger self.steps_to(prompt, f, tr, s)]
            {
                &&& f.len == 0
                &&& self.starts_from(f.states@)
                &&& self.steps_to(prompt, f, tr, s)
                &&& self.decodes(tr, s, steps, stop, ids, traces, hit)
            };
        let (f2, tr2, s2) = choose|f: Cache<T>, tr: (u32, ModelTrace<T>), s: Cache<T>|
            #![trigger self.steps_to(prompt, f, tr, s)]
            {
                &&& f.len == 0
                &&& self.starts_from(f.states@)
                &&& self.steps_to(prompt, f, tr, s)
                &&& self.decodes(tr, s, steps, seq![], all, all_traces, false)
            };
        self.lemma_starts_agree(f1.states@, f2.states@);
        self.lemma_steps_agree(prompt, f1, tr1, s1, f2, tr2, s2);
        self.lemma_stopping_gives_a_prefix(
            tr1,
            s1,
            tr2,
            s2,
            steps,
            stop,
            ids,
            traces,
            hit,
            all,
            all_traces,
        );
        if exists|i: int| 0 <= i < all.len() && stop.contains(#[trigger] all[i]) {
            let i = choose|i: int| 0 <= i < all.len() && stop.contains(#[trigger] all[i]);
            if i < ids.len() {
                assert(ids[i] == all[i]);
            }
        }
    }

    proof fn lemma_stopping_does_not_fail(
        self,
        tr: (u32, ModelTrace<T>),
        s: Cache<T>,
        tr2: (u32, ModelTrace<T>),
        s2: Cache<T>,
        steps: nat,
        stop: Seq<u32>,
        message: Seq<char>,
        all: Seq<u32>,
        all_traces: Seq<ModelTrace<T>>,
    )
        requires
            self.is_settled(),
            tr.0 == tr2.0,
            s.len == s2.len,
            laws::same_states(s2.states@, s.states@),
            self.decodes(tr2, s2, steps, seq![], all, all_traces, false),
        ensures
            !self.decoding_fails(tr, s, steps, stop, message),
        decreases steps,
    {
        if self.decoding_fails(tr, s, steps, stop, message) {
            let left = (steps - 1) as nat;
            let one = seq![tr.0];
            let (n2, c2) = choose|next: (u32, ModelTrace<T>), c: Cache<T>|
                #![trigger self.steps_to(seq![tr2.0], s2, next, c)]
                {
                    &&& self.steps_to(seq![tr2.0], s2, next, c)
                    &&& self.decodes(
                        next,
                        c,
                        left,
                        seq![],
                        all.drop_first(),
                        all_traces.drop_first(),
                        false,
                    )
                };
            if self.step_fails(one, s, message) {
                let after = choose|after: Seq<MixerState<T>>| #[trigger]
                    self.fails(s.len, one, s.states@, after, message);
                self.lemma_no_fault(one, s2, n2, c2, s, after, message);
            } else {
                let (n1, c1) = choose|next: (u32, ModelTrace<T>), c: Cache<T>|
                    #![trigger self.steps_to(seq![tr.0], s, next, c)]
                    self.steps_to(seq![tr.0], s, next, c) && self.decoding_fails(
                        next,
                        c,
                        left,
                        stop,
                        message,
                    );
                self.lemma_steps_agree(one, s2, n2, c2, s, n1, c1);
                self.lemma_stopping_does_not_fail(
                    n1,
                    c1,
                    n2,
                    c2,
                    left,
                    stop,
                    message,
                    all.drop_first(),
                    all_traces.drop_first(),
                );
            }
        }
    }

    /// What stepped does not fail from the same.
    proof fn lemma_no_fault(
        self,
        tokens: Seq<u32>,
        s: Cache<T>,
        next: (u32, ModelTrace<T>),
        s2: Cache<T>,
        t: Cache<T>,
        after: Seq<MixerState<T>>,
        message: Seq<char>,
    )
        requires
            self.is_settled(),
            self.steps_to(tokens, s, next, s2),
            s.len == t.len,
            laws::same_states(s.states@, t.states@),
        ensures
            !self.fails(t.len, tokens, t.states@, after, message),
    {
        laws::what_ran_does_not_fail(
            self.sizes,
            self.embed_tokens@,
            self.lm_head@,
            s.len,
            tokens,
            s.states@,
            s2.states@,
            t.states@,
            after,
            self.layer,
            self.norm,
            self.dot,
            next.1,
            message,
        );
    }

    /// **Stopping does not fail.** Where decoding to the limit succeeds, decoding with a stop
    /// set succeeds too.
    pub proof fn stopping_does_not_fail(
        self,
        prompt: Seq<u32>,
        steps: nat,
        stop: Seq<u32>,
        message: Seq<char>,
        all: Seq<u32>,
        all_traces: Seq<ModelTrace<T>>,
    )
        requires
            self.is_settled(),
            self.cached_gives(prompt, steps, seq![], all, all_traces, false),
        ensures
            !self.cached_fails(prompt, steps, stop, message),
    {
        if self.cached_fails(prompt, steps, stop, message) {
            let (f2, tr2, s2) = choose|f: Cache<T>, tr: (u32, ModelTrace<T>), s: Cache<T>|
                #![trigger self.steps_to(prompt, f, tr, s)]
                {
                    &&& f.len == 0
                    &&& self.starts_from(f.states@)
                    &&& self.steps_to(prompt, f, tr, s)
                    &&& self.decodes(tr, s, steps, seq![], all, all_traces, false)
                };
            let f1 = choose|f: Cache<T>|
                {
                    &&& f.len == 0
                    &&& #[trigger] self.starts_from(f.states@)
                    &&& self.prefill_fails(prompt, f, steps, stop, message)
                };
            self.lemma_starts_agree(f2.states@, f1.states@);
            if self.step_fails(prompt, f1, message) {
                let after = choose|after: Seq<MixerState<T>>| #[trigger]
                    self.fails(f1.len, prompt, f1.states@, after, message);
                self.lemma_no_fault(prompt, f2, tr2, s2, f1, after, message);
            } else {
                let (tr1, s1) = choose|tr: (u32, ModelTrace<T>), s: Cache<T>|
                    #![trigger self.steps_to(prompt, f1, tr, s)]
                    self.steps_to(prompt, f1, tr, s) && self.decoding_fails(
                        tr,
                        s,
                        steps,
                        stop,
                        message,
                    );
                self.lemma_steps_agree(prompt, f2, tr2, s2, f1, tr1, s1);
                self.lemma_stopping_does_not_fail(
                    tr1,
                    s1,
                    tr2,
                    s2,
                    steps,
                    stop,
                    message,
                    all,
                    all_traces,
                );
            }
        }
    }

    // -----------------------------------------------------------------------
    // two calls
    // -----------------------------------------------------------------------
    /// Whether a call on a chunk takes a cache from `s` to `s2` and gives a trace.
    pub open spec fn calls_to(
        self,
        tokens: Seq<u32>,
        s: Cache<T>,
        tr: ModelTrace<T>,
        s2: Cache<T>,
    ) -> bool {
        &&& self.traces(s.len, tokens, s.states@, s2.states@, tr)
        &&& s2.len == s.len + tokens.len()
    }

    /// **Two cached calls are one.** Where the whole of `a + b` can run, and a first call on
    /// `a` from a fresh cache gave something, the call on `b` behind it does not fail; it gives
    /// a trace of the length of `b` with the last logits that the whole has -- the same, not
    /// close ones -- and the cache then holds as many positions as there are tokens.
    pub proof fn two_cached_calls_are_one(
        self,
        a: Seq<u32>,
        b: Seq<u32>,
        fresh: Cache<T>,
        first: ModelTrace<T>,
        mid: Cache<T>,
        whole: ModelTrace<T>,
    )
        requires
            self.is_function(),
            self.continues(),
            self.goes_on(),
            a.len() > 0,
            b.len() > 0,
            fresh.len == 0,
            self.starts_from(fresh.states@),
            self.calls_to(a, fresh, first, mid),
            self.whole_traces(a + b, whole),
        ensures
            forall|after: Seq<MixerState<T>>, message: Seq<char>|
                !#[trigger] self.fails(mid.len, b, mid.states@, after, message),
            forall|tr: ModelTrace<T>, end: Cache<T>| #[trigger]
                self.calls_to(b, mid, tr, end) ==> {
                    &&& tr.t == b.len()
                    &&& last_logits(tr) == last_logits(whole)
                    &&& end.len == a.len() + b.len()
                },
    {
        let (f, after) = choose|f: Seq<MixerState<T>>, after: Seq<MixerState<T>>|
            self.starts_from(f) && #[trigger] self.traces(0, a + b, f, after, whole);
        self.lemma_starts_agree(f, fresh.states@);
        self.a_full_table_has_rows(a);
        self.a_full_table_has_rows(b);
        assert(laws::layer_continues(
            self.layer,
            0,
            mid.len,
            a.len() as int,
            b.len() as int,
            self.sizes.hidden as int,
        ));
        assert(laws::layer_goes_on(
            self.layer,
            0,
            mid.len,
            a.len() as int,
            b.len() as int,
            self.sizes.hidden as int,
        ));
        assert(laws::norm_goes_by_rows(
            self.norm,
            a.len() as int,
            b.len() as int,
            self.sizes.hidden as int,
        ));
        assert forall|i: int| 0 <= i < mid.states@.len() implies laws::same_state(
            #[trigger] mid.states@[i],
            mid.states@[i],
        ) by {}
        assert forall|after2: Seq<MixerState<T>>, message: Seq<char>|
            !#[trigger] self.fails(mid.len, b, mid.states@, after2, message) by {
            laws::a_second_chunk_does_not_fail(
                self.sizes,
                self.embed_tokens@,
                self.lm_head@,
                0,
                mid.len,
                a,
                b,
                f,
                fresh.states@,
                mid.states@,
                mid.states@,
                after,
                after2,
                self.layer,
                self.norm,
                self.dot,
                whole,
                first,
                message,
            );
        }
        assert forall|tr: ModelTrace<T>, end: Cache<T>| #[trigger]
            self.calls_to(b, mid, tr, end) implies {
            &&& tr.t == b.len()
            &&& last_logits(tr) == last_logits(whole)
            &&& end.len == a.len() + b.len()
        } by {
            laws::model_continues(
                self.sizes,
                self.embed_tokens@,
                self.lm_head@,
                0,
                mid.len,
                a,
                b,
                f,
                fresh.states@,
                mid.states@,
                mid.states@,
                after,
                end.states@,
                self.layer,
                self.norm,
                self.dot,
                whole,
                first,
                tr,
            );
            let v = self.sizes.vocab as int;
            let m = a.len() as int;
            let n = b.len() as int;
            tensor::lemma_row_fits(m + n - 1, m + n, v);
            tensor::lemma_row_fits(n - 1, n, v);
            assert((m + n - 1) * v == m * v + (n - 1) * v) by (nonlinear_arith);
            assert(last_logits(whole) =~= last_logits(tr));
        }
    }

    // -----------------------------------------------------------------------
    // the cache
    // -----------------------------------------------------------------------
    /// Whether a cache, with what was read on the way to it, is where every run of the whole
    /// of `tokens` gets to.
    spec fn covers(
        self,
        tokens: Seq<u32>,
        tr: (u32, ModelTrace<T>),
        s: Cache<T>,
    ) -> bool {
        &&& s.len == tokens.len()
        &&& forall|f: Seq<MixerState<T>>, after: Seq<MixerState<T>>, w: ModelTrace<T>|
            self.starts_from(f) && #[trigger] self.traces(0, tokens, f, after, w) ==> {
                &&& laws::same_states(after, s.states@)
                &&& last_logits(w) == last_logits(tr.1)
                &&& w.vocab == tr.1.vocab
            }
        &&& network::reads(self.exceeds, tr.1, tr.0)
    }

    /// The prefill covers the prompt.
    proof fn lemma_prefill_covers(
        self,
        prompt: Seq<u32>,
        fresh: Cache<T>,
        tr: (u32, ModelTrace<T>),
        s: Cache<T>,
    )
        requires
            self.is_function(),
            fresh.len == 0,
            self.starts_from(fresh.states@),
            self.steps_to(prompt, fresh, tr, s),
        ensures
            self.covers(prompt, tr, s),
    {
        assert forall|f: Seq<MixerState<T>>, after: Seq<MixerState<T>>, w: ModelTrace<T>|
            self.starts_from(f) && #[trigger] self.traces(0, prompt, f, after, w) implies {
            &&& laws::same_states(after, s.states@)
            &&& last_logits(w) == last_logits(tr.1)
            &&& w.vocab == tr.1.vocab
        } by {
            self.lemma_starts_agree(f, fresh.states@);
            laws::traces_are_unique(
                self.sizes,
                self.embed_tokens@,
                self.lm_head@,
                0,
                prompt,
                f,
                after,
                fresh.states@,
                s.states@,
                self.layer,
                self.norm,
                self.dot,
                w,
                tr.1,
            );
        }
    }

    /// A step from a cache that covers some tokens covers one more.
    proof fn lemma_step_covers(
        self,
        tokens: Seq<u32>,
        whole: ModelTrace<T>,
        tr: (u32, ModelTrace<T>),
        s: Cache<T>,
        next: (u32, ModelTrace<T>),
        s2: Cache<T>,
    )
        requires
            self.is_function(),
            self.continues(),
            self.whole_traces(tokens, whole),
            self.covers(tokens, tr, s),
            self.steps_to(seq![tr.0], s, next, s2),
        ensures
            self.covers(tokens.push(tr.0), next, s2),
    {
        let one = seq![tr.0];
        let (f0, mid) = choose|f: Seq<MixerState<T>>, after: Seq<MixerState<T>>|
            self.starts_from(f) && #[trigger] self.traces(0, tokens, f, after, whole);
        assert(tokens.push(tr.0) =~= tokens + one);
        self.a_full_table_has_rows(tokens);
        self.a_full_table_has_rows(one);
        assert forall|f: Seq<MixerState<T>>, after: Seq<MixerState<T>>, w: ModelTrace<T>|
            self.starts_from(f) && #[trigger] self.traces(
                0,
                tokens.push(tr.0),
                f,
                after,
                w,
            ) implies {
            &&& laws::same_states(after, s2.states@)
            &&& last_logits(w) == last_logits(next.1)
            &&& w.vocab == next.1.vocab
        } by {
            self.lemma_starts_agree(f, f0);
            assert(laws::layer_continues(
                self.layer,
                0,
                s.len,
                tokens.len() as int,
                1,
                self.sizes.hidden as int,
            ));
            assert(laws::norm_goes_by_rows(
                self.norm,
                tokens.len() as int,
                1,
                self.sizes.hidden as int,
            ));
            laws::model_continues(
                self.sizes,
                self.embed_tokens@,
                self.lm_head@,
                0,
                s.len,
                tokens,
                one,
                f,
                f0,
                mid,
                s.states@,
                after,
                s2.states@,
                self.layer,
                self.norm,
                self.dot,
                w,
                whole,
                next.1,
            );
            let v = self.sizes.vocab as int;
            let t = tokens.len() as int;
            assert(1 * v == v && 0 * v == 0) by (nonlinear_arith);
            tensor::lemma_row_fits(t, t + 1, v);
            assert(last_logits(w) =~= last_logits(next.1));
        }
    }

    /// Behind the first of its tokens, decoding goes on as if that were of the prompt.
    proof fn lemma_rest_appends(
        self,
        tokens: Seq<u32>,
        ids: Seq<u32>,
        traces: Seq<ModelTrace<T>>,
    )
        requires
            self.appends_argmaxes(tokens, ids, traces),
            ids.len() > 0,
        ensures
            self.appends_argmaxes(tokens.push(ids[0]), ids.drop_first(), traces.drop_first()),
    {
        let more = tokens.push(ids[0]);
        let rest = ids.drop_first();
        let rest_traces = traces.drop_first();
        assert forall|i: int| 0 <= i < rest.len() implies self.whole_traces(
            more + rest.take(i),
            #[trigger] rest_traces[i],
        ) && network::reads(self.exceeds, rest_traces[i], rest[i]) by {
            assert(rest_traces[i] == traces[i + 1]);
            assert(tokens + ids.take(i + 1) =~= more + rest.take(i));
        }
    }

    proof fn lemma_cached_greedy_is_greedy(
        self,
        tokens: Seq<u32>,
        tr: (u32, ModelTrace<T>),
        s: Cache<T>,
        steps: nat,
        ids: Seq<u32>,
        traces: Seq<ModelTrace<T>>,
        plain: Seq<u32>,
        plain_traces: Seq<ModelTrace<T>>,
    )
        requires
            self.is_function(),
            self.continues(),
            self.covers(tokens, tr, s),
            self.decodes(tr, s, steps, seq![], ids, traces, false),
            plain.len() == steps,
            self.appends_argmaxes(tokens, plain, plain_traces),
        ensures
            ids == plain,
            traces.len() == steps,
            forall|i: int|
                0 <= i < steps ==> last_logits(#[trigger] traces[i]) == last_logits(
                    plain_traces[i],
                ),
        decreases steps,
    {
        self.lemma_nothing_stops(tr, s, steps, ids, traces, false);
        if steps == 0 {
            assert(ids =~= plain);
        } else {
            let left = (steps - 1) as nat;
            let (next, s2) = choose|next: (u32, ModelTrace<T>), c: Cache<T>|
                #![trigger self.steps_to(seq![tr.0], s, next, c)]
                {
                    &&& self.steps_to(seq![tr.0], s, next, c)
                    &&& self.decodes(
                        next,
                        c,
                        left,
                        seq![],
                        ids.drop_first(),
                        traces.drop_first(),
                        false,
                    )
                };
            let whole = plain_traces[0];
            assert(network::reads(self.exceeds, plain_traces[0], plain[0]));
            assert(tokens + plain.take(0) =~= tokens);
            assert(self.whole_traces(tokens, whole));
            let (f, after) = choose|f: Seq<MixerState<T>>, after: Seq<MixerState<T>>|
                self.starts_from(f) && #[trigger] self.traces(0, tokens, f, after, whole);
            lemma_argmaxes_agree(self.exceeds, whole, tr.1, plain[0], tr.0);
            self.lemma_step_covers(tokens, whole, tr, s, next, s2);
            let rest = plain.drop_first();
            let rest_traces = plain_traces.drop_first();
            self.lemma_rest_appends(tokens, plain, plain_traces);
            self.lemma_cached_greedy_is_greedy(
                tokens.push(tr.0),
                next,
                s2,
                left,
                ids.drop_first(),
                traces.drop_first(),
                rest,
                rest_traces,
            );
            assert(ids =~= seq![tr.0] + ids.drop_first());
            assert(plain =~= seq![tr.0] + rest);
            assert forall|i: int| 0 <= i < steps implies last_logits(#[trigger] traces[i])
                == last_logits(plain_traces[i]) by {
                if i > 0 {
                    assert(traces[i] == traces.drop_first()[i - 1]);
                    assert(plain_traces[i] == rest_traces[i - 1]);
                }
            }
        }
    }

    /// **A cache changes nothing.** Decoding with a cache gives the tokens that decoding with
    /// the whole sequence run anew at each step gives, and reads each of them from the same
    /// logits -- the same, not close ones.
    ///
    /// It holds of layers that continue, and of a norm that goes row by row.
    pub proof fn cached_greedy_is_greedy(
        self,
        prompt: Seq<u32>,
        steps: nat,
        ids: Seq<u32>,
        traces: Seq<ModelTrace<T>>,
        plain: Seq<u32>,
        plain_traces: Seq<ModelTrace<T>>,
    )
        requires
            self.is_function(),
            self.continues(),
            self.cached_gives(prompt, steps, seq![], ids, traces, false),
            plain.len() == steps,
            self.appends_argmaxes(prompt, plain, plain_traces),
        ensures
            ids == plain,
            traces.len() == steps,
            forall|i: int|
                0 <= i < steps ==> last_logits(#[trigger] traces[i]) == last_logits(
                    plain_traces[i],
                ),
    {
        let (fresh, tr, s) = choose|f: Cache<T>, tr: (u32, ModelTrace<T>), s: Cache<T>|
            #![trigger self.steps_to(prompt, f, tr, s)]
            {
                &&& f.len == 0
                &&& self.starts_from(f.states@)
                &&& self.steps_to(prompt, f, tr, s)
                &&& self.decodes(tr, s, steps, seq![], ids, traces, false)
            };
        self.lemma_prefill_covers(prompt, fresh, tr, s);
        self.lemma_cached_greedy_is_greedy(
            prompt,
            tr,
            s,
            steps,
            ids,
            traces,
            plain,
            plain_traces,
        );
    }
}

} // verus!
