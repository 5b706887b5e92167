//! The filters one after the other, and the token that is taken.
use super::config;
use super::config::{ConfigModel, Sampler, SamplerModel, Stage};
use super::filters;
use super::filters::first_largest;
use super::logits;
use super::logits::{find_draw, flags_for};
use super::order;
use super::order::keys_for;
use super::rng;
use super::stages::{run_stage, Arithmetic};
use crate::pyjson::float::Float;
use crate::text::{push_decimal, push_text, to_owned_text};
use vstd::prelude::*;

verus! {

/// Whether a token is the one to take: the first of the largest probability where the
/// configuration is greedy, and what the draw finds where it is not.
pub open spec fn is_taken<
    T,
    A,
    K: Fn(T) -> i64,
    D: Fn(A, T) -> A,
    B: Fn(A, u64) -> bool,
>(
    cfg: ConfigModel,
    key: K,
    plus: D,
    beyond: B,
    zero: A,
    probs: Seq<T>,
    positive: Seq<bool>,
    u: u64,
    token: int,
) -> bool {
    if config::is_greedy_config(cfg) {
        exists|keys: Seq<i64>| #[trigger]
            order::keys_of(key, probs, keys) && filters::is_first_largest(keys, token)
    } else {
        logits::draw_finds(plus, beyond, zero, probs, positive, u, Some(token))
    }
}

impl Sampler {
    /// The filters alone, in order, so that each can be compared stage by stage. `history` is
    /// the whole sequence so far.
    pub fn apply_filters<
        T: Copy,
        X: Copy,
        C: Fn(&Float) -> X,
        P: Fn(T) -> bool,
        Q: Fn(T) -> bool,
        F: Fn(T, X) -> T,
        G: Fn(T, X) -> T,
        H: Fn(T, X, usize) -> T,
        K: Fn(T) -> i64,
        L: Fn(T, T) -> bool,
        S: Fn(&[T]) -> Vec<T>,
        M: Fn(&[T]) -> bool,
        A: Fn(T, T) -> T,
        U: Fn(T, X) -> bool,
        V: Fn(T, X) -> bool,
        E: Fn(&[T], &[T]) -> Vec<T>,
    >(
        &self,
        logits: &mut Vec<T>,
        history: &[u32],
        ops: &Arithmetic<T, C, P, Q, F, G, H, K, L, S, M, A, U, V, E>,
    )
        requires
            ops.works(),
        ensures
            ops.stages_make(
                self@.cfg,
                history@,
                config::stages_of(self@.cfg),
                old(logits)@,
                final(logits)@,
            ),
            final(logits)@.len() == old(logits)@.len(),
    {
        let stages = self.config().stages();
        let ghost cfg = self@.cfg;
        let ghost all = stages@;
        let ghost from = logits@;
        let mut i: usize = 0;
        assert(all.take(0) =~= seq![]);
        while i < stages.len()
            invariant
                i <= stages.len(),
                all == stages@,
                cfg == self@.cfg,
                from == old(logits)@,
                ops.works(),
                logits@.len() == from.len(),
                ops.stages_make(cfg, history@, all.take(i as int), from, logits@),
            decreases stages.len() - i,
        {
            let ghost now = logits@;
            let stage: Stage = stages[i];
            run_stage(self.config(), history, stage, logits, ops);
            proof {
                assert(all.take(i + 1).drop_last() =~= all.take(i as int));
                assert(all.take(i + 1).last() == stage);
                assert(ops.stage_makes(cfg, history@, stage, now, logits@));
            }
            i += 1;
        }
        assert(all.take(i as int) =~= all);
    }

    /// Apply every filter in order, then draw.
    ///
    /// `history` is the whole sequence so far, prompt included. An error comes where the
    /// filters leave nothing to draw from, which the arithmetic says of the probabilities, and
    /// then nothing is drawn; or where there is mass and yet no token has any. A `temperature
    /// <= 0` takes the argmax of what the filters leave.
    pub fn next<
        T: Copy,
        X: Copy,
        C: Fn(&Float) -> X,
        P: Fn(T) -> bool,
        Q: Fn(T) -> bool,
        F: Fn(T, X) -> T,
        G: Fn(T, X) -> T,
        H: Fn(T, X, usize) -> T,
        K: Fn(T) -> i64,
        L: Fn(T, T) -> bool,
        S: Fn(&[T]) -> Vec<T>,
        M: Fn(&[T]) -> bool,
        A: Fn(T, T) -> T,
        U: Fn(T, X) -> bool,
        V: Fn(T, X) -> bool,
        E: Fn(&[T], &[T]) -> Vec<T>,
        W: Copy,
        O: Fn(T) -> bool,
        D: Fn(W, T) -> W,
        B: Fn(W, u64) -> bool,
    >(
        &mut self,
        logits: &mut Vec<T>,
        history: &[u32],
        ops: &Arithmetic<T, C, P, Q, F, G, H, K, L, S, M, A, U, V, E>,
        is_positive: &O,
        zero: W,
        plus: &D,
        beyond: &B,
    ) -> (r: Result<u32, String>)
        requires
            old(logits)@.len() <= 0x1_0000_0000,
            ops.works(),
            forall|v: T| call_requires(*is_positive, (v,)),
            forall|a: W, v: T| call_requires(*plus, (a, v)),
            forall|a: W, u: u64| call_requires(*beyond, (a, u)),
        ensures
            ops.stages_make(
                old(self)@.cfg,
                history@,
                config::stages_of(old(self)@.cfg),
                old(logits)@,
                final(logits)@,
            ),
            exists|probs: Seq<T>, mass: bool, positive: Seq<bool>|
                {
                    let state = rng::advanced(old(self)@.state);
                    &&& #[trigger] logits::vector_gives(ops.softmax, final(logits)@, probs)
                    &&& #[trigger] logits::test_gives(ops.has_mass, probs, mass)
                    &&& #[trigger] logits::flags_of(*is_positive, probs, positive)
                    &&& match r {
                        Ok(token) => {
                            &&& mass
                            &&& final(self)@ == (SamplerModel { state, ..old(self)@ })
                            &&& is_taken(
                                old(self)@.cfg,
                                ops.key,
                                *plus,
                                *beyond,
                                zero,
                                probs,
                                positive,
                                rng::mixed(state) >> 11,
                                token as int,
                            )
                        },
                        Err(e) => if mass {
                            &&& if config::is_greedy_config(old(self)@.cfg) {
                                probs.len() == 0
                            } else {
                                !positive.contains(true)
                            }
                            &&& final(self)@ == (SamplerModel { state, ..old(self)@ })
                            &&& e@ == "the draw found no token"@
                        } else {
                            &&& final(self)@ == old(self)@
                            &&& e@ == config::nothing_left(old(logits)@.len())
                        },
                    }
                },
    {
        let ghost cfg = self@.cfg;
        self.apply_filters(logits, history, ops);
        let probs: Vec<T> = (ops.softmax)(logits.as_slice());
        assert(logits::vector_gives(ops.softmax, logits@, probs@));
        let mass: bool = (ops.has_mass)(probs.as_slice());
        assert(logits::test_gives(ops.has_mass, probs@, mass));
        let positive = flags_for(probs.as_slice(), is_positive);
        if !mass {
            let mut e = to_owned_text("every token was filtered out (");
            push_decimal(&mut e, logits.len() as u128);
            push_text(
                &mut e,
                " logits, all -inf); loosen top_k / top_p / min_p, or the pipeline is inconsistent",
            );
            return Err(e);
        }
        let u: u64 = self.draw();
        if self.config().takes_argmax() {
            if probs.len() == 0 {
                return Err(to_owned_text("the draw found no token"));
            }
            let keys = keys_for(probs.as_slice(), &ops.key);
            assert(order::keys_of(ops.key, probs@, keys@));
            let token: usize = first_largest(keys.as_slice());
            return Ok(token as u32);
        }
        let found = find_draw(probs.as_slice(), &positive, u, zero, plus, beyond);
        proof {
            let (accs, reached) = choose|accs: Seq<W>, reached: Seq<bool>|
                {
                    &&& #[trigger] logits::is_walk(*plus, zero, probs@, positive@, accs)
                    &&& #[trigger] logits::reaches(*beyond, accs, u, reached)
                    &&& filters::selected(positive@, reached) == match found {
                        Some(i) => Some(i as int),
                        None => None,
                    }
                };
            filters::draws_find_a_token_with_mass(positive@, reached);
            if positive@.contains(true) {
                let j = choose|j: int| 0 <= j < positive@.len() && positive@[j] == true;
                assert(positive@[j]);
            }
        }
        match found {
            Some(token) => Ok(token as u32),
            None => Err(to_owned_text("the draw found no token")),
        }
    }
}

} // verus!
