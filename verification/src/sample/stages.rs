//! The filters as a configuration runs them: which one a stage is, and which of the configured
//! numbers it works with.
use super::config;
use super::config::{ConfigModel, SamplerConfig, Stage};
use super::logits;
use super::logits::{
    frequency_penalty, min_p, no_repeat_ngram, presence_penalty, repetition_penalty, temperature,
    top_k, top_p, typical_p,
};
use crate::pyjson::float::{Float, Real};
use vstd::prelude::*;

verus! {

/// The arithmetic on scores that the filters are made of. `T` is a score, or a probability, and
/// `X` a configured number.
pub struct Arithmetic<T, C, P, Q, F, G, H, K, L, S, M, A, U, V, E> {
    /// The score that masks a token.
    pub filtered: T,
    pub zero: T,
    /// A configured number.
    pub number: C,
    /// Whether a score is the one that masks.
    pub is_filtered: P,
    /// Whether a score is below zero.
    pub is_negative: Q,
    /// A score times a number.
    pub times: F,
    /// A score divided by a number.
    pub over: G,
    /// A score with a number taken off so many times.
    pub minus: H,
    /// An integer that orders scores.
    pub key: K,
    /// Whether a score is strictly less than another.
    pub less: L,
    /// The probabilities of some scores.
    pub softmax: S,
    /// Whether probabilities have any mass.
    pub has_mass: M,
    /// The sum of two probabilities.
    pub plus: A,
    /// Whether a mass is at most what a top-p leaves to one.
    pub at_most: U,
    /// Whether a mass is still under that of a typical-p.
    pub under: V,
    /// How far the surprise of each token is from the mean surprise.
    pub distance: E,
}

/// Whether `p` is what a configured number is.
pub open spec fn is_number<X, C: Fn(&Float) -> X>(number: C, x: Real, p: X) -> bool {
    exists|f: &Float| f@ == x && #[trigger] call_ensures(number, (f,), p)
}

impl<
    T: Copy,
    X: Copy,
    C: Fn(&Float) -> X,
    P: Fn(T) -> bool,
    Q: Fn(T) -> bool,
    F: Fn(T, X) -> T,
    G: Fn(T, X) -> T,
    H: Fn(T, X, usize) -> T,
    K: Fn(T) -> i64,
    L: Fn(T, T) -> bool,
    S: Fn(&[T]) -> Vec<T>,
    M: Fn(&[T]) -> bool,
    A: Fn(T, T) -> T,
    U: Fn(T, X) -> bool,
    V: Fn(T, X) -> bool,
    E: Fn(&[T], &[T]) -> Vec<T>,
> Arithmetic<T, C, P, Q, F, G, H, K, L, S, M, A, U, V, E> {
    /// Whether all of it can be called, and keeps lengths.
    pub open spec fn works(self) -> bool {
        &&& forall|f: &Float| call_requires(self.number, (f,))
        &&& forall|v: T| call_requires(self.is_filtered, (v,))
        &&& forall|v: T| call_requires(self.is_negative, (v,))
        &&& forall|v: T, x: X| call_requires(self.times, (v, x))
        &&& forall|v: T, x: X| call_requires(self.over, (v, x))
        &&& forall|v: T, x: X, n: usize| call_requires(self.minus, (v, x, n))
        &&& forall|v: T| call_requires(self.key, (v,))
        &&& forall|a: T, b: T| call_requires(self.less, (a, b))
        &&& forall|l: &[T]| call_requires(self.softmax, (l,))
        &&& forall|l: &[T], y: Vec<T>| #[trigger]
            call_ensures(self.softmax, (l,), y) ==> y.len() == l.len()
        &&& forall|l: &[T]| call_requires(self.has_mass, (l,))
        &&& forall|a: T, b: T| call_requires(self.plus, (a, b))
        &&& forall|v: T, x: X| call_requires(self.at_most, (v, x))
        &&& forall|v: T, x: X| call_requires(self.under, (v, x))
        &&& forall|l: &[T], q: &[T]| call_requires(self.distance, (l, q))
        &&& forall|l: &[T], q: &[T], y: Vec<T>| #[trigger]
            call_ensures(self.distance, (l, q), y) ==> y.len() == l.len()
    }

    /// Whether a stage makes `y` of the scores `x`: its filter, on the history, with its own
    /// number of the configuration.
    pub open spec fn stage_makes(
        self,
        cfg: ConfigModel,
        history: Seq<u32>,
        stage: Stage,
        x: Seq<T>,
        y: Seq<T>,
    ) -> bool {
        match stage {
            Stage::RepetitionPenalty => exists|p: X| #[trigger]
                is_number(self.number, cfg.repetition_penalty, p) && logits::repetition_penalised(
                    history,
                    p,
                    self.is_filtered,
                    self.is_negative,
                    self.times,
                    self.over,
                    x,
                    y,
                ),
            Stage::PresencePenalty => exists|p: X| #[trigger]
                is_number(self.number, cfg.presence_penalty, p) && logits::penalty_subtracted(
                    history,
                    p,
                    self.is_filtered,
                    self.minus,
                    logits::once(),
                    x,
                    y,
                ),
            Stage::FrequencyPenalty => exists|p: X| #[trigger]
                is_number(self.number, cfg.frequency_penalty, p) && logits::penalty_subtracted(
                    history,
                    p,
                    self.is_filtered,
                    self.minus,
                    logits::each_time(),
                    x,
                    y,
                ),
            Stage::NoRepeatNgram => y == logits::without_repeats(
                history,
                cfg.no_repeat_ngram_size as int,
                self.filtered,
                x,
            ),
            Stage::Temperature => exists|p: X| #[trigger]
                is_number(self.number, cfg.temperature, p) && logits::is_divided(
                    self.over,
                    p,
                    x,
                    y,
                ),
            Stage::TopK => logits::top_k_filters(
                self.key,
                self.less,
                cfg.top_k,
                self.filtered,
                x,
                y,
            ),
            Stage::TopP => exists|p: X| #[trigger]
                is_number(self.number, cfg.top_p, p) && logits::top_p_makes(
                    p,
                    self.filtered,
                    self.key,
                    self.softmax,
                    self.has_mass,
                    self.zero,
                    self.plus,
                    self.at_most,
                    x,
                    y,
                ),
            Stage::MinP => exists|p: X| #[trigger]
                is_number(self.number, cfg.min_p, p) && logits::min_p_makes(
                    p,
                    self.filtered,
                    self.key,
                    self.softmax,
                    self.has_mass,
                    self.times,
                    self.less,
                    x,
                    y,
                ),
            Stage::TypicalP => exists|p: X| #[trigger]
                is_number(self.number, cfg.typical_p, p) && logits::typical_makes(
                    p,
                    self.filtered,
                    self.key,
                    self.softmax,
                    self.has_mass,
                    self.distance,
                    self.zero,
                    self.plus,
                    self.under,
                    x,
                    y,
                ),
        }
    }

    /// Whether some stages, one after the other, make `to` of `from`.
    pub open spec fn stages_make(
        self,
        cfg: ConfigModel,
        history: Seq<u32>,
        stages: Seq<Stage>,
        from: Seq<T>,
        to: Seq<T>,
    ) -> bool
        decreases stages.len(),
    {
        if stages.len() == 0 {
            to == from
        } else {
            exists|mid: Seq<T>|
                #![trigger self.stage_makes(cfg, history, stages.last(), mid, to)]
                self.stages_make(cfg, history, stages.drop_last(), from, mid)
                    && self.stage_makes(cfg, history, stages.last(), mid, to)
        }
    }

    /// With every filter off the scores are not touched at all, whatever the arithmetic does:
    /// "off" means off rather than "off by a rounding error".
    pub proof fn nothing_on_changes_nothing(
        self,
        history: Seq<u32>,
        from: Seq<T>,
        to: Seq<T>,
    )
        requires
            self.stages_make(
                config::greedy_config(),
                history,
                config::stages_of(config::greedy_config()),
                from,
                to,
            ),
        ensures
            to == from,
    {
        config::off_means_off();
    }
}

/// One filter on some scores: the one that the stage names, on the history, with its own number
/// of the configuration.
pub fn run_stage<
    T: Copy,
    X: Copy,
    C: Fn(&Float) -> X,
    P: Fn(T) -> bool,
    Q: Fn(T) -> bool,
    F: Fn(T, X) -> T,
    G: Fn(T, X) -> T,
    H: Fn(T, X, usize) -> T,
    K: Fn(T) -> i64,
    L: Fn(T, T) -> bool,
    S: Fn(&[T]) -> Vec<T>,
    M: Fn(&[T]) -> bool,
    A: Fn(T, T) -> T,
    U: Fn(T, X) -> bool,
    V: Fn(T, X) -> bool,
    E: Fn(&[T], &[T]) -> Vec<T>,
>(
    cfg: &SamplerConfig,
    history: &[u32],
    stage: Stage,
    scores: &mut Vec<T>,
    ops: &Arithmetic<T, C, P, Q, F, G, H, K, L, S, M, A, U, V, E>,
)
    requires
        ops.works(),
    ensures
        ops.stage_makes(cfg@, history@, stage, old(scores)@, final(scores)@),
        final(scores)@.len() == old(scores)@.len(),
{
    match stage {
        Stage::RepetitionPenalty => {
            let p: X = (ops.number)(&cfg.repetition_penalty);
            assert(is_number(ops.number, cfg@.repetition_penalty, p));
            repetition_penalty(
                scores,
                history,
                p,
                &ops.is_filtered,
                &ops.is_negative,
                &ops.times,
                &ops.over,
            );
        },
        Stage::PresencePenalty => {
            let p: X = (ops.number)(&cfg.presence_penalty);
            assert(is_number(ops.number, cfg@.presence_penalty, p));
            presence_penalty(scores, history, p, &ops.is_filtered, &ops.minus);
        },
        Stage::FrequencyPenalty => {
            let p: X = (ops.number)(&cfg.frequency_penalty);
            assert(is_number(ops.number, cfg@.frequency_penalty, p));
            frequency_penalty(scores, history, p, &ops.is_filtered, &ops.minus);
        },
        Stage::NoRepeatNgram => {
            no_repeat_ngram(scores, history, cfg.no_repeat_ngram_size, ops.filtered);
        },
        Stage::Temperature => {
            let p: X = (ops.number)(&cfg.temperature);
            assert(is_number(ops.number, cfg@.temperature, p));
            temperature(scores, p, &ops.over);
        },
        Stage::TopK => {
            top_k(scores, cfg.top_k, ops.filtered, &ops.key, &ops.less);
        },
        Stage::TopP => {
            let p: X = (ops.number)(&cfg.top_p);
            assert(is_number(ops.number, cfg@.top_p, p));
            top_p(
                scores,
                p,
                ops.filtered,
                &ops.key,
                &ops.softmax,
                &ops.has_mass,
                ops.zero,
                &ops.plus,
                &ops.at_most,
            );
        },
        Stage::MinP => {
            let p: X = (ops.number)(&cfg.min_p);
            assert(is_number(ops.number, cfg@.min_p, p));
            min_p(
                scores,
                p,
                ops.filtered,
                &ops.key,
                &ops.softmax,
                &ops.has_mass,
                &ops.times,
                &ops.less,
            );
        },
        Stage::TypicalP => {
            let p: X = (ops.number)(&cfg.typical_p);
            assert(is_number(ops.number, cfg@.typical_p, p));
            typical_p(
                scores,
                p,
                ops.filtered,
                &ops.key,
                &ops.softmax,
                &ops.has_mass,
                &ops.distance,
                ops.zero,
                &ops.plus,
                &ops.under,
            );
        },
    }
}

} // verus!
