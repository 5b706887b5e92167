//! What each stage of the pipeline does to each score, in terms of the scores, the history and
//! the configured numbers.
use super::config::{ConfigModel, Stage};
use super::logits;
use super::penalties;
use super::stages;
use super::stages::Arithmetic;
use crate::pyjson::float::Float;
use vstd::prelude::*;

verus! {

/// How often a token has appeared is how often the history holds it.
pub proof fn occurrences_count_the_history(history: Seq<u32>, t: usize)
    requires
        t <= u32::MAX,
    ensures
        penalties::occurrences(history, t) == history.to_multiset().count(t as u32),
    decreases history.len(),
{
    broadcast use vstd::seq_lib::group_to_multiset_ensures;

    if history.len() > 0 {
        let shorter = history.drop_last();
        occurrences_count_the_history(shorter, t);
        assert(history =~= shorter.push(history.last()));
    } else {
        assert(history =~= seq![]);
    }
}

/// **What a ban on repeats bans.** With `2 <= n <= history.len()` a token is banned exactly where
/// it once followed `n - 1` tokens that are, one by one, the last `n - 1` of the history. With
/// another `n` nothing is.
pub proof fn a_ban_falls_on_what_followed_the_same_tokens(history: Seq<u32>, n: int, t: u32)
    ensures
        penalties::banned(history, n).contains(t) <==> {
            &&& 2 <= n <= history.len()
            &&& exists|w: int|
                {
                    &&& 0 <= w
                    &&& w + n <= history.len()
                    &&& (#[trigger] history[w + n - 1]) == t
                    &&& forall|j: int|
                        0 <= j < n - 1 ==> #[trigger] history[w + j] == history[history.len() - (n
                            - 1) + j]
                }
        },
{
    if 2 <= n <= history.len() {
        penalties::banned_tokens_followed_the_suffix(history, n, t);
        let len = history.len() as int;
        let suffix = history.subrange(len - (n - 1), len);
        if penalties::banned(history, n).contains(t) {
            let w = choose|w: int|
                0 <= w <= history.len() - n && #[trigger] penalties::window_matches(history, n, w)
                    && history[w + n - 1] == t;
            let window = history.subrange(w, w + n - 1);
            assert forall|j: int| 0 <= j < n - 1 implies #[trigger] history[w + j] == history[len
                - (n - 1) + j] by {
                assert(window[j] == suffix[j]);
            }
            assert(history[w + n - 1] == t);
        }
        if exists|w: int|
            {
                &&& 0 <= w
                &&& w + n <= history.len()
                &&& (#[trigger] history[w + n - 1]) == t
                &&& forall|j: int|
                    0 <= j < n - 1 ==> #[trigger] history[w + j] == history[history.len() - (n - 1)
                        + j]
            } {
            let w = choose|w: int|
                {
                    &&& 0 <= w
                    &&& w + n <= history.len()
                    &&& (#[trigger] history[w + n - 1]) == t
                    &&& forall|j: int|
                        0 <= j < n - 1 ==> #[trigger] history[w + j] == history[history.len() - (n
                            - 1) + j]
                };
            let window = history.subrange(w, w + n - 1);
            assert forall|j: int| 0 <= j < window.len() implies window[j] == suffix[j] by {
                assert(history[w + j] == history[len - (n - 1) + j]);
            }
            assert(window =~= suffix);
            assert(penalties::window_matches(history, n, w));
        }
    }
}

impl<
    T: Copy,
    X: Copy,
    C: Fn(&Float) -> X,
    P: Fn(T) -> bool,
    Q: Fn(T) -> bool,
    F: Fn(T, X) -> T,
    G: Fn(T, X) -> T,
    H: Fn(T, X, usize) -> T,
    K: Fn(T) -> i64,
    L: Fn(T, T) -> bool,
    S: Fn(&[T]) -> Vec<T>,
    M: Fn(&[T]) -> bool,
    A: Fn(T, T) -> T,
    U: Fn(T, X) -> bool,
    V: Fn(T, X) -> bool,
    E: Fn(&[T], &[T]) -> Vec<T>,
> Arithmetic<T, C, P, Q, F, G, H, K, L, S, M, A, U, V, E> {
    proof fn lemma_appeared(self, history: Seq<u32>, i: int)
        requires
            0 <= i,
        ensures
            logits::appeared(history, i) <==> i <= u32::MAX && history.contains(i as u32),
    {
        if logits::appeared(history, i) {
            let k = choose|k: int| 0 <= k < history.len() && (#[trigger] history[k]) == i;
            assert(history[k] == i as u32);
        }
        if i <= u32::MAX && history.contains(i as u32) {
            let k = choose|k: int| 0 <= k < history.len() && history[k] == i as u32;
            assert(history[k] == i);
        }
    }

    /// **The repetition penalty** falls once on every token that the history holds: a score below
    /// zero times the configured penalty, any other divided by it, and a masked one as it was. All
    /// other scores stay.
    pub proof fn repetition_penalty_falls_on_what_appeared(
        self,
        cfg: ConfigModel,
        history: Seq<u32>,
        x: Seq<T>,
        y: Seq<T>,
    ) -> (p: X)
        requires
            self.stage_makes(cfg, history, Stage::RepetitionPenalty, x, y),
        ensures
            y.len() == x.len(),
            exists|f: &Float|
                f@ == cfg.repetition_penalty && #[trigger] call_ensures(self.number, (f,), p),
            forall|t: u32|
                #[trigger] history.contains(t) && t < x.len() ==> {
                    let v = x[t as int];
                    let w = y[t as int];
                    ||| call_ensures(self.is_filtered, (v,), true) && w == v
                    ||| {
                        &&& call_ensures(self.is_filtered, (v,), false)
                        &&& call_ensures(self.is_negative, (v,), true)
                        &&& call_ensures(self.times, (v, p), w)
                    }
                    ||| {
                        &&& call_ensures(self.is_filtered, (v,), false)
                        &&& call_ensures(self.is_negative, (v,), false)
                        &&& call_ensures(self.over, (v, p), w)
                    }
                },
            forall|i: int|
                0 <= i < x.len() && !(i <= u32::MAX && history.contains(i as u32)) ==> #[trigger] y[i]
                    == x[i],
    {
        let p = choose|p: X| #[trigger]
            stages::is_number(self.number, cfg.repetition_penalty, p)
                && logits::repetition_penalised(
                history,
                p,
                self.is_filtered,
                self.is_negative,
                self.times,
                self.over,
                x,
                y,
            );
        let f = choose|f: &Float|
            f@ == cfg.repetition_penalty && #[trigger] call_ensures(self.number, (f,), p);
        assert(call_ensures(self.number, (f,), p));
        assert forall|i: int|
            0 <= i < x.len() && !(i <= u32::MAX && history.contains(i as u32)) implies #[trigger] y[i]
            == x[i] by {
            self.lemma_appeared(history, i);
        }
        assert forall|t: u32| #[trigger] history.contains(t) && t < x.len() implies {
            let v = x[t as int];
            let w = y[t as int];
            ||| call_ensures(self.is_filtered, (v,), true) && w == v
            ||| {
                &&& call_ensures(self.is_filtered, (v,), false)
                &&& call_ensures(self.is_negative, (v,), true)
                &&& call_ensures(self.times, (v, p), w)
            }
            ||| {
                &&& call_ensures(self.is_filtered, (v,), false)
                &&& call_ensures(self.is_negative, (v,), false)
                &&& call_ensures(self.over, (v, p), w)
            }
        } by {
            self.lemma_appeared(history, t as int);
            assert(logits::repetition_makes(
                p,
                &self.is_filtered,
                &self.is_negative,
                &self.times,
                &self.over,
                x[t as int],
                y[t as int],
            ));
        }
        p
    }

    /// **The presence penalty** is taken once off every token that the history holds, however
    /// often it does, and a masked one stays. All other scores stay.
    pub proof fn presence_penalty_is_taken_once(
        self,
        cfg: ConfigModel,
        history: Seq<u32>,
        x: Seq<T>,
        y: Seq<T>,
    ) -> (p: X)
        requires
            self.stage_makes(cfg, history, Stage::PresencePenalty, x, y),
        ensures
            y.len() == x.len(),
            exists|f: &Float|
                f@ == cfg.presence_penalty && #[trigger] call_ensures(self.number, (f,), p),
            forall|t: u32|
                #[trigger] history.contains(t) && t < x.len() ==> {
                    let v = x[t as int];
                    let w = y[t as int];
                    ||| call_ensures(self.is_filtered, (v,), true) && w == v
                    ||| call_ensures(self.is_filtered, (v,), false) && call_ensures(
                        self.minus,
                        (v, p, 1),
                        w,
                    )
                },
            forall|i: int|
                0 <= i < x.len() && !(i <= u32::MAX && history.contains(i as u32)) ==> #[trigger] y[i]
                    == x[i],
    {
        let p = choose|p: X| #[trigger]
            stages::is_number(self.number, cfg.presence_penalty, p) && logits::penalty_subtracted(
                history,
                p,
                self.is_filtered,
                self.minus,
                logits::once(),
                x,
                y,
            );
        let f = choose|f: &Float|
            f@ == cfg.presence_penalty && #[trigger] call_ensures(self.number, (f,), p);
        assert(call_ensures(self.number, (f,), p));
        assert forall|i: int|
            0 <= i < x.len() && !(i <= u32::MAX && history.contains(i as u32)) implies #[trigger] y[i]
            == x[i] by {
            self.lemma_appeared(history, i);
        }
        assert forall|t: u32| #[trigger] history.contains(t) && t < x.len() implies {
            let v = x[t as int];
            let w = y[t as int];
            ||| call_ensures(self.is_filtered, (v,), true) && w == v
            ||| call_ensures(self.is_filtered, (v,), false) && call_ensures(
                self.minus,
                (v, p, 1),
                w,
            )
        } by {
            self.lemma_appeared(history, t as int);
            occurrences_count_the_history(history, t as usize);
            assert(logits::subtraction_makes(
                p,
                &self.is_filtered,
                &self.minus,
                x[t as int],
                1,
                y[t as int],
            ));
        }
        p
    }

    /// **The frequency penalty** is taken off every token that the history holds as often as it
    /// does, and a masked one stays. All other scores stay.
    pub proof fn frequency_penalty_is_taken_each_time(
        self,
        cfg: ConfigModel,
        history: Seq<u32>,
        x: Seq<T>,
        y: Seq<T>,
    ) -> (p: X)
        requires
            self.stage_makes(cfg, history, Stage::FrequencyPenalty, x, y),
        ensures
            y.len() == x.len(),
            exists|f: &Float|
                f@ == cfg.frequency_penalty && #[trigger] call_ensures(self.number, (f,), p),
            forall|t: u32|
                #[trigger] history.contains(t) && t < x.len() ==> {
                    let v = x[t as int];
                    let w = y[t as int];
                    ||| call_ensures(self.is_filtered, (v,), true) && w == v
                    ||| call_ensures(self.is_filtered, (v,), false) && call_ensures(
                        self.minus,
                        (v, p, history.to_multiset().count(t) as usize),
                        w,
                    )
                },
            forall|i: int|
                0 <= i < x.len() && !(i <= u32::MAX && history.contains(i as u32)) ==> #[trigger] y[i]
                    == x[i],
    {
        let p = choose|p: X| #[trigger]
            stages::is_number(self.number, cfg.frequency_penalty, p) && logits::penalty_subtracted(
                history,
                p,
                self.is_filtered,
                self.minus,
                logits::each_time(),
                x,
                y,
            );
        let f = choose|f: &Float|
            f@ == cfg.frequency_penalty && #[trigger] call_ensures(self.number, (f,), p);
        assert(call_ensures(self.number, (f,), p));
        assert forall|i: int|
            0 <= i < x.len() && !(i <= u32::MAX && history.contains(i as u32)) implies #[trigger] y[i]
            == x[i] by {
            self.lemma_appeared(history, i);
        }
        assert forall|t: u32| #[trigger] history.contains(t) && t < x.len() implies {
            let v = x[t as int];
            let w = y[t as int];
            ||| call_ensures(self.is_filtered, (v,), true) && w == v
            ||| call_ensures(self.is_filtered, (v,), false) && call_ensures(
                self.minus,
                (v, p, history.to_multiset().count(t) as usize),
                w,
            )
        } by {
            self.lemma_appeared(history, t as int);
            occurrences_count_the_history(history, t as usize);
            assert(logits::subtraction_makes(
                p,
                &self.is_filtered,
                &self.minus,
                x[t as int],
                history.to_multiset().count(t) as usize,
                y[t as int],
            ));
        }
        p
    }

    /// **The ban on repeats** masks exactly the tokens that once followed the last `n - 1` tokens
    /// of the history, `n` being the configured number, and leaves the others as they were.
    pub proof fn repeats_are_masked(
        self,
        cfg: ConfigModel,
        history: Seq<u32>,
        x: Seq<T>,
        y: Seq<T>,
    )
        requires
            self.stage_makes(cfg, history, Stage::NoRepeatNgram, x, y),
        ensures
            y.len() == x.len(),
            forall|i: int|
                0 <= i < x.len() ==> #[trigger] y[i] == if i <= u32::MAX && 2
                    <= cfg.no_repeat_ngram_size <= history.len() && exists|w: int|
                    {
                        &&& 0 <= w
                        &&& w + cfg.no_repeat_ngram_size <= history.len()
                        &&& (#[trigger] history[w + cfg.no_repeat_ngram_size - 1]) == i
                        &&& forall|j: int|
                            0 <= j < cfg.no_repeat_ngram_size - 1 ==> #[trigger] history[w + j]
                                == history[history.len() - (cfg.no_repeat_ngram_size - 1) + j]
                    } {
                    self.filtered
                } else {
                    x[i]
                },
    {
        let n = cfg.no_repeat_ngram_size as int;
        assert forall|i: int| 0 <= i < x.len() implies #[trigger] y[i] == if i <= u32::MAX && 2
            <= cfg.no_repeat_ngram_size <= history.len() && exists|w: int|
            {
                &&& 0 <= w
                &&& w + cfg.no_repeat_ngram_size <= history.len()
                &&& (#[trigger] history[w + cfg.no_repeat_ngram_size - 1]) == i
                &&& forall|j: int|
                    0 <= j < cfg.no_repeat_ngram_size - 1 ==> #[trigger] history[w + j]
                        == history[history.len() - (cfg.no_repeat_ngram_size - 1) + j]
            } {
            self.filtered
        } else {
            x[i]
        } by {
            if i <= u32::MAX {
                a_ban_falls_on_what_followed_the_same_tokens(history, n, i as u32);
                if penalties::banned(history, n).contains(i as u32) {
                    let w = choose|w: int|
                        {
                            &&& 0 <= w
                            &&& w + n <= history.len()
                            &&& (#[trigger] history[w + n - 1]) == i as u32
                            &&& forall|j: int|
                                0 <= j < n - 1 ==> #[trigger] history[w + j]
                                    == history[history.len() - (n - 1) + j]
                        };
                    assert(history[w + cfg.no_repeat_ngram_size - 1] == i);
                } else if 2 <= n <= history.len() && exists|w: int|
                    {
                        &&& 0 <= w
                        &&& w + cfg.no_repeat_ngram_size <= history.len()
                        &&& (#[trigger] history[w + cfg.no_repeat_ngram_size - 1]) == i
                        &&& forall|j: int|
                            0 <= j < cfg.no_repeat_ngram_size - 1 ==> #[trigger] history[w + j]
                                == history[history.len() - (cfg.no_repeat_ngram_size - 1) + j]
                    } {
                    let w = choose|w: int|
                        {
                            &&& 0 <= w
                            &&& w + cfg.no_repeat_ngram_size <= history.len()
                            &&& (#[trigger] history[w + cfg.no_repeat_ngram_size - 1]) == i
                            &&& forall|j: int|
                                0 <= j < cfg.no_repeat_ngram_size - 1 ==> #[trigger] history[w + j]
                                    == history[history.len() - (cfg.no_repeat_ngram_size - 1) + j]
                        };
                    assert(history[w + n - 1] == i as u32);
                }
            }
        }
    }

    /// **The temperature** divides every score.
    pub proof fn temperature_divides_every_score(
        self,
        cfg: ConfigModel,
        history: Seq<u32>,
        x: Seq<T>,
        y: Seq<T>,
    ) -> (p: X)
        requires
            self.stage_makes(cfg, history, Stage::Temperature, x, y),
        ensures
            y.len() == x.len(),
            exists|f: &Float|
                f@ == cfg.temperature && #[trigger] call_ensures(self.number, (f,), p),
            forall|i: int|
                0 <= i < x.len() ==> call_ensures(self.over, (x[i], p), #[trigger] y[i]),
    {
        let p = choose|p: X| #[trigger]
            stages::is_number(self.number, cfg.temperature, p) && logits::is_divided(
                self.over,
                p,
                x,
                y,
            );
        let f = choose|f: &Float|
            f@ == cfg.temperature && #[trigger] call_ensures(self.number, (f,), p);
        assert(call_ensures(self.number, (f,), p));
        p
    }

}

} // verus!
