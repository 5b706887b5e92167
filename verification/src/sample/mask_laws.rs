//! What the filters that mask keep and what they mask, in terms of the scores and of how these
//! compare, and the order in which all filters run.
use super::config;
use super::config::{ConfigModel, Stage};
use super::filters;
use super::logits;
use super::number;
use super::order;
use super::stages;
use super::stages::Arithmetic;
use crate::pyjson::float::Float;
use vstd::prelude::*;

verus! {

/// What a filter that goes by probabilities finds on its way.
pub ghost struct Outline<T, X> {
    /// The configured number.
    pub p: X,
    /// The probabilities of the scores.
    pub probs: Seq<T>,
    /// Whether they have any mass.
    pub mass: bool,
    /// The indices of the scores, the least first.
    pub ascending: Seq<usize>,
    /// The mass up to each place of that order.
    pub sums: Seq<T>,
    /// How far each token is from the mean surprise.
    pub distances: Seq<T>,
    /// The score that the others are held against.
    pub floor: T,
    /// Where the filter cuts.
    pub cut: int,
}

/// As many flags as lead, and then one that is not set.
proof fn lemma_leading(flags: Seq<bool>)
    ensures
        0 <= filters::leading(flags) <= flags.len(),
        forall|q: int| 0 <= q < filters::leading(flags) ==> #[trigger] flags[q],
        filters::leading(flags) < flags.len() ==> !flags[filters::leading(flags) as int],
    decreases flags.len(),
{
    if flags.len() > 0 && flags[0] {
        let rest = flags.drop_first();
        lemma_leading(rest);
        assert forall|q: int| 0 <= q < filters::leading(flags) implies #[trigger] flags[q] by {
            if q > 0 {
                assert(flags[q] == rest[q - 1]);
            }
        }
    }
}

/// No flag behind the last that is set is set.
proof fn lemma_last_set(flags: Seq<bool>)
    requires
        flags.len() > 0,
    ensures
        0 <= filters::last_set(flags) < flags.len(),
        flags[filters::last_set(flags)] || filters::last_set(flags) == 0,
        forall|q: int| filters::last_set(flags) < q < flags.len() ==> !#[trigger] flags[q],
    decreases flags.len(),
{
    if !flags.last() && flags.len() > 1 {
        let rest = flags.drop_last();
        lemma_last_set(rest);
        assert forall|q: int| filters::last_set(flags) < q < flags.len() implies !#[trigger] flags[q] by {
            if q < rest.len() {
                assert(flags[q] == rest[q]);
            }
        }
    } else if !flags.last() {
        reveal_with_fuel(filters::last_set, 2);
    }
}

impl<
    T: Copy,
    X: Copy,
    C: Fn(&Float) -> X,
    P: Fn(T) -> bool,
    Q: Fn(T) -> bool,
    F: Fn(T, X) -> T,
    G: Fn(T, X) -> T,
    H: Fn(T, X, usize) -> T,
    K: Fn(T) -> i64,
    L: Fn(T, T) -> bool,
    S: Fn(&[T]) -> Vec<T>,
    M: Fn(&[T]) -> bool,
    A: Fn(T, T) -> T,
    U: Fn(T, X) -> bool,
    V: Fn(T, X) -> bool,
    E: Fn(&[T], &[T]) -> Vec<T>,
> Arithmetic<T, C, P, Q, F, G, H, K, L, S, M, A, U, V, E> {
    /// **Top-k** keeps exactly the scores that fewer than `k` of the scores exceed, and masks the
    /// others. With no `k`, or one of as many as there are scores, it keeps all.
    pub proof fn top_k_keeps_what_fewer_than_k_exceed(
        self,
        rank: spec_fn(T) -> i64,
        cfg: ConfigModel,
        history: Seq<u32>,
        x: Seq<T>,
        y: Seq<T>,
    )
        requires
            self.stage_makes(cfg, history, Stage::TopK, x, y),
            forall|v: T, k: i64| #[trigger] call_ensures(self.key, (v,), k) ==> k == rank(v),
            forall|v: T, w: T, r: bool| #[trigger]
                call_ensures(self.less, (v, w), r) ==> r == (rank(v) < rank(w)),
        ensures
            y.len() == x.len(),
            forall|i: int|
                0 <= i < x.len() ==> #[trigger] y[i] == if cfg.top_k == 0 || cfg.top_k >= x.len()
                    || Set::new(|j: int| 0 <= j < x.len() && rank(x[j]) > rank(x[i])).len()
                    < cfg.top_k {
                    x[i]
                } else {
                    self.filtered
                },
    {
        let k = cfg.top_k;
        if 0 < k < x.len() {
            let (keys, kth, below) = choose|keys: Seq<i64>, kth: int, below: Seq<bool>|
                {
                    &&& #[trigger] order::keys_of(self.key, x, keys)
                    &&& #[trigger] filters::is_kth_largest(keys, k, kth)
                    &&& #[trigger] logits::flags_against(self.less, x, x[kth], below)
                    &&& y == logits::masked(x, logits::not_below(below), self.filtered)
                };
            assert forall|i: int| 0 <= i < x.len() implies keys[i] == rank(x[i]) by {
                assert(call_ensures(self.key, (x[i],), keys[i]));
            }
            assert forall|i: int| 0 <= i < x.len() implies #[trigger] y[i] == if Set::new(
                |j: int| 0 <= j < x.len() && rank(x[j]) > rank(x[i]),
            ).len() < k {
                x[i]
            } else {
                self.filtered
            } by {
                filters::top_k_thresholds(keys, k, kth, i);
                assert(call_ensures(self.less, (x[i], x[kth]), below[i]));
                assert(filters::larger(keys, keys[i] as int) =~= Set::new(
                    |j: int| 0 <= j < x.len() && rank(x[j]) > rank(x[i]),
                ));
            }
        }
    }

    /// **Top-p** takes the scores in ascending order, of equal ones the earlier first, and sums
    /// their probabilities in that order. It masks those in front of the first place at which
    /// the sum is no longer small, never the last of the order, and no other score. Without any
    /// mass it masks nothing.
    pub proof fn top_p_masks_the_small_end(
        self,
        rank: spec_fn(T) -> i64,
        cfg: ConfigModel,
        history: Seq<u32>,
        x: Seq<T>,
        y: Seq<T>,
    ) -> (o: Outline<T, X>)
        requires
            self.stage_makes(cfg, history, Stage::TopP, x, y),
            forall|v: T, k: i64| #[trigger] call_ensures(self.key, (v,), k) ==> k == rank(v),
        ensures
            exists|f: &Float| f@ == cfg.top_p && #[trigger] call_ensures(self.number, (f,), o.p),
            exists|a: &[T], r: Vec<T>|
                a@ == x && r@ == o.probs && #[trigger] call_ensures(self.softmax, (a,), r),
            exists|a: &[T]|
                a@ == o.probs && #[trigger] call_ensures(self.has_mass, (a,), o.mass),
            !o.mass ==> y == x,
            o.mass ==> {
                &&& y.len() == x.len()
                &&& o.ascending.len() == x.len()
                &&& forall|q: int| 0 <= q < x.len() ==> (#[trigger] o.ascending[q]) < x.len()
                &&& forall|q: int, r: int|
                    #![trigger o.ascending[q], o.ascending[r]]
                    0 <= q < r < x.len() ==> {
                        ||| rank(x[o.ascending[q] as int]) < rank(x[o.ascending[r] as int])
                        ||| rank(x[o.ascending[q] as int]) == rank(x[o.ascending[r] as int])
                            && o.ascending[q] < o.ascending[r]
                    }
                &&& o.sums.len() == x.len()
                &&& x.len() > 0 ==> call_ensures(
                    self.plus,
                    (self.zero, o.probs[o.ascending[0] as int]),
                    o.sums[0],
                )
                &&& forall|q: int|
                    0 < q < x.len() ==> call_ensures(
                        self.plus,
                        (o.sums[q - 1], o.probs[o.ascending[q] as int]),
                        #[trigger] o.sums[q],
                    )
                &&& 0 <= o.cut <= x.len()
                &&& forall|q: int|
                    0 <= q < o.cut ==> call_ensures(self.at_most, (#[trigger] o.sums[q], o.p), true)
                &&& o.cut < x.len() ==> call_ensures(self.at_most, (o.sums[o.cut], o.p), false)
                &&& forall|q: int|
                    0 <= q < x.len() ==> y[(#[trigger] o.ascending[q]) as int] == if q < o.cut && q
                        < x.len() - 1 {
                        self.filtered
                    } else {
                        x[o.ascending[q] as int]
                    }
            },
    {
        let p = choose|p: X| #[trigger]
            stages::is_number(self.number, cfg.top_p, p) && logits::top_p_makes(
                p,
                self.filtered,
                self.key,
                self.softmax,
                self.has_mass,
                self.zero,
                self.plus,
                self.at_most,
                x,
                y,
            );
        let (probs, mass) = choose|probs: Seq<T>, mass: bool|
            {
                &&& #[trigger] logits::vector_gives(self.softmax, x, probs)
                &&& #[trigger] logits::test_gives(self.has_mass, probs, mass)
                &&& if mass {
                    logits::top_p_filters(
                        p,
                        self.key,
                        self.plus,
                        self.at_most,
                        self.zero,
                        self.filtered,
                        probs,
                        x,
                        y,
                    )
                } else {
                    y == x
                }
            };
        let f = choose|f: &Float|
            f@ == cfg.top_p && #[trigger] call_ensures(self.number, (f,), p);
        assert(call_ensures(self.number, (f,), p));
        let b = choose|b: &[T]|
            b@ == probs && #[trigger] call_ensures(self.has_mass, (b,), mass);
        assert(call_ensures(self.has_mass, (b,), mass));
        let o = Outline {
            p,
            probs,
            mass,
            ascending: seq![],
            sums: seq![],
            distances: seq![],
            floor: self.zero,
            cut: 0,
        };
        let end = if mass {
            let (keys, ascending, sums, under, mask) = choose|
                keys: Seq<i64>,
                ascending: Seq<usize>,
                sums: Seq<T>,
                under: Seq<bool>,
                mask: Seq<bool>,
            |
                {
                    &&& #[trigger] order::keys_of(self.key, x, keys)
                    &&& order::is_permutation(ascending, x.len() as int)
                    &&& order::is_ascending(keys, ascending)
                    &&& #[trigger] logits::is_running_sum(
                        self.plus,
                        self.zero,
                        probs,
                        ascending,
                        sums,
                    )
                    &&& #[trigger] logits::flags_against(self.at_most, sums, p, under)
                    &&& #[trigger] filters::is_top_p_mask(ascending, under, mask)
                    &&& y == logits::masked(x, mask, self.filtered)
                };
            let n = x.len() as int;
            lemma_leading(under);
            assert forall|i: int| 0 <= i < n implies keys[i] == rank(x[i]) by {
                assert(call_ensures(self.key, (x[i],), keys[i]));
            }
            assert forall|q: int, r: int|
                #![trigger ascending[q], ascending[r]]
                0 <= q < r < n implies {
                ||| rank(x[ascending[q] as int]) < rank(x[ascending[r] as int])
                ||| rank(x[ascending[q] as int]) == rank(x[ascending[r] as int]) && ascending[q]
                    < ascending[r]
            } by {
                assert(order::comes_before(keys, ascending[q] as int, ascending[r] as int));
            }
            assert forall|q: int| 0 < q < n implies call_ensures(
                self.plus,
                (sums[q - 1], probs[ascending[q] as int]),
                #[trigger] sums[q],
            ) by {
                assert(logits::sum_steps(self.plus, self.zero, probs, ascending, sums, q));
            }
            if n > 0 {
                assert(logits::sum_steps(self.plus, self.zero, probs, ascending, sums, 0));
            }
            let cut = filters::leading(under) as int;
            assert forall|q: int| 0 <= q < cut implies call_ensures(
                self.at_most,
                (#[trigger] sums[q], p),
                true,
            ) by {
                assert(under[q]);
            }
            if cut < n {
                assert(call_ensures(self.at_most, (sums[cut], p), under[cut]));
            }
            Outline { ascending, sums, cut, ..o }
        } else {
            o
        };
        assert(call_ensures(self.number, (f,), end.p));
        assert(call_ensures(self.has_mass, (b,), end.mass));
        end
    }

    /// **Min-p** masks the tokens whose probability is strictly less than the configured part of
    /// the largest, and keeps all others, the first of the largest in any case. Without any
    /// mass it masks nothing.
    pub proof fn min_p_masks_what_is_below_the_floor(
        self,
        rank: spec_fn(T) -> i64,
        cfg: ConfigModel,
        history: Seq<u32>,
        x: Seq<T>,
        y: Seq<T>,
    ) -> (o: Outline<T, X>)
        requires
            self.stage_makes(cfg, history, Stage::MinP, x, y),
            forall|l: &[T], r: Vec<T>| #[trigger]
                call_ensures(self.softmax, (l,), r) ==> r.len() == l.len(),
            forall|v: T, k: i64| #[trigger] call_ensures(self.key, (v,), k) ==> k == rank(v),
        ensures
            exists|f: &Float| f@ == cfg.min_p && #[trigger] call_ensures(self.number, (f,), o.p),
            exists|a: &[T], r: Vec<T>|
                a@ == x && r@ == o.probs && #[trigger] call_ensures(self.softmax, (a,), r),
            exists|a: &[T]|
                a@ == o.probs && #[trigger] call_ensures(self.has_mass, (a,), o.mass),
            !o.mass || x.len() == 0 ==> y == x,
            o.mass && x.len() > 0 ==> {
                &&& y.len() == x.len()
                &&& 0 <= o.cut < x.len()
                &&& forall|i: int|
                    0 <= i < x.len() ==> rank(#[trigger] o.probs[i]) <= rank(o.probs[o.cut])
                &&& forall|i: int|
                    0 <= i < o.cut ==> rank(#[trigger] o.probs[i]) < rank(o.probs[o.cut])
                &&& call_ensures(self.times, (o.probs[o.cut], o.p), o.floor)
                &&& y[o.cut] == x[o.cut]
                &&& forall|i: int|
                    #![trigger y[i]]
                    #![trigger o.probs[i]]
                    0 <= i < x.len() && i != o.cut ==> {
                        ||| call_ensures(self.less, (o.probs[i], o.floor), true) && y[i]
                            == self.filtered
                        ||| call_ensures(self.less, (o.probs[i], o.floor), false) && y[i] == x[i]
                    }
            },
    {
        let p = choose|p: X| #[trigger]
            stages::is_number(self.number, cfg.min_p, p) && logits::min_p_makes(
                p,
                self.filtered,
                self.key,
                self.softmax,
                self.has_mass,
                self.times,
                self.less,
                x,
                y,
            );
        let (probs, mass) = choose|probs: Seq<T>, mass: bool|
            {
                &&& #[trigger] logits::vector_gives(self.softmax, x, probs)
                &&& #[trigger] logits::test_gives(self.has_mass, probs, mass)
                &&& if mass && x.len() > 0 {
                    logits::min_p_filters(
                        p,
                        self.key,
                        self.times,
                        self.less,
                        self.filtered,
                        probs,
                        x,
                        y,
                    )
                } else {
                    y == x
                }
            };
        let f = choose|f: &Float|
            f@ == cfg.min_p && #[trigger] call_ensures(self.number, (f,), p);
        assert(call_ensures(self.number, (f,), p));
        let b = choose|b: &[T]|
            b@ == probs && #[trigger] call_ensures(self.has_mass, (b,), mass);
        assert(call_ensures(self.has_mass, (b,), mass));
        let o = Outline {
            p,
            probs,
            mass,
            ascending: seq![],
            sums: seq![],
            distances: seq![],
            floor: self.zero,
            cut: 0,
        };
        let end = if mass && x.len() > 0 {
            let (keys, best, floor, below) = choose|
                keys: Seq<i64>,
                best: int,
                floor: T,
                below: Seq<bool>,
            |
                {
                    &&& #[trigger] order::keys_of(self.key, probs, keys)
                    &&& #[trigger] filters::is_first_largest(keys, best)
                    &&& #[trigger] call_ensures(self.times, (probs[best], p), floor)
                    &&& #[trigger] logits::flags_against(self.less, probs, floor, below)
                    &&& y == logits::masked(x, filters::min_p_mask(keys, below), self.filtered)
                };
            assert(probs.len() == x.len()) by {
                let (a, r) = choose|a: &[T], r: Vec<T>|
                    a@ == x && r@ == probs && #[trigger] call_ensures(self.softmax, (a,), r);
            }
            assert forall|i: int| 0 <= i < x.len() implies keys[i] == rank(#[trigger] probs[i]) by {
                assert(call_ensures(self.key, (probs[i],), keys[i]));
            }
            assert forall|i: int|
                #![trigger y[i]]
                #![trigger probs[i]]
                0 <= i < x.len() && i != best implies {
                ||| call_ensures(self.less, (probs[i], floor), true) && y[i] == self.filtered
                ||| call_ensures(self.less, (probs[i], floor), false) && y[i] == x[i]
            } by {
                assert(call_ensures(self.less, (probs[i], floor), below[i]));
                if filters::is_first_largest(keys, i) {
                    assert(keys[i] <= keys[best] && keys[best] <= keys[i]);
                }
            }
            Outline { floor, cut: best, ..o }
        } else {
            o
        };
        assert(call_ensures(self.number, (f,), end.p));
        assert(call_ensures(self.has_mass, (b,), end.mass));
        end
    }

    /// **Typical sampling** takes the tokens in ascending order of how far their surprise is from
    /// the mean. The last place in front of which the mass is still under the configured one is
    /// the cut, and what is further away than the token there is masked; nothing else is. Without
    /// any mass it masks nothing.
    pub proof fn typical_p_masks_what_is_further_away(
        self,
        rank: spec_fn(T) -> i64,
        cfg: ConfigModel,
        history: Seq<u32>,
        x: Seq<T>,
        y: Seq<T>,
    ) -> (o: Outline<T, X>)
        requires
            self.stage_makes(cfg, history, Stage::TypicalP, x, y),
            forall|l: &[T], q: &[T], r: Vec<T>| #[trigger]
                call_ensures(self.distance, (l, q), r) ==> r.len() == l.len(),
            forall|v: T, k: i64| #[trigger] call_ensures(self.key, (v,), k) ==> k == rank(v),
        ensures
            exists|f: &Float| f@ == cfg.typical_p && #[trigger] call_ensures(self.number, (f,), o.p),
            exists|a: &[T], r: Vec<T>|
                a@ == x && r@ == o.probs && #[trigger] call_ensures(self.softmax, (a,), r),
            exists|a: &[T]|
                a@ == o.probs && #[trigger] call_ensures(self.has_mass, (a,), o.mass),
            !o.mass || x.len() == 0 ==> y == x,
            o.mass && x.len() > 0 ==> {
                &&& y.len() == x.len()
                &&& exists|a: &[T], b: &[T], r: Vec<T>|
                    a@ == x && b@ == o.probs && r@ == o.distances && #[trigger] call_ensures(
                        self.distance,
                        (a, b),
                        r,
                    )
                &&& o.ascending.len() == x.len()
                &&& forall|q: int| 0 <= q < x.len() ==> (#[trigger] o.ascending[q]) < x.len()
                &&& forall|q: int, r: int|
                    #![trigger o.ascending[q], o.ascending[r]]
                    0 <= q < r < x.len() ==> {
                        let a = o.distances[o.ascending[q] as int];
                        let b = o.distances[o.ascending[r] as int];
                        rank(a) < rank(b) || rank(a) == rank(b) && o.ascending[q] < o.ascending[r]
                    }
                &&& o.sums.len() == x.len()
                &&& call_ensures(
                    self.plus,
                    (self.zero, o.probs[o.ascending[0] as int]),
                    o.sums[0],
                )
                &&& forall|q: int|
                    0 < q < x.len() ==> call_ensures(
                        self.plus,
                        (o.sums[q - 1], o.probs[o.ascending[q] as int]),
                        #[trigger] o.sums[q],
                    )
                &&& 0 <= o.cut < x.len()
                &&& o.cut > 0 ==> call_ensures(self.under, (o.sums[o.cut - 1], o.p), true)
                &&& forall|q: int|
                    o.cut <= q < x.len() - 1 ==> call_ensures(
                        self.under,
                        (#[trigger] o.sums[q], o.p),
                        false,
                    )
                &&& forall|i: int|
                    0 <= i < x.len() ==> #[trigger] y[i] == if rank(o.distances[i]) <= rank(
                        o.distances[o.ascending[o.cut] as int],
                    ) {
                        x[i]
                    } else {
                        self.filtered
                    }
            },
    {
        let p = choose|p: X| #[trigger]
            stages::is_number(self.number, cfg.typical_p, p) && logits::typical_makes(
                p,
                self.filtered,
                self.key,
                self.softmax,
                self.has_mass,
                self.distance,
                self.zero,
                self.plus,
                self.under,
                x,
                y,
            );
        let (probs, mass) = choose|probs: Seq<T>, mass: bool|
            {
                &&& #[trigger] logits::vector_gives(self.softmax, x, probs)
                &&& #[trigger] logits::test_gives(self.has_mass, probs, mass)
                &&& if mass && x.len() > 0 {
                    exists|distances: Seq<T>| #[trigger]
                        logits::pair_gives(self.distance, x, probs, distances)
                            && logits::typical_filters(
                            p,
                            self.key,
                            self.plus,
                            self.under,
                            self.zero,
                            self.filtered,
                            probs,
                            distances,
                            x,
                            y,
                        )
                } else {
                    y == x
                }
            };
        let f = choose|f: &Float|
            f@ == cfg.typical_p && #[trigger] call_ensures(self.number, (f,), p);
        assert(call_ensures(self.number, (f,), p));
        let b = choose|b: &[T]|
            b@ == probs && #[trigger] call_ensures(self.has_mass, (b,), mass);
        assert(call_ensures(self.has_mass, (b,), mass));
        let o = Outline {
            p,
            probs,
            mass,
            ascending: seq![],
            sums: seq![],
            distances: seq![],
            floor: self.zero,
            cut: 0,
        };
        let end = if mass && x.len() > 0 {
            let distances = choose|distances: Seq<T>| #[trigger]
                logits::pair_gives(self.distance, x, probs, distances) && logits::typical_filters(
                    p,
                    self.key,
                    self.plus,
                    self.under,
                    self.zero,
                    self.filtered,
                    probs,
                    distances,
                    x,
                    y,
                );
            let (keys, ascending, sums, under) = choose|
                keys: Seq<i64>,
                ascending: Seq<usize>,
                sums: Seq<T>,
                under: Seq<bool>,
            |
                {
                    &&& #[trigger] order::keys_of(self.key, distances, keys)
                    &&& order::is_permutation(ascending, x.len() as int)
                    &&& order::is_ascending(keys, ascending)
                    &&& #[trigger] logits::is_running_sum(
                        self.plus,
                        self.zero,
                        probs,
                        ascending,
                        sums,
                    )
                    &&& #[trigger] logits::flags_against(
                        self.under,
                        logits::sums_before(sums, self.zero),
                        p,
                        under,
                    )
                    &&& y == logits::masked(
                        x,
                        filters::typical_mask(keys, ascending, under),
                        self.filtered,
                    )
                };
            let n = x.len() as int;
            assert(distances.len() == n) by {
                let (a, b, r) = choose|a: &[T], b: &[T], r: Vec<T>|
                    a@ == x && b@ == probs && r@ == distances && #[trigger] call_ensures(
                        self.distance,
                        (a, b),
                        r,
                    );
            }
            lemma_last_set(under);
            let cut = filters::last_set(under);
            let fronts = logits::sums_before(sums, self.zero);
            assert forall|i: int| 0 <= i < n implies keys[i] == rank(#[trigger] distances[i]) by {
                assert(call_ensures(self.key, (distances[i],), keys[i]));
            }
            assert forall|q: int, r: int|
                #![trigger ascending[q], ascending[r]]
                0 <= q < r < n implies {
                let a = distances[ascending[q] as int];
                let b = distances[ascending[r] as int];
                rank(a) < rank(b) || rank(a) == rank(b) && ascending[q] < ascending[r]
            } by {
                assert(order::comes_before(keys, ascending[q] as int, ascending[r] as int));
            }
            assert forall|q: int| 0 < q < n implies call_ensures(
                self.plus,
                (sums[q - 1], probs[ascending[q] as int]),
                #[trigger] sums[q],
            ) by {
                assert(logits::sum_steps(self.plus, self.zero, probs, ascending, sums, q));
            }
            assert(logits::sum_steps(self.plus, self.zero, probs, ascending, sums, 0));
            if cut > 0 {
                assert(call_ensures(self.under, (fronts[cut], p), under[cut]));
            }
            assert forall|q: int| cut <= q < n - 1 implies call_ensures(
                self.under,
                (#[trigger] sums[q], p),
                false,
            ) by {
                assert(!under[q + 1]);
                assert(call_ensures(self.under, (fronts[q + 1], p), under[q + 1]));
            }
            Outline { distances, ascending, sums, cut, ..o }
        } else {
            o
        };
        assert(call_ensures(self.number, (f,), end.p));
        assert(call_ensures(self.has_mass, (b,), end.mass));
        end
    }

    /// **The pipeline.** The filters that are on run one after the other, in one order: the
    /// repetition, presence and frequency penalties, the ban on repeats, the temperature, top-k,
    /// top-p, min-p and typical sampling. Each reads what the one before it left, the first reads
    /// the scores that were given, and the last leaves the result.
    pub proof fn the_pipeline_runs_what_is_on(
        self,
        cfg: ConfigModel,
        history: Seq<u32>,
        from: Seq<T>,
        to: Seq<T>,
    ) -> (r: (Seq<Stage>, Seq<Seq<T>>))
        requires
            self.stages_make(cfg, history, config::stages_of(cfg), from, to),
        ensures
            r.0 == seq![
                Stage::RepetitionPenalty,
                Stage::PresencePenalty,
                Stage::FrequencyPenalty,
                Stage::NoRepeatNgram,
                Stage::Temperature,
                Stage::TopK,
                Stage::TopP,
                Stage::MinP,
                Stage::TypicalP,
            ].filter(
                |s: Stage|
                    match s {
                        Stage::RepetitionPenalty => number::sign_less_one(cfg.repetition_penalty)
                            != Some(0int),
                        Stage::PresencePenalty => number::sign(cfg.presence_penalty) != Some(0int),
                        Stage::FrequencyPenalty => number::sign(cfg.frequency_penalty) != Some(0int),
                        Stage::NoRepeatNgram => cfg.no_repeat_ngram_size >= 2,
                        Stage::Temperature => number::sign(cfg.temperature) == Some(1int)
                            && number::sign_less_one(cfg.temperature) != Some(0int),
                        Stage::TopK => cfg.top_k >= 1,
                        Stage::TopP => number::sign_less_one(cfg.top_p) == Some(-1int),
                        Stage::MinP => number::sign(cfg.min_p) == Some(1int),
                        Stage::TypicalP => number::sign(cfg.typical_p) == Some(1int)
                            && number::sign_less_one(cfg.typical_p) == Some(-1int),
                    },
            ),
            r.1.len() == r.0.len() + 1,
            r.1[0] == from,
            r.1.last() == to,
            forall|k: int|
                #![trigger r.0[k]]
                0 <= k < r.0.len() ==> self.stage_makes(cfg, history, r.0[k], r.1[k], r.1[k + 1]),
    {
        lemma_stages_are_filtered(cfg);
        let steps = self.lemma_steps(cfg, history, config::stages_of(cfg), from, to);
        (config::stages_of(cfg), steps)
    }

    proof fn lemma_steps(
        self,
        cfg: ConfigModel,
        history: Seq<u32>,
        list: Seq<Stage>,
        from: Seq<T>,
        to: Seq<T>,
    ) -> (r: Seq<Seq<T>>)
        requires
            self.stages_make(cfg, history, list, from, to),
        ensures
            r.len() == list.len() + 1,
            r[0] == from,
            r.last() == to,
            forall|k: int|
                #![trigger list[k]]
                0 <= k < list.len() ==> self.stage_makes(cfg, history, list[k], r[k], r[k + 1]),
        decreases list.len(),
    {
        if list.len() == 0 {
            seq![from]
        } else {
            let mid = choose|mid: Seq<T>|
                #![trigger self.stage_makes(cfg, history, list.last(), mid, to)]
                self.stages_make(cfg, history, list.drop_last(), from, mid) && self.stage_makes(
                    cfg,
                    history,
                    list.last(),
                    mid,
                    to,
                );
            let before = self.lemma_steps(cfg, history, list.drop_last(), from, mid);
            let r = before.push(to);
            assert forall|k: int|
                #![trigger list[k]]
                0 <= k < list.len() implies self.stage_makes(cfg, history, list[k], r[k], r[k
                + 1]) by {
                if k < list.len() - 1 {
                    assert(list.drop_last()[k] == list[k]);
                }
            }
            r
        }
    }
}

spec fn all_stages() -> Seq<Stage> {
    seq![
        Stage::RepetitionPenalty,
        Stage::PresencePenalty,
        Stage::FrequencyPenalty,
        Stage::NoRepeatNgram,
        Stage::Temperature,
        Stage::TopK,
        Stage::TopP,
        Stage::MinP,
        Stage::TypicalP,
    ]
}

proof fn lemma_stages_filter(cfg: ConfigModel, n: int)
    requires
        0 <= n <= 9,
    ensures
        config::stages_below(cfg, n) == all_stages().take(n).filter(
            |s: Stage| config::runs(cfg, s),
        ),
    decreases n,
{
    reveal(Seq::filter);
    let part = all_stages().take(n);
    if n > 0 {
        lemma_stages_filter(cfg, n - 1);
        assert(part.drop_last() =~= all_stages().take(n - 1));
        assert(part.last() == config::stage_at(n - 1));
    } else {
        assert(part =~= seq![]);
    }
}

proof fn lemma_stages_are_filtered(cfg: ConfigModel)
    ensures
        config::stages_of(cfg) == all_stages().filter(
            |s: Stage|
                match s {
                    Stage::RepetitionPenalty => number::sign_less_one(cfg.repetition_penalty)
                        != Some(0int),
                    Stage::PresencePenalty => number::sign(cfg.presence_penalty) != Some(0int),
                    Stage::FrequencyPenalty => number::sign(cfg.frequency_penalty) != Some(0int),
                    Stage::NoRepeatNgram => cfg.no_repeat_ngram_size >= 2,
                    Stage::Temperature => number::sign(cfg.temperature) == Some(1int)
                        && number::sign_less_one(cfg.temperature) != Some(0int),
                    Stage::TopK => cfg.top_k >= 1,
                    Stage::TopP => number::sign_less_one(cfg.top_p) == Some(-1int),
                    Stage::MinP => number::sign(cfg.min_p) == Some(1int),
                    Stage::TypicalP => number::sign(cfg.typical_p) == Some(1int)
                        && number::sign_less_one(cfg.typical_p) == Some(-1int),
                },
        ),
{
    lemma_stages_filter(cfg, 9);
    assert(all_stages().take(9) =~= all_stages());
    let f = |s: Stage| config::runs(cfg, s);
    let g = |s: Stage|
        match s {
            Stage::RepetitionPenalty => number::sign_less_one(cfg.repetition_penalty) != Some(0int),
            Stage::PresencePenalty => number::sign(cfg.presence_penalty) != Some(0int),
            Stage::FrequencyPenalty => number::sign(cfg.frequency_penalty) != Some(0int),
            Stage::NoRepeatNgram => cfg.no_repeat_ngram_size >= 2,
            Stage::Temperature => number::sign(cfg.temperature) == Some(1int)
                && number::sign_less_one(cfg.temperature) != Some(0int),
            Stage::TopK => cfg.top_k >= 1,
            Stage::TopP => number::sign_less_one(cfg.top_p) == Some(-1int),
            Stage::MinP => number::sign(cfg.min_p) == Some(1int),
            Stage::TypicalP => number::sign(cfg.typical_p) == Some(1int) && number::sign_less_one(
                cfg.typical_p,
            ) == Some(-1int),
        };
    assert(f =~= g);
}

} // verus!
