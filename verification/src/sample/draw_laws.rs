//! Which token is taken, in terms of the probabilities and the draw.
use super::config::ConfigModel;
use super::filters;
use super::logits;
use super::number;
use super::order;
use super::pipeline;
use vstd::prelude::*;

verus! {

proof fn lemma_reached(positive: Seq<bool>, reached: Seq<bool>, i: int)
    requires
        0 <= i,
        reached.len() == positive.len(),
    ensures
        match filters::reached_from(positive, reached, i) {
            Some(k) => {
                &&& i <= k < positive.len()
                &&& positive[k] && reached[k]
                &&& forall|j: int| i <= j < k ==> !(#[trigger] positive[j] && reached[j])
            },
            None => forall|j: int|
                i <= j < positive.len() ==> !(#[trigger] positive[j] && reached[j]),
        },
    decreases positive.len() - i,
{
    if i < positive.len() && !(positive[i] && reached[i]) {
        lemma_reached(positive, reached, i + 1);
    }
}

proof fn lemma_last(positive: Seq<bool>, n: int)
    requires
        0 <= n <= positive.len(),
    ensures
        match filters::last_with_mass(positive, n) {
            Some(k) => 0 <= k < n && positive[k] && forall|j: int|
                k < j < n ==> !#[trigger] positive[j],
            None => forall|j: int| 0 <= j < n ==> !#[trigger] positive[j],
        },
    decreases n,
{
    if n > 0 && !positive[n - 1] {
        lemma_last(positive, n - 1);
    }
}

/// **Each token is tested on its own**: a flag is what the test says of its value.
pub proof fn each_token_is_tested<T, U: Fn(T) -> bool>(
    test: U,
    values: Seq<T>,
    flags: Seq<bool>,
    i: int,
)
    requires
        logits::flags_of(test, values, flags),
        0 <= i < values.len(),
    ensures
        flags.len() == values.len(),
        call_ensures(test, (values[i],), flags[i]),
{
}

/// **The probabilities are those of the scores** that the filters left: what the softmax makes of
/// all of them at once, and whether there is mass is what the test says of all of these.
pub proof fn the_probabilities_are_those_of_the_scores<
    T,
    S: Fn(&[T]) -> Vec<T>,
    M: Fn(&[T]) -> bool,
>(softmax: S, has_mass: M, scores: Seq<T>, probs: Seq<T>, mass: bool)
    requires
        logits::vector_gives(softmax, scores, probs),
        logits::test_gives(has_mass, probs, mass),
    ensures
        exists|a: &[T], r: Vec<T>|
            a@ == scores && r@ == probs && #[trigger] call_ensures(softmax, (a,), r),
        exists|a: &[T]| a@ == probs && #[trigger] call_ensures(has_mass, (a,), mass),
{
}

/// **The draw** walks the tokens in order of their ids and adds up the mass of those that have
/// any. It takes the first with mass at which the sum is beyond the draw, and where none is, the
/// last with mass. Where no token has mass it finds none.
pub proof fn the_draw_takes_the_first_token_beyond_it<
    T,
    W,
    D: Fn(W, T) -> W,
    B: Fn(W, u64) -> bool,
>(
    plus: D,
    beyond: B,
    zero: W,
    probs: Seq<T>,
    positive: Seq<bool>,
    u: u64,
    found: Option<int>,
) -> (sums: Seq<W>)
    requires
        positive.len() == probs.len(),
        logits::draw_finds(plus, beyond, zero, probs, positive, u, found),
    ensures
        sums.len() == probs.len() + 1,
        sums[0] == zero,
        forall|i: int|
            #![trigger positive[i]]
            0 <= i < probs.len() && positive[i] ==> call_ensures(
                plus,
                (sums[i], probs[i]),
                sums[i + 1],
            ),
        forall|i: int|
            #![trigger positive[i]]
            0 <= i < probs.len() && !positive[i] ==> sums[i + 1] == sums[i],
        match found {
            Some(t) => {
                &&& 0 <= t < probs.len()
                &&& positive[t]
                &&& {
                    ||| {
                        &&& call_ensures(beyond, (sums[t + 1], u), true)
                        &&& forall|j: int|
                            #![trigger positive[j]]
                            0 <= j < t && positive[j] ==> call_ensures(
                                beyond,
                                (sums[j + 1], u),
                                false,
                            )
                    }
                    ||| {
                        &&& forall|j: int|
                            #![trigger positive[j]]
                            0 <= j < probs.len() && positive[j] ==> call_ensures(
                                beyond,
                                (sums[j + 1], u),
                                false,
                            )
                        &&& forall|j: int| t < j < probs.len() ==> !#[trigger] positive[j]
                    }
                }
            },
            None => forall|j: int| 0 <= j < probs.len() ==> !#[trigger] positive[j],
        },
{
    let (accs, reached) = choose|accs: Seq<W>, reached: Seq<bool>|
        {
            &&& #[trigger] logits::is_walk(plus, zero, probs, positive, accs)
            &&& #[trigger] logits::reaches(beyond, accs, u, reached)
            &&& found == filters::selected(positive, reached)
        };
    lemma_reached(positive, reached, 0);
    lemma_last(positive, positive.len() as int);
    assert forall|j: int| 0 <= j < probs.len() implies call_ensures(
        beyond,
        (accs[j + 1], u),
        #[trigger] reached[j],
    ) by {}
    match filters::reached_from(positive, reached, 0) {
        Some(t) => {
            assert(call_ensures(beyond, (accs[t + 1], u), reached[t]));
            assert forall|j: int|
                #![trigger positive[j]]
                0 <= j < t && positive[j] implies call_ensures(beyond, (accs[j + 1], u), false) by {
                assert(!reached[j]);
            }
        },
        None => {
            assert forall|j: int|
                #![trigger positive[j]]
                0 <= j < probs.len() && positive[j] implies call_ensures(
                beyond,
                (accs[j + 1], u),
                false,
            ) by {
                assert(!reached[j]);
            }
        },
    }
    accs
}

/// **A temperature of zero or less takes the argmax**, the first of the largest probability,
/// whatever the draw is.
pub proof fn no_temperature_takes_the_argmax<
    T,
    W,
    K: Fn(T) -> i64,
    D: Fn(W, T) -> W,
    B: Fn(W, u64) -> bool,
>(
    cfg: ConfigModel,
    rank: spec_fn(T) -> i64,
    key: K,
    plus: D,
    beyond: B,
    zero: W,
    probs: Seq<T>,
    positive: Seq<bool>,
    u: u64,
    token: int,
)
    requires
        pipeline::is_taken(cfg, key, plus, beyond, zero, probs, positive, u, token),
        number::sign(cfg.temperature) == Some(0int) || number::sign(cfg.temperature) == Some(-1int),
        forall|v: T, k: i64| #[trigger] call_ensures(key, (v,), k) ==> k == rank(v),
    ensures
        0 <= token < probs.len(),
        forall|i: int|
            0 <= i < probs.len() ==> rank(#[trigger] probs[i]) <= rank(probs[token]),
        forall|i: int| 0 <= i < token ==> rank(#[trigger] probs[i]) < rank(probs[token]),
{
    let keys = choose|keys: Seq<i64>| #[trigger]
        order::keys_of(key, probs, keys) && filters::is_first_largest(keys, token);
    assert forall|i: int| 0 <= i < probs.len() implies keys[i] == rank(#[trigger] probs[i]) by {
        assert(call_ensures(key, (probs[i],), keys[i]));
    }
}

/// **A temperature above zero takes what the draw finds.**
pub proof fn a_temperature_takes_what_is_drawn<
    T,
    W,
    K: Fn(T) -> i64,
    D: Fn(W, T) -> W,
    B: Fn(W, u64) -> bool,
>(
    cfg: ConfigModel,
    key: K,
    plus: D,
    beyond: B,
    zero: W,
    probs: Seq<T>,
    positive: Seq<bool>,
    u: u64,
    token: int,
)
    requires
        pipeline::is_taken(cfg, key, plus, beyond, zero, probs, positive, u, token),
        number::sign(cfg.temperature) == Some(1int),
    ensures
        logits::draw_finds(plus, beyond, zero, probs, positive, u, Some(token)),
{
}

} // verus!
