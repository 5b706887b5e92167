//! Which configurations can work.
use super::config;
use super::config::{ConfigModel, Stage};
use super::number;
use crate::pyjson::float::Real;
use vstd::prelude::*;

verus! {

/// **A configuration can work** exactly where all its numbers are finite, `top_p` and `min_p` are in
/// `[0, 1]`, the repetition penalty is positive, and repeats are not banned for single tokens.
/// Nothing else is asked of it.
pub proof fn what_a_configuration_needs(c: ConfigModel)
    ensures
        config::config_fault(c) is None <==> {
            &&& c.temperature is Finite
            &&& c.top_p is Finite
            &&& c.min_p is Finite
            &&& c.typical_p is Finite
            &&& c.repetition_penalty is Finite
            &&& c.presence_penalty is Finite
            &&& c.frequency_penalty is Finite
            &&& number::sign(c.top_p) != Some(-1int)
            &&& number::sign_less_one(c.top_p) != Some(1int)
            &&& number::sign(c.min_p) != Some(-1int)
            &&& number::sign_less_one(c.min_p) != Some(1int)
            &&& number::sign(c.repetition_penalty) == Some(1int)
            &&& c.no_repeat_ngram_size != 1
        },
{
}

/// **The first number that is not finite is named**, in the order of the settings.
pub proof fn the_first_fault_is_told(c: ConfigModel)
    ensures
        !(c.temperature is Finite) ==> config::config_fault(c) == Some(
            "temperature"@ + " must be finite, got "@ + number::plain(c.temperature),
        ),
        c.temperature is Finite && !(c.top_p is Finite) ==> config::config_fault(c) == Some(
            "top_p"@ + " must be finite, got "@ + number::plain(c.top_p),
        ),
        c.temperature is Finite && c.top_p is Finite && !(c.min_p is Finite)
            ==> config::config_fault(c) == Some(
            "min_p"@ + " must be finite, got "@ + number::plain(c.min_p),
        ),
        config::infinite_fault(c) is None && (number::sign(c.top_p) == Some(-1int)
            || number::sign_less_one(c.top_p) == Some(1int)) ==> config::config_fault(c) == Some(
            "top_p"@ + " must be in [0, 1], got "@ + number::plain(c.top_p),
        ),
        number::plain(Real::Nan) == "NaN"@,
{
}

/// **A filter runs where it can change something**, and only there: a penalty that is not neutral,
/// repeats of two tokens or more, a temperature that divides, a `k` of one or more, a `top_p`
/// below one, a `min_p` above zero, and a `typical_p` between the two.
pub proof fn filters_run_where_they_can_change_something(c: ConfigModel)
    ensures
        config::runs(c, Stage::RepetitionPenalty) <==> number::sign_less_one(c.repetition_penalty)
            != Some(0int),
        config::runs(c, Stage::PresencePenalty) <==> number::sign(c.presence_penalty) != Some(0int),
        config::runs(c, Stage::FrequencyPenalty) <==> number::sign(c.frequency_penalty) != Some(
            0int,
        ),
        config::runs(c, Stage::NoRepeatNgram) <==> c.no_repeat_ngram_size >= 2,
        config::runs(c, Stage::Temperature) <==> number::sign(c.temperature) == Some(1int)
            && number::sign_less_one(c.temperature) != Some(0int),
        config::runs(c, Stage::TopK) <==> c.top_k >= 1,
        config::runs(c, Stage::TopP) <==> number::sign_less_one(c.top_p) == Some(-1int),
        config::runs(c, Stage::MinP) <==> number::sign(c.min_p) == Some(1int),
        config::runs(c, Stage::TypicalP) <==> number::sign(c.typical_p) == Some(1int)
            && number::sign_less_one(c.typical_p) == Some(-1int),
{
}

/// **The greedy configuration** runs no filter and can work.
pub proof fn the_greedy_configuration_filters_nothing(s: Stage)
    ensures
        config::config_fault(config::greedy_config()) is None,
        config::is_greedy_config(config::greedy_config()),
        !config::runs(config::greedy_config(), s),
        config::stages_of(config::greedy_config()).len() == 0,
{
    let c = config::greedy_config();
    reveal_with_fuel(number::leading_zeros, 3);
    assert(seq!['0'].drop_first() =~= seq![]);
    assert(seq!['0'].skip(1) =~= seq![]);
    assert(seq!['1'].skip(0) =~= seq!['1']);
    assert(seq!['1'].drop_first() =~= seq![]);
    assert(number::sign(config::one_digit('0')) == Some(0int));
    assert(number::sign_less_one(config::one_digit('1')) == Some(0int));
    assert(number::sign(config::one_digit('1')) == Some(1int));
    assert(number::sign_less_one(config::one_digit('0')) == Some(-1int));
    assert forall|t: Stage| !config::runs(c, t) by {
        match t {
            Stage::TopP => {},
            _ => {},
        }
    }
    reveal_with_fuel(config::stages_below, 10);
}

} // verus!
