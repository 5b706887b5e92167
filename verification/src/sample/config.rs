//! What to do with the logits before drawing.
use super::number;
use super::number::{push_plain, sign_against_one, sign_of};
use super::rng::SplitMix64;
use crate::pyjson::float::{Decimal, Float, Real};
use crate::text;
use crate::text::{push_text, to_owned_text};
use vstd::prelude::*;

verus! {

/// What to do with the logits before drawing.
///
/// The numbers are the decimals that the user wrote, because that is what `transformers`
/// compares with: rounding `0.8` to single precision gives `0.800000011920929`, and `1 - that`
/// flips the truncation on a boundary case rather than shifting it slightly.
#[derive(Clone, Debug, PartialEq)]
pub struct SamplerConfig {
    /// `<= 0` means greedy: zero temperature is the obvious way to ask for the argmax.
    pub temperature: Float,
    /// `0` means off.
    pub top_k: usize,
    /// `>= 1` means off.
    pub top_p: Float,
    /// `<= 0` means off.
    pub min_p: Float,
    /// `<= 0` or `>= 1` means off.
    pub typical_p: Float,
    /// `1.0` means off.
    pub repetition_penalty: Float,
    /// `0` means off.
    pub presence_penalty: Float,
    /// `0` means off.
    pub frequency_penalty: Float,
    /// `0` means off; `1` is refused, because banning every repeat of the current token
    /// is what `repetition_penalty` is for.
    pub no_repeat_ngram_size: usize,
    pub seed: u64,
}

/// What a [`SamplerConfig`] says.
#[verifier::ext_equal]
pub ghost struct ConfigModel {
    pub temperature: Real,
    pub top_k: nat,
    pub top_p: Real,
    pub min_p: Real,
    pub typical_p: Real,
    pub repetition_penalty: Real,
    pub presence_penalty: Real,
    pub frequency_penalty: Real,
    pub no_repeat_ngram_size: nat,
    pub seed: u64,
}

impl View for SamplerConfig {
    type V = ConfigModel;

    open spec fn view(&self) -> ConfigModel {
        ConfigModel {
            temperature: self.temperature@,
            top_k: self.top_k as nat,
            top_p: self.top_p@,
            min_p: self.min_p@,
            typical_p: self.typical_p@,
            repetition_penalty: self.repetition_penalty@,
            presence_penalty: self.presence_penalty@,
            frequency_penalty: self.frequency_penalty@,
            no_repeat_ngram_size: self.no_repeat_ngram_size as nat,
            seed: self.seed,
        }
    }
}

/// A filter of the pipeline.
#[derive(Clone, Copy, Debug, PartialEq, Eq)]
pub enum Stage {
    RepetitionPenalty,
    PresencePenalty,
    FrequencyPenalty,
    NoRepeatNgram,
    Temperature,
    TopK,
    TopP,
    MinP,
    TypicalP,
}

/// The digit `d` as a number.
pub open spec fn one_digit(d: char) -> Real {
    Real::Finite { negative: false, digits: seq![d], exponent: 0 }
}

/// Greedy, with every filter off.
pub open spec fn greedy_config() -> ConfigModel {
    ConfigModel {
        temperature: one_digit('0'),
        top_k: 0,
        top_p: one_digit('1'),
        min_p: one_digit('0'),
        typical_p: one_digit('1'),
        repetition_penalty: one_digit('1'),
        presence_penalty: one_digit('0'),
        frequency_penalty: one_digit('0'),
        no_repeat_ngram_size: 0,
        seed: 0,
    }
}

/// The digit `d` as a number.
fn digit(d: char) -> (r: Float)
    ensures
        r@ == one_digit(d),
{
    let mut digits: Vec<char> = Vec::new();
    digits.push(d);
    assert(digits@ =~= seq![d]);
    Float::Finite(Decimal { negative: false, digits, exponent: 0 })
}

impl Default for SamplerConfig {
    /// Greedy. Sampling is opt-in so that the greedy paths stay exactly where they were
    /// rather than becoming a special case of something new.
    fn default() -> (r: Self)
        ensures
            r@ == greedy_config(),
    {
        SamplerConfig {
            temperature: digit('0'),
            top_k: 0,
            top_p: digit('1'),
            min_p: digit('0'),
            typical_p: digit('1'),
            repetition_penalty: digit('1'),
            presence_penalty: digit('0'),
            frequency_penalty: digit('0'),
            no_repeat_ngram_size: 0,
            seed: 0,
        }
    }
}

// ---------------------------------------------------------------------------
// what is valid
// ---------------------------------------------------------------------------
/// `{name} must be finite, got {x}`, where `x` is not.
pub open spec fn finite_fault(x: Real, name: Seq<char>) -> Option<Seq<char>> {
    if number::is_finite(x) {
        None
    } else {
        Some(name + " must be finite, got "@ + number::plain(x))
    }
}

/// The first of two faults.
pub open spec fn first_fault(a: Option<Seq<char>>, b: Option<Seq<char>>) -> Option<Seq<char>> {
    if a is Some {
        a
    } else {
        b
    }
}

/// The first number that is not finite.
pub open spec fn infinite_fault(c: ConfigModel) -> Option<Seq<char>> {
    first_fault(
        finite_fault(c.temperature, "temperature"@),
        first_fault(
            finite_fault(c.top_p, "top_p"@),
            first_fault(
                finite_fault(c.min_p, "min_p"@),
                first_fault(
                    finite_fault(c.typical_p, "typical_p"@),
                    first_fault(
                        finite_fault(c.repetition_penalty, "repetition_penalty"@),
                        first_fault(
                            finite_fault(c.presence_penalty, "presence_penalty"@),
                            finite_fault(c.frequency_penalty, "frequency_penalty"@),
                        ),
                    ),
                ),
            ),
        ),
    )
}

/// `{name} must be in [0, 1], got {x}`, where `x` is not.
pub open spec fn unit_fault(x: Real, name: Seq<char>) -> Option<Seq<char>> {
    if number::sign(x) == Some(-1int) || number::sign_less_one(x) == Some(1int) {
        Some(name + " must be in [0, 1], got "@ + number::plain(x))
    } else {
        None
    }
}

/// A repetition penalty that is not positive.
pub open spec fn penalty_fault(x: Real) -> Option<Seq<char>> {
    if number::sign(x) == Some(-1int) || number::sign(x) == Some(0int) {
        Some("repetition_penalty must be > 0, got "@ + number::plain(x))
    } else {
        None
    }
}

/// A ban on repeats of single tokens.
pub open spec fn ngram_fault(n: nat) -> Option<Seq<char>> {
    if n == 1 {
        Some(
            "no_repeat_ngram_size=1 bans every token that has appeared, which is what repetition_penalty is for; use 2 or more"@,
        )
    } else {
        None
    }
}

/// What is wrong with a configuration, and nothing where it can work.
pub open spec fn config_fault(c: ConfigModel) -> Option<Seq<char>> {
    first_fault(
        infinite_fault(c),
        first_fault(
            unit_fault(c.top_p, "top_p"@),
            first_fault(
                unit_fault(c.min_p, "min_p"@),
                first_fault(penalty_fault(c.repetition_penalty), ngram_fault(c.no_repeat_ngram_size)),
            ),
        ),
    )
}

// ---------------------------------------------------------------------------
// which filters run
// ---------------------------------------------------------------------------
/// Whether `x > 0`.
pub open spec fn is_positive(x: Real) -> bool {
    number::sign(x) == Some(1int)
}

/// Whether a configuration runs a filter.
pub open spec fn runs(c: ConfigModel, s: Stage) -> bool {
    match s {
        Stage::RepetitionPenalty => number::sign_less_one(c.repetition_penalty) != Some(0int),
        Stage::PresencePenalty => number::sign(c.presence_penalty) != Some(0int),
        Stage::FrequencyPenalty => number::sign(c.frequency_penalty) != Some(0int),
        Stage::NoRepeatNgram => c.no_repeat_ngram_size >= 2,
        Stage::Temperature => is_positive(c.temperature) && number::sign_less_one(c.temperature)
            != Some(0int),
        Stage::TopK => c.top_k >= 1,
        Stage::TopP => number::sign_less_one(c.top_p) == Some(-1int),
        Stage::MinP => is_positive(c.min_p),
        Stage::TypicalP => is_positive(c.typical_p) && number::sign_less_one(c.typical_p) == Some(
            -1int,
        ),
    }
}

/// The filters in the order of the pipeline.
pub open spec fn stage_at(place: int) -> Stage {
    if place == 0 {
        Stage::RepetitionPenalty
    } else if place == 1 {
        Stage::PresencePenalty
    } else if place == 2 {
        Stage::FrequencyPenalty
    } else if place == 3 {
        Stage::NoRepeatNgram
    } else if place == 4 {
        Stage::Temperature
    } else if place == 5 {
        Stage::TopK
    } else if place == 6 {
        Stage::TopP
    } else if place == 7 {
        Stage::MinP
    } else {
        Stage::TypicalP
    }
}

/// Those of the first `n` filters that a configuration runs.
pub open spec fn stages_below(c: ConfigModel, n: int) -> Seq<Stage>
    decreases n,
{
    if n <= 0 {
        seq![]
    } else if runs(c, stage_at(n - 1)) {
        stages_below(c, n - 1).push(stage_at(n - 1))
    } else {
        stages_below(c, n - 1)
    }
}

/// The filters that a configuration runs, in the order of the pipeline.
pub open spec fn stages_of(c: ConfigModel) -> Seq<Stage> {
    stages_below(c, 9)
}

/// Whether a configuration asks for the argmax: `temperature <= 0`.
pub open spec fn is_greedy_config(c: ConfigModel) -> bool {
    number::sign(c.temperature) == Some(-1int) || number::sign(c.temperature) == Some(0int)
}

/// Whether a filter can change the argmax: the penalties and the n-gram ban lower what has
/// appeared, typical-p may drop the largest, and of equal largest top-p may drop the first.
pub open spec fn can_move_argmax(s: Stage) -> bool {
    match s {
        Stage::RepetitionPenalty => true,
        Stage::PresencePenalty => true,
        Stage::FrequencyPenalty => true,
        Stage::NoRepeatNgram => true,
        Stage::TopP => true,
        Stage::TypicalP => true,
        _ => false,
    }
}

/// Whether a configuration takes the argmax of the logits as they came: it asks for the
/// argmax, and runs no filter that can change it.
pub open spec fn keeps_argmax(c: ConfigModel) -> bool {
    &&& is_greedy_config(c)
    &&& forall|s: Stage| #[trigger] runs(c, s) ==> !can_move_argmax(s)
}

/// The place of a filter in the pipeline.
pub open spec fn place(s: Stage) -> int {
    match s {
        Stage::RepetitionPenalty => 0,
        Stage::PresencePenalty => 1,
        Stage::FrequencyPenalty => 2,
        Stage::NoRepeatNgram => 3,
        Stage::Temperature => 4,
        Stage::TopK => 5,
        Stage::TopP => 6,
        Stage::MinP => 7,
        Stage::TypicalP => 8,
    }
}

proof fn lemma_stages_below(c: ConfigModel, n: int)
    requires
        0 <= n <= 9,
    ensures
        forall|i: int|
            0 <= i < stages_below(c, n).len() ==> place(#[trigger] stages_below(c, n)[i]) < n
                && runs(c, stages_below(c, n)[i]),
        forall|i: int, j: int|
            #![trigger stages_below(c, n)[i], stages_below(c, n)[j]]
            0 <= i < j < stages_below(c, n).len() ==> place(stages_below(c, n)[i]) < place(
                stages_below(c, n)[j],
            ),
        forall|s: Stage|
            place(s) < n && #[trigger] runs(c, s) ==> stages_below(c, n).contains(s),
    decreases n,
{
    if n > 0 {
        lemma_stages_below(c, n - 1);
        let before = stages_below(c, n - 1);
        let now = stages_below(c, n);
        let last = stage_at(n - 1);
        assert(place(last) == n - 1);
        assert forall|s: Stage| place(s) < n && #[trigger] runs(c, s) implies now.contains(s) by {
            if place(s) == n - 1 {
                assert(s == last);
                assert(now[before.len() as int] == s);
            } else {
                let i = choose|i: int| 0 <= i < before.len() && before[i] == s;
                assert(now[i] == s);
            }
        }
    }
}

/// Whatever is on, the filters run in the one order of the pipeline, each once at most, and
/// all that are on run. In particular every penalty runs before `top_k`, which is
/// observable.
pub proof fn stages_run_in_order(c: ConfigModel)
    ensures
        forall|i: int, j: int|
            #![trigger stages_of(c)[i], stages_of(c)[j]]
            0 <= i < j < stages_of(c).len() ==> place(stages_of(c)[i]) < place(stages_of(c)[j]),
        forall|s: Stage| stages_of(c).contains(s) <==> #[trigger] runs(c, s),
{
    lemma_stages_below(c, 9);
    assert forall|s: Stage| stages_of(c).contains(s) implies #[trigger] runs(c, s) by {
        let i = choose|i: int| 0 <= i < stages_of(c).len() && stages_of(c)[i] == s;
        assert(runs(c, stages_below(c, 9)[i]));
    }
}

/// A configuration that keeps the argmax runs top-k and min-p at most.
pub proof fn keeping_the_argmax_leaves_two_filters(c: ConfigModel, s: Stage)
    requires
        keeps_argmax(c),
        runs(c, s),
    ensures
        s == Stage::TopK || s == Stage::MinP,
{
}

/// With every filter off the logits are not touched at all: "off" means off.
pub proof fn off_means_off()
    ensures
        stages_of(greedy_config()) == Seq::<Stage>::empty(),
        config_fault(greedy_config()) is None,
        keeps_argmax(greedy_config()),
{
    let zero = seq!['0'];
    let one = seq!['1'];
    assert(zero.drop_first() =~= seq![]);
    assert(number::leading_zeros(zero.drop_first()) == 0);
    assert(number::leading_zeros(zero) == 1);
    assert(number::leading_zeros(one) == 0);
    assert(one.skip(0) =~= one);
    assert(one.drop_first() =~= seq![]);
    assert(number::leading_zeros(one.drop_first()) == 0);
    assert(zero.skip(1) =~= seq![]);
    let c = greedy_config();
    assert forall|s: Stage| !#[trigger] runs(c, s) by {}
    reveal_with_fuel(stages_below, 10);
}

// ---------------------------------------------------------------------------
// deciding it
// ---------------------------------------------------------------------------
/// `{name}{middle}{x}`
fn complaint(name: &str, middle: &str, x: &Float) -> (r: String)
    ensures
        r@ == name@ + middle@ + number::plain(x@),
{
    let mut out = to_owned_text(name);
    push_text(&mut out, middle);
    push_plain(&mut out, x);
    out
}

/// A number that is not finite.
fn check_finite(x: &Float, name: &str) -> (r: Result<(), String>)
    ensures
        match r {
            Ok(_) => finite_fault(x@, name@) is None,
            Err(e) => finite_fault(x@, name@) == Some(e@),
        },
{
    match x {
        Float::Finite(_) => Ok(()),
        _ => Err(complaint(name, " must be finite, got ", x)),
    }
}

/// A number outside `[0, 1]`.
fn check_unit(x: &Float, name: &str) -> (r: Result<(), String>)
    ensures
        match r {
            Ok(_) => unit_fault(x@, name@) is None,
            Err(e) => unit_fault(x@, name@) == Some(e@),
        },
{
    if is_sign(sign_of(x), -1) || is_sign(sign_against_one(x), 1) {
        Err(complaint(name, " must be in [0, 1], got ", x))
    } else {
        Ok(())
    }
}

/// Whether the sign is there and is `s`.
fn is_sign(x: Option<i8>, s: i8) -> (r: bool)
    ensures
        r == (x == Some(s)),
{
    match x {
        Some(v) => v == s,
        None => false,
    }
}

impl SamplerConfig {
    /// True when this configuration cannot change the argmax, so the caller may keep
    /// using the plain greedy path. Checked rather than assumed.
    pub fn is_greedy(&self) -> (r: bool)
        ensures
            r == keeps_argmax(self@),
    {
        let moves: bool = self.has_stage(Stage::RepetitionPenalty) || self.has_stage(
            Stage::PresencePenalty,
        ) || self.has_stage(Stage::FrequencyPenalty) || self.has_stage(Stage::NoRepeatNgram)
            || self.has_stage(Stage::TopP) || self.has_stage(Stage::TypicalP);
        proof {
            let c = self@;
            assert(moves ==> exists|s: Stage| #[trigger] runs(c, s) && can_move_argmax(s));
            if !moves {
                assert forall|s: Stage| #[trigger] runs(c, s) implies !can_move_argmax(s) by {}
            }
        }
        self.takes_argmax() && !moves
    }

    /// Whether the temperature asks for the argmax of what the filters leave, rather than for
    /// a draw.
    pub fn takes_argmax(&self) -> (r: bool)
        ensures
            r == is_greedy_config(self@),
    {
        let s: Option<i8> = sign_of(&self.temperature);
        is_sign(s, -1) || is_sign(s, 0)
    }

    fn check_all_finite(&self) -> (r: Result<(), String>)
        ensures
            match r {
                Ok(_) => infinite_fault(self@) is None,
                Err(e) => infinite_fault(self@) == Some(e@),
            },
    {
        check_finite(&self.temperature, "temperature")?;
        check_finite(&self.top_p, "top_p")?;
        check_finite(&self.min_p, "min_p")?;
        check_finite(&self.typical_p, "typical_p")?;
        check_finite(&self.repetition_penalty, "repetition_penalty")?;
        check_finite(&self.presence_penalty, "presence_penalty")?;
        check_finite(&self.frequency_penalty, "frequency_penalty")
    }

    /// Refuses what cannot work.
    pub fn validate(&self) -> (r: Result<(), String>)
        ensures
            match r {
                Ok(_) => config_fault(self@) is None,
                Err(e) => config_fault(self@) == Some(e@),
            },
    {
        self.check_all_finite()?;
        check_unit(&self.top_p, "top_p")?;
        check_unit(&self.min_p, "min_p")?;
        let s: Option<i8> = sign_of(&self.repetition_penalty);
        if is_sign(s, -1) || is_sign(s, 0) {
            let e = complaint(
                "repetition_penalty must be > 0, got ",
                "",
                &self.repetition_penalty,
            );
            proof {
                reveal_strlit("");
                let shown = number::plain(self@.repetition_penalty);
                assert("repetition_penalty must be > 0, got "@ + ""@
                    =~= "repetition_penalty must be > 0, got "@);
            }
            return Err(e);
        }
        if self.no_repeat_ngram_size == 1 {
            return Err(
                to_owned_text(
                    "no_repeat_ngram_size=1 bans every token that has appeared, which is what repetition_penalty is for; use 2 or more",
                ),
            );
        }
        Ok(())
    }

    /// Whether this configuration runs a filter.
    pub fn has_stage(&self, stage: Stage) -> (r: bool)
        ensures
            r == runs(self@, stage),
    {
        match stage {
            Stage::RepetitionPenalty => !is_sign(sign_against_one(&self.repetition_penalty), 0),
            Stage::PresencePenalty => !is_sign(sign_of(&self.presence_penalty), 0),
            Stage::FrequencyPenalty => !is_sign(sign_of(&self.frequency_penalty), 0),
            Stage::NoRepeatNgram => self.no_repeat_ngram_size >= 2,
            Stage::Temperature => is_sign(sign_of(&self.temperature), 1) && !is_sign(
                sign_against_one(&self.temperature),
                0,
            ),
            Stage::TopK => self.top_k >= 1,
            Stage::TopP => is_sign(sign_against_one(&self.top_p), -1),
            Stage::MinP => is_sign(sign_of(&self.min_p), 1),
            Stage::TypicalP => is_sign(sign_of(&self.typical_p), 1) && is_sign(
                sign_against_one(&self.typical_p),
                -1,
            ),
        }
    }

    /// The filters that this configuration runs, in the order of the pipeline.
    pub fn stages(&self) -> (r: Vec<Stage>)
        ensures
            r@ == stages_of(self@),
    {
        let mut out: Vec<Stage> = Vec::new();
        let mut n: usize = 0;
        while n < 9
            invariant
                n <= 9,
                out@ == stages_below(self@, n as int),
            decreases 9 - n,
        {
            let stage: Stage = stage_of_place(n);
            if self.has_stage(stage) {
                out.push(stage);
            }
            n += 1;
        }
        out
    }
}

/// The filters in the order of the pipeline.
fn stage_of_place(place: usize) -> (r: Stage)
    ensures
        r == stage_at(place as int),
{
    match place {
        0 => Stage::RepetitionPenalty,
        1 => Stage::PresencePenalty,
        2 => Stage::FrequencyPenalty,
        3 => Stage::NoRepeatNgram,
        4 => Stage::Temperature,
        5 => Stage::TopK,
        6 => Stage::TopP,
        7 => Stage::MinP,
        _ => Stage::TypicalP,
    }
}

// ---------------------------------------------------------------------------
// the sampler
// ---------------------------------------------------------------------------
/// A configured sampler: the filters plus the RNG stream.
#[derive(Clone, Debug)]
pub struct Sampler {
    cfg: SamplerConfig,
    rng: SplitMix64,
}

/// What a sampler is.
pub ghost struct SamplerModel {
    pub cfg: ConfigModel,
    pub state: u64,
}

impl View for Sampler {
    type V = SamplerModel;

    closed spec fn view(&self) -> SamplerModel {
        SamplerModel { cfg: self.cfg@, state: self.rng@ }
    }
}

/// The message for a pipeline that leaves nothing to draw from.
pub open spec fn nothing_left(logits: nat) -> Seq<char> {
    "every token was filtered out ("@ + text::decimal(logits)
        + " logits, all -inf); loosen top_k / top_p / min_p, or the pipeline is inconsistent"@
}

impl Sampler {
    /// A sampler, where the configuration can work.
    pub fn new(cfg: SamplerConfig) -> (r: Result<Self, String>)
        ensures
            match r {
                Ok(s) => config_fault(cfg@) is None && s@ == (SamplerModel {
                    cfg: cfg@,
                    state: cfg@.seed,
                }),
                Err(e) => config_fault(cfg@) == Some(e@),
            },
    {
        match cfg.validate() {
            Ok(_) => {
                let rng = SplitMix64::new(cfg.seed);
                Ok(Sampler { cfg, rng })
            },
            Err(e) => Err(e),
        }
    }

    /// The configuration.
    pub fn config(&self) -> (r: &SamplerConfig)
        ensures
            r@ == self@.cfg,
    {
        &self.cfg
    }

    /// The numerator over `2^53` of the next uniform in `[0, 1)`.
    pub fn draw(&mut self) -> (r: u64)
        ensures
            final(self)@ == (SamplerModel {
                state: super::rng::advanced(old(self)@.state),
                ..old(self)@
            }),
            r == super::rng::mixed(super::rng::advanced(old(self)@.state)) >> 11,
            r < 0x20_0000_0000_0000,
    {
        self.rng.next_u53()
    }
}

} // verus!
