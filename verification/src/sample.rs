//! Sampling: what the logits filters decide, and the draw.
//!
//! Every one of these filters is a silent trap. A wrong top-p boundary, a symmetric
//! repetition penalty or a top-k that sorts instead of thresholding all produce **valid
//! probabilities and a plausible token**. Nothing about the output says they are wrong.
//!
//! The pipeline order is not a design choice, it is what `transformers` runs:
//!
//! ```text
//! repetition_penalty -> presence -> frequency -> no_repeat_ngram -> temperature
//!   -> top_k -> top_p -> min_p -> typical_p
//! ```
//!
//! Things that are not what they look like:
//!
//! 1. **`top_k` thresholds, it does not sort.** With ties it therefore keeps *more* than
//!    `k` tokens: on `[1,1,1,1,.5,.5]` with `top_k=1` it keeps **four**.
//! 2. **`top_p` sorts *ascending* and removes from the small end**, removing the tokens
//!    whose ascending cumulative mass is `<= 1 - top_p` and then un-removing the largest.
//!    With ties the removed token is chosen by sort order, so the tie order is fixed here.
//! 3. **`repetition_penalty` is applied once per distinct token**, not once per occurrence.
//! 4. **`min_p` compares with a strict `<`**, so a token exactly at the threshold survives.
//! 5. **`typical_p` keeps by surprise**, and counts one token past the mass.
//!
//! # Scores and keys
//!
//! The scores are floats, and so is the arithmetic on them; both are handed in. What the
//! filters decide depends only on how scores compare, so they take integers that compare
//! alike, their [`order_key`](filters::order_key)s.
pub mod config;
pub mod config_laws;
pub mod draw_laws;
pub mod filters;
pub mod logits;
pub mod mask_laws;
pub mod number;
pub mod number_laws;
pub mod order;
pub mod penalties;
pub mod pipeline;
pub mod rng;
pub mod stage_laws;
pub mod stages;

pub use config::{Sampler, SamplerConfig, Stage};
pub use filters::{
    first_largest, kept_by_min_p, kept_by_top_p, kept_by_typical_p, kth_largest, order_key,
    selected_token,
};
pub use logits::{
    frequency_penalty, min_p, no_repeat_ngram, presence_penalty, repetition_penalty, select,
    temperature, top_k, top_p, typical_p,
};
pub use order::{ascending_order, descending_order};
pub use penalties::{banned_tokens, distinct_tokens, token_counts};
pub use rng::SplitMix64;
pub use stages::{run_stage, Arithmetic};
