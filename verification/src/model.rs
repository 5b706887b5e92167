//! The whole model: embedding, the decoder stack, the final norm and the head -- and
//! decoding with it.
//!
//! # The chain
//!
//! ```text
//! h = embed_tokens[input_ids]                    [B, T, hidden]
//! for each layer:
//!     h = layer(h)                               mixer chosen by layer_types[i]
//! h = final_norm(h)                              Qwen3_5RMSNorm, x*(1+w)
//! logits = lm_head(h)                            [B, T, vocab], no bias
//! ```
//!
//! The arithmetic of a layer, of the final norm and of a cell of the head is handed in.
pub mod cache;
pub mod decode;
pub mod decode_laws;
pub mod laws;
pub mod network;
pub mod stack;
pub mod token_laws;
pub mod trace_laws;

pub use cache::{AttnState, Cache, LayerKind, MixerState};
pub use decode::{greedy, greedy_cached, greedy_cached_stopping};
pub use network::Network;
pub use stack::{embed, forward, forward_cached, mixer_kind, ModelConfig, ModelTrace};
