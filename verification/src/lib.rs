//! The gated delta net of Qwen3.5 and the text around it, verified.
//!
//! Two halves make up a chat with the model, and this crate holds what decides in both:
//!
//! * **Text.** [`tokenizer`] turns text into ids and back, over [`unicode_gc`]'s normal form;
//!   [`chat`] renders a conversation as the checkpoint's template does, [`chatparse`] reads a
//!   reply back, and [`pyjson`] reads and writes JSON as Python does. [`conformance`] judges
//!   them against recorded cases, and [`cli`] holds what a command line says.
//! * **Numbers.** [`mixer`] is the linear-attention block and [`model`] the stack around it,
//!   with [`tensor`], [`conv`], [`threads`] and [`chunks`] underneath; [`sample`] decides which
//!   tokens the filters keep and which one is drawn.
//!
//! The values of the second half are floats, which are no part of this crate. It is generic in
//! them: arithmetic on single values and rows is handed in, and what is proved is which values
//! it is handed, in which order, and where the results go.
pub mod chat;
pub mod chatparse;
pub mod chunks;
pub mod cli;
pub mod conformance;
pub mod conv;
pub mod mixer;
pub mod model;
pub mod pyjson;
pub mod sample;
pub mod search;
pub mod tensor;
pub mod text;
pub mod threads;
pub mod tokenizer;
pub mod unicode_gc;
pub mod unicode_lookup;
pub mod unicode_tables;

pub use conv::conv_forward;
pub use mixer::{forward, forward_with_state, GdnConfig, GdnState, GdnTrace, GdnWeights};
pub use tensor::{bct_to_btc, btc_to_bct, linear, repeat_interleave_heads};
