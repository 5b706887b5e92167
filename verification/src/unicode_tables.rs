//! Tables of the Unicode character database.
//!
//! The Qwen2 pre-tokenizer splits on `\p{L}`, `\p{M}` and `\p{N}`. Rust offers
//! `char::is_alphabetic()`, but that is the **Alphabetic property**, not `\p{L}`: it
//! also covers `Nl` (Roman numerals such as `Ⅻ`) and part of `Mn`. And there is no
//! standard API at all for `\p{M}`. So the categories come from tables, which also makes
//! the Unicode version explicit: a code point assigned later is classified as "other".
pub mod apart;
pub mod classes;
pub mod compositions;
pub mod letters;
pub mod marks;
pub mod numbers;
pub mod order;
pub mod pairs;
pub mod singletons;

pub use classes::CCC;
pub use compositions::COMPOSE;
pub use letters::LETTER_RANGES;
pub use marks::MARK_RANGES;
pub use numbers::NUMBER_RANGES;
pub use pairs::DECOMPOSE_2;
pub use singletons::DECOMPOSE_1;

use vstd::prelude::*;

verus! {

/// The version of the database that the tables come from.
pub const UNICODE_VERSION: &'static str = "14.0.0";

} // verus!
