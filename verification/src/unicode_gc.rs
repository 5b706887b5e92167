//! General-category lookups and NFC.
pub mod compose_laws;
pub mod laws;
pub mod normal;
pub mod part_laws;

pub use crate::unicode_lookup::{is_letter, is_mark, is_number};
pub use normal::{compose, decompose_one, nfc};
