//! Byte-level BPE tokenizer, matching `Qwen2Tokenizer` as shipped with Qwen3.5.
//!
//! # The pipeline
//!
//! ```text
//! text
//!   -> NFC                                     normalizer
//!   -> split out added tokens                  they never reach the regex or the BPE
//!   -> split each remaining run                the Qwen2 pre-tokenizer regex
//!   -> UTF-8 bytes -> byte-level characters    the reason there is no UNK
//!   -> BPE merges                              lowest merge rank first
//!   -> ids
//! ```
//!
//! # Why byte-level
//!
//! The pre-tokenizer's output is converted to UTF-8 bytes and each byte is mapped to
//! a printable character before the BPE ever sees it, so every one of the 256 possible
//! bytes is a token. A byte that is not printable in Latin-1 gets mapped up into
//! `U+0100..`. The observable consequences:
//!
//! * `"Hello world"` becomes `["Hello", "Ġworld"]` -- `Ġ` is byte `0x20`, a space.
//! * `"a\n\nb"` becomes `["a", "ĊĊ", "b"]` -- `Ċ` is byte `0x0A`.
//! * `"你好"` becomes 6 characters, because each CJK codepoint is 3 UTF-8 bytes. So
//!   the vocabulary contains no CJK character, only its bytes.
//! * There is no unknown token. `unk_token` is `null` and `byte_fallback` is false,
//!   because nothing can be out of vocabulary.
pub mod added;
pub mod bpe;
pub mod bytes;
pub mod decode_laws;
pub mod laws;
pub mod load;
pub mod load_laws;
pub mod merge_laws;
pub mod model;
pub mod pattern;
pub mod scanner;
pub mod table_laws;
pub mod vocabulary;

pub use bytes::byte_to_char_table;
pub use load::{TokenizerInfo, PRETOKENIZE_REGEX_NO_MARKS, PRETOKENIZE_REGEX_WITH_MARKS};
pub use model::Tokenizer;
pub use scanner::{pretokenize, pretokenize_with};
