//! A small JSON reader and writer whose output matches Python's `json.dumps`.
//!
//! A chat template pipes tool definitions through `json.dumps(obj,
//! ensure_ascii=False)`, and the text has to come out byte for byte. Three things set
//! it apart from the usual compact writer:
//!
//! * **Separators.** `{"a": 1, "b": 2}`, with a space after `:` and `,`.
//! * **Key order.** Object keys stay in the order they were written in.
//! * **Float formatting.** `repr(float)`, which switches to exponent notation outside
//!   `[1e-4, 1e16)` and pads the exponent to two digits: `1e-05`, `1e+16`.
//!
//! # `dumps` is not `str`
//!
//! The template uses both, chosen per argument by type: a mapping, or a sequence that
//! is not a string, goes through [`dumps`], everything else through [`py_str`]. That is
//! why `True` comes out as `True` in a rendered `<parameter=...>` while a nested dict
//! comes out as JSON.
pub mod float;
pub mod laws;
pub mod reader;
pub mod reader_laws;
pub mod rounding;
pub mod sections;
pub mod text_laws;
pub mod value;
pub mod writer;

pub use float::{py_repr_f64, py_str_f64, Decimal, Float};
pub use reader::parse_exact;
pub use rounding::parse;
pub use value::Value;
pub use writer::{dumps, py_str};
