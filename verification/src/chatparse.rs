//! Reading back what the model wrote: `<tool_call>` blocks, and the think block.
//!
//! The chat template only renders. Nothing in a checkpoint turns
//!
//! ```text
//! <tool_call>
//! <function=get_weather>
//! <parameter=city>
//! Paris
//! </parameter>
//! </function>
//! </tool_call>
//! ```
//!
//! back into `get_weather(city="Paris")`, so a tool loop needs this side as well.
//!
//! # The property that matters
//!
//! Render, parse and render again, and the same bytes come out. A parser that quietly
//! drops a parameter, or reorders them, breaks it.
//!
//! # Values stay strings
//!
//! A `<parameter>` holds whatever `str`-of-the-argument the template wrote, so
//! `42`, `True`, `None` and `[1, 2]` all arrive as text. The typing is left to the caller,
//! who knows the tool's schema. Re-rendering those strings puts the same bytes back, which
//! is the point: `42` is `str("42")`, not `repr(42)`.
//!
//! The one thing that cannot be recovered is a string argument that happened to
//! *look* like JSON -- `<parameter=d>{"x": 1}</parameter>` re-renders as
//! `{"x": 1}` only if it is parsed back as a string, which is why the parser does
//! not try to interpret it.
pub mod laws;
pub mod read_laws;
pub mod reply;
pub mod request_laws;
pub mod turn_laws;

pub use reply::{parse_assistant, parse_tool_calls, FunctionCall, Reply};
