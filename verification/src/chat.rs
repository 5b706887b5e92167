//! The chat template, implemented branch for branch.
//!
//! # Why a chat template exists at all
//!
//! The weights contain no notion of "who is speaking". The model sees a flat
//! string, and the roles exist only to decide which markers that string is
//! wrapped in:
//!
//! ```text
//! <|im_start|>system\n{system}<|im_end|>\n
//! <|im_start|>user\n{user}<|im_end|>\n
//! <|im_start|>assistant\n{assistant}<|im_end|>\n
//! ```
//!
//! # The two traps
//!
//! * **`|trim` in Jinja is Python's `str.strip`, not Rust's `trim`.** Python's
//!   whitespace set is `White_Space` plus `U+001C..U+001F`, so `"\x1cHi\x1c"` strips
//!   to `Hi` in Python and to itself under `str::trim`. See [`jinja_trim`].
//! * **`assistant` messages have two shapes.** One *after* the last user query gets a
//!   `<think>` block prepended; one *before* it does not. The boundary is found by
//!   scanning backwards and *skipping* any user message that is itself a wrapped
//!   `<tool_response>` -- which is what makes a multi-step tool loop render correctly.
//!
//! # What is around it
//!
//! * Parsing the model's `<tool_call>` output back into arguments is
//!   [`crate::chatparse`], because the template only renders.
//! * An image part produces ids that a language model without a vision tower reads as
//!   ordinary tokens. [`Part::Image`] and [`Part::Video`] render correctly, and
//!   [`render`] counts them in its return value; see [`Rendered`].
pub mod laws;
pub mod message;
pub mod request;
pub mod request_laws;
pub mod template;
pub mod turn_laws;

pub use message::{
    Content, FunctionCall, Message, Options, Part, Rendered, Request, Role,
};
pub use template::{
    jinja_trim, render, ERR_CONTENT_TYPE, ERR_ITEM_TYPE, ERR_NO_MESSAGES, ERR_NO_USER_QUERY,
    ERR_SYSTEM_IMAGE, ERR_SYSTEM_NOT_FIRST, ERR_SYSTEM_VIDEO, ERR_UNEXPECTED_ROLE, IM_END,
    IM_START, THINK_CLOSE, THINK_OPEN,
};
