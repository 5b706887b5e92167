//! Messages, and the mathematical values they stand for.
use crate::pyjson::value;
use crate::pyjson::value::{Json, Value};
use crate::text::to_owned_text;
use vstd::prelude::*;

verus! {

// ---------------------------------------------------------------------------
// mathematical values
// ---------------------------------------------------------------------------
/// A role, with the name of one that the template does not know.
pub enum RoleModel {
    System,
    User,
    Assistant,
    Tool,
    Other(Seq<char>),
}

/// One element of a structured message.
pub enum PartModel {
    Text(Seq<char>),
    Image,
    Video,
    Other,
}

/// A message body.
#[verifier::ext_equal]
pub enum ContentModel {
    Text(Seq<char>),
    Parts(Seq<PartModel>),
    Absent,
    Unsupported,
}

/// A function call: its name, and its arguments in order.
#[verifier::ext_equal]
pub struct CallModel {
    pub name: Seq<char>,
    pub arguments: Seq<(Seq<char>, Json)>,
}

/// A message.
#[verifier::ext_equal]
pub struct MessageModel {
    pub role: RoleModel,
    pub content: ContentModel,
    pub reasoning: Option<Seq<char>>,
    pub tool_calls: Seq<CallModel>,
}

/// A render request.
#[verifier::ext_equal]
pub struct RequestModel {
    pub messages: Seq<MessageModel>,
    pub tools: Seq<Json>,
    pub opts: Options,
}

// ---------------------------------------------------------------------------
// types
// ---------------------------------------------------------------------------
/// A message's role.
///
/// [`Role::Other`] exists because the template distinguishes two failures by
/// *position*: an unknown role before the last user query falls through the
/// backwards scan and produces `No user query found in messages.`, while the same
/// role after it produces `Unexpected message role.`. A closed enum could not
/// express the input that produces the first.
#[derive(Debug, Clone, PartialEq, Eq)]
pub enum Role {
    System,
    User,
    Assistant,
    Tool,
    Other(String),
}

/// One element of a structured message.
#[derive(Debug, Clone, PartialEq, Eq)]
pub enum Part {
    Text(String),
    Image,
    Video,
    /// Something the template refuses: `Unexpected item type in content.`
    Other,
}

/// A message body.
#[derive(Debug, Clone, PartialEq, Eq)]
pub enum Content {
    /// `content is string`.
    Text(String),
    /// `content is iterable and content is not mapping`.
    Parts(Vec<Part>),
    /// `content is none or content is undefined`.
    Absent,
    /// A mapping, or a number, or a bool: the template's final `else`.
    Unsupported,
}

/// One `<function=...>` call, with arguments in insertion order.
#[derive(Debug, Clone, PartialEq)]
pub struct FunctionCall {
    pub name: String,
    /// Ordered, like the Python dict the template iterates with `|items`.
    pub arguments: Vec<(String, Value)>,
}

/// A message.
#[derive(Debug, Clone, PartialEq)]
pub struct Message {
    pub role: Role,
    pub content: Content,
    /// `message.reasoning_content`, when it is a string.
    ///
    /// `Some` suppresses the `</think>`-in-content extraction entirely, which is
    /// what the template does -- so `Some("")` and `None` are different inputs.
    pub reasoning: Option<String>,
    pub tool_calls: Vec<FunctionCall>,
}

/// Template options.
#[derive(Debug, Clone, Copy, PartialEq, Eq, Default)]
pub struct Options {
    /// Append an empty `assistant` block for the model to fill.
    pub add_generation_prompt: bool,
    /// `true` leaves the block open after `<think>\n` so the model reasons;
    /// `false` closes an *empty* think block, which is "answer directly".
    pub enable_thinking: bool,
    /// Prefix each image/video marker with `Picture N: ` / `Video N: `.
    pub add_vision_id: bool,
}

/// A render request: messages, and the tools the model may call.
#[derive(Debug, Clone, PartialEq, Default)]
pub struct Request {
    pub messages: Vec<Message>,
    /// Raw JSON, passed through `tojson` verbatim. The template never inspects
    /// inside a tool definition.
    pub tools: Vec<Value>,
    pub opts: Options,
}

/// The result of a render.
#[derive(Debug, Clone, PartialEq, Eq)]
pub struct Rendered {
    pub text: String,
    /// How many image parts were rendered, as far as `usize` counts.
    ///
    /// Non-zero is a warning, not an error: the markers are correct, but an engine that
    /// loads the language model without the vision tower has no image behind those ids.
    /// The caller is told rather than left to find out.
    pub images: usize,
    /// How many video parts were rendered, as far as `usize` counts.
    pub videos: usize,
}

// ---------------------------------------------------------------------------
// views
// ---------------------------------------------------------------------------
impl View for Role {
    type V = RoleModel;

    open spec fn view(&self) -> RoleModel {
        match *self {
            Role::System => RoleModel::System,
            Role::User => RoleModel::User,
            Role::Assistant => RoleModel::Assistant,
            Role::Tool => RoleModel::Tool,
            Role::Other(s) => RoleModel::Other(s@),
        }
    }
}

impl View for Part {
    type V = PartModel;

    open spec fn view(&self) -> PartModel {
        match *self {
            Part::Text(s) => PartModel::Text(s@),
            Part::Image => PartModel::Image,
            Part::Video => PartModel::Video,
            Part::Other => PartModel::Other,
        }
    }
}

/// What a list of parts stands for.
pub open spec fn part_models(parts: Seq<Part>) -> Seq<PartModel> {
    Seq::new(parts.len(), |i: int| parts[i]@)
}

impl View for Content {
    type V = ContentModel;

    open spec fn view(&self) -> ContentModel {
        match *self {
            Content::Text(s) => ContentModel::Text(s@),
            Content::Parts(p) => ContentModel::Parts(part_models(p@)),
            Content::Absent => ContentModel::Absent,
            Content::Unsupported => ContentModel::Unsupported,
        }
    }
}

impl View for FunctionCall {
    type V = CallModel;

    open spec fn view(&self) -> CallModel {
        CallModel { name: self.name@, arguments: value::json_members(self.arguments@) }
    }
}

/// What a list of calls stands for.
pub open spec fn call_models(calls: Seq<FunctionCall>) -> Seq<CallModel> {
    Seq::new(calls.len(), |i: int| calls[i]@)
}

/// What an optional text stands for.
pub open spec fn text_model(s: Option<String>) -> Option<Seq<char>> {
    match s {
        Some(t) => Some(t@),
        None => None,
    }
}

impl View for Message {
    type V = MessageModel;

    open spec fn view(&self) -> MessageModel {
        MessageModel {
            role: self.role@,
            content: self.content@,
            reasoning: text_model(self.reasoning),
            tool_calls: call_models(self.tool_calls@),
        }
    }
}

/// What a list of messages stands for.
pub open spec fn message_models(messages: Seq<Message>) -> Seq<MessageModel> {
    Seq::new(messages.len(), |i: int| messages[i]@)
}

impl View for Request {
    type V = RequestModel;

    open spec fn view(&self) -> RequestModel {
        RequestModel {
            messages: message_models(self.messages@),
            tools: value::json_items(self.tools@),
            opts: self.opts,
        }
    }
}

// ---------------------------------------------------------------------------
// constructors
// ---------------------------------------------------------------------------
/// A message that only says something.
pub open spec fn plain(role: RoleModel, text: Seq<char>) -> MessageModel {
    MessageModel {
        role,
        content: ContentModel::Text(text),
        reasoning: None,
        tool_calls: seq![],
    }
}

impl Message {
    pub fn new(role: Role, text: &str) -> (r: Message)
        ensures
            r@ == plain(role@, text@),
    {
        let tool_calls: Vec<FunctionCall> = Vec::new();
        assert(call_models(tool_calls@) =~= seq![]);
        Message { role, content: Content::Text(to_owned_text(text)), reasoning: None, tool_calls }
    }

    pub fn user(text: &str) -> (r: Message)
        ensures
            r@ == plain(RoleModel::User, text@),
    {
        Message::new(Role::User, text)
    }

    pub fn assistant(text: &str) -> (r: Message)
        ensures
            r@ == plain(RoleModel::Assistant, text@),
    {
        Message::new(Role::Assistant, text)
    }

    pub fn system(text: &str) -> (r: Message)
        ensures
            r@ == plain(RoleModel::System, text@),
    {
        Message::new(Role::System, text)
    }

    pub fn tool(text: &str) -> (r: Message)
        ensures
            r@ == plain(RoleModel::Tool, text@),
    {
        Message::new(Role::Tool, text)
    }
}

} // verus!
