//! Building a request from JSON.
use super::message;
use super::message::{
    CallModel, Content, ContentModel, FunctionCall, Message, MessageModel, Options, Part, PartModel,
    Request, RequestModel, Role, RoleModel,
};
use crate::pyjson::py_str;
use crate::pyjson::value;
use crate::pyjson::value::{Json, Value};
use crate::pyjson::writer;
use crate::text::{same_text, to_owned_text};
use vstd::prelude::*;

verus! {

// ---------------------------------------------------------------------------
// what is read
// ---------------------------------------------------------------------------
/// The role of that name.
pub open spec fn role_named(s: Seq<char>) -> RoleModel {
    if s == "system"@ {
        RoleModel::System
    } else if s == "user"@ {
        RoleModel::User
    } else if s == "assistant"@ {
        RoleModel::Assistant
    } else if s == "tool"@ {
        RoleModel::Tool
    } else {
        RoleModel::Other(s)
    }
}

/// Jinja's `key in v`.
pub open spec fn holds(v: Json, key: Seq<char>) -> bool {
    match v {
        Json::Object(m) => value::has_member(m, key),
        Json::Str(s) => value::occurs_in(key, s),
        _ => false,
    }
}

/// Whether `v.type` is that text.
pub open spec fn typed(v: Json, name: Seq<char>) -> bool {
    v.member("type"@) == Some(Json::Str(name))
}

/// One item of a structured body: the template tests for an image, then for a video,
/// then for text.
pub open spec fn part_of(v: Json) -> PartModel {
    if holds(v, "image"@) || holds(v, "image_url"@) || typed(v, "image"@) {
        PartModel::Image
    } else if holds(v, "video"@) || typed(v, "video"@) {
        PartModel::Video
    } else {
        match v.member("text"@) {
            Some(t) => PartModel::Text(writer::str_text(t)),
            None => PartModel::Other,
        }
    }
}

/// A message body.
pub open spec fn content_of(v: Json) -> ContentModel {
    match v {
        Json::Str(s) => ContentModel::Text(s),
        Json::Null => ContentModel::Absent,
        Json::Array(a) => ContentModel::Parts(Seq::new(a.len(), |i: int| part_of(a[i]))),
        _ => ContentModel::Unsupported,
    }
}

/// A tool call: `tool_call.function if defined else tool_call`.
pub open spec fn call_of(v: Json) -> Result<CallModel, Seq<char>> {
    let f = match v.member("function"@) {
        Some(f) => f,
        None => v,
    };
    match f.member("name"@) {
        Some(Json::Str(name)) => Ok(
            CallModel {
                name,
                arguments: match f.member("arguments"@) {
                    Some(Json::Object(m)) => m,
                    _ => seq![],
                },
            },
        ),
        _ => Err("a tool call has no string `name`"@),
    }
}

/// A list of tool calls, and the first error where one of them has one.
pub open spec fn calls_of(a: Seq<Json>) -> Result<Seq<CallModel>, Seq<char>>
    decreases a.len(),
{
    if a.len() == 0 {
        Ok(seq![])
    } else {
        match calls_of(a.drop_last()) {
            Err(e) => Err(e),
            Ok(before) => match call_of(a.last()) {
                Err(e) => Err(e),
                Ok(c) => Ok(before.push(c)),
            },
        }
    }
}

/// One message.
pub open spec fn message_of(v: Json) -> Result<MessageModel, Seq<char>> {
    match v.member("role"@) {
        Some(Json::Str(role)) => {
            let calls = match v.member("tool_calls"@) {
                Some(Json::Array(a)) => calls_of(a),
                _ => Ok(seq![]),
            };
            match calls {
                Err(e) => Err(e),
                Ok(tool_calls) => Ok(
                    MessageModel {
                        role: role_named(role),
                        content: match v.member("content"@) {
                            None => ContentModel::Absent,
                            Some(c) => content_of(c),
                        },
                        reasoning: match v.member("reasoning_content"@) {
                            Some(Json::Str(s)) => Some(s),
                            _ => None,
                        },
                        tool_calls,
                    },
                ),
            }
        },
        _ => Err("message has no string `role`"@),
    }
}

/// A list of messages, and the first error where one of them has one.
pub open spec fn messages_of(a: Seq<Json>) -> Result<Seq<MessageModel>, Seq<char>>
    decreases a.len(),
{
    if a.len() == 0 {
        Ok(seq![])
    } else {
        match messages_of(a.drop_last()) {
            Err(e) => Err(e),
            Ok(before) => match message_of(a.last()) {
                Err(e) => Err(e),
                Ok(m) => Ok(before.push(m)),
            },
        }
    }
}

/// A flag, which is off where it is not given as a boolean.
pub open spec fn flag_of(v: Json, key: Seq<char>) -> bool {
    v.member(key) == Some(Json::Bool(true))
}

/// A request.
pub open spec fn request_of(v: Json) -> Result<RequestModel, Seq<char>> {
    let messages = match v.member("messages"@) {
        Some(Json::Array(a)) => messages_of(a),
        Some(_) => Err("`messages` is not an array"@),
        None => Ok(seq![]),
    };
    match messages {
        Err(e) => Err(e),
        Ok(messages) => Ok(
            RequestModel {
                messages,
                tools: match v.member("tools"@) {
                    Some(Json::Array(a)) => a,
                    _ => seq![],
                },
                opts: Options {
                    add_generation_prompt: flag_of(v, "add_generation_prompt"@),
                    enable_thinking: flag_of(v, "enable_thinking"@),
                    add_vision_id: flag_of(v, "add_vision_id"@),
                },
            },
        ),
    }
}

// ---------------------------------------------------------------------------
// reading it
// ---------------------------------------------------------------------------
/// Whether what was read is what the JSON says.
pub open spec fn reads<T: View>(r: Result<T, String>, s: Result<T::V, Seq<char>>) -> bool {
    match (r, s) {
        (Ok(v), Ok(w)) => v@ == w,
        (Err(m), Err(n)) => m@ == n,
        _ => false,
    }
}

impl Role {
    /// The role of that name.
    pub fn from_name(s: &str) -> (r: Role)
        ensures
            r@ == role_named(s@),
    {
        if same_text(s, "system") {
            Role::System
        } else if same_text(s, "user") {
            Role::User
        } else if same_text(s, "assistant") {
            Role::Assistant
        } else if same_text(s, "tool") {
            Role::Tool
        } else {
            Role::Other(to_owned_text(s))
        }
    }
}

fn type_is(item: &Value, want: &str) -> (r: bool)
    ensures
        r == typed(item@, want@),
{
    match item.get("type") {
        Some(t) => match t.as_str() {
            Some(s) => same_text(s, want),
            None => false,
        },
        None => false,
    }
}

fn part_from_json(item: &Value) -> (r: Part)
    ensures
        r@ == part_of(item@),
{
    if item.contains_key("image") || item.contains_key("image_url") || type_is(item, "image") {
        Part::Image
    } else if item.contains_key("video") || type_is(item, "video") {
        Part::Video
    } else {
        match item.get("text") {
            // Jinja renders `{{ item.text }}` with Python's `str`, so a non-string here is
            // not an error: `{"text": 5}` renders `5` and `{"text": ["a"]}` renders
            // `['a']`.
            Some(t) => Part::Text(py_str(t)),
            None => Part::Other,
        }
    }
}

fn content_from_json(c: &Value) -> (r: Content)
    ensures
        r@ == content_of(c@),
{
    match c {
        Value::Str(s) => Content::Text(s.clone()),
        Value::Null => Content::Absent,
        Value::Array(items) => {
            let mut parts: Vec<Part> = Vec::new();
            let mut k: usize = 0;
            while k < items.len()
                invariant
                    k <= items@.len(),
                    parts@.len() == k,
                    forall|i: int| 0 <= i < k ==> (#[trigger] parts@[i])@ == part_of(items@[i]@),
                decreases items.len() - k,
            {
                parts.push(part_from_json(&items[k]));
                k += 1;
            }
            proof {
                value::lemma_array_view(*items);
                let a = value::json_items(items@);
                assert(message::part_models(parts@) =~= Seq::new(
                    a.len(),
                    |i: int| part_of(a[i]),
                ));
            }
            Content::Parts(parts)
        },
        // A mapping, a number, a bool: `Unexpected content type.`
        _ => Content::Unsupported,
    }
}

/// Copies the members of an object.
fn copy_members(kv: &Vec<(String, Value)>) -> (r: Vec<(String, Value)>)
    ensures
        value::json_members(r@) == value::json_members(kv@),
{
    let mut out: Vec<(String, Value)> = Vec::new();
    let mut k: usize = 0;
    while k < kv.len()
        invariant
            k <= kv@.len(),
            out@.len() == k,
            forall|i: int|
                0 <= i < k ==> (#[trigger] out@[i]).0@ == kv@[i].0@ && out@[i].1@ == kv@[i].1@,
        decreases kv.len() - k,
    {
        out.push((kv[k].0.clone(), kv[k].1.clone()));
        k += 1;
    }
    assert(value::json_members(out@) =~= value::json_members(kv@));
    out
}

fn call_from_json(c: &Value) -> (r: Result<FunctionCall, String>)
    ensures
        reads(r, call_of(c@)),
{
    let f: &Value = match c.get("function") {
        Some(f) => f,
        None => c,
    };
    let name: &str = match f.get("name") {
        Some(n) => match n.as_str() {
            Some(s) => s,
            None => return Err(to_owned_text("a tool call has no string `name`")),
        },
        None => return Err(to_owned_text("a tool call has no string `name`")),
    };
    let arguments: Vec<(String, Value)> = match f.get("arguments") {
        Some(Value::Object(kv)) => {
            proof {
                value::lemma_object_view(*kv);
            }
            copy_members(kv)
        },
        _ => Vec::new(),
    };
    proof {
        if arguments@.len() == 0 {
            assert(value::json_members(arguments@) =~= seq![]);
        }
    }
    Ok(FunctionCall { name: to_owned_text(name), arguments })
}

/// An error stays the first one.
proof fn lemma_calls_err(a: Seq<Json>, k: int)
    requires
        0 <= k <= a.len(),
        calls_of(a.take(k)) is Err,
    ensures
        calls_of(a) == calls_of(a.take(k)),
    decreases a.len() - k,
{
    if k < a.len() {
        assert(a.take(k + 1).drop_last() =~= a.take(k));
        lemma_calls_err(a, k + 1);
    } else {
        assert(a.take(k) =~= a);
    }
}

/// An error stays the first one.
proof fn lemma_messages_err(a: Seq<Json>, k: int)
    requires
        0 <= k <= a.len(),
        messages_of(a.take(k)) is Err,
    ensures
        messages_of(a) == messages_of(a.take(k)),
    decreases a.len() - k,
{
    if k < a.len() {
        assert(a.take(k + 1).drop_last() =~= a.take(k));
        lemma_messages_err(a, k + 1);
    } else {
        assert(a.take(k) =~= a);
    }
}

fn calls_from_json(calls: &Vec<Value>) -> (r: Result<Vec<FunctionCall>, String>)
    ensures
        match (r, calls_of(value::json_items(calls@))) {
            (Ok(v), Ok(w)) => message::call_models(v@) == w,
            (Err(m), Err(n)) => m@ == n,
            _ => false,
        },
{
    let ghost a = value::json_items(calls@);
    let mut out: Vec<FunctionCall> = Vec::new();
    assert(message::call_models(out@) =~= seq![]);
    let mut k: usize = 0;
    while k < calls.len()
        invariant
            a == value::json_items(calls@),
            k <= calls@.len(),
            calls_of(a.take(k as int)) == Ok::<Seq<CallModel>, Seq<char>>(
                message::call_models(out@),
            ),
        decreases calls.len() - k,
    {
        assert(a.take(k + 1).drop_last() =~= a.take(k as int));
        assert(a.take(k + 1).last() == calls@[k as int]@);
        match call_from_json(&calls[k]) {
            Err(e) => {
                proof {
                    lemma_calls_err(a, k + 1);
                }
                return Err(e);
            },
            Ok(c) => {
                let ghost before = message::call_models(out@);
                out.push(c);
                assert(message::call_models(out@) =~= before.push(c@));
            },
        }
        k += 1;
    }
    assert(a.take(k as int) =~= a);
    Ok(out)
}

impl Message {
    /// Read one message the way the template sees it: `role`, `content`,
    /// `reasoning_content`, `tool_calls`.
    pub fn from_json(v: &Value) -> (r: Result<Message, String>)
        ensures
            reads(r, message_of(v@)),
    {
        let role: &str = match v.get("role") {
            Some(r) => match r.as_str() {
                Some(s) => s,
                None => return Err(to_owned_text("message has no string `role`")),
            },
            None => return Err(to_owned_text("message has no string `role`")),
        };
        let content: Content = match v.get("content") {
            None => Content::Absent,
            Some(c) => content_from_json(c),
        };
        let reasoning: Option<String> = match v.get("reasoning_content") {
            Some(Value::Str(s)) => Some(s.clone()),
            _ => None,
        };
        let tool_calls: Vec<FunctionCall> = match v.get("tool_calls") {
            Some(Value::Array(calls)) => {
                proof {
                    value::lemma_array_view(*calls);
                }
                match calls_from_json(calls) {
                    Err(e) => return Err(e),
                    Ok(c) => c,
                }
            },
            _ => Vec::new(),
        };
        proof {
            if tool_calls@.len() == 0 {
                assert(message::call_models(tool_calls@) =~= seq![]);
            }
        }
        Ok(Message { role: Role::from_name(role), content, reasoning, tool_calls })
    }
}

fn messages_from_json(a: &Vec<Value>) -> (r: Result<Vec<Message>, String>)
    ensures
        match (r, messages_of(value::json_items(a@))) {
            (Ok(v), Ok(w)) => message::message_models(v@) == w,
            (Err(m), Err(n)) => m@ == n,
            _ => false,
        },
{
    let ghost items = value::json_items(a@);
    let mut out: Vec<Message> = Vec::new();
    assert(message::message_models(out@) =~= seq![]);
    let mut k: usize = 0;
    while k < a.len()
        invariant
            items == value::json_items(a@),
            k <= a@.len(),
            messages_of(items.take(k as int)) == Ok::<Seq<MessageModel>, Seq<char>>(
                message::message_models(out@),
            ),
        decreases a.len() - k,
    {
        assert(items.take(k + 1).drop_last() =~= items.take(k as int));
        assert(items.take(k + 1).last() == a@[k as int]@);
        match Message::from_json(&a[k]) {
            Err(e) => {
                proof {
                    lemma_messages_err(items, k + 1);
                }
                return Err(e);
            },
            Ok(m) => {
                let ghost before = message::message_models(out@);
                out.push(m);
                assert(message::message_models(out@) =~= before.push(m@));
            },
        }
        k += 1;
    }
    assert(items.take(k as int) =~= items);
    Ok(out)
}

fn flag(v: &Value, key: &str) -> (r: bool)
    ensures
        r == flag_of(v@, key@),
{
    match v.get(key) {
        Some(b) => match b.as_bool() {
            Some(on) => on,
            None => false,
        },
        None => false,
    }
}

impl Request {
    /// Build a request from `{"messages": [...], "tools": [...], ...}`.
    pub fn from_json(v: &Value) -> (r: Result<Request, String>)
        ensures
            reads(r, request_of(v@)),
    {
        let messages: Vec<Message> = match v.get("messages") {
            Some(Value::Array(a)) => {
                proof {
                    value::lemma_array_view(*a);
                }
                match messages_from_json(a) {
                    Err(e) => return Err(e),
                    Ok(m) => m,
                }
            },
            Some(_) => return Err(to_owned_text("`messages` is not an array")),
            None => Vec::new(),
        };
        proof {
            if messages@.len() == 0 {
                assert(message::message_models(messages@) =~= seq![]);
            }
        }
        let tools: Vec<Value> = match v.get("tools") {
            Some(Value::Array(a)) => {
                proof {
                    value::lemma_array_view(*a);
                }
                copy_items(a)
            },
            _ => Vec::new(),
        };
        proof {
            if tools@.len() == 0 {
                assert(value::json_items(tools@) =~= seq![]);
            }
        }
        Ok(
            Request {
                messages,
                tools,
                opts: Options {
                    add_generation_prompt: flag(v, "add_generation_prompt"),
                    enable_thinking: flag(v, "enable_thinking"),
                    add_vision_id: flag(v, "add_vision_id"),
                },
            },
        )
    }
}

/// Copies the elements of an array.
fn copy_items(a: &Vec<Value>) -> (r: Vec<Value>)
    ensures
        value::json_items(r@) == value::json_items(a@),
{
    let mut out: Vec<Value> = Vec::new();
    let mut k: usize = 0;
    while k < a.len()
        invariant
            k <= a@.len(),
            out@.len() == k,
            forall|i: int| 0 <= i < k ==> (#[trigger] out@[i])@ == a@[i]@,
        decreases a.len() - k,
    {
        out.push(a[k].clone());
        k += 1;
    }
    assert(value::json_items(out@) =~= value::json_items(a@));
    out
}

} // verus!
