//! Parsing a model's continuation.
use crate::chat;
use crate::chat::message;
use crate::chat::message::CallModel;
use crate::chat::{THINK_CLOSE, THINK_OPEN};
use crate::pyjson::value;
use crate::pyjson::value::{Json, Value};
use crate::text;
use crate::text::{
    cut_text, debug_text, find_text, last_piece, push_text, split_once, str_chars, strip_prefix,
    strip_suffix, to_owned_text, to_text, trimmed, trimmed_end, trimmed_start, Class,
};
use vstd::prelude::*;
use vstd::slice::slice_subrange;

verus! {

/// A call recovered from generated text, with arguments in the order written.
#[derive(Debug, Clone, PartialEq, Eq)]
pub struct FunctionCall {
    pub name: String,
    pub arguments: Vec<(String, String)>,
}

/// What the model wrote, split the way the template would split it.
#[derive(Debug, Clone, PartialEq, Eq, Default)]
pub struct Reply {
    /// Between `<think>` and `</think>`, when the text contains the latter.
    pub reasoning: Option<String>,
    /// Everything that is not reasoning and not a tool call.
    pub content: String,
    pub tool_calls: Vec<FunctionCall>,
}

/// A call as mathematics sees it.
#[verifier::ext_equal]
pub struct WrittenCall {
    pub name: Seq<char>,
    pub arguments: Seq<(Seq<char>, Seq<char>)>,
}

/// A reply as mathematics sees it.
#[verifier::ext_equal]
pub struct ReplyModel {
    pub reasoning: Option<Seq<char>>,
    pub content: Seq<char>,
    pub tool_calls: Seq<WrittenCall>,
}

/// What a list of arguments stands for.
pub open spec fn argument_texts(a: Seq<(String, String)>) -> Seq<(Seq<char>, Seq<char>)> {
    Seq::new(a.len(), |i: int| (a[i].0@, a[i].1@))
}

impl View for FunctionCall {
    type V = WrittenCall;

    open spec fn view(&self) -> WrittenCall {
        WrittenCall { name: self.name@, arguments: argument_texts(self.arguments@) }
    }
}

/// What a list of calls stands for.
pub open spec fn written_calls(calls: Seq<FunctionCall>) -> Seq<WrittenCall> {
    Seq::new(calls.len(), |i: int| calls[i]@)
}

impl View for Reply {
    type V = ReplyModel;

    open spec fn view(&self) -> ReplyModel {
        ReplyModel {
            reasoning: message::text_model(self.reasoning),
            content: self.content@,
            tool_calls: written_calls(self.tool_calls@),
        }
    }
}

// ---------------------------------------------------------------------------
// what is read
// ---------------------------------------------------------------------------
/// The parameters of a call. A value runs to the next `\n</parameter>` line, so it may
/// hold newlines; the last one may lack its line break.
pub open spec fn parameters_of(rest: Seq<char>) -> Result<Seq<(Seq<char>, Seq<char>)>, Seq<char>>
    decreases rest.len(),
{
    if rest.len() == 0 {
        Ok(seq![])
    } else if !text::has_prefix(rest, "<parameter="@) {
        Err("expected `<parameter=`, found "@ + text::debug_form(text::cut(rest, 24)))
    } else {
        let r = rest.skip("<parameter="@.len() as int);
        if !text::has_text(r, ">\n"@) {
            Err("a `<parameter=` has no closing `>`: "@ + text::debug_form(text::cut(r, 24)))
        } else {
            let key = text::before_first(r, ">\n"@);
            let body = text::after_first(r, ">\n"@);
            let end = if text::has_text(body, "\n</parameter>\n"@) {
                "\n</parameter>\n"@
            } else {
                "\n</parameter>"@
            };
            if !text::has_text(body, end) {
                Err("`<parameter="@ + key + ">` is never closed"@)
            } else {
                let next = text::trim_start(text::after_first(body, end), Class::Newline);
                proof {
                    reveal_strlit("<parameter=");
                    text::lemma_find_from(r, ">\n"@, 0);
                    text::lemma_find_from(body, end, 0);
                    text::lemma_trim_start_shorter(text::after_first(body, end), Class::Newline);
                }
                match parameters_of(next) {
                    Err(e) => Err(e),
                    Ok(tail) => Ok(seq![(key, text::before_first(body, end))] + tail),
                }
            }
        }
    }
}

/// One call: the inside of a `<tool_call>` block.
pub open spec fn call_in(block: Seq<char>) -> Result<WrittenCall, Seq<char>> {
    let body = text::trim(block, Class::Newline);
    if !text::has_prefix(body, "<function="@) {
        Err("a tool call does not start with `<function=`: "@ + text::debug_form(body))
    } else {
        let rest = body.skip("<function="@.len() as int);
        if !text::has_text(rest, ">\n"@) {
            Err("a `<function=` has no closing `>`"@)
        } else {
            let name = text::before_first(rest, ">\n"@);
            let tail = text::trim_end(text::after_first(rest, ">\n"@), Class::Newline);
            if name.len() == 0 {
                Err("a `<function=>` has an empty name"@)
            } else if !text::has_suffix(tail, "</function>"@) {
                Err("`<function="@ + name + ">` is never closed"@)
            } else {
                match parameters_of(
                    text::trim(tail.take(tail.len() - "</function>"@.len()), Class::Newline),
                ) {
                    Err(e) => Err(e),
                    Ok(arguments) => Ok(WrittenCall { name, arguments }),
                }
            }
        }
    }
}

/// The calls in a text, one per `<tool_call>` block; the first malformed block is the
/// error.
pub open spec fn calls_in(rest: Seq<char>) -> Result<Seq<WrittenCall>, Seq<char>>
    decreases rest.len(),
{
    if !text::has_text(rest, "<tool_call>"@) {
        Ok(seq![])
    } else {
        let after = text::after_first(rest, "<tool_call>"@);
        if !text::has_text(after, "</tool_call>"@) {
            Err("a `<tool_call>` is never closed"@)
        } else {
            let next = text::after_first(after, "</tool_call>"@);
            proof {
                reveal_strlit("<tool_call>");
                text::lemma_find_from(rest, "<tool_call>"@, 0);
                text::lemma_find_from(after, "</tool_call>"@, 0);
            }
            match call_in(text::before_first(after, "</tool_call>"@)) {
                Err(e) => Err(e),
                Ok(call) => match calls_in(next) {
                    Err(e) => Err(e),
                    Ok(tail) => Ok(seq![call] + tail),
                },
            }
        }
    }
}

/// What stands behind the reasoning of a continuation: all of it where there is none.
pub open spec fn answer_in(t: Seq<char>) -> Seq<char> {
    if text::has_text(t, THINK_CLOSE@) {
        text::trim_start(text::after_first(t, THINK_CLOSE@), Class::Newline)
    } else {
        t
    }
}

/// A continuation split into reasoning, content and calls. Where a block is malformed
/// there are no calls, and the content is the whole answer.
pub open spec fn reply_in(t: Seq<char>) -> ReplyModel {
    let body = answer_in(t);
    ReplyModel {
        reasoning: if text::has_text(t, THINK_CLOSE@) {
            Some(
                chat::template::stripped(
                    text::after_last(text::before_first(t, THINK_CLOSE@), THINK_OPEN@),
                ),
            )
        } else {
            None
        },
        content: match calls_in(body) {
            Ok(_) => chat::template::stripped(text::before_first(body, "<tool_call>"@)),
            Err(_) => chat::template::stripped(body),
        },
        tool_calls: match calls_in(body) {
            Ok(calls) => calls,
            Err(_) => seq![],
        },
    }
}

// ---------------------------------------------------------------------------
// reading it
// ---------------------------------------------------------------------------
/// `message` followed by `detail`.
fn say_with(message: &str, detail: &str) -> (r: String)
    ensures
        r@ == message@ + detail@,
{
    let mut out = String::new();
    push_text(&mut out, message);
    push_text(&mut out, detail);
    assert(out@ =~= message@ + detail@);
    out
}

/// `opening`, the characters of `name`, and `closing`.
fn say_named(opening: &str, name: &[char], closing: &str) -> (r: String)
    ensures
        r@ == opening@ + name@ + closing@,
{
    let mut out = String::new();
    push_text(&mut out, opening);
    push_text(&mut out, to_text(name).as_str());
    push_text(&mut out, closing);
    assert(out@ =~= opening@ + name@ + closing@);
    out
}

/// What parsing the rest gives, put behind what was parsed before it.
spec fn put_behind<T>(before: Seq<T>, r: Result<Seq<T>, Seq<char>>) -> Result<Seq<T>, Seq<char>> {
    match r {
        Err(e) => Err(e),
        Ok(tail) => Ok(before + tail),
    }
}

proof fn lemma_put_behind<T>(before: Seq<T>, x: T, r: Result<Seq<T>, Seq<char>>)
    ensures
        put_behind(before, put_behind(seq![x], r)) == put_behind(before.push(x), r),
        put_behind(seq![], r) == r,
{
    if let Ok(tail) = r {
        assert(before + (seq![x] + tail) =~= before.push(x) + tail);
        assert(Seq::<T>::empty() + tail =~= tail);
    }
}

/// The parameters of a call.
fn parse_parameters(params: &[char]) -> (r: Result<Vec<(String, String)>, String>)
    ensures
        match (r, parameters_of(params@)) {
            (Ok(v), Ok(w)) => argument_texts(v@) == w,
            (Err(m), Err(n)) => m@ == n,
            _ => false,
        },
{
    let mut arguments: Vec<(String, String)> = Vec::new();
    let mut rest: &[char] = params;
    proof {
        assert(argument_texts(arguments@) =~= seq![]);
        lemma_put_behind(seq![], (seq![], seq![]), parameters_of(params@));
    }
    while rest.len() > 0
        invariant
            parameters_of(params@) == put_behind(
                argument_texts(arguments@),
                parameters_of(rest@),
            ),
        decreases rest@.len(),
    {
        let r: &[char] = match strip_prefix(rest, "<parameter=") {
            Some(r) => r,
            None => {
                let found = debug_text(cut_text(rest, 24).as_str());
                return Err(say_with("expected `<parameter=`, found ", found.as_str()));
            },
        };
        let (key, body): (&[char], &[char]) = match split_once(r, ">\n") {
            Some(split) => split,
            None => {
                let found = debug_text(cut_text(r, 24).as_str());
                return Err(say_with("a `<parameter=` has no closing `>`: ", found.as_str()));
            },
        };
        let (val, tail): (&[char], &[char]) = match split_once(body, "\n</parameter>\n") {
            Some(split) => split,
            None => match split_once(body, "\n</parameter>") {
                Some(split) => split,
                None => return Err(say_named("`<parameter=", key, ">` is never closed")),
            },
        };
        let ghost before = argument_texts(arguments@);
        let ghost item = (key@, val@);
        let next = trimmed_start(tail, Class::Newline);
        arguments.push((to_text(key), to_text(val)));
        proof {
            reveal_strlit("<parameter=");
            text::lemma_find_from(r@, ">\n"@, 0);
            let end = if text::has_text(body@, "\n</parameter>\n"@) {
                "\n</parameter>\n"@
            } else {
                "\n</parameter>"@
            };
            text::lemma_find_from(body@, end, 0);
            text::lemma_trim_start_shorter(tail@, Class::Newline);
            assert(argument_texts(arguments@) =~= before.push(item));
            lemma_put_behind(before, item, parameters_of(next@));
            assert(parameters_of(rest@) == put_behind(seq![item], parameters_of(next@)));
        }
        rest = next;
    }
    assert(argument_texts(arguments@) + seq![] =~= argument_texts(arguments@));
    Ok(arguments)
}

/// Parse the inside of one `<tool_call>`: one `<function=NAME>` and its
/// `<parameter=KEY>` blocks.
fn parse_one(block: &[char]) -> (r: Result<FunctionCall, String>)
    ensures
        match (r, call_in(block@)) {
            (Ok(v), Ok(w)) => v@ == w,
            (Err(m), Err(n)) => m@ == n,
            _ => false,
        },
{
    let body = trimmed(block, Class::Newline);
    let rest: &[char] = match strip_prefix(body, "<function=") {
        Some(r) => r,
        None => {
            let found = debug_text(to_text(body).as_str());
            return Err(
                say_with("a tool call does not start with `<function=`: ", found.as_str()),
            );
        },
    };
    let (name, rest): (&[char], &[char]) = match split_once(rest, ">\n") {
        Some(split) => split,
        None => return Err(to_owned_text("a `<function=` has no closing `>`")),
    };
    if name.len() == 0 {
        return Err(to_owned_text("a `<function=>` has an empty name"));
    }
    // The block ends with `</function>`; everything before it is parameters.
    let rest = trimmed_end(rest, Class::Newline);
    let params: &[char] = match strip_suffix(rest, "</function>") {
        Some(p) => p,
        None => return Err(say_named("`<function=", name, ">` is never closed")),
    };
    match parse_parameters(trimmed(params, Class::Newline)) {
        Err(e) => Err(e),
        Ok(arguments) => Ok(FunctionCall { name: to_text(name), arguments }),
    }
}

/// The calls in a run of characters.
fn parse_calls(whole: &[char]) -> (r: Result<Vec<FunctionCall>, String>)
    ensures
        match (r, calls_in(whole@)) {
            (Ok(v), Ok(w)) => written_calls(v@) == w,
            (Err(m), Err(n)) => m@ == n,
            _ => false,
        },
{
    let mut out: Vec<FunctionCall> = Vec::new();
    let mut rest: &[char] = whole;
    proof {
        assert(written_calls(out@) =~= seq![]);
        let nothing = WrittenCall { name: seq![], arguments: seq![] };
        lemma_put_behind(seq![], nothing, calls_in(whole@));
    }
    loop
        invariant
            calls_in(whole@) == put_behind(written_calls(out@), calls_in(rest@)),
        decreases rest@.len(),
    {
        let after: &[char] = match split_once(rest, "<tool_call>") {
            Some((_, after)) => after,
            None => {
                assert(written_calls(out@) + seq![] =~= written_calls(out@));
                return Ok(out);
            },
        };
        let (block, next): (&[char], &[char]) = match split_once(after, "</tool_call>") {
            Some(split) => split,
            None => return Err(to_owned_text("a `<tool_call>` is never closed")),
        };
        match parse_one(block) {
            Err(e) => {
                return Err(e);
            },
            Ok(call) => {
                let ghost before = written_calls(out@);
                let ghost item = call@;
                out.push(call);
                proof {
                    reveal_strlit("<tool_call>");
                    text::lemma_find_from(rest@, "<tool_call>"@, 0);
                    text::lemma_find_from(after@, "</tool_call>"@, 0);
                    assert(written_calls(out@) =~= before.push(item));
                    lemma_put_behind(before, item, calls_in(next@));
                    assert(calls_in(rest@) == put_behind(seq![item], calls_in(next@)));
                }
            },
        }
        rest = next;
    }
}

/// Extract every `<tool_call>` block from generated text.
///
/// Errors on a block that is present but malformed, rather than returning fewer
/// calls than the model wrote -- a silently dropped tool call is worse than a
/// reported one.
pub fn parse_tool_calls(text: &str) -> (r: Result<Vec<FunctionCall>, String>)
    ensures
        match (r, calls_in(text@)) {
            (Ok(v), Ok(w)) => written_calls(v@) == w,
            (Err(m), Err(n)) => m@ == n,
            _ => false,
        },
{
    let c = str_chars(text);
    parse_calls(c.as_slice())
}

/// Parse a model continuation -- the text after `<|im_start|>assistant\n`, and
/// before the `<|im_end|>` that ended the turn.
///
/// Both fields come back trimmed, because that is what the template does to them
/// on the way in: `reasoning_content|trim` and `content = ...|trim`. Doing the
/// same on the way out is what makes render-parse-render the identity, and it
/// also means a caller can hand the reply straight back to
/// [`crate::chat::render`].
///
/// The reasoning is whatever follows the *last* `<think>`, matching the
/// template's `content.split('<think>')[-1]` -- not the first, which would differ
/// for reasoning that itself mentions the tag.
pub fn parse_assistant(text: &str) -> (r: Reply)
    ensures
        r@ == reply_in(text@),
{
    let c = str_chars(text);
    let whole: &[char] = c.as_slice();
    let (reasoning, body): (Option<String>, &[char]) = match split_once(whole, THINK_CLOSE) {
        Some((head, tail)) => {
            let thought = last_piece(head, THINK_OPEN);
            (
                Some(to_text(trimmed(thought, Class::PythonSpace))),
                trimmed_start(tail, Class::Newline),
            )
        },
        // Thinking was skipped, so the whole continuation is the answer.
        None => (None, whole),
    };
    match parse_calls(body) {
        Ok(tool_calls) => {
            // The template writes `content + "\n\n" + <calls>` when there is
            // content, and just `<calls>` when there is not.
            let cut: usize = match find_text(body, "<tool_call>") {
                Some(i) => i,
                None => body.len(),
            };
            let said = slice_subrange(body, 0, cut);
            assert(said@ =~= text::before_first(body@, "<tool_call>"@));
            let content = to_text(trimmed(said, Class::PythonSpace));
            Reply { reasoning, content, tool_calls }
        },
        // Not a tool call at all: a `<` inside ordinary text.
        Err(_) => {
            let tool_calls: Vec<FunctionCall> = Vec::new();
            assert(written_calls(tool_calls@) =~= seq![]);
            let content = to_text(trimmed(body, Class::PythonSpace));
            Reply { reasoning, content, tool_calls }
        },
    }
}

// ---------------------------------------------------------------------------
// rendering it again
// ---------------------------------------------------------------------------
/// A call as the template takes it: every argument is a text.
pub open spec fn chat_call(c: WrittenCall) -> CallModel {
    CallModel {
        name: c.name,
        arguments: Seq::new(
            c.arguments.len(),
            |i: int| (c.arguments[i].0, Json::Str(c.arguments[i].1)),
        ),
    }
}

/// Calls as the template takes them.
pub open spec fn chat_calls(calls: Seq<WrittenCall>) -> Seq<CallModel> {
    Seq::new(calls.len(), |i: int| chat_call(calls[i]))
}

impl Reply {
    /// A reply that only says something.
    pub fn text(content: &str) -> (r: Reply)
        ensures
            r@ == (ReplyModel { reasoning: None, content: content@, tool_calls: seq![] }),
    {
        let tool_calls: Vec<FunctionCall> = Vec::new();
        assert(written_calls(tool_calls@) =~= seq![]);
        Reply { reasoning: None, content: to_owned_text(content), tool_calls }
    }

    /// The calls, as `chat::FunctionCall` -- what a re-render needs.
    pub fn as_chat_calls(&self) -> (r: Vec<chat::FunctionCall>)
        ensures
            message::call_models(r@) == chat_calls(self@.tool_calls),
    {
        let mut out: Vec<chat::FunctionCall> = Vec::new();
        let mut k: usize = 0;
        while k < self.tool_calls.len()
            invariant
                k <= self.tool_calls@.len(),
                out@.len() == k,
                forall|i: int|
                    0 <= i < k ==> (#[trigger] out@[i])@ == chat_call(self.tool_calls@[i]@),
            decreases self.tool_calls.len() - k,
        {
            out.push(as_chat_call(&self.tool_calls[k]));
            k += 1;
        }
        assert(message::call_models(out@) =~= chat_calls(self@.tool_calls));
        out
    }
}

fn as_chat_call(call: &FunctionCall) -> (r: chat::FunctionCall)
    ensures
        r@ == chat_call(call@),
{
    let mut arguments: Vec<(String, Value)> = Vec::new();
    let mut k: usize = 0;
    while k < call.arguments.len()
        invariant
            k <= call.arguments@.len(),
            arguments@.len() == k,
            forall|i: int|
                0 <= i < k ==> (#[trigger] arguments@[i]).0@ == call.arguments@[i].0@
                    && arguments@[i].1@ == Json::Str(call.arguments@[i].1@),
        decreases call.arguments.len() - k,
    {
        arguments.push((call.arguments[k].0.clone(), Value::Str(call.arguments[k].1.clone())));
        k += 1;
    }
    assert(value::json_members(arguments@) =~= chat_call(call@).arguments);
    chat::FunctionCall { name: call.name.clone(), arguments }
}

} // verus!
