//! Rendering: what the template writes for a request.
use super::message;
use super::message::{
    CallModel, Content, ContentModel, FunctionCall, Message, MessageModel, Options, Part, PartModel,
    Rendered, Request, RequestModel, Role, RoleModel,
};
use crate::pyjson::value;
use crate::pyjson::value::{Json, Value};
use crate::pyjson::writer;
use crate::pyjson::{dumps, py_str};
use crate::text;
use crate::text::{
    last_piece, push_decimal, push_text, split_once, str_chars, strip_prefix, strip_suffix,
    to_owned_text, to_text, trimmed, trimmed_end, trimmed_start, Class,
};
use vstd::prelude::*;

verus! {

/// `<|im_start|>`, id 248045.
pub const IM_START: &'static str = "<|im_start|>";

/// `<|im_end|>`, id 248046. Also the checkpoint's `eos_token`.
pub const IM_END: &'static str = "<|im_end|>";

/// `<think>`, id 248068.
pub const THINK_OPEN: &'static str = "<think>";

/// `</think>`, id 248069.
pub const THINK_CLOSE: &'static str = "</think>";

/// What stands before the tool definitions.
pub const TOOLS_PREFIX: &'static str = "# Tools\n\nYou have access to the following functions:\n\n<tools>";

/// What stands behind the tool definitions.
pub const TOOLS_INSTRUCTIONS: &'static str = "\n\nIf you choose to call a function ONLY reply in the following format with NO suffix:\n\n<tool_call>\n<function=example_function_name>\n<parameter=example_parameter_1>\nvalue_1\n</parameter>\n<parameter=example_parameter_2>\nThis is the value for the second parameter\nthat can span\nmultiple lines\n</parameter>\n</function>\n</tool_call>\n\n<IMPORTANT>\nReminder:\n- Function calls MUST follow the specified format: an inner <function=...></function> block must be nested within <tool_call></tool_call> XML tags\n- Required parameters MUST be specified\n- You may provide optional reasoning for your function call in natural language BEFORE the function call, but NOT after\n- If there is no function call available, answer the question like normal with your current knowledge and do not tell the user about function calls\n</IMPORTANT>";

/// The exact texts of the template's `raise_exception` calls.
pub const ERR_NO_MESSAGES: &'static str = "No messages provided.";

pub const ERR_SYSTEM_NOT_FIRST: &'static str = "System message must be at the beginning.";

pub const ERR_NO_USER_QUERY: &'static str = "No user query found in messages.";

pub const ERR_UNEXPECTED_ROLE: &'static str = "Unexpected message role.";

pub const ERR_SYSTEM_IMAGE: &'static str = "System message cannot contain images.";

pub const ERR_SYSTEM_VIDEO: &'static str = "System message cannot contain videos.";

pub const ERR_ITEM_TYPE: &'static str = "Unexpected item type in content.";

pub const ERR_CONTENT_TYPE: &'static str = "Unexpected content type.";

// ---------------------------------------------------------------------------
// message bodies
// ---------------------------------------------------------------------------
/// Text that was written, and how many images and videos were counted by then.
#[verifier::ext_equal]
pub struct Drawn {
    pub text: Seq<char>,
    pub images: nat,
    pub videos: nat,
}

/// The label of image or video `n`, where labels are asked for.
pub open spec fn vision_label(name: Seq<char>, n: nat, ids: bool) -> Seq<char> {
    if ids {
        name + text::decimal(n) + ": "@
    } else {
        seq![]
    }
}

/// `d` with one more part written. A system message may hold neither images nor videos.
pub open spec fn part_drawn(
    p: PartModel,
    count: bool,
    system: bool,
    ids: bool,
    d: Drawn,
) -> Result<Drawn, Seq<char>> {
    match p {
        PartModel::Text(t) => Ok(
            Drawn { text: d.text + t, images: d.images, videos: d.videos },
        ),
        PartModel::Image => if system {
            Err(ERR_SYSTEM_IMAGE@)
        } else {
            let n = if count {
                d.images + 1
            } else {
                d.images
            };
            Ok(
                Drawn {
                    text: d.text + vision_label("Picture "@, n, ids)
                        + "<|vision_start|><|image_pad|><|vision_end|>"@,
                    images: n,
                    videos: d.videos,
                },
            )
        },
        PartModel::Video => if system {
            Err(ERR_SYSTEM_VIDEO@)
        } else {
            let n = if count {
                d.videos + 1
            } else {
                d.videos
            };
            Ok(
                Drawn {
                    text: d.text + vision_label("Video "@, n, ids)
                        + "<|vision_start|><|video_pad|><|vision_end|>"@,
                    images: d.images,
                    videos: n,
                },
            )
        },
        PartModel::Other => Err(ERR_ITEM_TYPE@),
    }
}

/// `d` with the parts written one after the other.
pub open spec fn parts_drawn(
    parts: Seq<PartModel>,
    count: bool,
    system: bool,
    ids: bool,
    d: Drawn,
) -> Result<Drawn, Seq<char>>
    decreases parts.len(),
{
    if parts.len() == 0 {
        Ok(d)
    } else {
        match parts_drawn(parts.drop_last(), count, system, ids, d) {
            Err(e) => Err(e),
            Ok(before) => part_drawn(parts.last(), count, system, ids, before),
        }
    }
}

/// What a message body is written as, after so many images and videos.
pub open spec fn content_drawn(
    c: ContentModel,
    count: bool,
    system: bool,
    ids: bool,
    images: nat,
    videos: nat,
) -> Result<Drawn, Seq<char>> {
    match c {
        ContentModel::Text(s) => Ok(Drawn { text: s, images, videos }),
        ContentModel::Absent => Ok(Drawn { text: seq![], images, videos }),
        ContentModel::Unsupported => Err(ERR_CONTENT_TYPE@),
        ContentModel::Parts(parts) => parts_drawn(
            parts,
            count,
            system,
            ids,
            (Drawn { text: seq![], images, videos }),
        ),
    }
}

/// A body with Python's white space removed from its ends.
pub open spec fn stripped(s: Seq<char>) -> Seq<char> {
    text::trim(s, Class::PythonSpace)
}

// ---------------------------------------------------------------------------
// the system block
// ---------------------------------------------------------------------------
/// One JSON document per line.
pub open spec fn tool_lines(tools: Seq<Json>) -> Seq<char>
    decreases tools.len(),
{
    if tools.len() == 0 {
        seq![]
    } else {
        tool_lines(tools.drop_last()) + seq!['\n'] + writer::dumps_text(tools.last())
    }
}

/// The text of a leading system message, and nothing where there is none.
pub open spec fn system_text(req: RequestModel) -> Result<Seq<char>, Seq<char>> {
    if req.messages[0].role is System {
        match content_drawn(req.messages[0].content, false, true, req.opts.add_vision_id, 0, 0) {
            Err(e) => Err(e),
            Ok(d) => Ok(stripped(d.text)),
        }
    } else {
        Ok(seq![])
    }
}

/// What stands before the turns. With tools, the whole tool description *becomes* the
/// system message, and a real system message is appended to it after a blank line.
pub open spec fn system_block(req: RequestModel) -> Result<Seq<char>, Seq<char>> {
    match system_text(req) {
        Err(e) => Err(e),
        Ok(s) => if req.tools.len() > 0 {
            let tail = if s.len() > 0 {
                "\n\n"@ + s
            } else {
                seq![]
            };
            Ok(
                IM_START@ + "system\n"@ + TOOLS_PREFIX@ + tool_lines(req.tools) + "\n</tools>"@
                    + TOOLS_INSTRUCTIONS@ + tail + IM_END@ + seq!['\n'],
            )
        } else if req.messages[0].role is System {
            Ok(IM_START@ + "system\n"@ + s + IM_END@ + seq!['\n'])
        } else {
            Ok(seq![])
        },
    }
}

// ---------------------------------------------------------------------------
// the last user query
// ---------------------------------------------------------------------------
/// Whether a user message is a tool's response in disguise.
pub open spec fn wrapped_response(s: Seq<char>) -> bool {
    text::has_prefix(s, "<tool_response>"@) && text::has_suffix(s, "</tool_response>"@)
}

/// The last of the first `k` messages that is a user's query: a user message that is no
/// wrapped tool response.
pub open spec fn last_query(messages: Seq<MessageModel>, ids: bool, k: int) -> Result<
    Option<int>,
    Seq<char>,
>
    decreases k,
{
    if k <= 0 {
        Ok(None)
    } else if messages[k - 1].role is User {
        match content_drawn(messages[k - 1].content, false, false, ids, 0, 0) {
            Err(e) => Err(e),
            Ok(d) => if wrapped_response(stripped(d.text)) {
                last_query(messages, ids, k - 1)
            } else {
                Ok(Some(k - 1))
            },
        }
    } else {
        last_query(messages, ids, k - 1)
    }
}

// ---------------------------------------------------------------------------
// turns
// ---------------------------------------------------------------------------
/// How one `<parameter>` value is written: a dict or a list as JSON, everything else as
/// a bare Python `str`.
pub open spec fn argument(v: Json) -> Seq<char> {
    match v {
        Json::Array(_) => writer::dumps_text(v),
        Json::Object(_) => writer::dumps_text(v),
        _ => writer::str_text(v),
    }
}

/// The parameters of a call.
pub open spec fn parameters(args: Seq<(Seq<char>, Json)>) -> Seq<char>
    decreases args.len(),
{
    if args.len() == 0 {
        seq![]
    } else {
        parameters(args.drop_last()) + "<parameter="@ + args.last().0 + ">\n"@ + argument(
            args.last().1,
        ) + "\n</parameter>\n"@
    }
}

/// A call from its name on.
pub open spec fn call_body(call: CallModel) -> Seq<char> {
    call.name + ">\n"@ + parameters(call.arguments) + "</function>\n</tool_call>"@
}

/// What joins call `j` to what stands before it: a blank line behind content, nothing
/// where there is none, and a newline behind another call.
pub open spec fn call_opening(j: int, content: Seq<char>) -> Seq<char> {
    if j > 0 {
        "\n<tool_call>\n<function="@
    } else if stripped(content).len() > 0 {
        "\n\n<tool_call>\n<function="@
    } else {
        "<tool_call>\n<function="@
    }
}

/// The calls of a message.
pub open spec fn calls_text(calls: Seq<CallModel>, content: Seq<char>) -> Seq<char>
    decreases calls.len(),
{
    if calls.len() == 0 {
        seq![]
    } else {
        calls_text(calls.drop_last(), content) + call_opening(calls.len() - 1, content)
            + call_body(calls.last())
    }
}

/// The reasoning and the content of an assistant message. Where the message does not
/// give its reasoning, it is what stands in its content before the first `</think>` and
/// behind the last `<think>` there; the content is then what stands behind the last
/// `</think>`.
pub open spec fn split_thought(reasoning: Option<Seq<char>>, content: Seq<char>) -> (
    Seq<char>,
    Seq<char>,
) {
    match reasoning {
        Some(r) => (stripped(r), content),
        None => if text::has_text(content, THINK_CLOSE@) {
            let head = text::trim_end(text::before_first(content, THINK_CLOSE@), Class::Newline);
            let thought = text::trim_start(text::after_last(head, THINK_OPEN@), Class::Newline);
            (
                stripped(thought),
                text::trim_start(text::after_last(content, THINK_CLOSE@), Class::Newline),
            )
        } else {
            (stripped(seq![]), content)
        },
    }
}

/// What an assistant writes: its thought where the message stands in the current turn,
/// its content and its calls.
pub open spec fn assistant_text(
    reasoning: Option<Seq<char>>,
    content: Seq<char>,
    calls: Seq<CallModel>,
    current: bool,
) -> Seq<char> {
    let (thought, said) = split_thought(reasoning, content);
    let block = if current {
        THINK_OPEN@ + seq!['\n'] + thought + seq!['\n'] + THINK_CLOSE@ + "\n\n"@
    } else {
        seq![]
    };
    block + said + calls_text(calls, said)
}

/// One turn: message `i`, after so many images and videos. `query` is where the last
/// user query stands.
pub open spec fn turn(
    messages: Seq<MessageModel>,
    query: int,
    ids: bool,
    i: int,
    images: nat,
    videos: nat,
) -> Result<Drawn, Seq<char>> {
    let m = messages[i];
    match content_drawn(m.content, true, false, ids, images, videos) {
        Err(e) => Err(e),
        Ok(d) => {
            let content = stripped(d.text);
            match m.role {
                // Rendered before the turns; here it is only a position check.
                RoleModel::System => if i != 0 {
                    Err(ERR_SYSTEM_NOT_FIRST@)
                } else {
                    Ok(Drawn { text: seq![], images: d.images, videos: d.videos })
                },
                RoleModel::User => Ok(
                    Drawn {
                        text: IM_START@ + "user\n"@ + content + IM_END@ + seq!['\n'],
                        images: d.images,
                        videos: d.videos,
                    },
                ),
                RoleModel::Assistant => Ok(
                    Drawn {
                        text: IM_START@ + "assistant\n"@ + assistant_text(
                            m.reasoning,
                            content,
                            m.tool_calls,
                            i > query,
                        ) + IM_END@ + seq!['\n'],
                        images: d.images,
                        videos: d.videos,
                    },
                ),
                // Consecutive tool results share *one* user block.
                RoleModel::Tool => {
                    let opening = if i > 0 && !(messages[i - 1].role is Tool) {
                        IM_START@ + "user"@
                    } else {
                        seq![]
                    };
                    let closing = if i + 1 == messages.len() || !(messages[i + 1].role is Tool) {
                        IM_END@ + seq!['\n']
                    } else {
                        seq![]
                    };
                    Ok(
                        Drawn {
                            text: opening + "\n<tool_response>\n"@ + content
                                + "\n</tool_response>"@ + closing,
                            images: d.images,
                            videos: d.videos,
                        },
                    )
                },
                RoleModel::Other(_) => Err(ERR_UNEXPECTED_ROLE@),
            }
        },
    }
}

/// The first `k` turns.
pub open spec fn turns(messages: Seq<MessageModel>, query: int, ids: bool, k: int) -> Result<
    Drawn,
    Seq<char>,
>
    decreases k,
{
    if k <= 0 {
        Ok(Drawn { text: seq![], images: 0, videos: 0 })
    } else {
        match turns(messages, query, ids, k - 1) {
            Err(e) => Err(e),
            Ok(d) => match turn(messages, query, ids, k - 1, d.images, d.videos) {
                Err(e) => Err(e),
                Ok(t) => Ok(
                    Drawn { text: d.text + t.text, images: t.images, videos: t.videos },
                ),
            },
        }
    }
}

// ---------------------------------------------------------------------------
// the whole
// ---------------------------------------------------------------------------
/// The block that the model is to fill.
pub open spec fn generation_prompt(opts: Options) -> Seq<char> {
    if !opts.add_generation_prompt {
        seq![]
    } else if opts.enable_thinking {
        IM_START@ + "assistant\n"@ + THINK_OPEN@ + seq!['\n']
    } else {
        IM_START@ + "assistant\n"@ + THINK_OPEN@ + "\n\n"@ + THINK_CLOSE@ + "\n\n"@
    }
}

/// What the template makes of a request. The order of checks is the template's own: the
/// scan for the last query runs before the turns, so an unknown role can fail with the
/// scan's error rather than the turns'.
pub open spec fn rendering(req: RequestModel) -> Result<Drawn, Seq<char>> {
    let ids = req.opts.add_vision_id;
    let n = req.messages.len() as int;
    if n == 0 {
        Err(ERR_NO_MESSAGES@)
    } else {
        match system_block(req) {
            Err(e) => Err(e),
            Ok(opening) => match last_query(req.messages, ids, n) {
                Err(e) => Err(e),
                Ok(None) => Err(ERR_NO_USER_QUERY@),
                Ok(Some(query)) => match turns(req.messages, query, ids, n) {
                    Err(e) => Err(e),
                    Ok(d) => Ok(
                        Drawn {
                            text: opening + d.text + generation_prompt(req.opts),
                            images: d.images,
                            videos: d.videos,
                        },
                    ),
                },
            },
        }
    }
}

// ---------------------------------------------------------------------------
// rendering
// ---------------------------------------------------------------------------
/// Python's `str.strip`, which is what Jinja's `|trim` filter calls.
///
/// `char::is_whitespace` is Unicode `White_Space`; Python's `str.isspace` is that
/// **plus** `U+001C..U+001F` (the old ASCII "file/group/record/unit separator"
/// controls).
pub fn jinja_trim(s: &str) -> (r: String)
    ensures
        r@ == stripped(s@),
{
    let c = str_chars(s);
    to_text(trimmed(c.as_slice(), Class::PythonSpace))
}

/// Whether what was written is what the template says.
spec fn draws(r: Result<String, String>, d: Result<Seq<char>, Seq<char>>) -> bool {
    match (r, d) {
        (Ok(s), Ok(t)) => s@ == t,
        (Err(e), Err(f)) => e@ == f,
        _ => false,
    }
}

/// Whether what was written and counted is what the template says.
spec fn draws_counted(
    r: Result<String, String>,
    images: u128,
    videos: u128,
    d: Result<Drawn, Seq<char>>,
) -> bool {
    match (r, d) {
        (Ok(s), Ok(t)) => s@ == t.text && images == t.images && videos == t.videos,
        (Err(e), Err(f)) => e@ == f,
        _ => false,
    }
}

/// An error stays the first one.
proof fn lemma_parts_err(
    parts: Seq<PartModel>,
    count: bool,
    system: bool,
    ids: bool,
    d: Drawn,
    k: int,
)
    requires
        0 <= k <= parts.len(),
        parts_drawn(parts.take(k), count, system, ids, d) is Err,
    ensures
        parts_drawn(parts, count, system, ids, d) == parts_drawn(
            parts.take(k),
            count,
            system,
            ids,
            d,
        ),
    decreases parts.len() - k,
{
    if k < parts.len() {
        assert(parts.take(k + 1).drop_last() =~= parts.take(k));
        lemma_parts_err(parts, count, system, ids, d, k + 1);
    } else {
        assert(parts.take(k) =~= parts);
    }
}

/// Writes the label of image or video `n`, where labels are asked for.
fn push_vision_label(out: &mut String, name: &str, n: u128, ids: bool)
    ensures
        final(out)@ == old(out)@ + vision_label(name@, n as nat, ids),
{
    if ids {
        push_text(out, name);
        push_decimal(out, n);
        push_text(out, ": ");
    }
    assert(out@ =~= old(out)@ + vision_label(name@, n as nat, ids));
}

/// `render_content`, the template's macro.
///
/// `do_count` is the macro's `do_vision_count`: the backwards scan calls it with
/// `false` (its result is only tested for `<tool_response>` wrappers, and the
/// image counters must not move), the turns with `true`.
fn render_content(
    c: &Content,
    do_count: bool,
    is_system: bool,
    add_vision_id: bool,
    images: &mut u128,
    videos: &mut u128,
) -> (r: Result<String, String>)
    requires
        *old(images) <= 0xffff_ffff_ffff_ffff_0000_0000_0000_0000,
        *old(videos) <= 0xffff_ffff_ffff_ffff_0000_0000_0000_0000,
    ensures
        draws_counted(
            r,
            *final(images),
            *final(videos),
            content_drawn(
                c@,
                do_count,
                is_system,
                add_vision_id,
                *old(images) as nat,
                *old(videos) as nat,
            ),
        ),
        *final(images) <= *old(images) + 0xffff_ffff_ffff_ffff,
        *final(videos) <= *old(videos) + 0xffff_ffff_ffff_ffff,
        !do_count || !(c@ is Parts) ==> *final(images) == *old(images) && *final(videos) == *old(
            videos,
        ),
{
    match c {
        Content::Text(s) => Ok(s.clone()),
        Content::Absent => Ok(String::new()),
        Content::Unsupported => Err(to_owned_text(ERR_CONTENT_TYPE)),
        Content::Parts(parts) => {
            let mut out = String::new();
            let ghost models = message::part_models(parts@);
            let ghost start = Drawn {
                text: seq![],
                images: *old(images) as nat,
                videos: *old(videos) as nat,
            };
            let mut k: usize = 0;
            while k < parts.len()
                invariant
                    c@ == ContentModel::Parts(models),
                    models == message::part_models(parts@),
                    start == (Drawn {
                        text: seq![],
                        images: *old(images) as nat,
                        videos: *old(videos) as nat,
                    }),
                    k <= parts@.len(),
                    *old(images) <= 0xffff_ffff_ffff_ffff_0000_0000_0000_0000,
                    *old(videos) <= 0xffff_ffff_ffff_ffff_0000_0000_0000_0000,
                    *images <= *old(images) + k,
                    *videos <= *old(videos) + k,
                    !do_count ==> *images == *old(images) && *videos == *old(videos),
                    parts_drawn(models.take(k as int), do_count, is_system, add_vision_id, start)
                        == Ok::<Drawn, Seq<char>>(
                        Drawn { text: out@, images: *images as nat, videos: *videos as nat },
                    ),
                decreases parts.len() - k,
            {
                let ghost next = models.take(k + 1);
                proof {
                    assert(next.drop_last() =~= models.take(k as int));
                    assert(next.last() == parts@[k as int]@);
                }
                match &parts[k] {
                    Part::Image => {
                        if is_system {
                            proof {
                                lemma_parts_err(
                                    models,
                                    do_count,
                                    is_system,
                                    add_vision_id,
                                    start,
                                    k + 1,
                                );
                            }
                            return Err(to_owned_text(ERR_SYSTEM_IMAGE));
                        }
                        if do_count {
                            *images = *images + 1;
                        }
                        push_vision_label(&mut out, "Picture ", *images, add_vision_id);
                        push_text(&mut out, "<|vision_start|><|image_pad|><|vision_end|>");
                    },
                    Part::Video => {
                        if is_system {
                            proof {
                                lemma_parts_err(
                                    models,
                                    do_count,
                                    is_system,
                                    add_vision_id,
                                    start,
                                    k + 1,
                                );
                            }
                            return Err(to_owned_text(ERR_SYSTEM_VIDEO));
                        }
                        if do_count {
                            *videos = *videos + 1;
                        }
                        push_vision_label(&mut out, "Video ", *videos, add_vision_id);
                        push_text(&mut out, "<|vision_start|><|video_pad|><|vision_end|>");
                    },
                    Part::Text(t) => push_text(&mut out, t.as_str()),
                    Part::Other => {
                        proof {
                            lemma_parts_err(
                                models,
                                do_count,
                                is_system,
                                add_vision_id,
                                start,
                                k + 1,
                            );
                        }
                        return Err(to_owned_text(ERR_ITEM_TYPE));
                    },
                }
                k += 1;
            }
            assert(models.take(k as int) =~= models);
            Ok(out)
        },
    }
}

fn is_system(role: &Role) -> (r: bool)
    ensures
        r == (role@ is System),
{
    matches!(role, Role::System)
}

fn is_tool(role: &Role) -> (r: bool)
    ensures
        r == (role@ is Tool),
{
    matches!(role, Role::Tool)
}

/// The text of a leading system message, and nothing where there is none.
fn leading_system(req: &Request) -> (r: Result<String, String>)
    requires
        req@.messages.len() > 0,
    ensures
        draws(r, system_text(req@)),
{
    let first: &Message = &req.messages[0];
    assert(req@.messages[0] == first@);
    if is_system(&first.role) {
        let mut images: u128 = 0;
        let mut videos: u128 = 0;
        match render_content(
            &first.content,
            false,
            true,
            req.opts.add_vision_id,
            &mut images,
            &mut videos,
        ) {
            Err(e) => Err(e),
            Ok(s) => Ok(jinja_trim(s.as_str())),
        }
    } else {
        Ok(String::new())
    }
}

/// What stands before the turns.
fn render_system(req: &Request) -> (r: Result<String, String>)
    requires
        req@.messages.len() > 0,
    ensures
        draws(r, system_block(req@)),
{
    let s: String = match leading_system(req) {
        Err(e) => return Err(e),
        Ok(s) => s,
    };
    let mut out = String::new();
    assert(req@.messages[0] == req.messages@[0]@);
    if req.tools.len() > 0 {
        push_text(&mut out, IM_START);
        push_text(&mut out, "system\n");
        push_text(&mut out, TOOLS_PREFIX);
        let ghost opening = out@;
        let ghost tools = value::json_items(req.tools@);
        let mut k: usize = 0;
        while k < req.tools.len()
            invariant
                tools == value::json_items(req.tools@),
                k <= req.tools@.len(),
                out@ == opening + tool_lines(tools.take(k as int)),
            decreases req.tools.len() - k,
        {
            out.push('\n');
            push_text(&mut out, dumps(&req.tools[k]).as_str());
            k += 1;
            assert(tools.take(k as int).drop_last() =~= tools.take(k - 1));
            assert(out@ =~= opening + tool_lines(tools.take(k as int)));
        }
        assert(tools.take(k as int) =~= tools);
        push_text(&mut out, "\n</tools>");
        push_text(&mut out, TOOLS_INSTRUCTIONS);
        if !s.as_str().is_empty() {
            push_text(&mut out, "\n\n");
            push_text(&mut out, s.as_str());
        }
        push_text(&mut out, IM_END);
        out.push('\n');
    } else if is_system(&req.messages[0].role) {
        push_text(&mut out, IM_START);
        push_text(&mut out, "system\n");
        push_text(&mut out, s.as_str());
        push_text(&mut out, IM_END);
        out.push('\n');
    }
    assert(draws(Ok(out), system_block(req@))) by {
        let t = system_block(req@)->Ok_0;
        assert(out@ =~= t);
    }
    Ok(out)
}

/// Where the last user query stands, found backwards and skipping wrapped tool
/// responses.
fn find_last_query(req: &Request) -> (r: Result<usize, String>)
    ensures
        match (r, last_query(req@.messages, req@.opts.add_vision_id, req@.messages.len() as int)) {
            (Ok(i), Ok(Some(q))) => i == q && i < req@.messages.len(),
            (Err(e), Ok(None)) => e@ == ERR_NO_USER_QUERY@,
            (Err(e), Err(f)) => e@ == f,
            _ => false,
        },
{
    let ids: bool = req.opts.add_vision_id;
    let n: usize = req.messages.len();
    let mut k: usize = n;
    while k > 0
        invariant
            k <= n == req@.messages.len(),
            ids == req@.opts.add_vision_id,
            last_query(req@.messages, ids, n as int) == last_query(req@.messages, ids, k as int),
        decreases k,
    {
        let m: &Message = &req.messages[k - 1];
        assert(req@.messages[k - 1] == m@);
        if matches!(m.role, Role::User) {
            let mut images: u128 = 0;
            let mut videos: u128 = 0;
            match render_content(&m.content, false, false, ids, &mut images, &mut videos) {
                Err(e) => {
                    return Err(e);
                },
                Ok(s) => {
                    let t = jinja_trim(s.as_str());
                    let c = str_chars(t.as_str());
                    if strip_prefix(c.as_slice(), "<tool_response>").is_none() || strip_suffix(
                        c.as_slice(),
                        "</tool_response>",
                    ).is_none() {
                        return Ok(k - 1);
                    }
                },
            }
        }
        k -= 1;
    }
    Err(to_owned_text(ERR_NO_USER_QUERY))
}

/// How the template stringifies one `<parameter>` value.
///
/// `tojson if mapping or (sequence and not string) else str`, i.e. a dict or a
/// list becomes JSON while everything else becomes a bare Python `str` -- so
/// `True` stays `True`, `None` stays `None`, and a string argument is written
/// without quotes.
fn argument_text(v: &Value) -> (r: String)
    ensures
        r@ == argument(v@),
{
    match v {
        Value::Array(_) => dumps(v),
        Value::Object(_) => dumps(v),
        other => py_str(other),
    }
}

/// Writes a call from its name on.
fn push_call(out: &mut String, call: &FunctionCall)
    ensures
        final(out)@ == old(out)@ + call_body(call@),
{
    push_text(out, call.name.as_str());
    push_text(out, ">\n");
    let ghost opening = out@;
    let ghost args = value::json_members(call.arguments@);
    let mut k: usize = 0;
    while k < call.arguments.len()
        invariant
            args == value::json_members(call.arguments@),
            k <= call.arguments@.len(),
            out@ == opening + parameters(args.take(k as int)),
        decreases call.arguments.len() - k,
    {
        push_text(out, "<parameter=");
        push_text(out, call.arguments[k].0.as_str());
        push_text(out, ">\n");
        push_text(out, argument_text(&call.arguments[k].1).as_str());
        push_text(out, "\n</parameter>\n");
        k += 1;
        assert(args.take(k as int).drop_last() =~= args.take(k - 1));
        assert(out@ =~= opening + parameters(args.take(k as int)));
    }
    assert(args.take(k as int) =~= args);
    push_text(out, "</function>\n</tool_call>");
    assert(out@ =~= old(out)@ + call_body(call@));
}

/// Writes the calls of a message whose content is `content`.
fn push_calls(out: &mut String, calls: &Vec<FunctionCall>, content: &[char])
    ensures
        final(out)@ == old(out)@ + calls_text(message::call_models(calls@), content@),
{
    let ghost models = message::call_models(calls@);
    let blank: bool = trimmed(content, Class::PythonSpace).len() == 0;
    let mut j: usize = 0;
    while j < calls.len()
        invariant
            models == message::call_models(calls@),
            blank == (stripped(content@).len() == 0),
            j <= calls@.len(),
            out@ == old(out)@ + calls_text(models.take(j as int), content@),
        decreases calls.len() - j,
    {
        // The first call is joined to the content with a blank line, but only when there
        // *is* content.
        if j > 0 {
            push_text(out, "\n<tool_call>\n<function=");
        } else if !blank {
            push_text(out, "\n\n<tool_call>\n<function=");
        } else {
            push_text(out, "<tool_call>\n<function=");
        }
        push_call(out, &calls[j]);
        j += 1;
        assert(models.take(j as int).drop_last() =~= models.take(j - 1));
        assert(out@ =~= old(out)@ + calls_text(models.take(j as int), content@));
    }
    assert(models.take(j as int) =~= models);
}

/// Writes what an assistant writes.
fn push_assistant(
    out: &mut String,
    reasoning: &Option<String>,
    content: &[char],
    calls: &Vec<FunctionCall>,
    current: bool,
)
    ensures
        final(out)@ == old(out)@ + assistant_text(
            message::text_model(*reasoning),
            content@,
            message::call_models(calls@),
            current,
        ),
{
    let (thought, said): (String, &[char]) = match reasoning {
        Some(r) => (jinja_trim(r.as_str()), content),
        None => match split_once(content, THINK_CLOSE) {
            Some((head, _)) => {
                let head = trimmed_end(head, Class::Newline);
                let thought = trimmed_start(last_piece(head, THINK_OPEN), Class::Newline);
                let tail = last_piece(content, THINK_CLOSE);
                (
                    to_text(trimmed(thought, Class::PythonSpace)),
                    trimmed_start(tail, Class::Newline),
                )
            },
            None => (jinja_trim(""), content),
        },
    };
    proof {
        reveal_strlit("");
        assert(""@ =~= seq![]);
    }
    if current {
        // Inside the current turn: the think block is present, and may be empty, which is
        // the "answered directly" shape.
        push_text(out, THINK_OPEN);
        out.push('\n');
        push_text(out, thought.as_str());
        out.push('\n');
        push_text(out, THINK_CLOSE);
        push_text(out, "\n\n");
    }
    push_text(out, to_text(said).as_str());
    push_calls(out, calls, said);
    assert(out@ =~= old(out)@ + assistant_text(
        message::text_model(*reasoning),
        content@,
        message::call_models(calls@),
        current,
    ));
}

/// One turn.
fn render_turn(req: &Request, query: usize, i: usize, images: &mut u128, videos: &mut u128) -> (r:
    Result<String, String>)
    requires
        i < req@.messages.len(),
        *old(images) <= i * 0x1_0000_0000_0000_0000,
        *old(videos) <= i * 0x1_0000_0000_0000_0000,
    ensures
        draws_counted(
            r,
            *final(images),
            *final(videos),
            turn(
                req@.messages,
                query as int,
                req@.opts.add_vision_id,
                i as int,
                *old(images) as nat,
                *old(videos) as nat,
            ),
        ),
        *final(images) <= (i + 1) * 0x1_0000_0000_0000_0000,
        *final(videos) <= (i + 1) * 0x1_0000_0000_0000_0000,
{
    let n: usize = req.messages.len();
    let m: &Message = &req.messages[i];
    assert(req@.messages[i as int] == m@);
    let body: String = match render_content(
        &m.content,
        true,
        false,
        req.opts.add_vision_id,
        images,
        videos,
    ) {
        Err(e) => return Err(e),
        Ok(s) => jinja_trim(s.as_str()),
    };
    let mut out = String::new();
    match &m.role {
        Role::System => {
            if i != 0 {
                return Err(to_owned_text(ERR_SYSTEM_NOT_FIRST));
            }
        },
        Role::User => {
            push_text(&mut out, IM_START);
            push_text(&mut out, "user\n");
            push_text(&mut out, body.as_str());
            push_text(&mut out, IM_END);
            out.push('\n');
        },
        Role::Assistant => {
            push_text(&mut out, IM_START);
            push_text(&mut out, "assistant\n");
            let content = str_chars(body.as_str());
            push_assistant(&mut out, &m.reasoning, content.as_slice(), &m.tool_calls, i > query);
            push_text(&mut out, IM_END);
            out.push('\n');
        },
        Role::Tool => {
            if i > 0 {
                assert(req@.messages[i - 1] == req.messages@[i - 1]@);
            }
            if i > 0 && !is_tool(&req.messages[i - 1].role) {
                push_text(&mut out, IM_START);
                push_text(&mut out, "user");
            }
            push_text(&mut out, "\n<tool_response>\n");
            push_text(&mut out, body.as_str());
            push_text(&mut out, "\n</tool_response>");
            if i + 1 < n {
                assert(req@.messages[i + 1] == req.messages@[i + 1]@);
            }
            if i + 1 == n || !is_tool(&req.messages[i + 1].role) {
                push_text(&mut out, IM_END);
                out.push('\n');
            }
        },
        Role::Other(_) => {
            return Err(to_owned_text(ERR_UNEXPECTED_ROLE));
        },
    }
    assert(out@ =~= turn(
        req@.messages,
        query as int,
        req@.opts.add_vision_id,
        i as int,
        *old(images) as nat,
        *old(videos) as nat,
    )->Ok_0.text);
    Ok(out)
}

/// An error stays the first one.
proof fn lemma_turns_err(messages: Seq<MessageModel>, query: int, ids: bool, k: int, n: int)
    requires
        0 <= k <= n,
        turns(messages, query, ids, k) is Err,
    ensures
        turns(messages, query, ids, n) == turns(messages, query, ids, k),
    decreases n - k,
{
    if k < n {
        lemma_turns_err(messages, query, ids, k, n - 1);
    }
}

/// The block that the model is to fill.
fn push_generation_prompt(out: &mut String, opts: Options)
    ensures
        final(out)@ == old(out)@ + generation_prompt(opts),
{
    if opts.add_generation_prompt {
        push_text(out, IM_START);
        push_text(out, "assistant\n");
        push_text(out, THINK_OPEN);
        if opts.enable_thinking {
            out.push('\n');
        } else {
            push_text(out, "\n\n");
            push_text(out, THINK_CLOSE);
            push_text(out, "\n\n");
        }
    }
    assert(out@ =~= old(out)@ + generation_prompt(opts));
}

/// A count, as far as `usize` goes.
pub open spec fn counted(n: nat) -> usize {
    if n > usize::MAX {
        usize::MAX
    } else {
        n as usize
    }
}

fn count(n: u128) -> (r: usize)
    ensures
        r == counted(n as nat),
{
    if n > usize::MAX as u128 {
        usize::MAX
    } else {
        n as usize
    }
}

/// Render a conversation the way the chat template does.
///
/// The order of checks is the template's own, and it matters: the backwards scan for the
/// last query runs *before* the turns, so an unknown role can fail with the scan's error
/// rather than theirs.
pub fn render(req: &Request) -> (r: Result<Rendered, String>)
    ensures
        match (r, rendering(req@)) {
            (Ok(x), Ok(d)) => x.text@ == d.text && x.images == counted(d.images) && x.videos
                == counted(d.videos),
            (Err(e), Err(f)) => e@ == f,
            _ => false,
        },
{
    if req.messages.len() == 0 {
        return Err(to_owned_text(ERR_NO_MESSAGES));
    }
    let mut out: String = match render_system(req) {
        Err(e) => return Err(e),
        Ok(s) => s,
    };
    let query: usize = match find_last_query(req) {
        Err(e) => return Err(e),
        Ok(q) => q,
    };
    let ghost opening = out@;
    let ghost messages = req@.messages;
    let ghost ids = req@.opts.add_vision_id;
    let n: usize = req.messages.len();
    let mut images: u128 = 0;
    let mut videos: u128 = 0;
    let mut i: usize = 0;
    let ghost mut body: Seq<char> = seq![];
    assert(opening + body =~= opening);
    while i < n
        invariant
            messages == req@.messages,
            ids == req@.opts.add_vision_id,
            i <= n == messages.len(),
            images <= i * 0x1_0000_0000_0000_0000,
            videos <= i * 0x1_0000_0000_0000_0000,
            out@ == opening + body,
            system_block(req@) == Ok::<Seq<char>, Seq<char>>(opening),
            last_query(messages, ids, n as int) == Ok::<Option<int>, Seq<char>>(
                Some(query as int),
            ),
            n > 0,
            turns(messages, query as int, ids, i as int) == Ok::<Drawn, Seq<char>>(
                Drawn { text: body, images: images as nat, videos: videos as nat },
            ),
        decreases n - i,
    {
        match render_turn(req, query, i, &mut images, &mut videos) {
            Err(e) => {
                proof {
                    lemma_turns_err(messages, query as int, ids, i + 1, n as int);
                }
                return Err(e);
            },
            Ok(t) => {
                push_text(&mut out, t.as_str());
                proof {
                    assert(opening + body + t@ =~= opening + (body + t@));
                    body = body + t@;
                }
            },
        }
        i += 1;
    }
    push_generation_prompt(&mut out, req.opts);
    Ok(Rendered { text: out, images: count(images), videos: count(videos) })
}

} // verus!
