use gdn::chat::{
    jinja_trim, render, Content, FunctionCall, Message, Options, Part, Request, Role,
    ERR_CONTENT_TYPE, ERR_ITEM_TYPE, ERR_NO_MESSAGES, ERR_NO_USER_QUERY, ERR_SYSTEM_IMAGE,
    ERR_SYSTEM_NOT_FIRST, ERR_SYSTEM_VIDEO, ERR_UNEXPECTED_ROLE,
};
use gdn::pyjson::{parse_exact, Value};

fn float(x: f64) -> Value {
    parse_exact(&format!("{x:e}")).unwrap()
}

fn text(req: &Request) -> String {
    render(req).unwrap().text
}

fn opts(gen: bool) -> Options {
    Options {
        add_generation_prompt: gen,
        ..Options::default()
    }
}

#[test]
fn single_turn() {
    let r = Request {
        messages: vec![Message::user("Hi")],
        tools: vec![],
        opts: opts(true),
    };
    assert_eq!(
        text(&r),
        "<|im_start|>user\nHi<|im_end|>\n<|im_start|>assistant\n<think>\n\n</think>\n\n"
    );
}

#[test]
fn system_message_comes_first_and_in_its_own_block() {
    let r = Request {
        messages: vec![Message::system("You are terse."), Message::user("Hi")],
        tools: vec![],
        opts: opts(true),
    };
    assert_eq!(
        text(&r),
        "<|im_start|>system\nYou are terse.<|im_end|>\n<|im_start|>user\nHi<|im_end|>\n<|im_start|>assistant\n<think>\n\n</think>\n\n"
    );
}

/// Only an assistant message *after* the last user query gets a think block.
#[test]
fn think_block_is_position_dependent() {
    let r = Request {
        messages: vec![
            Message::user("a"),
            Message::assistant("b"),
            Message::user("c"),
            Message::assistant("d"),
        ],
        tools: vec![],
        opts: opts(false),
    };
    assert_eq!(
        text(&r),
        "<|im_start|>user\na<|im_end|>\n\
         <|im_start|>assistant\nb<|im_end|>\n\
         <|im_start|>user\nc<|im_end|>\n\
         <|im_start|>assistant\n<think>\n\n</think>\n\nd<|im_end|>\n"
    );
}

/// A user message that is itself a wrapped tool response does not end the
/// search, so an assistant message *before* it is still "inside the current
/// turn" and gets a think block. Without the skip, `last_query_index` would be
/// that message's index and the assistant would lose its block.
#[test]
fn multi_step_tool_query_is_skipped() {
    let r = Request {
        messages: vec![
            Message::user("q"),
            Message::assistant("a"),
            Message::user("<tool_response>\nR\n</tool_response>"),
        ],
        tools: vec![],
        opts: opts(false),
    };
    assert_eq!(
        text(&r),
        "<|im_start|>user\nq<|im_end|>\n\
         <|im_start|>assistant\n<think>\n\n</think>\n\na<|im_end|>\n\
         <|im_start|>user\n<tool_response>\nR\n</tool_response><|im_end|>\n"
    );

    // With no unwrapped query anywhere the scan runs out, and that is an
    // error -- the template does the same.
    let bad = Request {
        messages: vec![Message::user("<tool_response>\nR\n</tool_response>")],
        tools: vec![],
        opts: opts(true),
    };
    assert_eq!(render(&bad).unwrap_err(), ERR_NO_USER_QUERY);
}

#[test]
fn consecutive_tool_results_share_one_user_block() {
    let r = Request {
        messages: vec![
            Message::user("q"),
            Message::tool("R1"),
            Message::tool("R2"),
        ],
        tools: vec![],
        opts: opts(true),
    };
    assert_eq!(
        text(&r),
        "<|im_start|>user\nq<|im_end|>\n\
         <|im_start|>user\n<tool_response>\nR1\n</tool_response>\n<tool_response>\nR2\n</tool_response><|im_end|>\n\
         <|im_start|>assistant\n<think>\n\n</think>\n\n"
    );
}

#[test]
fn tool_calls_render_as_xml_and_keep_argument_types() {
    let r = Request {
        messages: vec![
            Message::user("q"),
            Message {
                role: Role::Assistant,
                content: Content::Text(String::new()),
                reasoning: None,
                tool_calls: vec![FunctionCall {
                    name: "f".into(),
                    arguments: vec![
                        ("s".into(), Value::Str("str".into())),
                        ("i".into(), Value::Int(42)),
                        ("f".into(), float(1.5)),
                        ("b".into(), Value::Bool(true)),
                        ("n".into(), Value::Null),
                        ("lst".into(), Value::Array(vec![Value::Int(1), Value::Int(2)])),
                        // A nested dict is `tojson` in Python's own format.
                        (
                            "d".into(),
                            Value::Object(vec![("x".into(), Value::Int(1))]),
                        ),
                    ],
                }],
            },
        ],
        tools: vec![],
        opts: opts(false),
    };
    // Empty content: no blank line before the call.
    assert_eq!(
        text(&r),
        "<|im_start|>user\nq<|im_end|>\n<|im_start|>assistant\n<think>\n\n</think>\n\n\
         <tool_call>\n<function=f>\n\
         <parameter=s>\nstr\n</parameter>\n\
         <parameter=i>\n42\n</parameter>\n\
         <parameter=f>\n1.5\n</parameter>\n\
         <parameter=b>\nTrue\n</parameter>\n\
         <parameter=n>\nNone\n</parameter>\n\
         <parameter=lst>\n[1, 2]\n</parameter>\n\
         <parameter=d>\n{\"x\": 1}\n</parameter>\n\
         </function>\n</tool_call><|im_end|>\n"
    );
}

/// With content, the call is separated by a blank line; with two calls the
/// second is separated by one newline.
#[test]
fn tool_call_separation_depends_on_content() {
    let call = |n: &str| FunctionCall {
        name: n.into(),
        arguments: vec![],
    };
    let mut m = Message::assistant("thinking about it");
    m.tool_calls = vec![call("a"), call("b")];
    let r = Request {
        messages: vec![Message::user("q"), m],
        tools: vec![],
        opts: opts(false),
    };
    assert_eq!(
        text(&r),
        "<|im_start|>user\nq<|im_end|>\n<|im_start|>assistant\n<think>\n\n</think>\n\n\
         thinking about it\n\n<tool_call>\n<function=a>\n</function>\n</tool_call>\
         \n<tool_call>\n<function=b>\n</function>\n</tool_call><|im_end|>\n"
    );
}

#[test]
fn reasoning_content_wins_over_inline_think() {
    let mut m = Message::assistant("inline\n</think>\n\ntail");
    m.reasoning = Some("explicit".into());
    let r = Request {
        messages: vec![Message::user("q"), m],
        tools: vec![],
        opts: opts(false),
    };
    assert_eq!(
        text(&r),
        "<|im_start|>user\nq<|im_end|>\n\
         <|im_start|>assistant\n<think>\nexplicit\n</think>\n\ninline\n</think>\n\ntail<|im_end|>\n"
    );
}

#[test]
fn inline_think_is_split_out() {
    let mut m = Message::assistant("<think>\nrz\n</think>\n\nans");
    m.reasoning = None;
    let r = Request {
        messages: vec![Message::user("q"), m],
        tools: vec![],
        opts: opts(false),
    };
    assert_eq!(
        text(&r),
        "<|im_start|>user\nq<|im_end|>\n\
         <|im_start|>assistant\n<think>\nrz\n</think>\n\nans<|im_end|>\n"
    );
}

#[test]
fn thinking_toggle_changes_the_generation_prompt() {
    let base = Request {
        messages: vec![Message::user("Hi")],
        tools: vec![],
        opts: opts(true),
    };
    let mut on = base.clone();
    on.opts.enable_thinking = true;
    assert!(text(&on).ends_with("<|im_start|>assistant\n<think>\n"));
    assert!(!text(&on).contains("</think>"));
    assert!(text(&base).ends_with("<think>\n\n</think>\n\n"));
}

/// Python's whitespace set is `White_Space` plus `U+001C..U+001F`, so a Rust
/// `trim` here would leave four code points Python removes.
#[test]
fn trim_is_pythons_strip_not_rusts() {
    assert_eq!(jinja_trim("  Hi  \n"), "Hi");
    assert_eq!(jinja_trim("\u{1c}Hi\u{1c}"), "Hi");
    assert_eq!(jinja_trim("\u{1f}Hi"), "Hi");
    assert_eq!(jinja_trim("\u{85}Hi\u{a0}"), "Hi");
    assert_eq!(jinja_trim("\u{3000}Hi\u{3000}"), "Hi");
    // Rust's own trim disagrees, which is the whole point.
    assert_ne!("\u{1c}Hi\u{1c}".trim(), "Hi");
    // And an ordinary character is not touched.
    assert_eq!(jinja_trim("\u{200b}Hi"), "\u{200b}Hi");
}

#[test]
fn vision_parts_render_and_count() {
    let mk = |parts: Vec<Part>, avi: bool| Request {
        messages: vec![Message {
            role: Role::User,
            content: Content::Parts(parts),
            reasoning: None,
            tool_calls: Vec::new(),
        }],
        tools: vec![],
        opts: Options {
            add_generation_prompt: true,
            enable_thinking: false,
            add_vision_id: avi,
        },
    };
    let r = mk(
        vec![Part::Image, Part::Image, Part::Text("t".into())],
        false,
    );
    let got = render(&r).unwrap();
    assert_eq!(got.images, 2);
    assert!(got.text.starts_with(
        "<|im_start|>user\n<|vision_start|><|image_pad|><|vision_end|>\
         <|vision_start|><|image_pad|><|vision_end|>t<|im_end|>\n"
    ));
    let with_ids = mk(vec![Part::Image, Part::Image, Part::Text("t".into())], true);
    assert!(render(&with_ids)
        .unwrap()
        .text
        .contains("Picture 1: <|vision_start|><|image_pad|><|vision_end|>Picture 2: "));
    let video = mk(vec![Part::Video], false);
    assert_eq!(render(&video).unwrap().videos, 1);
}

#[test]
fn content_shapes_that_fail() {
    // The bad content goes on the message whose role is being tested; a
    // system message needs a user after it, a user message does not.
    let with = |role: Role, c: Content| {
        let bad = Message {
            role: role.clone(),
            content: c,
            reasoning: None,
            tool_calls: Vec::new(),
        };
        let messages = if role == Role::System {
            vec![bad, Message::user("q")]
        } else {
            vec![Message::system("s"), bad, Message::user("q")]
        };
        Request {
            messages,
            tools: vec![],
            opts: opts(true),
        }
    };
    // A mapping is not a valid content type.
    assert_eq!(
        render(&with(Role::User, Content::Unsupported)).unwrap_err(),
        ERR_CONTENT_TYPE
    );
    assert_eq!(
        render(&with(Role::System, Content::Unsupported)).unwrap_err(),
        ERR_CONTENT_TYPE
    );
    // An image inside a system message is refused, with its own message.
    assert_eq!(
        render(&with(Role::System, Content::Parts(vec![Part::Image]))).unwrap_err(),
        ERR_SYSTEM_IMAGE
    );
    assert_eq!(
        render(&with(Role::System, Content::Parts(vec![Part::Video]))).unwrap_err(),
        ERR_SYSTEM_VIDEO
    );
    // An item that is none of image/video/text.
    assert_eq!(
        render(&with(Role::User, Content::Parts(vec![Part::Other]))).unwrap_err(),
        ERR_ITEM_TYPE
    );
    // And the same list on a *user* message is fine, so the refusal above is
    // about the role rather than about the part.
    assert!(render(&with(Role::User, Content::Parts(vec![Part::Image]))).is_ok());
}

#[test]
fn position_and_role_errors() {
    let sys_late = Request {
        messages: vec![Message::user("q"), Message::system("s")],
        tools: vec![],
        opts: opts(true),
    };
    assert_eq!(render(&sys_late).unwrap_err(), ERR_SYSTEM_NOT_FIRST);

    // Unknown role *after* the query: the loop's error.
    let bad = Request {
        messages: vec![Message::user("q"), Message::new(Role::Other("wizard".into()), "x")],
        tools: vec![],
        opts: opts(true),
    };
    assert_eq!(render(&bad).unwrap_err(), ERR_UNEXPECTED_ROLE);

    // Unknown role as the *only* message: the backwards scan never finds a
    // user, so this is the scan's error, not the loop's.
    let only = Request {
        messages: vec![Message::new(Role::Other("wizard".into()), "x")],
        tools: vec![],
        opts: opts(true),
    };
    assert_eq!(render(&only).unwrap_err(), ERR_NO_USER_QUERY);

    assert_eq!(render(&Request::default()).unwrap_err(), ERR_NO_MESSAGES);
}

#[test]
fn a_tool_block_still_needs_a_user_query() {
    // The tool block forces a system message out, but there is no user
    // message, so the backwards scan fails.
    let r = Request {
        messages: vec![Message::system("s")],
        tools: vec![Value::Object(vec![])],
        opts: opts(true),
    };
    assert_eq!(render(&r).unwrap_err(), ERR_NO_USER_QUERY);
}

/// The tool block is the whole system message, and a real system message is
/// appended to it after a blank line -- both shapes, since an empty system
/// message must not leave a stray blank line.
#[test]
fn tools_block_shapes() {
    let tool = Value::Object(vec![(
        "function".into(),
        Value::Object(vec![("name".into(), Value::Str("f".into()))]),
    )]);
    let with = |msgs: Vec<Message>, tools: Vec<Value>| Request {
        messages: msgs,
        tools,
        opts: opts(true),
    };
    let a = text(&with(vec![Message::user("q")], vec![tool.clone()]));
    assert!(a.starts_with("<|im_start|>system\n# Tools\n\nYou have access"));
    assert!(a.contains("\n{\"function\": {\"name\": \"f\"}}\n</tools>"));
    assert!(a.contains("</IMPORTANT><|im_end|>\n<|im_start|>user\nq"));
    assert!(!a.contains("</IMPORTANT>\n\n"), "no system message: no blank line");

    let b = text(&with(
        vec![Message::system("You are helpful."), Message::user("q")],
        vec![tool.clone()],
    ));
    assert!(b.contains("</IMPORTANT>\n\nYou are helpful.<|im_end|>\n"));

    // An empty system message contributes nothing, not two newlines.
    let c = text(&with(
        vec![Message::system("   "), Message::user("q")],
        vec![tool.clone()],
    ));
    assert!(c.contains("</IMPORTANT><|im_end|>\n"));

    // Two tools: one JSON document per line.
    let d = text(&with(vec![Message::user("q")], vec![tool.clone(), tool]));
    assert!(d.contains("\n{\"function\": {\"name\": \"f\"}}\n{\"function\": {\"name\": \"f\"}}\n</tools>"));
}

#[test]
fn requests_are_read_from_json() {
    let doc = parse_exact(
        "{\"messages\": [{\"role\": \"user\", \"content\": [{\"type\": \"text\", \"text\": \"Hi\"}]}, \
         {\"role\": \"assistant\", \"content\": null, \"tool_calls\": [{\"function\": {\"name\": \
         \"f\", \"arguments\": {\"a\": 1}}}]}]}",
    )
    .unwrap();
    let req = Request::from_json(&doc).unwrap();
    assert_eq!(req.messages.len(), 2);
    assert_eq!(req.messages[0].content, Content::Parts(vec![Part::Text("Hi".to_string())]));
    assert_eq!(req.messages[1].content, Content::Absent);
    assert_eq!(req.messages[1].tool_calls[0].name, "f");
    let bad = parse_exact("{\"messages\": [{\"content\": \"x\"}]}").unwrap();
    assert!(Request::from_json(&bad).is_err());
}

#[test]
fn the_generation_prompt_only_appends() {
    let mut r = Request {
        messages: vec![Message::user("q"), Message::assistant("a")],
        tools: vec![],
        opts: opts(false),
    };
    let without = text(&r);
    r.opts.add_generation_prompt = true;
    r.opts.enable_thinking = true;
    assert_eq!(text(&r), format!("{without}<|im_start|>assistant\n<think>\n"));
}
