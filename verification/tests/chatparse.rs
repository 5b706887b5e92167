use gdn::chat::{render, Content, FunctionCall, Message, Options, Request, Role};
use gdn::chatparse::{parse_assistant, parse_tool_calls, Reply};
use gdn::pyjson::Value;


/// The whole point: template output goes in, the same template output comes
/// back out.
fn round_trip(m: Message) -> Reply {
    let req = Request {
        messages: vec![Message::user("q"), m],
        tools: vec![],
        opts: Options::default(),
    };
    let full = render(&req).unwrap().text;
    // Only the continuation is parsed, i.e. what the model itself would emit.
    let tail = full
        .split_once("<|im_start|>assistant\n")
        .expect("the assistant block is last")
        .1;
    let continuation = tail.strip_suffix("<|im_end|>\n").expect("the block is closed");
    let reply = parse_assistant(continuation);

    // Re-render from the parsed reply and compare with the original message.
    let back = Message {
        role: Role::Assistant,
        content: Content::Text(reply.content.clone()),
        reasoning: reply.reasoning.clone(),
        tool_calls: reply.as_chat_calls(),
    };
    let req2 = Request {
        messages: vec![Message::user("q"), back.clone()],
        tools: vec![],
        opts: Options::default(),
    };
    let again = render(&req2).unwrap().text;
    let again_tail = again
        .split_once("<|im_start|>assistant\n")
        .unwrap()
        .1
        .strip_suffix("<|im_end|>\n")
        .unwrap();
    assert_eq!(
        continuation, again_tail,
        "parse then render must reproduce the original bytes"
    );
    reply
}

#[test]
fn plain_text_with_an_empty_think_block() {
    let r = round_trip(Message::assistant("The capital is Paris."));
    assert_eq!(r.reasoning.as_deref(), Some(""));
    assert_eq!(r.content, "The capital is Paris.");
    assert!(r.tool_calls.is_empty());
}

#[test]
fn reasoning_is_recovered() {
    let mut m = Message::assistant("two plus two is four");
    m.reasoning = Some("the user asks arithmetic".into());
    let r = round_trip(m);
    assert_eq!(r.reasoning.as_deref(), Some("the user asks arithmetic"));
    assert_eq!(r.content, "two plus two is four");
}

#[test]
fn a_tool_call_round_trips() {
    let mut m = Message::assistant("");
    m.tool_calls = vec![FunctionCall {
        name: "get_weather".into(),
        arguments: vec![
            ("city".into(), Value::Str("Paris".into())),
            ("units".into(), Value::Str("metric".into())),
        ],
    }];
    let r = round_trip(m);
    assert!(r.content.is_empty());
    assert_eq!(r.tool_calls.len(), 1);
    assert_eq!(r.tool_calls[0].name, "get_weather");
    assert_eq!(
        r.tool_calls[0].arguments,
        vec![
            ("city".to_string(), "Paris".to_string()),
            ("units".to_string(), "metric".to_string())
        ]
    );
}

#[test]
fn text_and_a_call_together_round_trip() {
    let mut m = Message::assistant("Let me check.");
    m.reasoning = Some("needs a lookup".into());
    m.tool_calls = vec![FunctionCall {
        name: "f".into(),
        arguments: vec![("a".into(), Value::Int(1))],
    }];
    let r = round_trip(m);
    assert_eq!(r.content, "Let me check.");
    assert_eq!(r.reasoning.as_deref(), Some("needs a lookup"));
    assert_eq!(r.tool_calls[0].arguments, vec![("a".to_string(), "1".to_string())]);
}

#[test]
fn two_calls_round_trip() {
    let mut m = Message::assistant("");
    m.tool_calls = vec![
        FunctionCall {
            name: "a".into(),
            arguments: vec![("x".into(), Value::Str("1".into()))],
        },
        FunctionCall {
            name: "b".into(),
            arguments: vec![],
        },
    ];
    let r = round_trip(m);
    assert_eq!(r.tool_calls.len(), 2);
    assert_eq!(r.tool_calls[0].name, "a");
    assert_eq!(r.tool_calls[1].name, "b");
}

/// A value may span lines, which the template's own example calls out.
#[test]
fn multi_line_values_survive() {
    let text = "<tool_call>\n<function=f>\n<parameter=a>\nline one\nline two\n</parameter>\n</function>\n</tool_call>";
    let calls = parse_tool_calls(text).unwrap();
    assert_eq!(calls[0].arguments[0].1, "line one\nline two");
}

/// Values are text, and the parser does not guess at them: `True` stays the
/// string `True`, so re-rendering writes `True` again rather than `true`.
#[test]
fn values_are_not_reinterpreted() {
    let text = "<tool_call>\n<function=f>\n\
                <parameter=b>\nTrue\n</parameter>\n\
                <parameter=n>\nNone\n</parameter>\n\
                <parameter=d>\n{\"x\": 1}\n</parameter>\n\
                <parameter>bad</tool_call>";
    // The last parameter is malformed, so the whole parse fails rather than
    // returning three of four.
    assert!(parse_tool_calls(text).is_err());

    let ok = "<tool_call>\n<function=f>\n\
              <parameter=b>\nTrue\n</parameter>\n\
              <parameter=n>\nNone\n</parameter>\n\
              <parameter=d>\n{\"x\": 1}\n</parameter>\n</function>\n</tool_call>";
    let calls = parse_tool_calls(ok).unwrap();
    assert_eq!(calls[0].arguments[0].1, "True");
    assert_eq!(calls[0].arguments[1].1, "None");
    assert_eq!(calls[0].arguments[2].1, "{\"x\": 1}");
}

#[test]
fn malformed_blocks_are_reported_not_dropped() {
    assert!(parse_tool_calls("<tool_call>\n<function=f>\n").is_err());
    assert!(parse_tool_calls("<tool_call>\nnot a function\n</tool_call>").is_err());
    assert!(parse_tool_calls("<tool_call>\n<function=>\n</function>\n</tool_call>").is_err());
    assert!(parse_tool_calls("<tool_call>\n<function=f>\n</functionx>\n</tool_call>").is_err());
    // No block at all is not an error: that is ordinary text.
    assert_eq!(parse_tool_calls("just prose").unwrap(), Vec::new());
}

/// A `<` in ordinary prose must not be mistaken for a malformed call.
#[test]
fn an_angle_bracket_in_prose_is_not_a_call() {
    let r = parse_assistant("<think>\n\n</think>\n\n2 < 3 and 5 > 4");
    assert_eq!(r.content, "2 < 3 and 5 > 4");
    assert!(r.tool_calls.is_empty());
}

#[test]
fn what_is_wrong_with_a_call_is_said() {
    let e = parse_tool_calls("<tool_call>\nnot a function\n</tool_call>").unwrap_err();
    assert_eq!(e, "a tool call does not start with `<function=`: \"not a function\"");
    // A reply with a call that cannot be read keeps it as text.
    let r = parse_assistant("<tool_call>\nnot a function\n</tool_call>");
    assert!(r.tool_calls.is_empty());
    assert_eq!(Reply::text("x").content, "x");
}

#[test]
fn parsing_a_rendering_is_stable() {
    for t in ["", "x", "<think>a</think>b", "</think>", "a<tool_call>", "<think>\n\n</think>\n\n  y  "] {
        let once = parse_assistant(t);
        let mut m = Message::assistant(&once.content);
        m.reasoning = once.reasoning.clone();
        m.tool_calls = once.as_chat_calls();
        round_trip(m);
    }
}

/// A whole request, with the reply of its last turn read and handed back, renders the same.
#[test]
fn a_request_survives_render_parse_render() {
    let mut call = Message::assistant("  let me look  ");
    call.reasoning = Some("\nwhich city?\n".into());
    call.tool_calls = vec![FunctionCall {
        name: "weather".into(),
        arguments: vec![
            ("city".into(), Value::Str("Oslo".into())),
            ("days".into(), Value::Array(vec![Value::Int(1), Value::Int(2)])),
        ],
    }];
    let req = Request {
        messages: vec![Message::system("be brief"), Message::user("weather?"), call],
        tools: vec![Value::Object(vec![("name".into(), Value::Str("weather".into()))])],
        opts: Options::default(),
    };
    let text = render(&req).unwrap().text;
    let turn = text.rsplit_once("<|im_start|>assistant\n").unwrap().1;
    let reply = parse_assistant(turn.strip_suffix("<|im_end|>\n").unwrap());
    let mut again = req.clone();
    again.messages[2] = Message {
        role: Role::Assistant,
        content: Content::Text(reply.content.clone()),
        reasoning: reply.reasoning.clone(),
        tool_calls: reply.as_chat_calls(),
    };
    assert_ne!(again.messages[2], req.messages[2]);
    assert_eq!(render(&again).unwrap().text, text);
}
