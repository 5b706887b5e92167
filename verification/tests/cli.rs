use gdn::chat::{render, Message, Options, Role};
use gdn::cli::{
    chat_steps, parse_list, parse_turns, read_words, tools_of, truncate, turns_to_messages,
    write_words, Session, Turn, CHAT_STEPS, END_OF_TURN,
};
use gdn::pyjson::{parse_exact, Value};

fn args(all: &[&str]) -> Vec<String> {
    all.iter().map(|s| s.to_string()).collect()
}

fn opts() -> Options {
    Options { add_generation_prompt: true, enable_thinking: false, add_vision_id: false }
}

#[test]
fn turns_keep_the_order_they_were_written_in() {
    let turns = parse_turns(&args(&[
        "qwenrun", "dir", "--system", "s", "--chat", "a", "--tokens", "5", "--reply", "b",
        "--tool-result", "t", "--chat", "--chat",
    ]))
    .unwrap();
    assert_eq!(
        turns,
        vec![
            Turn::System("s".to_string()),
            Turn::User("a".to_string()),
            Turn::Assistant("b".to_string()),
            Turn::Tool("t".to_string()),
            Turn::User("--chat".to_string()),
        ]
    );
    let messages = turns_to_messages(&turns);
    let roles: Vec<Role> = messages.iter().map(|m| m.role.clone()).collect();
    assert_eq!(roles, vec![Role::System, Role::User, Role::Assistant, Role::Tool, Role::User]);
    // The program's own name is no turn.
    assert_eq!(parse_turns(&args(&["--chat"])), Ok(vec![]));
    assert_eq!(parse_turns(&[]), Ok(vec![]));
    assert_eq!(
        parse_turns(&args(&["qwenrun", "--reply", "x", "--chat"])),
        Err("--chat needs a value".to_string())
    );
}

#[test]
fn lists_of_ids_are_read() {
    assert_eq!(parse_list("1,2,3"), Ok(vec![1, 2, 3]));
    assert_eq!(parse_list(" 7 , ,+8,"), Ok(vec![7, 8]));
    assert_eq!(parse_list(""), Ok(vec![]));
    assert_eq!(parse_list("4294967295"), Ok(vec![u32::MAX]));
    assert_eq!(
        parse_list("1, x,2"),
        Err("bad token id ` x`: invalid digit found in string".to_string())
    );
    assert_eq!(
        parse_list("4294967296"),
        Err("bad token id `4294967296`: number too large to fit in target type".to_string())
    );
    assert_eq!(parse_list("-1").unwrap_err(), "bad token id `-1`: invalid digit found in string");
}

#[test]
fn blobs_are_little_endian_words() {
    let bytes = [0u8, 0, 0x80, 0x3f, 1, 2, 3, 4, 9];
    let words = read_words(&bytes);
    assert_eq!(words, vec![0x3f80_0000, 0x0403_0201]);
    assert_eq!(f32::from_bits(words[0]), 1.0);
    assert_eq!(write_words(&words), bytes[..8].to_vec());
    let many = [0u32, 1, u32::MAX, 0x1234_5678];
    assert_eq!(read_words(&write_words(&many)), many.to_vec());
}

#[test]
fn tools_are_an_array_or_one_object() {
    let two = parse_exact("[{\"a\": 1}, 2]").unwrap();
    assert_eq!(tools_of(two).unwrap().len(), 2);
    let one = parse_exact("{\"a\": 1}").unwrap();
    assert_eq!(tools_of(one.clone()), Some(vec![one]));
    assert_eq!(tools_of(Value::Int(1)), None);
}

#[test]
fn a_chat_has_a_step_limit() {
    assert_eq!(chat_steps(0), CHAT_STEPS);
    assert_eq!(CHAT_STEPS, 64);
    assert_eq!(chat_steps(5), 5);
    assert_eq!(END_OF_TURN, 248046);
}

#[test]
fn long_texts_are_cut() {
    let short = "x".repeat(200);
    assert_eq!(truncate(&short), short);
    let long = "x".repeat(201);
    assert_eq!(truncate(&long), format!("{short}..."));
    // Never inside a character.
    let wide = format!("{}é{}", "x".repeat(199), "y".repeat(50));
    assert_eq!(truncate(&wide), format!("{}...", "x".repeat(199)));
}

/// The reply goes into the history with its reasoning, so the next prompt shows the
/// conversation that was had.
#[test]
fn a_session_grows_by_turns() {
    let mut s = Session::new(vec![Message::system("be brief")], vec![], opts());
    assert!(s.take_line(Some("Hi")));
    assert_eq!(s.request().messages.len(), 2);
    let reply = s.take_reply("thinking\n</think>\n\nHello");
    assert_eq!(reply.content, "Hello");
    assert_eq!(s.request().messages.len(), 3);
    assert_eq!(s.request().messages[2].role, Role::Assistant);
    assert_eq!(s.request().messages[2].reasoning, reply.reasoning.clone().or(Some(String::new())));
    assert!(s.take_line(Some("More?")));
    let text = render(s.request()).unwrap().text;
    assert!(text.contains("<|im_start|>assistant\nHello<|im_end|>\n"), "{text}");
    // A blank line and the end of the input both end it.
    assert!(!s.take_line(Some(" \t")));
    assert!(!s.take_line(None));
    assert_eq!(s.request().messages.len(), 4);
}
