use gdn::chat::{render, Message, Options, Rendered, Request};
use gdn::conformance::{
    agreement, expected_ids, first_difference, judge, marker_fault, reparses, Agreement, Tally,
    Verdict, MARKER_IDS,
};
use gdn::pyjson::{dumps, parse_exact, Value};
use gdn::tokenizer::{byte_to_char_table, Tokenizer, PRETOKENIZE_REGEX_WITH_MARKS};

fn rendered(text: &str) -> Result<Rendered, String> {
    Ok(Rendered { text: text.to_string(), images: 0, videos: 0 })
}

#[test]
fn texts_and_errors_are_judged_exactly() {
    let text = parse_exact("{\"expect_text\": \"abc\"}").unwrap();
    assert_eq!(judge(&text, &rendered("abc")), Verdict::TextMatches);
    assert_eq!(judge(&text, &rendered("abd")), Verdict::TextDiffers);
    assert_eq!(judge(&text, &Err("abc".to_string())), Verdict::TextDiffers);
    let error = parse_exact("{\"expect_error\": \"No user query\"}").unwrap();
    assert_eq!(judge(&error, &Err("No user query".to_string())), Verdict::ErrorMatches);
    assert_eq!(judge(&error, &Err("other".to_string())), Verdict::ErrorDiffers);
    assert_eq!(judge(&error, &rendered("No user query")), Verdict::ErrorDiffers);
    // A case that expects nothing expects the empty error.
    let nothing = parse_exact("{}").unwrap();
    assert_eq!(judge(&nothing, &Err(String::new())), Verdict::ErrorMatches);
}

#[test]
fn expected_ids_are_the_numbers_among_them() {
    let case = parse_exact("{\"expect_ids\": [1, \"x\", 2, -3]}").unwrap();
    assert_eq!(expected_ids(&case), Some(vec![1, 2]));
    assert_eq!(expected_ids(&parse_exact("{}").unwrap()), None);
    assert_eq!(first_difference(&[1, 2, 3], &[1, 5, 3]), Some(1));
    assert_eq!(first_difference(&[1, 2], &[1, 2, 3]), None);
}

#[test]
fn what_was_rendered_parses_back() {
    let mut a = Message::assistant("done");
    a.reasoning = Some("because".to_string());
    let req = Request {
        messages: vec![Message::user("q"), a],
        tools: vec![],
        opts: Options { add_generation_prompt: false, enable_thinking: false, add_vision_id: false },
    };
    let text = render(&req).unwrap().text;
    assert_eq!(reparses(req.clone(), &text), Some(true));
    // Another continuation than the one the request renders does not survive.
    let other = "<|im_start|>user\nq<|im_end|>\n<|im_start|>assistant\n  spaced  <|im_end|>\n";
    assert_eq!(reparses(req.clone(), other), Some(false));
    // Without an assistant turn at the end there is nothing to parse.
    let mut user = req;
    user.messages.pop();
    assert_eq!(reparses(user, &text), None);
}

#[test]
fn tokens_count_before_values() {
    assert_eq!(agreement(&[3, 1, 2], &[3, 1, 0], 2, true), Agreement::Pass);
    assert_eq!(agreement(&[3, 1, 2], &[3, 1, 0], 2, false), Agreement::ValuesDiffer);
    assert_eq!(agreement(&[3, 1, 2], &[3, 1, 0], 3, true), Agreement::TokensDiffer);
    assert_eq!(agreement(&[3], &[4], 0, true), Agreement::TokensDiffer);
}

#[test]
fn every_outcome_is_counted_once() {
    let mut t = Tally::new();
    assert!(t.passes());
    t.take_verdict(Verdict::TextMatches);
    t.take_verdict(Verdict::ErrorMatches);
    assert!(t.take_ids(&[1, 2], &[1, 2]));
    t.take_reparse(None);
    t.take_reparse(Some(true));
    assert!(t.passes());
    assert_eq!((t.text_ok, t.err_ok, t.ids_ok), (1, 1, 1));
    let good = t;
    t.take_unbuilt();
    t.take_verdict(Verdict::TextDiffers);
    assert_eq!(t.text_bad, 2);
    assert!(!t.passes());
    t = good;
    t.take_verdict(Verdict::ErrorDiffers);
    assert!(t.err_bad == 1 && !t.passes());
    t = good;
    assert!(!t.take_ids(&[1], &[1, 2]));
    assert!(t.ids_bad == 1 && !t.passes());
    t = good;
    t.take_reparse(Some(false));
    assert!(t.parse_bad == 1 && !t.passes());
}

#[test]
fn a_marker_is_one_id() {
    let vocab: Vec<(String, Value)> = byte_to_char_table()
        .iter()
        .enumerate()
        .map(|(b, c)| (c.to_string(), Value::Int(b as i128)))
        .collect();
    let doc = format!(
        "{{\"model\":{{\"type\":\"BPE\",\"vocab\":{},\"merges\":[]}},\
         \"added_tokens\":[{{\"content\":\"<|im_end|>\",\"id\":300}}],\
         \"normalizer\":{{\"type\":\"NFC\"}},\
         \"pre_tokenizer\":{{\"pretokenizers\":[{{\"type\":\"Split\",\"pattern\":{{\"Regex\":{}}}}},\
         {{\"type\":\"ByteLevel\"}}]}},\"decoder\":{{\"type\":\"ByteLevel\"}}}}",
        dumps(&Value::Object(vocab)),
        dumps(&Value::Str(PRETOKENIZE_REGEX_WITH_MARKS.to_string()))
    );
    let (tk, _) = Tokenizer::from_slice(doc.as_bytes(), "t.json").unwrap();
    assert_eq!(marker_fault(&tk, "<|im_end|>", 300), None);
    assert_eq!(marker_fault(&tk, "<|im_end|>", 301), Some(vec![300]));
    assert_eq!(marker_fault(&tk, "<t>", 60), Some(vec![60, 116, 62]));
    assert_eq!(MARKER_IDS, [248045, 248046, 248068, 248069]);
}
