use gdn::pyjson::{dumps, parse_exact, Value};
use gdn::tokenizer::{
    byte_to_char_table, pretokenize, pretokenize_with, Tokenizer, PRETOKENIZE_REGEX_NO_MARKS,
    PRETOKENIZE_REGEX_WITH_MARKS,
};
use gdn::unicode_gc::nfc;

/// A `tokenizer.json` with the 256 byte-level characters as ids 0..255, and more on request.
fn document(vocab_more: &str, merges: &str, added: &str, pattern: &str) -> String {
    let mut vocab = String::new();
    for (b, c) in byte_to_char_table().iter().enumerate() {
        if b > 0 {
            vocab.push(',');
        }
        let shown = dumps(&Value::Str(c.to_string()));
        vocab.push_str(&format!("{shown}:{b}"));
    }
    let regex = dumps(&Value::Str(pattern.to_string()));
    format!(
        "{{\"model\":{{\"type\":\"BPE\",\"vocab\":{{{vocab}{vocab_more}}},\"merges\":[{merges}]}},\
         \"added_tokens\":[{added}],\"normalizer\":{{\"type\":\"NFC\"}},\
         \"pre_tokenizer\":{{\"type\":\"Sequence\",\"pretokenizers\":[\
         {{\"type\":\"Split\",\"pattern\":{{\"Regex\":{regex}}}}},{{\"type\":\"ByteLevel\"}}]}},\
         \"decoder\":{{\"type\":\"ByteLevel\"}}}}"
    )
}

/// A tokenizer with the 256 byte-level characters as ids 0..255 and **no**
/// merges, so any multi-byte string that is not an added token comes back as
/// one id per byte. That makes "did this become a single id" visible without
/// a vocabulary.
fn byte_only() -> Tokenizer {
    let doc = document("", "", "", PRETOKENIZE_REGEX_WITH_MARKS);
    Tokenizer::from_slice(doc.as_bytes(), "t.json").unwrap().0
}

/// The bug this exists for: seven tokens are declared only in
/// `tokenizer_config.json`, so a loader that reads `tokenizer.json` alone
/// splits them into pieces instead of failing.
#[test]
fn absorbed_added_tokens_become_one_id() {
    let mut tk = byte_only();
    let text = "<|audio_start|>";
    let split = tk.encode(text);
    assert!(split.len() > 1, "without an added token it must split: {split:?}");
    assert_eq!(tk.decode(&split), text, "the pieces still round-trip");

    assert_eq!(tk.absorb_added_tokens(&[("<|audio_start|>".into(), 248070)]), 1);
    assert_eq!(tk.encode(text), vec![248070]);
    assert_eq!(tk.token_str(248070), Some(text));
    assert_eq!(tk.decode(&[248070]), text);
}

#[test]
fn absorbing_is_idempotent_and_keeps_longest_first() {
    let mut tk = byte_only();
    tk.absorb_added_tokens(&[("<|audio_start|>".into(), 248070)]);
    // A second pass changes nothing, which is what makes it safe to call on
    // top of the file's own list.
    assert_eq!(tk.absorb_added_tokens(&[("<|audio_start|>".into(), 248070)]), 0);
    assert_eq!(tk.encode("<|audio_start|>"), vec![248070]);

    // Longest match wins: after adding a longer token that shares a prefix,
    // the longer one is still taken at that position.
    tk.absorb_added_tokens(&[("<|audio_start|>extra".into(), 248071)]);
    assert_eq!(tk.encode("<|audio_start|>extra"), vec![248071]);
    // ... and a character that is not part of it still splits off, as its own
    // byte id.
    assert_eq!(tk.encode("<|audio_start|>!"), vec![248070, b'!' as u32]);

    // And the file's own list is not disturbed by a re-add of the same id.
    let before = tk.added_tokens();
    tk.absorb_added_tokens(&[("<|audio_start|>".into(), 248070)]);
    assert_eq!(tk.added_tokens(), before);
}

#[test]
fn byte_table_is_a_bijection_over_256_values() {
    let t = byte_to_char_table();
    let mut seen = std::collections::HashSet::new();
    for c in t {
        assert!(seen.insert(c), "duplicate {c:?}");
        assert!(!c.is_whitespace(), "{c:?} is whitespace; the table must be printable");
        assert!(!c.is_control(), "{c:?} is a control character");
    }
    assert_eq!(seen.len(), 256);
    // Printable bytes map to themselves.
    assert_eq!(t[0x20], 'Ġ');
    assert_eq!(t[b'a' as usize], 'a');
    assert_eq!(t[0x0A], 'Ċ');
    assert_eq!(t[0x09], 'ĉ');
}

// The pre-tokenizer tests use the byte-level spellings, because that is what the
// pieces turn into: `Ġ` for a space, `Ċ` for a newline.

fn pieces(s: &str) -> Vec<String> {
    let s = nfc(s);
    pretokenize(&s).into_iter().map(|(a, b)| s[a..b].to_string()).collect()
}

#[test]
fn a_space_joins_the_following_word() {
    // Alternative 2's optional prefix takes the space, so it is not a piece of
    // its own. A separate "Ġ" would produce a different token sequence.
    assert_eq!(pieces("Hello world"), vec!["Hello", " world"]);
    assert_eq!(pieces("world"), vec!["world"]);
}

#[test]
fn the_optional_prefix_takes_exactly_one_character() {
    // "+b" is one piece; "++" is not a letter prefix and falls to alternative 4.
    assert_eq!(pieces("a+b"), vec!["a", "+b"]);
    assert_eq!(pieces("a++b"), vec!["a", "++", "b"]);
}

#[test]
fn whitespace_run_keeps_its_last_character() {
    // The `(?!\S)` backtracking case.
    assert_eq!(pieces("  leading"), vec![" ", " leading"]);
    assert_eq!(pieces("a  b"), vec!["a", " ", " b"]);
    // At end of input the lookahead succeeds, so the whole run is one piece.
    assert_eq!(pieces("leading  "), vec!["leading", "  "]);
    assert_eq!(pieces(" "), vec![" "]);
}

#[test]
fn newline_runs_are_their_own_piece() {
    assert_eq!(pieces("\n\na"), vec!["\n\n", "a"]);
    assert_eq!(pieces("a\r\n\r\nb"), vec!["a", "\r\n\r\n", "b"]);
    // Whitespace before a newline is absorbed by alternative 5.
    assert_eq!(pieces(" \n "), vec![" \n", " "]);
}

#[test]
fn contractions_are_split_off_and_case_insensitive() {
    assert_eq!(pieces("don't"), vec!["don", "'t"]);
    assert_eq!(pieces("DON'T"), vec!["DON", "'T"]);
    assert_eq!(pieces("x's"), vec!["x", "'s"]);
    assert_eq!(pieces("they're"), vec!["they", "'re"]);
    // "'n" is not a contraction, so alternative 2 handles it as prefix+letters.
    assert_eq!(pieces("rock'n'roll"), vec!["rock", "'n", "'roll"]);
}

#[test]
fn digits_are_single_character_pieces() {
    assert_eq!(pieces("abc123"), vec!["abc", "1", "2", "3"]);
    assert_eq!(pieces("123abc"), vec!["1", "2", "3", "abc"]);
    assert_eq!(pieces("3.14159"), vec!["3", ".", "1", "4", "1", "5", "9"]);
}

#[test]
fn symbols_group_but_letters_and_digits_bound_them() {
    assert_eq!(pieces("((a))"), vec!["((", "a", "))"]);
    assert_eq!(pieces(" - item"), vec![" -", " item"]);
    assert_eq!(pieces("  -  item"), vec![" ", " -", " ", " item"]);
}

#[test]
fn non_latin_letters_stay_together() {
    // `，` is punctuation, so alternative 2 may take it as its optional prefix and
    // then absorb the letters after it: the piece is `，世界`, not `，` + `世界`.
    //
    // This is worth being explicit about, because it shows a piece boundary is not
    // a token boundary. HF tokenizers produces three tokens here, not two, and it
    // does so because the merge table has no rule joining the bytes of `，` to the
    // bytes of `世` -- not because the pre-tokenizer separated them.
    assert_eq!(pieces("你好，世界"), vec!["你好", "，世界"]);
    // Cyrillic behaves like Latin: the space joins the following word, so this is
    // two pieces, not three.
    assert_eq!(pieces("Привет мир"), vec!["Привет", " мир"]);
    // A combining mark is \p{M}, which alternative 2 accepts in its run. NFC has
    // already composed it by this point, so the piece is the single char `à`.
    assert_eq!(pieces("a\u{300}b"), vec!["àb"]);
}

#[test]
fn every_character_matches_some_alternative() {
    // The scanner's fallback is documented as unreachable; check that nothing in a
    // broad sample produces an empty or non-advancing piece.
    let s: String = (0u32..0x3000).filter_map(char::from_u32).collect();
    let p = pretokenize(&s);
    let total: usize = p.iter().map(|(a, b)| b - a).sum();
    assert_eq!(total, s.len(), "pieces do not cover the input");
    for (a, b) in p {
        assert!(b > a, "empty piece at {a}");
    }
}

fn refused(doc: &str) -> String {
    Tokenizer::from_slice(doc.as_bytes(), "t.json").err().expect("refused")
}

fn good() -> String {
    document("", "", "", PRETOKENIZE_REGEX_WITH_MARKS)
}

#[test]
fn lowest_rank_merges_first_and_leftmost_wins() {
    // "ab" is rank 1 and "bc" rank 0, so "abc" is a + bc.
    let doc = document(
        ",\"ab\":256,\"bc\":257,\"aa\":258",
        "\"b c\",[\"a\",\"b\"],[\"a\",\"a\"]",
        "",
        PRETOKENIZE_REGEX_WITH_MARKS,
    );
    let (tk, info) = Tokenizer::from_slice(doc.as_bytes(), "t.json").unwrap();
    assert_eq!(tk.encode("abc"), vec![b'a' as u32, 257]);
    assert_eq!(tk.encode("ab"), vec![256]);
    // Three in a row: the left pair, then what is left over.
    assert_eq!(tk.encode("aaa"), vec![258, b'a' as u32]);
    assert_eq!(tk.decode(&tk.encode("aaabc ab")), "aaabc ab");
    assert_eq!(tk.vocab_size(), 259);
    assert_eq!(tk.token_str(257), Some("bc"));
    assert_eq!(tk.token_str(259), None);
    assert_eq!(info.model_type, "BPE");
    assert_eq!(info.vocab_size, 259);
    assert_eq!(info.merges, 3);
    assert_eq!(info.added_tokens, 0);
    assert_eq!(info.normalizer, "{\"type\":\"NFC\"}");
    assert_eq!(info.pre_tokenizer, PRETOKENIZE_REGEX_WITH_MARKS);
    assert_eq!(info.decoder, "ByteLevel");
    assert_eq!(info.byte_characters_missing_from_vocab, 0);
    assert_eq!(info.pattern_variant, "with marks");
    assert!(tk.marks_join_letters());
}

#[test]
fn decoding_gives_the_normal_form() {
    let tk = byte_only();
    for s in ["", "e\u{301}", "Hello world", "你好，世界", "a\u{301}\u{323} 한 \u{1f600}\n"] {
        assert_eq!(tk.decode(&tk.encode(s)), nfc(s));
    }
    // A cut inside a character leaves bytes that are no text by themselves.
    let ids = tk.encode("é");
    assert_eq!(ids.len(), 2);
    assert_eq!(tk.decode(&ids[..1]), "\u{fffd}");
    // An id without a token stands for nothing.
    assert_eq!(tk.decode(&[9999, b'a' as u32]), "a");
}

#[test]
fn added_tokens_of_the_file_are_single_ids() {
    let doc = document(
        "",
        "",
        "{\"content\":\"<a>\",\"id\":300},{\"content\":\"<a><b>\",\"id\":301}",
        PRETOKENIZE_REGEX_NO_MARKS,
    );
    let (tk, info) = Tokenizer::from_slice(doc.as_bytes(), "t.json").unwrap();
    assert_eq!(info.added_tokens, 2);
    assert_eq!(info.pattern_variant, "without marks");
    assert_eq!(tk.encode("x<a><b><a>"), vec![b'x' as u32, 301, 300]);
    assert_eq!(tk.token_str(300), Some("<a>"));
    // Ids in between have no token.
    assert_eq!(tk.token_str(299), Some(""));
    assert_eq!(tk.decode(&[300, 301]), "<a><a><b>");
}

#[test]
fn what_is_no_tokenizer_is_refused() {
    assert!(refused("{").starts_with("t.json: EOF while parsing"));
    assert_eq!(refused("{}"), "t.json: no `model`");
    assert_eq!(
        refused("{\"model\":{\"type\":\"WordPiece\"}}"),
        "t.json: model type is `WordPiece`, this implementation is BPE"
    );
    assert_eq!(
        refused("{\"model\":{\"type\":\"BPE\",\"byte_fallback\":true}}"),
        "t.json: byte_fallback is set; this implementation assumes byte-level characters are in \
         the vocabulary"
    );
    assert_eq!(
        refused("{\"model\":{\"type\":\"BPE\",\"unk_token\":\"<unk>\"}}"),
        "t.json: unk_token is `<unk>`; byte-level BPE should need none"
    );
    assert_eq!(refused("{\"model\":{\"type\":\"BPE\"}}"), "t.json: no `model.vocab`");
    assert_eq!(
        refused("{\"model\":{\"type\":\"BPE\",\"vocab\":{\"a\":-1}}}"),
        "t.json: vocab entry \"a\" has a non-integer id"
    );
    assert_eq!(
        refused("{\"model\":{\"type\":\"BPE\",\"vocab\":{}},\"added_tokens\":[{}]}"),
        "t.json: an added token has no content"
    );
    assert_eq!(
        refused("{\"model\":{\"type\":\"BPE\",\"vocab\":{}},\"added_tokens\":[{\"content\":\"<a>\"}]}"),
        "t.json: added token \"<a>\" has no id"
    );
    assert_eq!(
        refused("{\"model\":{\"type\":\"BPE\",\"vocab\":{\"a\":0}}}"),
        "t.json: 255 of the 256 byte-level characters are absent from the vocabulary; a \
         byte-level BPE must contain all of them"
    );
    assert_eq!(
        refused(&good().replace("\"merges\"", "\"other\"")),
        "t.json: no `model.merges`"
    );
}

#[test]
fn merges_that_cannot_be_are_refused() {
    let with = |m: &str| refused(&document("", m, "", PRETOKENIZE_REGEX_WITH_MARKS));
    assert_eq!(with("\"ab\""), "t.json: merge 0 is \"ab\", which has no space");
    assert_eq!(with("[\"a\"]"), "t.json: merge 0 is not a pair");
    assert_eq!(with("7"), "t.json: merge 0 has an unknown shape");
    assert_eq!(with("\"zz b\""), "t.json: merge 0: \"zz\" is not in the vocab");
    assert_eq!(with("\"a zz\""), "t.json: merge 0: \"zz\" is not in the vocab");
    assert_eq!(with("\"a b\""), "t.json: merge 0: \"a\"+\"b\" has no vocabulary entry");
}

#[test]
fn other_pipelines_are_refused() {
    assert_eq!(
        refused(&good().replace("NFC", "NFKC")),
        "t.json: normalizer is `NFKC`, this implementation performs NFC only"
    );
    assert_eq!(
        refused(&good().replace("\"pre_tokenizer\"", "\"other\"")),
        "t.json: no `pre_tokenizer`"
    );
    assert_eq!(
        refused(&good().replace("\"pretokenizers\"", "\"other\"")),
        "t.json: `pre_tokenizer` is not a Sequence"
    );
    assert_eq!(
        refused(&good().replace(",{\"type\":\"ByteLevel\"}]", "]")),
        "t.json: expected 2 pre-tokenizers (Split, ByteLevel), found 1"
    );
    assert_eq!(
        refused(&good().replace("\"Regex\"", "\"String\"")),
        "t.json: the first pre-tokenizer is not a Regex Split"
    );
    let other = refused(&document("", "", "", "\\s+"));
    assert_eq!(
        other,
        format!(
            "t.json: the pre-tokenizer regex matches neither pattern this scanner implements.\n  \
             checkpoint: \\s+\n  with marks:    {PRETOKENIZE_REGEX_WITH_MARKS}\n  \
             without marks: {PRETOKENIZE_REGEX_NO_MARKS}"
        )
    );
    assert_eq!(
        refused(&good().replace(",{\"type\":\"ByteLevel\"}]", ",{\"type\":\"Metaspace\"}]")),
        "t.json: the second pre-tokenizer is `Metaspace`, expected ByteLevel"
    );
    assert_eq!(
        refused(&good().replace("\"decoder\":{\"type\":\"ByteLevel\"}", "\"decoder\":null")),
        "t.json: decoder is ``, expected ByteLevel"
    );
}

#[test]
fn documents_are_read_as_values_too() {
    let doc = parse_exact(&good()).unwrap();
    let (tk, info) = Tokenizer::from_document(&doc, "null", "x").unwrap();
    assert_eq!(info.normalizer, "null");
    assert_eq!(tk.encode("ab"), vec![97, 98]);
    let e = Tokenizer::from_document(&Value::Null, "null", "x").err();
    assert_eq!(e, Some("x: no `model`".to_string()));
}

#[test]
fn a_config_adds_tokens_and_chooses_the_pattern() {
    let mut tk = byte_only();
    let doc = good();
    let mut info = Tokenizer::from_slice(doc.as_bytes(), "t.json").unwrap().1;
    let cfg = "{\"added_tokens_decoder\":{\"300\":{\"content\":\"<|x|>\"},\"+301\":\"<|y|>\",\
               \"n\":\"<|z|>\",\"302\":{},\"99999999999\":\"<|w|>\"},\
               \"tokenizer_class\":\"Qwen2Tokenizer\"}";
    tk.configure_from_slice(&mut info, cfg.as_bytes(), "c.json").unwrap();
    assert_eq!(info.added_tokens, 2);
    assert_eq!(tk.added_tokens(), 2);
    assert_eq!(tk.encode("<|x|><|y|>"), vec![300, 301]);
    assert!(!tk.marks_join_letters());
    tk.set_marks_join_letters(true);
    assert!(tk.marks_join_letters());
    // Another class keeps the pattern of the file.
    let other = parse_exact("{\"tokenizer_class\":\"LlamaTokenizer\"}").unwrap();
    tk.configure(&mut info, &other).unwrap();
    assert!(tk.marks_join_letters());
    let e = tk.configure_from_slice(&mut info, b"[", "c.json").unwrap_err();
    assert!(e.starts_with("c.json: EOF while parsing"), "{e}");
}

#[test]
fn longest_first_then_code_points() {
    let mut tk = byte_only();
    let n = tk.absorb_added_tokens(&[
        ("b".to_string(), 400),
        ("a".to_string(), 401),
        ("ab".to_string(), 402),
        ("".to_string(), 403),
        ("a".to_string(), 404),
    ]);
    assert_eq!(n, 4, "the second `a` is there already");
    assert_eq!(tk.encode("abba"), vec![402, 400, 401]);
    // An empty token stands nowhere.
    assert_eq!(tk.encode("x"), vec![b'x' as u32]);
    // A token never replaces what an id stands for.
    tk.absorb_added_tokens(&[("zz".to_string(), 97)]);
    assert_eq!(tk.token_str(97), Some("a"));
}

#[test]
fn the_two_patterns_differ_only_at_marks() {
    // U+0E31 is a combining mark that nothing composes.
    let s = "\u{e01}\u{e31}\u{e1a}";
    assert_eq!(pretokenize_with(s, true), vec![(0, 9)]);
    // Without marks it is a symbol, which the letters behind it take as their prefix.
    assert_eq!(pretokenize_with(s, false), vec![(0, 3), (3, 9)]);
    for t in ["Hello world", "a++b  c\n\nd", "你好 1234"] {
        assert_eq!(pretokenize_with(t, true), pretokenize_with(t, false));
        assert_eq!(pretokenize_with(t, true), pretokenize(t));
    }
}

/// The leftmost, longest added token is one id, and what is round it is encoded on its own.
#[test]
fn an_added_token_cuts_the_text() {
    let mut tk = byte_only();
    tk.absorb_added_tokens(&[("<a>".into(), 300), ("<a>b".into(), 301), ("b<".into(), 302)]);
    for (text, a, id, b) in [
        ("hey <a> you", "hey ", 300, " you"),
        ("<a>b<a>", "", 301, "<a>"),
        ("it's b<a>", "it's ", 302, "a>"),
        ("e\u{301} x<a>o\u{308}<a>", "é x", 300, "ö<a>"),
    ] {
        let mut want = tk.encode(a);
        want.push(id);
        want.extend(tk.encode(b));
        assert_eq!(tk.encode(text), want, "{text}");
    }
}

/// New texts are counted once and take the id of their first occurrence; what was there stays.
#[test]
fn absorbing_adds_what_is_new() {
    let mut tk = byte_only();
    assert_eq!(tk.absorb_added_tokens(&[("<old>".into(), 300)]), 1);
    let extra: Vec<(String, u32)> =
        [("<x>", 400), ("<old>", 401), ("<x>", 402), ("<y>", 65)].map(|(t, i)| (t.into(), i)).into();
    let marks = tk.marks_join_letters();
    assert_eq!(tk.absorb_added_tokens(&extra), 2);
    assert_eq!(tk.added_tokens(), 3);
    assert_eq!(tk.encode("<x><old><y>"), vec![400, 300, 65]);
    // An id that has a string keeps it.
    assert_eq!(tk.token_str(65), Some("A"));
    assert_eq!(tk.token_str(402), None);
    assert_eq!(tk.marks_join_letters(), marks);
    assert_eq!(tk.absorb_added_tokens(&extra), 0);
    assert_eq!(tk.encode("<x><old><y>"), vec![400, 300, 65]);
}

/// The normalizer's text is that of its section in the document, written canonically: keys in
/// order, and numbers as they are written there.
#[test]
fn the_normalizer_text_is_that_of_the_section() {
    let doc = good().replace(
        "\"normalizer\":{\"type\":\"NFC\"}",
        "\"normalizer\": {\"type\": \"NFC\", \"note\": [1e5, 0.1, \"\u{e9}\\n\", {}]}",
    );
    let (_, info) = Tokenizer::from_slice(doc.as_bytes(), "t.json").unwrap();
    assert_eq!(
        info.normalizer,
        "{\"note\":[100000.0,0.1,\"\u{e9}\\n\",{}],\"type\":\"NFC\"}"
    );
}

/// Added tokens are tried longest first, however the document lists them and whatever is
/// spelled in them.
#[test]
fn loaded_tokens_are_tried_longest_first() {
    let doc = document(
        "",
        "",
        "{\"content\":\"<a\",\"id\":300},{\"content\":\"<a\u{e9}>\",\"id\":301}",
        PRETOKENIZE_REGEX_WITH_MARKS,
    );
    let (tk, _) = Tokenizer::from_slice(doc.as_bytes(), "t.json").unwrap();
    assert_eq!(tk.encode("<a\u{e9}>"), vec![301]);
    assert_eq!(tk.encode("<a"), vec![300]);
}
