//! Building a tokenizer from a `tokenizer.json`, and applying a `tokenizer_config.json`.
//!
//! The pipeline is validated rather than assumed: the model type, the normalizer, the
//! pre-tokenizer's regex and the decoder are each checked against what this crate does,
//! because a tokenizer that silently applies a different pipeline produces the wrong ids
//! and no error.
use super::added;
use super::added::ordered;
use super::model;
use super::model::{Tokenizer, TokenizerModel};
use super::vocabulary;
use super::vocabulary::{
    build_slots, build_vocab, fill, get_text, get_text_or_empty, read_added, read_byte_ids,
    read_merges, read_vocab, room_of, slot_strings, stored_entries,
};
use crate::pyjson::parse_exact;
use crate::pyjson::reader;
use crate::pyjson::sections;
use crate::pyjson::sections::find_member_text;
use crate::pyjson::value;
use crate::pyjson::value::{Json, Value};
use crate::text;
use crate::text::{push_decimal, push_text, same_text, str_chars, strip_prefix, to_owned_text};
use vstd::prelude::*;

verus! {

broadcast use vstd::std_specs::hash::group_hash_axioms;

/// The pre-tokenizer pattern used by `tokenizer.json` and by
/// `transformers/models/qwen3_5/tokenization_qwen3_5.py`.
///
/// Alternative 2 is `[^\r\n\p{L}\p{N}]?[\p{L}\p{M}]+`, so combining marks join the
/// letters around them.
pub const PRETOKENIZE_REGEX_WITH_MARKS: &'static str = r"(?i:'s|'t|'re|'ve|'m|'ll|'d)|[^\r\n\p{L}\p{N}]?[\p{L}\p{M}]+|\p{N}| ?[^\s\p{L}\p{M}\p{N}]+[\r\n]*|\s*[\r\n]+|\s+(?!\S)|\s+";

/// The pattern used by `transformers/models/qwen2/tokenization_qwen2.py`.
///
/// Alternative 2 is `[^\r\n\p{L}\p{N}]?\p{L}+` and alternative 4 is
/// ` ?[^\s\p{L}\p{N}]+[\r\n]*`: a combining mark is a symbol of its own and ends the
/// letters in front of it.
///
/// # Why both exist
///
/// A checkpoint can ship both, and then they disagree. Where its `tokenizer_config.json`
/// says `"tokenizer_class": "Qwen2Tokenizer"`, `transformers`' `AutoTokenizer` honours
/// that: it instantiates the Qwen2 class, which **rebuilds the pre-tokenizer from its
/// own hardcoded pattern** and so discards the `\p{M}` in `tokenizer.json`. Loading
/// `tokenizer.json` with the `tokenizers` library directly keeps `\p{M}`.
///
/// The two agree on ASCII, on CJK and on whitespace, and differ only where a combining
/// mark follows a letter.
pub const PRETOKENIZE_REGEX_NO_MARKS: &'static str = r"(?i:'s|'t|'re|'ve|'m|'ll|'d)|[^\r\n\p{L}\p{N}]?\p{L}+|\p{N}| ?[^\s\p{L}\p{N}]+[\r\n]*|\s*[\r\n]+|\s+(?!\S)|\s+";

/// What the loader found, for reporting.
#[derive(Debug, Clone)]
pub struct TokenizerInfo {
    pub model_type: String,
    pub vocab_size: usize,
    pub merges: usize,
    pub added_tokens: usize,
    pub normalizer: String,
    pub pre_tokenizer: String,
    pub decoder: String,
    pub byte_characters_missing_from_vocab: usize,
    /// "with marks" or "without marks", naming which shipped pattern matched.
    pub pattern_variant: &'static str,
}

/// What a [`TokenizerInfo`] says.
pub ghost struct InfoModel {
    pub model_type: Seq<char>,
    pub vocab_size: nat,
    pub merges: nat,
    pub added_tokens: nat,
    pub normalizer: Seq<char>,
    pub pre_tokenizer: Seq<char>,
    pub decoder: Seq<char>,
    pub byte_characters_missing_from_vocab: nat,
    pub pattern_variant: Seq<char>,
}

impl View for TokenizerInfo {
    type V = InfoModel;

    open spec fn view(&self) -> InfoModel {
        InfoModel {
            model_type: self.model_type@,
            vocab_size: self.vocab_size as nat,
            merges: self.merges as nat,
            added_tokens: self.added_tokens as nat,
            normalizer: self.normalizer@,
            pre_tokenizer: self.pre_tokenizer@,
            decoder: self.decoder@,
            byte_characters_missing_from_vocab: self.byte_characters_missing_from_vocab as nat,
            pattern_variant: self.pattern_variant@,
        }
    }
}

// ---------------------------------------------------------------------------
// what is read
// ---------------------------------------------------------------------------
/// What is wrong with the model section, apart from its tables.
pub open spec fn model_fault(model: Json) -> Option<Seq<char>> {
    let model_type = vocabulary::text_or_empty(model, "type"@);
    if model_type != "BPE"@ {
        Some("model type is `"@ + model_type + "`, this implementation is BPE"@)
    } else if model.member("byte_fallback"@) == Some(Json::Bool(true)) {
        Some(
            "byte_fallback is set; this implementation assumes byte-level characters are in the vocabulary"@,
        )
    } else {
        match vocabulary::text_member(model, "unk_token"@) {
            Some(unk) => Some("unk_token is `"@ + unk + "`; byte-level BPE should need none"@),
            None => None,
        }
    }
}

/// The tables of a tokenizer.
#[verifier::ext_equal]
pub ghost struct Tables {
    pub byte_ids: Seq<u32>,
    pub tokens: Seq<Seq<char>>,
    pub merges: Map<u64, (u32, u32)>,
    pub added: Seq<(Seq<char>, u32)>,
    pub vocab: Map<Seq<char>, u32>,
}

/// The tables, from the entries of the vocabulary and the added tokens.
pub open spec fn tables_of(
    model: Json,
    entries: Seq<(Seq<char>, int)>,
    more: Seq<(Seq<char>, int)>,
) -> Result<Tables, Seq<char>> {
    let vocab = vocabulary::vocab_map(entries);
    let list = added::in_order(vocabulary::stored(more));
    let room = vocabulary::room_for(entries + more);
    let missing = vocabulary::missing_below(vocab, 256);
    if room > usize::MAX {
        Err("an id is too large to count up to"@)
    } else if missing > 0 {
        Err(
            text::decimal(missing)
                + " of the 256 byte-level characters are absent from the vocabulary; a byte-level BPE must contain all of them"@,
        )
    } else {
        match model.member("merges"@) {
            Some(Json::Array(a)) => match vocabulary::merge_table(a, vocab) {
                Err(e) => Err(e),
                Ok(merges) => Ok(
                    Tables {
                        byte_ids: vocabulary::byte_ids(vocab),
                        tokens: vocabulary::slot_texts(
                            vocabulary::fill_slots(
                                vocabulary::vocab_slots(entries, vocab, room as nat),
                                list,
                            ),
                        ),
                        merges,
                        added: list,
                        vocab,
                    },
                ),
            },
            _ => Err("no `model.merges`"@),
        }
    }
}

/// The tables of a document.
pub open spec fn tables_in(doc: Json, model: Json) -> Result<Tables, Seq<char>> {
    match model.member("vocab"@) {
        Some(Json::Object(m)) => match vocabulary::vocab_entries(m) {
            Err(e) => Err(e),
            Ok(entries) => {
                let more = match doc.member("added_tokens"@) {
                    Some(Json::Array(a)) => vocabulary::added_entries(a),
                    _ => Ok(seq![]),
                };
                match more {
                    Err(e) => Err(e),
                    Ok(more) => tables_of(model, entries, more),
                }
            },
        },
        _ => Err("no `model.vocab`"@),
    }
}

/// The `type` of the member named `key`, and nothing where it has none.
pub open spec fn type_of(doc: Json, key: Seq<char>) -> Seq<char> {
    match doc.member(key) {
        Some(v) => vocabulary::text_or_empty(v, "type"@),
        None => seq![],
    }
}

/// The pattern of a `Split` pre-tokenizer.
pub open spec fn split_pattern(v: Json) -> Option<Seq<char>> {
    match v.member("pattern"@) {
        Some(p) => vocabulary::text_member(p, "Regex"@),
        None => None,
    }
}

/// The two pre-tokenizers: the pattern of the first and the type of the second.
pub open spec fn pre_tokenizers(doc: Json) -> Result<(Seq<char>, Seq<char>), Seq<char>> {
    match doc.member("pre_tokenizer"@) {
        None => Err("no `pre_tokenizer`"@),
        Some(pre) => match pre.member("pretokenizers"@) {
            Some(Json::Array(subs)) => if subs.len() != 2 {
                Err(
                    "expected 2 pre-tokenizers (Split, ByteLevel), found "@ + text::decimal(
                        subs.len(),
                    ),
                )
            } else {
                match split_pattern(subs[0]) {
                    Some(regex) => Ok((regex, vocabulary::text_or_empty(subs[1], "type"@))),
                    None => Err("the first pre-tokenizer is not a Regex Split"@),
                }
            },
            _ => Err("`pre_tokenizer` is not a Sequence"@),
        },
    }
}

/// The message for a pattern that the scanner does not have.
pub open spec fn unknown_pattern(regex: Seq<char>) -> Seq<char> {
    "the pre-tokenizer regex matches neither pattern this scanner implements.\n  checkpoint: "@
        + regex + "\n  with marks:    "@ + PRETOKENIZE_REGEX_WITH_MARKS@ + "\n  without marks: "@
        + PRETOKENIZE_REGEX_NO_MARKS@
}

/// The pipeline: the pattern, and whether its marks join letters. Either shipped pattern is
/// accepted; anything else is refused, because every alternative is load-bearing and a
/// near-miss would tokenize silently wrong.
pub open spec fn pipeline(doc: Json) -> Result<(Seq<char>, bool), Seq<char>> {
    let normalizer = type_of(doc, "normalizer"@);
    let decoder = type_of(doc, "decoder"@);
    if normalizer != "NFC"@ {
        Err("normalizer is `"@ + normalizer + "`, this implementation performs NFC only"@)
    } else {
        match pre_tokenizers(doc) {
            Err(e) => Err(e),
            Ok((regex, second)) => if regex != PRETOKENIZE_REGEX_WITH_MARKS@ && regex
                != PRETOKENIZE_REGEX_NO_MARKS@ {
                Err(unknown_pattern(regex))
            } else if second != "ByteLevel"@ {
                Err("the second pre-tokenizer is `"@ + second + "`, expected ByteLevel"@)
            } else if decoder != "ByteLevel"@ {
                Err("decoder is `"@ + decoder + "`, expected ByteLevel"@)
            } else {
                Ok((regex, regex == PRETOKENIZE_REGEX_WITH_MARKS@))
            },
        }
    }
}

/// The tokenizer that a document describes, and what was found. `normalizer` is the text
/// of its normalizer section.
pub open spec fn loaded(doc: Json, normalizer: Seq<char>) -> Result<
    (TokenizerModel, InfoModel),
    Seq<char>,
> {
    match doc.member("model"@) {
        None => Err("no `model`"@),
        Some(model) => match model_fault(model) {
            Some(e) => Err(e),
            None => match tables_in(doc, model) {
                Err(e) => Err(e),
                Ok(t) => match pipeline(doc) {
                    Err(e) => Err(e),
                    Ok((regex, marks)) => Ok(
                        (
                            TokenizerModel {
                                byte_ids: t.byte_ids,
                                tokens: t.tokens,
                                merges: t.merges,
                                added: t.added,
                                marks,
                            },
                            InfoModel {
                                model_type: "BPE"@,
                                vocab_size: t.vocab.len(),
                                merges: t.merges.len(),
                                added_tokens: t.added.len(),
                                normalizer,
                                pre_tokenizer: regex,
                                decoder: "ByteLevel"@,
                                byte_characters_missing_from_vocab: 0,
                                pattern_variant: if marks {
                                    "with marks"@
                                } else {
                                    "without marks"@
                                },
                            },
                        ),
                    ),
                },
            },
        },
    }
}

/// A message about the file at `path`.
pub open spec fn about(path: Seq<char>, message: Seq<char>) -> Seq<char> {
    path + ": "@ + message
}

/// A document in its canonical form, and what is wrong with it where it is none: without
/// white space, with each key once and the keys in order.
pub uninterp spec fn canonical_json(raw: Seq<u8>) -> Result<Seq<char>, Seq<char>>;

/// `serde_json::from_slice::<serde_json::Value>`, with the value written by its
/// `to_string` and the error by its own. The result depends on the bytes alone, and
/// `canonical_json` names it; nothing is said here of the grammar that it follows.
#[verifier::external_body]
fn canonical(raw: &[u8]) -> (r: Result<String, String>)
    ensures
        match (r, canonical_json(raw@)) {
            (Ok(t), Ok(s)) => t@ == s,
            (Err(e), Err(s)) => e@ == s,
            _ => false,
        },
{
    match serde_json::from_slice::<serde_json::Value>(raw) {
        Ok(v) => Ok(v.to_string()),
        Err(e) => Err(e.to_string()),
    }
}

/// The document in `raw`.
pub open spec fn document_in(raw: Seq<u8>) -> Result<Json, Seq<char>> {
    match canonical_json(raw) {
        Err(e) => Err(e),
        Ok(s) => reader::document(s),
    }
}

/// The text of the normalizer section, as it stands in the canonical text of a document.
pub open spec fn normalizer_text(canonical: Seq<char>) -> Seq<char> {
    match sections::member_text(canonical, "normalizer"@) {
        None => "null"@,
        Some(s) => s,
    }
}

/// The tokenizer that the bytes of a `tokenizer.json` describe.
pub open spec fn loaded_bytes(raw: Seq<u8>) -> Result<(TokenizerModel, InfoModel), Seq<char>> {
    match canonical_json(raw) {
        Err(e) => Err(e),
        Ok(s) => match reader::document(s) {
            Err(e) => Err(e),
            Ok(doc) => loaded(doc, normalizer_text(s)),
        },
    }
}

// ---------------------------------------------------------------------------
// reading it
// ---------------------------------------------------------------------------
/// `{a}{b}{c}`
fn joined(a: &str, b: &str, c: &str) -> (r: String)
    ensures
        r@ == a@ + b@ + c@,
{
    let mut out = to_owned_text(a);
    push_text(&mut out, b);
    push_text(&mut out, c);
    out
}

/// A message about the file at `path`.
fn message_about(path: &str, message: &str) -> (r: String)
    ensures
        r@ == about(path@, message@),
{
    joined(path, ": ", message)
}

/// What is wrong with the model section, apart from its tables.
fn find_model_fault(model: &Value) -> (r: Option<String>)
    ensures
        match r {
            Some(e) => model_fault(model@) == Some(e@),
            None => model_fault(model@) is None,
        },
{
    let model_type = get_text_or_empty(model, "type");
    if !same_text(model_type, "BPE") {
        return Some(joined("model type is `", model_type, "`, this implementation is BPE"));
    }
    let fallback: bool = match model.get("byte_fallback") {
        Some(v) => match v.as_bool() {
            Some(b) => b,
            None => false,
        },
        None => false,
    };
    if fallback {
        return Some(
            to_owned_text(
                "byte_fallback is set; this implementation assumes byte-level characters are in the vocabulary",
            ),
        );
    }
    match get_text(model, "unk_token") {
        Some(unk) => Some(joined("unk_token is `", unk, "`; byte-level BPE should need none")),
        None => None,
    }
}

/// The tables of a tokenizer, as they are built.
struct Built {
    tokenizer: Tokenizer,
    vocab_size: usize,
    merges: usize,
    added_tokens: usize,
}

/// Whether `b` holds the tables `t`, with that mark handling.
spec fn holds_tables(b: Built, t: Tables) -> bool {
    &&& b.tokenizer@ == (TokenizerModel {
        byte_ids: t.byte_ids,
        tokens: t.tokens,
        merges: t.merges,
        added: t.added,
        marks: true,
    })
    &&& b.vocab_size == t.vocab.len()
    &&& b.merges == t.merges.len()
    &&& b.added_tokens == t.added.len()
}

/// The ids of the added tokens have room.
pub proof fn lemma_added_room(
    entries: Seq<(Seq<char>, int)>,
    more: Seq<(Seq<char>, int)>,
)
    requires
        forall|k: int| 0 <= k < more.len() ==> 0 <= (#[trigger] more[k]).1,
    ensures
        vocabulary::room_for(entries) <= vocabulary::room_for(entries + more),
        forall|k: int|
            0 <= k < more.len() ==> (#[trigger] added::in_order(vocabulary::stored(more))[k]).1
                < vocabulary::room_for(entries + more),
        added::in_order(vocabulary::stored(more)).len() == more.len(),
{
    let all = entries + more;
    vocabulary::lemma_room_prefix(all, entries.len() as int);
    assert(all.take(entries.len() as int) =~= entries);
    let list = vocabulary::stored(more);
    super::laws::lemma_in_order_len(list);
    assert forall|k: int| 0 <= k < more.len() implies (#[trigger] added::in_order(list)[k]).1
        < vocabulary::room_for(all) by {
        super::laws::lemma_in_order_from(list, k);
        let j = choose|j: int| 0 <= j < list.len() && added::in_order(list)[k] == #[trigger] list[j];
        vocabulary::lemma_room(all, entries.len() + j);
        assert(all[entries.len() + j] == more[j]);
        assert(vocabulary::word(more[j].1) <= more[j].1);
    }
}

/// The tables of a document.
fn read_tables(doc: &Value, model_section: &Value) -> (r: Result<Built, String>)
    ensures
        match (r, tables_in(doc@, model_section@)) {
            (Ok(b), Ok(t)) => holds_tables(b, t),
            (Err(e), Err(s)) => e@ == s,
            _ => false,
        },
{
    let kv: &Vec<(String, Value)> = match model_section.get("vocab") {
        Some(Value::Object(kv)) => {
            proof {
                value::lemma_object_view(*kv);
            }
            kv
        },
        _ => {
            return Err(to_owned_text("no `model.vocab`"));
        },
    };
    let mut entries: Vec<(String, u64)> = match read_vocab(kv) {
        Ok(v) => v,
        Err(e) => {
            return Err(e);
        },
    };
    let mut more: Vec<(String, u64)> = match doc.get("added_tokens") {
        Some(v) => match v.as_array() {
            Some(a) => match read_added(a) {
                Ok(m) => m,
                Err(e) => {
                    return Err(e);
                },
            },
            None => Vec::new(),
        },
        None => Vec::new(),
    };
    let ghost e = vocabulary::entries_view(entries@);
    let ghost m = vocabulary::entries_view(more@);
    proof {
        if more@.len() == 0 {
            assert(m =~= seq![]);
        }
        lemma_added_room(e, m);
    }
    let stored = stored_entries(&more);
    let list = ordered(stored.as_slice());
    let vocab = build_vocab(&entries);
    let count: usize = entries.len();
    entries.append(&mut more);
    proof {
        assert(vocabulary::entries_view(entries@) =~= e + m);
    }
    let room: usize = match room_of(&entries) {
        Some(n) => n,
        None => {
            return Err(to_owned_text("an id is too large to count up to"));
        },
    };
    entries.truncate(count);
    proof {
        assert(vocabulary::entries_view(entries@) =~= e);
    }
    let (byte_char_id, missing) = read_byte_ids(&vocab);
    if missing > 0 {
        let mut out = String::new();
        push_decimal(&mut out, missing as u128);
        push_text(
            &mut out,
            " of the 256 byte-level characters are absent from the vocabulary; a byte-level BPE must contain all of them",
        );
        return Err(out);
    }
    let merges_list: &[Value] = match model_section.get("merges") {
        Some(v) => match v.as_array() {
            Some(a) => a,
            None => {
                return Err(to_owned_text("no `model.merges`"));
            },
        },
        None => {
            return Err(to_owned_text("no `model.merges`"));
        },
    };
    let merge = match read_merges(merges_list, &vocab) {
        Ok(t) => t,
        Err(e) => {
            return Err(e);
        },
    };
    let mut slots = build_slots(&entries, &vocab, room);
    proof {
        let view = added::added_view(list@);
        assert forall|k: int| 0 <= k < list.len() implies (#[trigger] list[k]).1 < slots.len() by {
            assert(view[k].1 == list[k].1);
        }
    }
    fill(&mut slots, &list);
    let id_to_token = slot_strings(&slots);
    let vocab_size: usize = vocab.len();
    let merges: usize = merge.len();
    let added_tokens: usize = list.len();
    Ok(
        Built {
            tokenizer: Tokenizer::new(byte_char_id, id_to_token, merge, list, true),
            vocab_size,
            merges,
            added_tokens,
        },
    )
}

/// The `type` of the member named `key`, and nothing where it has none.
fn get_type<'a>(doc: &'a Value, key: &str) -> (r: &'a str)
    ensures
        r@ == type_of(doc@, key@),
{
    match doc.get(key) {
        Some(v) => get_text_or_empty(v, "type"),
        None => {
            proof {
                reveal_strlit("");
            }
            let empty: &'static str = "";
            assert(empty@ =~= seq![]);
            empty
        },
    }
}

/// The two pre-tokenizers: the pattern of the first and the type of the second.
fn read_pre_tokenizers<'a>(doc: &'a Value) -> (r: Result<(&'a str, &'a str), String>)
    ensures
        match (r, pre_tokenizers(doc@)) {
            (Ok(p), Ok(s)) => (p.0@, p.1@) == s,
            (Err(e), Err(s)) => e@ == s,
            _ => false,
        },
{
    let pre: &Value = match doc.get("pre_tokenizer") {
        Some(v) => v,
        None => {
            return Err(to_owned_text("no `pre_tokenizer`"));
        },
    };
    let list: Option<&[Value]> = match pre.get("pretokenizers") {
        Some(v) => v.as_array(),
        None => None,
    };
    let subs: &[Value] = match list {
        Some(a) => a,
        None => {
            return Err(to_owned_text("`pre_tokenizer` is not a Sequence"));
        },
    };
    if subs.len() != 2 {
        let mut out = to_owned_text("expected 2 pre-tokenizers (Split, ByteLevel), found ");
        push_decimal(&mut out, subs.len() as u128);
        return Err(out);
    }
    let regex: Option<&str> = match subs[0].get("pattern") {
        Some(p) => get_text(p, "Regex"),
        None => None,
    };
    match regex {
        Some(s) => Ok((s, get_text_or_empty(&subs[1], "type"))),
        None => Err(to_owned_text("the first pre-tokenizer is not a Regex Split")),
    }
}

/// The message for a pattern that the scanner does not have.
fn unknown_pattern_message(regex: &str) -> (r: String)
    ensures
        r@ == unknown_pattern(regex@),
{
    let mut out = to_owned_text(
        "the pre-tokenizer regex matches neither pattern this scanner implements.\n  checkpoint: ",
    );
    push_text(&mut out, regex);
    push_text(&mut out, "\n  with marks:    ");
    push_text(&mut out, PRETOKENIZE_REGEX_WITH_MARKS);
    push_text(&mut out, "\n  without marks: ");
    push_text(&mut out, PRETOKENIZE_REGEX_NO_MARKS);
    out
}

/// The pipeline: the pattern, and whether its marks join letters.
fn read_pipeline<'a>(doc: &'a Value) -> (r: Result<(&'a str, bool), String>)
    ensures
        match (r, pipeline(doc@)) {
            (Ok(p), Ok(s)) => (p.0@, p.1) == s,
            (Err(e), Err(s)) => e@ == s,
            _ => false,
        },
{
    let normalizer = get_type(doc, "normalizer");
    if !same_text(normalizer, "NFC") {
        return Err(
            joined("normalizer is `", normalizer, "`, this implementation performs NFC only"),
        );
    }
    let (regex, second) = match read_pre_tokenizers(doc) {
        Ok(p) => p,
        Err(e) => {
            return Err(e);
        },
    };
    let marks: bool = same_text(regex, PRETOKENIZE_REGEX_WITH_MARKS);
    if !marks && !same_text(regex, PRETOKENIZE_REGEX_NO_MARKS) {
        return Err(unknown_pattern_message(regex));
    }
    if !same_text(second, "ByteLevel") {
        return Err(joined("the second pre-tokenizer is `", second, "`, expected ByteLevel"));
    }
    let decoder = get_type(doc, "decoder");
    if !same_text(decoder, "ByteLevel") {
        return Err(joined("decoder is `", decoder, "`, expected ByteLevel"));
    }
    Ok((regex, marks))
}

/// The tokenizer that a document describes, with errors that do not name the file.
fn read_document(doc: &Value, normalizer: &str) -> (r: Result<(Tokenizer, TokenizerInfo), String>)
    ensures
        match (r, loaded(doc@, normalizer@)) {
            (Ok((t, i)), Ok((m, s))) => t@ == m && i@ == s,
            (Err(e), Err(s)) => e@ == s,
            _ => false,
        },
{
    let section: &Value = match doc.get("model") {
        Some(v) => v,
        None => {
            return Err(to_owned_text("no `model`"));
        },
    };
    if let Some(e) = find_model_fault(section) {
        return Err(e);
    }
    let built = match read_tables(doc, section) {
        Ok(b) => b,
        Err(e) => {
            return Err(e);
        },
    };
    let (regex, marks) = match read_pipeline(doc) {
        Ok(p) => p,
        Err(e) => {
            return Err(e);
        },
    };
    let mut tokenizer = built.tokenizer;
    tokenizer.set_marks_join_letters(marks);
    let info = TokenizerInfo {
        model_type: to_owned_text("BPE"),
        vocab_size: built.vocab_size,
        merges: built.merges,
        added_tokens: built.added_tokens,
        normalizer: to_owned_text(normalizer),
        pre_tokenizer: to_owned_text(regex),
        decoder: to_owned_text("ByteLevel"),
        byte_characters_missing_from_vocab: 0,
        pattern_variant: if marks {
            "with marks"
        } else {
            "without marks"
        },
    };
    Ok((tokenizer, info))
}

impl Tokenizer {
    /// The tokenizer that a `tokenizer.json` describes. `normalizer` is the text of its
    /// normalizer section, and `path` names the file in messages.
    pub fn from_document(doc: &Value, normalizer: &str, path: &str) -> (r: Result<
        (Tokenizer, TokenizerInfo),
        String,
    >)
        ensures
            match (r, loaded(doc@, normalizer@)) {
                (Ok((t, i)), Ok((m, s))) => t@ == m && i@ == s,
                (Err(e), Err(s)) => e@ == about(path@, s),
                _ => false,
            },
    {
        match read_document(doc, normalizer) {
            Ok(p) => Ok(p),
            Err(e) => Err(message_about(path, e.as_str())),
        }
    }

    /// The tokenizer that the bytes of a `tokenizer.json` describe. `path` names the file
    /// in messages.
    pub fn from_slice(raw: &[u8], path: &str) -> (r: Result<(Tokenizer, TokenizerInfo), String>)
        ensures
            match (r, loaded_bytes(raw@)) {
                (Ok((t, i)), Ok((m, s))) => t@ == m && i@ == s,
                (Err(e), Err(s)) => e@ == about(path@, s),
                _ => false,
            },
    {
        let written = match canonical(raw) {
            Ok(s) => s,
            Err(e) => {
                return Err(message_about(path, e.as_str()));
            },
        };
        let doc = match parse_exact(written.as_str()) {
            Ok(d) => d,
            Err(e) => {
                return Err(message_about(path, e.as_str()));
            },
        };
        let normalizer: String = match find_member_text(written.as_str(), "normalizer") {
            None => to_owned_text("null"),
            Some(s) => s,
        };
        Tokenizer::from_document(&doc, normalizer.as_str(), path)
    }
}

/// The document in `raw`.
fn read_json(raw: &[u8]) -> (r: Result<Value, String>)
    ensures
        match (r, document_in(raw@)) {
            (Ok(v), Ok(j)) => v@ == j,
            (Err(e), Err(s)) => e@ == s,
            _ => false,
        },
{
    match canonical(raw) {
        Ok(s) => parse_exact(s.as_str()),
        Err(e) => Err(e),
    }
}

// ---------------------------------------------------------------------------
// the config
// ---------------------------------------------------------------------------
/// Whether `s` is one or more ASCII digits.
pub open spec fn all_digits(s: Seq<char>) -> bool {
    s.len() > 0 && forall|k: int| 0 <= k < s.len() ==> '0' <= #[trigger] s[k] <= '9'
}

/// The number that a run of digits writes.
pub open spec fn digits_value(s: Seq<char>) -> int
    decreases s.len(),
{
    if s.len() == 0 {
        0
    } else {
        digits_value(s.drop_last()) * 10 + (s.last() as int - '0' as int)
    }
}

/// The `u32` that `s` writes, where it writes one: decimal digits, with a `+` in front at
/// most.
pub open spec fn written_u32(s: Seq<char>) -> Option<u32> {
    let digits = if s.len() > 0 && s[0] == '+' {
        s.drop_first()
    } else {
        s
    };
    if all_digits(digits) && digits_value(digits) <= u32::MAX {
        Some(digits_value(digits) as u32)
    } else {
        None
    }
}

/// The text of an entry of `added_tokens_decoder`: either the modern `{"content": ...}`
/// shape or a bare string.
pub open spec fn decoder_text(v: Json) -> Option<Seq<char>> {
    match v {
        Json::Str(s) => Some(s),
        _ => vocabulary::text_member(v, "content"@),
    }
}

/// The tokens of an `added_tokens_decoder`, which is keyed by id, as a string. A key that
/// is no id and an entry without a text are passed over.
pub open spec fn decoder_tokens(m: Seq<(Seq<char>, Json)>) -> Seq<(Seq<char>, u32)>
    decreases m.len(),
{
    if m.len() == 0 {
        seq![]
    } else {
        let before = decoder_tokens(m.drop_last());
        match (written_u32(m.last().0), decoder_text(m.last().1)) {
            (Some(id), Some(t)) => before.push((t, id)),
            _ => before,
        }
    }
}

/// The tokens that a config adds.
pub open spec fn config_tokens(doc: Json) -> Seq<(Seq<char>, u32)> {
    match doc.member("added_tokens_decoder"@) {
        Some(Json::Object(m)) => decoder_tokens(m),
        _ => seq![],
    }
}

/// Whether the ids of the tokens can be counted up to.
pub open spec fn ids_fit(list: Seq<(Seq<char>, u32)>) -> bool {
    forall|k: int| 0 <= k < list.len() ==> (#[trigger] list[k]).1 < usize::MAX
}

/// The tokenizer once a config has been applied to it. A Qwen2 tokenizer class carries
/// its own pattern, without `\p{M}`, and that pattern is what actually runs. Anything else
/// keeps the file's pattern.
pub open spec fn configured(m: TokenizerModel, doc: Json) -> TokenizerModel {
    let with_tokens = if doc.member("added_tokens_decoder"@) is Some
        && doc.member("added_tokens_decoder"@)->0 is Object {
        model::absorbed(m, config_tokens(doc))
    } else {
        m
    };
    if text::has_prefix(vocabulary::text_or_empty(doc, "tokenizer_class"@), "Qwen2"@) {
        TokenizerModel { marks: false, ..with_tokens }
    } else {
        with_tokens
    }
}

/// What is written in a run of digits, where it fits.
pub fn read_u32(s: &str) -> (r: Option<u32>)
    ensures
        r == written_u32(s@),
{
    let c = str_chars(s);
    let from: usize = if c.len() > 0 && c[0] == '+' {
        1
    } else {
        0
    };
    let ghost digits = c@.skip(from as int);
    proof {
        assert(digits =~= if s@.len() > 0 && s@[0] == '+' {
            s@.drop_first()
        } else {
            s@
        });
    }
    let mut n: u64 = 0;
    let mut i: usize = from;
    while i < c.len()
        invariant
            from <= i <= c.len(),
            digits == c@.skip(from as int),
            digits == if s@.len() > 0 && s@[0] == '+' {
                s@.drop_first()
            } else {
                s@
            },
            n == digits_value(digits.take(i - from)),
            n <= u32::MAX,
            forall|k: int| 0 <= k < i - from ==> '0' <= #[trigger] digits[k] <= '9',
        decreases c.len() - i,
    {
        let x: char = c[i];
        proof {
            assert(digits[i - from] == x);
            assert(digits.take(i - from + 1).drop_last() =~= digits.take(i - from));
            assert(digits.take(i - from + 1).last() == x);
        }
        if !('0' <= x && x <= '9') {
            return None;
        }
        n = n * 10 + (x as u64 - '0' as u64);
        i += 1;
        if n > u32::MAX as u64 {
            proof {
                if all_digits(digits) {
                    lemma_digits_grow(digits, i - from);
                }
            }
            return None;
        }
    }
    assert(digits.take(i - from) =~= digits);
    if i == from {
        None
    } else {
        Some(n as u32)
    }
}

proof fn lemma_digits_grow(s: Seq<char>, n: int)
    requires
        0 <= n <= s.len(),
        forall|k: int| 0 <= k < s.len() ==> '0' <= #[trigger] s[k] <= '9',
    ensures
        0 <= digits_value(s.take(n)) <= digits_value(s),
    decreases s.len(),
{
    if n == s.len() {
        assert(s.take(n) =~= s);
        if n > 0 {
            let shorter = s.drop_last();
            assert forall|k: int| 0 <= k < shorter.len() implies '0' <= #[trigger] shorter[k]
                <= '9' by {
                assert(shorter[k] == s[k]);
            }
            lemma_digits_grow(shorter, n - 1);
            assert(shorter.take(n - 1) =~= shorter);
            assert('0' <= s[n - 1] <= '9');
        }
    } else {
        let shorter = s.drop_last();
        assert forall|k: int| 0 <= k < shorter.len() implies '0' <= #[trigger] shorter[k]
            <= '9' by {
            assert(shorter[k] == s[k]);
        }
        lemma_digits_grow(shorter, n);
        assert(shorter.take(n) =~= s.take(n));
        assert('0' <= s[s.len() - 1] <= '9');
    }
}

/// The text of an entry of `added_tokens_decoder`.
fn read_decoder_text(v: &Value) -> (r: Option<&str>)
    ensures
        match r {
            Some(t) => decoder_text(v@) == Some(t@),
            None => decoder_text(v@) is None,
        },
{
    match v {
        Value::Str(s) => Some(s.as_str()),
        _ => get_text(v, "content"),
    }
}

/// The tokens of an `added_tokens_decoder`.
fn read_decoder(kv: &Vec<(String, Value)>) -> (r: Vec<(String, u32)>)
    ensures
        added::added_view(r@) == decoder_tokens(value::json_members(kv@)),
{
    let ghost m = value::json_members(kv@);
    let mut out: Vec<(String, u32)> = Vec::new();
    let mut i: usize = 0;
    assert(m.take(0) =~= seq![]);
    assert(added::added_view(out@) =~= seq![]);
    while i < kv.len()
        invariant
            i <= kv.len(),
            m == value::json_members(kv@),
            added::added_view(out@) == decoder_tokens(m.take(i as int)),
        decreases kv.len() - i,
    {
        let ghost before = added::added_view(out@);
        proof {
            assert(m.take(i + 1).drop_last() =~= m.take(i as int));
            assert(m.take(i + 1).last() == m[i as int]);
        }
        if let Some(id) = read_u32(kv[i].0.as_str()) {
            if let Some(t) = read_decoder_text(&kv[i].1) {
                out.push((to_owned_text(t), id));
                assert(added::added_view(out@) =~= before.push((t@, id)));
            }
        }
        i += 1;
    }
    assert(m.take(i as int) =~= m);
    out
}

/// Whether the ids of the tokens can be counted up to.
fn do_ids_fit(list: &Vec<(String, u32)>) -> (r: bool)
    ensures
        r == ids_fit(added::added_view(list@)),
{
    let ghost l = added::added_view(list@);
    let mut i: usize = 0;
    while i < list.len()
        invariant
            i <= list.len(),
            l == added::added_view(list@),
            forall|k: int| 0 <= k < i ==> (#[trigger] l[k]).1 < usize::MAX,
        decreases list.len() - i,
    {
        assert(l[i as int].1 == list[i as int].1);
        if list[i].1 as u64 >= usize::MAX as u64 {
            return false;
        }
        i += 1;
    }
    true
}

impl Tokenizer {
    /// Applies a `tokenizer_config.json` the way `AutoTokenizer` does.
    ///
    /// `tokenizer.json`'s own pattern can use `\p{M}`, but a checkpoint whose
    /// `tokenizer_class` is a Qwen2 variant is normally loaded through the class, which
    /// rebuilds the pre-tokenizer without `\p{M}`. Loading `tokenizer.json` directly
    /// and loading the model through `AutoTokenizer` therefore give different ids for
    /// text containing combining marks, and this picks the `AutoTokenizer` behaviour
    /// because that is what the model is served with.
    ///
    /// The same argument applies to added tokens; see [`Tokenizer::absorb_added_tokens`].
    ///
    /// An error leaves everything as it was. It comes where an id is too large for the
    /// machine to count up to.
    pub fn configure(&mut self, info: &mut TokenizerInfo, doc: &Value) -> (r: Result<(), String>)
        requires
            old(info)@.added_tokens == old(self)@.added.len(),
        ensures
            r is Ok <==> ids_fit(config_tokens(doc@)),
            match r {
                Ok(_) => final(self)@ == configured(old(self)@, doc@) && final(info)@ == (
                InfoModel { added_tokens: final(self)@.added.len(), ..old(info)@ }),
                Err(e) => e@ == "an id is too large to count up to"@ && final(self)@ == old(self)@
                    && final(info)@ == old(info)@,
            },
    {
        if let Some(Value::Object(kv)) = doc.get("added_tokens_decoder") {
            proof {
                value::lemma_object_view(*kv);
            }
            let extra = read_decoder(kv);
            if !do_ids_fit(&extra) {
                return Err(to_owned_text("an id is too large to count up to"));
            }
            proof {
                let l = added::added_view(extra@);
                assert forall|k: int| 0 <= k < extra.len() implies (#[trigger] extra[k]).1
                    < usize::MAX by {
                    assert(l[k].1 == extra[k].1);
                }
            }
            let _ = self.absorb_added_tokens(extra.as_slice());
            info.added_tokens = self.added_tokens();
        }
        let class = get_text_or_empty(doc, "tokenizer_class");
        let chars = str_chars(class);
        if strip_prefix(chars.as_slice(), "Qwen2").is_some() {
            self.set_marks_join_letters(false);
        }
        Ok(())
    }

    /// The same from the bytes of a `tokenizer_config.json`. `path` names the file in
    /// messages.
    pub fn configure_from_slice(
        &mut self,
        info: &mut TokenizerInfo,
        raw: &[u8],
        path: &str,
    ) -> (r: Result<(), String>)
        requires
            old(info)@.added_tokens == old(self)@.added.len(),
        ensures
            match document_in(raw@) {
                Err(s) => r is Err && r->Err_0@ == about(path@, s) && final(self)@ == old(self)@
                    && final(info)@ == old(info)@,
                Ok(doc) => {
                    &&& r is Ok <==> ids_fit(config_tokens(doc))
                    &&& match r {
                        Ok(_) => final(self)@ == configured(old(self)@, doc) && final(info)@ == (
                        InfoModel { added_tokens: final(self)@.added.len(), ..old(info)@ }),
                        Err(e) => e@ == about(path@, "an id is too large to count up to"@)
                            && final(self)@ == old(self)@ && final(info)@ == old(info)@,
                    }
                },
            },
    {
        match read_json(raw) {
            Ok(doc) => match self.configure(info, &doc) {
                Ok(_) => Ok(()),
                Err(e) => Err(message_about(path, e.as_str())),
            },
            Err(e) => Err(message_about(path, e.as_str())),
        }
    }
}

} // verus!
