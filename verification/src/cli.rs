//! What the command line says, and the chat session that it starts.
pub mod laws;

use crate::chat::message;
use crate::chat::message::{
    ContentModel, Message, MessageModel, Options, Request, RequestModel, RoleModel,
};
use crate::chatparse::parse_assistant;
use crate::chatparse::reply;
use crate::chatparse::reply::{Reply, ReplyModel};
use crate::pyjson::value;
use crate::pyjson::value::{Json, Value};
use crate::text;
use crate::text::{
    cut_text, push_text, same_text, split_once, str_chars, to_owned_text, to_text, trimmed, Class,
};
use crate::tokenizer::load;
use crate::tokenizer::load::read_u32;
use vstd::prelude::*;

verus! {

// ---------------------------------------------------------------------------
// turns
// ---------------------------------------------------------------------------
/// One turn on the command line, in the order it was written.
///
/// The order matters: `--chat a --reply b --chat c` is a three-turn conversation,
/// and the chat template renders it differently from `--chat a --chat c --reply b`
/// (which is not a conversation at all). So the arguments are walked in order
/// rather than looked up by name.
#[derive(Debug, PartialEq, Eq)]
pub enum Turn {
    System(String),
    User(String),
    Assistant(String),
    Tool(String),
}

/// The message of a turn.
pub open spec fn turn_message(t: Turn) -> MessageModel {
    match t {
        Turn::System(s) => message::plain(RoleModel::System, s@),
        Turn::User(s) => message::plain(RoleModel::User, s@),
        Turn::Assistant(s) => message::plain(RoleModel::Assistant, s@),
        Turn::Tool(s) => message::plain(RoleModel::Tool, s@),
    }
}

/// The messages of some turns.
pub open spec fn turn_messages(turns: Seq<Turn>) -> Seq<MessageModel> {
    turns.map_values(|t: Turn| turn_message(t))
}

/// Who an option lets speak.
pub open spec fn speaker(option: Seq<char>) -> Option<RoleModel> {
    if option == "--system"@ {
        Some(RoleModel::System)
    } else if option == "--chat"@ {
        Some(RoleModel::User)
    } else if option == "--reply"@ {
        Some(RoleModel::Assistant)
    } else if option == "--tool-result"@ {
        Some(RoleModel::Tool)
    } else {
        None
    }
}

/// The contents of the arguments.
pub open spec fn texts(args: Seq<String>) -> Seq<Seq<char>> {
    args.map_values(|s: String| s@)
}

/// The turns among the arguments from `i` on: each option that lets someone speak takes the
/// argument behind it, and everything else is passed over.
pub open spec fn turns_from(args: Seq<Seq<char>>, i: int) -> Result<Seq<MessageModel>, Seq<char>>
    decreases args.len() - i,
{
    if i < 0 || i >= args.len() {
        Ok(seq![])
    } else {
        match speaker(args[i]) {
            Some(role) => if i + 1 >= args.len() {
                Err(args[i] + " needs a value"@)
            } else {
                match turns_from(args, i + 2) {
                    Ok(rest) => Ok(seq![message::plain(role, args[i + 1])] + rest),
                    Err(e) => Err(e),
                }
            },
            None => turns_from(args, i + 1),
        }
    }
}

/// The turns of a command line, whose first argument is the program.
pub fn parse_turns(args: &[String]) -> (r: Result<Vec<Turn>, String>)
    ensures
        match (r, turns_from(texts(args@), 1)) {
            (Ok(t), Ok(s)) => turn_messages(t@) == s,
            (Err(e), Err(s)) => e@ == s,
            _ => false,
        },
{
    let ghost view = texts(args@);
    let mut out: Vec<Turn> = Vec::new();
    let mut i: usize = 1;
    assert(turn_messages(out@) =~= seq![]);
    proof {
        if turns_from(view, 1) is Ok {
            assert(turn_messages(out@) + turns_from(view, 1)->Ok_0 =~= turns_from(view, 1)->Ok_0);
        }
    }
    while i < args.len()
        invariant
            1 <= i,
            view == texts(args@),
            match (turns_from(view, 1), turns_from(view, i as int)) {
                (Ok(all), Ok(rest)) => all == turn_messages(out@) + rest,
                (Err(e), Err(f)) => e == f,
                _ => false,
            },
        decreases args.len() - i,
    {
        let option = args[i].as_str();
        assert(option@ == view[i as int]);
        let ghost before = turn_messages(out@);
        let ghost seen = out@;
        let system: bool = same_text(option, "--system");
        let user: bool = same_text(option, "--chat");
        let assistant: bool = same_text(option, "--reply");
        let tool: bool = same_text(option, "--tool-result");
        if system || user || assistant || tool {
            if args.len() - i < 2 {
                let mut e = to_owned_text(option);
                push_text(&mut e, " needs a value");
                return Err(e);
            }
            let said = to_owned_text(args[i + 1].as_str());
            assert(said@ == view[i + 1]);
            let turn: Turn = if system {
                Turn::System(said)
            } else if user {
                Turn::User(said)
            } else if assistant {
                Turn::Assistant(said)
            } else {
                Turn::Tool(said)
            };
            let ghost m = turn_message(turn);
            out.push(turn);
            proof {
                assert(m == message::plain(speaker(view[i as int])->0, view[i + 1]));
                assert(turn_messages(out@) =~= before.push(m));
                match turns_from(view, i + 2) {
                    Ok(rest) => {
                        assert(before + (seq![m] + rest) =~= turn_messages(out@) + rest);
                    },
                    Err(_) => {},
                }
            }
            if args.len() - i == 2 {
                proof {
                    assert(turn_messages(out@) + Seq::<MessageModel>::empty() =~= turn_messages(
                        out@,
                    ));
                }
                return Ok(out);
            }
            i += 2;
        } else {
            i += 1;
        }
    }
    assert(turn_messages(out@) + Seq::<MessageModel>::empty() =~= turn_messages(out@));
    Ok(out)
}

/// The messages of some turns.
pub fn turns_to_messages(turns: &[Turn]) -> (r: Vec<Message>)
    ensures
        message::message_models(r@) == turn_messages(turns@),
{
    let mut out: Vec<Message> = Vec::new();
    let mut i: usize = 0;
    while i < turns.len()
        invariant
            i <= turns.len(),
            out.len() == i,
            forall|k: int| 0 <= k < i ==> (#[trigger] out[k])@ == turn_message(turns[k]),
        decreases turns.len() - i,
    {
        let m = match &turns[i] {
            Turn::System(s) => Message::system(s.as_str()),
            Turn::User(s) => Message::user(s.as_str()),
            Turn::Assistant(s) => Message::assistant(s.as_str()),
            Turn::Tool(s) => Message::tool(s.as_str()),
        };
        out.push(m);
        i += 1;
    }
    assert(message::message_models(out@) =~= turn_messages(turns@));
    out
}

// ---------------------------------------------------------------------------
// lists of ids
// ---------------------------------------------------------------------------
/// The parts of a text between commas.
pub open spec fn comma_parts(s: Seq<char>) -> Seq<Seq<char>>
    decreases s.len(),
{
    if text::has_text(s, ","@) {
        proof {
            text::lemma_find_from(s, ","@, 0);
            reveal_strlit(",");
        }
        seq![text::before_first(s, ","@)] + comma_parts(text::after_first(s, ","@))
    } else {
        seq![s]
    }
}

/// What Rust's `u32::from_str` says is wrong with a text that is no `u32`.
pub uninterp spec fn number_error(s: Seq<char>) -> Seq<char>;

/// The message of the error that `str::parse::<u32>` gives for a text that writes no
/// `u32`: it depends on the text alone, and `number_error` names it. For a text that does
/// there is none.
#[verifier::external_body]
fn number_error_text(s: &str) -> (r: String)
    requires
        load::written_u32(s@) is None,
    ensures
        r@ == number_error(s@),
{
    match s.parse::<u32>() {
        Ok(n) => n.to_string(),
        Err(e) => e.to_string(),
    }
}

/// The ids that the parts write: blank parts are passed over, and white space around an id
/// does not count. The first part that is no id is an error.
pub open spec fn ids_in(parts: Seq<Seq<char>>) -> Result<Seq<u32>, Seq<char>>
    decreases parts.len(),
{
    if parts.len() == 0 {
        Ok(seq![])
    } else {
        match ids_in(parts.drop_last()) {
            Err(e) => Err(e),
            Ok(before) => {
                let p = parts.last();
                let core = text::trim(p, Class::WhiteSpace);
                if core.len() == 0 {
                    Ok(before)
                } else {
                    match load::written_u32(core) {
                        Some(id) => Ok(before.push(id)),
                        None => Err("bad token id `"@ + p + "`: "@ + number_error(core)),
                    }
                }
            },
        }
    }
}

proof fn lemma_ids_error(parts: Seq<Seq<char>>, n: int)
    requires
        0 <= n <= parts.len(),
        ids_in(parts.take(n)) is Err,
    ensures
        ids_in(parts) == ids_in(parts.take(n)),
    decreases parts.len(),
{
    if n == parts.len() {
        assert(parts.take(n) =~= parts);
    } else {
        assert(parts.drop_last().take(n) =~= parts.take(n));
        lemma_ids_error(parts.drop_last(), n);
    }
}

/// The parts of a text between commas.
fn split_at_commas(s: &[char]) -> (r: Vec<String>)
    ensures
        texts(r@) == comma_parts(s@),
{
    let mut out: Vec<String> = Vec::new();
    let mut rest: &[char] = s;
    assert(texts(out@) + comma_parts(s@) =~= comma_parts(s@));
    loop
        invariant_except_break
            comma_parts(s@) == texts(out@) + comma_parts(rest@),
        ensures
            comma_parts(s@) == texts(out@),
        decreases rest.len(),
    {
        let ghost before = texts(out@);
        match split_once(rest, ",") {
            Some((a, b)) => {
                out.push(to_text(a));
                proof {
                    assert(texts(out@) =~= before.push(a@));
                    assert(before + (seq![a@] + comma_parts(b@)) =~= texts(out@) + comma_parts(b@));
                    text::lemma_find_from(rest@, ","@, 0);
                    reveal_strlit(",");
                }
                rest = b;
            },
            None => {
                out.push(to_text(rest));
                assert(texts(out@) =~= before + seq![rest@]);
                break;
            },
        }
    }
    out
}

/// A list of ids, separated by commas.
pub fn parse_list(s: &str) -> (r: Result<Vec<u32>, String>)
    ensures
        match (r, ids_in(comma_parts(s@))) {
            (Ok(v), Ok(ids)) => v@ == ids,
            (Err(e), Err(m)) => e@ == m,
            _ => false,
        },
{
    let c = str_chars(s);
    let parts = split_at_commas(c.as_slice());
    let ghost view = texts(parts@);
    let mut out: Vec<u32> = Vec::new();
    let mut i: usize = 0;
    assert(view.take(0) =~= seq![]);
    while i < parts.len()
        invariant
            i <= parts.len(),
            view == texts(parts@),
            view == comma_parts(s@),
            ids_in(view.take(i as int)) == Ok::<_, Seq<char>>(out@),
        decreases parts.len() - i,
    {
        proof {
            assert(view.take(i + 1).drop_last() =~= view.take(i as int));
            assert(view.take(i + 1).last() == view[i as int]);
        }
        let part = str_chars(parts[i].as_str());
        let core = to_text(trimmed(part.as_slice(), Class::WhiteSpace));
        if !core.as_str().is_empty() {
            match read_u32(core.as_str()) {
                Some(id) => {
                    out.push(id);
                },
                None => {
                    let mut e = to_owned_text("bad token id `");
                    push_text(&mut e, parts[i].as_str());
                    push_text(&mut e, "`: ");
                    let why = number_error_text(core.as_str());
                    push_text(&mut e, why.as_str());
                    proof {
                        lemma_ids_error(view, i + 1);
                    }
                    return Err(e);
                },
            }
        }
        i += 1;
    }
    assert(view.take(i as int) =~= view);
    Ok(out)
}

// ---------------------------------------------------------------------------
// small things
// ---------------------------------------------------------------------------
/// The number in four bytes, the least significant first.
pub open spec fn word_at(b: Seq<u8>, i: int) -> u32 {
    (b[4 * i] + 0x100 * b[4 * i + 1] + 0x1_0000 * b[4 * i + 2] + 0x100_0000 * b[4 * i + 3]) as u32
}

/// The bits of a raw little-endian blob of 32-bit values. A trailing part of one does not
/// count.
pub fn read_words(bytes: &[u8]) -> (r: Vec<u32>)
    ensures
        r@ == Seq::new((bytes.len() / 4) as nat, |i: int| word_at(bytes@, i)),
{
    let n: usize = bytes.len() / 4;
    let mut out: Vec<u32> = Vec::new();
    let mut i: usize = 0;
    while i < n
        invariant
            n == bytes.len() / 4,
            i <= n,
            out@ == Seq::new(i as nat, |k: int| word_at(bytes@, k)),
        decreases n - i,
    {
        let w: u32 = bytes[4 * i] as u32 + 0x100 * (bytes[4 * i + 1] as u32) + 0x1_0000 * (bytes[4
            * i + 2] as u32) + 0x100_0000 * (bytes[4 * i + 3] as u32);
        out.push(w);
        i += 1;
        assert(out@ =~= Seq::new(i as nat, |k: int| word_at(bytes@, k)));
    }
    out
}

/// The same words as bytes.
pub open spec fn word_bytes(w: u32) -> Seq<u8> {
    seq![
        (w % 0x100) as u8,
        (w / 0x100 % 0x100) as u8,
        (w / 0x1_0000 % 0x100) as u8,
        (w / 0x100_0000) as u8,
    ]
}

/// The bytes of a run of words.
pub open spec fn words_bytes(words: Seq<u32>) -> Seq<u8>
    decreases words.len(),
{
    if words.len() == 0 {
        seq![]
    } else {
        words_bytes(words.drop_last()) + word_bytes(words.last())
    }
}

/// 32-bit values as a raw little-endian blob.
pub fn write_words(words: &[u32]) -> (r: Vec<u8>)
    ensures
        r@ == words_bytes(words@),
{
    let mut out: Vec<u8> = Vec::new();
    let mut i: usize = 0;
    assert(words@.take(0) =~= seq![]);
    while i < words.len()
        invariant
            i <= words.len(),
            out@ == words_bytes(words@.take(i as int)),
        decreases words.len() - i,
    {
        proof {
            assert(words@.take(i + 1).drop_last() =~= words@.take(i as int));
            assert(words@.take(i + 1).last() == words@[i as int]);
        }
        let w: u32 = words[i];
        let ghost before = out@;
        out.push((w % 0x100) as u8);
        out.push((w / 0x100 % 0x100) as u8);
        out.push((w / 0x1_0000 % 0x100) as u8);
        out.push((w / 0x100_0000) as u8);
        assert(out@ =~= before + word_bytes(w));
        i += 1;
    }
    assert(words@.take(i as int) =~= words@);
    out
}

/// A blob that was written is read back.
pub proof fn blob_round_trip(words: Seq<u32>, i: int)
    requires
        0 <= i < words.len(),
    ensures
        words_bytes(words).len() == 4 * words.len(),
        word_at(words_bytes(words), i) == words[i],
    decreases words.len(),
{
    let shorter = words.drop_last();
    let b = words_bytes(words);
    lemma_blob_len(words);
    lemma_blob_len(shorter);
    if i < shorter.len() {
        blob_round_trip(shorter, i);
        assert(shorter[i] == words[i]);
        let a = words_bytes(shorter);
        assert(b[4 * i] == a[4 * i] && b[4 * i + 1] == a[4 * i + 1] && b[4 * i + 2] == a[4 * i + 2]
            && b[4 * i + 3] == a[4 * i + 3]);
    } else {
        let w = words.last();
        let t = word_bytes(w);
        assert(b[4 * i] == t[0] && b[4 * i + 1] == t[1] && b[4 * i + 2] == t[2] && b[4 * i + 3]
            == t[3]);
    }
}

proof fn lemma_blob_len(words: Seq<u32>)
    ensures
        words_bytes(words).len() == 4 * words.len(),
    decreases words.len(),
{
    if words.len() > 0 {
        lemma_blob_len(words.drop_last());
    }
}

/// The tools that a document lists: those of an array, or the one that an object is.
pub open spec fn tools_in(doc: Json) -> Option<Seq<Json>> {
    match doc {
        Json::Array(a) => Some(a),
        Json::Object(_) => Some(seq![doc]),
        _ => None,
    }
}

/// The tools that a document lists: those of an array, or the one that an object is.
pub fn tools_of(doc: Value) -> (r: Option<Vec<Value>>)
    ensures
        match r {
            Some(v) => tools_in(doc@) == Some(value::json_items(v@)),
            None => tools_in(doc@) is None,
        },
{
    match doc {
        Value::Array(a) => {
            proof {
                value::lemma_array_view(a);
            }
            Some(a)
        },
        Value::Object(kv) => {
            let mut out: Vec<Value> = Vec::new();
            out.push(Value::Object(kv));
            assert(value::json_items(out@) =~= seq![doc@]);
            Some(out)
        },
        _ => None,
    }
}

/// How many tokens a chat turn takes at most, where the command line gives no limit.
pub const CHAT_STEPS: usize = 64;

/// How many tokens a chat turn takes at most.
pub fn chat_steps(steps: usize) -> (r: usize)
    ensures
        r == if steps == 0 {
            CHAT_STEPS
        } else {
            steps
        },
{
    if steps == 0 {
        CHAT_STEPS
    } else {
        steps
    }
}

/// A text of at most 200 bytes as it is, and a longer one cut there, between characters.
pub open spec fn shortened(s: Seq<char>) -> Seq<char> {
    if text::utf8_bytes(s) <= 200 {
        s
    } else {
        text::cut(s, 200) + "..."@
    }
}

/// A text of at most 200 bytes as it is, and a longer one cut there.
pub fn truncate(s: &str) -> (r: String)
    ensures
        r@ == shortened(s@),
{
    proof {
        text::lemma_utf8_bytes_is_encoded_len(s@);
    }
    if s.as_bytes().len() <= 200 {
        to_owned_text(s)
    } else {
        let c = str_chars(s);
        let mut out = cut_text(c.as_slice(), 200);
        push_text(&mut out, "...");
        out
    }
}

// ---------------------------------------------------------------------------
// a session
// ---------------------------------------------------------------------------
/// The token that ends a turn: the `eos_token` of the checkpoint, with which the template
/// closes every turn. It is a stop token rather than part of a reply.
pub const END_OF_TURN: u32 = 248046;

/// Whether a line ends the session: there is none, or it is blank.
pub open spec fn ends_session(line: Option<Seq<char>>) -> bool {
    match line {
        Some(s) => text::trim(s, Class::WhiteSpace).len() == 0,
        None => true,
    }
}

/// The message that goes into the history for a reply: what it says, with its reasoning, be
/// it empty, and its calls, so that the next rendering sees the conversation that was had.
pub open spec fn reply_message(r: ReplyModel) -> MessageModel {
    MessageModel {
        role: RoleModel::Assistant,
        content: ContentModel::Text(r.content),
        reasoning: Some(
            match r.reasoning {
                Some(t) => t,
                None => seq![],
            },
        ),
        tool_calls: reply::chat_calls(r.tool_calls),
    }
}

/// A conversation and what it is rendered with.
#[derive(Debug)]
pub struct Session {
    request: Request,
}

impl View for Session {
    type V = RequestModel;

    closed spec fn view(&self) -> RequestModel {
        self.request@
    }
}

impl Session {
    pub fn new(messages: Vec<Message>, tools: Vec<Value>, opts: Options) -> (r: Session)
        ensures
            r@ == (RequestModel {
                messages: message::message_models(messages@),
                tools: value::json_items(tools@),
                opts,
            }),
    {
        Session { request: Request { messages, tools, opts } }
    }

    /// What is to be rendered now.
    pub fn request(&self) -> (r: &Request)
        ensures
            r@ == self@,
    {
        &self.request
    }

    /// Takes a line from the user: `true` where the session goes on, with the line as the
    /// next turn, and `false` where it ends, and nothing is added.
    ///
    /// The next turn is read *before* anything is rendered: rendering first would have to
    /// invent a turn to render, and a greeting the user did not type is a turn they did not
    /// ask for.
    pub fn take_line(&mut self, line: Option<&str>) -> (r: bool)
        ensures
            r == !ends_session(line_text(line)),
            final(self)@ == if r {
                RequestModel {
                    messages: old(self)@.messages.push(
                        message::plain(RoleModel::User, line->0@),
                    ),
                    ..old(self)@
                }
            } else {
                old(self)@
            },
    {
        match line {
            None => false,
            Some(s) => {
                let c = str_chars(s);
                if trimmed(c.as_slice(), Class::WhiteSpace).len() == 0 {
                    return false;
                }
                let ghost before = message::message_models(self.request.messages@);
                self.request.messages.push(Message::user(s));
                assert(message::message_models(self.request.messages@) =~= before.push(
                    message::plain(RoleModel::User, s@),
                ));
                true
            },
        }
    }

    /// Takes what the model generated: it is read as a reply, and the reply goes into the
    /// history.
    pub fn take_reply(&mut self, continuation: &str) -> (r: Reply)
        ensures
            r@ == reply::reply_in(continuation@),
            final(self)@ == (RequestModel {
                messages: old(self)@.messages.push(reply_message(r@)),
                ..old(self)@
            }),
    {
        let reply = parse_assistant(continuation);
        let mut m = Message::assistant(reply.content.as_str());
        let reasoning: String = match &reply.reasoning {
            Some(t) => to_owned_text(t.as_str()),
            None => String::new(),
        };
        m.reasoning = Some(reasoning);
        m.tool_calls = reply.as_chat_calls();
        let ghost before = message::message_models(self.request.messages@);
        assert(m@ == reply_message(reply@));
        self.request.messages.push(m);
        assert(message::message_models(self.request.messages@) =~= before.push(
            reply_message(reply@),
        ));
        reply
    }
}

/// The text of a line.
pub open spec fn line_text(line: Option<&str>) -> Option<Seq<char>> {
    match line {
        Some(s) => Some(s@),
        None => None,
    }
}

} // verus!
