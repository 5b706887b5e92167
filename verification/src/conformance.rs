//! Judging the chat template, and the numbers of a run, against what `transformers` gives.
//!
//! A case of the corpus carries the inputs and the **exact text** that the checkpoint's
//! `chat_template.jinja` rendered, or the **exact error** that it raised, so this compares
//! bytes, not impressions.
pub mod laws;

use crate::chat::message;
use crate::chat::message::{
    Content, ContentModel, Message, MessageModel, Rendered, Request, RequestModel, Role, RoleModel,
};
use crate::chat::render;
use crate::chat::template;
use crate::chatparse::parse_assistant;
use crate::chatparse::reply;
use crate::pyjson::value;
use crate::pyjson::value::{Json, Value};
use crate::text;
use crate::text::{find_text, last_piece, same_text, str_chars, strip_suffix, to_text};
use crate::tokenizer;
use crate::tokenizer::Tokenizer;
use vstd::prelude::*;

verus! {

// ---------------------------------------------------------------------------
// one case
// ---------------------------------------------------------------------------
/// What a rendering is, held against what was expected.
#[derive(Debug, Clone, Copy, PartialEq, Eq)]
pub enum Verdict {
    /// The text is the expected one.
    TextMatches,
    /// The text, or an error, in place of the expected text.
    TextDiffers,
    /// The error is the expected one.
    ErrorMatches,
    /// Another error, or a text, in place of the expected error.
    ErrorDiffers,
}

/// The verdict on a rendering: with no text expected, an error is, and no error given means
/// the empty one.
pub open spec fn judged(
    expect_text: Option<Seq<char>>,
    expect_error: Option<Seq<char>>,
    got: Result<Seq<char>, Seq<char>>,
) -> Verdict {
    match (expect_text, got) {
        (Some(want), Ok(t)) => if t == want {
            Verdict::TextMatches
        } else {
            Verdict::TextDiffers
        },
        (Some(_), Err(_)) => Verdict::TextDiffers,
        (None, Err(e)) => {
            let want = match expect_error {
                Some(w) => w,
                None => seq![],
            };
            if e == want {
                Verdict::ErrorMatches
            } else {
                Verdict::ErrorDiffers
            }
        },
        (None, Ok(_)) => Verdict::ErrorDiffers,
    }
}

/// The text of a member, where it is one.
pub open spec fn text_member(v: Json, key: Seq<char>) -> Option<Seq<char>> {
    match v.member(key) {
        Some(Json::Str(s)) => Some(s),
        _ => None,
    }
}

/// What a rendering gave, without the counts.
pub open spec fn outcome(got: Result<Rendered, String>) -> Result<Seq<char>, Seq<char>> {
    match got {
        Ok(r) => Ok(r.text@),
        Err(e) => Err(e@),
    }
}

/// The text of a member, where it is one.
fn get_text<'a>(v: &'a Value, key: &str) -> (r: Option<&'a str>)
    ensures
        match r {
            Some(s) => text_member(v@, key@) == Some(s@),
            None => text_member(v@, key@) is None,
        },
{
    match v.get(key) {
        Some(m) => m.as_str(),
        None => None,
    }
}

/// The verdict on the rendering of a case.
pub fn judge(case: &Value, got: &Result<Rendered, String>) -> (r: Verdict)
    ensures
        r == judged(
            text_member(case@, "expect_text"@),
            text_member(case@, "expect_error"@),
            outcome(*got),
        ),
{
    match get_text(case, "expect_text") {
        Some(want) => match got {
            Ok(x) => if same_text(x.text.as_str(), want) {
                Verdict::TextMatches
            } else {
                Verdict::TextDiffers
            },
            Err(_) => Verdict::TextDiffers,
        },
        None => match got {
            Ok(_) => Verdict::ErrorDiffers,
            Err(e) => {
                let matches: bool = match get_text(case, "expect_error") {
                    Some(want) => same_text(e.as_str(), want),
                    None => {
                        let empty: bool = e.as_str().is_empty();
                        assert(empty ==> e@ =~= seq![]);
                        empty
                    },
                };
                if matches {
                    Verdict::ErrorMatches
                } else {
                    Verdict::ErrorDiffers
                }
            },
        },
    }
}

// ---------------------------------------------------------------------------
// markers
// ---------------------------------------------------------------------------
/// The ids that the checkpoint ships for `<|im_start|>`, `<|im_end|>`, `<think>` and
/// `</think>`.
pub const MARKER_IDS: [u32; 4] = [248045, 248046, 248068, 248069];

/// What is wrong with a marker: its ids, where they are not the one id it should have. A
/// marker is only right if the tokenizer turns it into one id, and every case depends on it.
pub fn marker_fault(tk: &Tokenizer, marker: &str, want: u32) -> (r: Option<Vec<u32>>)
    ensures
        match r {
            Some(ids) => ids@ == tokenizer::model::text_ids(tk@, marker@) && ids@ != seq![want],
            None => tokenizer::model::text_ids(tk@, marker@) == seq![want],
        },
{
    let ids = tk.encode(marker);
    if ids.len() == 1 && ids[0] == want {
        assert(ids@ =~= seq![want]);
        None
    } else {
        assert(ids@ != seq![want]);
        Some(ids)
    }
}

// ---------------------------------------------------------------------------
// all cases
// ---------------------------------------------------------------------------
/// How the cases came out.
#[derive(Debug, Clone, Copy, PartialEq, Eq)]
pub struct Tally {
    pub text_ok: u64,
    pub text_bad: u64,
    pub ids_ok: u64,
    pub ids_bad: u64,
    pub err_ok: u64,
    pub err_bad: u64,
    pub parse_bad: u64,
}

/// One more, as far as it can be counted.
pub open spec fn one_more(n: u64) -> u64 {
    if n < u64::MAX {
        (n + 1) as u64
    } else {
        n
    }
}

impl Tally {
    /// No case yet.
    pub fn new() -> (r: Self)
        ensures
            r == (Tally {
                text_ok: 0,
                text_bad: 0,
                ids_ok: 0,
                ids_bad: 0,
                err_ok: 0,
                err_bad: 0,
                parse_bad: 0,
            }),
    {
        Tally {
            text_ok: 0,
            text_bad: 0,
            ids_ok: 0,
            ids_bad: 0,
            err_ok: 0,
            err_bad: 0,
            parse_bad: 0,
        }
    }

    /// A case that could not be built counts as a wrong text.
    pub fn take_unbuilt(&mut self)
        ensures
            *final(self) == (Tally { text_bad: one_more(old(self).text_bad), ..*old(self) }),
    {
        self.text_bad = self.text_bad.saturating_add(1);
    }

    /// Counts the verdict on a rendering.
    pub fn take_verdict(&mut self, v: Verdict)
        ensures
            *final(self) == match v {
                Verdict::TextMatches => Tally { text_ok: one_more(old(self).text_ok), ..*old(self) },
                Verdict::TextDiffers => Tally { text_bad: one_more(old(self).text_bad), ..*old(self) },
                Verdict::ErrorMatches => Tally { err_ok: one_more(old(self).err_ok), ..*old(self) },
                Verdict::ErrorDiffers => Tally { err_bad: one_more(old(self).err_bad), ..*old(self) },
            },
    {
        match v {
            Verdict::TextMatches => {
                self.text_ok = self.text_ok.saturating_add(1);
            },
            Verdict::TextDiffers => {
                self.text_bad = self.text_bad.saturating_add(1);
            },
            Verdict::ErrorMatches => {
                self.err_ok = self.err_ok.saturating_add(1);
            },
            Verdict::ErrorDiffers => {
                self.err_bad = self.err_bad.saturating_add(1);
            },
        }
    }

    /// Counts the ids of a case, and says whether they are the expected ones.
    pub fn take_ids(&mut self, mine: &[u32], want: &[u32]) -> (r: bool)
        ensures
            r == (mine@ == want@),
            *final(self) == if mine@ == want@ {
                Tally { ids_ok: one_more(old(self).ids_ok), ..*old(self) }
            } else {
                Tally { ids_bad: one_more(old(self).ids_bad), ..*old(self) }
            },
    {
        let same: bool = mine.len() == want.len() && first_difference(mine, want).is_none();
        assert(same == (mine@ =~= want@));
        if same {
            self.ids_ok = self.ids_ok.saturating_add(1);
        } else {
            self.ids_bad = self.ids_bad.saturating_add(1);
        }
        same
    }

    /// Counts whether a case parsed back; one with nothing to parse does not count.
    pub fn take_reparse(&mut self, back: Option<bool>)
        ensures
            *final(self) == if back == Some(false) {
                Tally { parse_bad: one_more(old(self).parse_bad), ..*old(self) }
            } else {
                *old(self)
            },
    {
        match back {
            Some(b) => {
                if !b {
                    self.parse_bad = self.parse_bad.saturating_add(1);
                }
            },
            None => {},
        }
    }

    /// Whether nothing went wrong.
    pub fn passes(&self) -> (r: bool)
        ensures
            r == (self.text_bad == 0 && self.ids_bad == 0 && self.err_bad == 0 && self.parse_bad
                == 0),
    {
        self.text_bad == 0 && self.ids_bad == 0 && self.err_bad == 0 && self.parse_bad == 0
    }
}

// ---------------------------------------------------------------------------
// ids
// ---------------------------------------------------------------------------
/// The ids among the items of an array: what is no index is passed over.
pub open spec fn ids_among(a: Seq<Json>) -> Seq<u32>
    decreases a.len(),
{
    if a.len() == 0 {
        seq![]
    } else {
        let before = ids_among(a.drop_last());
        match a.last() {
            Json::Int(i) => if 0 <= i <= usize::MAX {
                before.push((i % 0x1_0000_0000) as u32)
            } else {
                before
            },
            _ => before,
        }
    }
}

/// The ids that a case expects, where it lists any.
pub fn expected_ids(case: &Value) -> (r: Option<Vec<u32>>)
    ensures
        match (r, case@.member("expect_ids"@)) {
            (Some(v), Some(Json::Array(a))) => v@ == ids_among(a),
            (None, Some(Json::Array(_))) => false,
            (None, _) => true,
            _ => false,
        },
{
    let list: &[Value] = match case.get("expect_ids") {
        Some(v) => match v.as_array() {
            Some(a) => a,
            None => {
                return None;
            },
        },
        None => {
            return None;
        },
    };
    let ghost items = value::json_items(list@);
    let mut out: Vec<u32> = Vec::new();
    let mut i: usize = 0;
    assert(items.take(0) =~= seq![]);
    while i < list.len()
        invariant
            i <= list.len(),
            items == value::json_items(list@),
            out@ == ids_among(items.take(i as int)),
        decreases list.len() - i,
    {
        proof {
            assert(items.take(i + 1).drop_last() =~= items.take(i as int));
            assert(items.take(i + 1).last() == items[i as int]);
        }
        if let Some(n) = list[i].as_usize() {
            out.push((n as u64 % 0x1_0000_0000) as u32);
        }
        i += 1;
    }
    assert(items.take(i as int) =~= items);
    Some(out)
}

/// Where two lists first differ, as far as both go.
pub fn first_difference(a: &[u32], b: &[u32]) -> (r: Option<usize>)
    ensures
        match r {
            Some(i) => i < a.len() && i < b.len() && a[i as int] != b[i as int] && forall|j: int|
                0 <= j < i ==> #[trigger] a[j] == b[j],
            None => forall|j: int| 0 <= j < a.len() && j < b.len() ==> #[trigger] a[j] == b[j],
        },
{
    let mut i: usize = 0;
    while i < a.len() && i < b.len()
        invariant
            i <= a.len(),
            i <= b.len(),
            forall|j: int| 0 <= j < i ==> #[trigger] a[j] == b[j],
        decreases a.len() - i,
    {
        if a[i] != b[i] {
            return Some(i);
        }
        i += 1;
    }
    None
}

// ---------------------------------------------------------------------------
// render, parse, render
// ---------------------------------------------------------------------------
/// What follows the last opening of an assistant turn.
pub open spec fn last_turn(t: Seq<char>) -> Option<Seq<char>> {
    if text::has_text(t, "<|im_start|>assistant\n"@) {
        Some(text::after_last(t, "<|im_start|>assistant\n"@))
    } else {
        None
    }
}

/// `t` without the closing of a turn, where it ends in one.
pub open spec fn unclosed(t: Seq<char>) -> Option<Seq<char>> {
    if text::has_suffix(t, "<|im_end|>\n"@) {
        Some(t.take(t.len() - "<|im_end|>\n"@.len()))
    } else {
        None
    }
}

/// What was parsed, as a message again.
pub open spec fn parsed_message(r: reply::ReplyModel) -> MessageModel {
    MessageModel {
        role: RoleModel::Assistant,
        content: ContentModel::Text(r.content),
        reasoning: r.reasoning,
        tool_calls: reply::chat_calls(r.tool_calls),
    }
}

/// Whether a request ends on an assistant turn.
pub open spec fn ends_on_assistant(req: RequestModel) -> bool {
    req.messages.len() > 0 && req.messages.last().role is Assistant
}

/// The continuation that a rendering holds, for a request that ends on an assistant turn,
/// which is the only place where there is one.
pub open spec fn continuation(req: RequestModel, rendered: Seq<char>) -> Option<Seq<char>> {
    if ends_on_assistant(req) {
        match last_turn(rendered) {
            Some(tail) => unclosed(tail),
            None => None,
        }
    } else {
        None
    }
}

/// Whether parsing a continuation and rendering it again gives the same bytes.
pub open spec fn survives(req: RequestModel, said: Seq<char>) -> bool {
    let back = parsed_message(reply::reply_in(said));
    let again = RequestModel { messages: req.messages.drop_last().push(back), ..req };
    match template::rendering(again) {
        Ok(d) => match last_turn(d.text) {
            Some(tail) => said == match unclosed(tail) {
                Some(t) => t,
                None => seq![],
            },
            None => false,
        },
        Err(_) => false,
    }
}

/// What follows the last opening of an assistant turn.
fn find_last_turn(t: &str) -> (r: Option<Vec<char>>)
    ensures
        match r {
            Some(tail) => last_turn(t@) == Some(tail@),
            None => last_turn(t@) is None,
        },
{
    let c = str_chars(t);
    match find_text(c.as_slice(), "<|im_start|>assistant\n") {
        Some(_) => {
            let tail = last_piece(c.as_slice(), "<|im_start|>assistant\n");
            let s = to_text(tail);
            Some(str_chars(s.as_str()))
        },
        None => None,
    }
}

/// Whether the last turn of a request survives being rendered, parsed and rendered again,
/// and nothing where it has no continuation to parse.
pub fn reparses(req: Request, rendered: &str) -> (r: Option<bool>)
    ensures
        match (r, continuation(req@, rendered@)) {
            (Some(b), Some(said)) => b == survives(req@, said),
            (None, None) => true,
            _ => false,
        },
{
    let ghost models = message::message_models(req.messages@);
    let mut req = req;
    let n: usize = req.messages.len();
    if n == 0 {
        return None;
    }
    assert(models.last() == req.messages@[n - 1]@);
    let assistant: bool = match &req.messages[n - 1].role {
        Role::Assistant => true,
        _ => false,
    };
    if !assistant {
        return None;
    }
    let tail = match find_last_turn(rendered) {
        Some(t) => t,
        None => {
            return None;
        },
    };
    let said = match strip_suffix(tail.as_slice(), "<|im_end|>\n") {
        Some(s) => to_text(s),
        None => {
            return None;
        },
    };
    let parsed = parse_assistant(said.as_str());
    let calls = parsed.as_chat_calls();
    let back = Message {
        role: Role::Assistant,
        content: Content::Text(parsed.content),
        reasoning: parsed.reasoning,
        tool_calls: calls,
    };
    let ghost again = RequestModel { messages: models.drop_last().push(back@), ..req@ };
    let _ = req.messages.pop();
    req.messages.push(back);
    assert(message::message_models(req.messages@) =~= again.messages);
    match render(&req) {
        Ok(x) => match find_last_turn(x.text.as_str()) {
            Some(t) => {
                let kept: String = match strip_suffix(t.as_slice(), "<|im_end|>\n") {
                    Some(s) => to_text(s),
                    None => {
                        let none = String::new();
                        assert(none@ =~= seq![]);
                        none
                    },
                };
                Some(same_text(said.as_str(), kept.as_str()))
            },
            None => Some(false),
        },
        Err(_) => Some(false),
    }
}

// ---------------------------------------------------------------------------
// numbers
// ---------------------------------------------------------------------------
/// A comparison of logits with those of a reference.
#[derive(Debug, Clone, Copy, PartialEq, Eq)]
pub enum Agreement {
    /// The tokens agree, and the values within the tolerance.
    Pass,
    /// The tokens differ, which is an operator error rather than precision.
    TokensDiffer,
    /// The tokens agree but the values exceed the tolerance.
    ValuesDiffer,
}

/// The verdict on the first `k` tokens of two orders, and on whether the values are within
/// the tolerance. Two gates that fail for different reasons: identical tokens with a large
/// value error means a precision problem, whereas differing tokens means a wrong operator.
pub fn agreement(mine: &[usize], reference: &[usize], k: usize, within: bool) -> (r: Agreement)
    requires
        mine.len() > 0,
        reference.len() > 0,
    ensures
        ({
            let a = if k < mine.len() {
                mine@.take(k as int)
            } else {
                mine@
            };
            let b = if k < reference.len() {
                reference@.take(k as int)
            } else {
                reference@
            };
            r == if !(mine[0] == reference[0] && a == b) {
                Agreement::TokensDiffer
            } else if within {
                Agreement::Pass
            } else {
                Agreement::ValuesDiffer
            }
        }),
{
    let m: usize = if k < mine.len() {
        k
    } else {
        mine.len()
    };
    let n: usize = if k < reference.len() {
        k
    } else {
        reference.len()
    };
    let ghost a = mine@.take(m as int);
    let ghost b = reference@.take(n as int);
    proof {
        assert(mine@.take(mine.len() as int) =~= mine@);
        assert(reference@.take(reference.len() as int) =~= reference@);
    }
    if mine[0] != reference[0] || m != n {
        return Agreement::TokensDiffer;
    }
    let mut i: usize = 0;
    while i < m
        invariant
            i <= m,
            m == n,
            m <= mine.len(),
            n <= reference.len(),
            a == mine@.take(m as int),
            b == reference@.take(n as int),
            a == if k < mine.len() {
                mine@.take(k as int)
            } else {
                mine@
            },
            b == if k < reference.len() {
                reference@.take(k as int)
            } else {
                reference@
            },
            forall|j: int| 0 <= j < i ==> a[j] == b[j],
        decreases m - i,
    {
        if mine[i] != reference[i] {
            assert(a[i as int] != b[i as int]);
            return Agreement::TokensDiffer;
        }
        i += 1;
    }
    assert(a =~= b);
    if within {
        Agreement::Pass
    } else {
        Agreement::ValuesDiffer
    }
}

} // verus!
