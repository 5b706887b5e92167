//! When a case passes.
use crate::chat::message::RequestModel;
use crate::conformance;
use crate::pyjson::value::Json;
use crate::search;
use crate::text;
use vstd::prelude::*;

verus! {

/// **A verdict says whether what came is what was expected**: with a text expected, that text and
/// nothing else; without, that error and nothing else. No error given means the empty one.
pub proof fn only_what_was_expected_matches(
    text: Option<Seq<char>>,
    error: Option<Seq<char>>,
    got: Result<Seq<char>, Seq<char>>,
)
    ensures
        conformance::judged(text, error, got) is TextMatches <==> text is Some && got is Ok
            && got->Ok_0 == text->0,
        conformance::judged(text, error, got) is TextDiffers <==> text is Some && !(got is Ok
            && got->Ok_0 == text->0),
        conformance::judged(text, error, got) is ErrorMatches <==> text is None && got is Err
            && got->Err_0 == match error {
            Some(e) => e,
            None => seq![],
        },
        conformance::judged(text, error, got) is ErrorDiffers <==> text is None && !(got is Err
            && got->Err_0 == match error {
            Some(e) => e,
            None => seq![],
        }),
{
}

/// **The ids that are expected** are the numbers of the list, in order, and what is no number
/// that can count something is passed over.
pub proof fn expected_ids_are_the_numbers_of_the_list(a: Seq<Json>)
    ensures
        conformance::ids_among(a) == a.filter(
            |v: Json| v matches Json::Int(i) && 0 <= i <= usize::MAX,
        ).map_values(|v: Json| (v->Int_0 % 4294967296) as u32),
    decreases a.len(),
{
    reveal(Seq::filter);
    let keep = |v: Json| v matches Json::Int(i) && 0 <= i <= usize::MAX;
    let id = |v: Json| (v->Int_0 % 4294967296) as u32;
    if a.len() > 0 {
        expected_ids_are_the_numbers_of_the_list(a.drop_last());
        let before = a.drop_last().filter(keep);
        if keep(a.last()) {
            assert(before.push(a.last()).map_values(id) =~= before.map_values(id).push(
                id(a.last()),
            ));
        }
    } else {
        assert(a.filter(keep).map_values(id) =~= seq![]);
    }
}

/// **A continuation** is what stands between the last opening of an assistant turn and its
/// closing, of a request that ends on an assistant turn.
pub proof fn a_continuation_is_the_last_turn(
    req: RequestModel,
    before: Seq<char>,
    said: Seq<char>,
)
    requires
        req.messages.len() > 0,
        req.messages[req.messages.len() - 1].role is Assistant,
        !text::has_text(said + "<|im_end|>\n"@, "<|im_start|>assistant\n"@),
    ensures
        conformance::continuation(
            req,
            before + "<|im_start|>assistant\n"@ + (said + "<|im_end|>\n"@),
        ) == Some(said),
{
    let open = "<|im_start|>assistant\n"@;
    let close = "<|im_end|>\n"@;
    let tail = said + close;
    assert(open.len() > 0 && forall|j: int|
        0 < j < open.len() ==> #[trigger] open[j] != open[0]) by {
        reveal_strlit("<|im_start|>assistant\n");
    }
    lemma_behind_the_last(before, open, tail);
    assert(tail.subrange(said.len() as int, said.len() + close.len() as int) =~= close);
    assert(text::matches_at(tail, close, said.len() as int));
    assert(tail.take(tail.len() - close.len()) =~= said);
}

proof fn lemma_behind_the_last(before: Seq<char>, open: Seq<char>, tail: Seq<char>)
    requires
        open.len() > 0,
        forall|j: int| 0 < j < open.len() ==> #[trigger] open[j] != open[0],
        !text::has_text(tail, open),
    ensures
        text::has_text(before + open + tail, open),
        text::after_last(before + open + tail, open) == tail,
{
    let whole = before + open + tail;
    let n = whole.len() as int;
    let at = before.len() as int;
    assert(whole.subrange(at, at + open.len()) =~= open);
    assert(text::matches_at(whole, open, at));
    search::lemma_has_text(whole, open, at);
    assert forall|j: int| at < j implies !#[trigger] text::matches_at(whole, open, j) by {
        if text::matches_at(whole, open, j) {
            let s = whole.subrange(j, j + open.len());
            if j < at + open.len() {
                assert(s[0] == whole[j]);
                assert(whole[j] == open[j - at]);
            } else {
                let k = j - at - open.len();
                assert(tail.subrange(k, k + open.len()) =~= s);
                search::lemma_has_text(tail, open, k);
            }
        }
    }
    search::lemma_find_back(whole, open, n);
    assert(text::find_back(whole, open, n) == Some(at));
    assert(text::after_last(whole, open) =~= tail);
}

} // verus!
