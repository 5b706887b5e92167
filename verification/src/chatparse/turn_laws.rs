//! The turns of a prompt, read back.
use super::laws;
use super::reply;
use super::reply::{ReplyModel, WrittenCall};
use crate::chat::message::{CallModel, RequestModel};
use crate::chat::template;
use crate::chat::turn_laws;
use crate::search;
use crate::text;
use crate::text::Class;
use vstd::prelude::*;

verus! {

/// What an assistant says has no white space at its end.
proof fn lemma_said_ends(reasoning: Option<Seq<char>>, body: Seq<char>)
    requires
        search::tight(body, Class::PythonSpace),
    ensures
        ({
            let said = template::split_thought(reasoning, body).1;
            said.len() > 0 ==> template::stripped(said).len() > 0
        }),
{
    let said = template::split_thought(reasoning, body).1;
    if reasoning is None && text::has_text(body, "</think>"@) {
        let n = body.len() as int;
        search::lemma_find_back(body, "</think>"@, n);
        search::lemma_trim_start(text::after_last(body, "</think>"@), Class::Newline);
    }
    if said.len() > 0 {
        assert(said.last() == body.last());
        let (x, y) = search::lemma_trim_parts(said, Class::PythonSpace);
        if template::stripped(said).len() == 0 {
            if y.len() > 0 {
                assert(said.last() == y[y.len() - 1]);
            } else {
                assert(said.last() == x[x.len() - 1]);
            }
        }
    }
}

/// The thought that stands in front of what is said in the current turn.
spec fn thought_block(thought: Seq<char>, current: bool) -> Seq<char> {
    if current {
        "<think>"@ + seq!['\n'] + thought + seq!['\n'] + "</think>"@ + "\n\n"@
    } else {
        seq![]
    }
}

proof fn lemma_around(
    a: Seq<char>,
    b: Seq<char>,
    c: Seq<char>,
    d: Seq<char>,
    e: Seq<char>,
)
    ensures
        ({
            let whole = a + (b + c + d) + e;
            whole.subrange(a.len() as int, whole.len() - e.len()) == b + c + d
        }),
{
    let whole = a + (b + c + d) + e;
    assert(whole.subrange(a.len() as int, whole.len() - e.len()) =~= b + c + d);
}

proof fn lemma_answer_reads_back(
    thought: Seq<char>,
    said: Seq<char>,
    calls: Seq<CallModel>,
    current: bool,
)
    requires
        !text::has_text(said, "<tool_call>"@),
        current ==> !text::has_text(thought, "<tool_call>"@),
        said.len() > 0 ==> template::stripped(said).len() > 0,
        forall|k: int|
            0 <= k < calls.len() ==> laws::plain_call(laws::written_form(#[trigger] calls[k])),
    ensures
        ({
            let t = thought_block(thought, current) + said + template::calls_text(calls, said);
            &&& reply::calls_in(t) == Ok::<Seq<WrittenCall>, Seq<char>>(laws::written_forms(calls))
            &&& !current && !text::has_text(t, "</think>"@) ==> reply::reply_in(t) == (ReplyModel {
                reasoning: None,
                content: template::stripped(said),
                tool_calls: laws::written_forms(calls),
            })
        }),
{
    let none = Seq::<char>::empty();
    let open = "<tool_call>"@;
    let block = thought_block(thought, current);
    let t = block + said + template::calls_text(calls, said);
    reveal_strlit("<tool_call>");
    reveal_strlit("<think>");
    reveal_strlit("</think>");
    reveal_strlit("\n\n");
    if current {
        let a = "<think>"@ + seq!['\n'] + thought;
        let b = a + seq!['\n'] + "</think>"@;
        search::lemma_free_short("<think>"@, open);
        search::lemma_free_short("</think>"@, open);
        search::lemma_free_short(none, open);
        search::lemma_free_lines("<think>"@, thought, open);
        search::lemma_free_lines(a, "</think>"@, open);
        search::lemma_free_lines(b, none, open);
        search::lemma_free_lines(b + seq!['\n'] + none, said, open);
        assert(block + said =~= b + seq!['\n'] + none + seq!['\n'] + said);
        assert(block.last() == '\n');
    } else {
        assert(block + said =~= said);
    }
    laws::lemma_calls_behind(block, said, calls);
    if !current && !text::has_text(t, "</think>"@) {
        assert(said + "\n\n"@ =~= none + said + "\n\n"@);
        turn_laws::lemma_stripped_of_newlines(none, said, "\n\n"@);
    }
}

/// **Reading an assistant's turn gives back all its calls**, before the last user query as well
/// as behind it: their names, and their arguments in order as they were written. An earlier turn
/// is read as a reply that thinks nothing, and says what the message says.
///
/// Nothing but the calls may read as a call, and each call has to be such that it can be told
/// from what stands round it.
pub proof fn the_calls_of_every_turn_read_back(req: RequestModel, i: int)
    requires
        template::rendering(req) is Ok,
        0 <= i < req.messages.len(),
        req.messages[i].role is Assistant,
        !text::has_text(turn_laws::layout(req).said[i], "<tool_call>"@),
        i > turn_laws::layout(req).query ==> !text::has_text(
            turn_laws::layout(req).thoughts[i],
            "<tool_call>"@,
        ),
        forall|k: int|
            0 <= k < req.messages[i].tool_calls.len() ==> laws::plain_call(
                laws::written_form(#[trigger] req.messages[i].tool_calls[k]),
            ),
    ensures
        ({
            let l = turn_laws::layout(req);
            let opening = "<|im_start|>"@ + "assistant\n"@;
            let closing = "<|im_end|>"@ + seq!['\n'];
            let written = l.turns[i].subrange(
                opening.len() as int,
                l.turns[i].len() - closing.len(),
            );
            &&& l.turns[i] == opening + written + closing
            &&& reply::calls_in(written) == Ok::<Seq<WrittenCall>, Seq<char>>(
                laws::written_forms(req.messages[i].tool_calls),
            )
            &&& i < l.query && !text::has_text(written, "</think>"@) ==> reply::reply_in(written)
                == (ReplyModel {
                reasoning: None,
                content: template::stripped(l.said[i]),
                tool_calls: laws::written_forms(req.messages[i].tool_calls),
            })
        }),
{
    let l = turn_laws::layout(req);
    let m = req.messages[i];
    let said = l.said[i];
    let opening = "<|im_start|>"@ + "assistant\n"@;
    let closing = "<|im_end|>"@ + seq!['\n'];
    let block = thought_block(l.thoughts[i], i > l.query);
    turn_laws::an_assistant_turn_has_all_its_calls(req, i);
    turn_laws::bodies_are_tight(req, i);
    lemma_said_ends(m.reasoning, l.bodies[i]);
    let inner = block + said + template::calls_text(m.tool_calls, said);
    lemma_around(opening, block, said, template::calls_text(m.tool_calls, said), closing);
    lemma_answer_reads_back(l.thoughts[i], said, m.tool_calls, i > l.query);
    assert(l.turns[i].subrange(opening.len() as int, l.turns[i].len() - closing.len()) == inner);
}

} // verus!
