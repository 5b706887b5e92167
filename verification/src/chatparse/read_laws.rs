//! What a continuation is read as, part by part.
use super::reply;
use super::reply::WrittenCall;
use crate::chat::template;
use crate::search;
use crate::text;
use crate::text::Class;
use vstd::prelude::*;

verus! {

/// Whether `sep` does not begin before the end of `s` in `s + sep`.
pub open spec fn up_to(s: Seq<char>, sep: Seq<char>) -> bool {
    forall|k: int|
        0 <= k < s.len() ==> #[trigger] (s + sep).subrange(k, k + sep.len()) != sep
}

proof fn lemma_up_to(s: Seq<char>, sep: Seq<char>, z: Seq<char>)
    requires
        up_to(s, sep),
    ensures
        text::has_text(s + sep + z, sep),
        text::before_first(s + sep + z, sep) == s,
        text::after_first(s + sep + z, sep) == z,
{
    let n = s.len() as int;
    search::lemma_stands(s, sep, seq![]);
    assert forall|j: int| 0 <= j < n implies !#[trigger] text::matches_at(s + sep, sep, j) by {
        assert((s + sep).subrange(j, j + sep.len()) != sep);
    }
    search::lemma_first_is(s + sep, sep, n);
    search::lemma_first_extends(s, sep, z);
}

/// **Calls are read block by block.** A block runs from a `<tool_call>` to the next
/// `</tool_call>`; its call comes first, and those behind it follow. One block that cannot be
/// read, or is never closed, spoils all. Without a `<tool_call>` there are none.
pub proof fn calls_are_read_block_by_block(before: Seq<char>, block: Seq<char>, rest: Seq<char>)
    requires
        up_to(before, "<tool_call>"@),
    ensures
        up_to(block, "</tool_call>"@) ==> {
            let t = before + "<tool_call>"@ + (block + "</tool_call>"@ + rest);
            &&& reply::calls_in(t) is Ok <==> reply::call_in(block) is Ok && reply::calls_in(
                rest,
            ) is Ok
            &&& reply::calls_in(t) is Ok ==> reply::calls_in(t)->Ok_0 == seq![
                reply::call_in(block)->Ok_0,
            ] + reply::calls_in(rest)->Ok_0
        },
        !text::has_text(block, "</tool_call>"@) ==> reply::calls_in(
            before + "<tool_call>"@ + block,
        ) is Err,
        !text::has_text(block, "<tool_call>"@) ==> reply::calls_in(block) == Ok::<
            Seq<WrittenCall>,
            Seq<char>,
        >(seq![]),
{
    if up_to(block, "</tool_call>"@) {
        lemma_up_to(before, "<tool_call>"@, block + "</tool_call>"@ + rest);
        lemma_up_to(block, "</tool_call>"@, rest);
    }
    if !text::has_text(block, "</tool_call>"@) {
        lemma_up_to(before, "<tool_call>"@, block);
    }
}

/// **A call is its name and its parameters**: what stands between `<function=` and the first `>` at
/// the end of a line, and what stands between that and the `</function>` at the end, newlines
/// aside. A call without a name is refused, and so is one that begins or ends otherwise.
pub proof fn a_call_is_its_name_and_parameters(name: Seq<char>, inside: Seq<char>, block: Seq<char>)
    requires
        up_to(name, ">\n"@),
    ensures
        ({
            let t = seq!['\n'] + "<function="@ + name + ">\n"@ + inside + "</function>"@
                + seq!['\n'];
            match reply::call_in(t) {
                Ok(c) => name.len() > 0 && c.name == name && reply::parameters_of(
                    text::trim(inside, Class::Newline),
                ) == Ok::<Seq<(Seq<char>, Seq<char>)>, Seq<char>>(c.arguments),
                Err(_) => name.len() == 0 || reply::parameters_of(
                    text::trim(inside, Class::Newline),
                ) is Err,
            }
        }),
        !"<function="@.is_prefix_of(text::trim(block, Class::Newline)) ==> reply::call_in(
            block,
        ) is Err,
{
    reveal_strlit("<function=");
    reveal_strlit("</function>");
    let open = "<function="@;
    let close = "</function>"@;
    let rest = name + ">\n"@ + (inside + close);
    let body = open + rest;
    let t = seq!['\n'] + open + name + ">\n"@ + inside + close + seq!['\n'];
    assert(t =~= seq!['\n'] + body + seq!['\n']);
    assert(body.last() == close.last());
    assert(body[0] == open[0]);
    search::lemma_trim_is(seq!['\n'], body, seq!['\n'], Class::Newline);
    assert(body.subrange(0, open.len() as int) =~= open);
    assert(body.skip(open.len() as int) =~= rest);
    lemma_up_to(name, ">\n"@, inside + close);
    let tail = inside + close;
    assert(tail.last() == close.last());
    assert(text::trim_end(tail, Class::Newline) == tail);
    assert(tail.subrange(tail.len() - close.len(), tail.len() as int) =~= close);
    assert(tail.take(tail.len() - close.len()) =~= inside);
    let trimmed = text::trim(block, Class::Newline);
    if text::has_prefix(trimmed, open) {
        assert(trimmed.subrange(0, 0 + open.len() as int) =~= trimmed.subrange(
            0,
            open.len() as int,
        ));
    }
}

/// **A parameter is its key and its value, character for character**: the key runs to the first `>`
/// at the end of a line, and the value to the next line that is `</parameter>`. The last one may
/// lack its line break; anything else between two parameters than newlines is refused.
pub proof fn a_parameter_is_its_key_and_value(key: Seq<char>, v: Seq<char>, rest: Seq<char>)
    requires
        up_to(key, ">\n"@),
    ensures
        up_to(v, "\n</parameter>\n"@) ==> {
            let t = "<parameter="@ + key + ">\n"@ + (v + "\n</parameter>\n"@ + rest);
            let more = reply::parameters_of(text::trim_start(rest, Class::Newline));
            &&& reply::parameters_of(t) is Ok <==> more is Ok
            &&& more is Ok ==> reply::parameters_of(t)->Ok_0 == seq![(key, v)] + more->Ok_0
        },
        up_to(v, "\n</parameter>"@) && !text::has_text(v + "\n</parameter>"@, "\n</parameter>\n"@)
            ==> reply::parameters_of("<parameter="@ + key + ">\n"@ + (v + "\n</parameter>"@)) == Ok::<
            Seq<(Seq<char>, Seq<char>)>,
            Seq<char>,
        >(seq![(key, v)]),
        reply::parameters_of(seq![]) == Ok::<Seq<(Seq<char>, Seq<char>)>, Seq<char>>(seq![]),
        rest.len() > 0 && !"<parameter="@.is_prefix_of(rest) ==> reply::parameters_of(rest) is Err,
{
    reveal_strlit("<parameter=");
    let open = "<parameter="@;
    let none = Seq::<char>::empty();
    if up_to(v, "\n</parameter>\n"@) {
        let z = v + "\n</parameter>\n"@ + rest;
        let t = open + key + ">\n"@ + z;
        assert(t.subrange(0, open.len() as int) =~= open);
        assert(t.skip(open.len() as int) =~= key + ">\n"@ + z);
        lemma_up_to(key, ">\n"@, z);
        lemma_up_to(v, "\n</parameter>\n"@, rest);
    }
    if up_to(v, "\n</parameter>"@) && !text::has_text(v + "\n</parameter>"@, "\n</parameter>\n"@) {
        let z = v + "\n</parameter>"@;
        let t = open + key + ">\n"@ + z;
        assert(t.subrange(0, open.len() as int) =~= open);
        assert(t.skip(open.len() as int) =~= key + ">\n"@ + z);
        lemma_up_to(key, ">\n"@, z);
        lemma_up_to(v, "\n</parameter>"@, none);
        assert(v + "\n</parameter>"@ + none =~= z);
        search::lemma_trim_all(none, Class::Newline);
        assert(seq![(key, v)] + Seq::<(Seq<char>, Seq<char>)>::empty() =~= seq![(key, v)]);
        reveal_with_fuel(reply::parameters_of, 2);
    }
    if rest.len() > 0 && text::has_prefix(rest, open) {
        assert(rest.subrange(0, 0 + open.len() as int) =~= rest.subrange(0, open.len() as int));
    }
}

/// **A continuation is its thought, its answer and its calls.** The thought ends at the first
/// `</think>` and begins behind the last `<think>` before it; the answer is what follows, without
/// leading newlines. What stands before the first call is said, and where a block cannot be read
/// the whole answer is, with no calls. White space at the ends of either does not count.
pub proof fn a_continuation_is_thought_answer_and_calls(
    thought: Seq<char>,
    lines: Seq<char>,
    answer: Seq<char>,
)
    requires
        up_to(thought, "</think>"@),
        forall|k: int| 0 <= k < lines.len() ==> #[trigger] lines[k] == '\n',
        answer.len() > 0 ==> answer[0] != '\n',
    ensures
        ({
            let r = reply::reply_in(thought + "</think>"@ + (lines + answer));
            &&& r.reasoning == Some(template::stripped(text::after_last(thought, "<think>"@)))
            &&& match reply::calls_in(answer) {
                Ok(calls) => r.tool_calls == calls && r.content == template::stripped(
                    text::before_first(answer, "<tool_call>"@),
                ),
                Err(_) => r.tool_calls.len() == 0 && r.content == template::stripped(answer),
            }
        }),
        !text::has_text(answer, "</think>"@) ==> {
            let r = reply::reply_in(answer);
            &&& r.reasoning is None
            &&& match reply::calls_in(answer) {
                Ok(calls) => r.tool_calls == calls && r.content == template::stripped(
                    text::before_first(answer, "<tool_call>"@),
                ),
                Err(_) => r.tool_calls.len() == 0 && r.content == template::stripped(answer),
            }
        },
{
    lemma_up_to(thought, "</think>"@, lines + answer);
    lemma_leading_lines(lines, answer);
}

proof fn lemma_leading_lines(lines: Seq<char>, answer: Seq<char>)
    requires
        forall|k: int| 0 <= k < lines.len() ==> #[trigger] lines[k] == '\n',
        answer.len() > 0 ==> answer[0] != '\n',
    ensures
        text::trim_start(lines + answer, Class::Newline) == answer,
    decreases lines.len(),
{
    if lines.len() > 0 {
        assert((lines + answer)[0] == lines[0]);
        assert((lines + answer).skip(1) =~= lines.drop_first() + answer);
        lemma_leading_lines(lines.drop_first(), answer);
    } else {
        assert(lines + answer =~= answer);
    }
}

} // verus!
