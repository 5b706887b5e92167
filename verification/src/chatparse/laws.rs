//! Render, parse and render again.
use super::reply;
use super::reply::{ReplyModel, WrittenCall};
use crate::chat::message::CallModel;
use crate::chat::template;
use crate::chat::template::{THINK_CLOSE, THINK_OPEN};
use crate::pyjson::value::Json;
use crate::search;
use crate::text;
use crate::text::Class;
use vstd::prelude::*;

verus! {

// ---------------------------------------------------------------------------
// what can be told apart
// ---------------------------------------------------------------------------
/// Whether `sep` is first found behind `s`.
pub open spec fn delimited(s: Seq<char>, sep: Seq<char>) -> bool {
    text::find_from(s + sep, sep, 0) == Some(s.len() as int)
}

/// Whether an argument can be told from what stands round it. The last one has no line
/// break behind it.
pub open spec fn plain_argument(a: (Seq<char>, Seq<char>), last: bool) -> bool {
    &&& delimited(a.0, ">\n"@)
    &&& !text::has_text("<parameter="@ + a.0 + ">"@, "</tool_call>"@)
    &&& !text::has_text(a.1, "</tool_call>"@)
    &&& last ==> delimited(a.1, "\n</parameter>"@)
    &&& !last ==> delimited(a.1, "\n</parameter>\n"@)
}

/// Whether the arguments of a call can be told from what stands round them.
pub open spec fn plain_arguments(args: Seq<(Seq<char>, Seq<char>)>) -> bool
    decreases args.len(),
{
    args.len() > 0 ==> plain_argument(args[0], args.len() == 1) && plain_arguments(
        args.drop_first(),
    )
}

/// Whether a call can be told from what stands round it.
pub open spec fn plain_call(c: WrittenCall) -> bool {
    &&& c.name.len() > 0
    &&& delimited(c.name, ">\n"@)
    &&& !text::has_text("<function="@ + c.name + ">"@, "</tool_call>"@)
    &&& plain_arguments(c.arguments)
}

/// Whether a thought, what is said and the calls can be told from one another once they
/// are written down: neither of the first two has white space at its ends, the thought
/// holds no think tag, and nothing that is said reads as a call.
pub open spec fn unambiguous(
    thought: Seq<char>,
    said: Seq<char>,
    calls: Seq<WrittenCall>,
) -> bool {
    &&& search::tight(thought, Class::PythonSpace)
    &&& !text::has_text(thought, THINK_CLOSE@)
    &&& !text::has_text(thought, THINK_OPEN@)
    &&& search::tight(said, Class::PythonSpace)
    &&& !text::has_text(said, "<tool_call>"@) || (calls.len() == 0 && reply::calls_in(said) is Err)
    &&& forall|i: int| 0 <= i < calls.len() ==> plain_call(#[trigger] calls[i])
}

/// What the template writes for a thought, what is said and calls in the current turn.
pub open spec fn written(thought: Seq<char>, said: Seq<char>, calls: Seq<WrittenCall>) -> Seq<char> {
    THINK_OPEN@ + seq!['\n'] + thought + seq!['\n'] + THINK_CLOSE@ + "\n\n"@ + said
        + template::calls_text(reply::chat_calls(calls), said)
}

/// What the template writes for a reply that is handed back to it in the current turn.
pub open spec fn rendered(r: ReplyModel) -> Seq<char> {
    template::assistant_text(
        r.reasoning,
        template::stripped(r.content),
        reply::chat_calls(r.tool_calls),
        true,
    )
}

// ---------------------------------------------------------------------------
// literals
// ---------------------------------------------------------------------------
/// How long the markers are, and how they start and end.
proof fn lemma_markers()
    ensures
        "<tool_call>"@.len() == 11,
        "<tool_call>"@[0] == '<',
        "</tool_call>"@.len() == 12,
        "<function="@.len() == 10,
        "<function="@[0] == '<',
        "</function>"@.len() == 11,
        "</function>"@.last() == '>',
        "<parameter="@.len() == 11,
        "<parameter="@[0] == '<',
        ">\n"@ == ">"@ + seq!['\n'],
        ">"@.len() == 1,
        "</parameter>"@.len() == 12,
        "</parameter>"@.last() == '>',
        "\n</parameter>\n"@ == "\n</parameter>"@ + seq!['\n'],
        "\n</parameter>"@ == seq!['\n'] + "</parameter>"@,
        "\n\n"@ == seq!['\n', '\n'],
        THINK_OPEN@.len() == 7,
        THINK_CLOSE@.len() == 8,
{
    reveal_strlit("<tool_call>");
    reveal_strlit("</tool_call>");
    reveal_strlit("<function=");
    reveal_strlit("</function>");
    reveal_strlit("<parameter=");
    reveal_strlit(">\n");
    reveal_strlit(">");
    reveal_strlit("\n\n");
    reveal_strlit("\n</parameter>\n");
    reveal_strlit("\n</parameter>");
    reveal_strlit("</parameter>");
    reveal_strlit("<think>");
    reveal_strlit("</think>");
    assert(">\n"@ =~= ">"@ + seq!['\n']);
    assert("\n\n"@ =~= seq!['\n', '\n']);
    assert("\n</parameter>"@ =~= seq!['\n'] + "</parameter>"@);
    assert("\n</parameter>\n"@ =~= "\n</parameter>"@ + seq!['\n']);
}

/// How the longer literals of the template are made of the markers.
proof fn lemma_joints()
    ensures
        "<tool_call>\n<function="@ == "<tool_call>"@ + seq!['\n'] + "<function="@,
        "\n<tool_call>\n<function="@ == seq!['\n'] + "<tool_call>"@ + seq!['\n'] + "<function="@,
        "\n\n<tool_call>\n<function="@ == "\n\n"@ + "<tool_call>"@ + seq!['\n'] + "<function="@,
        "</function>\n</tool_call>"@ == "</function>"@ + seq!['\n'] + "</tool_call>"@,
{
    reveal_strlit("<tool_call>");
    reveal_strlit("</tool_call>");
    reveal_strlit("<function=");
    reveal_strlit("</function>");
    reveal_strlit("\n\n");
    reveal_strlit("<tool_call>\n<function=");
    reveal_strlit("\n<tool_call>\n<function=");
    reveal_strlit("\n\n<tool_call>\n<function=");
    reveal_strlit("</function>\n</tool_call>");
    assert("<tool_call>\n<function="@ =~= "<tool_call>"@ + seq!['\n'] + "<function="@);
    assert("\n<tool_call>\n<function="@ =~= seq!['\n'] + "<tool_call>"@ + seq!['\n']
        + "<function="@);
    assert("\n\n<tool_call>\n<function="@ =~= "\n\n"@ + "<tool_call>"@ + seq!['\n']
        + "<function="@);
    assert("</function>\n</tool_call>"@ =~= "</function>"@ + seq!['\n'] + "</tool_call>"@);
}

/// The markers are shorter than a line.
proof fn lemma_markers_on_line()
    ensures
        search::one_line("<tool_call>"@),
        search::one_line("</tool_call>"@),
        search::one_line(THINK_OPEN@),
        search::one_line(THINK_CLOSE@),
{
    reveal_strlit("<tool_call>");
    reveal_strlit("</tool_call>");
    reveal_strlit("<think>");
    reveal_strlit("</think>");
}

/// The end of a parameter does not close a call.
proof fn lemma_parameter_end_free()
    ensures
        !text::has_text("</parameter>"@, "</tool_call>"@),
{
    reveal_strlit("</tool_call>");
    reveal_strlit("</parameter>");
    let close = "</parameter>"@;
    let p = "</tool_call>"@;
    text::lemma_find_from(close, p, 0);
    if text::has_text(close, p) {
        let i = text::find_from(close, p, 0)->0;
        assert(i == 0);
        assert(close.subrange(0, 12)[2] == p[2]);
    }
}

// ---------------------------------------------------------------------------
// arguments
// ---------------------------------------------------------------------------
/// Arguments as the template takes them.
spec fn chat_arguments(args: Seq<(Seq<char>, Seq<char>)>) -> Seq<(Seq<char>, Json)> {
    Seq::new(args.len(), |i: int| (args[i].0, Json::Str(args[i].1)))
}

/// One written argument, without the line break behind it.
spec fn argument_lines(a: (Seq<char>, Seq<char>)) -> Seq<char> {
    "<parameter="@ + a.0 + ">\n"@ + a.1 + "\n</parameter>"@
}

/// Written arguments, without the line break behind the last one.
spec fn lines(args: Seq<(Seq<char>, Seq<char>)>) -> Seq<char>
    decreases args.len(),
{
    if args.len() == 0 {
        seq![]
    } else if args.len() == 1 {
        argument_lines(args[0])
    } else {
        argument_lines(args[0]) + seq!['\n'] + lines(args.drop_first())
    }
}

proof fn lemma_lines_back(args: Seq<(Seq<char>, Seq<char>)>)
    requires
        args.len() > 1,
    ensures
        lines(args) == lines(args.drop_last()) + seq!['\n'] + argument_lines(args.last()),
    decreases args.len(),
{
    let rest = args.drop_first();
    if args.len() == 2 {
        assert(lines(rest) == argument_lines(args[1]));
        assert(lines(args.drop_last()) == argument_lines(args[0]));
    } else {
        lemma_lines_back(rest);
        assert(rest.drop_last() =~= args.drop_last().drop_first());
        assert(lines(args) =~= lines(args.drop_last()) + seq!['\n'] + argument_lines(args.last()));
    }
}

/// What the template writes for arguments that are texts.
proof fn lemma_parameters(args: Seq<(Seq<char>, Seq<char>)>)
    ensures
        template::parameters(chat_arguments(args)) == if args.len() == 0 {
            seq![]
        } else {
            lines(args) + seq!['\n']
        },
    decreases args.len(),
{
    lemma_markers();
    let a = chat_arguments(args);
    if args.len() > 0 {
        assert(a.drop_last() =~= chat_arguments(args.drop_last()));
        lemma_parameters(args.drop_last());
        let x = argument_lines(args.last()) + seq!['\n'];
        assert(template::parameters(a) =~= template::parameters(a.drop_last()) + x);
        if args.len() == 1 {
            assert(template::parameters(a) =~= lines(args) + seq!['\n']);
        } else {
            lemma_lines_back(args);
            assert(template::parameters(a) =~= lines(args) + seq!['\n']);
        }
    }
}

/// The longer end stands where the shorter one does.
proof fn lemma_ends(whole: Seq<char>, j: int)
    requires
        text::matches_at(whole, "\n</parameter>\n"@, j),
    ensures
        text::matches_at(whole, "\n</parameter>"@, j),
{
    lemma_markers();
    let short = "\n</parameter>"@;
    let long = "\n</parameter>\n"@;
    assert forall|k: int| 0 <= k < short.len() implies whole[j + k] == short[k] by {
        assert(whole.subrange(j, j + long.len())[k] == long[k]);
    }
    assert(whole.subrange(j, j + short.len()) =~= short);
}

/// A last value has no end with a line break in it.
proof fn lemma_last_value(v: Seq<char>)
    requires
        delimited(v, "\n</parameter>"@),
    ensures
        !text::has_text(v + "\n</parameter>"@, "\n</parameter>\n"@),
{
    lemma_markers();
    let whole = v + "\n</parameter>"@;
    text::lemma_find_from(whole, "\n</parameter>"@, 0);
    text::lemma_find_from(whole, "\n</parameter>\n"@, 0);
    if text::has_text(whole, "\n</parameter>\n"@) {
        let j = text::find_from(whole, "\n</parameter>\n"@, 0)->0;
        lemma_ends(whole, j);
    }
}

/// Arguments, read from where they were written.
proof fn lemma_arguments_read_back(args: Seq<(Seq<char>, Seq<char>)>)
    requires
        plain_arguments(args),
    ensures
        reply::parameters_of(lines(args)) == Ok::<Seq<(Seq<char>, Seq<char>)>, Seq<char>>(args),
        args.len() > 0 ==> lines(args).len() > 0 && lines(args)[0] == '<' && lines(args).last()
            == '>',
    decreases args.len(),
{
    lemma_markers();
    if args.len() == 0 {
        assert(args =~= seq![]);
    } else {
        let (key, val) = args[0];
        let rest = args.drop_first();
        lemma_arguments_read_back(rest);
        let all = lines(args);
        let behind = if args.len() == 1 {
            seq![]
        } else {
            seq!['\n'] + lines(rest)
        };
        let body = val + "\n</parameter>"@ + behind;
        let r = key + ">\n"@ + body;
        assert(all =~= "<parameter="@ + r);
        assert(all.subrange(0, "<parameter="@.len() as int) =~= "<parameter="@);
        assert(all.skip("<parameter="@.len() as int) =~= r);
        search::lemma_first_extends(key, ">\n"@, body);
        if args.len() == 1 {
            assert(body =~= val + "\n</parameter>"@ + seq![]);
            assert(body =~= val + "\n</parameter>"@);
            lemma_last_value(val);
            search::lemma_first_extends(val, "\n</parameter>"@, seq![]);
            assert(rest =~= seq![]);
            assert(seq![(key, val)] + rest =~= args);
        } else {
            assert(body =~= val + "\n</parameter>\n"@ + lines(rest));
            search::lemma_first_extends(val, "\n</parameter>\n"@, lines(rest));
            assert(text::trim_start(lines(rest), Class::Newline) == lines(rest));
            assert(seq![(key, val)] + rest =~= args);
        }
    }
}

// ---------------------------------------------------------------------------
// calls
// ---------------------------------------------------------------------------
/// The inside of a written call.
#[verifier::opaque]
spec fn inner(c: WrittenCall) -> Seq<char> {
    seq!['\n'] + "<function="@ + c.name + ">\n"@ + template::parameters(chat_arguments(c.arguments))
        + "</function>"@ + seq!['\n']
}

proof fn lemma_call_reads_back(c: WrittenCall)
    requires
        plain_call(c),
    ensures
        reply::call_in(inner(c)) == Ok::<WrittenCall, Seq<char>>(c),
{
    lemma_markers();
    reveal(inner);
    let params = template::parameters(chat_arguments(c.arguments));
    let rest = c.name + ">\n"@ + (params + "</function>"@);
    let body = "<function="@ + rest;
    lemma_parameters(c.arguments);
    lemma_arguments_read_back(c.arguments);
    assert(inner(c) =~= seq!['\n'] + body + seq!['\n']);
    assert(body.last() == '>') by {
        assert(body.last() == "</function>"@.last());
    }
    search::lemma_trim_is(seq!['\n'], body, seq!['\n'], Class::Newline);
    assert(body.subrange(0, "<function="@.len() as int) =~= "<function="@);
    assert(body.skip("<function="@.len() as int) =~= rest);
    search::lemma_first_extends(c.name, ">\n"@, params + "</function>"@);
    let tail = params + "</function>"@;
    assert(tail.last() == '>');
    assert(text::trim_end(tail, Class::Newline) == tail);
    assert(tail.subrange(tail.len() - "</function>"@.len(), tail.len() as int) =~= "</function>"@);
    assert(tail.take(tail.len() - "</function>"@.len()) =~= params);
    if c.arguments.len() == 0 {
        assert(params =~= seq![]);
        assert(text::trim(params, Class::Newline) =~= lines(c.arguments));
    } else {
        assert(params =~= seq![] + lines(c.arguments) + seq!['\n']);
        search::lemma_trim_is(seq![], lines(c.arguments), seq!['\n'], Class::Newline);
    }
}

/// A written argument does not close its call.
proof fn lemma_lines_free(args: Seq<(Seq<char>, Seq<char>)>)
    requires
        plain_arguments(args),
    ensures
        !text::has_text(lines(args), "</tool_call>"@),
    decreases args.len(),
{
    lemma_markers();
    lemma_markers_on_line();
    let p = "</tool_call>"@;
    if args.len() == 0 {
        search::lemma_free_short(lines(args), p);
    } else {
        let (key, val) = args[0];
        let open = "<parameter="@ + key + ">"@;
        let close = "</parameter>"@;
        lemma_parameter_end_free();
        search::lemma_free_lines(open, val, p);
        search::lemma_free_lines(open + seq!['\n'] + val, close, p);
        assert(argument_lines(args[0]) =~= open + seq!['\n'] + val + seq!['\n'] + close);
        if args.len() > 1 {
            lemma_lines_free(args.drop_first());
            search::lemma_free_lines(argument_lines(args[0]), lines(args.drop_first()), p);
        }
    }
}

/// A written call closes where it ends.
proof fn lemma_inner_free(c: WrittenCall)
    requires
        plain_call(c),
    ensures
        !text::has_text(inner(c), "</tool_call>"@),
        inner(c).last() == '\n',
        inner(c).len() > 0,
{
    lemma_markers();
    lemma_markers_on_line();
    reveal(inner);
    let p = "</tool_call>"@;
    let open = "<function="@ + c.name + ">"@;
    let close = "</function>"@;
    let none = Seq::<char>::empty();
    lemma_parameters(c.arguments);
    lemma_lines_free(c.arguments);
    search::lemma_free_short(none, p);
    search::lemma_free_short(close, p);
    search::lemma_free_lines(none, open, p);
    let head = none + seq!['\n'] + open;
    let mid = if c.arguments.len() == 0 {
        head
    } else {
        head + seq!['\n'] + lines(c.arguments)
    };
    if c.arguments.len() > 0 {
        search::lemma_free_lines(head, lines(c.arguments), p);
    }
    search::lemma_free_lines(mid, close, p);
    search::lemma_free_lines(mid + seq!['\n'] + close, none, p);
    assert(inner(c) =~= mid + seq!['\n'] + close + seq!['\n'] + none);
}

/// Written calls, from the first one's tag on.
spec fn blocks(calls: Seq<WrittenCall>) -> Seq<char>
    decreases calls.len(),
{
    if calls.len() == 0 {
        seq![]
    } else {
        "<tool_call>"@ + inner(calls[0]) + "</tool_call>"@ + if calls.len() == 1 {
            seq![]
        } else {
            seq!['\n'] + blocks(calls.drop_first())
        }
    }
}

proof fn lemma_blocks_back(calls: Seq<WrittenCall>)
    requires
        calls.len() > 1,
    ensures
        blocks(calls) == blocks(calls.drop_last()) + seq!['\n'] + ("<tool_call>"@ + inner(
            calls.last(),
        ) + "</tool_call>"@),
    decreases calls.len(),
{
    let rest = calls.drop_first();
    let x = "<tool_call>"@ + inner(calls.last()) + "</tool_call>"@;
    if calls.len() == 2 {
        assert(blocks(rest) =~= x);
        assert(calls.drop_last().len() == 1);
        assert(blocks(calls.drop_last()) =~= "<tool_call>"@ + inner(calls[0]) + "</tool_call>"@);
        assert(blocks(calls) =~= blocks(calls.drop_last()) + seq!['\n'] + x);
    } else {
        lemma_blocks_back(rest);
        assert(rest.drop_last() =~= calls.drop_last().drop_first());
        assert(blocks(calls) =~= blocks(calls.drop_last()) + seq!['\n'] + x);
    }
}

/// What joins the first call to what is said.
spec fn joint(said: Seq<char>) -> Seq<char> {
    if template::stripped(said).len() > 0 {
        "\n\n"@
    } else {
        seq![]
    }
}

/// What the template writes for one call, from its tag on.
proof fn lemma_call_text(c: WrittenCall)
    ensures
        "<tool_call>"@ + seq!['\n'] + "<function="@ + template::call_body(reply::chat_call(c))
            == "<tool_call>"@ + inner(c) + "</tool_call>"@,
{
    lemma_markers();
    lemma_joints();
    reveal(inner);
    assert(reply::chat_call(c).arguments =~= chat_arguments(c.arguments));
    assert("<tool_call>"@ + seq!['\n'] + "<function="@ + template::call_body(reply::chat_call(c))
        =~= "<tool_call>"@ + inner(c) + "</tool_call>"@);
}

/// What the template writes for calls.
proof fn lemma_calls_text(calls: Seq<WrittenCall>, said: Seq<char>)
    ensures
        template::calls_text(reply::chat_calls(calls), said) == if calls.len() == 0 {
            seq![]
        } else {
            joint(said) + blocks(calls)
        },
    decreases calls.len(),
{
    lemma_joints();
    let cs = reply::chat_calls(calls);
    if calls.len() > 0 {
        assert(cs.drop_last() =~= reply::chat_calls(calls.drop_last()));
        lemma_calls_text(calls.drop_last(), said);
        let c = calls.last();
        let x = "<tool_call>"@ + inner(c) + "</tool_call>"@;
        let body = template::call_body(reply::chat_call(c));
        let before = template::calls_text(cs.drop_last(), said);
        lemma_call_text(c);
        assert(template::calls_text(cs, said) == before + template::call_opening(
            cs.len() - 1,
            said,
        ) + body);
        if calls.len() == 1 {
            assert(calls[0] == c);
            assert(blocks(calls) =~= x);
            assert(before =~= seq![]);
            assert(template::call_opening(0, said) =~= joint(said) + ("<tool_call>"@ + seq!['\n']
                + "<function="@));
            assert(template::calls_text(cs, said) =~= joint(said) + ("<tool_call>"@ + seq!['\n']
                + "<function="@ + body));
        } else {
            lemma_blocks_back(calls);
            assert(template::call_opening(cs.len() - 1, said) =~= seq!['\n'] + ("<tool_call>"@
                + seq!['\n'] + "<function="@));
            assert(template::calls_text(cs, said) =~= before + seq!['\n'] + ("<tool_call>"@
                + seq!['\n'] + "<function="@ + body));
            assert(template::calls_text(cs, said) =~= joint(said) + blocks(calls));
        }
    }
}

/// Calls, read from where they were written: behind text that ends a line.
proof fn lemma_blocks_read_back(before: Seq<char>, calls: Seq<WrittenCall>)
    requires
        forall|i: int| 0 <= i < calls.len() ==> plain_call(#[trigger] calls[i]),
        !text::has_text(before, "<tool_call>"@),
        before.len() > 0 ==> before.last() == '\n',
    ensures
        reply::calls_in(before + blocks(calls)) == Ok::<Seq<WrittenCall>, Seq<char>>(calls),
        calls.len() > 0 ==> text::before_first(before + blocks(calls), "<tool_call>"@) == before,
    decreases calls.len(),
{
    lemma_markers();
    lemma_markers_on_line();
    let open = "<tool_call>"@;
    let close = "</tool_call>"@;
    if calls.len() == 0 {
        assert(before + blocks(calls) =~= before);
        assert(calls =~= seq![]);
    } else {
        let c = calls[0];
        let rest = calls.drop_first();
        let behind = if calls.len() == 1 {
            seq![]
        } else {
            seq!['\n'] + blocks(rest)
        };
        let after = inner(c) + close + behind;
        assert(before + blocks(calls) =~= before + open + after);
        search::lemma_first_on_line(before, open, after);
        lemma_inner_free(c);
        search::lemma_first_on_line(inner(c), close, behind);
        lemma_call_reads_back(c);
        assert forall|i: int| 0 <= i < rest.len() implies plain_call(#[trigger] rest[i]) by {
            assert(rest[i] == calls[i + 1]);
        }
        if calls.len() == 1 {
            assert(rest =~= seq![]);
            search::lemma_free_short(behind, open);
        } else {
            search::lemma_free_short(seq!['\n'], open);
            lemma_blocks_read_back(seq!['\n'], rest);
        }
        assert(reply::calls_in(behind) == Ok::<Seq<WrittenCall>, Seq<char>>(rest));
        assert(seq![c] + rest =~= calls);
    }
}

// ---------------------------------------------------------------------------
// replies
// ---------------------------------------------------------------------------
/// A thought, read from where it was written.
proof fn lemma_thought_reads_back(thought: Seq<char>, answer: Seq<char>)
    requires
        search::tight(thought, Class::PythonSpace),
        !text::has_text(thought, THINK_CLOSE@),
        !text::has_text(thought, THINK_OPEN@),
        answer.len() > 0 ==> answer[0] != '\n',
    ensures
        ({
            let t = THINK_OPEN@ + seq!['\n'] + thought + seq!['\n'] + THINK_CLOSE@ + ("\n\n"@
                + answer);
            &&& text::has_text(t, THINK_CLOSE@)
            &&& template::stripped(
                text::after_last(text::before_first(t, THINK_CLOSE@), THINK_OPEN@),
            ) == thought
            &&& reply::answer_in(t) == answer
        }),
{
    lemma_markers();
    lemma_markers_on_line();
    let open = THINK_OPEN@;
    let close = THINK_CLOSE@;
    let none = Seq::<char>::empty();
    let head = open + seq!['\n'] + thought + seq!['\n'];
    let t = head + close + ("\n\n"@ + answer);
    search::lemma_free_short(open, close);
    search::lemma_free_short(none, close);
    search::lemma_free_lines(open, thought, close);
    search::lemma_free_lines(open + seq!['\n'] + thought, none, close);
    assert(head =~= open + seq!['\n'] + thought + seq!['\n'] + none);
    search::lemma_first_on_line(head, close, "\n\n"@ + answer);
    // The last opening tag is the first one.
    let n = head.len() as int;
    search::lemma_find_back(head, open, n);
    assert(head.subrange(0, 7) =~= open);
    assert(text::matches_at(head, open, 0));
    let tail = thought + seq!['\n'];
    search::lemma_free_short(none, open);
    search::lemma_free_lines(thought, none, open);
    assert(tail =~= thought + seq!['\n'] + none);
    text::lemma_find_from(tail, open, 0);
    assert forall|j: int| 0 < j implies !#[trigger] text::matches_at(head, open, j) by {
        if text::matches_at(head, open, j) {
            let s = head.subrange(j, j + 7);
            if j <= 7 {
                assert(s[7 - j] == head[7]);
                assert(open[7 - j] == '\n');
            } else {
                assert(tail.subrange(j - 8, j - 8 + 7) =~= s);
                assert(text::matches_at(tail, open, j - 8));
            }
        }
    }
    assert(text::find_back(head, open, n) == Some(0int));
    assert(head.skip(7) =~= seq!['\n'] + thought + seq!['\n']);
    search::lemma_trim_is(seq!['\n'], thought, seq!['\n'], Class::PythonSpace);
    // The answer stands behind the blank line.
    search::lemma_trim_is("\n\n"@, none, none, Class::Newline);
    assert(text::trim_start("\n\n"@ + answer, Class::Newline) == answer) by {
        let a = "\n\n"@ + answer;
        assert(a.skip(1) =~= seq!['\n'] + answer);
        assert(a.skip(1).skip(1) =~= answer);
        reveal_with_fuel(text::trim_start, 3);
    }
}

/// What was written down unambiguously is read back: the same thought, the same words,
/// the same calls with the same arguments in the same order.
pub proof fn written_reply_reads_back(
    thought: Seq<char>,
    said: Seq<char>,
    calls: Seq<WrittenCall>,
)
    requires
        unambiguous(thought, said, calls),
    ensures
        reply::reply_in(written(thought, said, calls)) == (ReplyModel {
            reasoning: Some(thought),
            content: said,
            tool_calls: calls,
        }),
{
    lemma_markers();
    lemma_markers_on_line();
    let open = "<tool_call>"@;
    lemma_calls_text(calls, said);
    search::lemma_trim_tight(said, Class::PythonSpace);
    let answer = said + template::calls_text(reply::chat_calls(calls), said);
    if said.len() > 0 {
        assert(answer[0] == said[0]);
    } else if calls.len() > 0 {
        assert(answer =~= blocks(calls));
        assert(blocks(calls)[0] == '<');
    }
    assert(written(thought, said, calls) =~= THINK_OPEN@ + seq!['\n'] + thought + seq!['\n']
        + THINK_CLOSE@ + ("\n\n"@ + answer));
    lemma_thought_reads_back(thought, answer);
    if calls.len() == 0 {
        assert(answer =~= said);
        assert(calls =~= seq![]);
    } else {
        let before = said + joint(said);
        assert(answer =~= before + blocks(calls));
        if said.len() > 0 {
            let none = Seq::<char>::empty();
            search::lemma_free_short(none, open);
            search::lemma_free_lines(said, none, open);
            search::lemma_free_lines(said + seq!['\n'] + none, none, open);
            assert(before =~= said + seq!['\n'] + none + seq!['\n'] + none);
        } else {
            assert(before =~= seq![]);
            search::lemma_free_short(before, open);
        }
        lemma_blocks_read_back(before, calls);
        if said.len() > 0 {
            assert(before =~= seq![] + said + "\n\n"@);
            search::lemma_trim_is(seq![], said, "\n\n"@, Class::PythonSpace);
        } else {
            search::lemma_trim_tight(before, Class::PythonSpace);
        }
    }
}

// ---------------------------------------------------------------------------
// what was read is unambiguous
// ---------------------------------------------------------------------------
/// What stands behind a part stands in the whole.
proof fn lemma_suffix_stands(whole: Seq<char>, k: int)
    requires
        0 <= k <= whole.len(),
    ensures
        text::matches_at(whole, whole.skip(k), k),
{
    assert(whole.subrange(k, whole.len() as int) =~= whole.skip(k));
}

/// What is trimmed stands in what it was trimmed from.
proof fn lemma_trim_stands(s: Seq<char>, class: Class)
    ensures
        exists|i: int| text::matches_at(s, text::trim(s, class), i),
{
    let ends = search::lemma_trim_parts(s, class);
    search::lemma_stands(ends.0, text::trim(s, class), ends.1);
    assert(text::matches_at(s, text::trim(s, class), ends.0.len() as int));
}

/// What is trimmed from a text that does not hold `part` does not hold it.
proof fn lemma_trim_free(s: Seq<char>, class: Class, part: Seq<char>)
    requires
        !text::has_text(s, part),
    ensures
        !text::has_text(text::trim(s, class), part),
{
    lemma_trim_stands(s, class);
    let i = choose|i: int| text::matches_at(s, text::trim(s, class), i);
    search::lemma_free_part(s, text::trim(s, class), part, i);
}

/// A value that is delimited by the shorter end is delimited by the longer one.
proof fn lemma_longer_end(v: Seq<char>)
    requires
        delimited(v, "\n</parameter>"@),
    ensures
        delimited(v, "\n</parameter>\n"@),
{
    lemma_markers();
    let short = "\n</parameter>"@;
    let long = "\n</parameter>\n"@;
    text::lemma_find_from(v + short, short, 0);
    search::lemma_stands(v, long, seq![]);
    assert(v + long =~= v + short + seq!['\n']);
    assert forall|j: int| 0 <= j < v.len() implies !#[trigger] text::matches_at(
        v + long,
        long,
        j,
    ) by {
        if text::matches_at(v + long, long, j) {
            lemma_ends(v + long, j);
            assert((v + short).subrange(j, j + short.len()) =~= (v + long).subrange(
                j,
                j + short.len(),
            ));
            assert(text::matches_at(v + short, short, j));
        }
    }
    search::lemma_first_is(v + long, long, v.len() as int);
}

/// The arguments that are read from a block can be told apart.
proof fn lemma_read_arguments(block: Seq<char>, rest: Seq<char>, at: int)
    requires
        !text::has_text(block, "</tool_call>"@),
        text::matches_at(block, rest, at),
        rest.len() > 0 ==> rest.last() != '\n',
        reply::parameters_of(rest) is Ok,
    ensures
        plain_arguments(reply::parameters_of(rest)->Ok_0),
    decreases rest.len(),
{
    lemma_markers();
    let p = "</tool_call>"@;
    let open = "<parameter="@;
    let short = "\n</parameter>"@;
    let long = "\n</parameter>\n"@;
    if rest.len() > 0 {
        let n = open.len() as int;
        let r = rest.skip(n);
        let key = text::before_first(r, ">\n"@);
        let body = text::after_first(r, ">\n"@);
        let end = if text::has_text(body, long) {
            long
        } else {
            short
        };
        let val = text::before_first(body, end);
        let behind = text::after_first(body, end);
        let next = text::trim_start(behind, Class::Newline);
        lemma_suffix_stands(rest, n);
        search::lemma_nested(block, rest, r, at, n);
        search::lemma_before_first(r, ">\n"@);
        search::lemma_before_first(body, end);
        // The opening line is a part of the block.
        let line = open + key + ">"@;
        assert(rest =~= line + seq!['\n'] + body) by {
            assert(rest.take(n) =~= open) by {
                assert(rest.subrange(0, n) =~= open);
            }
            assert(rest =~= rest.take(n) + r);
        }
        assert(rest.subrange(0, line.len() as int) =~= line);
        search::lemma_nested(block, rest, line, at, 0);
        search::lemma_free_part(block, line, p, at);
        // So is the value.
        let m = n + key.len() + 2;
        search::lemma_nested(block, r, body, at + n, (key.len() + 2) as int);
        search::lemma_nested(block, body, val, at + m, 0);
        search::lemma_free_part(block, val, p, at + m);
        // And what follows.
        search::lemma_trim_start(behind, Class::Newline);
        let k = behind.len() - next.len();
        lemma_suffix_stands(behind, k);
        search::lemma_nested(block, body, behind, at + m, (val.len() + end.len()) as int);
        search::lemma_nested(
            block,
            behind,
            next,
            at + m + val.len() + end.len(),
            k,
        );
        assert(body.len() > 0);
        assert(rest.last() == body.last());
        if next.len() > 0 {
            assert(next.last() == behind.last());
            assert(behind.last() == body.last());
        }
        text::lemma_trim_start_shorter(behind, Class::Newline);
        lemma_read_arguments(block, next, at + m + val.len() + end.len() + k);
        let tail = reply::parameters_of(next)->Ok_0;
        let args = reply::parameters_of(rest)->Ok_0;
        assert(args =~= seq![(key, val)] + tail);
        assert(args.drop_first() =~= tail);
        if tail.len() == 0 {
            lemma_no_arguments(next);
            if end == long {
                if behind.len() > 0 {
                    assert(behind.take(k) =~= behind);
                    assert(text::in_class(Class::Newline, behind[behind.len() - 1]));
                    assert(behind.last() == body.last());
                } else {
                    assert(body.last() == long.last());
                }
            }
        } else if end == short {
            lemma_longer_end(val);
        }
    }
}

/// No arguments are read from nothing alone.
proof fn lemma_no_arguments(rest: Seq<char>)
    requires
        reply::parameters_of(rest) is Ok,
        reply::parameters_of(rest)->Ok_0.len() == 0,
    ensures
        rest.len() == 0,
{
}

/// The call that is read from a block can be told from what stands round it.
proof fn lemma_read_call(block: Seq<char>)
    requires
        !text::has_text(block, "</tool_call>"@),
        reply::call_in(block) is Ok,
    ensures
        plain_call(reply::call_in(block)->Ok_0),
{
    lemma_markers();
    let p = "</tool_call>"@;
    let open = "<function="@;
    let body = text::trim(block, Class::Newline);
    lemma_trim_stands(block, Class::Newline);
    let at = choose|i: int| text::matches_at(block, body, i);
    let n = open.len() as int;
    let rest = body.skip(n);
    let name = text::before_first(rest, ">\n"@);
    let after = text::after_first(rest, ">\n"@);
    let tail = text::trim_end(after, Class::Newline);
    let params = tail.take(tail.len() - "</function>"@.len());
    let args = text::trim(params, Class::Newline);
    search::lemma_before_first(rest, ">\n"@);
    lemma_suffix_stands(body, n);
    search::lemma_nested(block, body, rest, at, n);
    let line = open + name + ">"@;
    assert(body =~= line + seq!['\n'] + after) by {
        assert(body.subrange(0, n) =~= open);
        assert(body =~= body.subrange(0, n) + rest);
    }
    assert(body.subrange(0, line.len() as int) =~= line);
    search::lemma_nested(block, body, line, at, 0);
    search::lemma_free_part(block, line, p, at);
    // The parameters are a part of the block.
    let k = at + n + name.len() + 2;
    search::lemma_nested(block, rest, after, at + n, (name.len() + 2) as int);
    search::lemma_trim_end(after, Class::Newline);
    assert(after.subrange(0, params.len() as int) =~= params);
    search::lemma_nested(block, after, params, k, 0);
    lemma_trim_stands(params, Class::Newline);
    let j = choose|i: int| text::matches_at(params, args, i);
    search::lemma_nested(block, params, args, k, j);
    let ends = search::lemma_trim_parts(params, Class::Newline);
    lemma_read_arguments(block, args, k + j);
}

/// The calls that are read can be told from what stands round them.
proof fn lemma_read_calls(rest: Seq<char>)
    requires
        reply::calls_in(rest) is Ok,
    ensures
        forall|i: int|
            0 <= i < reply::calls_in(rest)->Ok_0.len() ==> plain_call(
                #[trigger] reply::calls_in(rest)->Ok_0[i],
            ),
    decreases rest.len(),
{
    lemma_markers();
    if text::has_text(rest, "<tool_call>"@) {
        let after = text::after_first(rest, "<tool_call>"@);
        let block = text::before_first(after, "</tool_call>"@);
        let next = text::after_first(after, "</tool_call>"@);
        text::lemma_find_from(rest, "<tool_call>"@, 0);
        text::lemma_find_from(after, "</tool_call>"@, 0);
        search::lemma_before_first_free(after, "</tool_call>"@);
        lemma_read_call(block);
        lemma_read_calls(next);
        let call = reply::call_in(block)->Ok_0;
        let tail = reply::calls_in(next)->Ok_0;
        let calls = reply::calls_in(rest)->Ok_0;
        assert(calls =~= seq![call] + tail);
        assert forall|i: int| 0 <= i < calls.len() implies plain_call(#[trigger] calls[i]) by {
            if i > 0 {
                assert(calls[i] == tail[i - 1]);
            }
        }
    }
}

/// Whether `part` holds no white space.
spec fn solid(part: Seq<char>) -> bool {
    forall|i: int| 0 <= i < part.len() ==> !text::in_class(Class::PythonSpace, #[trigger] part[i])
}

proof fn lemma_markers_solid()
    ensures
        solid("<tool_call>"@),
        solid("</tool_call>"@),
{
    reveal_strlit("<tool_call>");
    reveal_strlit("</tool_call>");
}

/// A marker stands in a text with white space round it where it stands in the text.
proof fn lemma_padded_first(x: Seq<char>, s: Seq<char>, y: Seq<char>, part: Seq<char>)
    requires
        search::all_in(x, Class::PythonSpace),
        search::all_in(y, Class::PythonSpace),
        solid(part),
        part.len() > 0,
    ensures
        text::has_text(x + s + y, part) == text::has_text(s, part),
        text::has_text(s, part) ==> text::before_first(x + s + y, part) == x
            + text::before_first(s, part) && text::after_first(x + s + y, part)
            == text::after_first(s, part) + y,
{
    let whole = x + s + y;
    let n = x.len() as int;
    search::lemma_stands(x, s, y);
    text::lemma_find_from(s, part, 0);
    text::lemma_find_from(whole, part, 0);
    assert forall|j: int| #[trigger] text::matches_at(whole, part, j) implies n <= j
        && text::matches_at(s, part, j - n) by {
        let t = whole.subrange(j, j + part.len());
        assert(t[0] == part[0]);
        assert(t[part.len() - 1] == part[part.len() - 1]);
        if j < n {
            assert(whole[j] == x[j]);
        }
        if j + part.len() > n + s.len() {
            let e = j + part.len() - 1;
            assert(whole[e] == y[e - n - s.len()]);
        }
        assert(s.subrange(j - n, j - n + part.len()) =~= t);
    }
    if text::has_text(s, part) {
        let i = text::find_from(s, part, 0)->0;
        search::lemma_nested(whole, s, part, n, i);
        search::lemma_first_is(whole, part, n + i);
        assert(whole.take(n + i) =~= x + s.take(i));
        assert(whole.skip(n + i + part.len()) =~= s.skip(i + part.len()) + y);
    }
}

/// White space round a text does not change the calls in it.
proof fn lemma_padded_calls(x: Seq<char>, s: Seq<char>, y: Seq<char>)
    requires
        search::all_in(x, Class::PythonSpace),
        search::all_in(y, Class::PythonSpace),
    ensures
        reply::calls_in(x + s + y) == reply::calls_in(s),
    decreases s.len(),
{
    lemma_markers();
    lemma_markers_solid();
    let open = "<tool_call>"@;
    let close = "</tool_call>"@;
    let none = Seq::<char>::empty();
    lemma_padded_first(x, s, y, open);
    if text::has_text(s, open) {
        let after = text::after_first(s, open);
        text::lemma_find_from(s, open, 0);
        assert(none + after + y =~= after + y);
        lemma_padded_first(none, after, y, close);
        if text::has_text(after, close) {
            let next = text::after_first(after, close);
            text::lemma_find_from(after, close, 0);
            assert(none + text::before_first(after, close) =~= text::before_first(after, close));
            assert(none + next + y =~= next + y);
            lemma_padded_calls(none, next, y);
        }
    }
}

/// The thought of a reply: nothing where it has none.
pub open spec fn thought_of(r: ReplyModel) -> Seq<char> {
    match r.reasoning {
        Some(t) => t,
        None => seq![],
    }
}

/// What is read from a text is unambiguous.
pub proof fn read_reply_is_unambiguous(t: Seq<char>)
    ensures
        ({
            let r = reply::reply_in(t);
            unambiguous(thought_of(r), r.content, r.tool_calls)
        }),
{
    lemma_markers();
    let r = reply::reply_in(t);
    let body = reply::answer_in(t);
    let open = "<tool_call>"@;
    if text::has_text(t, THINK_CLOSE@) {
        let head = text::before_first(t, THINK_CLOSE@);
        let tail = text::after_last(head, THINK_OPEN@);
        search::lemma_before_first_free(t, THINK_CLOSE@);
        search::lemma_after_last_free(head, THINK_OPEN@);
        let i = choose|i: int| text::matches_at(head, tail, i);
        search::lemma_free_part(head, tail, THINK_CLOSE@, i);
        lemma_trim_free(tail, Class::PythonSpace, THINK_CLOSE@);
        lemma_trim_free(tail, Class::PythonSpace, THINK_OPEN@);
        let ends = search::lemma_trim_parts(tail, Class::PythonSpace);
    } else {
        search::lemma_free_short(seq![], THINK_CLOSE@);
        search::lemma_free_short(seq![], THINK_OPEN@);
    }
    match reply::calls_in(body) {
        Ok(calls) => {
            let said = text::before_first(body, open);
            search::lemma_before_first_free(body, open);
            lemma_trim_free(said, Class::PythonSpace, open);
            let ends = search::lemma_trim_parts(said, Class::PythonSpace);
            lemma_read_calls(body);
        },
        Err(_) => {
            let ends = search::lemma_trim_parts(body, Class::PythonSpace);
            lemma_padded_calls(ends.0, r.content, ends.1);
        },
    }
}

/// A reply that was read is written as its thought, its content and its calls.
proof fn lemma_rendered_is_written(t: Seq<char>)
    ensures
        ({
            let r = reply::reply_in(t);
            rendered(r) == written(thought_of(r), r.content, r.tool_calls)
        }),
{
    let r = reply::reply_in(t);
    let said = r.content;
    let calls = reply::chat_calls(r.tool_calls);
    read_reply_is_unambiguous(t);
    search::lemma_trim_tight(said, Class::PythonSpace);
    search::lemma_trim_tight(thought_of(r), Class::PythonSpace);
    if r.reasoning is None {
        // Without a closing tag in the text there is none in its content.
        let body = reply::answer_in(t);
        match reply::calls_in(body) {
            Ok(_) => {
                let cut = text::before_first(body, "<tool_call>"@);
                if text::has_text(body, "<tool_call>"@) {
                    search::lemma_before_first(body, "<tool_call>"@);
                } else {
                    assert(body.subrange(0, body.len() as int) =~= body);
                }
                search::lemma_free_part(body, cut, THINK_CLOSE@, 0);
                lemma_trim_free(cut, Class::PythonSpace, THINK_CLOSE@);
            },
            Err(_) => {
                lemma_trim_free(body, Class::PythonSpace, THINK_CLOSE@);
            },
        }
        assert(!text::has_text(said, THINK_CLOSE@));
    }
    assert(template::split_thought(r.reasoning, said) == (thought_of(r), said));
    assert(rendered(r) =~= written(thought_of(r), said, r.tool_calls));
}

/// Parsing any continuation, rendering it, parsing that and rendering it again gives the
/// same text as rendering it once.
pub proof fn render_parse_render_is_stable(t: Seq<char>)
    ensures
        rendered(reply::reply_in(rendered(reply::reply_in(t)))) == rendered(reply::reply_in(t)),
{
    let r = reply::reply_in(t);
    let w = rendered(r);
    read_reply_is_unambiguous(t);
    lemma_rendered_is_written(t);
    written_reply_reads_back(thought_of(r), r.content, r.tool_calls);
    lemma_rendered_is_written(w);
}

/// A call with its arguments as the template writes them.
pub open spec fn written_form(c: CallModel) -> WrittenCall {
    WrittenCall {
        name: c.name,
        arguments: Seq::new(
            c.arguments.len(),
            |i: int| (c.arguments[i].0, template::argument(c.arguments[i].1)),
        ),
    }
}

/// Calls with their arguments as the template writes them.
pub open spec fn written_forms(calls: Seq<CallModel>) -> Seq<WrittenCall> {
    Seq::new(calls.len(), |i: int| written_form(calls[i]))
}

/// An argument that is a text is written as it is.
proof fn lemma_parameters_as_written(args: Seq<(Seq<char>, Json)>)
    ensures
        template::parameters(args) == template::parameters(
            Seq::new(
                args.len(),
                |i: int| (args[i].0, Json::Str(template::argument(args[i].1))),
            ),
        ),
    decreases args.len(),
{
    let b = Seq::new(
        args.len(),
        |i: int| (args[i].0, Json::Str(template::argument(args[i].1))),
    );
    if args.len() > 0 {
        let init = args.drop_last();
        lemma_parameters_as_written(init);
        assert(b.drop_last() =~= Seq::new(
            init.len(),
            |i: int| (init[i].0, Json::Str(template::argument(init[i].1))),
        ));
    } else {
        assert(b =~= args);
    }
}

/// Calls are written the same with their arguments as texts.
proof fn lemma_calls_as_written(calls: Seq<CallModel>, said: Seq<char>)
    ensures
        template::calls_text(calls, said) == template::calls_text(
            reply::chat_calls(written_forms(calls)),
            said,
        ),
    decreases calls.len(),
{
    let b = reply::chat_calls(written_forms(calls));
    if calls.len() > 0 {
        let c = calls.last();
        lemma_calls_as_written(calls.drop_last(), said);
        assert(b.drop_last() =~= reply::chat_calls(written_forms(calls.drop_last())));
        lemma_parameters_as_written(c.arguments);
        assert(b.last().arguments =~= Seq::new(
            c.arguments.len(),
            |i: int| (c.arguments[i].0, Json::Str(template::argument(c.arguments[i].1))),
        ));
    }
}

/// Calls, read from behind what is said before them.
pub(crate) proof fn lemma_calls_behind(before: Seq<char>, said: Seq<char>, calls: Seq<CallModel>)
    requires
        !text::has_text(before + said, "<tool_call>"@),
        said.len() == 0 && before.len() > 0 ==> before.last() == '\n',
        said.len() > 0 ==> template::stripped(said).len() > 0,
        forall|i: int| 0 <= i < calls.len() ==> plain_call(written_form(#[trigger] calls[i])),
    ensures
        ({
            let t = before + said + template::calls_text(calls, said);
            &&& reply::calls_in(t) == Ok::<Seq<WrittenCall>, Seq<char>>(written_forms(calls))
            &&& text::before_first(t, "<tool_call>"@) == before + said || text::before_first(
                t,
                "<tool_call>"@,
            ) == before + said + "\n\n"@
        }),
{
    lemma_markers();
    lemma_markers_on_line();
    let open = "<tool_call>"@;
    let forms = written_forms(calls);
    let none = Seq::<char>::empty();
    lemma_calls_as_written(calls, said);
    lemma_calls_text(forms, said);
    let t = before + said + template::calls_text(calls, said);
    let head = before + said;
    search::lemma_trim_all(none, Class::PythonSpace);
    assert forall|i: int| 0 <= i < forms.len() implies plain_call(#[trigger] forms[i]) by {
        assert(plain_call(written_form(calls[i])));
    }
    if calls.len() == 0 {
        assert(t =~= head);
        assert(forms =~= seq![]);
    } else if said.len() > 0 {
        let whole = head + "\n\n"@;
        search::lemma_free_short(none, open);
        search::lemma_free_lines(head, none, open);
        search::lemma_free_lines(head + seq!['\n'] + none, none, open);
        assert(whole =~= head + seq!['\n'] + none + seq!['\n'] + none);
        assert(t =~= whole + blocks(forms));
        lemma_blocks_read_back(whole, forms);
    } else {
        assert(said =~= none);
        assert(head =~= before);
        assert(t =~= before + blocks(forms));
        lemma_blocks_read_back(before, forms);
    }
}

/// An assistant message of the current turn, rendered, parsed and rendered again, comes
/// out as the same text, and what was parsed is its thought, what it says and its calls.
/// Its parts have to be such that they can be told apart once they are written: see
/// [`unambiguous`].
pub proof fn message_survives_render_parse_render(
    reasoning: Option<Seq<char>>,
    content: Seq<char>,
    calls: Seq<CallModel>,
)
    requires
        ({
            let (thought, said) = template::split_thought(reasoning, content);
            unambiguous(thought, said, written_forms(calls))
        }),
    ensures
        ({
            let t = template::assistant_text(reasoning, content, calls, true);
            let (thought, said) = template::split_thought(reasoning, content);
            &&& rendered(reply::reply_in(t)) == t
            &&& reply::reply_in(t) == (ReplyModel {
                reasoning: Some(thought),
                content: said,
                tool_calls: written_forms(calls),
            })
        }),
{
    let (thought, said) = template::split_thought(reasoning, content);
    let t = template::assistant_text(reasoning, content, calls, true);
    lemma_calls_as_written(calls, said);
    assert(t =~= written(thought, said, written_forms(calls)));
    written_reply_reads_back(thought, said, written_forms(calls));
    lemma_rendered_is_written(t);
}

} // verus!
