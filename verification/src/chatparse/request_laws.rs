//! Rendering a request, reading its last reply back and rendering again.
use super::laws;
use super::reply;
use super::reply::WrittenCall;
use crate::chat::message::{ContentModel, MessageModel, RequestModel, RoleModel};
use crate::chat::template;
use crate::chat::template::{IM_END, IM_START, THINK_CLOSE, THINK_OPEN};
use crate::search;
use crate::text;
use crate::text::Class;
use vstd::prelude::*;

verus! {

/// The message that hands a continuation back to the template.
pub open spec fn read_back(t: Seq<char>) -> MessageModel {
    let r = reply::reply_in(t);
    MessageModel {
        role: RoleModel::Assistant,
        content: ContentModel::Text(r.content),
        reasoning: r.reasoning,
        tool_calls: reply::chat_calls(r.tool_calls),
    }
}

/// A request with another message in place of one.
pub open spec fn with_message(req: RequestModel, i: int, m: MessageModel) -> RequestModel {
    RequestModel { messages: req.messages.update(i, m), ..req }
}

/// What a message of plain text says, as the template writes it in the current turn.
pub open spec fn continuation(m: MessageModel) -> Seq<char> {
    template::assistant_text(
        m.reasoning,
        template::stripped(m.content->Text_0),
        m.tool_calls,
        true,
    )
}

proof fn lemma_same_query(a: Seq<MessageModel>, b: Seq<MessageModel>, ids: bool, i: int, k: int)
    requires
        a.len() == b.len(),
        0 <= k <= a.len(),
        0 <= i < a.len(),
        a[i].role is Assistant,
        b == a.update(i, b[i]),
        b[i].role is Assistant,
    ensures
        template::last_query(a, ids, k) == template::last_query(b, ids, k),
    decreases k,
{
    if k > 0 {
        lemma_same_query(a, b, ids, i, k - 1);
    }
}

proof fn lemma_query_is_a_message(a: Seq<MessageModel>, ids: bool, k: int)
    ensures
        template::last_query(a, ids, k) matches Ok(Some(q)) ==> 0 <= q < k,
    decreases k,
{
    if k > 0 {
        lemma_query_is_a_message(a, ids, k - 1);
    }
}

/// An assistant's turn of plain text in the current turn.
proof fn lemma_turn_is(a: Seq<MessageModel>, query: int, ids: bool, i: int, images: nat, videos: nat)
    requires
        query < i < a.len(),
        a[i].role is Assistant,
        a[i].content is Text,
    ensures
        template::turn(a, query, ids, i, images, videos) == Ok::<template::Drawn, Seq<char>>(
            template::Drawn {
                text: IM_START@ + "assistant\n"@ + continuation(a[i]) + IM_END@ + seq!['\n'],
                images,
                videos,
            },
        ),
{
}

/// What was written for a message, read and handed back, is written the same.
proof fn lemma_continues_alike(m: MessageModel)
    requires
        m.content is Text,
        ({
            let (thought, said) = template::split_thought(
                m.reasoning,
                template::stripped(m.content->Text_0),
            );
            laws::unambiguous(thought, said, laws::written_forms(m.tool_calls))
        }),
    ensures
        continuation(read_back(continuation(m))) == continuation(m),
{
    let s = template::stripped(m.content->Text_0);
    laws::message_survives_render_parse_render(m.reasoning, s, m.tool_calls);
}

proof fn lemma_same_turns(
    a: Seq<MessageModel>,
    b: Seq<MessageModel>,
    query: int,
    ids: bool,
    i: int,
    k: int,
)
    requires
        a.len() == b.len(),
        0 <= k <= a.len(),
        0 <= i < a.len(),
        a[i].role is Assistant,
        b == a.update(i, b[i]),
        b[i].role is Assistant,
        forall|images: nat, videos: nat|
            template::turn(a, query, ids, i, images, videos) == #[trigger] template::turn(
                b,
                query,
                ids,
                i,
                images,
                videos,
            ),
    ensures
        template::turns(a, query, ids, k) == template::turns(b, query, ids, k),
    decreases k,
{
    if k > 0 {
        lemma_same_turns(a, b, query, ids, i, k - 1);
        if let Ok(d) = template::turns(a, query, ids, k - 1) {
            assert(template::turn(a, query, ids, k - 1, d.images, d.videos) == template::turn(
                b,
                query,
                ids,
                k - 1,
                d.images,
                d.videos,
            ));
        }
    }
}

/// **Render, parse, render.** In a request that renders, let an assistant message of the
/// current turn hold plain text, and its parts be such that they can be told apart once they
/// are written. What was written for it, read and handed back in its place, renders to the same
/// request, byte for byte. Where it is the last message, what was written for it is what
/// stands in the rendered text between the opening of the last turn and its end.
pub proof fn request_survives_render_parse_render(req: RequestModel, i: int, query: int)
    requires
        template::rendering(req) is Ok,
        template::last_query(
            req.messages,
            req.opts.add_vision_id,
            req.messages.len() as int,
        ) == Ok::<Option<int>, Seq<char>>(Some(query)),
        query < i < req.messages.len(),
        req.messages[i].role is Assistant,
        req.messages[i].content is Text,
        ({
            let m = req.messages[i];
            let (thought, said) = template::split_thought(
                m.reasoning,
                template::stripped(m.content->Text_0),
            );
            laws::unambiguous(thought, said, laws::written_forms(m.tool_calls))
        }),
    ensures
        template::rendering(with_message(req, i, read_back(continuation(req.messages[i]))))
            == template::rendering(req),
        i + 1 == req.messages.len() && !req.opts.add_generation_prompt ==> text::has_suffix(
            template::rendering(req)->Ok_0.text,
            IM_START@ + "assistant\n"@ + continuation(req.messages[i]) + IM_END@ + seq!['\n'],
        ),
{
    let ids = req.opts.add_vision_id;
    let a = req.messages;
    let n = a.len() as int;
    let m = a[i];
    let back = read_back(continuation(m));
    let req2 = with_message(req, i, back);
    let b = req2.messages;
    lemma_query_is_a_message(a, ids, n);
    lemma_continues_alike(m);
    lemma_same_query(a, b, ids, i, n);
    assert(template::system_block(req2) == template::system_block(req));
    assert forall|images: nat, videos: nat|
        template::turn(a, query, ids, i, images, videos) == #[trigger] template::turn(
            b,
            query,
            ids,
            i,
            images,
            videos,
        ) by {
        lemma_turn_is(a, query, ids, i, images, videos);
        lemma_turn_is(b, query, ids, i, images, videos);
    }
    lemma_same_turns(a, b, query, ids, i, n);
    if i + 1 == n && !req.opts.add_generation_prompt {
        let d = template::turns(a, query, ids, n - 1)->Ok_0;
        let u = template::turn(a, query, ids, n - 1, d.images, d.videos)->Ok_0;
        let opening = template::system_block(req)->Ok_0;
        let whole = template::rendering(req)->Ok_0.text;
        lemma_turn_is(a, query, ids, i, d.images, d.videos);
        assert(whole =~= opening + d.text + u.text);
        assert(whole.subrange(whole.len() - u.text.len(), whole.len() as int) =~= u.text);
    }
}

// ---------------------------------------------------------------------------
// without angle brackets
// ---------------------------------------------------------------------------
/// Whether a text holds no angle bracket.
pub open spec fn no_brackets(s: Seq<char>) -> bool {
    forall|i: int| 0 <= i < s.len() ==> #[trigger] s[i] != '<' && s[i] != '>'
}

/// Whether nothing in a call holds an angle bracket, and it has a name.
pub open spec fn bare_call(c: WrittenCall) -> bool {
    &&& c.name.len() > 0
    &&& no_brackets(c.name)
    &&& forall|i: int|
        0 <= i < c.arguments.len() ==> no_brackets((#[trigger] c.arguments[i]).0) && no_brackets(
            c.arguments[i].1,
        )
}

/// A text without angle brackets holds no tag.
proof fn lemma_no_tag(s: Seq<char>, tag: Seq<char>)
    requires
        no_brackets(s),
        tag.len() > 0,
        tag[0] == '<',
    ensures
        !text::has_text(s, tag),
{
    text::lemma_find_from(s, tag, 0);
    if text::has_text(s, tag) {
        let i = text::find_from(s, tag, 0)->0;
        assert(s.subrange(i, i + tag.len())[0] == tag[0]);
        assert(s[i] == '<');
    }
}

/// A tag of another name, with an end, is not what is looked for.
proof fn lemma_other_tag(opening: Seq<char>, s: Seq<char>)
    requires
        no_brackets(s),
        opening.len() >= 2,
        opening[0] == '<',
        opening[1] != '/',
        forall|i: int| 1 <= i < opening.len() ==> #[trigger] opening[i] != '<',
    ensures
        !text::has_text(opening + s + ">"@, "</tool_call>"@),
{
    reveal_strlit(">");
    reveal_strlit("</tool_call>");
    let whole = opening + s + ">"@;
    let tag = "</tool_call>"@;
    text::lemma_find_from(whole, tag, 0);
    if text::has_text(whole, tag) {
        let i = text::find_from(whole, tag, 0)->0;
        let part = whole.subrange(i, i + tag.len());
        assert(part[0] == tag[0] && part[1] == tag[1]);
        assert(whole[i] == '<' && whole[i + 1] == '/');
        assert(i == 0) by {
            if 0 < i < opening.len() {
                assert(opening[i] != '<');
            } else if opening.len() <= i < opening.len() + s.len() {
                assert(s[i - opening.len()] != '<');
            }
        }
    }
}

/// A separator that is told by a bracket is first found behind a text without one.
proof fn lemma_delimited(s: Seq<char>, sep: Seq<char>, p: int)
    requires
        no_brackets(s),
        0 <= p < sep.len(),
        sep[p] == '<' || sep[p] == '>',
        forall|j: int| 0 <= j < p ==> #[trigger] sep[j] != sep[p],
    ensures
        laws::delimited(s, sep),
{
    let whole = s + sep;
    let n = s.len() as int;
    assert(whole.subrange(n, n + sep.len()) =~= sep);
    assert forall|i: int| 0 <= i < n implies !#[trigger] text::matches_at(whole, sep, i) by {
        if text::matches_at(whole, sep, i) {
            let part = whole.subrange(i, i + sep.len());
            assert(part[p] == sep[p]);
            if i + p < n {
                assert(s[i + p] == sep[p]);
            } else {
                assert(sep[i + p - n] == sep[p]);
            }
        }
    }
    search::lemma_first_is(whole, sep, n);
}

proof fn lemma_bare_arguments(args: Seq<(Seq<char>, Seq<char>)>)
    requires
        forall|i: int|
            0 <= i < args.len() ==> no_brackets((#[trigger] args[i]).0) && no_brackets(args[i].1),
    ensures
        laws::plain_arguments(args),
    decreases args.len(),
{
    if args.len() > 0 {
        let rest = args.drop_first();
        assert forall|i: int| 0 <= i < rest.len() implies no_brackets((#[trigger] rest[i]).0)
            && no_brackets(rest[i].1) by {
            assert(rest[i] == args[i + 1]);
        }
        lemma_bare_arguments(rest);
        let a = args[0];
        reveal_strlit(">\n");
        reveal_strlit("<parameter=");
        reveal_strlit("</tool_call>");
        reveal_strlit("\n</parameter>");
        reveal_strlit("\n</parameter>\n");
        lemma_delimited(a.0, ">\n"@, 0);
        lemma_other_tag("<parameter="@, a.0);
        lemma_no_tag(a.1, "</tool_call>"@);
        lemma_delimited(a.1, "\n</parameter>"@, 1);
        lemma_delimited(a.1, "\n</parameter>\n"@, 1);
    }
}

/// Parts without angle brackets can be told apart once they are written.
pub proof fn parts_without_brackets_are_unambiguous(
    thought: Seq<char>,
    said: Seq<char>,
    calls: Seq<WrittenCall>,
)
    requires
        search::tight(thought, Class::PythonSpace),
        search::tight(said, Class::PythonSpace),
        no_brackets(thought),
        no_brackets(said),
        forall|i: int| 0 <= i < calls.len() ==> bare_call(#[trigger] calls[i]),
    ensures
        laws::unambiguous(thought, said, calls),
{
    reveal_strlit("<tool_call>");
    reveal_strlit("<think>");
    reveal_strlit("</think>");
    lemma_no_tag(thought, THINK_CLOSE@);
    lemma_no_tag(thought, THINK_OPEN@);
    lemma_no_tag(said, "<tool_call>"@);
    assert forall|i: int| 0 <= i < calls.len() implies laws::plain_call(#[trigger] calls[i]) by {
        let c = calls[i];
        reveal_strlit(">\n");
        reveal_strlit("<function=");
        lemma_delimited(c.name, ">\n"@, 0);
        lemma_other_tag("<function="@, c.name);
        lemma_bare_arguments(c.arguments);
    }
}

proof fn lemma_stripped_bare(s: Seq<char>)
    requires
        no_brackets(s),
    ensures
        no_brackets(template::stripped(s)),
        search::tight(template::stripped(s), Class::PythonSpace),
{
    let ends = search::lemma_trim_parts(s, Class::PythonSpace);
    let t = template::stripped(s);
    assert forall|i: int| 0 <= i < t.len() implies #[trigger] t[i] != '<' && t[i] != '>' by {
        assert(s[ends.0.len() + i] == t[i]);
    }
}

/// **Render, parse, render** of a request with an assistant message of the current turn whose
/// text, reasoning, names, keys and values hold no angle brackets: what was written for it,
/// read and handed back in its place, renders to the same request, byte for byte.
pub proof fn bare_request_survives_render_parse_render(req: RequestModel, i: int, query: int)
    requires
        template::rendering(req) is Ok,
        template::last_query(
            req.messages,
            req.opts.add_vision_id,
            req.messages.len() as int,
        ) == Ok::<Option<int>, Seq<char>>(Some(query)),
        query < i < req.messages.len(),
        req.messages[i].role is Assistant,
        req.messages[i].content is Text,
        no_brackets(req.messages[i].content->Text_0),
        req.messages[i].reasoning matches Some(r) ==> no_brackets(r),
        forall|k: int|
            0 <= k < req.messages[i].tool_calls.len() ==> bare_call(
                laws::written_form(#[trigger] req.messages[i].tool_calls[k]),
            ),
    ensures
        template::rendering(with_message(req, i, read_back(continuation(req.messages[i]))))
            == template::rendering(req),
        i + 1 == req.messages.len() && !req.opts.add_generation_prompt ==> text::has_suffix(
            template::rendering(req)->Ok_0.text,
            IM_START@ + "assistant\n"@ + continuation(req.messages[i]) + IM_END@ + seq!['\n'],
        ),
{
    let m = req.messages[i];
    let s = template::stripped(m.content->Text_0);
    lemma_stripped_bare(m.content->Text_0);
    reveal_strlit("</think>");
    lemma_no_tag(s, THINK_CLOSE@);
    match m.reasoning {
        Some(r) => lemma_stripped_bare(r),
        None => lemma_stripped_bare(seq![]),
    }
    let (thought, said) = template::split_thought(m.reasoning, s);
    let forms = laws::written_forms(m.tool_calls);
    assert forall|k: int| 0 <= k < forms.len() implies bare_call(#[trigger] forms[k]) by {
        assert(forms[k] == laws::written_form(m.tool_calls[k]));
    }
    parts_without_brackets_are_unambiguous(thought, said, forms);
    request_survives_render_parse_render(req, i, query);
}

} // verus!
