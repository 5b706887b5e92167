//! What a prompt is made of, turn by turn, in terms of the messages.
use super::message::{CallModel, ContentModel, MessageModel, PartModel, RequestModel};
use super::template;
use super::template::Drawn;
use crate::pyjson::value::Json;
use crate::pyjson::writer;
use crate::search;
use crate::text;
use crate::text::Class;
use vstd::prelude::*;

verus! {

/// The parts of a prompt.
pub ghost struct Layout {
    /// What stands before the turns.
    pub opening: Seq<char>,
    /// The body of each message, without white space at its ends.
    pub bodies: Seq<Seq<char>>,
    /// What an assistant message thinks, and what it says.
    pub thoughts: Seq<Seq<char>>,
    pub said: Seq<Seq<char>>,
    /// What is written for each message.
    pub turns: Seq<Seq<char>>,
    /// How many images and videos stand in the messages before each.
    pub images: Seq<nat>,
    pub videos: Seq<nat>,
    /// Where the last user query stands.
    pub query: int,
}

/// The parts of the prompt that a request renders to.
pub open spec fn layout(req: RequestModel) -> Layout {
    let ids = req.opts.add_vision_id;
    let n = req.messages.len();
    let query = template::last_query(req.messages, ids, n as int)->Ok_0->0;
    let before = |i: int| template::turns(req.messages, query, ids, i)->Ok_0;
    let body = |i: int|
        template::stripped(
            template::content_drawn(
                req.messages[i].content,
                true,
                false,
                ids,
                before(i).images,
                before(i).videos,
            )->Ok_0.text,
        );
    Layout {
        opening: template::system_block(req)->Ok_0,
        bodies: Seq::new(n, |i: int| body(i)),
        thoughts: Seq::new(
            n,
            |i: int| template::split_thought(req.messages[i].reasoning, body(i)).0,
        ),
        said: Seq::new(n, |i: int| template::split_thought(req.messages[i].reasoning, body(i)).1),
        turns: Seq::new(
            n,
            |i: int|
                template::turn(
                    req.messages,
                    query,
                    ids,
                    i,
                    before(i).images,
                    before(i).videos,
                )->Ok_0.text,
        ),
        images: Seq::new(n, |i: int| before(i).images),
        videos: Seq::new(n, |i: int| before(i).videos),
        query,
    }
}

proof fn lemma_turns_ok(messages: Seq<MessageModel>, query: int, ids: bool, k: int, n: int)
    requires
        0 <= k <= n,
        template::turns(messages, query, ids, n) is Ok,
    ensures
        template::turns(messages, query, ids, k) is Ok,
    decreases n,
{
    if k < n {
        lemma_turns_ok(messages, query, ids, k, n - 1);
    }
}

proof fn lemma_query(messages: Seq<MessageModel>, ids: bool, k: int)
    requires
        0 <= k <= messages.len(),
    ensures
        template::last_query(messages, ids, k) matches Ok(Some(q)) ==> {
            &&& 0 <= q < k
            &&& messages[q].role is User
            &&& messages[q].content matches ContentModel::Text(s) ==> !template::wrapped_response(
                template::stripped(s),
            )
            &&& forall|j: int|
                #![trigger messages[j]]
                q < j < k && messages[j].role is User ==> {
                    messages[j].content matches ContentModel::Text(s)
                        ==> template::wrapped_response(template::stripped(s))
                }
        },
    decreases k,
{
    if k > 0 {
        lemma_query(messages, ids, k - 1);
    }
}

/// **A prompt is its opening, a turn for each message in order, and the block that the model is
/// to fill.** That block is there where it is asked for: open behind `<think>` where the model is
/// to think, and otherwise with an empty thought.
pub proof fn a_prompt_is_its_turns(req: RequestModel)
    requires
        template::rendering(req) is Ok,
    ensures
        layout(req).turns.len() == req.messages.len(),
        layout(req).bodies.len() == req.messages.len(),
        template::rendering(req)->Ok_0.text == layout(req).opening + layout(req).turns.flatten()
            + if !req.opts.add_generation_prompt {
            seq![]
        } else if req.opts.enable_thinking {
            "<|im_start|>"@ + "assistant\n"@ + "<think>"@ + seq!['\n']
        } else {
            "<|im_start|>"@ + "assistant\n"@ + "<think>"@ + "\n\n"@ + "</think>"@ + "\n\n"@
        },
{
    let n = req.messages.len() as int;
    lemma_turns_flatten(req, n);
    assert(layout(req).turns.take(n) =~= layout(req).turns);
}

proof fn lemma_turns_flatten(req: RequestModel, k: int)
    requires
        template::rendering(req) is Ok,
        0 <= k <= req.messages.len(),
    ensures
        template::turns(
            req.messages,
            layout(req).query,
            req.opts.add_vision_id,
            k,
        )->Ok_0.text == layout(req).turns.take(k).flatten(),
    decreases k,
{
    let ids = req.opts.add_vision_id;
    let n = req.messages.len() as int;
    let l = layout(req);
    lemma_turns_ok(req.messages, l.query, ids, k, n);
    if k > 0 {
        lemma_turns_flatten(req, k - 1);
        lemma_turns_ok(req.messages, l.query, ids, k - 1, n);
        assert(l.turns.take(k) =~= l.turns.take(k - 1).push(l.turns[k - 1]));
        l.turns.take(k - 1).lemma_flatten_push(l.turns[k - 1]);
    } else {
        assert(l.turns.take(0) =~= seq![]);
    }
}

/// **The last user query** is a user message, and no tool response in disguise; every user message
/// behind it that is a text is one: it begins with `<tool_response>` and ends with
/// `</tool_response>`, white space aside.
pub proof fn the_last_query_is_the_last_that_is_no_tool_response(req: RequestModel, j: int)
    requires
        template::rendering(req) is Ok,
        layout(req).query <= j < req.messages.len(),
        req.messages[j].role is User,
        req.messages[j].content is Text,
    ensures
        0 <= layout(req).query < req.messages.len(),
        req.messages[layout(req).query].role is User,
        j > layout(req).query <==> {
            let s = template::stripped(req.messages[j].content->Text_0);
            "<tool_response>"@.is_prefix_of(s) && "</tool_response>"@.is_suffix_of(s)
        },
{
    let n = req.messages.len() as int;
    lemma_query(req.messages, req.opts.add_vision_id, n);
    let m = req.messages[j];
    let s = template::stripped(m.content->Text_0);
    lemma_wrapped(s);
}

proof fn lemma_parameters_flatten(args: Seq<(Seq<char>, Json)>)
    ensures
        template::parameters(args) == Seq::new(
            args.len(),
            |a: int|
                "<parameter="@ + args[a].0 + ">\n"@ + match args[a].1 {
                    Json::Array(_) => writer::dumps_text(args[a].1),
                    Json::Object(_) => writer::dumps_text(args[a].1),
                    _ => writer::str_text(args[a].1),
                } + "\n</parameter>\n"@,
        ).flatten(),
    decreases args.len(),
{
    let parts = Seq::new(
        args.len(),
        |a: int|
            "<parameter="@ + args[a].0 + ">\n"@ + match args[a].1 {
                Json::Array(_) => writer::dumps_text(args[a].1),
                Json::Object(_) => writer::dumps_text(args[a].1),
                _ => writer::str_text(args[a].1),
            } + "\n</parameter>\n"@,
    );
    if args.len() > 0 {
        let init = args.drop_last();
        lemma_parameters_flatten(init);
        let shorter = Seq::new(
            init.len(),
            |a: int|
                "<parameter="@ + init[a].0 + ">\n"@ + match init[a].1 {
                    Json::Array(_) => writer::dumps_text(init[a].1),
                    Json::Object(_) => writer::dumps_text(init[a].1),
                    _ => writer::str_text(init[a].1),
                } + "\n</parameter>\n"@,
        );
        let last = parts[args.len() - 1];
        assert(parts =~= shorter.push(last));
        shorter.lemma_flatten_push(last);
        assert(template::parameters(args) =~= template::parameters(init) + last);
    } else {
        assert(parts =~= seq![]);
    }
}

/// **How calls are written.** One behind the other, all of them: each with its tag, on a line of
/// its own behind another call and behind a blank line where something is said before the first;
/// its name; and its arguments in order, each between its tags, a list or a dict as JSON and
/// anything else as Python's `str`.
pub proof fn every_call_is_written(calls: Seq<CallModel>, said: Seq<char>)
    ensures
        template::calls_text(calls, said) == Seq::new(
            calls.len(),
            |j: int|
                if j > 0 {
                    "\n<tool_call>\n<function="@
                } else if template::stripped(said).len() > 0 {
                    "\n\n<tool_call>\n<function="@
                } else {
                    "<tool_call>\n<function="@
                } + calls[j].name + ">\n"@ + Seq::new(
                    calls[j].arguments.len(),
                    |a: int|
                        "<parameter="@ + calls[j].arguments[a].0 + ">\n"@
                            + match calls[j].arguments[a].1 {
                            Json::Array(_) => writer::dumps_text(calls[j].arguments[a].1),
                            Json::Object(_) => writer::dumps_text(calls[j].arguments[a].1),
                            _ => writer::str_text(calls[j].arguments[a].1),
                        } + "\n</parameter>\n"@,
                ).flatten() + "</function>\n</tool_call>"@,
        ).flatten(),
    decreases calls.len(),
{
    let parts = Seq::new(calls.len(), |j: int| one_call(calls, said, j));
    let inline = Seq::new(
        calls.len(),
        |j: int|
            if j > 0 {
                "\n<tool_call>\n<function="@
            } else if template::stripped(said).len() > 0 {
                "\n\n<tool_call>\n<function="@
            } else {
                "<tool_call>\n<function="@
            } + calls[j].name + ">\n"@ + Seq::new(
                calls[j].arguments.len(),
                |a: int|
                    "<parameter="@ + calls[j].arguments[a].0 + ">\n"@
                        + match calls[j].arguments[a].1 {
                        Json::Array(_) => writer::dumps_text(calls[j].arguments[a].1),
                        Json::Object(_) => writer::dumps_text(calls[j].arguments[a].1),
                        _ => writer::str_text(calls[j].arguments[a].1),
                    } + "\n</parameter>\n"@,
            ).flatten() + "</function>\n</tool_call>"@,
    );
    assert forall|j: int| 0 <= j < calls.len() implies parts[j] == inline[j] by {
        lemma_parameters_flatten(calls[j].arguments);
        let args = calls[j].arguments;
        assert(Seq::new(
            args.len(),
            |a: int|
                "<parameter="@ + args[a].0 + ">\n"@ + match args[a].1 {
                    Json::Array(_) => writer::dumps_text(args[a].1),
                    Json::Object(_) => writer::dumps_text(args[a].1),
                    _ => writer::str_text(args[a].1),
                } + "\n</parameter>\n"@,
        ) =~= Seq::new(
            calls[j].arguments.len(),
            |a: int|
                "<parameter="@ + calls[j].arguments[a].0 + ">\n"@
                    + match calls[j].arguments[a].1 {
                    Json::Array(_) => writer::dumps_text(calls[j].arguments[a].1),
                    Json::Object(_) => writer::dumps_text(calls[j].arguments[a].1),
                    _ => writer::str_text(calls[j].arguments[a].1),
                } + "\n</parameter>\n"@,
        ));
        assert(parts[j] =~= inline[j]);
    }
    assert(parts =~= inline);
    lemma_calls_flatten(calls, said);
}

spec fn one_call(calls: Seq<CallModel>, said: Seq<char>, j: int) -> Seq<char> {
    template::call_opening(j, said) + template::call_body(calls[j])
}

proof fn lemma_calls_flatten(calls: Seq<CallModel>, said: Seq<char>)
    ensures
        template::calls_text(calls, said) == Seq::new(
            calls.len(),
            |j: int| one_call(calls, said, j),
        ).flatten(),
    decreases calls.len(),
{
    let parts = Seq::new(calls.len(), |j: int| one_call(calls, said, j));
    if calls.len() > 0 {
        let init = calls.drop_last();
        lemma_calls_flatten(init, said);
        let shorter = Seq::new(init.len(), |j: int| one_call(init, said, j));
        let last = parts[calls.len() - 1];
        assert(parts =~= shorter.push(last));
        shorter.lemma_flatten_push(last);
        assert(template::calls_text(calls, said) =~= template::calls_text(init, said) + last);
    } else {
        assert(parts =~= seq![]);
    }
}

proof fn lemma_turn(req: RequestModel, i: int)
    requires
        template::rendering(req) is Ok,
        0 <= i < req.messages.len(),
    ensures
        ({
            let ids = req.opts.add_vision_id;
            let l = layout(req);
            let d = template::turns(req.messages, l.query, ids, i)->Ok_0;
            &&& template::content_drawn(
                req.messages[i].content,
                true,
                false,
                ids,
                d.images,
                d.videos,
            ) is Ok
            &&& template::turn(req.messages, l.query, ids, i, d.images, d.videos) is Ok
            &&& l.turns[i] == template::turn(
                req.messages,
                l.query,
                ids,
                i,
                d.images,
                d.videos,
            )->Ok_0.text
        }),
{
    let ids = req.opts.add_vision_id;
    let n = req.messages.len() as int;
    lemma_turns_ok(req.messages, layout(req).query, ids, i + 1, n);
}

/// **The body of a message** that is a text is that text, without white space at its ends, and that
/// of a message without content is empty.
pub proof fn bodies_are_stripped(req: RequestModel, i: int)
    requires
        template::rendering(req) is Ok,
        0 <= i < req.messages.len(),
    ensures
        req.messages[i].content matches ContentModel::Text(s) ==> layout(req).bodies[i]
            == template::stripped(s),
        req.messages[i].content is Absent ==> layout(req).bodies[i].len() == 0,
{
    lemma_turn(req, i);
    if req.messages[i].content is Absent {
        search::lemma_trim_all(seq![], Class::PythonSpace);
    }
}

/// The body of a message has no white space at its ends.
pub(crate) proof fn bodies_are_tight(req: RequestModel, i: int)
    requires
        0 <= i < req.messages.len(),
    ensures
        search::tight(layout(req).bodies[i], Class::PythonSpace),
{
    let ids = req.opts.add_vision_id;
    let d = template::turns(req.messages, layout(req).query, ids, i)->Ok_0;
    let drawn = template::content_drawn(
        req.messages[i].content,
        true,
        false,
        ids,
        d.images,
        d.videos,
    )->Ok_0;
    let ends = search::lemma_trim_parts(drawn.text, Class::PythonSpace);
}

/// **A user's turn** is its body.
pub proof fn a_user_turn_is_its_body(req: RequestModel, i: int)
    requires
        template::rendering(req) is Ok,
        0 <= i < req.messages.len(),
        req.messages[i].role is User,
    ensures
        layout(req).turns[i] == "<|im_start|>"@ + "user\n"@ + layout(req).bodies[i]
            + "<|im_end|>"@ + seq!['\n'],
{
    lemma_turn(req, i);
}

/// **A system message has no turn**: it stands first, and in the opening.
pub proof fn a_system_message_has_no_turn(req: RequestModel, i: int)
    requires
        template::rendering(req) is Ok,
        0 <= i < req.messages.len(),
        req.messages[i].role is System,
    ensures
        i == 0,
        layout(req).turns[i] == Seq::<char>::empty(),
{
    lemma_turn(req, i);
}

/// **Tool results** that follow one another share one user block: the first opens it, unless it is
/// the first message, and the last closes it.
pub proof fn tool_results_share_a_user_block(req: RequestModel, i: int)
    requires
        template::rendering(req) is Ok,
        0 <= i < req.messages.len(),
        req.messages[i].role is Tool,
    ensures
        layout(req).turns[i] == if i > 0 && !(req.messages[i - 1].role is Tool) {
            "<|im_start|>"@ + "user"@
        } else {
            seq![]
        } + "\n<tool_response>\n"@ + layout(req).bodies[i] + "\n</tool_response>"@ + if i + 1
            < req.messages.len() && req.messages[i + 1].role is Tool {
            seq![]
        } else {
            "<|im_end|>"@ + seq!['\n']
        },
{
    lemma_turn(req, i);
}

/// **An assistant's turn**, before the last user query as well as behind it, is what it says and
/// all its calls. Behind the query, and only there, its thought stands in front.
pub proof fn an_assistant_turn_has_all_its_calls(req: RequestModel, i: int)
    requires
        template::rendering(req) is Ok,
        0 <= i < req.messages.len(),
        req.messages[i].role is Assistant,
    ensures
        layout(req).turns[i] == "<|im_start|>"@ + "assistant\n"@ + if i > layout(req).query {
            "<think>"@ + seq!['\n'] + layout(req).thoughts[i] + seq!['\n'] + "</think>"@ + "\n\n"@
        } else {
            seq![]
        } + layout(req).said[i] + template::calls_text(
            req.messages[i].tool_calls,
            layout(req).said[i],
        ) + "<|im_end|>"@ + seq!['\n'],
{
    lemma_turn(req, i);
    let l = layout(req);
    let m = req.messages[i];
    let block = if i > l.query {
        "<think>"@ + seq!['\n'] + l.thoughts[i] + seq!['\n'] + "</think>"@ + "\n\n"@
    } else {
        seq![]
    };
    let calls = template::calls_text(m.tool_calls, l.said[i]);
    assert(template::assistant_text(m.reasoning, l.bodies[i], m.tool_calls, i > l.query)
        == block + l.said[i] + calls);
    assert(l.turns[i] == "<|im_start|>"@ + "assistant\n"@ + (block + l.said[i] + calls)
        + "<|im_end|>"@ + seq!['\n']);
    assert("<|im_start|>"@ + "assistant\n"@ + (block + l.said[i] + calls) + "<|im_end|>"@
        + seq!['\n'] =~= "<|im_start|>"@ + "assistant\n"@ + block + l.said[i] + calls
        + "<|im_end|>"@ + seq!['\n']);
}

/// **Reasoning that a message gives** is its thought, white space aside, and its body is what it
/// says. A message that gives none, and whose body holds no `</think>`, thinks nothing and says
/// its body.
pub proof fn given_reasoning_is_the_thought(req: RequestModel, i: int)
    requires
        template::rendering(req) is Ok,
        0 <= i < req.messages.len(),
        req.messages[i].reasoning is Some || forall|k: int|
            0 <= k <= layout(req).bodies[i].len() - 8 ==> #[trigger] layout(
                req,
            ).bodies[i].subrange(k, k + 8) != "</think>"@,
    ensures
        layout(req).said[i] == layout(req).bodies[i],
        layout(req).thoughts[i] == match req.messages[i].reasoning {
            Some(r) => template::stripped(r),
            None => Seq::<char>::empty(),
        },
{
    let body = layout(req).bodies[i];
    if req.messages[i].reasoning is None {
        reveal_strlit("</think>");
        text::lemma_find_from(body, "</think>"@, 0);
        if text::has_text(body, "</think>"@) {
            let k = text::find_from(body, "</think>"@, 0)->0;
            assert(body.subrange(k, k + 8) == "</think>"@);
        }
        search::lemma_trim_all(seq![], Class::PythonSpace);
    }
}

/// **The opening.** With tools, they are described to the model in a system block, one JSON
/// document per line, and what a system message says stands behind the instructions after a
/// blank line. Without tools, the block is what a system message says, and there is none
/// without such a message.
pub proof fn the_opening_describes_the_tools(req: RequestModel)
    requires
        template::rendering(req) is Ok,
        req.messages[0].content is Text || req.messages[0].content is Absent,
    ensures
        ({
            let system = match req.messages[0].content {
                ContentModel::Text(s) => template::stripped(s),
                _ => seq![],
            };
            layout(req).opening == if req.tools.len() > 0 {
                "<|im_start|>"@ + "system\n"@ + template::TOOLS_PREFIX@ + Seq::new(
                    req.tools.len(),
                    |j: int| seq!['\n'] + writer::dumps_text(req.tools[j]),
                ).flatten() + "\n</tools>"@ + template::TOOLS_INSTRUCTIONS@ + if req.messages[0].role
                    is System && system.len() > 0 {
                    "\n\n"@ + system
                } else {
                    seq![]
                } + "<|im_end|>"@ + seq!['\n']
            } else if req.messages[0].role is System {
                "<|im_start|>"@ + "system\n"@ + system + "<|im_end|>"@ + seq!['\n']
            } else {
                seq![]
            }
        }),
{
    lemma_tools_flatten(req.tools);
    search::lemma_trim_all(seq![], Class::PythonSpace);
}

proof fn lemma_tools_flatten(tools: Seq<Json>)
    ensures
        template::tool_lines(tools) == Seq::new(
            tools.len(),
            |j: int| seq!['\n'] + writer::dumps_text(tools[j]),
        ).flatten(),
    decreases tools.len(),
{
    let parts = Seq::new(tools.len(), |j: int| seq!['\n'] + writer::dumps_text(tools[j]));
    if tools.len() > 0 {
        let init = tools.drop_last();
        lemma_tools_flatten(init);
        let shorter = Seq::new(init.len(), |j: int| seq!['\n'] + writer::dumps_text(init[j]));
        let last = parts[tools.len() - 1];
        assert(parts =~= shorter.push(last));
        shorter.lemma_flatten_push(last);
        assert(template::tool_lines(tools) =~= template::tool_lines(init) + last);
    } else {
        assert(parts =~= seq![]);
    }
}

/// **A thought inside the content** ends at the first `</think>` and begins behind the last
/// `<think>` before that, or where the content begins; white space at its ends does not belong
/// to it. What is said is what stands behind the last `</think>`, without leading newlines.
///
/// `first` and `last` are where the first and the last `</think>` stand, and `opened` is where the
/// thought begins.
pub proof fn the_thought_ends_at_the_first_tag(
    content: Seq<char>,
    first: int,
    last: int,
    opened: int,
)
    requires
        0 <= first <= last <= content.len() - 8,
        content.subrange(first, first + 8) == "</think>"@,
        content.subrange(last, last + 8) == "</think>"@,
        forall|k: int| 0 <= k < first ==> #[trigger] content.subrange(k, k + 8) != "</think>"@,
        forall|k: int|
            last < k <= content.len() - 8 ==> #[trigger] content.subrange(k, k + 8)
                != "</think>"@,
        0 <= opened <= first,
        opened == 0 || (opened >= 7 && content.subrange(opened - 7, opened) == "<think>"@),
        forall|k: int|
            0 <= k <= first - 7 && k + 7 > opened ==> #[trigger] content.subrange(k, k + 7)
                != "<think>"@,
    ensures
        ({
            let (thought, said) = template::split_thought(None, content);
            &&& thought == template::stripped(content.subrange(opened, first))
            &&& last + 8 + said.len() <= content.len()
            &&& said == content.skip(content.len() - said.len())
            &&& forall|k: int|
                last + 8 <= k < content.len() - said.len() ==> #[trigger] content[k] == '\n'
            &&& said.len() > 0 ==> said[0] != '\n'
        }),
{
    reveal_strlit("</think>");
    reveal_strlit("<think>");
    let close = "</think>"@;
    let open = "<think>"@;
    assert(text::matches_at(content, close, first));
    assert(text::matches_at(content, close, last));
    assert forall|k: int| 0 <= k < first implies !#[trigger] text::matches_at(
        content,
        close,
        k,
    ) by {
        assert(content.subrange(k, k + 8) != close);
    }
    search::lemma_first_is(content, close, first);
    let n = content.len() as int;
    search::lemma_find_back(content, close, n);
    assert(text::find_back(content, close, n) == Some(last)) by {
        let i = text::find_back(content, close, n)->0;
        if i > last {
            assert(content.subrange(i, i + 8) != close);
        }
    }
    let tail = text::after_last(content, close);
    let said = text::trim_start(tail, Class::Newline);
    search::lemma_trim_start(tail, Class::Newline);
    assert(tail =~= content.skip(last + 8));
    assert(said =~= content.skip(n - said.len()));
    assert forall|k: int| last + 8 <= k < n - said.len() implies #[trigger] content[k] == '\n' by {
        let cut = tail.take(tail.len() - said.len());
        assert(cut[k - last - 8] == content[k]);
    }
    let before = text::before_first(content, close);
    assert(before =~= content.take(first));
    let head = text::trim_end(before, Class::Newline);
    search::lemma_trim_end(before, Class::Newline);
    let h = head.len() as int;
    let rest = before.skip(h);
    let kept = text::after_last(head, open);
    search::lemma_find_back(head, open, h);
    assert forall|k: int| 0 <= k && k + 7 <= h && k + 7 > opened implies !#[trigger] text::matches_at(
        head,
        open,
        k,
    ) by {
        assert(head.subrange(k, k + 7) =~= content.subrange(k, k + 7));
    }
    if opened > 0 {
        assert(content[opened - 1] == '>') by {
            assert(content.subrange(opened - 7, opened)[6] == content[opened - 1]);
        }
        assert(opened <= h) by {
            if opened > h {
                assert(rest[opened - 1 - h] == content[opened - 1]);
            }
        }
        assert(head.subrange(opened - 7, opened - 7 + 7) =~= content.subrange(opened - 7, opened));
        assert(text::matches_at(head, open, opened - 7));
    }
    assert(kept =~= head.skip(opened)) by {
        if opened > 0 {
            let i = text::find_back(head, open, h)->0;
            assert(text::matches_at(head, open, i));
            assert(i == opened - 7);
        } else if text::find_back(head, open, h) is Some {
            assert(text::matches_at(head, open, text::find_back(head, open, h)->0));
        }
    }
    let thought = text::trim_start(kept, Class::Newline);
    search::lemma_trim_start(kept, Class::Newline);
    let lead = kept.take(kept.len() - thought.len());
    assert(content.subrange(opened, first) =~= lead + thought + rest);
    lemma_stripped_of_newlines(lead, thought, rest);
}

pub(crate) proof fn lemma_stripped_of_newlines(x: Seq<char>, s: Seq<char>, y: Seq<char>)
    requires
        search::all_in(x, Class::Newline),
        search::all_in(y, Class::Newline),
    ensures
        template::stripped(x + s + y) == template::stripped(s),
{
    let (a, b) = search::lemma_trim_parts(s, Class::PythonSpace);
    let t = template::stripped(s);
    assert forall|i: int| 0 <= i < (x + a).len() implies text::in_class(
        Class::PythonSpace,
        #[trigger] (x + a)[i],
    ) by {
        if i < x.len() {
            assert((x + a)[i] == x[i]);
        } else {
            assert((x + a)[i] == a[i - x.len()]);
        }
    }
    assert forall|i: int| 0 <= i < (b + y).len() implies text::in_class(
        Class::PythonSpace,
        #[trigger] (b + y)[i],
    ) by {
        if i < b.len() {
            assert((b + y)[i] == b[i]);
        } else {
            assert((b + y)[i] == y[i - b.len()]);
        }
    }
    search::lemma_trim_is(x + a, t, b + y, Class::PythonSpace);
    assert((x + a) + t + (b + y) =~= x + s + y);
}

/// What one part is written as, as the `images`-th image or the `videos`-th video.
spec fn part_text(p: PartModel, ids: bool, images: nat, videos: nat) -> Seq<char> {
    match p {
        PartModel::Text(t) => t,
        PartModel::Image => if ids {
            "Picture "@ + text::decimal(images) + ": "@
                + "<|vision_start|><|image_pad|><|vision_end|>"@
        } else {
            "<|vision_start|><|image_pad|><|vision_end|>"@
        },
        PartModel::Video => if ids {
            "Video "@ + text::decimal(videos) + ": "@
                + "<|vision_start|><|video_pad|><|vision_end|>"@
        } else {
            "<|vision_start|><|video_pad|><|vision_end|>"@
        },
        PartModel::Other => seq![],
    }
}

proof fn lemma_filter_last(parts: Seq<PartModel>, keep: spec_fn(PartModel) -> bool)
    requires
        parts.len() > 0,
    ensures
        parts.filter(keep).len() == parts.drop_last().filter(keep).len() + if keep(parts.last()) {
            1int
        } else {
            0
        },
{
    reveal(Seq::filter);
}

proof fn lemma_parts_flatten(parts: Seq<PartModel>, ids: bool, images: nat, videos: nat)
    requires
        template::parts_drawn(
            parts,
            true,
            false,
            ids,
            (Drawn { text: seq![], images, videos }),
        ) is Ok,
    ensures
        ({
            let d = template::parts_drawn(
                parts,
                true,
                false,
                ids,
                (Drawn { text: seq![], images, videos }),
            )->Ok_0;
            &&& d.images == images + parts.filter(|p: PartModel| p is Image).len()
            &&& d.videos == videos + parts.filter(|p: PartModel| p is Video).len()
            &&& d.text == Seq::new(
                parts.len(),
                |k: int|
                    part_text(
                        parts[k],
                        ids,
                        images + parts.take(k + 1).filter(|p: PartModel| p is Image).len(),
                        videos + parts.take(k + 1).filter(|p: PartModel| p is Video).len(),
                    ),
            ).flatten()
        }),
    decreases parts.len(),
{
    let start = Drawn { text: seq![], images, videos };
    let image = |p: PartModel| p is Image;
    let video = |p: PartModel| p is Video;
    let texts = Seq::new(
        parts.len(),
        |k: int|
            part_text(
                parts[k],
                ids,
                images + parts.take(k + 1).filter(image).len(),
                videos + parts.take(k + 1).filter(video).len(),
            ),
    );
    if parts.len() > 0 {
        let init = parts.drop_last();
        let n = init.len() as int;
        lemma_parts_flatten(init, ids, images, videos);
        lemma_filter_last(parts, image);
        lemma_filter_last(parts, video);
        let shorter = Seq::new(
            init.len(),
            |k: int|
                part_text(
                    init[k],
                    ids,
                    images + init.take(k + 1).filter(image).len(),
                    videos + init.take(k + 1).filter(video).len(),
                ),
        );
        assert forall|k: int| 0 <= k < n implies shorter[k] == texts[k] by {
            assert(init.take(k + 1) =~= parts.take(k + 1));
        }
        assert(parts.take(n + 1) =~= parts);
        assert(texts =~= shorter.push(texts[n]));
        shorter.lemma_flatten_push(texts[n]);
        let before = template::parts_drawn(init, true, false, ids, start)->Ok_0;
        let after = template::parts_drawn(parts, true, false, ids, start)->Ok_0;
        assert(after.text =~= before.text + texts[n]);
    } else {
        reveal(Seq::filter);
        assert(texts =~= seq![]);
    }
}

/// **The body of a message in parts** is what its parts are written as, one behind the other: a
/// text as it is, an image or a video as its marker, with its number in the conversation in
/// front where numbers are asked for. `images` and `videos` are how many stand in the messages
/// before this one.
pub proof fn parts_are_written_in_order(req: RequestModel, i: int)
    requires
        template::rendering(req) is Ok,
        0 <= i < req.messages.len(),
        req.messages[i].content is Parts,
    ensures
        ({
            let parts = req.messages[i].content->Parts_0;
            layout(req).bodies[i] == template::stripped(
                Seq::new(
                    parts.len(),
                    |k: int|
                        match parts[k] {
                            PartModel::Text(t) => t,
                            PartModel::Image => if req.opts.add_vision_id {
                                "Picture "@ + text::decimal(
                                    layout(req).images[i] + parts.take(k + 1).filter(
                                        |p: PartModel| p is Image,
                                    ).len(),
                                ) + ": "@ + "<|vision_start|><|image_pad|><|vision_end|>"@
                            } else {
                                "<|vision_start|><|image_pad|><|vision_end|>"@
                            },
                            PartModel::Video => if req.opts.add_vision_id {
                                "Video "@ + text::decimal(
                                    layout(req).videos[i] + parts.take(k + 1).filter(
                                        |p: PartModel| p is Video,
                                    ).len(),
                                ) + ": "@ + "<|vision_start|><|video_pad|><|vision_end|>"@
                            } else {
                                "<|vision_start|><|video_pad|><|vision_end|>"@
                            },
                            PartModel::Other => seq![],
                        },
                ).flatten(),
            )
        }),
{
    lemma_turn(req, i);
    let ids = req.opts.add_vision_id;
    let parts = req.messages[i].content->Parts_0;
    let l = layout(req);
    lemma_parts_flatten(parts, ids, l.images[i], l.videos[i]);
    let image = |p: PartModel| p is Image;
    let video = |p: PartModel| p is Video;
    let texts = Seq::new(
        parts.len(),
        |k: int|
            part_text(
                parts[k],
                ids,
                l.images[i] + parts.take(k + 1).filter(image).len(),
                l.videos[i] + parts.take(k + 1).filter(video).len(),
            ),
    );
    assert(texts =~= Seq::new(
        parts.len(),
        |k: int|
            match parts[k] {
                PartModel::Text(t) => t,
                PartModel::Image => if ids {
                    "Picture "@ + text::decimal(
                        l.images[i] + parts.take(k + 1).filter(|p: PartModel| p is Image).len(),
                    ) + ": "@ + "<|vision_start|><|image_pad|><|vision_end|>"@
                } else {
                    "<|vision_start|><|image_pad|><|vision_end|>"@
                },
                PartModel::Video => if ids {
                    "Video "@ + text::decimal(
                        l.videos[i] + parts.take(k + 1).filter(|p: PartModel| p is Video).len(),
                    ) + ": "@ + "<|vision_start|><|video_pad|><|vision_end|>"@
                } else {
                    "<|vision_start|><|video_pad|><|vision_end|>"@
                },
                PartModel::Other => seq![],
            },
    ));
}

/// **Images and videos are numbered through the conversation**: before message `i + 1` there are
/// those before message `i` and those in it, and before the first there are none.
pub proof fn images_are_numbered_through(req: RequestModel, i: int)
    requires
        template::rendering(req) is Ok,
        0 <= i < req.messages.len(),
    ensures
        layout(req).images[0] == 0,
        layout(req).videos[0] == 0,
        i + 1 < req.messages.len() ==> {
            &&& layout(req).images[i + 1] == layout(req).images[i] + match req.messages[i].content {
                ContentModel::Parts(parts) => parts.filter(|p: PartModel| p is Image).len(),
                _ => 0,
            }
            &&& layout(req).videos[i + 1] == layout(req).videos[i] + match req.messages[i].content {
                ContentModel::Parts(parts) => parts.filter(|p: PartModel| p is Video).len(),
                _ => 0,
            }
        },
{
    lemma_turn(req, i);
    let ids = req.opts.add_vision_id;
    let l = layout(req);
    if let ContentModel::Parts(parts) = req.messages[i].content {
        lemma_parts_flatten(parts, ids, l.images[i], l.videos[i]);
    }
    lemma_turns_ok(req.messages, l.query, ids, i + 1, req.messages.len() as int);
}

/// **A conversation is rendered** exactly where every role is known, a system message stands first
/// or not at all, every body is a text, absent or a list of texts, images and videos, no image or
/// video is in a system message, and a user asks something: a user message that is no tool
/// response in disguise. What users ask are texts here.
pub proof fn conversations_are_rendered(req: RequestModel)
    requires
        forall|i: int|
            0 <= i < req.messages.len() && (#[trigger] req.messages[i]).role is User
                ==> req.messages[i].content is Text || req.messages[i].content is Absent,
    ensures
        template::rendering(req) is Ok <==> {
            &&& forall|i: int|
                0 <= i < req.messages.len() ==> !((#[trigger] req.messages[i]).role is Other) && (
                req.messages[i].role is System ==> i == 0)
            &&& forall|i: int|
                0 <= i < req.messages.len() ==> match (#[trigger] req.messages[i]).content {
                    ContentModel::Unsupported => false,
                    ContentModel::Parts(parts) => forall|k: int|
                        0 <= k < parts.len() ==> !((#[trigger] parts[k]) is Other) && (
                        req.messages[i].role is System ==> parts[k] is Text),
                    _ => true,
                }
            &&& exists|q: int|
                0 <= q < req.messages.len() && (#[trigger] req.messages[q]).role is User && !(
                req.messages[q].content is Text && {
                    let s = template::stripped(req.messages[q].content->Text_0);
                    "<tool_response>"@.is_prefix_of(s) && "</tool_response>"@.is_suffix_of(s)
                })
        },
{
    let n = req.messages.len() as int;
    let ids = req.opts.add_vision_id;
    assert forall|i: int| 0 <= i < n implies (template::wrapped_response(
        template::stripped(
            (#[trigger] req.messages[i]).content->Text_0,
        ),
    ) == {
        let s = template::stripped(req.messages[i].content->Text_0);
        "<tool_response>"@.is_prefix_of(s) && "</tool_response>"@.is_suffix_of(s)
    }) by {
        lemma_wrapped(template::stripped(req.messages[i].content->Text_0));
    }
    assert(!template::wrapped_response(template::stripped(seq![]))) by {
        reveal_strlit("<tool_response>");
        search::lemma_trim_all(seq![], Class::PythonSpace);
    }
    lemma_query(req.messages, ids, n);
    lemma_query_found(req.messages, ids, n);
    if n > 0 {
        let m = req.messages[0];
        lemma_drawable(m.content, false, true, ids, 0, 0);
        if let Ok(Some(q)) = template::last_query(req.messages, ids, n) {
            lemma_turns_drawable(req.messages, q, ids, n);
            assert(req.messages[q].role is User);
        }
    }
}

/// Whether a body can be written: in a system message, without images and videos.
spec fn drawable(c: ContentModel, system: bool) -> bool {
    match c {
        ContentModel::Unsupported => false,
        ContentModel::Parts(parts) => forall|k: int|
            0 <= k < parts.len() ==> !((#[trigger] parts[k]) is Other) && (system
                ==> parts[k] is Text),
        _ => true,
    }
}

proof fn lemma_parts_drawable(
    parts: Seq<PartModel>,
    count: bool,
    system: bool,
    ids: bool,
    d: Drawn,
)
    ensures
        template::parts_drawn(parts, count, system, ids, d) is Ok <==> forall|k: int|
            0 <= k < parts.len() ==> !((#[trigger] parts[k]) is Other) && (system
                ==> parts[k] is Text),
    decreases parts.len(),
{
    if parts.len() > 0 {
        let init = parts.drop_last();
        lemma_parts_drawable(init, count, system, ids, d);
        assert(parts[parts.len() - 1] == parts.last());
        assert forall|k: int| 0 <= k < init.len() implies #[trigger] parts[k] == init[k] by {}
        if template::parts_drawn(init, count, system, ids, d) is Err {
            let k = choose|k: int|
                0 <= k < init.len() && !(!((#[trigger] init[k]) is Other) && (system
                    ==> init[k] is Text));
            assert(parts[k] == init[k]);
        }
    }
}

proof fn lemma_drawable(
    c: ContentModel,
    count: bool,
    system: bool,
    ids: bool,
    images: nat,
    videos: nat,
)
    ensures
        template::content_drawn(c, count, system, ids, images, videos) is Ok <==> drawable(
            c,
            system,
        ),
{
    if let ContentModel::Parts(parts) = c {
        lemma_parts_drawable(
            parts,
            count,
            system,
            ids,
            (Drawn { text: seq![], images, videos }),
        );
    }
}

proof fn lemma_wrapped(s: Seq<char>)
    ensures
        template::wrapped_response(s) == ("<tool_response>"@.is_prefix_of(s)
            && "</tool_response>"@.is_suffix_of(s)),
{
    let open = "<tool_response>"@;
    let close = "</tool_response>"@;
    if open.len() <= s.len() {
        assert(s.subrange(0, 0 + open.len() as int) =~= s.subrange(0, open.len() as int));
    }
    if close.len() <= s.len() {
        assert(s.subrange(s.len() - close.len(), s.len() - close.len() + close.len())
            =~= s.subrange((s.len() - close.len()) as int, s.len() as int));
    }
}

proof fn lemma_query_found(messages: Seq<MessageModel>, ids: bool, k: int)
    requires
        0 <= k <= messages.len(),
        forall|i: int|
            0 <= i < messages.len() && (#[trigger] messages[i]).role is User
                ==> messages[i].content is Text || messages[i].content is Absent,
        !template::wrapped_response(template::stripped(seq![])),
    ensures
        template::last_query(messages, ids, k) is Ok,
        template::last_query(messages, ids, k)->Ok_0 is None ==> forall|j: int|
            0 <= j < k && (#[trigger] messages[j]).role is User ==> messages[j].content is Text
                && template::wrapped_response(template::stripped(messages[j].content->Text_0)),
    decreases k,
{
    if k > 0 {
        lemma_query_found(messages, ids, k - 1);
        assert(messages[k - 1].role is User ==> messages[k - 1].content is Text
            || messages[k - 1].content is Absent);
    }
}

proof fn lemma_turns_drawable(messages: Seq<MessageModel>, query: int, ids: bool, k: int)
    requires
        0 <= k <= messages.len(),
    ensures
        template::turns(messages, query, ids, k) is Ok <==> forall|i: int|
            0 <= i < k ==> !((#[trigger] messages[i]).role is Other) && (messages[i].role is System
                ==> i == 0) && drawable(messages[i].content, false),
    decreases k,
{
    if k > 0 {
        lemma_turns_drawable(messages, query, ids, k - 1);
        if let Ok(d) = template::turns(messages, query, ids, k - 1) {
            lemma_drawable(messages[k - 1].content, true, false, ids, d.images, d.videos);
        }
    }
}

} // verus!
