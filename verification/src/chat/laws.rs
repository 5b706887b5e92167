//! What holds of every rendering.
use super::message::{ContentModel, MessageModel, Options, PartModel, RequestModel};
use super::template;
use super::template::Drawn;
use crate::search;
use crate::text;
use crate::text::Class;
use vstd::prelude::*;

verus! {

/// Trimming is Python's `str.strip`: what is cut off at either end is white space, what is
/// left has none at its ends, and trimming it again changes nothing.
pub proof fn trimming_is_pythons_strip(s: Seq<char>) -> (ends: (Seq<char>, Seq<char>))
    ensures
        s == ends.0 + template::stripped(s) + ends.1,
        search::all_in(ends.0, Class::PythonSpace),
        search::all_in(ends.1, Class::PythonSpace),
        search::tight(template::stripped(s), Class::PythonSpace),
        template::stripped(template::stripped(s)) == template::stripped(s),
{
    search::trim_is_idempotent(s, Class::PythonSpace);
    search::lemma_trim_parts(s, Class::PythonSpace)
}

/// The generation prompt only appends: with it, the text is what it is without it and the
/// opened block, with the same counts, and the same requests are refused with the same
/// errors. Whether the model is to think shows in that block and nowhere else.
pub proof fn generation_prompt_only_appends(req: RequestModel, opts: Options)
    requires
        opts.add_vision_id == req.opts.add_vision_id,
        !req.opts.add_generation_prompt,
    ensures
        match (
            template::rendering(req),
            template::rendering(RequestModel { opts, ..req }),
        ) {
            (Ok(without), Ok(with)) => with == (Drawn {
                text: without.text + template::generation_prompt(opts),
                ..without
            }),
            (Err(e), Err(f)) => e == f,
            _ => false,
        },
{
    let other = RequestModel { opts, ..req };
    assert(template::system_block(req) == template::system_block(other));
    match (template::rendering(req), template::rendering(other)) {
        (Ok(without), Ok(with)) => {
            assert(with.text =~= without.text + template::generation_prompt(opts));
        },
        _ => {},
    }
}

// ---------------------------------------------------------------------------
// counts
// ---------------------------------------------------------------------------
/// How many of the parts are such.
pub open spec fn parts_like(parts: Seq<PartModel>, p: PartModel) -> nat
    decreases parts.len(),
{
    if parts.len() == 0 {
        0
    } else {
        parts_like(parts.drop_last(), p) + if parts.last() == p {
            1nat
        } else {
            0nat
        }
    }
}

/// How many parts of a body are such.
pub open spec fn content_like(c: ContentModel, p: PartModel) -> nat {
    match c {
        ContentModel::Parts(parts) => parts_like(parts, p),
        _ => 0,
    }
}

/// How many parts of the first `k` messages are such.
pub open spec fn messages_like(messages: Seq<MessageModel>, p: PartModel, k: int) -> nat
    decreases k,
{
    if k <= 0 {
        0
    } else {
        messages_like(messages, p, k - 1) + content_like(messages[k - 1].content, p)
    }
}

proof fn lemma_parts_counted(parts: Seq<PartModel>, ids: bool, d: Drawn)
    ensures
        template::parts_drawn(parts, true, false, ids, d) matches Ok(r) ==> r.images == d.images
            + parts_like(parts, PartModel::Image) && r.videos == d.videos + parts_like(
            parts,
            PartModel::Video,
        ),
    decreases parts.len(),
{
    if parts.len() > 0 {
        lemma_parts_counted(parts.drop_last(), ids, d);
    }
}

proof fn lemma_turns_counted(messages: Seq<MessageModel>, query: int, ids: bool, k: int)
    requires
        0 <= k <= messages.len(),
    ensures
        template::turns(messages, query, ids, k) matches Ok(d) ==> {
            &&& d.images == messages_like(messages, PartModel::Image, k)
            &&& d.videos == messages_like(messages, PartModel::Video, k)
            &&& forall|i: int|
                0 < i < k ==> !((#[trigger] messages[i]).role is System)
            &&& forall|i: int| 0 <= i < k ==> !((#[trigger] messages[i]).role is Other)
        },
    decreases k,
{
    if k > 0 {
        lemma_turns_counted(messages, query, ids, k - 1);
        match template::turns(messages, query, ids, k - 1) {
            Ok(d) => {
                match messages[k - 1].content {
                    ContentModel::Parts(parts) => {
                        lemma_parts_counted(
                            parts,
                            ids,
                            (Drawn { text: seq![], images: d.images, videos: d.videos }),
                        );
                    },
                    _ => {},
                }
            },
            Err(_) => {},
        }
    }
}

/// The counts of a rendering are the numbers of image and video parts of its messages.
pub proof fn every_image_and_video_is_counted(req: RequestModel)
    ensures
        template::rendering(req) matches Ok(d) ==> d.images == messages_like(
            req.messages,
            PartModel::Image,
            req.messages.len() as int,
        ) && d.videos == messages_like(
            req.messages,
            PartModel::Video,
            req.messages.len() as int,
        ),
{
    let n = req.messages.len() as int;
    match template::last_query(req.messages, req.opts.add_vision_id, n) {
        Ok(Some(query)) => {
            lemma_turns_counted(req.messages, query, req.opts.add_vision_id, n);
        },
        _ => {},
    }
}

/// What is rendered is a conversation: no role that the template does not know, and a system
/// message at the beginning or not at all.
pub proof fn rendered_requests_are_conversations(req: RequestModel)
    ensures
        template::rendering(req) is Ok ==> {
            &&& req.messages.len() > 0
            &&& forall|i: int|
                0 < i < req.messages.len() ==> !((#[trigger] req.messages[i]).role is System)
            &&& forall|i: int|
                0 <= i < req.messages.len() ==> !((#[trigger] req.messages[i]).role is Other)
        },
{
    let n = req.messages.len() as int;
    match template::last_query(req.messages, req.opts.add_vision_id, n) {
        Ok(Some(query)) => {
            lemma_turns_counted(req.messages, query, req.opts.add_vision_id, n);
        },
        _ => {},
    }
}

/// White space is Unicode's, and Python's has four separators more.
pub proof fn white_space_is_unicodes(c: char)
    ensures
        text::white_space(c) <==> {
            ||| 0x9 <= c as int <= 0xd
            ||| c as int == 0x20
            ||| c as int == 0x85
            ||| c as int == 0xa0
            ||| c as int == 0x1680
            ||| 0x2000 <= c as int <= 0x200a
            ||| c as int == 0x2028
            ||| c as int == 0x2029
            ||| c as int == 0x202f
            ||| c as int == 0x205f
            ||| c as int == 0x3000
        },
        text::in_class(Class::PythonSpace, c) <==> text::white_space(c) || 0x1c <= c as int <= 0x1f,
        text::in_class(Class::WhiteSpace, c) <==> text::white_space(c),
        text::in_class(Class::Newline, c) <==> c as int == 0xa,
{
}

} // verus!
