//! What a request holds, in terms of the JSON it was read from.
use super::message::{CallModel, ContentModel, MessageModel, PartModel, RequestModel, RoleModel};
use super::request;
use crate::pyjson::value;
use crate::pyjson::value::Json;
use crate::pyjson::writer;
use vstd::prelude::*;

verus! {

proof fn lemma_messages_in_order(a: Seq<Json>)
    ensures
        match request::messages_of(a) {
            Ok(m) => m.len() == a.len() && forall|i: int|
                0 <= i < a.len() ==> request::message_of(#[trigger] a[i]) == Ok::<
                    MessageModel,
                    Seq<char>,
                >(m[i]),
            Err(e) => exists|k: int|
                0 <= k < a.len() && request::message_of(#[trigger] a[k]) == Err::<
                    MessageModel,
                    Seq<char>,
                >(e) && forall|i: int| 0 <= i < k ==> request::message_of(#[trigger] a[i]) is Ok,
        },
    decreases a.len(),
{
    if a.len() > 0 {
        let init = a.drop_last();
        lemma_messages_in_order(init);
        match request::messages_of(init) {
            Ok(m) => {
                assert forall|i: int| 0 <= i < init.len() implies request::message_of(
                    #[trigger] a[i],
                ) == Ok::<MessageModel, Seq<char>>(m[i]) by {
                    assert(a[i] == init[i]);
                }
                assert(a[a.len() - 1] == a.last());
            },
            Err(e) => {
                let k = choose|k: int|
                    0 <= k < init.len() && request::message_of(#[trigger] init[k]) == Err::<
                        MessageModel,
                        Seq<char>,
                    >(e) && forall|i: int|
                        0 <= i < k ==> request::message_of(#[trigger] init[i]) is Ok;
                assert(a[k] == init[k]);
                assert forall|i: int| 0 <= i < k implies request::message_of(
                    #[trigger] a[i],
                ) is Ok by {
                    assert(a[i] == init[i]);
                }
            },
        }
    }
}

proof fn lemma_calls_in_order(a: Seq<Json>)
    ensures
        match request::calls_of(a) {
            Ok(c) => c.len() == a.len() && forall|i: int|
                0 <= i < a.len() ==> request::call_of(#[trigger] a[i]) == Ok::<
                    CallModel,
                    Seq<char>,
                >(c[i]),
            Err(e) => exists|k: int|
                0 <= k < a.len() && request::call_of(#[trigger] a[k]) == Err::<
                    CallModel,
                    Seq<char>,
                >(e),
        },
    decreases a.len(),
{
    if a.len() > 0 {
        let init = a.drop_last();
        lemma_calls_in_order(init);
        match request::calls_of(init) {
            Ok(c) => {
                assert forall|i: int| 0 <= i < init.len() implies request::call_of(
                    #[trigger] a[i],
                ) == Ok::<CallModel, Seq<char>>(c[i]) by {
                    assert(a[i] == init[i]);
                }
                assert(a[a.len() - 1] == a.last());
            },
            Err(e) => {
                let k = choose|k: int|
                    0 <= k < init.len() && request::call_of(#[trigger] init[k]) == Err::<
                        CallModel,
                        Seq<char>,
                    >(e);
                assert(a[k] == init[k]);
            },
        }
    }
}

/// **A request holds every message of its list, in order**, the tools of its list, and the flags
/// that are given as `true`. It is refused where the messages are no list, and where a message
/// is refused, for what is wrong with the first such message. A list that is not given is empty.
pub proof fn every_message_is_read(v: Json)
    ensures
        match v.member("messages"@) {
            Some(Json::Array(a)) => match request::request_of(v) {
                Ok(r) => r.messages.len() == a.len() && forall|i: int|
                    0 <= i < a.len() ==> request::message_of(#[trigger] a[i]) == Ok::<
                        MessageModel,
                        Seq<char>,
                    >(r.messages[i]),
                Err(e) => exists|k: int|
                    0 <= k < a.len() && request::message_of(#[trigger] a[k]) == Err::<
                        MessageModel,
                        Seq<char>,
                    >(e) && forall|i: int|
                        0 <= i < k ==> request::message_of(#[trigger] a[i]) is Ok,
            },
            Some(_) => request::request_of(v) == Err::<RequestModel, Seq<char>>(
                "`messages` is not an array"@,
            ),
            None => request::request_of(v) is Ok && request::request_of(v)->Ok_0.messages.len()
                == 0,
        },
        request::request_of(v) matches Ok(r) ==> {
            &&& match v.member("tools"@) {
                Some(Json::Array(t)) => r.tools == t,
                _ => r.tools.len() == 0,
            }
            &&& r.opts.add_generation_prompt <==> v.member("add_generation_prompt"@) == Some(
                Json::Bool(true),
            )
            &&& r.opts.enable_thinking <==> v.member("enable_thinking"@) == Some(Json::Bool(true))
            &&& r.opts.add_vision_id <==> v.member("add_vision_id"@) == Some(Json::Bool(true))
        },
{
    if let Some(Json::Array(a)) = v.member("messages"@) {
        lemma_messages_in_order(a);
    }
}

/// **A message is its role, its body, its reasoning and all its calls.** A body that is a text is
/// that text, a list is a list of parts, and one that is `null` or not given is absent. Reasoning
/// is only what is given as a text. A message without a role that is a text is refused, and so is
/// one with a call that has no name.
pub proof fn a_message_is_what_its_members_say(v: Json)
    ensures
        match request::message_of(v) {
            Ok(m) => {
                &&& v.member("role"@) matches Some(Json::Str(role)) && {
                    &&& m.role is System <==> role == "system"@
                    &&& m.role is User <==> role == "user"@
                    &&& m.role is Assistant <==> role == "assistant"@
                    &&& m.role is Tool <==> role == "tool"@
                    &&& m.role matches RoleModel::Other(name) ==> name == role
                }
                &&& match v.member("content"@) {
                    None => m.content is Absent,
                    Some(Json::Null) => m.content is Absent,
                    Some(Json::Str(s)) => m.content matches ContentModel::Text(t) && t == s,
                    Some(Json::Array(a)) => m.content matches ContentModel::Parts(p) && p.len()
                        == a.len() && forall|i: int|
                        0 <= i < a.len() ==> #[trigger] p[i] == request::part_of(a[i]),
                    _ => m.content is Unsupported,
                }
                &&& match v.member("reasoning_content"@) {
                    Some(Json::Str(s)) => m.reasoning == Some(s),
                    _ => m.reasoning is None,
                }
                &&& match v.member("tool_calls"@) {
                    Some(Json::Array(a)) => m.tool_calls.len() == a.len() && forall|i: int|
                        0 <= i < a.len() ==> request::call_of(#[trigger] a[i]) == Ok::<
                            CallModel,
                            Seq<char>,
                        >(m.tool_calls[i]),
                    _ => m.tool_calls.len() == 0,
                }
            },
            Err(e) => {
                ||| !(v.member("role"@) matches Some(Json::Str(_)))
                ||| v.member("tool_calls"@) matches Some(Json::Array(a)) && exists|k: int|
                    0 <= k < a.len() && request::call_of(#[trigger] a[k]) is Err
            },
        },
{
    reveal_strlit("system");
    reveal_strlit("user");
    reveal_strlit("assistant");
    reveal_strlit("tool");
    assert("system"@[0] == 's');
    assert("user"@[0] == 'u');
    assert("assistant"@[0] == 'a');
    assert("tool"@[0] == 't');
    if let Some(Json::Array(a)) = v.member("tool_calls"@) {
        lemma_calls_in_order(a);
    }
}

/// **A call** has the name and the arguments that its `function` gives, or that it gives itself
/// where it has no `function`: all the arguments, in their order. It is refused exactly where
/// there is no name that is a text, and has no arguments where they are no dict.
pub proof fn a_call_is_what_its_function_says(v: Json)
    ensures
        ({
            let f = if v.member("function"@) is Some {
                v.member("function"@)->0
            } else {
                v
            };
            match request::call_of(v) {
                Ok(c) => {
                    &&& f.member("name"@) == Some(Json::Str(c.name))
                    &&& match f.member("arguments"@) {
                        Some(Json::Object(m)) => c.arguments == m,
                        _ => c.arguments.len() == 0,
                    }
                },
                Err(_) => !(f.member("name"@) matches Some(Json::Str(_))),
            }
        }),
{
}

/// **A part that is a dict** is what its keys and its `type` say, and an image before a video:
/// an image with `image`, `image_url` or the type `image`, a video with `video` or the type
/// `video`, and otherwise a text where it has one.
pub proof fn a_part_is_an_image_a_video_or_a_text(m: Seq<(Seq<char>, Json)>)
    ensures
        ({
            let v = Json::Object(m);
            let image = v.member("image"@) is Some || v.member("image_url"@) is Some || v.member(
                "type"@,
            ) == Some(Json::Str("image"@));
            let video = v.member("video"@) is Some || v.member("type"@) == Some(
                Json::Str("video"@),
            );
            &&& request::part_of(v) is Image <==> image
            &&& request::part_of(v) is Video <==> !image && video
            &&& !image && !video ==> match v.member("text"@) {
                Some(Json::Str(s)) => request::part_of(v) == PartModel::Text(s),
                Some(t) => request::part_of(v) == PartModel::Text(writer::str_text(t)),
                None => request::part_of(v) is Other,
            }
        }),
{
    value::lemma_member_index(m, "image"@);
    value::lemma_member_index(m, "image_url"@);
    value::lemma_member_index(m, "video"@);
    reveal_with_fuel(writer::str_text, 2);
}

/// **A member is the first of its name**, and there is none exactly where no member has it.
pub proof fn the_first_of_a_name_is_read(m: Seq<(Seq<char>, Json)>, key: Seq<char>, i: int)
    requires
        0 <= i < m.len(),
        m[i].0 == key,
        forall|j: int| 0 <= j < i ==> (#[trigger] m[j]).0 != key,
    ensures
        Json::Object(m).member(key) == Some(m[i].1),
        forall|other: Seq<char>|
            (forall|j: int| 0 <= j < m.len() ==> (#[trigger] m[j]).0 != other) ==> (
            #[trigger] Json::Object(m).member(other)) is None,
{
    value::lemma_member_index(m, key);
    let k = value::member_index(m, key);
    assert(value::has_member(m, key)) by {
        assert(m[i].0 == key);
    }
    assert(k == i) by {
        if k < i {
            assert(m[k].0 != key);
        } else if i < k {
            assert(m[i].0 != key);
        }
    }
    assert forall|other: Seq<char>|
        (forall|j: int| 0 <= j < m.len() ==> (#[trigger] m[j]).0 != other) implies (
    #[trigger] Json::Object(m).member(other)) is None by {
        value::lemma_member_index(m, other);
    }
}

} // verus!
