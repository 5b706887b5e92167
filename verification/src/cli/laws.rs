//! What a command line means, argument by argument.
use crate::chat::message::{ContentModel, MessageModel, RoleModel};
use crate::chatparse::reply::ReplyModel;
use crate::cli;
use crate::pyjson::value::Json;
use crate::search;
use crate::text;
use crate::text::Class;
use crate::tokenizer::load;
use vstd::prelude::*;

verus! {

/// **Each option that lets someone speak takes the argument behind it**, whatever that is, and
/// the turns stand in the order of their options. Any other argument is passed over, and an
/// option at the end is refused.
pub proof fn each_option_speaks_once(args: Seq<Seq<char>>, i: int)
    requires
        0 <= i < args.len(),
    ensures
        ({
            let role = if args[i] == "--system"@ {
                Some(RoleModel::System)
            } else if args[i] == "--chat"@ {
                Some(RoleModel::User)
            } else if args[i] == "--reply"@ {
                Some(RoleModel::Assistant)
            } else if args[i] == "--tool-result"@ {
                Some(RoleModel::Tool)
            } else {
                None
            };
            let said = if i + 2 <= args.len() {
                args[i + 1]
            } else {
                seq![]
            };
            match role {
                None => cli::turns_from(args, i) == cli::turns_from(args, i + 1),
                Some(r) => if i + 1 == args.len() {
                    cli::turns_from(args, i) == Err::<Seq<MessageModel>, Seq<char>>(
                        args[i] + " needs a value"@,
                    )
                } else {
                    match cli::turns_from(args, i + 2) {
                        Ok(rest) => cli::turns_from(args, i) == Ok::<Seq<MessageModel>, Seq<char>>(
                            seq![
                                MessageModel {
                                    role: r,
                                    content: ContentModel::Text(said),
                                    reasoning: None,
                                    tool_calls: seq![],
                                },
                            ] + rest,
                        ),
                        Err(e) => cli::turns_from(args, i) == Err::<Seq<MessageModel>, Seq<char>>(
                            e,
                        ),
                    }
                },
            }
        }),
        cli::turns_from(args, args.len() as int) == Ok::<Seq<MessageModel>, Seq<char>>(seq![]),
{
}

/// **The parts of a list and its commas are the whole text**, and no part holds a comma.
pub proof fn comma_parts_join_back(s: Seq<char>)
    ensures
        cli::comma_parts(s).len() > 0,
        s == cli::comma_parts(s)[0] + Seq::new(
            (cli::comma_parts(s).len() - 1) as nat,
            |k: int| seq![','] + cli::comma_parts(s)[k + 1],
        ).flatten(),
        forall|k: int|
            0 <= k < cli::comma_parts(s).len() ==> !(#[trigger] cli::comma_parts(s)[k]).contains(
                ',',
            ),
    decreases s.len(),
{
    reveal_strlit(",");
    let sep = ","@;
    let parts = cli::comma_parts(s);
    let behind = Seq::new((parts.len() - 1) as nat, |k: int| seq![','] + parts[k + 1]);
    assert(sep =~= seq![',']);
    text::lemma_find_from(s, sep, 0);
    if text::has_text(s, sep) {
        let i = text::find_from(s, sep, 0)->0;
        let first = text::before_first(s, sep);
        let rest = text::after_first(s, sep);
        comma_parts_join_back(rest);
        let tail = cli::comma_parts(rest);
        assert(parts == seq![first] + tail);
        assert(s.subrange(i, i + 1)[0] == s[i]);
        assert(s =~= first + seq![','] + rest);
        let more = Seq::new((tail.len() - 1) as nat, |k: int| seq![','] + tail[k + 1]);
        let one = seq![','] + tail[0];
        assert(behind =~= seq![one] + more);
        assert(behind.first() == one);
        assert(behind.drop_first() =~= more);
        assert(behind.flatten() == one + more.flatten());
        assert(s =~= first + behind.flatten());
        assert forall|k: int| 0 <= k < parts.len() implies !(#[trigger] parts[k]).contains(',') by {
            if k > 0 {
                assert(parts[k] == tail[k - 1]);
            } else {
                lemma_no_comma(s, first);
            }
        }
    } else {
        assert(behind =~= seq![]);
        assert(parts[0] == s);
        assert(s.take(s.len() as int) =~= s);
        assert forall|k: int| 0 <= k < parts.len() implies !(#[trigger] parts[k]).contains(',') by {
            lemma_no_comma(s, s);
        }
    }
}

proof fn lemma_no_comma(s: Seq<char>, first: Seq<char>)
    requires
        first.len() <= s.len(),
        first == s.take(first.len() as int),
        forall|j: int| 0 <= j < first.len() ==> !#[trigger] text::matches_at(s, ","@, j),
    ensures
        !first.contains(','),
{
    reveal_strlit(",");
    if first.contains(',') {
        let j = choose|j: int| 0 <= j < first.len() && first[j] == ',';
        assert(s[j] == ',');
        assert(s.subrange(j, j + 1) =~= ","@);
        assert(text::matches_at(s, ","@, j));
    }
}

/// **A list of ids is the numbers of its parts that are not blank**, in order.
pub proof fn ids_are_those_of_the_parts(parts: Seq<Seq<char>>)
    ensures
        cli::ids_in(parts) matches Ok(ids) ==> {
            let written = parts.filter(
                |p: Seq<char>| text::trim(p, Class::WhiteSpace).len() > 0,
            );
            &&& ids.len() == written.len()
            &&& forall|k: int|
                0 <= k < ids.len() ==> load::written_u32(
                    text::trim(#[trigger] written[k], Class::WhiteSpace),
                ) == Some(ids[k])
        },
        cli::ids_in(parts) is Err <==> exists|k: int|
            0 <= k < parts.len() && text::trim(#[trigger] parts[k], Class::WhiteSpace).len() > 0
                && load::written_u32(text::trim(parts[k], Class::WhiteSpace)) is None,
    decreases parts.len(),
{
    reveal(Seq::filter);
    let keep = |p: Seq<char>| text::trim(p, Class::WhiteSpace).len() > 0;
    if parts.len() > 0 {
        let init = parts.drop_last();
        ids_are_those_of_the_parts(init);
        assert(parts.last() == parts[parts.len() - 1]);
        assert forall|k: int| 0 <= k < init.len() implies #[trigger] parts[k] == init[k] by {}
        if cli::ids_in(init) is Err {
            let k = choose|k: int|
                0 <= k < init.len() && text::trim(#[trigger] init[k], Class::WhiteSpace).len() > 0
                    && load::written_u32(text::trim(init[k], Class::WhiteSpace)) is None;
            assert(parts[k] == init[k]);
        } else if cli::ids_in(parts) is Ok {
            assert forall|k: int| 0 <= k < parts.len() && text::trim(
                #[trigger] parts[k],
                Class::WhiteSpace,
            ).len() > 0 implies load::written_u32(
                text::trim(parts[k], Class::WhiteSpace),
            ) is Some by {
                if k < init.len() {
                    assert(parts[k] == init[k]);
                }
            }
        }
    }
}

/// **An id is written in decimal**, with or without a `+` in front, and leading zeros do not
/// count. A text with anything else in it, or with no digit, is none.
pub proof fn ids_are_written_in_decimal(n: u32, s: Seq<char>)
    ensures
        load::written_u32(text::decimal(n as nat)) == Some(n),
        load::written_u32(seq!['+'] + text::decimal(n as nat)) == Some(n),
        load::written_u32(seq!['0'] + text::decimal(n as nat)) == Some(n),
        s.len() == 0 ==> load::written_u32(s) is None,
        (exists|k: int| 0 < k < s.len() && !('0' <= #[trigger] s[k] <= '9')) ==> load::written_u32(
            s,
        ) is None,
        s.len() == 1 && !('0' <= s[0] <= '9') ==> load::written_u32(s) is None,
{
    let d = text::decimal(n as nat);
    lemma_decimal_digits(n as nat);
    assert((seq!['+'] + d).drop_first() =~= d);
    let z = seq!['0'] + d;
    lemma_leading_zero(d);
    assert forall|k: int| 0 <= k < z.len() implies '0' <= #[trigger] z[k] <= '9' by {
        if k > 0 {
            assert(z[k] == d[k - 1]);
        }
    }
    if exists|k: int| 0 < k < s.len() && !('0' <= #[trigger] s[k] <= '9') {
        let k = choose|k: int| 0 < k < s.len() && !('0' <= #[trigger] s[k] <= '9');
        assert(s.drop_first()[k - 1] == s[k]);
    }
}

proof fn lemma_decimal_digits(n: nat)
    ensures
        load::all_digits(text::decimal(n)),
        load::digits_value(text::decimal(n)) == n,
        text::decimal(n).len() > 0,
        text::decimal(n)[0] != '+',
    decreases n,
{
    let d = text::decimal(n);
    if n >= 10 {
        lemma_decimal_digits(n / 10);
        assert(d.drop_last() =~= text::decimal(n / 10));
    } else {
        assert(d.drop_last() =~= seq![]);
        assert(load::digits_value(d.drop_last()) == 0);
    }
}

proof fn lemma_leading_zero(d: Seq<char>)
    ensures
        load::digits_value(seq!['0'] + d) == load::digits_value(d),
    decreases d.len(),
{
    let z = seq!['0'] + d;
    if d.len() > 0 {
        lemma_leading_zero(d.drop_last());
        assert(z.drop_last() =~= seq!['0'] + d.drop_last());
    } else {
        assert(z =~= seq!['0']);
        assert(z.drop_last() =~= seq![]);
        assert(load::digits_value(z.drop_last()) == 0);
    }
}

/// **A word is four bytes, the least significant first**, in a blob as well as out of one.
pub proof fn words_are_little_endian(words: Seq<u32>, i: int)
    requires
        0 <= i < words.len(),
    ensures
        ({
            let b = cli::words_bytes(words);
            &&& b.len() == 4 * words.len()
            &&& words[i] == b[4 * i] + 256 * b[4 * i + 1] + 65536 * b[4 * i + 2] + 16777216 * b[4 * i
                + 3]
        }),
    decreases words.len(),
{
    let b = cli::words_bytes(words);
    let init = words.drop_last();
    let w = words.last();
    let last = cli::word_bytes(w);
    let a = cli::words_bytes(init);
    if init.len() > 0 {
        words_are_little_endian(
            init,
            if i < init.len() {
                i
            } else {
                0
            },
        );
    }
    assert(a.len() == 4 * init.len());
    if i < init.len() {
        assert(b[4 * i] == a[4 * i] && b[4 * i + 1] == a[4 * i + 1] && b[4 * i + 2] == a[4 * i + 2]
            && b[4 * i + 3] == a[4 * i + 3]);
    } else {
        assert(b[4 * i] == last[0] && b[4 * i + 1] == last[1] && b[4 * i + 2] == last[2] && b[4 * i
            + 3] == last[3]);
    }
}

/// **A text that is too long is cut between characters**: what is left is the longest beginning
/// of it that takes 200 bytes at most, with dots behind it.
pub proof fn long_texts_are_cut(s: Seq<char>) -> (n: int)
    ensures
        text::utf8_bytes(s) <= 200 ==> cli::shortened(s) == s,
        text::utf8_bytes(s) > 200 ==> {
            &&& 0 <= n < s.len()
            &&& cli::shortened(s) == s.take(n) + "..."@
            &&& text::utf8_bytes(s.take(n)) <= 200
            &&& text::utf8_bytes(s.take(n + 1)) > 200
        },
{
    let n = text::whole_chars(s, 0, 200) as int;
    text::lemma_whole_chars(s, 0, 200);
    lemma_cut(s, 0, 200);
    assert(s.take(0) =~= seq![]);
    assert(s.take(s.len() as int) =~= s);
    n
}

proof fn lemma_cut(s: Seq<char>, i: int, room: nat)
    requires
        0 <= i <= s.len(),
    ensures
        ({
            let n = i + text::whole_chars(s, i, room);
            &&& n <= s.len()
            &&& text::utf8_bytes(s.take(n)) <= text::utf8_bytes(s.take(i)) + room
            &&& n < s.len() ==> text::utf8_bytes(s.take(n + 1)) > text::utf8_bytes(s.take(i)) + room
        }),
    decreases s.len() - i,
{
    if i < s.len() {
        assert(s.take(i + 1).drop_last() =~= s.take(i));
        assert(s.take(i + 1).last() == s[i]);
        if text::utf8_width(s[i]) <= room {
            lemma_cut(s, i + 1, (room - text::utf8_width(s[i])) as nat);
        }
    }
}

/// **A reply goes into the history as it was read**: what it says, what it thought, and all its
/// calls, each argument as the text it came as.
pub proof fn a_reply_goes_into_the_history(r: ReplyModel)
    ensures
        ({
            let m = cli::reply_message(r);
            &&& m.role is Assistant
            &&& m.content == ContentModel::Text(r.content)
            &&& m.reasoning == Some(
                match r.reasoning {
                    Some(t) => t,
                    None => seq![],
                },
            )
            &&& m.tool_calls.len() == r.tool_calls.len()
            &&& forall|k: int|
                #![trigger m.tool_calls[k]]
                0 <= k < r.tool_calls.len() ==> {
                    &&& m.tool_calls[k].name == r.tool_calls[k].name
                    &&& m.tool_calls[k].arguments.len() == r.tool_calls[k].arguments.len()
                    &&& forall|j: int|
                        0 <= j < r.tool_calls[k].arguments.len() ==> (
                        #[trigger] m.tool_calls[k].arguments[j]) == (
                            r.tool_calls[k].arguments[j].0,
                            Json::Str(r.tool_calls[k].arguments[j].1),
                        )
                }
        }),
{
}

/// **A session ends** without a line and at a blank one, and at nothing else.
pub proof fn only_a_blank_line_ends_a_session(s: Seq<char>, k: int)
    ensures
        cli::ends_session(None),
        0 <= k < s.len() && !text::white_space(s[k]) ==> !cli::ends_session(Some(s)),
        (forall|j: int| 0 <= j < s.len() ==> text::white_space(#[trigger] s[j]))
            ==> cli::ends_session(Some(s)),
{
    let ends = search::lemma_trim_parts(s, Class::WhiteSpace);
    if text::trim(s, Class::WhiteSpace).len() == 0 && 0 <= k < s.len() {
        if k < ends.0.len() {
            assert(s[k] == ends.0[k]);
        } else {
            assert(s[k] == ends.1[k - ends.0.len()]);
        }
    }
    if forall|j: int| 0 <= j < s.len() ==> text::white_space(#[trigger] s[j]) {
        search::lemma_trim_all(s, Class::WhiteSpace);
    }
}

} // verus!
