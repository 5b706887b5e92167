//! The text of a section of a document, as it stands in the document.
use super::reader;
use super::reader::{read_string, read_value, skip_ws};
use super::value;
use super::value::Json;
use crate::text::{chars_string, same_text, str_chars};
use vstd::prelude::*;

verus! {

/// The text of the first value named `key`, of the members of an object from `i` on.
pub open spec fn member_text_at(c: Seq<char>, i: int, key: Seq<char>) -> Option<Seq<char>>
    decreases c.len() - i,
{
    match reader::string_at(c, reader::skip_space(c, i)) {
        Err(_) => None,
        Ok((name, k)) => {
            let m = reader::skip_space(c, k);
            let n = reader::skip_space(c, m + 1);
            if reader::peek(c, m) != Some(':') {
                None
            } else {
                match reader::value_at(c, n) {
                    Err(_) => None,
                    Ok((_, e)) => {
                        let p = reader::skip_space(c, e);
                        if name == key {
                            Some(c.subrange(n, e))
                        } else if reader::peek(c, p) == Some(',') && i <= p {
                            member_text_at(c, p + 1, key)
                        } else {
                            None
                        }
                    },
                }
            }
        },
    }
}

/// The text of the first member named `key` of the object that a document is, where it is one
/// and has such a member.
pub open spec fn member_text(c: Seq<char>, key: Seq<char>) -> Option<Seq<char>> {
    let i = reader::skip_space(c, 0);
    if reader::peek(c, i) == Some('{') {
        member_text_at(c, i + 1, key)
    } else {
        None
    }
}

/// The text of the first member named `key` of the object that a document is, where it is one
/// and has such a member.
pub fn find_member_text(src: &str, key: &str) -> (r: Option<String>)
    ensures
        match (r, member_text(src@, key@)) {
            (Some(t), Some(s)) => t@ == s,
            (None, None) => true,
            _ => false,
        },
{
    let chars = str_chars(src);
    let c: &[char] = chars.as_slice();
    let start: usize = skip_ws(c, 0);
    if start >= c.len() || c[start] != '{' {
        return None;
    }
    let mut k: usize = start + 1;
    loop
        invariant
            k <= c@.len(),
            c@ == src@,
            member_text(src@, key@) == member_text_at(c@, k as int, key@),
        decreases c@.len() - k,
    {
        let j: usize = skip_ws(c, k);
        let (name, s): (String, usize) = match read_string(c, j) {
            Err(_) => {
                return None;
            },
            Ok(read) => read,
        };
        let m: usize = skip_ws(c, s);
        if m >= c.len() || c[m] != ':' {
            return None;
        }
        let n: usize = skip_ws(c, m + 1);
        proof {
            reader::lemma_value_advances(c@, n as int);
        }
        let e: usize = match read_value(c, n) {
            Err(_) => {
                return None;
            },
            Ok((_, e)) => e,
        };
        if same_text(name.as_str(), key) {
            return Some(chars_string(c, n, e));
        }
        let p: usize = skip_ws(c, e);
        if p >= c.len() || c[p] != ',' {
            return None;
        }
        k = p + 1;
    }
}

/// Whether `s` is the text of the value `v` where that stands in `c`.
pub open spec fn is_text_of(c: Seq<char>, v: Json, s: Seq<char>) -> bool {
    exists|n: int, e: int|
        {
            &&& 0 <= n < e <= c.len()
            &&& reader::value_at(c, n) == Ok::<(Json, int), Seq<char>>((v, e))
            &&& s == #[trigger] c.subrange(n, e)
        }
}

/// Whether `t` is the text of the first of some members that is named `key`.
pub open spec fn text_agrees(
    c: Seq<char>,
    members: Seq<(Seq<char>, Json)>,
    key: Seq<char>,
    t: Option<Seq<char>>,
) -> bool {
    let at = value::member_index(members, key);
    match t {
        Some(s) => at < members.len() && is_text_of(c, members[at].1, s),
        None => at == members.len(),
    }
}

proof fn lemma_first_agrees(
    c: Seq<char>,
    name: Seq<char>,
    v: Json,
    rest: Seq<(Seq<char>, Json)>,
    n: int,
    e: int,
)
    requires
        0 <= n < e <= c.len(),
        reader::value_at(c, n) == Ok::<(Json, int), Seq<char>>((v, e)),
    ensures
        text_agrees(c, seq![(name, v)] + rest, name, Some(c.subrange(n, e))),
{
    assert(is_text_of(c, v, c.subrange(n, e)));
    assert((seq![(name, v)] + rest)[0] == (name, v));
}

proof fn lemma_later_agrees(
    c: Seq<char>,
    name: Seq<char>,
    v: Json,
    rest: Seq<(Seq<char>, Json)>,
    key: Seq<char>,
    t: Option<Seq<char>>,
)
    requires
        name != key,
        text_agrees(c, rest, key, t),
    ensures
        text_agrees(c, seq![(name, v)] + rest, key, t),
{
    let members = seq![(name, v)] + rest;
    assert(members.drop_first() =~= rest);
    assert(members[0] == (name, v));
    value::lemma_member_index(rest, key);
    let at = value::member_index(rest, key);
    if at < rest.len() {
        assert(members[at + 1] == rest[at]);
    }
}

proof fn lemma_member_text_at(c: Seq<char>, i: int, key: Seq<char>)
    requires
        0 <= i,
        reader::members_at(c, i) is Ok,
    ensures
        text_agrees(c, reader::members_at(c, i)->Ok_0.0, key, member_text_at(c, i, key)),
    decreases c.len() - i,
{
    let j = reader::skip_space(c, i);
    reader::lemma_skip_space(c, i);
    let (name, k) = reader::string_at(c, j)->Ok_0;
    reader::lemma_string_advances(c, j + 1);
    let m = reader::skip_space(c, k);
    let n = reader::skip_space(c, m + 1);
    reader::lemma_skip_space(c, k);
    reader::lemma_skip_space(c, m + 1);
    reader::lemma_value_advances(c, n);
    let (v, e) = reader::value_at(c, n)->Ok_0;
    let p = reader::skip_space(c, e);
    reader::lemma_skip_space(c, e);
    let members = reader::members_at(c, i)->Ok_0.0;
    let rest = if reader::peek(c, p) == Some(',') {
        reader::members_at(c, p + 1)->Ok_0.0
    } else {
        seq![]
    };
    assert(members =~= seq![(name, v)] + rest);
    if name == key {
        lemma_first_agrees(c, name, v, rest, n, e);
    } else {
        if reader::peek(c, p) == Some(',') {
            lemma_member_text_at(c, p + 1, key);
            assert(member_text_at(c, i, key) == member_text_at(c, p + 1, key));
        } else {
            assert(member_text_at(c, i, key) is None);
        }
        lemma_later_agrees(c, name, v, rest, key, member_text_at(c, i, key));
    }
}

/// A document has a text for a member exactly where it has the member, and that text is the one
/// that the member's value was read from.
pub proof fn member_text_is_where_the_member_stands(c: Seq<char>, key: Seq<char>)
    requires
        reader::document(c) is Ok,
    ensures
        match (member_text(c, key), reader::document(c)->Ok_0.member(key)) {
            (Some(s), Some(v)) => is_text_of(c, v, s),
            (None, None) => true,
            _ => false,
        },
{
    let i = reader::skip_space(c, 0);
    reader::lemma_skip_space(c, 0);
    if reader::peek(c, i) == Some('{') {
        let first = reader::skip_space(c, i + 1);
        if reader::peek(c, first) == Some('}') {
            assert(reader::string_at(c, first) is Err);
        } else {
            lemma_member_text_at(c, i + 1, key);
        }
    }
}

} // verus!
