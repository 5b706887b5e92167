//! What is read as what: where the parts of a value stand in its text.
use super::float::Real;
use super::laws;
use super::reader;
use super::value::Json;
use crate::text;
use vstd::prelude::*;
use vstd::utf8::*;

verus! {

/// Whether nothing but white space stands in `a..b`.
pub open spec fn blank(c: Seq<char>, a: int, b: int) -> bool {
    a <= b && forall|x: int|
        a <= x < b ==> #[trigger] c[x] == ' ' || c[x] == '\t' || c[x] == '\n' || c[x] == '\r'
}

/// Where the parts of a list or a dict stand: the keys with their colons, the values, and the
/// commas behind them.
pub ghost struct Spans {
    pub keys: Seq<int>,
    pub key_ends: Seq<int>,
    pub colons: Seq<int>,
    pub starts: Seq<int>,
    pub ends: Seq<int>,
    pub commas: Seq<int>,
}

/// Whether the elements of a list stand from `i` on where `p` says, with the closing bracket
/// right before `e`.
pub open spec fn elements_stand(c: Seq<char>, i: int, e: int, a: Seq<Json>, p: Spans) -> bool {
    &&& 0 <= i
    &&& a.len() > 0
    &&& p.starts.len() == a.len()
    &&& p.ends.len() == a.len()
    &&& p.commas.len() == a.len()
    &&& blank(c, i, p.starts[0])
    &&& forall|j: int|
        0 <= j < a.len() ==> reader::value_at(c, #[trigger] p.starts[j]) == Ok::<
            (Json, int),
            Seq<char>,
        >((a[j], p.ends[j])) && blank(c, p.ends[j], p.commas[j]) && p.commas[j] < c.len()
    &&& forall|j: int|
        0 <= j < a.len() - 1 ==> c[#[trigger] p.commas[j]] == ',' && blank(
            c,
            p.commas[j] + 1,
            p.starts[j + 1],
        )
    &&& c[p.commas[a.len() - 1]] == ']'
    &&& e == p.commas[a.len() - 1] + 1
}

proof fn lemma_skipped(c: Seq<char>, i: int)
    requires
        0 <= i <= c.len(),
    ensures
        blank(c, i, reader::skip_space(c, i)),
        reader::skip_space(c, i) <= c.len(),
        reader::skip_space(c, i) < c.len() ==> !blank(
            c,
            reader::skip_space(c, i),
            reader::skip_space(c, i) + 1,
        ),
    decreases c.len() - i,
{
    if i < c.len() && reader::json_space(c[i]) {
        lemma_skipped(c, i + 1);
    } else if i < c.len() {
        assert(!reader::json_space(c[i]));
    }
}

proof fn lemma_skip_is(c: Seq<char>, i: int, n: int)
    requires
        0 <= i,
        n <= c.len(),
        blank(c, i, n),
        n < c.len() ==> !reader::json_space(c[n]),
    ensures
        reader::skip_space(c, i) == n,
    decreases n - i,
{
    if i < n {
        assert(c[i] == ' ' || c[i] == '\t' || c[i] == '\n' || c[i] == '\r');
        lemma_skip_is(c, i + 1, n);
    }
}

proof fn lemma_elements_found(c: Seq<char>, i: int) -> (p: Spans)
    requires
        0 <= i <= c.len(),
        reader::items_at(c, i) is Ok,
    ensures
        elements_stand(
            c,
            i,
            reader::items_at(c, i)->Ok_0.1,
            reader::items_at(c, i)->Ok_0.0,
            p,
        ),
    decreases c.len() - i,
{
    let (a, e) = reader::items_at(c, i)->Ok_0;
    let j = reader::skip_space(c, i);
    lemma_skipped(c, i);
    let (v, k) = reader::value_at(c, j)->Ok_0;
    reader::lemma_value_advances(c, j);
    let m = reader::skip_space(c, k);
    lemma_skipped(c, k);
    let none = Seq::<int>::empty();
    if reader::peek(c, m) == Some(',') {
        let q = lemma_elements_found(c, m + 1);
        let rest = reader::items_at(c, m + 1)->Ok_0.0;
        let p = Spans {
            keys: none,
            key_ends: none,
            colons: none,
            starts: seq![j] + q.starts,
            ends: seq![k] + q.ends,
            commas: seq![m] + q.commas,
        };
        assert(a == seq![v] + rest);
        assert forall|x: int| 0 <= x < a.len() implies reader::value_at(
            c,
            #[trigger] p.starts[x],
        ) == Ok::<(Json, int), Seq<char>>((a[x], p.ends[x])) && blank(c, p.ends[x], p.commas[x])
            && p.commas[x] < c.len() by {
            if x > 0 {
                assert(p.starts[x] == q.starts[x - 1]);
                assert(p.ends[x] == q.ends[x - 1]);
                assert(p.commas[x] == q.commas[x - 1]);
                assert(a[x] == rest[x - 1]);
            }
        }
        assert forall|x: int| 0 <= x < a.len() - 1 implies c[#[trigger] p.commas[x]] == ','
            && blank(c, p.commas[x] + 1, p.starts[x + 1]) by {
            assert(p.starts[x + 1] == q.starts[x]);
            if x > 0 {
                assert(p.commas[x] == q.commas[x - 1]);
                assert(p.starts[x + 1] == q.starts[x - 1 + 1]);
            }
        }
        assert(p.commas[a.len() - 1] == q.commas[rest.len() - 1]);
        p
    } else {
        Spans {
            keys: none,
            key_ends: none,
            colons: none,
            starts: seq![j],
            ends: seq![k],
            commas: seq![m],
        }
    }
}

/// A value does not begin with white space.
proof fn lemma_value_begins(c: Seq<char>, i: int)
    requires
        reader::value_at(c, i) is Ok,
    ensures
        0 <= i < c.len(),
        !reader::json_space(c[i]),
{
}

proof fn lemma_elements_read(c: Seq<char>, i: int, e: int, a: Seq<Json>, p: Spans)
    requires
        elements_stand(c, i, e, a, p),
    ensures
        reader::items_at(c, i) == Ok::<(Seq<Json>, int), Seq<char>>((a, e)),
    decreases a.len(),
{
    let n = p.starts[0];
    let k = p.ends[0];
    let m = p.commas[0];
    assert(reader::value_at(c, p.starts[0]) == Ok::<(Json, int), Seq<char>>((a[0], p.ends[0])));
    lemma_value_begins(c, n);
    lemma_skip_is(c, i, n);
    reader::lemma_value_advances(c, n);
    assert(c[m] == ',' || c[m] == ']') by {
        if a.len() > 1 {
            assert(c[p.commas[0]] == ',');
        }
    }
    lemma_skip_is(c, k, m);
    if a.len() > 1 {
        let rest = a.drop_first();
        let q = Spans {
            starts: p.starts.drop_first(),
            ends: p.ends.drop_first(),
            commas: p.commas.drop_first(),
            ..p
        };
        assert(c[p.commas[0]] == ',');
        assert forall|x: int| 0 <= x < rest.len() implies reader::value_at(
            c,
            #[trigger] q.starts[x],
        ) == Ok::<(Json, int), Seq<char>>((rest[x], q.ends[x])) && blank(
            c,
            q.ends[x],
            q.commas[x],
        ) && q.commas[x] < c.len() by {
            assert(q.starts[x] == p.starts[x + 1]);
        }
        assert forall|x: int| 0 <= x < rest.len() - 1 implies c[#[trigger] q.commas[x]] == ','
            && blank(c, q.commas[x] + 1, q.starts[x + 1]) by {
            assert(q.commas[x] == p.commas[x + 1]);
        }
        lemma_elements_read(c, m + 1, e, rest, q);
        assert(seq![a[0]] + rest =~= a);
    } else {
        assert(seq![a[0]] =~= a);
    }
}

/// **A list that was read is its elements, each read where it stands**, with one comma between
/// two, and white space only round them. Nothing stands between the brackets of an empty one.
pub proof fn a_list_is_its_elements(c: Seq<char>, i: int) -> (p: Spans)
    requires
        0 <= i < c.len(),
        c[i] == '[',
        reader::value_at(c, i) is Ok,
    ensures
        reader::value_at(c, i)->Ok_0.0 matches Json::Array(a) && {
            let e = reader::value_at(c, i)->Ok_0.1;
            if a.len() == 0 {
                i + 2 <= e <= c.len() && blank(c, i + 1, e - 1) && c[e - 1] == ']'
            } else {
                elements_stand(c, i + 1, e, a, p)
            }
        },
{
    let none = Seq::<int>::empty();
    lemma_skipped(c, i + 1);
    if reader::peek(c, reader::skip_space(c, i + 1)) == Some(']') {
        Spans { keys: none, key_ends: none, colons: none, starts: none, ends: none, commas: none }
    } else {
        lemma_elements_found(c, i + 1)
    }
}

/// **Elements that stand like that are read as their list**, and so are brackets round white
/// space as the empty one.
pub proof fn elements_make_a_list(c: Seq<char>, i: int, e: int, a: Seq<Json>, p: Spans)
    requires
        0 <= i < c.len(),
        c[i] == '[',
        if a.len() == 0 {
            i + 2 <= e <= c.len() && blank(c, i + 1, e - 1) && c[e - 1] == ']'
        } else {
            elements_stand(c, i + 1, e, a, p)
        },
    ensures
        reader::value_at(c, i) == Ok::<(Json, int), Seq<char>>((Json::Array(a), e)),
{
    if a.len() == 0 {
        lemma_skip_is(c, i + 1, e - 1);
        assert(a =~= seq![]);
    } else {
        lemma_elements_read(c, i + 1, e, a, p);
        assert(reader::value_at(c, p.starts[0]) == Ok::<(Json, int), Seq<char>>((a[0], p.ends[0])));
        lemma_value_begins(c, p.starts[0]);
        lemma_skip_is(c, i + 1, p.starts[0]);
    }
}

/// Whether the members of a dict stand from `i` on where `p` says, with the closing brace right
/// before `e`.
pub open spec fn members_stand(
    c: Seq<char>,
    i: int,
    e: int,
    m: Seq<(Seq<char>, Json)>,
    p: Spans,
) -> bool {
    &&& 0 <= i
    &&& m.len() > 0
    &&& p.keys.len() == m.len()
    &&& p.key_ends.len() == m.len()
    &&& p.colons.len() == m.len()
    &&& p.starts.len() == m.len()
    &&& p.ends.len() == m.len()
    &&& p.commas.len() == m.len()
    &&& blank(c, i, p.keys[0])
    &&& forall|j: int|
        #![trigger p.keys[j]]
        0 <= j < m.len() ==> {
            &&& reader::string_at(c, p.keys[j]) == Ok::<(Seq<char>, int), Seq<char>>(
                (m[j].0, p.key_ends[j]),
            )
            &&& blank(c, p.key_ends[j], p.colons[j])
            &&& p.colons[j] < c.len()
            &&& c[p.colons[j]] == ':'
            &&& blank(c, p.colons[j] + 1, p.starts[j])
            &&& reader::value_at(c, p.starts[j]) == Ok::<(Json, int), Seq<char>>(
                (m[j].1, p.ends[j]),
            )
            &&& blank(c, p.ends[j], p.commas[j])
            &&& p.commas[j] < c.len()
        }
    &&& forall|j: int|
        0 <= j < m.len() - 1 ==> c[#[trigger] p.commas[j]] == ',' && blank(
            c,
            p.commas[j] + 1,
            p.keys[j + 1],
        )
    &&& c[p.commas[m.len() - 1]] == '}'
    &&& e == p.commas[m.len() - 1] + 1
}

#[verifier::rlimit(40)]
#[verifier::spinoff_prover]
proof fn lemma_members_found(c: Seq<char>, i: int) -> (p: Spans)
    requires
        0 <= i <= c.len(),
        reader::members_at(c, i) is Ok,
    ensures
        members_stand(
            c,
            i,
            reader::members_at(c, i)->Ok_0.1,
            reader::members_at(c, i)->Ok_0.0,
            p,
        ),
    decreases c.len() - i,
{
    let (list, e) = reader::members_at(c, i)->Ok_0;
    let j = reader::skip_space(c, i);
    lemma_skipped(c, i);
    let (key, k) = reader::string_at(c, j)->Ok_0;
    reader::lemma_string_advances(c, j + 1);
    let m = reader::skip_space(c, k);
    lemma_skipped(c, k);
    let n = reader::skip_space(c, m + 1);
    lemma_skipped(c, m + 1);
    let (v, ve) = reader::value_at(c, n)->Ok_0;
    reader::lemma_value_advances(c, n);
    let at = reader::skip_space(c, ve);
    lemma_skipped(c, ve);
    if reader::peek(c, at) == Some(',') {
        let q = lemma_members_found(c, at + 1);
        let rest = reader::members_at(c, at + 1)->Ok_0.0;
        let p = Spans {
            keys: seq![j] + q.keys,
            key_ends: seq![k] + q.key_ends,
            colons: seq![m] + q.colons,
            starts: seq![n] + q.starts,
            ends: seq![ve] + q.ends,
            commas: seq![at] + q.commas,
        };
        assert(list == seq![(key, v)] + rest);
        assert forall|x: int|
            #![trigger p.keys[x]]
            0 <= x < list.len() implies {
            &&& reader::string_at(c, p.keys[x]) == Ok::<(Seq<char>, int), Seq<char>>(
                (list[x].0, p.key_ends[x]),
            )
            &&& blank(c, p.key_ends[x], p.colons[x])
            &&& p.colons[x] < c.len()
            &&& c[p.colons[x]] == ':'
            &&& blank(c, p.colons[x] + 1, p.starts[x])
            &&& reader::value_at(c, p.starts[x]) == Ok::<(Json, int), Seq<char>>(
                (list[x].1, p.ends[x]),
            )
            &&& blank(c, p.ends[x], p.commas[x])
            &&& p.commas[x] < c.len()
        } by {
            if x > 0 {
                assert(p.keys[x] == q.keys[x - 1]);
                assert(p.key_ends[x] == q.key_ends[x - 1]);
                assert(p.colons[x] == q.colons[x - 1]);
                assert(p.starts[x] == q.starts[x - 1]);
                assert(p.ends[x] == q.ends[x - 1]);
                assert(p.commas[x] == q.commas[x - 1]);
                assert(list[x] == rest[x - 1]);
            }
        }
        assert forall|x: int| 0 <= x < list.len() - 1 implies c[#[trigger] p.commas[x]] == ','
            && blank(c, p.commas[x] + 1, p.keys[x + 1]) by {
            assert(p.keys[x + 1] == q.keys[x]);
            if x > 0 {
                assert(p.commas[x] == q.commas[x - 1]);
                assert(p.keys[x + 1] == q.keys[x - 1 + 1]);
            }
        }
        assert(p.commas[list.len() - 1] == q.commas[rest.len() - 1]);
        p
    } else {
        Spans {
            keys: seq![j],
            key_ends: seq![k],
            colons: seq![m],
            starts: seq![n],
            ends: seq![ve],
            commas: seq![at],
        }
    }
}

#[verifier::rlimit(40)]
#[verifier::spinoff_prover]
proof fn lemma_members_read(c: Seq<char>, i: int, e: int, m: Seq<(Seq<char>, Json)>, p: Spans)
    requires
        members_stand(c, i, e, m, p),
    ensures
        reader::members_at(c, i) == Ok::<(Seq<(Seq<char>, Json)>, int), Seq<char>>((m, e)),
    decreases m.len(),
{
    let j = p.keys[0];
    let k = p.key_ends[0];
    let n = p.starts[0];
    let at = p.commas[0];
    assert(reader::string_at(c, p.keys[0]) is Ok);
    reader::lemma_string_advances(c, j + 1);
    lemma_skip_is(c, i, j);
    lemma_skip_is(c, k, p.colons[0]);
    lemma_value_begins(c, n);
    lemma_skip_is(c, p.colons[0] + 1, n);
    reader::lemma_value_advances(c, n);
    assert(c[at] == ',' || c[at] == '}') by {
        if m.len() > 1 {
            assert(c[p.commas[0]] == ',');
        }
    }
    lemma_skip_is(c, p.ends[0], at);
    if m.len() > 1 {
        let rest = m.drop_first();
        let q = Spans {
            keys: p.keys.drop_first(),
            key_ends: p.key_ends.drop_first(),
            colons: p.colons.drop_first(),
            starts: p.starts.drop_first(),
            ends: p.ends.drop_first(),
            commas: p.commas.drop_first(),
        };
        assert(c[p.commas[0]] == ',');
        assert forall|x: int|
            #![trigger q.keys[x]]
            0 <= x < rest.len() implies {
            &&& reader::string_at(c, q.keys[x]) == Ok::<(Seq<char>, int), Seq<char>>(
                (rest[x].0, q.key_ends[x]),
            )
            &&& blank(c, q.key_ends[x], q.colons[x])
            &&& q.colons[x] < c.len()
            &&& c[q.colons[x]] == ':'
            &&& blank(c, q.colons[x] + 1, q.starts[x])
            &&& reader::value_at(c, q.starts[x]) == Ok::<(Json, int), Seq<char>>(
                (rest[x].1, q.ends[x]),
            )
            &&& blank(c, q.ends[x], q.commas[x])
            &&& q.commas[x] < c.len()
        } by {
            assert(q.keys[x] == p.keys[x + 1]);
        }
        assert forall|x: int| 0 <= x < rest.len() - 1 implies c[#[trigger] q.commas[x]] == ','
            && blank(c, q.commas[x] + 1, q.keys[x + 1]) by {
            assert(q.commas[x] == p.commas[x + 1]);
        }
        lemma_members_read(c, at + 1, e, rest, q);
        assert(seq![m[0]] + rest =~= m);
    } else {
        assert(seq![m[0]] =~= m);
    }
}

/// **A dict that was read is its members, each read where it stands**: a key, a colon and a
/// value, with one comma between two members, and white space only round them. Two members of
/// one name stay two.
pub proof fn a_dict_is_its_members(c: Seq<char>, i: int) -> (p: Spans)
    requires
        0 <= i < c.len(),
        c[i] == '{',
        reader::value_at(c, i) is Ok,
    ensures
        reader::value_at(c, i)->Ok_0.0 matches Json::Object(m) && {
            let e = reader::value_at(c, i)->Ok_0.1;
            if m.len() == 0 {
                i + 2 <= e <= c.len() && blank(c, i + 1, e - 1) && c[e - 1] == '}'
            } else {
                members_stand(c, i + 1, e, m, p)
            }
        },
{
    let none = Seq::<int>::empty();
    lemma_skipped(c, i + 1);
    if reader::peek(c, reader::skip_space(c, i + 1)) == Some('}') {
        Spans { keys: none, key_ends: none, colons: none, starts: none, ends: none, commas: none }
    } else {
        lemma_members_found(c, i + 1)
    }
}

/// **Members that stand like that are read as their dict**, and so are braces round white space
/// as the empty one.
pub proof fn members_make_a_dict(
    c: Seq<char>,
    i: int,
    e: int,
    m: Seq<(Seq<char>, Json)>,
    p: Spans,
)
    requires
        0 <= i < c.len(),
        c[i] == '{',
        if m.len() == 0 {
            i + 2 <= e <= c.len() && blank(c, i + 1, e - 1) && c[e - 1] == '}'
        } else {
            members_stand(c, i + 1, e, m, p)
        },
    ensures
        reader::value_at(c, i) == Ok::<(Json, int), Seq<char>>((Json::Object(m), e)),
{
    if m.len() == 0 {
        lemma_skip_is(c, i + 1, e - 1);
        assert(m =~= seq![]);
    } else {
        lemma_members_read(c, i + 1, e, m, p);
        assert(reader::string_at(c, p.keys[0]) is Ok);
        lemma_skip_is(c, i + 1, p.keys[0]);
    }
}

/// **A document is one value with white space round it**: it is read exactly where there is a
/// value behind leading white space and nothing but white space behind the value.
pub proof fn a_document_is_one_value(c: Seq<char>, n: int, v: Json, e: int)
    requires
        0 <= n,
        blank(c, 0, n),
        reader::value_at(c, n) == Ok::<(Json, int), Seq<char>>((v, e)),
    ensures
        reader::document(c) is Ok <==> blank(c, e, c.len() as int),
        reader::document(c) is Ok ==> reader::document(c)->Ok_0 == v,
{
    lemma_value_begins(c, n);
    lemma_skip_is(c, 0, n);
    reader::lemma_value_advances(c, n);
    lemma_skipped(c, e);
    let end = reader::skip_space(c, e);
    if blank(c, e, c.len() as int) && end < c.len() {
        assert(c[end] == ' ' || c[end] == '\t' || c[end] == '\n' || c[end] == '\r');
        assert(blank(c, end, end + 1));
    }
}

/// **A text that was read is its characters, each read where it stands**: they follow one
/// another from behind the opening quote to the closing one. `cuts` is where each begins, and
/// where the closing quote stands.
pub proof fn a_text_is_its_characters(c: Seq<char>, i: int) -> (cuts: Seq<int>)
    requires
        reader::string_at(c, i) is Ok,
    ensures
        ({
            let (s, e) = reader::string_at(c, i)->Ok_0;
            &&& 0 <= i < e - 1 < c.len()
            &&& c[i] == '"'
            &&& c[e - 1] == '"'
            &&& cuts.len() == s.len() + 1
            &&& cuts[0] == i + 1
            &&& cuts[s.len() as int] == e - 1
            &&& forall|j: int|
                0 <= j < s.len() ==> c[#[trigger] cuts[j]] != '"' && reader::string_char(c, cuts[j])
                    == Ok::<(char, int), Seq<char>>((s[j], cuts[j + 1]))
        }),
{
    lemma_characters_found(c, i + 1)
}

proof fn lemma_characters_found(c: Seq<char>, i: int) -> (cuts: Seq<int>)
    requires
        0 <= i,
        reader::string_tail(c, i) is Ok,
    ensures
        ({
            let (s, e) = reader::string_tail(c, i)->Ok_0;
            &&& i <= e - 1 < c.len()
            &&& c[e - 1] == '"'
            &&& cuts.len() == s.len() + 1
            &&& cuts[0] == i
            &&& cuts[s.len() as int] == e - 1
            &&& forall|j: int|
                0 <= j < s.len() ==> c[#[trigger] cuts[j]] != '"' && reader::string_char(c, cuts[j])
                    == Ok::<(char, int), Seq<char>>((s[j], cuts[j + 1]))
        }),
    decreases c.len() - i,
{
    let (s, e) = reader::string_tail(c, i)->Ok_0;
    if c[i] == '"' {
        seq![i]
    } else {
        reader::lemma_string_char(c, i);
        let (x, n) = reader::string_char(c, i)->Ok_0;
        let rest = lemma_characters_found(c, n);
        let tail = reader::string_tail(c, n)->Ok_0.0;
        let cuts = seq![i] + rest;
        assert(s == seq![x] + tail);
        assert forall|j: int| 0 <= j < s.len() implies c[#[trigger] cuts[j]] != '"'
            && reader::string_char(c, cuts[j]) == Ok::<(char, int), Seq<char>>(
            (s[j], cuts[j + 1]),
        ) by {
            assert(cuts[j + 1] == rest[j]);
            if j > 0 {
                assert(cuts[j] == rest[j - 1]);
                assert(s[j] == tail[j - 1]);
            }
        }
        assert(cuts[s.len() as int] == rest[tail.len() as int]);
        cuts
    }
}

/// **Characters that stand like that are read as their text.**
pub proof fn characters_make_a_text(c: Seq<char>, i: int, s: Seq<char>, cuts: Seq<int>)
    requires
        0 <= i < c.len(),
        c[i] == '"',
        cuts.len() == s.len() + 1,
        cuts[0] == i + 1,
        0 <= cuts[s.len() as int] < c.len(),
        c[cuts[s.len() as int]] == '"',
        forall|j: int|
            0 <= j < s.len() ==> 0 <= #[trigger] cuts[j] < c.len() && c[cuts[j]] != '"'
                && reader::string_char(c, cuts[j]) == Ok::<(char, int), Seq<char>>(
                (s[j], cuts[j + 1]),
            ),
    ensures
        reader::string_at(c, i) == Ok::<(Seq<char>, int), Seq<char>>(
            (s, cuts[s.len() as int] + 1),
        ),
{
    lemma_characters_read(c, i + 1, s, cuts);
}

proof fn lemma_characters_read(c: Seq<char>, i: int, s: Seq<char>, cuts: Seq<int>)
    requires
        cuts.len() == s.len() + 1,
        cuts[0] == i,
        0 <= cuts[s.len() as int] < c.len(),
        c[cuts[s.len() as int]] == '"',
        forall|j: int|
            0 <= j < s.len() ==> 0 <= #[trigger] cuts[j] < c.len() && c[cuts[j]] != '"'
                && reader::string_char(c, cuts[j]) == Ok::<(char, int), Seq<char>>(
                (s[j], cuts[j + 1]),
            ),
    ensures
        reader::string_tail(c, i) == Ok::<(Seq<char>, int), Seq<char>>(
            (s, cuts[s.len() as int] + 1),
        ),
    decreases s.len(),
{
    if s.len() > 0 {
        assert(0 <= cuts[0] < c.len());
        let rest = s.drop_first();
        let q = cuts.drop_first();
        assert forall|j: int| 0 <= j < rest.len() implies 0 <= #[trigger] q[j] < c.len() && c[q[j]]
            != '"' && reader::string_char(c, q[j]) == Ok::<(char, int), Seq<char>>(
            (rest[j], q[j + 1]),
        ) by {
            assert(q[j] == cuts[j + 1]);
        }
        lemma_characters_read(c, cuts[1], rest, q);
        assert(seq![s[0]] + rest =~= s);
    } else {
        assert(s =~= seq![]);
    }
}

proof fn lemma_number_of(x: char)
    ensures
        x as u32 == x as int,
{
}

/// **A character of a text** stands for itself, unless it is a backslash or a control character,
/// which is refused. A backslash and one of `"`, `\`, `/`, `b`, `f`, `n`, `r` and `t` are one
/// character, and one and any other letter than `u` are none.
pub proof fn escapes_are_those_of_json(c: Seq<char>, i: int)
    requires
        0 <= i < c.len(),
    ensures
        c[i] != '\\' && (c[i] as int) >= 32 ==> reader::string_char(c, i) == Ok::<
            (char, int),
            Seq<char>,
        >((c[i], i + 1)),
        (c[i] as int) < 32 ==> reader::string_char(c, i) is Err,
        c[i] == '\\' && i + 1 == c.len() ==> reader::string_char(c, i) is Err,
        c[i] == '\\' && i + 1 < c.len() && c[i + 1] != 'u' ==> match reader::string_char(c, i) {
            Ok((x, e)) => e == i + 2 && {
                ||| x == c[i + 1] && (x == '"' || x == '\\' || x == '/')
                ||| c[i + 1] == 'b' && x as int == 8
                ||| c[i + 1] == 'f' && x as int == 12
                ||| c[i + 1] == 'n' && x as int == 10
                ||| c[i + 1] == 'r' && x as int == 13
                ||| c[i + 1] == 't' && x as int == 9
            },
            Err(_) => !seq!['"', '\\', '/', 'b', 'f', 'n', 'r', 't'].contains(c[i + 1]),
        },
{
    let table = seq!['"', '\\', '/', 'b', 'f', 'n', 'r', 't'];
    lemma_number_of(c[i]);
    if c[i] == '\\' && i + 1 < c.len() && table.contains(c[i + 1]) {
        let k = choose|k: int| 0 <= k < table.len() && table[k] == c[i + 1];
        assert(table[k] == c[i + 1]);
    }
}

/// Whether `x` is the hexadecimal digit `d`, in either case.
pub open spec fn writes_digit(x: char, d: int) -> bool {
    ||| 0 <= d < 10 && x as int == '0' as int + d
    ||| 10 <= d < 16 && x as int == 'a' as int + d - 10
    ||| 10 <= d < 16 && x as int == 'A' as int + d - 10
}

/// Whether the four characters from `i` on write the digits of `n`.
pub open spec fn writes_unit(c: Seq<char>, i: int, n: int) -> bool {
    &&& 0 <= i
    &&& i + 4 <= c.len()
    &&& writes_digit(c[i], n / 0x1000)
    &&& writes_digit(c[i + 1], n / 0x100 % 16)
    &&& writes_digit(c[i + 2], n / 0x10 % 16)
    &&& writes_digit(c[i + 3], n % 16)
}

proof fn lemma_unit(c: Seq<char>, i: int, n: int)
    requires
        0 <= n < 0x10000,
        writes_unit(c, i, n),
    ensures
        reader::hex4(c, i) == Ok::<nat, Seq<char>>(n as nat),
{
    laws::lemma_four_ascii(c, i);
    let h = c.subrange(i, i + 4);
    assert(h[0] == c[i] && h[1] == c[i + 1] && h[2] == c[i + 2] && h[3] == c[i + 3]);
    assert(reader::four_hex(h));
    assert(n / 0x100 == n / 0x1000 * 16 + n / 0x100 % 16);
    assert(n / 0x10 == n / 0x100 * 16 + n / 0x10 % 16);
    assert(n == n / 0x10 * 16 + n % 16);
    assert(reader::four_hex_value(h) == n);
}

/// **A `\u` escape** is the character of its four hexadecimal digits, in either case. Two that are
/// a high and a low surrogate are one character beyond the first 65536, and a surrogate without
/// its other half is refused.
pub proof fn unicode_escapes_are_code_units(c: Seq<char>, i: int, n: int, low: int)
    requires
        0 <= i,
        i + 6 <= c.len(),
        c[i] == '\\',
        c[i + 1] == 'u',
        0 <= n < 0x10000,
        writes_unit(c, i + 2, n),
    ensures
        n < 0xd800 || 0xe000 <= n ==> reader::string_char(c, i) == Ok::<(char, int), Seq<char>>(
            (n as char, i + 6),
        ),
        0xdc00 <= n < 0xe000 ==> reader::string_char(c, i) is Err,
        0xd800 <= n < 0xdc00 && !(i + 8 <= c.len() && c[i + 6] == '\\' && c[i + 7] == 'u')
            ==> reader::string_char(c, i) is Err,
        0xd800 <= n < 0xdc00 && i + 12 <= c.len() && c[i + 6] == '\\' && c[i + 7] == 'u' && 0 <= low
            < 0x10000 && writes_unit(c, i + 8, low) ==> if 0xdc00 <= low < 0xe000 {
            reader::string_char(c, i) == Ok::<(char, int), Seq<char>>(
                ((0x10000 + (n - 0xd800) * 0x400 + (low - 0xdc00)) as char, i + 12),
            )
        } else {
            reader::string_char(c, i) is Err
        },
{
    lemma_unit(c, i + 2, n);
    let pair = seq!['\\', 'u'];
    if i + 8 <= c.len() {
        let s = c.subrange(i + 6, i + 8);
        assert(s[0] == c[i + 6] && s[1] == c[i + 7]);
        if c[i + 6] == '\\' && c[i + 7] == 'u' {
            assert(s =~= pair);
        } else {
            assert(s[0] != pair[0] || s[1] != pair[1]);
        }
    }
    if 0 <= low < 0x10000 && writes_unit(c, i + 8, low) {
        lemma_unit(c, i + 8, low);
    }
}

/// **A number with a fraction or an exponent** is the decimal that its digits write. `b` is where
/// its whole digits end, `f` where its fraction ends and `end` where its exponent does; `digits`
/// are those of both, and `k` of them are leading zeros.
pub proof fn a_float_is_its_digits(
    c: Seq<char>,
    i: int,
    negative: bool,
    b: int,
    f: int,
    end: int,
    digits: Seq<char>,
    k: int,
)
    requires
        0 <= i < c.len(),
        ({
            let a = if negative {
                i + 1
            } else {
                i
            };
            &&& a < b <= f <= end <= c.len()
            &&& negative <==> c[i] == '-'
            &&& forall|x: int| a <= x < b ==> '0' <= #[trigger] c[x] <= '9'
            &&& b - a > 1 ==> c[a] != '0'
            &&& f == b ==> b < end
            &&& f > b ==> b + 1 < f && c[b] == '.' && forall|x: int|
                b < x < f ==> '0' <= #[trigger] c[x] <= '9'
            &&& f == end && end < c.len() ==> !('0' <= c[end] <= '9') && c[end] != 'e' && c[end]
                != 'E'
            &&& f < end ==> {
                let d = if f + 1 < c.len() && (c[f + 1] == '+' || c[f + 1] == '-') {
                    f + 2
                } else {
                    f + 1
                };
                &&& c[f] == 'e' || c[f] == 'E'
                &&& d < end
                &&& forall|x: int| d <= x < end ==> '0' <= #[trigger] c[x] <= '9'
                &&& end < c.len() ==> !('0' <= c[end] <= '9')
            }
            &&& digits == c.subrange(a, b) + if f > b {
                c.subrange(b + 1, f)
            } else {
                seq![]
            }
            &&& 0 <= k <= digits.len()
            &&& forall|x: int| 0 <= x < k ==> #[trigger] digits[x] == '0'
            &&& k < digits.len() ==> digits[k] != '0'
        }),
    ensures
        ({
            let a = if negative {
                i + 1
            } else {
                i
            };
            let power = if f == end {
                0
            } else if c[f + 1] == '-' {
                -reader::digits_value(c.subrange(f + 2, end))
            } else if c[f + 1] == '+' {
                reader::digits_value(c.subrange(f + 2, end)) as int
            } else {
                reader::digits_value(c.subrange(f + 1, end)) as int
            };
            let place = b - a + power - k - 1;
            reader::value_at(c, i) matches Ok((Json::Float(Real::Finite { negative: n, digits: d, exponent: e }), z)) && {
                &&& z == end
                &&& n == negative
                &&& k == digits.len() ==> d == seq!['0'] && e == 0
                &&& k < digits.len() ==> {
                    &&& 0 < d.len() <= digits.len() - k
                    &&& d == digits.subrange(k, k + d.len())
                    &&& d[d.len() - 1] != '0'
                    &&& forall|x: int| k + d.len() <= x < digits.len() ==> #[trigger] digits[x]
                        == '0'
                    &&& i32::MIN <= place <= i32::MAX ==> e == place
                }
            }
        }),
{
    laws::lemma_float_is_read(c, i, negative, b, f, end);
    let a = if negative {
        i + 1
    } else {
        i
    };
    assert(digits == c.subrange(a, b) + reader::fraction_digits(c, b, f));
    reader::lemma_leading_zeros(digits, k);
    if k < digits.len() {
        lemma_without_trailing(digits.skip(k));
        let d = reader::without_trailing_zeros(digits.skip(k));
        assert(d =~= digits.subrange(k, k + d.len()));
        assert forall|x: int| k + d.len() <= x < digits.len() implies #[trigger] digits[x] == '0' by {
            assert(digits.skip(k)[x - k] == '0');
        }
    }
}

proof fn lemma_without_trailing(s: Seq<char>)
    requires
        s.len() > 0,
        s[0] != '0',
    ensures
        ({
            let t = reader::without_trailing_zeros(s);
            &&& 0 < t.len() <= s.len()
            &&& t == s.take(t.len() as int)
            &&& t[t.len() - 1] != '0'
            &&& forall|x: int| t.len() <= x < s.len() ==> #[trigger] s[x] == '0'
        }),
    decreases s.len(),
{
    if s.last() == '0' {
        let init = s.drop_last();
        lemma_without_trailing(init);
        let t = reader::without_trailing_zeros(s);
        assert(t =~= s.take(t.len() as int));
        assert forall|x: int| t.len() <= x < s.len() implies #[trigger] s[x] == '0' by {
            if x < init.len() {
                assert(init[x] == s[x]);
            }
        }
    } else {
        assert(s.take(s.len() as int) =~= s);
    }
}

/// **A whole number has no leading zero**, a point and an exponent are followed by a digit, and a
/// sign alone is none.
pub proof fn malformed_numbers_are_refused(c: Seq<char>, i: int)
    requires
        0 <= i < c.len(),
        ({
            let a = if c[i] == '-' {
                i + 1
            } else {
                i
            };
            &&& a <= c.len()
            &&& c[i] == '-' || '0' <= c[i] <= '9'
            &&& {
                ||| a == c.len()
                ||| !('0' <= c[a] <= '9')
                ||| a + 1 < c.len() && c[a] == '0' && '0' <= c[a + 1] <= '9'
                ||| '0' <= c[a] <= '9' && a + 1 < c.len() && c[a + 1] == '.' && (a + 2 == c.len()
                    || !('0' <= c[a + 2] <= '9'))
                ||| '0' <= c[a] <= '9' && a + 1 < c.len() && (c[a + 1] == 'e' || c[a + 1] == 'E')
                    && (a + 2 == c.len() || (!('0' <= c[a + 2] <= '9') && c[a + 2] != '+'
                    && c[a + 2] != '-'))
            }
        }),
    ensures
        reader::value_at(c, i) is Err,
{
    let a = if c[i] == '-' {
        i + 1
    } else {
        i
    };
    reveal_with_fuel(reader::skip_digits, 3);
    reader::lemma_skip_digits(c, a);
    if a + 2 <= c.len() {
        reader::lemma_skip_digits(c, a + 2);
    }
}

/// **Places are told in bytes**: the place of a character is how many bytes what stands before it is
/// encoded in, and a character that was found is told by the first byte of its encoding.
pub proof fn places_are_told_in_bytes(c: Seq<char>, i: int, x: char)
    ensures
        reader::offset(c, i) == text::decimal(encode_utf8(c.take(i)).len()),
        reader::lead(x) as int == encode_utf8(seq![x])[0] as int,
{
    text::lemma_utf8_bytes_is_encoded_len(c.take(i));
    lemma_first_byte(x);
}

proof fn lemma_first_byte(x: char)
    ensures
        reader::lead(x) as int == encode_utf8(seq![x])[0] as int,
{
    let one = seq![x];
    assert(one.drop_first() =~= seq![]);
    assert(encode_utf8(one.drop_first()) =~= seq![]);
    assert(encode_utf8(one) =~= encode_scalar(x as u32));
    let u = x as u32;
    char_is_scalar(x);
    if u < 0x80 {
        assert((u & 0x7F) as u8 == u) by (bit_vector)
            requires
                u < 0x80,
        ;
    } else if u < 0x800 {
        assert(0xC0 | ((u >> 6) & 0x1F) as u8 == 0xc0 + u / 0x40) by (bit_vector)
            requires
                u < 0x800,
        ;
    } else if u < 0x10000 {
        assert(0xE0 | ((u >> 12) & 0x0F) as u8 == 0xe0 + u / 0x1000) by (bit_vector)
            requires
                u < 0x10000,
        ;
    } else {
        assert(0xF0 | ((u >> 18) & 0x7) as u8 == 0xf0 + u / 0x40000) by (bit_vector)
            requires
                u <= 0x10ffff,
        ;
    }
}

/// **What follows a document is refused where it begins**, and so is what stands in place of the
/// comma or the bracket behind an element.
pub proof fn faults_are_told_where_they_are(c: Seq<char>, n: int, v: Json, e: int, at: int)
    requires
        0 <= n,
        reader::value_at(c, n) == Ok::<(Json, int), Seq<char>>((v, e)),
        blank(c, e, at),
        at < c.len(),
        !(c[at] == ' ' || c[at] == '\t' || c[at] == '\n' || c[at] == '\r'),
    ensures
        blank(c, 0, n) ==> reader::document(c) == Err::<Json, Seq<char>>(
            "trailing input at byte "@ + text::decimal(encode_utf8(c.take(at)).len()),
        ),
        c[at] != ',' && c[at] != ']' ==> forall|i: int|
            0 <= i && #[trigger] blank(c, i, n) ==> reader::items_at(c, i) == Err::<
                (Seq<Json>, int),
                Seq<char>,
            >("expected `,` or `]` at byte "@ + text::decimal(encode_utf8(c.take(at)).len())),
{
    text::lemma_utf8_bytes_is_encoded_len(c.take(at));
    lemma_value_begins(c, n);
    reader::lemma_value_advances(c, n);
    lemma_skip_is(c, e, at);
    if blank(c, 0, n) {
        lemma_skip_is(c, 0, n);
    }
    if c[at] != ',' && c[at] != ']' {
        assert forall|i: int| 0 <= i && #[trigger] blank(c, i, n) implies reader::items_at(c, i)
            == Err::<(Seq<Json>, int), Seq<char>>(
            "expected `,` or `]` at byte "@ + text::decimal(encode_utf8(c.take(at)).len()),
        ) by {
            lemma_skip_is(c, i, n);
        }
    }
}

} // verus!
