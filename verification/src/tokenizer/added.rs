//! Added tokens: whole strings that are one id each, and never reach the pre-tokenizer or
//! the merges.
//!
//! They are kept longest first, so that a scan takes the longest match at each position.
use crate::text;
use crate::text::{char_width, same_text, str_chars};
use vstd::prelude::*;

verus! {

/// Whether `a` comes before `b` in the order of code points.
pub open spec fn text_less(a: Seq<char>, b: Seq<char>) -> bool
    decreases a.len(),
{
    if b.len() == 0 {
        false
    } else if a.len() == 0 {
        true
    } else if a[0] != b[0] {
        a[0] < b[0]
    } else {
        text_less(a.drop_first(), b.drop_first())
    }
}

/// The order in which added tokens are tried: the longer encoding first, and code points
/// decide between two of one length.
pub open spec fn tried_before(a: Seq<char>, b: Seq<char>) -> bool {
    ||| text::utf8_bytes(a) > text::utf8_bytes(b)
    ||| text::utf8_bytes(a) == text::utf8_bytes(b) && text_less(a, b)
}

/// `list` with `x` put in front of those that are to be tried after it, looking from the
/// back.
pub open spec fn put_in_order(list: Seq<(Seq<char>, u32)>, x: (Seq<char>, u32)) -> Seq<
    (Seq<char>, u32),
>
    decreases list.len(),
{
    if list.len() > 0 && tried_before(x.0, list.last().0) {
        put_in_order(list.drop_last(), x).push(list.last())
    } else {
        list.push(x)
    }
}

/// `list` in the order in which its tokens are tried. Two of one text keep their order.
pub open spec fn in_order(list: Seq<(Seq<char>, u32)>) -> Seq<(Seq<char>, u32)>
    decreases list.len(),
{
    if list.len() == 0 {
        list
    } else {
        put_in_order(in_order(list.drop_last()), list.last())
    }
}

/// The contents of a list of added tokens.
pub open spec fn added_view(list: Seq<(String, u32)>) -> Seq<(Seq<char>, u32)> {
    list.map_values(|e: (String, u32)| (e.0@, e.1))
}

/// Whether the list has that token.
pub open spec fn has_added(list: Seq<(Seq<char>, u32)>, token: Seq<char>) -> bool {
    exists|k: int| 0 <= k < list.len() && (#[trigger] list[k]).0 == token
}

/// Whether the text of the `i`-th token is not that of one before it.
pub open spec fn is_first(list: Seq<(Seq<char>, u32)>, i: int) -> bool {
    0 <= i < list.len() && forall|j: int| 0 <= j < i ==> (#[trigger] list[j]).0 != list[i].0
}

/// The texts of `extra` that are not in the list.
pub open spec fn new_texts(list: Seq<(Seq<char>, u32)>, extra: Seq<(Seq<char>, u32)>) -> Set<
    Seq<char>,
> {
    Set::new(|t: Seq<char>| !has_added(list, t) && has_added(extra, t))
}

/// The tokens of `extra` that are not in the list, each where its text occurs first.
pub open spec fn new_tokens(list: Seq<(Seq<char>, u32)>, extra: Seq<(Seq<char>, u32)>) -> Seq<
    (Seq<char>, u32),
>
    decreases extra.len(),
{
    if extra.len() == 0 {
        seq![]
    } else {
        let before = new_tokens(list, extra.drop_last());
        if has_added(list + before, extra.last().0) {
            before
        } else {
            before.push(extra.last())
        }
    }
}

/// Whether the `k`-th token of the list stands in `c` at `i`. An empty one stands nowhere.
pub open spec fn added_stands(
    list: Seq<(Seq<char>, u32)>,
    k: int,
    c: Seq<char>,
    i: int,
) -> bool {
    0 <= k < list.len() && list[k].0.len() > 0 && text::matches_at(c, list[k].0, i)
}

/// The first token of the list that stands in `c` at `i`.
pub open spec fn first_added(list: Seq<(Seq<char>, u32)>, from: int, c: Seq<char>, i: int) -> Option<
    int,
>
    decreases list.len() - from,
{
    if from < 0 || from >= list.len() {
        None
    } else if added_stands(list, from, c, i) {
        Some(from)
    } else {
        first_added(list, from + 1, c, i)
    }
}

pub proof fn lemma_first_added(list: Seq<(Seq<char>, u32)>, from: int, c: Seq<char>, i: int)
    requires
        0 <= from,
    ensures
        match first_added(list, from, c, i) {
            Some(k) => from <= k && added_stands(list, k, c, i) && forall|j: int|
                from <= j < k ==> !#[trigger] added_stands(list, j, c, i),
            None => forall|j: int| from <= j ==> !#[trigger] added_stands(list, j, c, i),
        },
    decreases list.len() - from,
{
    if from < list.len() && !added_stands(list, from, c, i) {
        lemma_first_added(list, from + 1, c, i);
    }
}

// ---------------------------------------------------------------------------
// order
// ---------------------------------------------------------------------------
/// Whether `a` comes before `b` in the order of code points.
fn is_text_less(a: &[char], b: &[char]) -> (r: bool)
    ensures
        r == text_less(a@, b@),
{
    let mut i: usize = 0;
    proof {
        assert(a@.skip(0) =~= a@);
        assert(b@.skip(0) =~= b@);
    }
    while i < a.len() && i < b.len()
        invariant
            i <= a.len(),
            i <= b.len(),
            text_less(a@, b@) == text_less(a@.skip(i as int), b@.skip(i as int)),
        decreases a.len() - i,
    {
        proof {
            assert(a@.skip(i as int).drop_first() =~= a@.skip(i + 1));
            assert(b@.skip(i as int).drop_first() =~= b@.skip(i + 1));
        }
        if a[i] != b[i] {
            return a[i] < b[i];
        }
        i += 1;
    }
    i < b.len()
}

/// How many bytes UTF-8 spends on `s`.
fn bytes_of(s: &str) -> (r: usize)
    ensures
        r == text::utf8_bytes(s@),
{
    let c: Vec<char> = str_chars(s);
    let mut n: usize = 0;
    let mut i: usize = 0;
    while i < c.len()
        invariant
            i <= c.len(),
            n == text::utf8_bytes(c@.take(i as int)),
            text::utf8_bytes(c@) <= usize::MAX,
        decreases c.len() - i,
    {
        proof {
            assert(c@.take(i + 1).drop_last() =~= c@.take(i as int));
            text::lemma_utf8_bytes_concat(c@.take(i + 1), c@.skip(i + 1));
            assert(c@.take(i + 1) + c@.skip(i + 1) =~= c@);
        }
        n += char_width(c[i]);
        i += 1;
    }
    assert(c@.take(i as int) =~= c@);
    n
}

/// Whether `a` is tried before `b`.
pub(crate) fn is_tried_before(a: &str, b: &str) -> (r: bool)
    ensures
        r == tried_before(a@, b@),
{
    let m: usize = bytes_of(a);
    let n: usize = bytes_of(b);
    if m != n {
        return m > n;
    }
    let x: Vec<char> = str_chars(a);
    let y: Vec<char> = str_chars(b);
    is_text_less(x.as_slice(), y.as_slice())
}

/// Where `put_in_order` puts `x`, given that all behind `k` are to be tried after it.
proof fn lemma_put_in_order_at(list: Seq<(Seq<char>, u32)>, x: (Seq<char>, u32), k: int)
    requires
        0 <= k <= list.len(),
        k > 0 ==> !tried_before(x.0, list[k - 1].0),
        forall|j: int| k <= j < list.len() ==> tried_before(x.0, #[trigger] list[j].0),
    ensures
        put_in_order(list, x) == list.insert(k, x),
    decreases list.len(),
{
    if k < list.len() {
        let shorter = list.drop_last();
        assert(tried_before(x.0, list[list.len() - 1].0));
        lemma_put_in_order_at(shorter, x, k);
        assert(list.insert(k, x) =~= shorter.insert(k, x).push(list.last()));
    } else {
        assert(list.insert(k, x) =~= list.push(x));
    }
}

/// Puts one token in its place.
fn put(list: &mut Vec<(String, u32)>, x: (String, u32))
    ensures
        added_view(final(list)@) == put_in_order(added_view(old(list)@), (x.0@, x.1)),
{
    let ghost view = added_view(list@);
    let ghost e = (x.0@, x.1);
    let mut k: usize = list.len();
    while k > 0 && is_tried_before(x.0.as_str(), list[k - 1].0.as_str())
        invariant
            k <= list.len(),
            view == added_view(list@),
            forall|j: int| k <= j < list.len() ==> tried_before(x.0@, #[trigger] view[j].0),
        ensures
            k <= list.len(),
            k > 0 ==> !tried_before(x.0@, view[k - 1].0),
            forall|j: int| k <= j < list.len() ==> tried_before(x.0@, #[trigger] view[j].0),
        decreases k,
    {
        k -= 1;
    }
    proof {
        lemma_put_in_order_at(view, e, k as int);
    }
    list.insert(k, x);
    assert(added_view(list@) =~= view.insert(k as int, e));
}

/// The list in the order in which its tokens are tried.
pub(crate) fn ordered(list: &[(String, u32)]) -> (r: Vec<(String, u32)>)
    ensures
        added_view(r@) == in_order(added_view(list@)),
{
    let ghost view = added_view(list@);
    let mut out: Vec<(String, u32)> = Vec::new();
    let mut i: usize = 0;
    assert(added_view(out@) =~= in_order(view.take(0)));
    while i < list.len()
        invariant
            i <= list.len(),
            view == added_view(list@),
            added_view(out@) == in_order(view.take(i as int)),
        decreases list.len() - i,
    {
        proof {
            assert(view.take(i + 1).drop_last() =~= view.take(i as int));
            assert(view.take(i + 1).last() == view[i as int]);
        }
        put(&mut out, (list[i].0.clone(), list[i].1));
        i += 1;
    }
    assert(view.take(i as int) =~= view);
    out
}

// ---------------------------------------------------------------------------
// search
// ---------------------------------------------------------------------------
/// Whether the list has that token.
pub(crate) fn contains_added(list: &[(String, u32)], token: &str) -> (r: bool)
    ensures
        r == has_added(added_view(list@), token@),
{
    let ghost view = added_view(list@);
    let mut i: usize = 0;
    while i < list.len()
        invariant
            i <= list.len(),
            view == added_view(list@),
            forall|k: int| 0 <= k < i ==> (#[trigger] view[k]).0 != token@,
        decreases list.len() - i,
    {
        if same_text(list[i].0.as_str(), token) {
            assert(view[i as int].0 == token@);
            return true;
        }
        assert(view[i as int].0 == list[i as int].0@);
        i += 1;
    }
    false
}

/// Whether `token` is not empty and stands in `c` at `i`.
fn token_stands(token: &str, c: &[char], i: usize) -> (r: bool)
    requires
        i <= c.len(),
    ensures
        r == (token@.len() > 0 && text::matches_at(c@, token@, i as int)),
{
    let mut k: usize = i;
    for ch in it: token.chars()
        invariant
            i <= k <= c.len(),
            it.seq() == token@,
            k == i + it.index(),
            it.index() <= token@.len(),
            token@.take(it.index() as int) == c@.subrange(i as int, k as int),
    {
        if k == c.len() || c[k] != ch {
            proof {
                if text::matches_at(c@, token@, i as int) {
                    assert(c@.subrange(i as int, i + token@.len())[k - i] == ch);
                }
            }
            return false;
        }
        assert(token@.take(it.index() as int + 1) =~= c@.subrange(i as int, k + 1));
        k += 1;
    }
    assert(token@.take(token@.len() as int) =~= token@);
    k > i
}

/// The first token of the list that stands in `c` at `i`.
pub(crate) fn find_added(list: &[(String, u32)], c: &[char], i: usize) -> (r: Option<usize>)
    requires
        i <= c.len(),
    ensures
        match r {
            Some(k) => first_added(added_view(list@), 0, c@, i as int) == Some(k as int) && k
                < list.len(),
            None => first_added(added_view(list@), 0, c@, i as int) is None,
        },
{
    let ghost view = added_view(list@);
    let mut k: usize = 0;
    while k < list.len()
        invariant
            k <= list.len(),
            i <= c.len(),
            view == added_view(list@),
            first_added(view, 0, c@, i as int) == first_added(view, k as int, c@, i as int),
        decreases list.len() - k,
    {
        if token_stands(list[k].0.as_str(), c, i) {
            return Some(k);
        }
        k += 1;
    }
    None
}

} // verus!
