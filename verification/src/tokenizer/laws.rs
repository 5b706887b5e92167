//! What holds of tokenizers.
use super::added;
use super::bpe;
use super::bytes;
use super::model;
use super::model::TokenizerModel;
use super::pattern;
use super::scanner;
use crate::text;
use crate::unicode_gc::laws as nfc_laws;
use crate::unicode_gc::normal;
use crate::unicode_gc::part_laws;
use vstd::prelude::*;
use vstd::utf8::*;

verus! {

// ---------------------------------------------------------------------------
// the order of added tokens
// ---------------------------------------------------------------------------
proof fn lemma_text_less_not_self(a: Seq<char>)
    ensures
        !added::text_less(a, a),
    decreases a.len(),
{
    if a.len() > 0 {
        lemma_text_less_not_self(a.drop_first());
    }
}

proof fn lemma_text_less_chain(a: Seq<char>, b: Seq<char>, c: Seq<char>)
    requires
        added::text_less(a, b),
        added::text_less(b, c),
    ensures
        added::text_less(a, c),
    decreases a.len(),
{
    if a.len() > 0 && a[0] == b[0] && b[0] == c[0] {
        lemma_text_less_chain(a.drop_first(), b.drop_first(), c.drop_first());
    }
}

proof fn lemma_text_less_total(a: Seq<char>, b: Seq<char>)
    requires
        a != b,
    ensures
        added::text_less(a, b) || added::text_less(b, a),
    decreases a.len(),
{
    if a.len() == 0 {
        assert(b.len() > 0) by {
            if b.len() == 0 {
                assert(a =~= b);
            }
        }
    } else if b.len() > 0 && a[0] == b[0] {
        assert(a.drop_first() != b.drop_first()) by {
            if a.drop_first() == b.drop_first() {
                assert(a =~= seq![a[0]] + a.drop_first());
                assert(b =~= seq![b[0]] + b.drop_first());
            }
        }
        lemma_text_less_total(a.drop_first(), b.drop_first());
    }
}

/// The order in which added tokens are tried is a strict total order on texts.
pub proof fn tried_before_is_an_order(a: Seq<char>, b: Seq<char>, c: Seq<char>)
    ensures
        !added::tried_before(a, a),
        added::tried_before(a, b) && added::tried_before(b, c) ==> added::tried_before(a, c),
        a != b ==> added::tried_before(a, b) || added::tried_before(b, a),
        !(added::tried_before(a, b) && added::tried_before(b, a)),
{
    lemma_text_less_not_self(a);
    if added::text_less(a, b) && added::text_less(b, c) {
        lemma_text_less_chain(a, b, c);
    }
    if a != b {
        lemma_text_less_total(a, b);
    }
    if added::text_less(a, b) && added::text_less(b, a) {
        lemma_text_less_chain(a, b, a);
    }
}

/// Whether no token of the list stands behind one that is to be tried after it.
pub open spec fn is_in_order(list: Seq<(Seq<char>, u32)>) -> bool {
    forall|i: int, j: int|
        #![trigger list[i], list[j]]
        0 <= i < j < list.len() ==> !added::tried_before(list[j].0, list[i].0)
}

proof fn lemma_put_in_order_len(list: Seq<(Seq<char>, u32)>, x: (Seq<char>, u32))
    ensures
        added::put_in_order(list, x).len() == list.len() + 1,
    decreases list.len(),
{
    if list.len() > 0 && added::tried_before(x.0, list.last().0) {
        lemma_put_in_order_len(list.drop_last(), x);
    }
}

pub proof fn lemma_in_order_len(list: Seq<(Seq<char>, u32)>)
    ensures
        added::in_order(list).len() == list.len(),
    decreases list.len(),
{
    if list.len() > 0 {
        lemma_in_order_len(list.drop_last());
        lemma_put_in_order_len(added::in_order(list.drop_last()), list.last());
    }
}

/// What `put_in_order` gives comes from the list, or is what was put.
proof fn lemma_put_in_order_from(list: Seq<(Seq<char>, u32)>, x: (Seq<char>, u32), k: int)
    requires
        0 <= k < added::put_in_order(list, x).len(),
    ensures
        added::put_in_order(list, x)[k] == x || exists|j: int|
            0 <= j < list.len() && added::put_in_order(list, x)[k] == #[trigger] list[j],
    decreases list.len(),
{
    let r = added::put_in_order(list, x);
    if list.len() > 0 && added::tried_before(x.0, list.last().0) {
        let shorter = list.drop_last();
        if k < r.len() - 1 {
            lemma_put_in_order_from(shorter, x, k);
            if r[k] != x {
                let j = choose|j: int|
                    0 <= j < shorter.len() && added::put_in_order(shorter, x)[k]
                        == #[trigger] shorter[j];
                assert(list[j] == shorter[j]);
            }
        } else {
            assert(r[k] == list[list.len() - 1]);
        }
    } else if k < list.len() {
        assert(r[k] == list[k]);
    }
}

/// What is in order comes from the list.
pub proof fn lemma_in_order_from(list: Seq<(Seq<char>, u32)>, k: int)
    requires
        0 <= k < list.len(),
    ensures
        exists|j: int| 0 <= j < list.len() && added::in_order(list)[k] == #[trigger] list[j],
    decreases list.len(),
{
    let shorter = list.drop_last();
    lemma_in_order_len(list);
    lemma_in_order_len(shorter);
    let before = added::in_order(shorter);
    lemma_put_in_order_from(before, list.last(), k);
    if added::in_order(list)[k] == list.last() {
        assert(added::in_order(list)[k] == list[list.len() - 1]);
    } else {
        let j = choose|j: int|
            0 <= j < before.len() && added::in_order(list)[k] == #[trigger] before[j];
        lemma_in_order_from(shorter, j);
        let i = choose|i: int| 0 <= i < shorter.len() && before[j] == #[trigger] shorter[i];
        assert(list[i] == shorter[i]);
    }
}

proof fn lemma_put_keeps_all(list: Seq<(Seq<char>, u32)>, x: (Seq<char>, u32))
    ensures
        added::put_in_order(list, x).to_multiset() == list.to_multiset().insert(x),
    decreases list.len(),
{
    broadcast use vstd::seq_lib::group_to_multiset_ensures;

    if list.len() > 0 && added::tried_before(x.0, list.last().0) {
        let shorter = list.drop_last();
        lemma_put_keeps_all(shorter, x);
        assert(list =~= shorter.push(list.last()));
        assert(added::put_in_order(list, x).to_multiset() =~= list.to_multiset().insert(x));
    }
}

proof fn lemma_put_stays_in_order(list: Seq<(Seq<char>, u32)>, x: (Seq<char>, u32))
    requires
        is_in_order(list),
    ensures
        is_in_order(added::put_in_order(list, x)),
    decreases list.len(),
{
    let r = added::put_in_order(list, x);
    lemma_put_in_order_len(list, x);
    if list.len() > 0 && added::tried_before(x.0, list.last().0) {
        let shorter = list.drop_last();
        assert(is_in_order(shorter)) by {
            assert forall|i: int, j: int|
                #![trigger shorter[i], shorter[j]]
                0 <= i < j < shorter.len() implies !added::tried_before(
                shorter[j].0,
                shorter[i].0,
            ) by {
                assert(shorter[i] == list[i] && shorter[j] == list[j]);
            }
        }
        lemma_put_stays_in_order(shorter, x);
        lemma_put_in_order_len(shorter, x);
        let s = added::put_in_order(shorter, x);
        assert forall|i: int, j: int|
            #![trigger r[i], r[j]]
            0 <= i < j < r.len() implies !added::tried_before(r[j].0, r[i].0) by {
            if j < r.len() - 1 {
                assert(r[i] == s[i] && r[j] == s[j]);
            } else {
                assert(r[j] == list.last());
                assert(r[i] == s[i]);
                lemma_put_in_order_from(shorter, x, i);
                if s[i] == x {
                    tried_before_is_an_order(x.0, list.last().0, x.0);
                } else {
                    let k = choose|k: int| 0 <= k < shorter.len() && s[i] == #[trigger] shorter[k];
                    assert(list[k] == shorter[k]);
                    assert(!added::tried_before(list[list.len() - 1].0, list[k].0));
                }
            }
        }
    } else {
        assert forall|i: int, j: int|
            #![trigger r[i], r[j]]
            0 <= i < j < r.len() implies !added::tried_before(r[j].0, r[i].0) by {
            assert(r[i] == list[i]);
            if j == list.len() {
                assert(r[j] == x);
                let last = list[list.len() - 1];
                if i < list.len() - 1 {
                    assert(!added::tried_before(last.0, list[i].0));
                    if added::tried_before(x.0, list[i].0) {
                        tried_before_is_an_order(x.0, list[i].0, last.0);
                        tried_before_is_an_order(list[i].0, last.0, last.0);
                        if list[i].0 != last.0 {
                            assert(added::tried_before(list[i].0, last.0));
                        }
                    }
                }
            } else {
                assert(r[j] == list[j]);
            }
        }
    }
}

/// Putting a list in order keeps its tokens, as often as they are there, and leaves none
/// behind one that is to be tried after it.
pub proof fn in_order_sorts(list: Seq<(Seq<char>, u32)>)
    ensures
        is_in_order(added::in_order(list)),
        added::in_order(list).to_multiset() == list.to_multiset(),
    decreases list.len(),
{
    broadcast use vstd::seq_lib::group_to_multiset_ensures;

    if list.len() > 0 {
        let shorter = list.drop_last();
        in_order_sorts(shorter);
        lemma_put_stays_in_order(added::in_order(shorter), list.last());
        lemma_put_keeps_all(added::in_order(shorter), list.last());
        assert(list =~= shorter.push(list.last()));
    }
}

/// A list that is in order stays as it is.
pub proof fn in_order_is_kept(list: Seq<(Seq<char>, u32)>)
    requires
        is_in_order(list),
    ensures
        added::in_order(list) == list,
    decreases list.len(),
{
    if list.len() > 0 {
        let shorter = list.drop_last();
        assert forall|i: int, j: int|
            #![trigger shorter[i], shorter[j]]
            0 <= i < j < shorter.len() implies !added::tried_before(shorter[j].0, shorter[i].0) by {
            assert(shorter[i] == list[i] && shorter[j] == list[j]);
        }
        in_order_is_kept(shorter);
        if shorter.len() > 0 {
            assert(!added::tried_before(list[list.len() - 1].0, list[list.len() - 2].0));
        }
        assert(shorter.push(list.last()) =~= list);
    }
}

/// The longest added token wins: of all that stand at a position, none has a longer
/// encoding than the one that is taken.
pub proof fn longest_added_token_wins(
    list: Seq<(Seq<char>, u32)>,
    c: Seq<char>,
    i: int,
    k: int,
)
    requires
        is_in_order(list),
        added::added_stands(list, k, c, i),
    ensures
        match added::first_added(list, 0, c, i) {
            Some(first) => text::utf8_bytes(list[first].0) >= text::utf8_bytes(list[k].0),
            None => false,
        },
{
    added::lemma_first_added(list, 0, c, i);
    let first = added::first_added(list, 0, c, i)->0;
    if first < k {
        assert(!added::tried_before(list[k].0, list[first].0));
    }
}

// ---------------------------------------------------------------------------
// absorbing
// ---------------------------------------------------------------------------
proof fn lemma_has_added_grows(m: TokenizerModel, t: Seq<char>, id: u32, x: Seq<char>)
    ensures
        added::has_added(m.added, x) ==> added::has_added(model::with_added(m, t, id).added, x),
        added::has_added(model::with_added(m, t, id).added, t),
{
    let n = model::with_added(m, t, id);
    if added::has_added(m.added, x) {
        let k = choose|k: int| 0 <= k < m.added.len() && (#[trigger] m.added[k]).0 == x;
        assert(n.added[k].0 == x);
    }
    if !added::has_added(m.added, t) {
        assert(n.added[m.added.len() as int].0 == t);
    }
}

proof fn lemma_all_added(m: TokenizerModel, extra: Seq<(Seq<char>, u32)>, k: int)
    requires
        0 <= k < extra.len(),
    ensures
        added::has_added(model::with_all_added(m, extra).added, extra[k].0),
    decreases extra.len(),
{
    let shorter = extra.drop_last();
    let before = model::with_all_added(m, shorter);
    lemma_has_added_grows(before, extra.last().0, extra.last().1, extra[k].0);
    if k < shorter.len() {
        lemma_all_added(m, shorter, k);
        assert(shorter[k] == extra[k]);
    }
}

proof fn lemma_nothing_new(m: TokenizerModel, extra: Seq<(Seq<char>, u32)>)
    requires
        forall|k: int|
            0 <= k < extra.len() ==> added::has_added(m.added, (#[trigger] extra[k]).0),
    ensures
        model::with_all_added(m, extra) == m,
    decreases extra.len(),
{
    if extra.len() > 0 {
        let shorter = extra.drop_last();
        assert forall|k: int| 0 <= k < shorter.len() implies added::has_added(
            m.added,
            (#[trigger] shorter[k]).0,
        ) by {
            assert(shorter[k] == extra[k]);
        }
        lemma_nothing_new(m, shorter);
        assert(added::has_added(m.added, extra[extra.len() - 1].0));
    }
}

proof fn lemma_in_order_has(list: Seq<(Seq<char>, u32)>, t: Seq<char>)
    requires
        added::has_added(list, t),
    ensures
        added::has_added(added::in_order(list), t),
{
    broadcast use vstd::seq_lib::group_to_multiset_ensures;

    let k = choose|k: int| 0 <= k < list.len() && (#[trigger] list[k]).0 == t;
    let sorted = added::in_order(list);
    in_order_sorts(list);
    assert(list.contains(list[k]));
    assert(list.to_multiset().count(list[k]) > 0);
    assert(sorted.contains(list[k]));
    let j = choose|j: int| 0 <= j < sorted.len() && sorted[j] == list[k];
    assert(sorted[j].0 == t);
}

/// Absorbing the same tokens a second time changes nothing, and absorbed tokens are in the
/// order in which they are tried.
pub proof fn absorbing_is_idempotent(m: TokenizerModel, extra: Seq<(Seq<char>, u32)>)
    ensures
        is_in_order(model::absorbed(m, extra).added),
        model::absorbed(model::absorbed(m, extra), extra) == model::absorbed(m, extra),
{
    let all = model::with_all_added(m, extra);
    let once = model::absorbed(m, extra);
    in_order_sorts(all.added);
    assert forall|k: int| 0 <= k < extra.len() implies added::has_added(
        once.added,
        (#[trigger] extra[k]).0,
    ) by {
        lemma_all_added(m, extra, k);
        lemma_in_order_has(all.added, extra[k].0);
    }
    lemma_nothing_new(once, extra);
    in_order_is_kept(once.added);
}

proof fn lemma_has_in_sum(a: Seq<(Seq<char>, u32)>, b: Seq<(Seq<char>, u32)>, t: Seq<char>)
    ensures
        added::has_added(a + b, t) <==> added::has_added(a, t) || added::has_added(b, t),
{
    let s = a + b;
    if added::has_added(a, t) {
        let k = choose|k: int| 0 <= k < a.len() && (#[trigger] a[k]).0 == t;
        assert(s[k].0 == t);
    }
    if added::has_added(b, t) {
        let k = choose|k: int| 0 <= k < b.len() && (#[trigger] b[k]).0 == t;
        assert(s[a.len() + k].0 == t);
    }
    if added::has_added(s, t) {
        let k = choose|k: int| 0 <= k < s.len() && (#[trigger] s[k]).0 == t;
        if k < a.len() {
            assert(a[k].0 == t);
        } else {
            assert(b[k - a.len()].0 == t);
        }
    }
}

proof fn lemma_has_in_push(a: Seq<(Seq<char>, u32)>, x: (Seq<char>, u32), t: Seq<char>)
    ensures
        added::has_added(a.push(x), t) <==> added::has_added(a, t) || x.0 == t,
{
    lemma_has_in_sum(a, seq![x], t);
    assert(a + seq![x] =~= a.push(x));
    assert(seq![x][0].0 == x.0);
}

/// What the new tokens are, and how many.
proof fn lemma_new_tokens(list: Seq<(Seq<char>, u32)>, extra: Seq<(Seq<char>, u32)>)
    ensures
        forall|x: (Seq<char>, u32)| #[trigger]
            added::new_tokens(list, extra).contains(x) ==> !added::has_added(list, x.0) && exists|
                i: int,
            | #[trigger]
                added::is_first(extra, i) && extra[i] == x,
        forall|i: int| #[trigger]
            added::is_first(extra, i) && !added::has_added(list, extra[i].0)
                ==> added::new_tokens(list, extra).contains(extra[i]),
        forall|t: Seq<char>| #[trigger]
            added::has_added(added::new_tokens(list, extra), t) <==> !added::has_added(list, t)
                && added::has_added(extra, t),
        added::new_texts(list, extra).finite(),
        added::new_texts(list, extra).len() == added::new_tokens(list, extra).len(),
    decreases extra.len(),
{
    let new = added::new_tokens(list, extra);
    let texts = added::new_texts(list, extra);
    if extra.len() == 0 {
        assert(texts =~= Set::empty());
    } else {
        let shorter = extra.drop_last();
        let last = extra.last();
        let n = shorter.len() as int;
        let before = added::new_tokens(list, shorter);
        let texts_before = added::new_texts(list, shorter);
        lemma_new_tokens(list, shorter);
        assert(extra =~= shorter.push(last));
        assert forall|t: Seq<char>| #[trigger] added::has_added(extra, t) <==> added::has_added(
            shorter,
            t,
        ) || last.0 == t by {
            lemma_has_in_push(shorter, last, t);
        }
        lemma_has_in_sum(list, before, last.0);
        let known = added::has_added(list + before, last.0);
        assert forall|t: Seq<char>| #[trigger] added::has_added(new, t) <==> !added::has_added(
            list,
            t,
        ) && added::has_added(extra, t) by {
            lemma_has_in_push(before, last, t);
        }
        if known {
            assert(texts =~= texts_before);
        } else {
            assert(texts =~= texts_before.insert(last.0));
            assert(!texts_before.contains(last.0));
        }
        assert forall|i: int| 0 <= i < n implies (#[trigger] added::is_first(extra, i)
            <==> added::is_first(shorter, i)) by {
            if added::is_first(extra, i) {
                assert forall|j: int| 0 <= j < i implies (#[trigger] shorter[j]).0 != shorter[i].0 by {
                    assert(extra[j].0 != extra[i].0);
                }
            }
            if added::is_first(shorter, i) {
                assert forall|j: int| 0 <= j < i implies (#[trigger] extra[j]).0 != extra[i].0 by {
                    assert(shorter[j].0 != shorter[i].0);
                }
            }
        }
        assert(added::is_first(extra, n) <==> !added::has_added(shorter, last.0)) by {
            if !added::has_added(shorter, last.0) {
                assert forall|j: int| 0 <= j < n implies (#[trigger] extra[j]).0 != extra[n].0 by {
                    assert(shorter[j].0 == extra[j].0);
                }
            } else {
                let j = choose|j: int| 0 <= j < n && (#[trigger] shorter[j]).0 == last.0;
                assert(extra[j].0 == last.0);
            }
        }
        assert forall|x: (Seq<char>, u32)| #[trigger] new.contains(x) implies !added::has_added(
            list,
            x.0,
        ) && exists|i: int| #[trigger] added::is_first(extra, i) && extra[i] == x by {
            if before.contains(x) {
                let i = choose|i: int| #[trigger] added::is_first(shorter, i) && shorter[i] == x;
                assert(added::is_first(extra, i) && extra[i] == x);
            } else {
                let k = choose|k: int| 0 <= k < new.len() && new[k] == x;
                if k < before.len() {
                    assert(before[k] == x);
                }
                assert(x == last && !known);
                assert(added::is_first(extra, n) && extra[n] == x);
            }
        }
        assert forall|i: int| #[trigger]
            added::is_first(extra, i) && !added::has_added(list, extra[i].0) implies new.contains(
            extra[i],
        ) by {
            if i < n {
                assert(added::is_first(shorter, i) && shorter[i] == extra[i]);
                let k = choose|k: int| 0 <= k < before.len() && before[k] == extra[i];
                assert(new[k] == extra[i]);
            } else {
                assert(new[before.len() as int] == last);
            }
        }
    }
}

proof fn lemma_with_all_added(m: TokenizerModel, extra: Seq<(Seq<char>, u32)>)
    ensures
        model::with_all_added(m, extra).added == m.added + added::new_tokens(m.added, extra),
        model::with_all_added(m, extra).byte_ids == m.byte_ids,
        model::with_all_added(m, extra).merges == m.merges,
        model::with_all_added(m, extra).marks == m.marks,
        model::with_all_added(m, extra).tokens.len() >= m.tokens.len(),
        forall|id: int|
            0 <= id < m.tokens.len() && (#[trigger] m.tokens[id]).len() > 0
                ==> model::with_all_added(m, extra).tokens[id] == m.tokens[id],
    decreases extra.len(),
{
    if extra.len() == 0 {
        assert(m.added + added::new_tokens(m.added, extra) =~= m.added);
    } else {
        let shorter = extra.drop_last();
        lemma_with_all_added(m, shorter);
        assert(model::with_all_added(m, extra).added =~= m.added + added::new_tokens(
            m.added,
            extra,
        ));
    }
}

/// How many tokens absorbing adds.
pub(crate) proof fn lemma_absorbing_counts(m: TokenizerModel, extra: Seq<(Seq<char>, u32)>)
    ensures
        model::absorbed(m, extra).added.len() - m.added.len() == added::new_texts(
            m.added,
            extra,
        ).len(),
{
    let all = model::with_all_added(m, extra);
    lemma_with_all_added(m, extra);
    lemma_new_tokens(m.added, extra);
    lemma_in_order_len(all.added);
}

/// Absorbing adds what is new and nothing else. The tokens that were there keep their ids;
/// each text that is new is added with the id of its first occurrence; there are as many
/// more as there are new texts; and neither the strings of ids that have one, nor the
/// handling of marks, nor the merges change.
pub proof fn absorbing_adds_what_is_new(m: TokenizerModel, extra: Seq<(Seq<char>, u32)>)
    ensures
        forall|x: (Seq<char>, u32)| #[trigger]
            model::absorbed(m, extra).added.contains(x) <==> {
                ||| m.added.contains(x)
                ||| !added::has_added(m.added, x.0) && exists|i: int| #[trigger]
                    added::is_first(extra, i) && extra[i] == x
            },
        model::absorbed(m, extra).added.len() == m.added.len() + added::new_texts(
            m.added,
            extra,
        ).len(),
        added::new_texts(m.added, extra).finite(),
        added::new_texts(model::absorbed(m, extra).added, extra).len() == 0,
        forall|id: int|
            0 <= id < m.tokens.len() && (#[trigger] m.tokens[id]).len() > 0 ==> id
                < model::absorbed(m, extra).tokens.len() && model::absorbed(m, extra).tokens[id]
                == m.tokens[id],
        model::absorbed(m, extra).byte_ids == m.byte_ids,
        model::absorbed(m, extra).merges == m.merges,
        model::absorbed(m, extra).marks == m.marks,
{
    broadcast use vstd::seq_lib::group_to_multiset_ensures;

    let all = model::with_all_added(m, extra);
    let once = model::absorbed(m, extra);
    let new = added::new_tokens(m.added, extra);
    lemma_with_all_added(m, extra);
    lemma_new_tokens(m.added, extra);
    lemma_absorbing_counts(m, extra);
    in_order_sorts(all.added);
    assert forall|x: (Seq<char>, u32)| #[trigger] once.added.contains(x) <==> {
        ||| m.added.contains(x)
        ||| !added::has_added(m.added, x.0) && exists|i: int| #[trigger]
            added::is_first(extra, i) && extra[i] == x
    } by {
        assert(once.added.contains(x) <==> once.added.to_multiset().count(x) > 0);
        assert(all.added.contains(x) <==> all.added.to_multiset().count(x) > 0);
        assert(all.added.contains(x) <==> m.added.contains(x) || new.contains(x)) by {
            if m.added.contains(x) {
                let k = choose|k: int| 0 <= k < m.added.len() && m.added[k] == x;
                assert(all.added[k] == x);
            }
            if new.contains(x) {
                let k = choose|k: int| 0 <= k < new.len() && new[k] == x;
                assert(all.added[m.added.len() + k] == x);
            }
            if all.added.contains(x) {
                let k = choose|k: int| 0 <= k < all.added.len() && all.added[k] == x;
                if k < m.added.len() {
                    assert(m.added[k] == x);
                } else {
                    assert(new[k - m.added.len()] == x);
                }
            }
        }
    }
    lemma_new_tokens(once.added, extra);
    absorbing_is_idempotent(m, extra);
    lemma_absorbing_counts(once, extra);
}

// ---------------------------------------------------------------------------
// an added token is one id
// ---------------------------------------------------------------------------
proof fn lemma_longer_text_takes_more(c: Seq<char>, n: int)
    requires
        0 <= n < c.len(),
    ensures
        text::utf8_bytes(c.take(n)) < text::utf8_bytes(c),
{
    text::lemma_utf8_bytes_concat(c.take(n), c.skip(n));
    assert(c.take(n) + c.skip(n) =~= c);
    let rest = c.skip(n);
    assert(text::utf8_bytes(rest) >= text::utf8_width(rest.last()));
}

/// An added token is a single id: a text in normal form that is one of the added tokens is
/// encoded as the id of that token, whatever else is added.
pub proof fn added_token_is_one_id(m: TokenizerModel, k: int)
    requires
        is_in_order(m.added),
        0 <= k < m.added.len(),
        m.added[k].0.len() > 0,
        normal::normal_form(m.added[k].0) == m.added[k].0,
    ensures
        exists|j: int|
            0 <= j < m.added.len() && (#[trigger] m.added[j]).0 == m.added[k].0 && model::text_ids(
                m,
                m.added[k].0,
            ) == seq![m.added[j].1],
{
    let c = m.added[k].0;
    let n = c.len() as int;
    assert(c.subrange(0, n) =~= c);
    assert(added::added_stands(m.added, k, c, 0));
    longest_added_token_wins(m.added, c, 0, k);
    added::lemma_first_added(m.added, 0, c, 0);
    let j = added::first_added(m.added, 0, c, 0)->0;
    let t = m.added[j].0;
    assert(t == c.subrange(0, t.len() as int));
    if t.len() < n {
        assert(c.subrange(0, t.len() as int) =~= c.take(t.len() as int));
        lemma_longer_text_takes_more(c, t.len() as int);
    }
    assert(t.len() == n);
    assert(t =~= c);
    let none = c.subrange(0, 0);
    let end = c.subrange(n, n);
    assert(scanner::pieces(none, 0, m.marks) =~= seq![]);
    assert(scanner::pieces(end, 0, m.marks) =~= seq![]);
    assert(model::ids_from(m, c, n, n) =~= seq![]);
    assert(model::ids_from(m, c, 0, 0) =~= seq![m.added[j].1]);
}

/// Where no added token stands, the plain run goes on.
proof fn lemma_plain_run_goes_on(m: TokenizerModel, c: Seq<char>, start: int, i: int, n: int)
    requires
        0 <= i <= n <= c.len(),
        forall|p: int, j: int| i <= p < n ==> !#[trigger] added::added_stands(m.added, j, c, p),
    ensures
        model::ids_from(m, c, start, i) == model::ids_from(m, c, start, n),
    decreases n - i,
{
    if i < n {
        added::lemma_first_added(m.added, 0, c, i);
        lemma_plain_run_goes_on(m, c, start, i + 1, n);
    }
}

/// What follows in a text is encoded as if nothing came before.
proof fn lemma_ids_from_shift(m: TokenizerModel, before: Seq<char>, c: Seq<char>, start: int, i: int)
    requires
        0 <= start <= i <= c.len(),
    ensures
        model::ids_from(m, before + c, before.len() + start, before.len() + i) == model::ids_from(
            m,
            c,
            start,
            i,
        ),
    decreases c.len() - i,
{
    let all = before + c;
    let n = before.len() as int;
    assert forall|k: int| #[trigger]
        added::added_stands(m.added, k, all, n + i) <==> added::added_stands(m.added, k, c, i) by {
        if 0 <= k < m.added.len() {
            let t = m.added[k].0;
            if i + t.len() <= c.len() {
                assert(all.subrange(n + i, n + i + t.len()) =~= c.subrange(i, i + t.len()));
            }
        }
    }
    assert(all.subrange(n + start, n + i) =~= c.subrange(start, i));
    assert(all.subrange(n + start, all.len() as int) =~= c.subrange(start, c.len() as int));
    if i < c.len() {
        added::lemma_first_added(m.added, 0, all, n + i);
        added::lemma_first_added(m.added, 0, c, i);
        let x = added::first_added(m.added, 0, all, n + i);
        let y = added::first_added(m.added, 0, c, i);
        if let Some(k) = x {
            assert(added::added_stands(m.added, k, c, i));
        }
        if let Some(k) = y {
            assert(added::added_stands(m.added, k, all, n + i));
        }
        assert(x == y);
        match y {
            Some(k) => {
                let j = i + m.added[k].0.len();
                lemma_ids_from_shift(m, before, c, j, j);
            },
            None => {
                lemma_ids_from_shift(m, before, c, start, i + 1);
            },
        }
    }
}

/// Whether no two tokens of the list have the same text.
pub open spec fn texts_differ(list: Seq<(Seq<char>, u32)>) -> bool {
    forall|i: int, j: int|
        #![trigger list[i], list[j]]
        0 <= i < j < list.len() ==> list[i].0 != list[j].0
}

/// The leftmost, longest added token cuts a text in two: it is exactly one id, and what
/// stands on either side of it in the normalized text is encoded as if it stood alone.
pub proof fn added_token_cuts_the_text(
    m: TokenizerModel,
    s: Seq<char>,
    a: Seq<char>,
    b: Seq<char>,
    k: int,
)
    requires
        is_in_order(m.added),
        texts_differ(m.added),
        0 <= k < m.added.len(),
        m.added[k].0.len() > 0,
        normal::normal_form(s) == a + m.added[k].0 + b,
        forall|i: int, j: int|
            0 <= i < a.len() ==> !#[trigger] added::added_stands(
                m.added,
                j,
                normal::normal_form(s),
                i,
            ),
        forall|j: int| #[trigger]
            added::added_stands(m.added, j, normal::normal_form(s), a.len() as int)
                ==> m.added[j].0.len() <= m.added[k].0.len(),
    ensures
        model::text_ids(m, s) == model::text_ids(m, a) + seq![m.added[k].1] + model::text_ids(
            m,
            b,
        ),
{
    let c = normal::normal_form(s);
    let t = m.added[k].0;
    let n = a.len() as int;
    let e = n + t.len();
    nfc_laws::nfc_is_idempotent(s);
    part_laws::beginnings_of_normal_texts_are_normal(c, n);
    part_laws::ends_of_normal_texts_are_normal(c, e);
    assert(c.take(n) =~= a);
    assert(c.skip(e) =~= b);
    assert(c.subrange(n, e) =~= t);
    assert(added::added_stands(m.added, k, c, n));
    longest_added_token_wins(m.added, c, n, k);
    added::lemma_first_added(m.added, 0, c, n);
    let f = added::first_added(m.added, 0, c, n)->0;
    let u = m.added[f].0;
    assert(added::added_stands(m.added, f, c, n));
    assert(u =~= t.take(u.len() as int)) by {
        assert(u == c.subrange(n, n + u.len()));
    }
    if u.len() < t.len() {
        lemma_longer_text_takes_more(t, u.len() as int);
    }
    assert(u =~= t);
    if f < k {
        assert(m.added[f].0 != m.added[k].0);
    } else if k < f {
        assert(m.added[k].0 != m.added[f].0);
    }
    assert(f == k);
    lemma_plain_run_goes_on(m, c, 0, 0, n);
    assert(c.subrange(0, n) =~= a);
    lemma_ids_from_shift(m, a + t, b, 0, 0);
    assert forall|p: int, j: int| 0 <= p < n implies !#[trigger] added::added_stands(
        m.added,
        j,
        a,
        p,
    ) by {
        if added::added_stands(m.added, j, a, p) {
            let l = m.added[j].0.len();
            assert(c.subrange(p, p + l) =~= a.subrange(p, p + l));
            assert(added::added_stands(m.added, j, c, p));
        }
    }
    lemma_plain_run_goes_on(m, a, 0, 0, n);
    assert(a.subrange(0, n) =~= a);
}

// ---------------------------------------------------------------------------
// decoding what was encoded
// ---------------------------------------------------------------------------
/// Whether the token strings spell what they stand for: a byte its character, a merge its
/// two sides, an added token its text.
pub open spec fn faithful(m: TokenizerModel) -> bool {
    &&& m.byte_ids.len() == 256
    &&& forall|b: u8|
        (#[trigger] m.byte_ids[b as int]) < m.tokens.len() && m.tokens[m.byte_ids[b as int] as int]
            == seq![bytes::byte_char(b)]
    &&& forall|l: u32, r: u32| #[trigger]
        m.merges.contains_key(bpe::pair_key(l, r)) ==> {
            let id = m.merges[bpe::pair_key(l, r)].1;
            l < m.tokens.len() && r < m.tokens.len() && id < m.tokens.len()
                && m.tokens[id as int] == m.tokens[l as int] + m.tokens[r as int]
        }
    &&& forall|k: int|
        0 <= k < m.added.len() ==> (#[trigger] m.added[k]).1 < m.tokens.len() && model::id_bytes(
            m,
            m.added[k].1,
        ) == encode_utf8(m.added[k].0)
}

proof fn lemma_token_bytes_concat(a: Seq<char>, b: Seq<char>)
    ensures
        model::token_bytes(a + b) == model::token_bytes(a) + model::token_bytes(b),
    decreases b.len(),
{
    if b.len() == 0 {
        assert(a + b =~= a);
        assert(model::token_bytes(a) + model::token_bytes(b) =~= model::token_bytes(a));
    } else {
        assert((a + b).drop_last() =~= a + b.drop_last());
        lemma_token_bytes_concat(a, b.drop_last());
        assert(model::token_bytes(a + b) =~= model::token_bytes(a) + model::token_bytes(b));
    }
}

proof fn lemma_ids_bytes_concat(m: TokenizerModel, a: Seq<u32>, b: Seq<u32>)
    ensures
        model::ids_bytes(m, a + b) == model::ids_bytes(m, a) + model::ids_bytes(m, b),
    decreases b.len(),
{
    if b.len() == 0 {
        assert(a + b =~= a);
        assert(model::ids_bytes(m, a) + model::ids_bytes(m, b) =~= model::ids_bytes(m, a));
    } else {
        assert((a + b).drop_last() =~= a + b.drop_last());
        lemma_ids_bytes_concat(m, a, b.drop_last());
        assert(model::ids_bytes(m, a + b) =~= model::ids_bytes(m, a) + model::ids_bytes(m, b));
    }
}

pub proof fn lemma_encode_concat(a: Seq<char>, b: Seq<char>)
    ensures
        encode_utf8(a + b) == encode_utf8(a) + encode_utf8(b),
    decreases a.len(),
{
    if a.len() == 0 {
        assert(a + b =~= b);
        assert(encode_utf8(a) + encode_utf8(b) =~= encode_utf8(b));
    } else {
        assert((a + b).drop_first() =~= a.drop_first() + b);
        lemma_encode_concat(a.drop_first(), b);
        assert(encode_utf8(a + b) =~= encode_utf8(a) + encode_utf8(b));
    }
}

proof fn lemma_ids_bytes_one(m: TokenizerModel, id: u32)
    ensures
        model::ids_bytes(m, seq![id]) == model::id_bytes(m, id),
{
    let one = seq![id];
    assert(one.drop_last() =~= seq![]);
    assert(model::ids_bytes(m, one.drop_last()) =~= seq![]);
    assert(model::ids_bytes(m, one) =~= model::id_bytes(m, id));
}

/// The ids of bytes stand for those bytes.
proof fn lemma_bytes_of_symbols(m: TokenizerModel, b: Seq<u8>)
    requires
        faithful(m),
    ensures
        model::ids_bytes(m, model::byte_symbols(m.byte_ids, b)) == b,
    decreases b.len(),
{
    let s = model::byte_symbols(m.byte_ids, b);
    if b.len() > 0 {
        let shorter = b.drop_last();
        lemma_bytes_of_symbols(m, shorter);
        assert(s.drop_last() =~= model::byte_symbols(m.byte_ids, shorter));
        let x = b.last();
        assert(m.byte_ids[x as int] < m.tokens.len());
        bytes::byte_char_round_trip(x);
        let t = seq![bytes::byte_char(x)];
        assert(t.drop_last() =~= seq![]);
        assert(model::token_bytes(t.drop_last()) =~= seq![]);
        assert(model::token_bytes(t) =~= seq![x]);
        assert(model::ids_bytes(m, s) =~= b);
    }
}

/// Merging keeps what the symbols stand for.
pub proof fn merging_keeps_the_bytes(m: TokenizerModel, s: Seq<u32>)
    requires
        faithful(m),
    ensures
        model::ids_bytes(m, bpe::merged(m.merges, s)) == model::ids_bytes(m, s),
    decreases s.len(),
{
    if exists|i: int| bpe::is_best(m.merges, s, i) {
        let i = choose|i: int| bpe::is_best(m.merges, s, i);
        let next = bpe::merge_at(m.merges, s, i);
        merging_keeps_the_bytes(m, next);
        let l = s[i];
        let r = s[i + 1];
        assert(m.merges.contains_key(bpe::pair_key(l, r)));
        let id = m.merges[bpe::pair_key(l, r)].1;
        let head = s.take(i);
        let tail = s.skip(i + 2);
        assert(next =~= head + seq![id] + tail);
        assert(s =~= head + (seq![l] + seq![r]) + tail);
        lemma_ids_bytes_concat(m, head + seq![id], tail);
        lemma_ids_bytes_concat(m, head, seq![id]);
        lemma_ids_bytes_concat(m, head + (seq![l] + seq![r]), tail);
        lemma_ids_bytes_concat(m, head, seq![l] + seq![r]);
        lemma_ids_bytes_concat(m, seq![l], seq![r]);
        lemma_ids_bytes_one(m, id);
        lemma_ids_bytes_one(m, l);
        lemma_ids_bytes_one(m, r);
        lemma_token_bytes_concat(m.tokens[l as int], m.tokens[r as int]);
    }
}

proof fn lemma_bytes_of_piece(m: TokenizerModel, piece: Seq<char>)
    requires
        faithful(m),
    ensures
        model::ids_bytes(m, model::piece_ids(m, piece)) == encode_utf8(piece),
{
    lemma_bytes_of_symbols(m, encode_utf8(piece));
    merging_keeps_the_bytes(m, model::byte_symbols(m.byte_ids, encode_utf8(piece)));
}

proof fn lemma_bytes_of_pieces(m: TokenizerModel, c: Seq<char>, p: Seq<(int, int)>, n: int)
    requires
        faithful(m),
        0 <= n <= p.len(),
        p.len() > 0 ==> p[0].0 == 0,
        forall|k: int| 0 <= k < p.len() ==> 0 <= (#[trigger] p[k]).0 < p[k].1 <= c.len(),
        forall|k: int| 0 <= k < p.len() - 1 ==> (#[trigger] p[k]).1 == p[k + 1].0,
    ensures
        model::ids_bytes(m, model::pieces_ids(m, c, p.take(n))) == encode_utf8(
            c.subrange(
                0,
                if n == 0 {
                    0
                } else {
                    p[n - 1].1
                },
            ),
        ),
    decreases n,
{
    if n == 0 {
        assert(c.subrange(0, 0) =~= seq![]);
        assert(model::pieces_ids(m, c, p.take(0)) =~= seq![]);
    } else {
        lemma_bytes_of_pieces(m, c, p, n - 1);
        let head = p.take(n);
        assert(head.drop_last() =~= p.take(n - 1));
        assert(head.last() == p[n - 1]);
        let (a, b) = p[n - 1];
        let piece = c.subrange(a, b);
        lemma_bytes_of_piece(m, piece);
        lemma_ids_bytes_concat(
            m,
            model::pieces_ids(m, c, p.take(n - 1)),
            model::piece_ids(m, piece),
        );
        if n > 1 {
            assert(p[n - 2].1 == p[n - 2 + 1].0);
        }
        lemma_encode_concat(c.subrange(0, a), piece);
        assert(c.subrange(0, a) + piece =~= c.subrange(0, b));
    }
}

proof fn lemma_bytes_of_plain(m: TokenizerModel, c: Seq<char>)
    requires
        faithful(m),
    ensures
        model::ids_bytes(m, model::plain_ids(m, c)) == encode_utf8(c),
{
    let p = scanner::pieces(c, 0, m.marks);
    pattern::pieces_cover_the_text(c, 0, m.marks);
    lemma_bytes_of_pieces(m, c, p, p.len() as int);
    assert(p.take(p.len() as int) =~= p);
    assert(c.subrange(0, c.len() as int) =~= c);
}

proof fn lemma_bytes_of_ids(m: TokenizerModel, c: Seq<char>, start: int, i: int)
    requires
        faithful(m),
        0 <= start <= i <= c.len(),
    ensures
        model::ids_bytes(m, model::ids_from(m, c, start, i)) == encode_utf8(
            c.subrange(start, c.len() as int),
        ),
    decreases c.len() - i,
{
    let n = c.len() as int;
    if i >= n {
        lemma_bytes_of_plain(m, c.subrange(start, n));
    } else {
        match added::first_added(m.added, 0, c, i) {
            Some(k) => {
                added::lemma_first_added(m.added, 0, c, i);
                let t = m.added[k].0;
                let id = m.added[k].1;
                let j = i + t.len();
                lemma_bytes_of_ids(m, c, j, j);
                let plain = c.subrange(start, i);
                lemma_bytes_of_plain(m, plain);
                lemma_ids_bytes_one(m, id);
                lemma_ids_bytes_concat(m, model::plain_ids(m, plain), seq![id]);
                lemma_ids_bytes_concat(
                    m,
                    model::plain_ids(m, plain) + seq![id],
                    model::ids_from(m, c, j, j),
                );
                lemma_encode_concat(plain, t);
                lemma_encode_concat(plain + t, c.subrange(j, n));
                assert(plain + t + c.subrange(j, n) =~= c.subrange(start, n));
            },
            None => {
                lemma_bytes_of_ids(m, c, start, i + 1);
            },
        }
    }
}

/// Decoding what was encoded gives the normal form of the text, and **not** necessarily
/// the text: the normalizer runs before anything else. This holds of every tokenizer
/// whose token strings spell what they stand for.
pub proof fn decoding_gives_the_normal_form(m: TokenizerModel, s: Seq<char>)
    requires
        faithful(m),
    ensures
        model::ids_bytes(m, model::text_ids(m, s)) == encode_utf8(normal::normal_form(s)),
        valid_utf8(model::ids_bytes(m, model::text_ids(m, s))),
        decode_utf8(model::ids_bytes(m, model::text_ids(m, s))) == normal::normal_form(s),
{
    let c = normal::normal_form(s);
    lemma_bytes_of_ids(m, c, 0, 0);
    assert(c.subrange(0, c.len() as int) =~= c);
    encode_utf8_valid_utf8(c);
    encode_utf8_decode_utf8(c);
}

/// Any run of ids decodes to the bytes of its parts: a cut anywhere in a sequence leaves
/// two sequences whose bytes, one after the other, are those of the whole.
pub proof fn decoding_is_piecewise(m: TokenizerModel, a: Seq<u32>, b: Seq<u32>)
    ensures
        model::ids_bytes(m, a + b) == model::ids_bytes(m, a) + model::ids_bytes(m, b),
{
    lemma_ids_bytes_concat(m, a, b);
}

} // verus!
