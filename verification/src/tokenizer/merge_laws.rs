//! What byte-pair merging leaves, in terms of the merge table, and how a text comes to its ids.
//!
//! The merge table is keyed by a pair of ids as one number, the left id in its upper half.
use super::added;
use super::bpe;
use super::model;
use super::model::TokenizerModel;
use super::pattern;
use super::scanner;
use crate::unicode_gc::normal;
use vstd::prelude::*;
use vstd::utf8::*;

verus! {

/// Of some numbers, the first of the least.
proof fn lemma_least(ranks: Seq<Option<u32>>, some: int) -> (b: int)
    requires
        0 <= some < ranks.len(),
        ranks[some] is Some,
    ensures
        0 <= b < ranks.len(),
        ranks[b] is Some,
        forall|j: int|
            #![trigger ranks[j]]
            0 <= j < ranks.len() && ranks[j] is Some ==> ranks[b]->0 <= ranks[j]->0 && (j < b
                ==> ranks[b]->0 < ranks[j]->0),
    decreases ranks.len(),
{
    let shorter = ranks.drop_last();
    let last = ranks.len() - 1;
    if exists|i: int| 0 <= i < last && #[trigger] shorter[i] is Some {
        let i = choose|i: int| 0 <= i < last && #[trigger] shorter[i] is Some;
        let b = lemma_least(shorter, i);
        let best = if ranks[last] is Some && ranks[last]->0 < ranks[b]->0 {
            last
        } else {
            b
        };
        assert forall|j: int|
            #![trigger ranks[j]]
            0 <= j < ranks.len() && ranks[j] is Some implies ranks[best]->0 <= ranks[j]->0 && (j
            < best ==> ranks[best]->0 < ranks[j]->0) by {
            if j < last {
                assert(shorter[j] == ranks[j]);
            }
        }
        best
    } else {
        assert(some == last) by {
            if some < last {
                assert(shorter[some] is Some);
            }
        }
        assert forall|j: int|
            #![trigger ranks[j]]
            0 <= j < ranks.len() && ranks[j] is Some implies j == last by {
            if j < last {
                assert(shorter[j] is Some);
            }
        }
        last
    }
}

proof fn lemma_no_best_no_rank(merges: Map<u64, (u32, u32)>, s: Seq<u32>)
    requires
        forall|i: int| !bpe::is_best(merges, s, i),
    ensures
        forall|i: int| #[trigger] bpe::rank_at(merges, s, i) is None,
{
    if exists|i: int| #[trigger] bpe::rank_at(merges, s, i) is Some {
        let i = choose|i: int| #[trigger] bpe::rank_at(merges, s, i) is Some;
        let ranks = Seq::new(s.len(), |j: int| bpe::rank_at(merges, s, j));
        let b = lemma_least(ranks, i);
        assert forall|j: int|
            #![trigger bpe::rank_at(merges, s, j)]
            bpe::rank_at(merges, s, j) is Some implies bpe::rank_at(merges, s, b)->0
            <= bpe::rank_at(merges, s, j)->0 && (j < b ==> bpe::rank_at(merges, s, b)->0
            < bpe::rank_at(merges, s, j)->0) by {
            assert(ranks[j] == bpe::rank_at(merges, s, j));
        }
        assert(bpe::is_best(merges, s, b));
    }
}

/// **Merging goes on until nothing is left to merge.** No two neighbours of what it leaves are a
/// pair of the merge table.
pub proof fn merging_leaves_no_pair_of_the_table(merges: Map<u64, (u32, u32)>, s: Seq<u32>)
    ensures
        forall|i: int|
            #![trigger bpe::merged(merges, s)[i]]
            0 <= i < bpe::merged(merges, s).len() - 1 ==> !merges.contains_key(
                (bpe::merged(merges, s)[i] * 0x1_0000_0000 + bpe::merged(merges, s)[i + 1]) as u64,
            ),
    decreases s.len(),
{
    if exists|i: int| bpe::is_best(merges, s, i) {
        let i = choose|i: int| bpe::is_best(merges, s, i);
        let next = bpe::merge_at(merges, s, i);
        merging_leaves_no_pair_of_the_table(merges, next);
        let r = bpe::merged(merges, s);
        assert(r == bpe::merged(merges, next));
        assert forall|j: int|
            #![trigger bpe::merged(merges, s)[j]]
            0 <= j < r.len() - 1 implies !merges.contains_key(
            (bpe::merged(merges, s)[j] * 0x1_0000_0000 + bpe::merged(merges, s)[j + 1]) as u64,
        ) by {
            let x = bpe::merged(merges, next)[j];
        }
    } else {
        lemma_no_best_no_rank(merges, s);
        assert forall|i: int|
            #![trigger bpe::merged(merges, s)[i]]
            0 <= i < bpe::merged(merges, s).len() - 1 implies !merges.contains_key(
            (bpe::merged(merges, s)[i] * 0x1_0000_0000 + bpe::merged(merges, s)[i + 1]) as u64,
        ) by {
            assert(bpe::rank_at(merges, s, i) is None);
        }
    }
}

/// **What cannot be merged stays.** Symbols without a pair of the table come out as they are.
pub proof fn symbols_without_a_pair_stay(merges: Map<u64, (u32, u32)>, s: Seq<u32>)
    requires
        forall|i: int|
            #![trigger s[i]]
            0 <= i < s.len() - 1 ==> !merges.contains_key((s[i] * 0x1_0000_0000 + s[i + 1]) as u64),
    ensures
        bpe::merged(merges, s) == s,
{
    if exists|i: int| bpe::is_best(merges, s, i) {
        let i = choose|i: int| bpe::is_best(merges, s, i);
        assert(bpe::rank_at(merges, s, i) is Some);
        assert(!merges.contains_key((s[i] * 0x1_0000_0000 + s[i + 1]) as u64));
    }
}

/// **The pair of the lowest rank merges first, the leftmost of equals.** Where the pair at `i` is
/// in the table, no other pair of the symbols has a lower rank, and none further left has the
/// same, then merging goes on from the symbols with that pair, and only that, replaced by the
/// id that the table has for it.
pub proof fn the_lowest_rank_merges_first(merges: Map<u64, (u32, u32)>, s: Seq<u32>, i: int)
    requires
        0 <= i < s.len() - 1,
        merges.contains_key((s[i] * 0x1_0000_0000 + s[i + 1]) as u64),
        forall|j: int|
            #![trigger s[j]]
            0 <= j < s.len() - 1 && merges.contains_key((s[j] * 0x1_0000_0000 + s[j + 1]) as u64)
                ==> {
                let here = merges[(s[i] * 0x1_0000_0000 + s[i + 1]) as u64].0;
                let there = merges[(s[j] * 0x1_0000_0000 + s[j + 1]) as u64].0;
                here <= there && (j < i ==> here < there)
            },
    ensures
        bpe::merged(merges, s) == bpe::merged(
            merges,
            s.subrange(0, i) + seq![merges[(s[i] * 0x1_0000_0000 + s[i + 1]) as u64].1]
                + s.subrange(i + 2, s.len() as int),
        ),
{
    assert forall|j: int|
        #![trigger bpe::rank_at(merges, s, j)]
        bpe::rank_at(merges, s, j) is Some implies bpe::rank_at(merges, s, i)->0 <= bpe::rank_at(
        merges,
        s,
        j,
    )->0 && (j < i ==> bpe::rank_at(merges, s, i)->0 < bpe::rank_at(merges, s, j)->0) by {
        let x = s[j];
    }
    assert(bpe::is_best(merges, s, i));
    let k = choose|k: int| bpe::is_best(merges, s, k);
    bpe::lemma_best_is_one(merges, s, i, k);
    assert(bpe::merge_at(merges, s, i) =~= s.subrange(0, i) + seq![
        merges[(s[i] * 0x1_0000_0000 + s[i + 1]) as u64].1,
    ] + s.subrange(i + 2, s.len() as int));
}

proof fn lemma_plain_to_the_end(m: TokenizerModel, c: Seq<char>, i: int)
    requires
        0 <= i <= c.len(),
        forall|p: int, k: int| !#[trigger] added::added_stands(m.added, k, c, p),
    ensures
        model::ids_from(m, c, 0, i) == model::plain_ids(m, c),
    decreases c.len() - i,
{
    if i < c.len() {
        added::lemma_first_added(m.added, 0, c, i);
        lemma_plain_to_the_end(m, c, i + 1);
    } else {
        assert(c.subrange(0, c.len() as int) =~= c);
    }
}

/// Where the pieces of a text from `i` on are cut.
proof fn lemma_cuts(c: Seq<char>, i: int, marks: bool) -> (cuts: Seq<int>)
    requires
        0 <= i <= c.len(),
    ensures
        cuts.len() == scanner::pieces(c, i, marks).len() + 1,
        cuts[0] == i,
        cuts.last() == c.len(),
        forall|k: int|
            #![trigger scanner::pieces(c, i, marks)[k]]
            #![trigger pattern::pattern(c, cuts[k], marks)]
            0 <= k < cuts.len() - 1 ==> {
                &&& 0 <= cuts[k] < cuts[k + 1] <= c.len()
                &&& pattern::pattern(c, cuts[k], marks) == Some(cuts[k + 1])
                &&& scanner::pieces(c, i, marks)[k] == (cuts[k], cuts[k + 1])
            },
    decreases c.len() - i,
{
    if i == c.len() {
        seq![i]
    } else {
        scanner::every_character_matches(c, i, marks);
        pattern::scanner_matches_pattern(c, i, marks);
        let j = scanner::alternative(c, i, marks)->0;
        let rest = lemma_cuts(c, j, marks);
        let cuts = seq![i] + rest;
        let p = scanner::pieces(c, i, marks);
        let q = scanner::pieces(c, j, marks);
        assert(p == seq![(i, j)] + q);
        assert forall|k: int|
            #![trigger scanner::pieces(c, i, marks)[k]]
            #![trigger pattern::pattern(c, cuts[k], marks)]
            0 <= k < cuts.len() - 1 implies {
            &&& 0 <= cuts[k] < cuts[k + 1] <= c.len()
            &&& pattern::pattern(c, cuts[k], marks) == Some(cuts[k + 1])
            &&& scanner::pieces(c, i, marks)[k] == (cuts[k], cuts[k + 1])
        } by {
            if k > 0 {
                assert(q[k - 1] == p[k]);
                assert(cuts[k] == rest[k - 1]);
                assert(cuts[k + 1] == rest[k]);
            } else {
                assert(cuts[1] == rest[0]);
            }
        }
        cuts
    }
}

proof fn lemma_pieces_flatten(m: TokenizerModel, c: Seq<char>, p: Seq<(int, int)>)
    ensures
        model::pieces_ids(m, c, p) == Seq::new(
            p.len(),
            |k: int|
                bpe::merged(
                    m.merges,
                    encode_utf8(c.subrange(p[k].0, p[k].1)).map_values(
                        |b: u8| m.byte_ids[b as int],
                    ),
                ),
        ).flatten(),
    decreases p.len(),
{
    let parts = Seq::new(
        p.len(),
        |k: int|
            bpe::merged(
                m.merges,
                encode_utf8(c.subrange(p[k].0, p[k].1)).map_values(|b: u8| m.byte_ids[b as int]),
            ),
    );
    if p.len() > 0 {
        lemma_pieces_flatten(m, c, p.drop_last());
        let q = p.drop_last();
        let shorter = Seq::new(
            q.len(),
            |k: int|
                bpe::merged(
                    m.merges,
                    encode_utf8(c.subrange(q[k].0, q[k].1)).map_values(
                        |b: u8| m.byte_ids[b as int],
                    ),
                ),
        );
        let last = model::piece_ids(m, c.subrange(p.last().0, p.last().1));
        assert(model::byte_symbols(
            m.byte_ids,
            encode_utf8(c.subrange(p.last().0, p.last().1)),
        ) =~= encode_utf8(c.subrange(p.last().0, p.last().1)).map_values(
            |b: u8| m.byte_ids[b as int],
        ));
        assert(parts =~= shorter.push(last));
        shorter.lemma_flatten_push(last);
    } else {
        assert(parts =~= seq![]);
    }
}

/// **How a text without added tokens is encoded.** Its normal form is cut, from its beginning to
/// its end, where the pre-tokenizer's pattern cuts it; the bytes of each piece, as the ids of
/// single bytes, are merged on their own; and the ids of the pieces follow one another.
pub proof fn plain_text_is_encoded_piece_by_piece(m: TokenizerModel, s: Seq<char>) -> (cuts: Seq<
    int,
>)
    requires
        forall|k: int, i: int|
            #![trigger m.added[k], normal::normal_form(s)[i]]
            0 <= k < m.added.len() && 0 <= i && i + m.added[k].0.len()
                <= normal::normal_form(s).len() ==> m.added[k].0.len() == 0
                || normal::normal_form(s).subrange(i, i + m.added[k].0.len()) != m.added[k].0,
    ensures
        cuts.len() > 0,
        cuts[0] == 0,
        cuts.last() == normal::normal_form(s).len(),
        forall|k: int|
            0 <= k < cuts.len() - 1 ==> 0 <= cuts[k] < cuts[k + 1] <= normal::normal_form(s).len()
                && #[trigger] pattern::pattern(normal::normal_form(s), cuts[k], m.marks) == Some(
                cuts[k + 1],
            ),
        model::text_ids(m, s) == Seq::new(
            (cuts.len() - 1) as nat,
            |k: int|
                bpe::merged(
                    m.merges,
                    encode_utf8(normal::normal_form(s).subrange(cuts[k], cuts[k + 1])).map_values(
                        |b: u8| m.byte_ids[b as int],
                    ),
                ),
        ).flatten(),
{
    let c = normal::normal_form(s);
    assert forall|p: int, k: int| !#[trigger] added::added_stands(m.added, k, c, p) by {
        if added::added_stands(m.added, k, c, p) {
            let x = m.added[k];
            let y = c[p];
        }
    }
    lemma_plain_to_the_end(m, c, 0);
    let cuts = lemma_cuts(c, 0, m.marks);
    let p = scanner::pieces(c, 0, m.marks);
    lemma_pieces_flatten(m, c, p);
    let by_pieces = Seq::new(
        p.len(),
        |k: int|
            bpe::merged(
                m.merges,
                encode_utf8(c.subrange(p[k].0, p[k].1)).map_values(|b: u8| m.byte_ids[b as int]),
            ),
    );
    let by_cuts = Seq::new(
        (cuts.len() - 1) as nat,
        |k: int|
            bpe::merged(
                m.merges,
                encode_utf8(c.subrange(cuts[k], cuts[k + 1])).map_values(
                    |b: u8| m.byte_ids[b as int],
                ),
            ),
    );
    assert forall|k: int| 0 <= k < p.len() implies by_pieces[k] == by_cuts[k] by {
        assert(p[k] == (cuts[k], cuts[k + 1]));
    }
    assert(by_pieces =~= by_cuts);
    cuts
}

} // verus!
