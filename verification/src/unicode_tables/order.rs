//! When the rows of a table are in order, which is what binary search needs.
//!
//! A long table is checked in blocks of sixteen rows.
use vstd::prelude::*;

verus! {

// ---------------------------------------------------------------------------
// ranges
// ---------------------------------------------------------------------------
/// Whether the ranges are ascending and disjoint.
pub open spec fn sorted_ranges(rs: Seq<(u32, u32)>) -> bool {
    &&& forall|i: int| 0 <= i < rs.len() ==> (#[trigger] rs[i]).0 <= rs[i].1
    &&& forall|i: int, j: int|
        0 <= i < j < rs.len() ==> (#[trigger] rs[i]).1 < (#[trigger] rs[j]).0
}

/// Whether range `i` is one, and lies before the next.
pub open spec fn range_fits(t: Seq<(u32, u32)>, i: int) -> bool {
    t[i].0 <= t[i].1 && (i + 1 < t.len() ==> t[i].1 < t[i + 1].0)
}

/// Whether the first `n` rows fit.
#[verifier::opaque]
pub open spec fn ranges_upto(t: Seq<(u32, u32)>, n: int) -> bool {
    forall|i: int| 0 <= i < n ==> #[trigger] range_fits(t, i)
}

/// With a block of rows that fit behind rows that fit, all of them fit.
pub proof fn lemma_ranges_block(t: Seq<(u32, u32)>, n: int, k: int)
    requires
        ranges_upto(t, n),
        0 <= k <= n,
        range_fits(t, k),
        range_fits(t, k + 1),
        range_fits(t, k + 2),
        range_fits(t, k + 3),
        range_fits(t, k + 4),
        range_fits(t, k + 5),
        range_fits(t, k + 6),
        range_fits(t, k + 7),
        range_fits(t, k + 8),
        range_fits(t, k + 9),
        range_fits(t, k + 10),
        range_fits(t, k + 11),
        range_fits(t, k + 12),
        range_fits(t, k + 13),
        range_fits(t, k + 14),
        range_fits(t, k + 15),
    ensures
        ranges_upto(t, k + 16),
{
    reveal(ranges_upto);
}

/// No rows fit.
pub proof fn lemma_ranges_start(t: Seq<(u32, u32)>)
    ensures
        ranges_upto(t, 0),
{
    reveal(ranges_upto);
}

pub proof fn lemma_ranges_sorted(rs: Seq<(u32, u32)>)
    requires
        ranges_upto(rs, rs.len() as int),
    ensures
        sorted_ranges(rs),
{
    reveal(ranges_upto);
    assert forall|i: int, j: int| 0 <= i < j < rs.len() implies (#[trigger] rs[i]).1 < (
    #[trigger] rs[j]).0 by {
        lemma_range_before(rs, i, j);
    }
    assert forall|i: int| 0 <= i < rs.len() implies (#[trigger] rs[i]).0 <= rs[i].1 by {
        assert(range_fits(rs, i));
    }
}

proof fn lemma_range_before(rs: Seq<(u32, u32)>, i: int, j: int)
    requires
        ranges_upto(rs, rs.len() as int),
        0 <= i < j < rs.len(),
    ensures
        rs[i].1 < rs[j].0,
    decreases j,
{
    reveal(ranges_upto);
    assert(range_fits(rs, j - 1));
    if i < j - 1 {
        lemma_range_before(rs, i, j - 1);
    }
}

// ---------------------------------------------------------------------------
// keys
// ---------------------------------------------------------------------------
/// Whether the keys ascend.
pub open spec fn ascending(keys: Seq<int>) -> bool {
    forall|i: int, j: int| 0 <= i < j < keys.len() ==> #[trigger] keys[i] < #[trigger] keys[j]
}

/// Whether key `i` is smaller than the next.
spec fn key_step(keys: Seq<int>, i: int) -> bool {
    keys[i] < keys[i + 1]
}

proof fn lemma_key_steps(keys: Seq<int>)
    requires
        forall|i: int| 0 <= i < keys.len() - 1 ==> #[trigger] key_step(keys, i),
    ensures
        ascending(keys),
{
    assert forall|i: int, j: int| 0 <= i < j < keys.len() implies #[trigger] keys[i] < #[trigger]
        keys[j] by {
        lemma_key_before(keys, i, j);
    }
}

proof fn lemma_key_before(keys: Seq<int>, i: int, j: int)
    requires
        forall|k: int| 0 <= k < keys.len() - 1 ==> #[trigger] key_step(keys, k),
        0 <= i < j < keys.len(),
    ensures
        keys[i] < keys[j],
    decreases j,
{
    assert(key_step(keys, j - 1));
    if i < j - 1 {
        lemma_key_before(keys, i, j - 1);
    }
}

/// The keys of a table.
pub open spec fn pair_keys(t: Seq<(u32, u32)>) -> Seq<int> {
    Seq::new(t.len(), |i: int| t[i].0 as int)
}

/// Whether the key of row `i` is smaller than the next.
pub open spec fn pair_fits(t: Seq<(u32, u32)>, i: int) -> bool {
    i + 1 < t.len() ==> t[i].0 < t[i + 1].0
}

/// Whether the first `n` rows fit.
#[verifier::opaque]
pub open spec fn pairs_upto(t: Seq<(u32, u32)>, n: int) -> bool {
    forall|i: int| 0 <= i < n ==> #[trigger] pair_fits(t, i)
}

/// With a block of rows that fit behind rows that fit, all of them fit.
pub proof fn lemma_pairs_block(t: Seq<(u32, u32)>, n: int, k: int)
    requires
        pairs_upto(t, n),
        0 <= k <= n,
        pair_fits(t, k),
        pair_fits(t, k + 1),
        pair_fits(t, k + 2),
        pair_fits(t, k + 3),
        pair_fits(t, k + 4),
        pair_fits(t, k + 5),
        pair_fits(t, k + 6),
        pair_fits(t, k + 7),
        pair_fits(t, k + 8),
        pair_fits(t, k + 9),
        pair_fits(t, k + 10),
        pair_fits(t, k + 11),
        pair_fits(t, k + 12),
        pair_fits(t, k + 13),
        pair_fits(t, k + 14),
        pair_fits(t, k + 15),
    ensures
        pairs_upto(t, k + 16),
{
    reveal(pairs_upto);
}

/// No rows fit.
pub proof fn lemma_pairs_start(t: Seq<(u32, u32)>)
    ensures
        pairs_upto(t, 0),
{
    reveal(pairs_upto);
}

pub proof fn lemma_pairs_ascend(t: Seq<(u32, u32)>)
    requires
        pairs_upto(t, t.len() as int),
    ensures
        ascending(pair_keys(t)),
{
    reveal(pairs_upto);
    assert forall|i: int| 0 <= i < t.len() - 1 implies #[trigger] key_step(pair_keys(t), i) by {
        assert(pair_fits(t, i));
    }
    lemma_key_steps(pair_keys(t));
}

/// The keys of a table.
pub open spec fn triple_keys(t: Seq<(u32, u32, u32)>) -> Seq<int> {
    Seq::new(t.len(), |i: int| t[i].0 as int)
}

/// Whether row `i` ends in no ASCII character, and its key is smaller than the next.
pub open spec fn triple_fits(t: Seq<(u32, u32, u32)>, i: int) -> bool {
    t[i].2 >= 0x80 && (i + 1 < t.len() ==> t[i].0 < t[i + 1].0)
}

/// Whether the first `n` rows fit.
#[verifier::opaque]
pub open spec fn triples_upto(t: Seq<(u32, u32, u32)>, n: int) -> bool {
    forall|i: int| 0 <= i < n ==> #[trigger] triple_fits(t, i)
}

/// With a block of rows that fit behind rows that fit, all of them fit.
pub proof fn lemma_triples_block(t: Seq<(u32, u32, u32)>, n: int, k: int)
    requires
        triples_upto(t, n),
        0 <= k <= n,
        triple_fits(t, k),
        triple_fits(t, k + 1),
        triple_fits(t, k + 2),
        triple_fits(t, k + 3),
        triple_fits(t, k + 4),
        triple_fits(t, k + 5),
        triple_fits(t, k + 6),
        triple_fits(t, k + 7),
        triple_fits(t, k + 8),
        triple_fits(t, k + 9),
        triple_fits(t, k + 10),
        triple_fits(t, k + 11),
        triple_fits(t, k + 12),
        triple_fits(t, k + 13),
        triple_fits(t, k + 14),
        triple_fits(t, k + 15),
    ensures
        triples_upto(t, k + 16),
{
    reveal(triples_upto);
}

/// No rows fit.
pub proof fn lemma_triples_start(t: Seq<(u32, u32, u32)>)
    ensures
        triples_upto(t, 0),
{
    reveal(triples_upto);
}

pub proof fn lemma_triples_ascend(t: Seq<(u32, u32, u32)>)
    requires
        triples_upto(t, t.len() as int),
    ensures
        ascending(triple_keys(t)),
        forall|i: int| 0 <= i < t.len() ==> (#[trigger] t[i]).2 >= 0x80,
{
    reveal(triples_upto);
    assert forall|i: int| 0 <= i < t.len() implies (#[trigger] t[i]).2 >= 0x80 by {
        assert(triple_fits(t, i));
    }
    assert forall|i: int| 0 <= i < t.len() - 1 implies #[trigger] key_step(triple_keys(t), i) by {
        assert(triple_fits(t, i));
    }
    lemma_key_steps(triple_keys(t));
}

/// The keys of a table.
pub open spec fn wide_keys(t: Seq<(u64, u32)>) -> Seq<int> {
    Seq::new(t.len(), |i: int| t[i].0 as int)
}

/// Whether the key of row `i` is smaller than the next.
pub open spec fn wide_fits(t: Seq<(u64, u32)>, i: int) -> bool {
    i + 1 < t.len() ==> t[i].0 < t[i + 1].0
}

/// Whether the first `n` rows fit.
#[verifier::opaque]
pub open spec fn wides_upto(t: Seq<(u64, u32)>, n: int) -> bool {
    forall|i: int| 0 <= i < n ==> #[trigger] wide_fits(t, i)
}

/// With a block of rows that fit behind rows that fit, all of them fit.
pub proof fn lemma_wides_block(t: Seq<(u64, u32)>, n: int, k: int)
    requires
        wides_upto(t, n),
        0 <= k <= n,
        wide_fits(t, k),
        wide_fits(t, k + 1),
        wide_fits(t, k + 2),
        wide_fits(t, k + 3),
        wide_fits(t, k + 4),
        wide_fits(t, k + 5),
        wide_fits(t, k + 6),
        wide_fits(t, k + 7),
        wide_fits(t, k + 8),
        wide_fits(t, k + 9),
        wide_fits(t, k + 10),
        wide_fits(t, k + 11),
        wide_fits(t, k + 12),
        wide_fits(t, k + 13),
        wide_fits(t, k + 14),
        wide_fits(t, k + 15),
    ensures
        wides_upto(t, k + 16),
{
    reveal(wides_upto);
}

/// No rows fit.
pub proof fn lemma_wides_start(t: Seq<(u64, u32)>)
    ensures
        wides_upto(t, 0),
{
    reveal(wides_upto);
}

pub proof fn lemma_wides_ascend(t: Seq<(u64, u32)>)
    requires
        wides_upto(t, t.len() as int),
    ensures
        ascending(wide_keys(t)),
{
    reveal(wides_upto);
    assert forall|i: int| 0 <= i < t.len() - 1 implies #[trigger] key_step(wide_keys(t), i) by {
        assert(wide_fits(t, i));
    }
    lemma_key_steps(wide_keys(t));
}

} // verus!
