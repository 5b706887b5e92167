//! Byte-pair merging over the symbols of one piece.
//!
//! The rule is: repeatedly take the adjacent pair with the **lowest merge rank**, merge
//! those two symbols, and repeat -- one merge at a time, leftmost wins a tie. Merging every
//! occurrence of the best pair in a single pass looks equivalent and is not.
use std::collections::HashMap;
use vstd::prelude::*;

verus! {

broadcast use vstd::std_specs::hash::group_hash_axioms;

/// The pair `(left, right)` as one number, by which the merge table is keyed.
pub open spec fn pair_key(left: u32, right: u32) -> u64 {
    (left * 0x1_0000_0000 + right) as u64
}

/// The rank of the pair at `i` and `i + 1`, where the table has that pair.
pub open spec fn rank_at(merges: Map<u64, (u32, u32)>, s: Seq<u32>, i: int) -> Option<u32> {
    if 0 <= i < s.len() - 1 && merges.contains_key(pair_key(s[i], s[i + 1])) {
        Some(merges[pair_key(s[i], s[i + 1])].0)
    } else {
        None
    }
}

/// Whether the pair at `i` is the one to merge: no pair has a lower rank, and none further
/// left has the same.
pub open spec fn is_best(merges: Map<u64, (u32, u32)>, s: Seq<u32>, i: int) -> bool {
    &&& rank_at(merges, s, i) is Some
    &&& forall|j: int|
        #![trigger rank_at(merges, s, j)]
        rank_at(merges, s, j) is Some ==> rank_at(merges, s, i)->0 <= rank_at(merges, s, j)->0
            && (j < i ==> rank_at(merges, s, i)->0 < rank_at(merges, s, j)->0)
}

/// The symbols once the pair at `i` has been merged.
pub open spec fn merge_at(merges: Map<u64, (u32, u32)>, s: Seq<u32>, i: int) -> Seq<u32> {
    s.update(i, merges[pair_key(s[i], s[i + 1])].1).remove(i + 1)
}

/// The symbols once no pair of them can be merged any more.
pub open spec fn merged(merges: Map<u64, (u32, u32)>, s: Seq<u32>) -> Seq<u32>
    decreases s.len(),
{
    if exists|i: int| is_best(merges, s, i) {
        let i = choose|i: int| is_best(merges, s, i);
        merged(merges, merge_at(merges, s, i))
    } else {
        s
    }
}

/// There is one best pair.
pub(crate) proof fn lemma_best_is_one(merges: Map<u64, (u32, u32)>, s: Seq<u32>, i: int, j: int)
    requires
        is_best(merges, s, i),
        is_best(merges, s, j),
    ensures
        i == j,
{
    assert(rank_at(merges, s, i) is Some);
    assert(rank_at(merges, s, j) is Some);
}

/// Different pairs have different keys.
pub proof fn pair_keys_differ(a: u32, b: u32, c: u32, d: u32)
    requires
        pair_key(a, b) == pair_key(c, d),
    ensures
        a == c,
        b == d,
{
    assert(a * 0x1_0000_0000 + b <= u64::MAX);
    assert(c * 0x1_0000_0000 + d <= u64::MAX);
}

/// The pair as one number.
pub fn key_of_pair(left: u32, right: u32) -> (r: u64)
    ensures
        r == pair_key(left, right),
{
    left as u64 * 0x1_0000_0000 + right as u64
}

/// Where the best pair is.
fn best_pair(merge: &HashMap<u64, (u32, u32)>, syms: &Vec<u32>) -> (r: Option<usize>)
    ensures
        match r {
            Some(i) => is_best(merge@, syms@, i as int),
            None => forall|i: int| !is_best(merge@, syms@, i),
        },
{
    let mut best: Option<(u32, usize)> = None;
    let mut i: usize = 0;
    while syms.len() - i > 1
        invariant
            i <= syms.len(),
            match best {
                Some((rank, at)) => {
                    &&& at < i
                    &&& rank_at(merge@, syms@, at as int) == Some(rank)
                    &&& forall|j: int|
                        #![trigger rank_at(merge@, syms@, j)]
                        j < i && rank_at(merge@, syms@, j) is Some ==> rank <= rank_at(
                            merge@,
                            syms@,
                            j,
                        )->0 && (j < at ==> rank < rank_at(merge@, syms@, j)->0)
                },
                None => forall|j: int|
                    #![trigger rank_at(merge@, syms@, j)]
                    j < i ==> rank_at(merge@, syms@, j) is None,
            },
        decreases syms.len() - i,
    {
        let key: u64 = key_of_pair(syms[i], syms[i + 1]);
        if let Some(m) = merge.get(&key) {
            let rank: u32 = m.0;
            assert(rank_at(merge@, syms@, i as int) == Some(rank));
            let better: bool = match best {
                Some((lowest, _)) => rank < lowest,
                None => true,
            };
            if better {
                best = Some((rank, i));
            }
        }
        i += 1;
    }
    match best {
        Some((_, at)) => Some(at),
        None => {
            assert forall|j: int| !is_best(merge@, syms@, j) by {
                if is_best(merge@, syms@, j) {
                    assert(rank_at(merge@, syms@, j) is Some);
                }
            }
            None
        },
    }
}

/// Merges pairs of `syms`, lowest rank first, until there is none left to merge.
pub fn merge_all(merge: &HashMap<u64, (u32, u32)>, syms: &mut Vec<u32>)
    ensures
        final(syms)@ == merged(merge@, old(syms)@),
{
    let ghost all = merged(merge@, syms@);
    loop
        invariant
            merged(merge@, syms@) == all,
        ensures
            syms@ == all,
        decreases syms.len(),
    {
        match best_pair(merge, syms) {
            Some(i) => {
                let ghost before = syms@;
                let key: u64 = key_of_pair(syms[i], syms[i + 1]);
                if let Some(m) = merge.get(&key) {
                    syms.set(i, m.1);
                }
                let _ = syms.remove(i + 1);
                proof {
                    assert(syms@ == merge_at(merge@, before, i as int));
                    let chosen = choose|k: int| is_best(merge@, before, k);
                    lemma_best_is_one(merge@, before, i as int, chosen);
                }
            },
            None => {
                break;
            },
        }
    }
}

} // verus!
