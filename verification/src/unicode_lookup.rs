//! Looking code points up in the tables.
pub mod laws;
pub mod table_laws;

use crate::text;
use crate::unicode_tables::classes;
use crate::unicode_tables::compositions;
use crate::unicode_tables::letters;
use crate::unicode_tables::marks;
use crate::unicode_tables::numbers;
use crate::unicode_tables::order;
use crate::unicode_tables::pairs;
use crate::unicode_tables::singletons;
use vstd::prelude::*;

verus! {

// ---------------------------------------------------------------------------
// categories
// ---------------------------------------------------------------------------
/// Whether `c` is in one of the ranges.
pub open spec fn in_table(rs: Seq<(u32, u32)>, c: u32) -> bool {
    exists|i: int| 0 <= i < rs.len() && (#[trigger] rs[i]).0 <= c <= rs[i].1
}

/// Binary search over sorted, disjoint, inclusive ranges.
fn in_ranges(rs: &[(u32, u32)], cp: u32) -> (r: bool)
    requires
        order::sorted_ranges(rs@),
    ensures
        r == in_table(rs@, cp),
{
    let mut lo: usize = 0;
    let mut hi: usize = rs.len();
    while lo < hi
        invariant
            lo <= hi <= rs@.len(),
            order::sorted_ranges(rs@),
            forall|i: int| 0 <= i < lo ==> (#[trigger] rs@[i]).1 < cp,
            forall|i: int| hi <= i < rs@.len() ==> cp < (#[trigger] rs@[i]).0,
        decreases hi - lo,
    {
        let mid: usize = lo + (hi - lo) / 2;
        let (a, b): (u32, u32) = rs[mid];
        if cp < a {
            hi = mid;
        } else if cp > b {
            lo = mid + 1;
        } else {
            return true;
        }
    }
    false
}

/// `\p{L}`
pub open spec fn letter(c: char) -> bool {
    in_table(letters::table(), c as u32)
}

/// `\p{M}`
pub open spec fn mark(c: char) -> bool {
    in_table(marks::table(), c as u32)
}

/// `\p{N}`
pub open spec fn number(c: char) -> bool {
    in_table(numbers::table(), c as u32)
}

/// `\p{L}`
pub fn is_letter(c: char) -> (r: bool)
    ensures
        r == letter(c),
{
    proof {
        letters::lemma_order();
    }
    in_ranges(letters::rows(), c as u32)
}

/// `\p{M}`
pub fn is_mark(c: char) -> (r: bool)
    ensures
        r == mark(c),
{
    proof {
        marks::lemma_order();
    }
    in_ranges(marks::rows(), c as u32)
}

/// `\p{N}`
pub fn is_number(c: char) -> (r: bool)
    ensures
        r == number(c),
{
    proof {
        numbers::lemma_order();
    }
    in_ranges(numbers::rows(), c as u32)
}

// ---------------------------------------------------------------------------
// rows
// ---------------------------------------------------------------------------
/// The row with that key, where there is one.
pub open spec fn row_of(keys: Seq<int>, key: int) -> Option<int> {
    if keys.contains(key) {
        Some(choose|i: int| 0 <= i < keys.len() && keys[i] == key)
    } else {
        None
    }
}

/// Ascending keys occur once.
pub(crate) proof fn lemma_row_is(keys: Seq<int>, i: int)
    requires
        order::ascending(keys),
        0 <= i < keys.len(),
    ensures
        row_of(keys, keys[i]) == Some(i),
{
    let j = choose|j: int| 0 <= j < keys.len() && keys[j] == keys[i];
    assert(keys.contains(keys[i]));
    assert(keys[j] == keys[i]);
    if i < j {
        assert(keys[i] < keys[j]);
    } else if j < i {
        assert(keys[j] < keys[i]);
    }
}

/// What lies between two neighbouring keys is no key.
pub(crate) proof fn lemma_no_row(keys: Seq<int>, i: int, key: int)
    requires
        order::ascending(keys),
        -1 <= i < keys.len(),
        0 <= i ==> keys[i] < key,
        i + 1 < keys.len() ==> key < keys[i + 1],
    ensures
        row_of(keys, key) is None,
{
    if keys.contains(key) {
        let j = choose|j: int| 0 <= j < keys.len() && keys[j] == key;
        assert(keys[j] == key);
        if j < i {
            assert(keys[j] < keys[i]);
        } else if j > i + 1 {
            assert(keys[i + 1] < keys[j]);
        }
    }
}

/// Binary search over ascending keys.
fn find_pair_row(t: &[(u32, u32)], key: u32) -> (r: Option<usize>)
    requires
        order::ascending(order::pair_keys(t@)),
    ensures
        match r {
            Some(i) => i < t@.len() && t@[i as int].0 == key && row_of(order::pair_keys(t@), key as int)
                == Some(i as int),
            None => row_of(order::pair_keys(t@), key as int) is None,
        },
{
    let ghost keys = order::pair_keys(t@);
    let mut lo: usize = 0;
    let mut hi: usize = t.len();
    while lo < hi
        invariant
            keys == order::pair_keys(t@),
            order::ascending(keys),
            lo <= hi <= t@.len() == keys.len(),
            forall|i: int| 0 <= i < lo ==> #[trigger] keys[i] < key,
            forall|i: int| hi <= i < t@.len() ==> key < #[trigger] keys[i],
        decreases hi - lo,
    {
        let mid: usize = lo + (hi - lo) / 2;
        let k: u32 = t[mid].0;
        assert(keys[mid as int] == k);
        if key < k {
            hi = mid;
        } else if k < key {
            lo = mid + 1;
        } else {
            proof {
                lemma_row_is(keys, mid as int);
            }
            return Some(mid);
        }
    }
    None
}

/// Binary search over ascending keys.
fn find_triple_row(t: &[(u32, u32, u32)], key: u32) -> (r: Option<usize>)
    requires
        order::ascending(order::triple_keys(t@)),
    ensures
        match r {
            Some(i) => i < t@.len() && t@[i as int].0 == key && row_of(order::triple_keys(t@), key as int)
                == Some(i as int),
            None => row_of(order::triple_keys(t@), key as int) is None,
        },
{
    let ghost keys = order::triple_keys(t@);
    let mut lo: usize = 0;
    let mut hi: usize = t.len();
    while lo < hi
        invariant
            keys == order::triple_keys(t@),
            order::ascending(keys),
            lo <= hi <= t@.len() == keys.len(),
            forall|i: int| 0 <= i < lo ==> #[trigger] keys[i] < key,
            forall|i: int| hi <= i < t@.len() ==> key < #[trigger] keys[i],
        decreases hi - lo,
    {
        let mid: usize = lo + (hi - lo) / 2;
        let k: u32 = t[mid].0;
        assert(keys[mid as int] == k);
        if key < k {
            hi = mid;
        } else if k < key {
            lo = mid + 1;
        } else {
            proof {
                lemma_row_is(keys, mid as int);
            }
            return Some(mid);
        }
    }
    None
}

/// Binary search over ascending keys.
fn find_wide_row(t: &[(u64, u32)], key: u64) -> (r: Option<usize>)
    requires
        order::ascending(order::wide_keys(t@)),
    ensures
        match r {
            Some(i) => i < t@.len() && t@[i as int].0 == key && row_of(order::wide_keys(t@), key as int)
                == Some(i as int),
            None => row_of(order::wide_keys(t@), key as int) is None,
        },
{
    let ghost keys = order::wide_keys(t@);
    let mut lo: usize = 0;
    let mut hi: usize = t.len();
    while lo < hi
        invariant
            keys == order::wide_keys(t@),
            order::ascending(keys),
            lo <= hi <= t@.len() == keys.len(),
            forall|i: int| 0 <= i < lo ==> #[trigger] keys[i] < key,
            forall|i: int| hi <= i < t@.len() ==> key < #[trigger] keys[i],
        decreases hi - lo,
    {
        let mid: usize = lo + (hi - lo) / 2;
        let k: u64 = t[mid].0;
        assert(keys[mid as int] == k);
        if key < k {
            hi = mid;
        } else if k < key {
            lo = mid + 1;
        } else {
            proof {
                lemma_row_is(keys, mid as int);
            }
            return Some(mid);
        }
    }
    None
}

// ---------------------------------------------------------------------------
// combining classes
// ---------------------------------------------------------------------------
/// The canonical combining class of `c`, which is less than 256; 0 for a starter.
pub closed spec fn combining_class(c: char) -> nat {
    match row_of(order::pair_keys(classes::table()), c as int) {
        Some(i) => if classes::table()[i].1 < 256 {
            classes::table()[i].1 as nat
        } else {
            0
        },
        None => 0,
    }
}

/// The canonical combining class of `c`; 0 for a starter.
pub fn ccc(c: char) -> (r: u32)
    ensures
        r == combining_class(c),
        r < 256,
{
    proof {
        classes::lemma_order();
    }
    let t = classes::rows();
    match find_pair_row(t, c as u32) {
        Some(i) => if t[i].1 < 256 {
            t[i].1
        } else {
            0
        },
        None => 0,
    }
}

/// A combining class is less than 256.
pub proof fn lemma_combining_class_bound(c: char)
    ensures
        combining_class(c) < 256,
{
}

// ---------------------------------------------------------------------------
// decompositions
// ---------------------------------------------------------------------------
/// Whether a decomposition of `c` is listed.
pub closed spec fn listed(c: char) -> bool {
    row_of(order::pair_keys(singletons::table()), c as int) is Some || row_of(
        order::triple_keys(pairs::table()),
        c as int,
    ) is Some
}

/// Whether a decomposition of `c` is listed.
fn is_listed(c: char) -> (r: bool)
    ensures
        r == listed(c),
{
    proof {
        singletons::lemma_order();
        pairs::lemma_order();
    }
    find_pair_row(singletons::rows(), c as u32).is_some() || find_triple_row(
        pairs::rows(),
        c as u32,
    ).is_some()
}

/// A character that a row of the first table is for has a decomposition listed.
pub(crate) proof fn lemma_singleton_listed(c: char, i: int)
    requires
        0 <= i < singletons::table().len(),
        c as u32 == singletons::table()[i].0,
    ensures
        listed(c),
{
    singletons::lemma_order();
    lemma_row_is(order::pair_keys(singletons::table()), i);
}

/// A character that a row of the second table is for has a decomposition listed.
pub(crate) proof fn lemma_pair_listed(c: char, i: int)
    requires
        0 <= i < pairs::table().len(),
        c as u32 == pairs::table()[i].0,
    ensures
        listed(c),
{
    pairs::lemma_order();
    lemma_row_is(order::triple_keys(pairs::table()), i);
}

/// A character between rows of both tables has none.
pub(crate) proof fn lemma_not_listed(c: char, i: int, j: int)
    requires
        -1 <= i < singletons::table().len(),
        0 <= i ==> singletons::table()[i].0 < c as u32,
        i + 1 < singletons::table().len() ==> (c as u32) < singletons::table()[i + 1].0,
        -1 <= j < pairs::table().len(),
        0 <= j ==> pairs::table()[j].0 < c as u32,
        j + 1 < pairs::table().len() ==> (c as u32) < pairs::table()[j + 1].0,
    ensures
        !listed(c),
        singleton(c) is None,
        pair(c) is None,
{
    singletons::lemma_order();
    pairs::lemma_order();
    lemma_no_row(order::pair_keys(singletons::table()), i, c as int);
    lemma_no_row(order::triple_keys(pairs::table()), j, c as int);
}

/// A number for each character such that a decomposition leads to smaller ones: 0 where
/// none is listed, and otherwise in the order of code points, but for five characters that
/// smaller ones decompose to.
pub open spec fn depth_rank(c: char) -> nat {
    if !listed(c) {
        0
    } else if c == '\u{226}' || c == '\u{227}' || c == '\u{3ca}' || c == '\u{3cb}' || c == '\u{fb49}' {
        1
    } else {
        c as nat + 2
    }
}

fn rank(c: char) -> (r: u32)
    ensures
        r == depth_rank(c),
{
    if !is_listed(c) {
        0
    } else if c == '\u{226}' || c == '\u{227}' || c == '\u{3ca}' || c == '\u{3cb}' || c == '\u{fb49}' {
        1
    } else {
        c as u32 + 2
    }
}

/// What `c` decomposes to where that is one character: what is listed, a character of
/// smaller rank.
pub closed spec fn singleton(c: char) -> Option<char> {
    match row_of(order::pair_keys(singletons::table()), c as int) {
        Some(i) => {
            let d = singletons::table()[i].1;
            if text::scalar_value(d) && depth_rank(d as char) < depth_rank(c) {
                Some(d as char)
            } else {
                None
            }
        },
        None => None,
    }
}

/// What `c` decomposes to where that is two characters and `c` no Hangul syllable: what is
/// listed, characters of smaller rank.
pub closed spec fn pair(c: char) -> Option<(char, char)> {
    match row_of(order::triple_keys(pairs::table()), c as int) {
        Some(i) => {
            let a = pairs::table()[i].1;
            let b = pairs::table()[i].2;
            if text::scalar_value(a) && text::scalar_value(b) && depth_rank(a as char) < depth_rank(
                c,
            ) && depth_rank(b as char) < depth_rank(c) {
                Some((a as char, b as char))
            } else {
                None
            }
        },
        None => None,
    }
}

/// What `c` decomposes to where that is one character.
pub fn find_singleton(c: char) -> (r: Option<char>)
    ensures
        r == singleton(c),
{
    proof {
        singletons::lemma_order();
    }
    let t = singletons::rows();
    match find_pair_row(t, c as u32) {
        Some(i) => match char::from_u32(t[i].1) {
            Some(d) => if rank(d) < rank(c) {
                Some(d)
            } else {
                None
            },
            None => None,
        },
        None => None,
    }
}

/// What `c` decomposes to where that is two characters and `c` no Hangul syllable.
pub fn find_pair(c: char) -> (r: Option<(char, char)>)
    ensures
        r == pair(c),
{
    proof {
        pairs::lemma_order();
    }
    let t = pairs::rows();
    match find_triple_row(t, c as u32) {
        Some(i) => match (char::from_u32(t[i].1), char::from_u32(t[i].2)) {
            (Some(a), Some(b)) => if rank(a) < rank(c) && rank(b) < rank(c) {
                Some((a, b))
            } else {
                None
            },
            _ => None,
        },
        None => None,
    }
}

/// What a character decomposes to has a smaller rank.
pub proof fn lemma_decomposition_rank(c: char)
    ensures
        singleton(c) matches Some(d) ==> depth_rank(d) < depth_rank(c),
        pair(c) matches Some(d) ==> depth_rank(d.0) < depth_rank(c) && depth_rank(d.1)
            < depth_rank(c),
{
}

// ---------------------------------------------------------------------------
// compositions
// ---------------------------------------------------------------------------
/// The number under which a pair is listed.
spec fn pair_number(a: char, b: char) -> int {
    a as int * 0x20_0000 + b as int
}

/// Whether `c` is a Hangul syllable.
pub open spec fn hangul_syllable(c: char) -> bool {
    '\u{ac00}' <= c <= '\u{d7a3}'
}

/// What `a` and `b` compose to, Hangul aside: what is listed, a character that decomposes
/// to the two.
pub closed spec fn table_composition(a: char, b: char) -> Option<char> {
    match row_of(order::wide_keys(compositions::table()), pair_number(a, b)) {
        Some(i) => {
            let c = compositions::table()[i].1;
            if text::scalar_value(c) && !hangul_syllable(c as char) && pair(c as char) == Some(
                (a, b),
            ) {
                Some(c as char)
            } else {
                None
            }
        },
        None => None,
    }
}

/// What `a` and `b` compose to, Hangul aside.
pub fn find_composition(a: char, b: char) -> (r: Option<char>)
    ensures
        r == table_composition(a, b),
{
    let x: u64 = a as u64;
    let y: u64 = b as u64;
    let key: u64 = (x << 21) | y;
    proof {
        assert(key == x * 0x20_0000 + y) by (bit_vector)
            requires
                key == (x << 21) | y,
                x < 0x11_0000,
                y < 0x11_0000,
        ;
        compositions::lemma_order();
    }
    let t = compositions::rows();
    match find_wide_row(t, key) {
        Some(i) => match char::from_u32(t[i].1) {
            Some(c) => match find_pair(c) {
                Some((p, q)) => if p == a && q == b && !('\u{ac00}' <= c && c <= '\u{d7a3}') {
                    Some(c)
                } else {
                    None
                },
                None => None,
            },
            None => None,
        },
        None => None,
    }
}

/// A composition decomposes to what it was composed of, is no Hangul syllable, and ends
/// in no ASCII character.
pub proof fn lemma_composition_undone(a: char, b: char)
    ensures
        table_composition(a, b) matches Some(c) ==> pair(c) == Some((a, b)) && !hangul_syllable(c)
            && b >= '\u{80}',
{
    pairs::lemma_order();
    if let Some(c) = table_composition(a, b) {
        let keys = order::triple_keys(pairs::table());
        let i = row_of(keys, c as int)->0;
        assert(keys.contains(c as int));
        assert(keys[i] == c as int);
        assert(pairs::table()[i].2 >= 0x80);
    }
}

// ---------------------------------------------------------------------------
// what the tables leave out
// ---------------------------------------------------------------------------
/// Hangul jamo do not decompose, and are starters.
pub proof fn lemma_jamo(c: char)
    requires
        '\u{1100}' <= c <= '\u{11ff}',
    ensures
        singleton(c) is None,
        pair(c) is None,
        combining_class(c) == 0,
{
    singletons::lemma_order();
    pairs::lemma_order();
    classes::lemma_order();
    singletons::lemma_landmarks();
    pairs::lemma_landmarks();
    classes::lemma_landmarks();
    lemma_no_row(order::pair_keys(singletons::table()), 5, c as int);
    lemma_no_row(order::triple_keys(pairs::table()), 397, c as int);
    lemma_no_row(order::pair_keys(classes::table()), 404, c as int);
}

/// ASCII characters do not decompose, and are starters.
pub proof fn lemma_ascii(c: char)
    requires
        c < '\u{80}',
    ensures
        singleton(c) is None,
        pair(c) is None,
        combining_class(c) == 0,
{
    singletons::lemma_order();
    pairs::lemma_order();
    classes::lemma_order();
    singletons::lemma_landmarks();
    pairs::lemma_landmarks();
    classes::lemma_landmarks();
    lemma_no_row(order::pair_keys(singletons::table()), -1, c as int);
    lemma_no_row(order::triple_keys(pairs::table()), -1, c as int);
    lemma_no_row(order::pair_keys(classes::table()), -1, c as int);
}

} // verus!
