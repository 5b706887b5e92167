//! What the tables say of a character.
use crate::text;
use crate::unicode_lookup;
use crate::unicode_tables::classes;
use crate::unicode_tables::compositions;
use crate::unicode_tables::letters;
use crate::unicode_tables::marks;
use crate::unicode_tables::numbers;
use crate::unicode_tables::order;
use crate::unicode_tables::pairs;
use crate::unicode_tables::singletons;
use crate::unicode_tables::{
    CCC, COMPOSE, DECOMPOSE_1, DECOMPOSE_2, LETTER_RANGES, MARK_RANGES, NUMBER_RANGES,
};
use vstd::prelude::*;

verus! {

// ---------------------------------------------------------------------------
// categories
// ---------------------------------------------------------------------------
/// The letters are what [`LETTER_RANGES`] lists.
pub proof fn letters_are_listed(c: char)
    ensures
        unicode_lookup::letter(c) <==> unicode_lookup::in_table(LETTER_RANGES@, c as u32),
{
    letters::table_holds_the_rows();
}

/// The marks are what [`MARK_RANGES`] lists.
pub proof fn marks_are_listed(c: char)
    ensures
        unicode_lookup::mark(c) <==> unicode_lookup::in_table(MARK_RANGES@, c as u32),
{
    marks::table_holds_the_rows();
}

/// The numbers are what [`NUMBER_RANGES`] lists.
pub proof fn numbers_are_listed(c: char)
    ensures
        unicode_lookup::number(c) <==> unicode_lookup::in_table(NUMBER_RANGES@, c as u32),
{
    numbers::table_holds_the_rows();
}

/// What lies between two neighbouring ranges of letters is no letter.
pub proof fn no_letter_between(c: char, i: int)
    requires
        -1 <= i < LETTER_RANGES@.len(),
        0 <= i ==> LETTER_RANGES@[i].1 < c as u32,
        i + 1 < LETTER_RANGES@.len() ==> (c as u32) < LETTER_RANGES@[i + 1].0,
    ensures
        !unicode_lookup::letter(c),
{
    letters::table_holds_the_rows();
    lemma_letters_sorted();
    lemma_between(letters::table(), c as u32, i);
}

/// What lies between two neighbouring ranges of marks is no mark.
pub proof fn no_mark_between(c: char, i: int)
    requires
        -1 <= i < MARK_RANGES@.len(),
        0 <= i ==> MARK_RANGES@[i].1 < c as u32,
        i + 1 < MARK_RANGES@.len() ==> (c as u32) < MARK_RANGES@[i + 1].0,
    ensures
        !unicode_lookup::mark(c),
{
    marks::table_holds_the_rows();
    lemma_marks_sorted();
    lemma_between(marks::table(), c as u32, i);
}

/// What lies between two neighbouring ranges of numbers is no number.
pub proof fn no_number_between(c: char, i: int)
    requires
        -1 <= i < NUMBER_RANGES@.len(),
        0 <= i ==> NUMBER_RANGES@[i].1 < c as u32,
        i + 1 < NUMBER_RANGES@.len() ==> (c as u32) < NUMBER_RANGES@[i + 1].0,
    ensures
        !unicode_lookup::number(c),
{
    numbers::table_holds_the_rows();
    lemma_numbers_sorted();
    lemma_between(numbers::table(), c as u32, i);
}

/// Whether ranges are ascending and disjoint.
#[verifier::opaque]
spec fn sorted(t: Seq<(u32, u32)>) -> bool {
    order::sorted_ranges(t)
}

proof fn lemma_letters_sorted()
    ensures
        sorted(letters::table()),
{
    reveal(sorted);
    letters::lemma_order();
}

proof fn lemma_marks_sorted()
    ensures
        sorted(marks::table()),
{
    reveal(sorted);
    marks::lemma_order();
}

proof fn lemma_numbers_sorted()
    ensures
        sorted(numbers::table()),
{
    reveal(sorted);
    numbers::lemma_order();
}

proof fn lemma_between(t: Seq<(u32, u32)>, c: u32, i: int)
    requires
        sorted(t),
        -1 <= i < t.len(),
        0 <= i ==> t[i].1 < c,
        i + 1 < t.len() ==> c < t[i + 1].0,
    ensures
        !unicode_lookup::in_table(t, c),
{
    reveal(sorted);
    assert forall|j: int| 0 <= j < t.len() implies !((#[trigger] t[j]).0 <= c <= t[j].1) by {
        if j < i {
            assert(t[j].1 < t[i].0);
        } else if j > i + 1 {
            assert(t[i + 1].1 < t[j].0);
        }
    }
}

// ---------------------------------------------------------------------------
// classes
// ---------------------------------------------------------------------------
/// The class of a character that [`CCC`] lists.
pub proof fn class_of_a_row(c: char, i: int)
    requires
        0 <= i < CCC@.len(),
        c as u32 == CCC@[i].0,
        CCC@[i].1 < 256,
    ensures
        unicode_lookup::combining_class(c) == CCC@[i].1,
{
    classes::table_holds_the_rows();
    lemma_class_of_a_row(c, i);
}

pub(crate) proof fn lemma_class_of_a_row(c: char, i: int)
    requires
        0 <= i < classes::table().len(),
        c as u32 == classes::table()[i].0,
        classes::table()[i].1 < 256,
    ensures
        unicode_lookup::combining_class(c) == classes::table()[i].1,
{
    classes::lemma_order();
    unicode_lookup::lemma_row_is(order::pair_keys(classes::table()), i);
}

/// What lies between two neighbouring rows of [`CCC`] is a starter.
pub proof fn starter_between(c: char, i: int)
    requires
        -1 <= i < CCC@.len(),
        0 <= i ==> CCC@[i].0 < c as u32,
        i + 1 < CCC@.len() ==> (c as u32) < CCC@[i + 1].0,
    ensures
        unicode_lookup::combining_class(c) == 0,
{
    classes::table_holds_the_rows();
    lemma_starter_between(c, i);
}

pub(crate) proof fn lemma_starter_between(c: char, i: int)
    requires
        -1 <= i < classes::table().len(),
        0 <= i ==> classes::table()[i].0 < c as u32,
        i + 1 < classes::table().len() ==> (c as u32) < classes::table()[i + 1].0,
    ensures
        unicode_lookup::combining_class(c) == 0,
{
    classes::lemma_order();
    unicode_lookup::lemma_no_row(order::pair_keys(classes::table()), i, c as int);
}

// ---------------------------------------------------------------------------
// decompositions and compositions
// ---------------------------------------------------------------------------
/// A decomposition of a character that [`DECOMPOSE_1`] lists is listed.
pub proof fn singletons_are_listed(c: char, i: int)
    requires
        0 <= i < DECOMPOSE_1@.len(),
        c as u32 == DECOMPOSE_1@[i].0,
    ensures
        unicode_lookup::listed(c),
{
    singletons::table_holds_the_rows();
    unicode_lookup::lemma_singleton_listed(c, i);
}

/// A decomposition of a character that [`DECOMPOSE_2`] lists is listed.
pub proof fn pairs_are_listed(c: char, i: int)
    requires
        0 <= i < DECOMPOSE_2@.len(),
        c as u32 == DECOMPOSE_2@[i].0,
    ensures
        unicode_lookup::listed(c),
{
    pairs::table_holds_the_rows();
    unicode_lookup::lemma_pair_listed(c, i);
}

/// What lies between two neighbouring rows of [`DECOMPOSE_1`] and between two of
/// [`DECOMPOSE_2`] has no decomposition, and rank 0.
pub proof fn nothing_listed_between(c: char, i: int, j: int)
    requires
        -1 <= i < DECOMPOSE_1@.len(),
        0 <= i ==> DECOMPOSE_1@[i].0 < c as u32,
        i + 1 < DECOMPOSE_1@.len() ==> (c as u32) < DECOMPOSE_1@[i + 1].0,
        -1 <= j < DECOMPOSE_2@.len(),
        0 <= j ==> DECOMPOSE_2@[j].0 < c as u32,
        j + 1 < DECOMPOSE_2@.len() ==> (c as u32) < DECOMPOSE_2@[j + 1].0,
    ensures
        !unicode_lookup::listed(c),
        unicode_lookup::depth_rank(c) == 0,
        unicode_lookup::singleton(c) is None,
        unicode_lookup::pair(c) is None,
{
    singletons::table_holds_the_rows();
    pairs::table_holds_the_rows();
    unicode_lookup::lemma_not_listed(c, i, j);
}

/// What a character that [`DECOMPOSE_1`] lists decomposes to. That it leads to a smaller rank is
/// seen from [`singletons_are_listed`], [`pairs_are_listed`] and [`nothing_listed_between`].
pub proof fn singleton_of_a_row(c: char, i: int)
    requires
        0 <= i < DECOMPOSE_1@.len(),
        c as u32 == DECOMPOSE_1@[i].0,
        text::scalar_value(DECOMPOSE_1@[i].1),
        unicode_lookup::depth_rank(DECOMPOSE_1@[i].1 as char) < unicode_lookup::depth_rank(c),
    ensures
        unicode_lookup::singleton(c) == Some(DECOMPOSE_1@[i].1 as char),
{
    singletons::table_holds_the_rows();
    lemma_singleton_of_a_row(c, i);
}

proof fn lemma_singleton_of_a_row(c: char, i: int)
    requires
        0 <= i < singletons::table().len(),
        c as u32 == singletons::table()[i].0,
        text::scalar_value(singletons::table()[i].1),
        unicode_lookup::depth_rank(singletons::table()[i].1 as char) < unicode_lookup::depth_rank(
            c,
        ),
    ensures
        unicode_lookup::singleton(c) == Some(singletons::table()[i].1 as char),
{
    singletons::lemma_order();
    unicode_lookup::lemma_row_is(order::pair_keys(singletons::table()), i);
}

/// What a character that [`DECOMPOSE_2`] lists decomposes to. That it leads to a smaller rank is
/// seen from [`singletons_are_listed`], [`pairs_are_listed`] and [`nothing_listed_between`].
pub proof fn pair_of_a_row(c: char, i: int)
    requires
        0 <= i < DECOMPOSE_2@.len(),
        c as u32 == DECOMPOSE_2@[i].0,
        text::scalar_value(DECOMPOSE_2@[i].1),
        text::scalar_value(DECOMPOSE_2@[i].2),
        unicode_lookup::depth_rank(DECOMPOSE_2@[i].1 as char) < unicode_lookup::depth_rank(c),
        unicode_lookup::depth_rank(DECOMPOSE_2@[i].2 as char) < unicode_lookup::depth_rank(c),
    ensures
        unicode_lookup::pair(c) == Some((DECOMPOSE_2@[i].1 as char, DECOMPOSE_2@[i].2 as char)),
{
    pairs::table_holds_the_rows();
    lemma_pair_of_a_row(c, i);
}

proof fn lemma_pair_of_a_row(c: char, i: int)
    requires
        0 <= i < pairs::table().len(),
        c as u32 == pairs::table()[i].0,
        text::scalar_value(pairs::table()[i].1),
        text::scalar_value(pairs::table()[i].2),
        unicode_lookup::depth_rank(pairs::table()[i].1 as char) < unicode_lookup::depth_rank(c),
        unicode_lookup::depth_rank(pairs::table()[i].2 as char) < unicode_lookup::depth_rank(c),
    ensures
        unicode_lookup::pair(c) == Some((pairs::table()[i].1 as char, pairs::table()[i].2 as char)),
{
    pairs::lemma_order();
    unicode_lookup::lemma_row_is(order::triple_keys(pairs::table()), i);
}

/// What two characters that [`COMPOSE`] lists compose to: the two that it decomposes to.
pub proof fn composition_of_a_row(a: char, b: char, i: int)
    requires
        0 <= i < COMPOSE@.len(),
        COMPOSE@[i].0 == a as int * 0x20_0000 + b as int,
        text::scalar_value(COMPOSE@[i].1),
        !unicode_lookup::hangul_syllable(COMPOSE@[i].1 as char),
        unicode_lookup::pair(COMPOSE@[i].1 as char) == Some((a, b)),
    ensures
        unicode_lookup::table_composition(a, b) == Some(COMPOSE@[i].1 as char),
{
    compositions::table_holds_the_rows();
    lemma_composition_of_a_row(a, b, i);
}

proof fn lemma_composition_of_a_row(a: char, b: char, i: int)
    requires
        0 <= i < compositions::table().len(),
        compositions::table()[i].0 == a as int * 0x20_0000 + b as int,
        text::scalar_value(compositions::table()[i].1),
        !unicode_lookup::hangul_syllable(compositions::table()[i].1 as char),
        unicode_lookup::pair(compositions::table()[i].1 as char) == Some((a, b)),
    ensures
        unicode_lookup::table_composition(a, b) == Some(compositions::table()[i].1 as char),
{
    compositions::lemma_order();
    unicode_lookup::lemma_row_is(order::wide_keys(compositions::table()), i);
}

} // verus!
