//! How the tables go together.
use super::laws;
use crate::unicode_lookup;
use crate::unicode_tables::apart;
use crate::unicode_tables::classes;
use crate::unicode_tables::compositions;
use crate::unicode_tables::letters;
use crate::unicode_tables::marks;
use crate::unicode_tables::numbers;
use crate::unicode_tables::order;
use crate::unicode_tables::pairs;
use crate::unicode_tables::singletons;
use vstd::prelude::*;

verus! {

// ---------------------------------------------------------------------------
// categories
// ---------------------------------------------------------------------------
proof fn lemma_apart(s: Seq<(u32, u32)>, t: Seq<(u32, u32)>, c: u32)
    requires
        apart::ranges_apart(s, t, s.len() as int),
    ensures
        !(unicode_lookup::in_table(s, c) && unicode_lookup::in_table(t, c)),
{
    reveal(apart::ranges_apart);
}

/// A character is in one category at most: no character is two of a letter, a mark and a
/// number.
pub proof fn categories_do_not_overlap(c: char)
    ensures
        !(unicode_lookup::letter(c) && unicode_lookup::mark(c)),
        !(unicode_lookup::letter(c) && unicode_lookup::number(c)),
        !(unicode_lookup::mark(c) && unicode_lookup::number(c)),
{
    apart::categories::marks_are_no_letters();
    apart::categories::numbers_are_no_letters();
    apart::categories::numbers_are_no_marks();
    lemma_apart(marks::table(), letters::table(), c as u32);
    lemma_apart(numbers::table(), letters::table(), c as u32);
    lemma_apart(numbers::table(), marks::table(), c as u32);
}

// ---------------------------------------------------------------------------
// marks
// ---------------------------------------------------------------------------
proof fn lemma_listed_mark(c: char) -> (i: int)
    requires
        unicode_lookup::combining_class(c) != 0,
    ensures
        0 <= i < classes::table().len(),
        order::pair_keys(classes::table())[i] == c as int,
{
    let keys = order::pair_keys(classes::table());
    let i = unicode_lookup::row_of(keys, c as int)->0;
    assert(keys.contains(c as int));
    i
}

/// What is no starter and no tone mark does not decompose.
proof fn lemma_plain_mark(c: char)
    requires
        unicode_lookup::combining_class(c) != 0,
        !apart::tone_mark(c as int),
    ensures
        unicode_lookup::pair(c) is None,
        unicode_lookup::singleton(c) is None,
{
    let i = lemma_listed_mark(c);
    apart::pairs::marks_are_no_pairs();
    apart::singletons::marks_are_no_singletons();
    reveal(apart::keys_apart);
}

proof fn lemma_tone_mark_class(c: char)
    requires
        apart::tone_mark(c as int) || c == '\u{300}' || c == '\u{301}' || c == '\u{308}' || c
            == '\u{313}',
    ensures
        unicode_lookup::combining_class(c) == 230,
{
    classes::lemma_tone_marks();
    if c == '\u{300}' {
        laws::lemma_class_of_a_row(c, 0);
    } else if c == '\u{301}' {
        laws::lemma_class_of_a_row(c, 1);
    } else if c == '\u{308}' {
        laws::lemma_class_of_a_row(c, 8);
    } else if c == '\u{313}' {
        laws::lemma_class_of_a_row(c, 19);
    } else {
        laws::lemma_class_of_a_row(c, 64 + (c as int - 0x340));
    }
}

/// A character that is no starter decomposes to characters of its own class, which do not
/// decompose any further.
pub proof fn marks_keep_their_class(c: char)
    requires
        unicode_lookup::combining_class(c) != 0,
    ensures
        !unicode_lookup::hangul_syllable(c),
        unicode_lookup::pair(c) matches Some((x, y)) ==> {
            &&& unicode_lookup::combining_class(x) == unicode_lookup::combining_class(c)
            &&& unicode_lookup::combining_class(y) == unicode_lookup::combining_class(c)
            &&& unicode_lookup::pair(x) is None && unicode_lookup::singleton(x) is None
            &&& unicode_lookup::pair(y) is None && unicode_lookup::singleton(y) is None
        },
        unicode_lookup::singleton(c) matches Some(x) ==> {
            &&& unicode_lookup::combining_class(x) == unicode_lookup::combining_class(c)
            &&& unicode_lookup::pair(x) is None && unicode_lookup::singleton(x) is None
        },
{
    let i = lemma_listed_mark(c);
    classes::lemma_tone_marks();
    if unicode_lookup::hangul_syllable(c) {
        classes::lemma_order();
        unicode_lookup::lemma_no_row(order::pair_keys(classes::table()), 689, c as int);
    }
    if !apart::tone_mark(c as int) {
        lemma_plain_mark(c);
    } else {
        lemma_tone_mark_class(c);
        if let Some((x, y)) = unicode_lookup::pair(c) {
            pairs::lemma_order();
            pairs::lemma_tone_marks();
            let keys = order::triple_keys(pairs::table());
            let r = unicode_lookup::row_of(keys, c as int)->0;
            assert(keys.contains(c as int));
            assert(keys[r] == c as int);
            assert(r == 252) by {
                if r < 251 {
                    assert(keys[r] < keys[251]);
                } else if r > 253 {
                    assert(keys[253] < keys[r]);
                }
            }
            assert(x == '\u{308}' && y == '\u{301}');
            lemma_tone_mark_class(x);
            lemma_tone_mark_class(y);
            lemma_plain_mark(x);
            lemma_plain_mark(y);
        }
        if let Some(x) = unicode_lookup::singleton(c) {
            singletons::lemma_order();
            singletons::lemma_tone_marks();
            let keys = order::pair_keys(singletons::table());
            let r = unicode_lookup::row_of(keys, c as int)->0;
            assert(keys.contains(c as int));
            assert(keys[r] == c as int);
            assert(r < 3) by {
                if r > 3 {
                    assert(keys[3] < keys[r]);
                }
            }
            assert(x == '\u{300}' || x == '\u{301}' || x == '\u{313}');
            lemma_tone_mark_class(x);
            lemma_plain_mark(x);
        }
    }
}

/// What composes with something that follows it is a starter.
pub proof fn compositions_begin_with_a_starter(a: char, b: char)
    requires
        unicode_lookup::table_composition(a, b) is Some,
    ensures
        unicode_lookup::combining_class(a) == 0,
{
    if unicode_lookup::combining_class(a) != 0 {
        let j = lemma_listed_mark(a);
        let keys = order::wide_keys(compositions::table());
        let key = a as int * 0x20_0000 + b as int;
        let i = unicode_lookup::row_of(keys, key)->0;
        assert(keys.contains(key));
        assert(keys[i] == key);
        apart::compositions::compositions_begin_with_starters();
        reveal(apart::firsts_apart);
        assert(compositions::table()[i].0 as int / 0x20_0000 != classes::table()[j].0);
    }
}

/// A Hangul syllable is a starter.
pub proof fn syllables_are_starters(c: char)
    requires
        unicode_lookup::hangul_syllable(c),
    ensures
        unicode_lookup::combining_class(c) == 0,
{
    classes::lemma_tone_marks();
    laws::lemma_starter_between(c, 689);
}

} // verus!
