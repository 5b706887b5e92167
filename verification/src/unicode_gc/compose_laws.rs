//! Which characters compose, and which stay apart.
use super::laws;
use super::normal;
use crate::unicode_lookup;
use crate::unicode_lookup::table_laws;
use vstd::prelude::*;

verus! {

/// What two characters compose to is a starter.
proof fn lemma_compositions_are_starters(a: char, b: char)
    requires
        normal::composition(a, b) is Some,
    ensures
        unicode_lookup::combining_class(normal::composition(a, b)->0) == 0,
{
    let c = normal::composition(a, b)->0;
    if normal::hangul_composition(a, b) is Some {
        let x = a as int;
        let y = b as int;
        if 0x1100 <= x < 0x1113 && 0x1161 <= y < 0x1176 {
            let s = ((x - 0x1100) * 21 + (y - 0x1161)) * 28;
            assert(0 <= s < 11172);
            assert(c as int == 0xac00 + s);
        } else {
            let s = x - 0xac00;
            let t = y - 0x11a7;
            assert(s % 28 == 0 && 0 < t < 28 && s + t < 11172);
            assert(c as int == 0xac00 + s + t);
        }
        table_laws::syllables_are_starters(c);
    } else {
        table_laws::compositions_begin_with_a_starter(a, b);
        unicode_lookup::lemma_composition_undone(a, b);
        if unicode_lookup::combining_class(c) != 0 {
            table_laws::marks_keep_their_class(c);
        }
    }
}

/// The last starter of a composition under way, and the class that stands behind it.
proof fn lemma_last_starter(x: Seq<char>)
    requires
        x.len() > 0,
        laws::all_plain(x),
        laws::in_order(x),
    ensures
        ({
            let s = normal::composing(x);
            &&& laws::on_track(x, s)
            &&& s.starter > 0 ==> unicode_lookup::combining_class(s.out[s.starter]) == 0
            &&& s.starter + 1 < s.out.len() ==> s.last == unicode_lookup::combining_class(
                s.out[s.out.len() - 1],
            )
            &&& s.starter + 1 == s.out.len() ==> s.last == if unicode_lookup::combining_class(
                s.out[s.starter],
            ) == 0 {
                0nat
            } else {
                256nat
            }
        }),
    decreases x.len(),
{
    laws::lemma_on_track(x);
    if x.len() > 1 {
        let t = x.drop_last();
        let c = x.last();
        assert(laws::all_plain(t));
        assert(laws::in_order(t)) by {
            assert forall|i: int| 0 <= i < t.len() - 1 implies !(0 < #[trigger] unicode_lookup::combining_class(
                t[i + 1],
            ) < unicode_lookup::combining_class(t[i])) by {
                assert(t[i + 1] == x[i + 1] && t[i] == x[i]);
                assert(!(0 < unicode_lookup::combining_class(x[i + 1])
                    < unicode_lookup::combining_class(x[i])));
            }
        }
        lemma_last_starter(t);
        let s = normal::composing(t);
        unicode_lookup::lemma_combining_class_bound(c);
        let class = unicode_lookup::combining_class(c);
        if (s.last < class || s.last == 0) && normal::composition(
            s.out[s.starter],
            c,
        ) is Some {
            lemma_compositions_are_starters(s.out[s.starter], c);
        }
    }
}

/// **A character joins the last starter where nothing blocks it.** `x` is decomposed and in order,
/// `out` is what it composes to, and `p` is where its last starter stands. A character that
/// composes with that starter does so across marks of lower classes; one that does not compose,
/// or that a mark of its own or a higher class stands before, stays behind.
pub proof fn a_mark_joins_where_nothing_blocks_it(x: Seq<char>, c: char, p: int)
    requires
        x.len() > 0,
        laws::all_plain(x.push(c)),
        laws::in_order(x.push(c)),
        ({
            let out = normal::composed(x);
            &&& 0 <= p < out.len()
            &&& unicode_lookup::combining_class(out[p]) == 0
            &&& forall|j: int|
                p < j < out.len() ==> unicode_lookup::combining_class(#[trigger] out[j]) > 0
        }),
    ensures
        ({
            let out = normal::composed(x);
            let class = unicode_lookup::combining_class(c);
            let joined = normal::composition(out[p], c);
            let blocked = exists|j: int|
                p < j < out.len() && unicode_lookup::combining_class(#[trigger] out[j]) >= class;
            normal::composed(x.push(c)) == if joined is Some && !blocked {
                out.update(p, joined->0)
            } else {
                out.push(c)
            }
        }),
{
    let out = normal::composed(x);
    let s = normal::composing(x);
    let y = x.push(c);
    let n = out.len() as int;
    assert(y.drop_last() =~= x);
    assert forall|i: int| 0 <= i < x.len() implies laws::plain(#[trigger] x[i]) by {
        assert(laws::plain(y[i]));
    }
    assert(laws::in_order(x)) by {
        assert forall|i: int| 0 <= i < x.len() - 1 implies !(0 < #[trigger] unicode_lookup::combining_class(
            x[i + 1],
        ) < unicode_lookup::combining_class(x[i])) by {
            assert(x[i + 1] == y[i + 1] && x[i] == y[i]);
            assert(!(0 < unicode_lookup::combining_class(y[i + 1])
                < unicode_lookup::combining_class(y[i])));
        }
    }
    lemma_last_starter(x);
    assert(p == s.starter) by {
        if p < s.starter {
            assert(unicode_lookup::combining_class(out[s.starter]) > 0);
        } else if p > s.starter {
            assert(0 < unicode_lookup::combining_class(out[p]));
        }
    }
    let class = unicode_lookup::combining_class(c);
    if exists|j: int|
        p < j < n && unicode_lookup::combining_class(#[trigger] out[j]) >= class {
        let j = choose|j: int|
            p < j < n && unicode_lookup::combining_class(#[trigger] out[j]) >= class;
        assert(0 < unicode_lookup::combining_class(out[j]) <= s.last);
    } else if p + 1 < n {
        assert(unicode_lookup::combining_class(out[n - 1]) < class);
    }
}

/// **The first character stands alone**, and of nothing there is nothing.
pub proof fn the_first_character_stands_alone(c: char)
    ensures
        normal::composed(seq![c]) == seq![c],
        normal::composed(seq![]) == Seq::<char>::empty(),
{
}

} // verus!
