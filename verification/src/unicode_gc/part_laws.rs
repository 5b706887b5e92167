//! Parts of a text in normal form are in normal form.
use super::laws;
use super::normal;
use super::normal::Composing;
use crate::unicode_lookup;
use vstd::prelude::*;

verus! {

/// What composes with something that follows it is a starter.
proof fn lemma_begins_with_a_starter(a: char, b: char)
    requires
        normal::composition(a, b) is Some,
    ensures
        laws::cc(a) == 0,
{
    if normal::hangul_composition(a, b) is Some {
        if unicode_lookup::hangul_syllable(a) {
            unicode_lookup::table_laws::syllables_are_starters(a);
        } else {
            unicode_lookup::lemma_jamo(a);
        }
    } else {
        unicode_lookup::table_laws::compositions_begin_with_a_starter(a, b);
    }
}

/// Whether a text can be composed: nothing in it decomposes, and it is in canonical order.
spec fn composes(x: Seq<char>) -> bool {
    x.len() > 0 && laws::all_plain(x) && laws::in_order(x)
}

proof fn lemma_composes_shorter(x: Seq<char>)
    requires
        composes(x),
        x.len() > 1,
    ensures
        composes(x.drop_last()),
{
    let t = x.drop_last();
    assert forall|i: int| 0 <= i < t.len() - 1 implies !(0
        < #[trigger] unicode_lookup::combining_class(t[i + 1]) < laws::cc(t[i])) by {
        assert(t[i + 1] == x[i + 1] && t[i] == x[i]);
        assert(!(0 < unicode_lookup::combining_class(x[i + 1]) < laws::cc(x[i])));
    }
    assert forall|i: int| 0 <= i < t.len() implies laws::plain(#[trigger] t[i]) by {
        assert(t[i] == x[i]);
    }
}

proof fn lemma_composes_longer(x: Seq<char>, c: char)
    requires
        composes(x),
        laws::plain(c),
        !(0 < laws::cc(c) < laws::cc(x.last())),
    ensures
        composes(x.push(c)),
{
    let t = x.push(c);
    assert forall|i: int| 0 <= i < t.len() - 1 implies !(0
        < #[trigger] unicode_lookup::combining_class(t[i + 1]) < laws::cc(t[i])) by {
        if i + 1 < x.len() {
            assert(t[i + 1] == x[i + 1] && t[i] == x[i]);
            assert(!(0 < unicode_lookup::combining_class(x[i + 1]) < laws::cc(x[i])));
        }
    }
}

/// One more character: what it does to a composition.
proof fn lemma_next(x: Seq<char>)
    requires
        composes(x),
        x.len() > 1,
    ensures
        normal::composing(x) == normal::compose_next(normal::composing(x.drop_last()), x.last()),
        laws::plain(x.last()),
        !(0 < laws::cc(x.last()) < laws::cc(x.drop_last().last())),
        laws::on_track(x.drop_last(), normal::composing(x.drop_last())),
{
    lemma_composes_shorter(x);
    laws::lemma_on_track(x.drop_last());
    let n = x.len() - 1;
    assert(laws::plain(x[n]));
    let k = n - 1;
    assert(!(0 < unicode_lookup::combining_class(x[k + 1]) < laws::cc(x[k])));
}

/// A composition that has seen one more character.
proof fn lemma_pushed(x: Seq<char>, c: char)
    requires
        x.len() > 0,
    ensures
        normal::composing(x.push(c)) == normal::compose_next(normal::composing(x), c),
{
    assert(x.push(c).drop_last() =~= x);
}

/// A composition behind a first character that is no starter has not got one.
spec fn starts_well(s: Composing) -> bool {
    s.last == 256 ==> laws::cc(s.out[s.starter]) != 0
}

proof fn lemma_starts_well(x: Seq<char>)
    requires
        composes(x),
    ensures
        starts_well(normal::composing(x)),
    decreases x.len(),
{
    if x.len() > 1 {
        lemma_composes_shorter(x);
        lemma_starts_well(x.drop_last());
        lemma_next(x);
        let s = normal::composing(x.drop_last());
        unicode_lookup::lemma_combining_class_bound(x.last());
        if s.last == 256 {
            assert(!(s.last < laws::cc(x.last())));
        }
    }
}

// ---------------------------------------------------------------------------
// without the last character
// ---------------------------------------------------------------------------
/// Whether `y` composes to all that `x` composes to but the last character, and goes on alike
/// where that is no starter.
spec fn lacks_last(x: Seq<char>, y: Seq<char>) -> bool {
    let s = normal::composing(x);
    let r = normal::composing(y);
    &&& composes(y)
    &&& r.out == s.out.drop_last()
    &&& s.starter < s.out.len() - 1 ==> {
        &&& r.starter == s.starter
        &&& r.last <= s.last || r.last == 256
        &&& laws::cc(y.last()) <= laws::cc(x.last())
    }
}

proof fn lemma_without_last(x: Seq<char>) -> (y: Seq<char>)
    requires
        composes(x),
        normal::composing(x).out.len() > 1,
    ensures
        lacks_last(x, y),
    decreases x.len(),
{
    let t = x.drop_last();
    let e = x.last();
    lemma_composes_shorter(x);
    lemma_next(x);
    lemma_starts_well(t);
    let s = normal::composing(t);
    let class = laws::cc(e);
    unicode_lookup::lemma_combining_class_bound(e);
    let joined = if s.last < class || s.last == 0 {
        normal::composition(s.out[s.starter], e)
    } else {
        None
    };
    match joined {
        None => {
            assert(normal::composing(x).out =~= s.out.push(e));
            assert(normal::composing(x).out.drop_last() =~= s.out);
            t
        },
        Some(v) => {
            let y = lemma_without_last(t);
            let r = normal::composing(y);
            let now = normal::composing(x);
            assert(now.out =~= s.out.update(s.starter, v));
            if s.starter == s.out.len() - 1 {
                assert(now.out.drop_last() =~= s.out.drop_last());
                y
            } else {
                // The last character is no starter, and `e` joins in front of it.
                assert(s.last != 0);
                assert(0 < class);
                lemma_begins_with_a_starter(s.out[s.starter], e);
                lemma_starts_well(y);
                laws::lemma_on_track(y);
                assert(r.out[r.starter] == s.out[s.starter]);
                assert(r.last < class);
                lemma_composes_longer(y, e);
                lemma_pushed(y, e);
                let z = y.push(e);
                assert(normal::composing(z).out =~= r.out.update(r.starter, v));
                assert(now.out.drop_last() =~= r.out.update(r.starter, v));
                z
            }
        },
    }
}

// ---------------------------------------------------------------------------
// without the first character
// ---------------------------------------------------------------------------
/// Whether `y` composes to all that `x` composes to but the first character, and goes on
/// alike. Behind a first character that is the last starter there are only characters that
/// are none.
spec fn lacks_first(x: Seq<char>, y: Seq<char>) -> bool {
    let s = normal::composing(x);
    let r = normal::composing(y);
    &&& composes(y)
    &&& r.out == s.out.drop_first()
    &&& s.starter > 0 ==> r.starter == s.starter - 1 && r.last == s.last && laws::cc(y.last())
        == laws::cc(x.last())
    &&& s.starter == 0 ==> {
        &&& r.starter == 0
        &&& r.last != 0
        &&& s.last != 0
        &&& laws::cc(r.out[0]) != 0
        &&& laws::cc(y.last()) <= laws::cc(x.last())
    }
}

proof fn lemma_without_first(x: Seq<char>) -> (y: Seq<char>)
    requires
        composes(x),
        normal::composing(x).out.len() > 1,
    ensures
        lacks_first(x, y),
    decreases x.len(),
{
    let t = x.drop_last();
    let e = x.last();
    lemma_composes_shorter(x);
    lemma_next(x);
    let s = normal::composing(t);
    let now = normal::composing(x);
    let class = laws::cc(e);
    unicode_lookup::lemma_combining_class_bound(e);
    let joined = if s.last < class || s.last == 0 {
        normal::composition(s.out[s.starter], e)
    } else {
        None
    };
    if s.out.len() == 1 {
        // `e` is the second character.
        assert(joined is None);
        let y = seq![e];
        assert(composes(y));
        assert(now.out =~= s.out.push(e));
        assert(normal::composing(y).out =~= seq![e]);
        assert(now.out.drop_first() =~= seq![e]);
        y
    } else {
        let y = lemma_without_first(t);
        let r = normal::composing(y);
        laws::lemma_on_track(y);
        if s.starter == 0 && joined is Some {
            // `e` joins the first character.
            let v = joined->0;
            assert(now.out =~= s.out.update(0, v));
            assert(now.out.drop_first() =~= s.out.drop_first());
            assert(0 < class);
            y
        } else {
            lemma_composes_longer(y, e);
            lemma_pushed(y, e);
            let z = y.push(e);
            if s.starter == 0 {
                if r.last < class && normal::composition(r.out[0], e) is Some {
                    lemma_begins_with_a_starter(r.out[0], e);
                }
                assert(now.out =~= s.out.push(e));
                assert(normal::composing(z).out =~= r.out.push(e));
                assert(now.out.drop_first() =~= r.out.push(e));
            } else {
                assert(r.out[r.starter] == s.out[s.starter]);
                match joined {
                    Some(v) => {
                        assert(now.out =~= s.out.update(s.starter, v));
                        assert(now.out.drop_first() =~= r.out.update(r.starter, v));
                    },
                    None => {
                        assert(now.out =~= s.out.push(e));
                        assert(now.out.drop_first() =~= r.out.push(e));
                    },
                }
            }
            z
        }
    }
}

// ---------------------------------------------------------------------------
// laws
// ---------------------------------------------------------------------------
/// What is in normal form is what its ordered decomposition composes to.
proof fn lemma_normal(c: Seq<char>) -> (x: Seq<char>)
    requires
        c.len() > 0,
        normal::normal_form(c) == c,
    ensures
        composes(x),
        normal::composing(x).out == c,
{
    let d = normal::decomposed(c);
    laws::lemma_decomposed_plain(c);
    laws::lemma_ordered(d);
    let x = normal::ordered(d);
    if x.len() == 0 {
        assert(normal::normal_form(c).len() == 0);
    }
    x
}

/// What something composes to is in normal form.
proof fn lemma_composed_is_normal(x: Seq<char>)
    requires
        composes(x),
    ensures
        normal::normal_form(normal::composing(x).out) == normal::composing(x).out,
{
    laws::lemma_on_track(x);
}

/// A text in normal form stays so up to any place.
pub proof fn beginnings_of_normal_texts_are_normal(c: Seq<char>, n: int)
    requires
        normal::normal_form(c) == c,
        0 <= n <= c.len(),
    ensures
        normal::normal_form(c.take(n)) == c.take(n),
    decreases c.len(),
{
    if n == c.len() {
        assert(c.take(n) =~= c);
    } else if n == 0 {
        assert(c.take(0) =~= seq![]);
        assert(normal::decomposed(c.take(0)) =~= seq![]);
        assert(normal::ordered(normal::decomposed(c.take(0))) =~= seq![]);
        assert(normal::normal_form(c.take(0)) =~= c.take(0));
    } else {
        let x = lemma_normal(c);
        let y = lemma_without_last(x);
        lemma_composed_is_normal(y);
        let p = c.drop_last();
        beginnings_of_normal_texts_are_normal(p, n);
        assert(p.take(n) =~= c.take(n));
    }
}

/// A text in normal form stays so from any place on.
pub proof fn ends_of_normal_texts_are_normal(c: Seq<char>, n: int)
    requires
        normal::normal_form(c) == c,
        0 <= n <= c.len(),
    ensures
        normal::normal_form(c.skip(n)) == c.skip(n),
    decreases c.len(),
{
    if n == 0 {
        assert(c.skip(n) =~= c);
    } else if n == c.len() {
        assert(c.skip(n) =~= seq![]);
        assert(normal::decomposed(c.skip(n)) =~= seq![]);
        assert(normal::ordered(normal::decomposed(c.skip(n))) =~= seq![]);
        assert(normal::normal_form(c.skip(n)) =~= c.skip(n));
    } else {
        let x = lemma_normal(c);
        let y = lemma_without_first(x);
        lemma_composed_is_normal(y);
        let p = c.drop_first();
        ends_of_normal_texts_are_normal(p, n - 1);
        assert(p.skip(n - 1) =~= c.skip(n));
    }
}

} // verus!
