//! Facts about where texts stand in other texts, and about trimming them.
use crate::text;
use crate::text::Class;
use vstd::prelude::*;

verus! {

// ---------------------------------------------------------------------------
// finding
// ---------------------------------------------------------------------------
/// What stands somewhere is found.
pub proof fn lemma_has_text(whole: Seq<char>, part: Seq<char>, i: int)
    requires
        text::matches_at(whole, part, i),
    ensures
        text::has_text(whole, part),
{
    text::lemma_find_from(whole, part, 0);
}

/// The first place is the one that is found.
pub proof fn lemma_first_is(whole: Seq<char>, part: Seq<char>, i: int)
    requires
        text::matches_at(whole, part, i),
        forall|j: int| 0 <= j < i ==> !#[trigger] text::matches_at(whole, part, j),
    ensures
        text::find_from(whole, part, 0) == Some(i),
{
    text::lemma_find_from(whole, part, 0);
}

/// Where a part of a part stands in the whole.
pub proof fn lemma_nested(whole: Seq<char>, mid: Seq<char>, part: Seq<char>, i: int, j: int)
    requires
        text::matches_at(whole, mid, i),
        text::matches_at(mid, part, j),
    ensures
        text::matches_at(whole, part, i + j),
{
    assert(whole.subrange(i + j, i + j + part.len()) =~= mid.subrange(j, j + part.len()));
}

/// What does not stand in the whole does not stand in a part of it.
pub proof fn lemma_free_part(whole: Seq<char>, mid: Seq<char>, part: Seq<char>, i: int)
    requires
        text::matches_at(whole, mid, i),
        !text::has_text(whole, part),
    ensures
        !text::has_text(mid, part),
{
    if text::has_text(mid, part) {
        text::lemma_find_from(mid, part, 0);
        let j = text::find_from(mid, part, 0)->0;
        lemma_nested(whole, mid, part, i, j);
        lemma_has_text(whole, part, i + j);
    }
}

/// A text stands in a concatenation where it was put.
pub proof fn lemma_stands(a: Seq<char>, b: Seq<char>, c: Seq<char>)
    ensures
        text::matches_at(a + b + c, b, a.len() as int),
        text::matches_at(a + b, b, a.len() as int),
        text::matches_at(a + b, a, 0),
{
    assert((a + b + c).subrange(a.len() as int, (a.len() + b.len()) as int) =~= b);
    assert((a + b).subrange(a.len() as int, (a.len() + b.len()) as int) =~= b);
    assert((a + b).subrange(0, a.len() as int) =~= a);
}

/// What is found first stays first when the text goes on.
pub proof fn lemma_first_extends(a: Seq<char>, sep: Seq<char>, z: Seq<char>)
    requires
        text::find_from(a + sep, sep, 0) == Some(a.len() as int),
    ensures
        text::find_from(a + sep + z, sep, 0) == Some(a.len() as int),
        text::before_first(a + sep + z, sep) == a,
        text::after_first(a + sep + z, sep) == z,
        text::has_text(a + sep + z, sep),
{
    let whole = a + sep + z;
    let n = a.len() as int;
    lemma_stands(a, sep, z);
    text::lemma_find_from(a + sep, sep, 0);
    assert forall|j: int| 0 <= j < n implies !#[trigger] text::matches_at(whole, sep, j) by {
        if text::matches_at(whole, sep, j) {
            assert((a + sep).subrange(j, j + sep.len()) =~= whole.subrange(j, j + sep.len()));
            assert(text::matches_at(a + sep, sep, j));
        }
    }
    lemma_first_is(whole, sep, n);
    assert(whole.take(n) =~= a);
    assert(whole.skip(n + sep.len()) =~= z);
}

/// What stands before the first `sep`, followed by `sep`, has it first there too.
pub proof fn lemma_before_first(whole: Seq<char>, sep: Seq<char>)
    requires
        text::has_text(whole, sep),
    ensures
        ({
            let a = text::before_first(whole, sep);
            let z = text::after_first(whole, sep);
            &&& whole == a + sep + z
            &&& text::find_from(a + sep, sep, 0) == Some(a.len() as int)
            &&& text::matches_at(whole, a, 0)
            &&& text::matches_at(whole, a + sep, 0)
            &&& text::matches_at(whole, z, (a.len() + sep.len()) as int)
        }),
{
    text::lemma_find_from(whole, sep, 0);
    let i = text::find_from(whole, sep, 0)->0;
    let a = whole.take(i);
    let z = whole.skip(i + sep.len());
    assert(whole =~= a + sep + z) by {
        assert(whole.subrange(i, i + sep.len()) == sep);
    }
    lemma_stands(a, sep, seq![]);
    lemma_stands(a + sep, z, seq![]);
    assert(whole.subrange(0, a.len() as int) =~= a);
    assert(whole.subrange(0, (a + sep).len() as int) =~= a + sep);
    assert forall|j: int| 0 <= j < i implies !#[trigger] text::matches_at(a + sep, sep, j) by {
        if text::matches_at(a + sep, sep, j) {
            assert(whole.subrange(j, j + sep.len()) =~= (a + sep).subrange(j, j + sep.len()));
            assert(text::matches_at(whole, sep, j));
        }
    }
    lemma_first_is(a + sep, sep, i);
}

/// What stands before the first `sep` does not hold it.
pub proof fn lemma_before_first_free(whole: Seq<char>, sep: Seq<char>)
    requires
        sep.len() > 0,
    ensures
        !text::has_text(text::before_first(whole, sep), sep),
{
    text::lemma_find_from(whole, sep, 0);
    if text::has_text(whole, sep) {
        let a = text::before_first(whole, sep);
        lemma_before_first(whole, sep);
        if text::has_text(a, sep) {
            text::lemma_find_from(a, sep, 0);
            let j = text::find_from(a, sep, 0)->0;
            lemma_nested(whole, a, sep, 0, j);
        }
    }
}

pub proof fn lemma_find_back(whole: Seq<char>, part: Seq<char>, upto: int)
    ensures
        match text::find_back(whole, part, upto) {
            Some(i) => 0 <= i <= upto && text::matches_at(whole, part, i) && forall|j: int|
                i < j <= upto ==> !#[trigger] text::matches_at(whole, part, j),
            None => forall|j: int| j <= upto ==> !#[trigger] text::matches_at(whole, part, j),
        },
    decreases upto + 1,
{
    if upto >= 0 && !text::matches_at(whole, part, upto) {
        lemma_find_back(whole, part, upto - 1);
    }
}

/// What stands behind the last `sep` does not hold it.
pub proof fn lemma_after_last_free(whole: Seq<char>, sep: Seq<char>)
    requires
        sep.len() > 0,
    ensures
        !text::has_text(text::after_last(whole, sep), sep),
        exists|i: int| text::matches_at(whole, text::after_last(whole, sep), i),
{
    let n = whole.len() as int;
    lemma_find_back(whole, sep, n);
    let tail = text::after_last(whole, sep);
    let start = match text::find_back(whole, sep, n) {
        Some(i) => i + sep.len(),
        None => 0,
    };
    assert(tail =~= whole.skip(start));
    assert(whole.subrange(start, start + tail.len()) =~= tail);
    assert(text::matches_at(whole, tail, start));
    if text::has_text(tail, sep) {
        text::lemma_find_from(tail, sep, 0);
        let j = text::find_from(tail, sep, 0)->0;
        lemma_nested(whole, tail, sep, start, j);
    }
}

/// Whether `s` is one line.
pub open spec fn one_line(s: Seq<char>) -> bool {
    forall|i: int| 0 <= i < s.len() ==> #[trigger] s[i] != '\n'
}

/// What fits on a line does not run over a line break.
pub proof fn lemma_free_lines(a: Seq<char>, b: Seq<char>, part: Seq<char>)
    requires
        one_line(part),
        part.len() > 0,
        !text::has_text(a, part),
        !text::has_text(b, part),
    ensures
        !text::has_text(a + seq!['\n'] + b, part),
{
    let whole = a + seq!['\n'] + b;
    if text::has_text(whole, part) {
        text::lemma_find_from(whole, part, 0);
        let i = text::find_from(whole, part, 0)->0;
        let s = whole.subrange(i, i + part.len());
        let n = a.len() as int;
        if i + part.len() <= n {
            assert(a.subrange(i, i + part.len()) =~= part);
            lemma_has_text(a, part, i);
        } else if i > n {
            assert(b.subrange(i - n - 1, i - n - 1 + part.len()) =~= part);
            lemma_has_text(b, part, i - n - 1);
        } else {
            assert(s[n - i] == whole[n]);
            assert(part[n - i] == '\n');
        }
    }
}

/// A line does not begin before a line break.
pub proof fn lemma_first_on_line(a: Seq<char>, part: Seq<char>, z: Seq<char>)
    requires
        one_line(part),
        part.len() > 0,
        !text::has_text(a, part),
        a.len() > 0 ==> a.last() == '\n',
    ensures
        text::find_from(a + part + z, part, 0) == Some(a.len() as int),
        text::before_first(a + part + z, part) == a,
        text::after_first(a + part + z, part) == z,
        text::has_text(a + part + z, part),
{
    let n = a.len() as int;
    lemma_stands(a, part, seq![]);
    assert forall|j: int| 0 <= j < n implies !#[trigger] text::matches_at(a + part, part, j) by {
        if text::matches_at(a + part, part, j) {
            let s = (a + part).subrange(j, j + part.len());
            if j + part.len() <= n {
                assert(a.subrange(j, j + part.len()) =~= part);
                lemma_has_text(a, part, j);
            } else {
                assert(s[n - 1 - j] == a[n - 1]);
                assert(part[n - 1 - j] == '\n');
            }
        }
    }
    lemma_first_is(a + part, part, n);
    lemma_first_extends(a, part, z);
}

/// A short text does not hold a longer one.
pub proof fn lemma_free_short(whole: Seq<char>, part: Seq<char>)
    requires
        whole.len() < part.len(),
    ensures
        !text::has_text(whole, part),
{
    text::lemma_find_from(whole, part, 0);
}

// ---------------------------------------------------------------------------
// trimming
// ---------------------------------------------------------------------------
/// Whether `s` starts and ends outside the class.
pub open spec fn tight(s: Seq<char>, class: Class) -> bool {
    s.len() > 0 ==> !text::in_class(class, s[0]) && !text::in_class(class, s.last())
}

/// Whether `s` is made of the class.
pub open spec fn all_in(s: Seq<char>, class: Class) -> bool {
    forall|i: int| 0 <= i < s.len() ==> text::in_class(class, #[trigger] s[i])
}

/// A tight text keeps its ends.
pub proof fn lemma_trim_tight(s: Seq<char>, class: Class)
    requires
        tight(s, class),
    ensures
        text::trim(s, class) == s,
        text::trim_start(s, class) == s,
        text::trim_end(s, class) == s,
{
}

/// `trim_start` cuts off characters of the class, up to one outside it.
pub proof fn lemma_trim_start(s: Seq<char>, class: Class)
    ensures
        ({
            let t = text::trim_start(s, class);
            &&& t.len() <= s.len()
            &&& t == s.skip(s.len() - t.len())
            &&& all_in(s.take(s.len() - t.len()), class)
            &&& t.len() > 0 ==> !text::in_class(class, t[0])
        }),
    decreases s.len(),
{
    if s.len() > 0 && text::in_class(class, s[0]) {
        lemma_trim_start(s.skip(1), class);
        let t = text::trim_start(s, class);
        assert(s.skip(1).skip(s.len() - 1 - t.len()) =~= s.skip(s.len() - t.len()));
        assert forall|i: int| 0 <= i < s.len() - t.len() implies text::in_class(
            class,
            #[trigger] s.take(s.len() - t.len())[i],
        ) by {
            if i > 0 {
                assert(s.skip(1).take(s.len() - 1 - t.len())[i - 1] == s[i]);
            }
        }
    } else {
        assert(s.skip(0) =~= s);
    }
}

/// `trim_end` cuts off characters of the class, down to one outside it.
pub proof fn lemma_trim_end(s: Seq<char>, class: Class)
    ensures
        ({
            let t = text::trim_end(s, class);
            &&& t.len() <= s.len()
            &&& t == s.take(t.len() as int)
            &&& all_in(s.skip(t.len() as int), class)
            &&& t.len() > 0 ==> !text::in_class(class, t.last())
        }),
    decreases s.len(),
{
    if s.len() > 0 && text::in_class(class, s.last()) {
        lemma_trim_end(s.drop_last(), class);
        let t = text::trim_end(s, class);
        assert(s.drop_last().take(t.len() as int) =~= s.take(t.len() as int));
        assert forall|i: int| 0 <= i < s.len() - t.len() implies text::in_class(
            class,
            #[trigger] s.skip(t.len() as int)[i],
        ) by {
            if i < s.len() - 1 - t.len() {
                assert(s.drop_last().skip(t.len() as int)[i] == s[t.len() + i]);
            }
        }
    } else {
        assert(s.take(s.len() as int) =~= s);
    }
}

/// A text is what was trimmed off its ends and what is left.
pub proof fn lemma_trim_parts(s: Seq<char>, class: Class) -> (ends: (Seq<char>, Seq<char>))
    ensures
        s == ends.0 + text::trim(s, class) + ends.1,
        all_in(ends.0, class),
        all_in(ends.1, class),
        tight(text::trim(s, class), class),
{
    let a = text::trim_start(s, class);
    let t = text::trim(s, class);
    lemma_trim_start(s, class);
    lemma_trim_end(a, class);
    let x = s.take(s.len() - a.len());
    let y = a.skip(t.len() as int);
    assert(s =~= x + t + y);
    if t.len() > 0 {
        assert(t[0] == a[0]);
    }
    (x, y)
}

/// Trimming a tight text with characters of the class round it gives it back.
pub proof fn lemma_trim_is(x: Seq<char>, s: Seq<char>, y: Seq<char>, class: Class)
    requires
        all_in(x, class),
        all_in(y, class),
        tight(s, class),
    ensures
        text::trim(x + s + y, class) == s,
        s.len() > 0 ==> text::trim_start(x + s + y, class) == s + y,
        text::trim_end(s + y, class) == s,
    decreases x.len() + y.len(),
{
    let whole = x + s + y;
    if s.len() == 0 {
        assert(whole =~= x + y);
        assert(all_in(whole, class)) by {
            assert forall|i: int| 0 <= i < whole.len() implies text::in_class(
                class,
                #[trigger] whole[i],
            ) by {
                if i < x.len() {
                    assert(whole[i] == x[i]);
                } else {
                    assert(whole[i] == y[i - x.len()]);
                }
            }
        }
        lemma_trim_all(whole, class);
        assert(s + y =~= y);
        lemma_trim_all(y, class);
        assert(s =~= seq![]);
    } else if x.len() > 0 {
        assert(whole[0] == x[0]);
        assert(whole.skip(1) =~= x.skip(1) + s + y);
        assert(all_in(x.skip(1), class)) by {
            assert forall|i: int| 0 <= i < x.skip(1).len() implies text::in_class(
                class,
                #[trigger] x.skip(1)[i],
            ) by {
                assert(x.skip(1)[i] == x[i + 1]);
            }
        }
        lemma_trim_is(x.skip(1), s, y, class);
    } else {
        assert(whole =~= s + y);
        if y.len() > 0 {
            assert((s + y).drop_last() =~= s + y.drop_last());
            assert((s + y).last() == y.last());
            assert(text::in_class(class, y[y.len() - 1]));
            assert(all_in(y.drop_last(), class));
            lemma_trim_is(x, s, y.drop_last(), class);
        } else {
            assert(s + y =~= s);
        }
    }
}

/// Nothing is left of a text that is made of the class.
pub proof fn lemma_trim_all(s: Seq<char>, class: Class)
    requires
        all_in(s, class),
    ensures
        text::trim(s, class) == Seq::<char>::empty(),
        text::trim_start(s, class) == Seq::<char>::empty(),
        text::trim_end(s, class) == Seq::<char>::empty(),
    decreases s.len(),
{
    if s.len() > 0 {
        assert(text::in_class(class, s[0]));
        assert(text::in_class(class, s[s.len() - 1]));
        assert(all_in(s.skip(1), class)) by {
            assert forall|i: int| 0 <= i < s.skip(1).len() implies text::in_class(
                class,
                #[trigger] s.skip(1)[i],
            ) by {
                assert(s.skip(1)[i] == s[i + 1]);
            }
        }
        lemma_trim_all(s.skip(1), class);
        assert(all_in(s.drop_last(), class));
        lemma_trim_all(s.drop_last(), class);
    } else {
        assert(s =~= seq![]);
    }
}

/// Trimming twice trims once.
pub proof fn trim_is_idempotent(s: Seq<char>, class: Class)
    ensures
        text::trim(text::trim(s, class), class) == text::trim(s, class),
{
    let ends = lemma_trim_parts(s, class);
    lemma_trim_tight(text::trim(s, class), class);
}

} // verus!
