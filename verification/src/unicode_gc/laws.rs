//! What normalization keeps.
use super::normal;
use super::normal::Composing;
use crate::unicode_lookup;
use vstd::prelude::*;

verus! {

// ---------------------------------------------------------------------------
// decomposing
// ---------------------------------------------------------------------------
/// Whether `c` does not decompose.
pub open spec fn plain(c: char) -> bool {
    !unicode_lookup::hangul_syllable(c) && unicode_lookup::pair(c) is None
        && unicode_lookup::singleton(c) is None
}

/// Whether nothing in `s` decomposes.
pub open spec fn all_plain(s: Seq<char>) -> bool {
    forall|i: int| 0 <= i < s.len() ==> plain(#[trigger] s[i])
}

/// The jamo of a syllable do not decompose.
proof fn lemma_jamo_plain(c: char)
    requires
        unicode_lookup::hangul_syllable(c),
    ensures
        all_plain(normal::jamo(c)),
        normal::jamo(c).len() > 0,
{
    let j = normal::jamo(c);
    assert forall|i: int| 0 <= i < j.len() implies plain(#[trigger] j[i]) by {
        unicode_lookup::lemma_jamo(j[i]);
    }
}

/// A decomposition is full.
pub proof fn decomposition_is_full(c: char)
    ensures
        all_plain(normal::decomposition(c)),
        normal::decomposition(c).len() > 0,
    decreases unicode_lookup::depth_rank(c),
{
    unicode_lookup::lemma_decomposition_rank(c);
    if unicode_lookup::hangul_syllable(c) {
        lemma_jamo_plain(c);
    } else {
        match unicode_lookup::pair(c) {
            Some((a, b)) => {
                decomposition_is_full(a);
                decomposition_is_full(b);
                let x = normal::decomposition(a);
                let y = normal::decomposition(b);
                assert forall|i: int| 0 <= i < (x + y).len() implies plain(#[trigger] (x + y)[i]) by {
                    if i < x.len() {
                        assert((x + y)[i] == x[i]);
                    } else {
                        assert((x + y)[i] == y[i - x.len()]);
                    }
                }
            },
            None => match unicode_lookup::singleton(c) {
                Some(d) => {
                    decomposition_is_full(d);
                },
                None => {},
            },
        }
    }
}

pub proof fn lemma_decomposed_plain(s: Seq<char>)
    ensures
        all_plain(normal::decomposed(s)),
    decreases s.len(),
{
    if s.len() > 0 {
        lemma_decomposed_plain(s.drop_last());
        decomposition_is_full(s.last());
        let x = normal::decomposed(s.drop_last());
        let y = normal::decomposition(s.last());
        assert forall|i: int| 0 <= i < (x + y).len() implies plain(#[trigger] (x + y)[i]) by {
            if i < x.len() {
                assert((x + y)[i] == x[i]);
            } else {
                assert((x + y)[i] == y[i - x.len()]);
            }
        }
    }
}

/// What does not decompose is its own decomposition.
proof fn lemma_plain_decomposed(s: Seq<char>)
    requires
        all_plain(s),
    ensures
        normal::decomposed(s) == s,
    decreases s.len(),
{
    if s.len() > 0 {
        assert(all_plain(s.drop_last()));
        lemma_plain_decomposed(s.drop_last());
        assert(plain(s[s.len() - 1]));
        assert(s.drop_last() + seq![s.last()] =~= s);
    } else {
        assert(s =~= seq![]);
    }
}

proof fn lemma_decomposed_concat(a: Seq<char>, b: Seq<char>)
    ensures
        normal::decomposed(a + b) == normal::decomposed(a) + normal::decomposed(b),
    decreases b.len(),
{
    if b.len() == 0 {
        assert(a + b =~= a);
        assert(normal::decomposed(a) + normal::decomposed(b) =~= normal::decomposed(a));
    } else {
        assert((a + b).drop_last() =~= a + b.drop_last());
        lemma_decomposed_concat(a, b.drop_last());
        assert(normal::decomposed(a + b) =~= normal::decomposed(a) + normal::decomposed(b));
    }
}

// ---------------------------------------------------------------------------
// ordering
// ---------------------------------------------------------------------------
/// The combining class.
pub open spec fn cc(c: char) -> nat {
    unicode_lookup::combining_class(c)
}

/// Whether the characters are in canonical order: none that is no starter stands behind
/// one of a higher class.
pub open spec fn in_order(s: Seq<char>) -> bool {
    forall|i: int|
        0 <= i < s.len() - 1 ==> !(0 < #[trigger] unicode_lookup::combining_class(s[i + 1])
            < unicode_lookup::combining_class(s[i]))
}

proof fn lemma_put_in_order(s: Seq<char>, c: char)
    requires
        in_order(s),
    ensures
        in_order(normal::put_in_order(s, c)),
        normal::put_in_order(s, c).len() == s.len() + 1,
        all_plain(s) && plain(c) ==> all_plain(normal::put_in_order(s, c)),
        ({
            let l = normal::put_in_order(s, c).last();
            l == c || (s.len() > 0 && l == s.last() && cc(c) < cc(l))
        }),
    decreases s.len(),
{
    let r = normal::put_in_order(s, c);
    if s.len() > 0 && 0 < cc(c) < cc(s.last()) {
        let t = s.drop_last();
        assert(in_order(t)) by {
            assert forall|i: int| 0 <= i < t.len() - 1 implies !(0 < #[trigger] unicode_lookup::combining_class(
                t[i + 1],
            ) < unicode_lookup::combining_class(t[i])) by {
                assert(t[i + 1] == s[i + 1] && t[i] == s[i]);
                assert(!(0 < unicode_lookup::combining_class(s[i + 1]) < cc(s[i])));
            }
        }
        lemma_put_in_order(t, c);
        let p = normal::put_in_order(t, c);
        assert(r == p.push(s.last()));
        assert forall|i: int| 0 <= i < r.len() - 1 implies !(0 < #[trigger] unicode_lookup::combining_class(
            r[i + 1],
        ) < unicode_lookup::combining_class(r[i])) by {
            if i + 1 < p.len() {
                assert(r[i + 1] == p[i + 1] && r[i] == p[i]);
                assert(!(0 < unicode_lookup::combining_class(p[i + 1]) < cc(p[i])));
            } else {
                assert(r[i] == p.last());
                if p.last() != c {
                    let k = s.len() - 2;
                    assert(!(0 < unicode_lookup::combining_class(s[k + 1]) < cc(s[k])));
                }
            }
        }
        if all_plain(s) && plain(c) {
            assert(all_plain(t));
            assert forall|i: int| 0 <= i < r.len() implies plain(#[trigger] r[i]) by {
                if i < p.len() {
                    assert(r[i] == p[i]);
                } else {
                    assert(r[i] == s[s.len() - 1]);
                }
            }
        }
    } else {
        assert(r == s.push(c));
        assert forall|i: int| 0 <= i < r.len() - 1 implies !(0 < #[trigger] unicode_lookup::combining_class(
            r[i + 1],
        ) < unicode_lookup::combining_class(r[i])) by {
            if i + 1 < s.len() {
                assert(r[i + 1] == s[i + 1] && r[i] == s[i]);
                assert(!(0 < unicode_lookup::combining_class(s[i + 1]) < cc(s[i])));
            }
        }
        if all_plain(s) && plain(c) {
            assert forall|i: int| 0 <= i < r.len() implies plain(#[trigger] r[i]) by {
                if i < s.len() {
                    assert(r[i] == s[i]);
                }
            }
        }
    }
}

/// The canonical ordering is in order, and holds no other characters.
pub proof fn lemma_ordered(s: Seq<char>)
    ensures
        in_order(normal::ordered(s)),
        normal::ordered(s).len() == s.len(),
        all_plain(s) ==> all_plain(normal::ordered(s)),
    decreases s.len(),
{
    if s.len() > 0 {
        lemma_ordered(s.drop_last());
        lemma_put_in_order(normal::ordered(s.drop_last()), s.last());
        if all_plain(s) {
            assert(all_plain(s.drop_last()));
            assert(plain(s[s.len() - 1]));
        }
    }
}

/// What is in order stays as it is.
proof fn lemma_in_order_ordered(s: Seq<char>)
    requires
        in_order(s),
    ensures
        normal::ordered(s) == s,
    decreases s.len(),
{
    if s.len() > 0 {
        let t = s.drop_last();
        assert(in_order(t)) by {
            assert forall|i: int| 0 <= i < t.len() - 1 implies !(0 < #[trigger] unicode_lookup::combining_class(
                t[i + 1],
            ) < unicode_lookup::combining_class(t[i])) by {
                assert(t[i + 1] == s[i + 1] && t[i] == s[i]);
                assert(!(0 < unicode_lookup::combining_class(s[i + 1]) < cc(s[i])));
            }
        }
        lemma_in_order_ordered(t);
        if t.len() > 0 {
            let k = s.len() - 2;
            assert(!(0 < unicode_lookup::combining_class(s[k + 1]) < cc(s[k])));
        }
        assert(t.push(s.last()) =~= s);
    } else {
        assert(s =~= seq![]);
    }
}

/// `t` with the characters of `s` put in their places one by one.
spec fn put_all(t: Seq<char>, s: Seq<char>) -> Seq<char>
    decreases s.len(),
{
    if s.len() == 0 {
        t
    } else {
        put_all(normal::put_in_order(t, s[0]), s.drop_first())
    }
}

proof fn lemma_put_all_last(t: Seq<char>, s: Seq<char>)
    requires
        s.len() > 0,
    ensures
        put_all(t, s) == normal::put_in_order(put_all(t, s.drop_last()), s.last()),
    decreases s.len(),
{
    if s.len() == 1 {
        assert(s.drop_first() =~= seq![]);
        assert(s.drop_last() =~= seq![]);
        reveal_with_fuel(put_all, 2);
    } else {
        lemma_put_all_last(normal::put_in_order(t, s[0]), s.drop_first());
        assert(s.drop_first().drop_last() =~= s.drop_last().drop_first());
    }
}

proof fn lemma_ordered_concat(a: Seq<char>, b: Seq<char>)
    ensures
        normal::ordered(a + b) == put_all(normal::ordered(a), b),
    decreases b.len(),
{
    if b.len() == 0 {
        assert(a + b =~= a);
    } else {
        assert((a + b).drop_last() =~= a + b.drop_last());
        lemma_ordered_concat(a, b.drop_last());
        lemma_put_all_last(normal::ordered(a), b);
    }
}

/// Two characters of different classes find the same places in either order.
proof fn lemma_put_commutes(t: Seq<char>, a: char, b: char)
    requires
        0 < cc(a) < cc(b),
    ensures
        normal::put_in_order(normal::put_in_order(t, a), b) == normal::put_in_order(
            normal::put_in_order(t, b),
            a,
        ),
    decreases t.len(),
{
    let ta = normal::put_in_order(t, a);
    let tb = normal::put_in_order(t, b);
    if t.len() == 0 {
        assert(ta =~= seq![a]);
        assert(tb =~= seq![b]);
        assert(tb.drop_last() =~= t);
    } else {
        let init = t.drop_last();
        let l = t.last();
        if cc(l) <= cc(b) {
            // `b` goes to the end, and `a` passes it.
            assert(tb == t.push(b));
            assert(tb.drop_last() =~= t);
            assert(normal::put_in_order(tb, a) == ta.push(b));
            assert(ta.last() == a || ta.last() == l) by {
                if cc(a) < cc(l) {
                    assert(ta.last() == l);
                }
            }
            assert(normal::put_in_order(ta, b) == ta.push(b));
        } else {
            assert(ta == normal::put_in_order(init, a).push(l));
            assert(tb == normal::put_in_order(init, b).push(l));
            assert(ta.drop_last() =~= normal::put_in_order(init, a));
            assert(tb.drop_last() =~= normal::put_in_order(init, b));
            lemma_put_commutes(init, a, b);
        }
    }
}

/// A character moves freely over characters of lower classes.
proof fn lemma_put_all_moves(t: Seq<char>, r: Seq<char>, c: char)
    requires
        forall|i: int| 0 <= i < r.len() ==> 0 < cc(#[trigger] r[i]) < cc(c),
    ensures
        put_all(t, seq![c] + r) == put_all(t, r.push(c)),
    decreases r.len(),
{
    let left = seq![c] + r;
    let right = r.push(c);
    if r.len() == 0 {
        assert(left =~= right);
    } else {
        let rest = r.drop_first();
        let x = r[0];
        assert(0 < cc(r[0]));
        lemma_put_commutes(t, x, c);
        let tx = normal::put_in_order(t, x);
        assert forall|i: int| 0 <= i < rest.len() implies 0 < cc(#[trigger] rest[i]) < cc(c) by {
            assert(rest[i] == r[i + 1]);
        }
        lemma_put_all_moves(tx, rest, c);
        assert(left.drop_first() =~= seq![x] + rest);
        assert((seq![x] + rest).drop_first() =~= rest);
        assert((seq![c] + rest).drop_first() =~= rest);
        assert(right.drop_first() =~= rest.push(c));
        assert(put_all(t, left) == put_all(normal::put_in_order(t, c), seq![x] + rest));
        assert(put_all(t, left) == put_all(
            normal::put_in_order(normal::put_in_order(t, c), x),
            rest,
        ));
        assert(put_all(tx, seq![c] + rest) == put_all(normal::put_in_order(tx, c), rest));
        assert(put_all(t, right) == put_all(tx, rest.push(c)));
    }
}

// ---------------------------------------------------------------------------
// composing
// ---------------------------------------------------------------------------
/// A composition decomposes to what it was composed of.
pub proof fn composition_is_undone(a: char, b: char)
    requires
        plain(b),
        normal::composition(a, b) is Some,
    ensures
        normal::decomposition(normal::composition(a, b)->0) == normal::decomposition(a).push(b),
{
    let c = normal::composition(a, b)->0;
    if normal::hangul_composition(a, b) is Some {
        let x = a as int;
        let y = b as int;
        if 0x1100 <= x < 0x1113 && 0x1161 <= y < 0x1176 {
            let l = x - 0x1100;
            let v = y - 0x1161;
            let s = (l * 21 + v) * 28;
            assert(0 <= s < 11172);
            assert(c as int == 0xac00 + s);
            assert(s / 588 == l);
            assert((s % 588) / 28 == v);
            assert(s % 28 == 0);
            unicode_lookup::lemma_jamo(a);
            assert(normal::decomposition(a) == seq![a]);
            assert(normal::decomposition(c) =~= normal::decomposition(a).push(b));
        } else {
            let s = x - 0xac00;
            let t = y - 0x11a7;
            assert(c as int == x + t);
            assert((s + t) / 588 == s / 588);
            assert(((s + t) % 588) / 28 == (s % 588) / 28);
            assert((s + t) % 28 == t);
            assert(normal::decomposition(c) =~= normal::decomposition(a).push(b));
        }
    } else {
        unicode_lookup::lemma_composition_undone(a, b);
        assert(normal::decomposition(b) == seq![b]);
        assert(normal::decomposition(c) =~= normal::decomposition(a).push(b));
    }
}

/// What holds while a text in canonical order composes: what stands behind the last
/// starter is in order and no starter, and what was written decomposes to what was read.
pub open spec fn on_track(x: Seq<char>, s: Composing) -> bool {
    &&& 0 <= s.starter < s.out.len()
    &&& forall|j: int|
        s.starter < j < s.out.len() ==> plain(#[trigger] s.out[j]) && 0 < cc(s.out[j]) <= s.last
    &&& s.last == 0 ==> s.starter + 1 == s.out.len()
    &&& s.last == 256 ==> s.starter + 1 == s.out.len()
    &&& 0 < s.last < 256 ==> s.last <= cc(x.last())
    &&& s.last <= 256
    &&& normal::ordered(normal::decomposed(s.out)) == x
}

proof fn lemma_on_track_push(x: Seq<char>, s: Composing, c: char)
    requires
        x.len() > 0,
        on_track(x, s),
        plain(c),
        in_order(x.push(c)),
    ensures
        on_track(
            x.push(c),
            (Composing {
                out: s.out.push(c),
                starter: if cc(c) == 0 {
                    s.out.len() as int
                } else {
                    s.starter
                },
                last: cc(c),
            }),
        ),
{
    let out = s.out.push(c);
    let n = x.len() as int;
    unicode_lookup::lemma_combining_class_bound(c);
    assert(!(0 < cc(c) < cc(x.last()))) by {
        let xc = x.push(c);
        let k = n - 1;
        assert(!(0 < unicode_lookup::combining_class(xc[k + 1]) < cc(xc[k])));
    }
    assert(out.drop_last() =~= s.out);
    assert(normal::decomposed(out) =~= normal::decomposed(s.out).push(c));
    assert(normal::decomposed(out).drop_last() =~= normal::decomposed(s.out));
    assert(normal::ordered(normal::decomposed(out)) == normal::put_in_order(x, c));
    if cc(c) != 0 {
        assert forall|j: int| s.starter < j < out.len() implies plain(#[trigger] out[j]) && 0 < cc(
            out[j],
        ) <= cc(c) by {
            if j < s.out.len() {
                assert(out[j] == s.out[j]);
                assert(plain(s.out[j]));
            }
        }
    }
}

proof fn lemma_on_track_join(x: Seq<char>, s: Composing, c: char, v: char)
    requires
        x.len() > 0,
        on_track(x, s),
        plain(c),
        in_order(x.push(c)),
        s.last < cc(c) || s.last == 0,
        normal::composition(s.out[s.starter], c) == Some(v),
    ensures
        on_track(
            x.push(c),
            (Composing { out: s.out.update(s.starter, v), starter: s.starter, last: s.last }),
        ),
{
    let out = s.out.update(s.starter, v);
    let before = s.out.take(s.starter);
    let starter = s.out[s.starter];
    let rest = s.out.skip(s.starter + 1);
    unicode_lookup::lemma_combining_class_bound(c);
    assert(!(0 < cc(c) < cc(x.last()))) by {
        let xc = x.push(c);
        let k = x.len() - 1;
        assert(!(0 < unicode_lookup::combining_class(xc[k + 1]) < cc(xc[k])));
    }
    composition_is_undone(starter, c);
    // What was written, and what is written now, in decomposed form.
    let head = normal::decomposed(before) + normal::decomposition(starter);
    assert(all_plain(rest)) by {
        assert forall|i: int| 0 <= i < rest.len() implies plain(#[trigger] rest[i]) by {
            assert(rest[i] == s.out[s.starter + 1 + i]);
        }
    }
    lemma_plain_decomposed(rest);
    assert(s.out =~= before.push(starter) + rest);
    assert(out =~= before.push(v) + rest);
    lemma_decomposed_concat(before.push(starter), rest);
    lemma_decomposed_concat(before.push(v), rest);
    assert(before.push(starter).drop_last() =~= before);
    assert(before.push(v).drop_last() =~= before);
    assert(normal::decomposed(s.out) =~= head + rest);
    assert(normal::decomposed(out) =~= head + (seq![c] + rest));
    // The new character moves behind the rest.
    lemma_ordered_concat(head, seq![c] + rest);
    lemma_ordered_concat(head, rest);
    lemma_ordered_concat(head, rest.push(c));
    assert forall|i: int| 0 <= i < rest.len() implies 0 < cc(#[trigger] rest[i]) < cc(c) by {
        assert(rest[i] == s.out[s.starter + 1 + i]);
    }
    lemma_put_all_moves(normal::ordered(head), rest, c);
    lemma_put_all_last(normal::ordered(head), rest.push(c));
    assert(rest.push(c).drop_last() =~= rest);
    assert(normal::ordered(normal::decomposed(out)) == normal::put_in_order(x, c));
    assert forall|j: int| s.starter < j < out.len() implies plain(#[trigger] out[j]) && 0 < cc(
        out[j],
    ) <= s.last by {
        assert(out[j] == s.out[j]);
        assert(plain(s.out[j]));
    }
}

/// Composing a text in canonical order keeps on track.
pub proof fn lemma_on_track(x: Seq<char>)
    requires
        x.len() > 0,
        all_plain(x),
        in_order(x),
    ensures
        on_track(x, normal::composing(x)),
    decreases x.len(),
{
    if x.len() == 1 {
        let c = x[0];
        assert(plain(x[0]));
        assert(seq![c].drop_last() =~= seq![]);
        reveal_with_fuel(normal::decomposed, 2);
        reveal_with_fuel(normal::ordered, 2);
        assert(normal::decomposed(seq![c]) =~= seq![c]);
        assert(normal::ordered(seq![c]) =~= seq![c]);
        assert(x =~= seq![c]);
    } else {
        let t = x.drop_last();
        let c = x.last();
        assert(t.push(c) =~= x);
        assert(plain(x[x.len() - 1]));
        assert(in_order(t)) by {
            assert forall|i: int| 0 <= i < t.len() - 1 implies !(0 < #[trigger] unicode_lookup::combining_class(
                t[i + 1],
            ) < unicode_lookup::combining_class(t[i])) by {
                assert(t[i + 1] == x[i + 1] && t[i] == x[i]);
                assert(!(0 < unicode_lookup::combining_class(x[i + 1]) < cc(x[i])));
            }
        }
        lemma_on_track(t);
        let s = normal::composing(t);
        let joined = if s.last < cc(c) || s.last == 0 {
            normal::composition(s.out[s.starter], c)
        } else {
            None
        };
        match joined {
            Some(v) => {
                lemma_on_track_join(t, s, c, v);
            },
            None => {
                lemma_on_track_push(t, s, c);
            },
        }
    }
}

// ---------------------------------------------------------------------------
// laws
// ---------------------------------------------------------------------------
/// Decomposing and ordering what was composed gives back what it was composed of.
pub proof fn composing_is_undone(s: Seq<char>)
    ensures
        normal::ordered(normal::decomposed(normal::normal_form(s))) == normal::ordered(
            normal::decomposed(s),
        ),
{
    let x = normal::ordered(normal::decomposed(s));
    lemma_decomposed_plain(s);
    lemma_ordered(normal::decomposed(s));
    if x.len() > 0 {
        lemma_on_track(x);
    } else {
        assert(normal::ordered(normal::decomposed(normal::normal_form(s))) =~= x);
    }
}

/// Normalizing twice normalizes once.
pub proof fn nfc_is_idempotent(s: Seq<char>)
    ensures
        normal::normal_form(normal::normal_form(s)) == normal::normal_form(s),
{
    composing_is_undone(s);
}

/// Texts with the same ordered decomposition have the same normal form.
pub proof fn equivalent_texts_normalize_alike(s: Seq<char>, t: Seq<char>)
    requires
        normal::ordered(normal::decomposed(s)) == normal::ordered(normal::decomposed(t)),
    ensures
        normal::normal_form(s) == normal::normal_form(t),
{
}

/// Putting goes one after the other.
proof fn lemma_put_all_concat(t: Seq<char>, a: Seq<char>, b: Seq<char>)
    ensures
        put_all(t, a + b) == put_all(put_all(t, a), b),
    decreases a.len(),
{
    if a.len() == 0 {
        assert(a + b =~= b);
    } else {
        lemma_put_all_concat(normal::put_in_order(t, a[0]), a.drop_first(), b);
        assert((a + b).drop_first() =~= a.drop_first() + b);
    }
}

/// Characters of one class and characters of a lower one find the same places in either
/// order.
proof fn lemma_put_all_swaps(t: Seq<char>, high: Seq<char>, low: Seq<char>, k: nat)
    requires
        forall|i: int| 0 <= i < high.len() ==> cc(#[trigger] high[i]) == k,
        forall|i: int| 0 <= i < low.len() ==> 0 < cc(#[trigger] low[i]) < k,
    ensures
        put_all(t, high + low) == put_all(t, low + high),
    decreases high.len(),
{
    if high.len() == 0 {
        assert(high + low =~= low);
        assert(low + high =~= low);
    } else {
        let init = high.drop_last();
        let c = high.last();
        assert(cc(high[high.len() - 1]) == k);
        assert forall|i: int| 0 <= i < init.len() implies cc(#[trigger] init[i]) == k by {
            assert(init[i] == high[i]);
        }
        lemma_put_all_swaps(t, init, low, k);
        lemma_put_all_moves(put_all(t, init), low, c);
        assert(high + low =~= init + (seq![c] + low));
        lemma_put_all_concat(t, init, seq![c] + low);
        assert(low.push(c) =~= low + seq![c]);
        lemma_put_all_concat(put_all(t, init), low, seq![c]);
        lemma_put_all_concat(t, init, low);
        lemma_put_all_concat(t, low + init, seq![c]);
        assert(low + high =~= low + init + seq![c]);
    }
}

/// A character that is no starter decomposes to characters of its own class.
proof fn lemma_mark_decomposition(c: char)
    requires
        cc(c) != 0,
    ensures
        normal::decomposition(c).len() > 0,
        forall|i: int|
            0 <= i < normal::decomposition(c).len() ==> cc(#[trigger] normal::decomposition(c)[i])
                == cc(c),
{
    unicode_lookup::table_laws::marks_keep_their_class(c);
    if let Some((x, y)) = unicode_lookup::pair(c) {
        unicode_lookup::table_laws::marks_keep_their_class(x);
        unicode_lookup::table_laws::marks_keep_their_class(y);
        assert(normal::decomposition(x) =~= seq![x]);
        assert(normal::decomposition(y) =~= seq![y]);
        assert(normal::decomposition(c) =~= seq![x, y]);
    } else if let Some(x) = unicode_lookup::singleton(c) {
        unicode_lookup::table_laws::marks_keep_their_class(x);
        assert(normal::decomposition(x) =~= seq![x]);
        assert(normal::decomposition(c) =~= seq![x]);
    } else {
        assert(normal::decomposition(c) =~= seq![c]);
    }
}

proof fn lemma_decomposed_one(c: char)
    ensures
        normal::decomposed(seq![c]) == normal::decomposition(c),
{
    assert(seq![c].drop_last() =~= seq![]);
    reveal_with_fuel(normal::decomposed, 2);
    assert(normal::decomposed(seq![c]) =~= normal::decomposition(c));
}

/// The order of combining marks of different classes cannot be seen in the normal form.
pub proof fn marks_of_different_classes_swap(p: Seq<char>, a: char, b: char, q: Seq<char>)
    requires
        unicode_lookup::combining_class(a) != 0,
        unicode_lookup::combining_class(b) != 0,
        unicode_lookup::combining_class(a) != unicode_lookup::combining_class(b),
    ensures
        normal::normal_form(p + seq![a] + seq![b] + q) == normal::normal_form(
            p + seq![b] + seq![a] + q,
        ),
    decreases unicode_lookup::combining_class(b),
{
    if cc(a) < cc(b) {
        marks_of_different_classes_swap(p, b, a, q);
    } else {
        let x = normal::decomposition(a);
        let y = normal::decomposition(b);
        let t = normal::ordered(normal::decomposed(p));
        let rest = normal::decomposed(q);
        lemma_mark_decomposition(a);
        lemma_mark_decomposition(b);
        lemma_put_all_swaps(t, x, y, cc(a));
        lemma_swap_parts(p, a, b, q);
        lemma_swap_parts(p, b, a, q);
    }
}

proof fn lemma_swap_parts(p: Seq<char>, a: char, b: char, q: Seq<char>)
    ensures
        normal::ordered(normal::decomposed(p + seq![a] + seq![b] + q)) == put_all(
            put_all(
                normal::ordered(normal::decomposed(p)),
                normal::decomposition(a) + normal::decomposition(b),
            ),
            normal::decomposed(q),
        ),
{
    let x = normal::decomposition(a);
    let y = normal::decomposition(b);
    let d = normal::decomposed(p);
    lemma_decomposed_one(a);
    lemma_decomposed_one(b);
    lemma_decomposed_concat(p, seq![a]);
    lemma_decomposed_concat(p + seq![a], seq![b]);
    lemma_decomposed_concat(p + seq![a] + seq![b], q);
    let r = normal::decomposed(q);
    assert(normal::decomposed(p + seq![a] + seq![b] + q) =~= d + ((x + y) + r));
    lemma_ordered_concat(d, (x + y) + r);
    lemma_put_all_concat(normal::ordered(d), x + y, r);
}

/// A Hangul syllable is its own normal form, and so is what its jamo compose to.
pub proof fn hangul_survives(c: char)
    requires
        unicode_lookup::hangul_syllable(c),
    ensures
        normal::normal_form(seq![c]) == seq![c],
        normal::normal_form(normal::jamo(c)) == seq![c],
{
    let j = normal::jamo(c);
    lemma_jamo_plain(c);
    assert(seq![c].drop_last() =~= seq![]);
    reveal_with_fuel(normal::decomposed, 2);
    assert(normal::decomposed(seq![c]) =~= j);
    lemma_plain_decomposed(j);
    assert forall|i: int| 0 <= i < j.len() implies cc(#[trigger] j[i]) == 0 by {
        unicode_lookup::lemma_jamo(j[i]);
    }
    assert(in_order(j)) by {
        assert forall|i: int| 0 <= i < j.len() - 1 implies !(0 < #[trigger] unicode_lookup::combining_class(
            j[i + 1],
        ) < unicode_lookup::combining_class(j[i])) by {
            assert(cc(j[i + 1]) == 0);
        }
    }
    lemma_in_order_ordered(j);
    let s = c as int - 0xac00;
    let l = s / 588;
    let v = (s % 588) / 28;
    let t = s % 28;
    assert(s == (l * 21 + v) * 28 + t);
    let lv = (0xac00 + (l * 21 + v) * 28) as char;
    assert((lv as int - 0xac00) % 28 == 0);
    assert(normal::hangul_composition(j[0], j[1]) == Some(lv));
    assert(cc(j[0]) == 0 && cc(j[1]) == 0);
    let two = j.take(2);
    assert(two.drop_last() =~= seq![j[0]]);
    reveal_with_fuel(normal::composing, 3);
    assert(normal::composing(two.drop_last()) == normal::compose_first(j[0]));
    assert(normal::composing(two).out =~= seq![lv]);
    if t == 0 {
        assert(two =~= j);
    } else {
        assert(j.drop_last() =~= two);
        assert(cc(j[2]) == 0);
        assert(normal::hangul_composition(lv, j[2]) == Some(c));
        assert(normal::composing(j).out =~= seq![c]);
    }
}

/// Composing what a Hangul syllable decomposes to gives the syllable, one step after the
/// other: the leading consonant and the vowel compose to a syllable without a trailing
/// consonant, and where there is one, that and it to the syllable.
pub proof fn hangul_composes_step_by_step(c: char)
    requires
        unicode_lookup::hangul_syllable(c),
    ensures
        normal::decomposition(c).len() == 2 <==> (c as int - 0xac00) % 28 == 0,
        normal::decomposition(c).len() == 2 ==> normal::composition(
            normal::decomposition(c)[0],
            normal::decomposition(c)[1],
        ) == Some(c),
        normal::decomposition(c).len() != 2 ==> normal::decomposition(c).len() == 3 && match normal::composition(
            normal::decomposition(c)[0],
            normal::decomposition(c)[1],
        ) {
            Some(lv) => normal::composition(lv, normal::decomposition(c)[2]) == Some(c),
            None => false,
        },
{
    let j = normal::jamo(c);
    assert(normal::decomposition(c) == j);
    let s = c as int - 0xac00;
    let l = s / 588;
    let v = (s % 588) / 28;
    let t = s % 28;
    assert(s == (l * 21 + v) * 28 + t);
    let lv = (0xac00 + (l * 21 + v) * 28) as char;
    assert((lv as int - 0xac00) % 28 == 0);
    assert(normal::hangul_composition(j[0], j[1]) == Some(lv));
    if t != 0 {
        assert(normal::hangul_composition(lv, j[2]) == Some(c));
    }
}

/// ASCII text is its own normal form.
pub proof fn ascii_is_normal(s: Seq<char>)
    requires
        forall|i: int| 0 <= i < s.len() ==> #[trigger] s[i] < '\u{80}',
    ensures
        normal::normal_form(s) == s,
{
    assert forall|i: int| 0 <= i < s.len() implies plain(#[trigger] s[i]) && cc(s[i]) == 0 by {
        unicode_lookup::lemma_ascii(s[i]);
    }
    lemma_plain_decomposed(s);
    assert(in_order(s)) by {
        assert forall|i: int| 0 <= i < s.len() - 1 implies !(0 < #[trigger] unicode_lookup::combining_class(
            s[i + 1],
        ) < unicode_lookup::combining_class(s[i])) by {
            assert(cc(s[i + 1]) == 0);
        }
    }
    lemma_in_order_ordered(s);
    if s.len() > 0 {
        lemma_ascii_composing(s);
    } else {
        assert(s =~= seq![]);
    }
}

proof fn lemma_ascii_composing(s: Seq<char>)
    requires
        s.len() > 0,
        forall|i: int| 0 <= i < s.len() ==> #[trigger] s[i] < '\u{80}',
    ensures
        normal::composing(s).out == s,
        normal::composing(s).starter == s.len() - 1,
        normal::composing(s).last == 0,
    decreases s.len(),
{
    unicode_lookup::lemma_ascii(s[s.len() - 1]);
    if s.len() == 1 {
        assert(s =~= seq![s[0]]);
    } else {
        let t = s.drop_last();
        lemma_ascii_composing(t);
        unicode_lookup::lemma_composition_undone(t.last(), s[s.len() - 1]);
        assert(t.push(s.last()) =~= s);
    }
}

} // verus!
