//! Canonical composition: full canonical decomposition, canonical ordering, and canonical
//! composition -- the three steps of UAX #15 `toNFC`.
use crate::text::{str_chars, to_text};
use crate::unicode_lookup;
use crate::unicode_lookup::{ccc, find_composition, find_pair, find_singleton};
use vstd::prelude::*;

verus! {

// ---------------------------------------------------------------------------
// Hangul, whose decomposition is arithmetic (UAX #15 section 10)
// ---------------------------------------------------------------------------
pub const S_BASE: u32 = 0xAC00;

pub const L_BASE: u32 = 0x1100;

pub const V_BASE: u32 = 0x1161;

pub const T_BASE: u32 = 0x11A7;

pub const L_COUNT: u32 = 19;

pub const V_COUNT: u32 = 21;

pub const T_COUNT: u32 = 28;

pub const N_COUNT: u32 = 588;

pub const S_COUNT: u32 = 11172;

/// The jamo of a Hangul syllable: a leading consonant, a vowel, and a trailing consonant
/// where it has one.
pub open spec fn jamo(c: char) -> Seq<char> {
    let s = (c as u32 - S_BASE) as int;
    let l = (L_BASE + s / 588) as char;
    let v = (V_BASE + (s % 588) / 28) as char;
    let t = s % 28;
    if t == 0 {
        seq![l, v]
    } else {
        seq![l, v, (T_BASE + t) as char]
    }
}

/// What two Hangul characters compose to: a consonant and a vowel to a syllable without a
/// trailing consonant, and that and a trailing consonant to one with it.
pub open spec fn hangul_composition(a: char, b: char) -> Option<char> {
    let x = a as int;
    let y = b as int;
    if L_BASE <= x < L_BASE + L_COUNT && V_BASE <= y < V_BASE + V_COUNT {
        Some((S_BASE + ((x - L_BASE) * 21 + (y - V_BASE)) * 28) as char)
    } else if S_BASE <= x < S_BASE + S_COUNT && (x - S_BASE) % 28 == 0 && T_BASE < y < T_BASE
        + T_COUNT {
        Some((x + (y - T_BASE)) as char)
    } else {
        None
    }
}

// ---------------------------------------------------------------------------
// the three steps
// ---------------------------------------------------------------------------
/// The full canonical decomposition of one character.
pub open spec fn decomposition(c: char) -> Seq<char>
    decreases unicode_lookup::depth_rank(c),
{
    proof {
        unicode_lookup::lemma_decomposition_rank(c);
    }
    if unicode_lookup::hangul_syllable(c) {
        jamo(c)
    } else {
        match unicode_lookup::pair(c) {
            Some((a, b)) => decomposition(a) + decomposition(b),
            None => match unicode_lookup::singleton(c) {
                Some(d) => decomposition(d),
                None => seq![c],
            },
        }
    }
}

/// The full canonical decomposition of a text.
pub open spec fn decomposed(s: Seq<char>) -> Seq<char>
    decreases s.len(),
{
    if s.len() == 0 {
        seq![]
    } else {
        decomposed(s.drop_last()) + decomposition(s.last())
    }
}

/// `s` with `c` put in its place: at the end, but before trailing characters of a higher
/// combining class where `c` is no starter.
pub open spec fn put_in_order(s: Seq<char>, c: char) -> Seq<char>
    decreases s.len(),
{
    if s.len() > 0 && 0 < unicode_lookup::combining_class(c) < unicode_lookup::combining_class(
        s.last(),
    ) {
        put_in_order(s.drop_last(), c).push(s.last())
    } else {
        s.push(c)
    }
}

/// The canonical ordering of a text: runs of characters that are no starters are sorted by
/// combining class, and otherwise keep their order.
pub open spec fn ordered(s: Seq<char>) -> Seq<char>
    decreases s.len(),
{
    if s.len() == 0 {
        seq![]
    } else {
        put_in_order(ordered(s.drop_last()), s.last())
    }
}

/// What a starter and a following character compose to.
pub open spec fn composition(a: char, b: char) -> Option<char> {
    match hangul_composition(a, b) {
        Some(c) => Some(c),
        None => unicode_lookup::table_composition(a, b),
    }
}

/// A composition under way: what is written, where its last starter stands, and the
/// combining class of what was written last. That is 256 behind a first character that is
/// no starter, so that nothing composes with it.
#[verifier::ext_equal]
pub struct Composing {
    pub out: Seq<char>,
    pub starter: int,
    pub last: nat,
}

/// A composition that has seen one character.
pub open spec fn compose_first(c: char) -> Composing {
    Composing {
        out: seq![c],
        starter: 0,
        last: if unicode_lookup::combining_class(c) != 0 {
            256
        } else {
            0
        },
    }
}

/// A composition that sees one more character. It joins the last starter unless something
/// of its own or a higher combining class stands between them.
pub open spec fn compose_next(s: Composing, c: char) -> Composing {
    let class = unicode_lookup::combining_class(c);
    let joined = if s.last < class || s.last == 0 {
        composition(s.out[s.starter], c)
    } else {
        None
    };
    match joined {
        Some(x) => Composing {
            out: s.out.update(s.starter, x),
            starter: s.starter,
            last: s.last,
        },
        None => Composing {
            out: s.out.push(c),
            starter: if class == 0 {
                s.out.len() as int
            } else {
                s.starter
            },
            last: class,
        },
    }
}

/// The composition of a text that is not empty.
pub open spec fn composing(s: Seq<char>) -> Composing
    decreases s.len(),
{
    if s.len() <= 1 {
        compose_first(s[0])
    } else {
        compose_next(composing(s.drop_last()), s.last())
    }
}

/// The canonical composition of a text.
pub open spec fn composed(s: Seq<char>) -> Seq<char> {
    if s.len() == 0 {
        seq![]
    } else {
        composing(s).out
    }
}

/// UAX #15 `toNFC`.
pub open spec fn normal_form(s: Seq<char>) -> Seq<char> {
    composed(ordered(decomposed(s)))
}

// ---------------------------------------------------------------------------
// taking them
// ---------------------------------------------------------------------------
/// Full canonical decomposition of one char, appended to `out`.
pub fn decompose_one(c: char, out: &mut Vec<char>)
    ensures
        final(out)@ == old(out)@ + decomposition(c),
    decreases unicode_lookup::depth_rank(c),
{
    let cp: u32 = c as u32;
    // Hangul syllables decompose arithmetically. They are most of the decomposable code
    // points, so keeping them out of the tables is most of the tables' size.
    if S_BASE <= cp && cp < S_BASE + S_COUNT {
        let si: u32 = cp - S_BASE;
        let l: u32 = L_BASE + si / N_COUNT;
        let v: u32 = V_BASE + (si % N_COUNT) / T_COUNT;
        let tj: u32 = si % T_COUNT;
        if let Some(x) = char::from_u32(l) {
            out.push(x);
        }
        if let Some(x) = char::from_u32(v) {
            out.push(x);
        }
        if tj != 0 {
            if let Some(x) = char::from_u32(T_BASE + tj) {
                out.push(x);
            }
        }
        assert(out@ =~= old(out)@ + jamo(c));
        return;
    }
    proof {
        unicode_lookup::lemma_decomposition_rank(c);
    }
    if let Some((a, b)) = find_pair(c) {
        decompose_one(a, out);
        decompose_one(b, out);
        assert(out@ =~= old(out)@ + decomposition(c));
        return;
    }
    if let Some(d) = find_singleton(c) {
        decompose_one(d, out);
        return;
    }
    out.push(c);
    assert(out@ =~= old(out)@ + decomposition(c));
}

/// Canonical composition of a starter and a following character, if one exists.
///
/// Hangul is handled arithmetically **before** the table, and that ordering is not
/// cosmetic: the tables leave Hangul out.
pub fn compose(a: char, b: char) -> (r: Option<char>)
    ensures
        r == composition(a, b),
{
    let au: u32 = a as u32;
    let bu: u32 = b as u32;
    // L + V -> LV syllable
    if L_BASE <= au && au < L_BASE + L_COUNT && V_BASE <= bu && bu < V_BASE + V_COUNT {
        let l: u32 = au - L_BASE;
        let v: u32 = bu - V_BASE;
        return char::from_u32(S_BASE + (l * V_COUNT + v) * T_COUNT);
    }
    // LV + T -> LVT syllable

    if S_BASE <= au && au < S_BASE + S_COUNT && (au - S_BASE) % T_COUNT == 0 && T_BASE + 1 <= bu
        && bu < T_BASE + T_COUNT {
        let tj: u32 = bu - T_BASE;
        return char::from_u32(au + tj);
    }
    find_composition(a, b)
}

/// The full canonical decomposition of a text.
fn decompose(s: &[char]) -> (d: Vec<char>)
    ensures
        d@ == decomposed(s@),
{
    let mut d: Vec<char> = Vec::new();
    let mut i: usize = 0;
    while i < s.len()
        invariant
            i <= s@.len(),
            d@ == decomposed(s@.take(i as int)),
        decreases s.len() - i,
    {
        decompose_one(s[i], &mut d);
        i += 1;
        assert(s@.take(i as int).drop_last() =~= s@.take(i - 1));
    }
    assert(s@.take(i as int) =~= s@);
    d
}

/// Canonical ordering: a stable insertion sort over runs of non-zero combining class.
/// Starters are never moved.
fn reorder(d: &mut Vec<char>)
    ensures
        final(d)@ == ordered(old(d)@),
{
    let n: usize = d.len();
    let mut i: usize = 0;
    assert(d@.take(0) =~= seq![]);
    while i < n
        invariant
            i <= n == d@.len() == old(d)@.len(),
            d@.take(i as int) == ordered(old(d)@.take(i as int)),
            forall|k: int| i <= k < n ==> d@[k] == old(d)@[k],
        decreases n - i,
    {
        let cc: u32 = ccc(d[i]);
        let ghost c = d@[i as int];
        let ghost before = d@.take(i as int);
        let mut j: usize = i;
        assert(before.take(i as int) =~= before);
        assert(d@.take(i + 1) =~= before.take(i as int).push(c) + before.skip(i as int));
        while j > 0 && cc != 0 && ccc(d[j - 1]) > cc
            invariant
                j <= i < n == d@.len() == old(d)@.len(),
                cc == unicode_lookup::combining_class(c),
                before.len() == i,
                d@.take(i + 1) == before.take(j as int).push(c) + before.skip(j as int),
                put_in_order(before, c) == put_in_order(before.take(j as int), c) + before.skip(
                    j as int,
                ),
                forall|k: int| i < k < n ==> d@[k] == old(d)@[k],
            decreases j,
        {
            let ghost now = d@;
            assert(now[j as int] == c) by {
                assert(now.take(i + 1)[j as int] == c);
            }
            assert(now[j - 1] == before[j - 1]) by {
                assert(now.take(i + 1)[j - 1] == before[j - 1]);
            }
            let x: char = d[j - 1];
            let y: char = d[j];
            d.set(j - 1, y);
            d.set(j, x);
            j -= 1;
            proof {
                assert(before.take(j + 1).drop_last() =~= before.take(j as int));
                assert(put_in_order(before.take(j + 1), c) == put_in_order(
                    before.take(j as int),
                    c,
                ).push(before[j as int]));
                assert(before.skip(j as int) =~= seq![before[j as int]] + before.skip(j + 1));
                assert(put_in_order(before, c) =~= put_in_order(before.take(j as int), c)
                    + before.skip(j as int));
                assert(d@.take(i + 1) =~= before.take(j as int).push(c) + before.skip(j as int)) by {
                    assert forall|k: int| 0 <= k <= i implies #[trigger] d@.take(i + 1)[k] == (
                    before.take(j as int).push(c) + before.skip(j as int))[k] by {
                        assert(now.take(i + 1)[k] == (before.take(j + 1).push(c) + before.skip(
                            j + 1,
                        ))[k]);
                    }
                }
            }
        }
        proof {
            assert(put_in_order(before.take(j as int), c) == before.take(j as int).push(c)) by {
                if j > 0 {
                    assert(d@[j - 1] == before[j - 1]) by {
                        assert(d@.take(i + 1)[j - 1] == before[j - 1]);
                    }
                    assert(before.take(j as int).last() == before[j - 1]);
                }
            }
            assert(d@.take(i + 1) == put_in_order(before, c));
            let s = old(d)@.take(i + 1);
            assert(s.drop_last() =~= old(d)@.take(i as int));
            assert(s.last() == c);
        }
        i += 1;
    }
    assert(d@.take(n as int) =~= d@);
    assert(old(d)@.take(n as int) =~= old(d)@);
}

/// What was composed has a starter in it.
proof fn lemma_composing_fits(s: Seq<char>)
    requires
        s.len() > 0,
    ensures
        0 <= composing(s).starter < composing(s).out.len() <= s.len(),
        composing(s).last <= 256,
    decreases s.len(),
{
    if s.len() > 1 {
        lemma_composing_fits(s.drop_last());
        unicode_lookup::lemma_combining_class_bound(s.last());
    }
}

/// Canonical composition.
fn recompose(d: &Vec<char>) -> (out: Vec<char>)
    ensures
        out@ == composed(d@),
{
    let mut out: Vec<char> = Vec::new();
    if d.len() == 0 {
        assert(out@ =~= seq![]);
        return out;
    }
    let mut starter: usize = 0;
    // 256 when the first character is itself a combining mark, so it can never compose
    // with anything: the algorithm needs a starter to compose onto.
    let mut last: u32 = if ccc(d[0]) != 0 {
        256
    } else {
        0
    };
    out.push(d[0]);
    let mut i: usize = 1;
    proof {
        assert(d@.take(1)[0] == d@[0]);
        assert(out@ =~= seq![d@[0]]);
    }
    while i < d.len()
        invariant
            1 <= i <= d@.len(),
            starter < out@.len() <= i,
            last <= 256,
            composing(d@.take(i as int)) == (Composing {
                out: out@,
                starter: starter as int,
                last: last as nat,
            }),
        decreases d.len() - i,
    {
        let ch: char = d[i];
        let class: u32 = ccc(ch);
        proof {
            assert(d@.take(i + 1).drop_last() =~= d@.take(i as int));
            assert(d@.take(i + 1).last() == ch);
        }
        // A character is blocked from its starter when something with an equal or higher
        // combining class sits between them, which is what `last` tracks.
        let joined: Option<char> = if last < class || last == 0 {
            compose(out[starter], ch)
        } else {
            None
        };
        match joined {
            Some(x) => {
                out.set(starter, x);
            },
            None => {
                if class == 0 {
                    starter = out.len();
                }
                last = class;
                out.push(ch);
            },
        }
        i += 1;
    }
    assert(d@.take(i as int) =~= d@);
    out
}

/// UAX #15 `toNFC` of a run of characters.
pub(crate) fn normalize(s: &[char]) -> (r: Vec<char>)
    ensures
        r@ == normal_form(s@),
{
    let mut d = decompose(s);
    reorder(&mut d);
    recompose(&d)
}

/// Full canonical decomposition, then canonical ordering, then canonical composition: the
/// three steps of UAX #15 `toNFC`.
///
/// The tokenizer applies this to its input before anything else, so
/// `decode(encode(x))` reproduces `nfc(x)` and **not** necessarily `x`: `"e\u{301}"`
/// encodes to the same single token as `"é"`.
pub fn nfc(s: &str) -> (r: String)
    ensures
        r@ == normal_form(s@),
{
    let c = str_chars(s);
    let n = normalize(c.as_slice());
    to_text(n.as_slice())
}

} // verus!
