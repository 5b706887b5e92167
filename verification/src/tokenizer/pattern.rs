//! The pre-tokenizer pattern as a regular expression, and what the scanner has to do with
//! it.
//!
//! A regular expression is read the way Perl reads it: alternatives are tried in order,
//! a quantifier takes as much as it can and gives back what the rest cannot do without,
//! and the first way through wins. Each piece of an expression is therefore a function of
//! the text, the position, and what is to be matched behind it.
use super::scanner;
use super::scanner::Run;
use crate::text;
use crate::unicode_lookup;
use vstd::prelude::*;
use vstd::utf8::*;

verus! {

// ---------------------------------------------------------------------------
// Perl's reading of an expression
// ---------------------------------------------------------------------------
/// What is to be matched behind a piece: from where the piece ends to where the whole
/// match ends.
pub type Rest = spec_fn(int) -> Option<int>;

/// A class of characters.
pub type Class = spec_fn(char) -> bool;

/// Nothing is to be matched behind.
pub open spec fn done() -> Rest {
    |j: int| Some(j)
}

/// `[class]`
pub open spec fn one(class: Class, c: Seq<char>, i: int, rest: Rest) -> Option<int> {
    if 0 <= i < c.len() && class(c[i]) {
        rest(i + 1)
    } else {
        None
    }
}

/// `a|b`
pub open spec fn either(a: Option<int>, b: Option<int>) -> Option<int> {
    if a is Some {
        a
    } else {
        b
    }
}

/// `[class]?`
pub open spec fn maybe(class: Class, c: Seq<char>, i: int, rest: Rest) -> Option<int> {
    either(one(class, c, i, rest), rest(i))
}

/// `[class]*`
pub open spec fn any_number(class: Class, c: Seq<char>, i: int, rest: Rest) -> Option<int>
    decreases c.len() - i,
{
    if 0 <= i < c.len() && class(c[i]) {
        either(any_number(class, c, i + 1, rest), rest(i))
    } else {
        rest(i)
    }
}

/// `[class]+`
pub open spec fn some_number(class: Class, c: Seq<char>, i: int, rest: Rest) -> Option<int> {
    one(class, c, i, |j: int| any_number(class, c, j, rest))
}

/// `(?![class])`
pub open spec fn not_before(class: Class, c: Seq<char>, i: int, rest: Rest) -> Option<int> {
    if 0 <= i < c.len() && class(c[i]) {
        None
    } else {
        rest(i)
    }
}

// ---------------------------------------------------------------------------
// the pattern
// ---------------------------------------------------------------------------
/// `[\p{L}\p{M}]`, or `[\p{L}]` where marks are no letters; `[^\s\p{L}\p{M}\p{N}]`, or
/// `[^\s\p{L}\p{N}]`; `[\s]`; and `[\r\n]`.
pub open spec fn run_class(run: Run) -> Class {
    |x: char|
        match run {
            Run::Letters { marks: true } => unicode_lookup::letter(x) || unicode_lookup::mark(x),
            Run::Letters { marks: false } => unicode_lookup::letter(x),
            Run::Symbols { marks: true } => !(text::white_space(x) || unicode_lookup::letter(x)
                || unicode_lookup::mark(x) || unicode_lookup::number(x)),
            Run::Symbols { marks: false } => !(text::white_space(x) || unicode_lookup::letter(x)
                || unicode_lookup::number(x)),
            Run::Space => text::white_space(x),
            Run::Newlines => x == '\r' || x == '\n',
        }
}

/// A small letter, whatever its case.
pub open spec fn letter_class(l: char) -> Class {
    |x: char| x == l || x as int == l as int - ('a' as int - 'A' as int)
}

/// `(?i:'l)`
pub open spec fn quote_one(c: Seq<char>, i: int, l: char) -> Option<int> {
    one(|x: char| x == '\'', c, i, |j: int| one(letter_class(l), c, j, done()))
}

/// `(?i:'lm)`
pub open spec fn quote_two(c: Seq<char>, i: int, l: char, m: char) -> Option<int> {
    one(
        |x: char| x == '\'',
        c,
        i,
        |j: int| one(letter_class(l), c, j, |k: int| one(letter_class(m), c, k, done())),
    )
}

/// `(?i:'s|'t|'re|'ve|'m|'ll|'d)`
pub open spec fn alternative_1(c: Seq<char>, i: int) -> Option<int> {
    either(
        quote_one(c, i, 's'),
        either(
            quote_one(c, i, 't'),
            either(
                quote_two(c, i, 'r', 'e'),
                either(
                    quote_two(c, i, 'v', 'e'),
                    either(
                        quote_one(c, i, 'm'),
                        either(quote_two(c, i, 'l', 'l'), quote_one(c, i, 'd')),
                    ),
                ),
            ),
        ),
    )
}

/// `[^\r\n\p{L}\p{N}]?[\p{L}\p{M}]+`
pub open spec fn alternative_2(c: Seq<char>, i: int, marks: bool) -> Option<int> {
    maybe(
        |x: char|
            !(x == '\r' || x == '\n' || unicode_lookup::letter(x) || unicode_lookup::number(x)),
        c,
        i,
        |j: int| some_number(run_class(Run::Letters { marks }), c, j, done()),
    )
}

/// `\p{N}`
pub open spec fn alternative_3(c: Seq<char>, i: int) -> Option<int> {
    one(|x: char| unicode_lookup::number(x), c, i, done())
}

/// ` ?[^\s\p{L}\p{M}\p{N}]+[\r\n]*`
pub open spec fn alternative_4(c: Seq<char>, i: int, marks: bool) -> Option<int> {
    maybe(
        |x: char| x == ' ',
        c,
        i,
        |j: int|
            some_number(
                run_class(Run::Symbols { marks }),
                c,
                j,
                |k: int| any_number(run_class(Run::Newlines), c, k, done()),
            ),
    )
}

/// `\s*[\r\n]+`
pub open spec fn alternative_5(c: Seq<char>, i: int) -> Option<int> {
    any_number(
        run_class(Run::Space),
        c,
        i,
        |j: int| some_number(run_class(Run::Newlines), c, j, done()),
    )
}

/// `\s+(?!\S)`
pub open spec fn alternative_6(c: Seq<char>, i: int) -> Option<int> {
    some_number(
        run_class(Run::Space),
        c,
        i,
        |j: int| not_before(|x: char| !text::white_space(x), c, j, done()),
    )
}

/// `\s+`
pub open spec fn alternative_7(c: Seq<char>, i: int) -> Option<int> {
    some_number(run_class(Run::Space), c, i, done())
}

/// The whole pattern.
pub open spec fn pattern(c: Seq<char>, i: int, marks: bool) -> Option<int> {
    either(
        alternative_1(c, i),
        either(
            alternative_2(c, i, marks),
            either(
                alternative_3(c, i),
                either(
                    alternative_4(c, i, marks),
                    either(
                        alternative_5(c, i),
                        either(alternative_6(c, i), alternative_7(c, i)),
                    ),
                ),
            ),
        ),
    )
}

// ---------------------------------------------------------------------------
// the scanner matches it
// ---------------------------------------------------------------------------
/// A greedy quantifier ends at the furthest position from which the rest matches.
proof fn lemma_any_number(run: Run, c: Seq<char>, i: int, rest: Rest, at: int)
    requires
        0 <= i <= at <= scanner::run_end(c, i, run),
        i <= c.len(),
        rest(at) is Some,
        forall|e: int| at < e <= scanner::run_end(c, i, run) ==> #[trigger] rest(e) is None,
    ensures
        any_number(run_class(run), c, i, rest) == rest(at),
    decreases c.len() - i,
{
    let n = scanner::run_end(c, i, run);
    if i < c.len() && scanner::in_run(run, c[i]) {
        if i < at {
            lemma_any_number(run, c, i + 1, rest, at);
        } else {
            lemma_no_number(run, c, i + 1, rest);
        }
    }
}

/// A greedy quantifier fails where the rest matches from no position.
proof fn lemma_no_number(run: Run, c: Seq<char>, i: int, rest: Rest)
    requires
        0 <= i <= c.len(),
        forall|e: int| i <= e <= scanner::run_end(c, i, run) ==> #[trigger] rest(e) is None,
    ensures
        any_number(run_class(run), c, i, rest) is None,
    decreases c.len() - i,
{
    scanner::lemma_run_end(c, i, run);
    assert(rest(i) is None);
    if i < c.len() && scanner::in_run(run, c[i]) {
        lemma_no_number(run, c, i + 1, rest);
    }
}

/// With nothing behind it, a greedy quantifier takes the whole run.
proof fn lemma_whole_run(run: Run, c: Seq<char>, i: int)
    requires
        0 <= i <= c.len(),
    ensures
        any_number(run_class(run), c, i, done()) == Some(scanner::run_end(c, i, run)),
        some_number(run_class(run), c, i, done()) == if i < c.len() && scanner::in_run(run, c[i]) {
            Some(scanner::run_end(c, i, run))
        } else {
            None
        },
{
    scanner::lemma_run_end(c, i, run);
    lemma_any_number(run, c, i, done(), scanner::run_end(c, i, run));
    if i < c.len() {
        scanner::lemma_run_end(c, i + 1, run);
        lemma_any_number(run, c, i + 1, done(), scanner::run_end(c, i + 1, run));
    }
}

proof fn lemma_alternative_1(c: Seq<char>, i: int)
    requires
        0 <= i < c.len(),
    ensures
        alternative_1(c, i) == scanner::contraction(c, i),
{
}

proof fn lemma_alternative_2(c: Seq<char>, i: int, marks: bool)
    requires
        0 <= i < c.len(),
    ensures
        alternative_2(c, i, marks) == scanner::letters(c, i, marks),
{
    let run = Run::Letters { marks };
    lemma_whole_run(run, c, i);
    lemma_whole_run(run, c, i + 1);
}

/// Symbols, and the newlines behind them.
spec fn symbols_from(c: Seq<char>, i: int, marks: bool) -> Option<int> {
    some_number(
        run_class(Run::Symbols { marks }),
        c,
        i,
        |k: int| any_number(run_class(Run::Newlines), c, k, done()),
    )
}

proof fn lemma_symbols_from(c: Seq<char>, i: int, marks: bool)
    requires
        0 <= i <= c.len(),
    ensures
        symbols_from(c, i, marks) == if i < c.len() && scanner::in_run(
            Run::Symbols { marks },
            c[i],
        ) {
            Some(
                scanner::run_end(
                    c,
                    scanner::run_end(c, i, Run::Symbols { marks }),
                    Run::Newlines,
                ),
            )
        } else {
            None
        },
{
    let run = Run::Symbols { marks };
    let rest = |k: int| any_number(run_class(Run::Newlines), c, k, done());
    if i < c.len() && scanner::in_run(run, c[i]) {
        let n = scanner::run_end(c, i + 1, run);
        scanner::lemma_run_end(c, i + 1, run);
        lemma_whole_run(Run::Newlines, c, n);
        lemma_any_number(run, c, i + 1, rest, n);
    }
}

proof fn lemma_alternative_4(c: Seq<char>, i: int, marks: bool)
    requires
        0 <= i < c.len(),
    ensures
        alternative_4(c, i, marks) == scanner::symbols(c, i, marks),
{
    let rest = |j: int| symbols_from(c, j, marks);
    assert(alternative_4(c, i, marks) == maybe(|x: char| x == ' ', c, i, rest)) by {
        assert(rest(i) == symbols_from(c, i, marks));
        assert(rest(i + 1) == symbols_from(c, i + 1, marks));
    }
    lemma_symbols_from(c, i, marks);
    lemma_symbols_from(c, i + 1, marks);
}

proof fn lemma_alternative_5(c: Seq<char>, i: int)
    requires
        0 <= i < c.len(),
    ensures
        alternative_5(c, i) == scanner::space_to_newline(c, i),
{
    let rest = |j: int| some_number(run_class(Run::Newlines), c, j, done());
    let k = scanner::run_end(c, i, Run::Space);
    scanner::lemma_run_end(c, i, Run::Space);
    scanner::lemma_last_newline(c, i, k);
    assert forall|e: int| i <= e <= k implies #[trigger] rest(e) == if e < k && scanner::in_run(
        Run::Newlines,
        c[e],
    ) {
        Some(scanner::run_end(c, e, Run::Newlines))
    } else {
        None
    } by {
        lemma_whole_run(Run::Newlines, c, e);
    }
    match scanner::last_newline(c, i, k) {
        Some(j) => {
            lemma_any_number(Run::Space, c, i, rest, j);
        },
        None => {
            lemma_no_number(Run::Space, c, i, rest);
        },
    }
}

proof fn lemma_alternative_6(c: Seq<char>, i: int)
    requires
        0 <= i < c.len(),
    ensures
        alternative_6(c, i) == scanner::space_lookahead(c, i),
{
    let rest = |j: int| not_before(|x: char| !text::white_space(x), c, j, done());
    let k = scanner::run_end(c, i, Run::Space);
    scanner::lemma_run_end(c, i, Run::Space);
    if scanner::in_run(Run::Space, c[i]) {
        assert(k == scanner::run_end(c, i + 1, Run::Space));
        if k == c.len() {
            lemma_any_number(Run::Space, c, i + 1, rest, k);
        } else if k >= i + 2 {
            assert(scanner::in_run(Run::Space, c[k - 1]));
            lemma_any_number(Run::Space, c, i + 1, rest, k - 1);
        } else {
            lemma_no_number(Run::Space, c, i + 1, rest);
        }
    }
}

/// The scanner finds what the pattern matches: at every position the end of the first
/// alternative that matches, with greedy quantifiers that backtrack.
pub proof fn scanner_matches_pattern(c: Seq<char>, i: int, marks: bool)
    requires
        0 <= i < c.len(),
    ensures
        scanner::alternative(c, i, marks) == pattern(c, i, marks),
{
    lemma_alternative_1(c, i);
    lemma_alternative_2(c, i, marks);
    lemma_alternative_4(c, i, marks);
    lemma_alternative_5(c, i);
    lemma_alternative_6(c, i);
    lemma_whole_run(Run::Space, c, i);
    scanner::lemma_run_end(c, i, Run::Space);
}

// ---------------------------------------------------------------------------
// pieces
// ---------------------------------------------------------------------------
/// The pieces are not empty, each begins where the one before it ends, and together they
/// cover the text.
pub proof fn pieces_cover_the_text(c: Seq<char>, i: int, marks: bool)
    requires
        0 <= i <= c.len(),
    ensures
        ({
            let p = scanner::pieces(c, i, marks);
            &&& p.len() == 0 <==> i == c.len()
            &&& p.len() > 0 ==> p[0].0 == i && p.last().1 == c.len()
            &&& forall|k: int| 0 <= k < p.len() ==> i <= (#[trigger] p[k]).0 < p[k].1 <= c.len()
            &&& forall|k: int| 0 <= k < p.len() - 1 ==> (#[trigger] p[k]).1 == p[k + 1].0
        }),
    decreases c.len() - i,
{
    if i < c.len() {
        scanner::every_character_matches(c, i, marks);
        let j = scanner::alternative(c, i, marks)->0;
        pieces_cover_the_text(c, j, marks);
        let p = scanner::pieces(c, i, marks);
        let q = scanner::pieces(c, j, marks);
        assert(p == seq![(i, j)] + q);
        assert forall|k: int| 0 <= k < p.len() implies i <= (#[trigger] p[k]).0 < p[k].1
            <= c.len() by {
            if k > 0 {
                assert(p[k] == q[k - 1]);
            }
        }
        assert forall|k: int| 0 <= k < p.len() - 1 implies (#[trigger] p[k]).1 == p[k + 1].0 by {
            assert(p[k + 1] == q[k]);
            if k > 0 {
                assert(p[k] == q[k - 1]);
            }
        }
        if q.len() > 0 {
            assert(p.last() == q.last());
        }
    }
}

/// A piece is told by its bytes: it runs from as many bytes as what stands before it is encoded in
/// to as many as it and what stands before it are.
pub proof fn pieces_are_told_by_their_bytes(c: Seq<char>, p: Seq<(int, int)>, k: int)
    requires
        0 <= k < p.len(),
    ensures
        scanner::byte_ranges(c, p).len() == p.len(),
        scanner::byte_ranges(c, p)[k].0 == encode_utf8(c.take(p[k].0)).len(),
        scanner::byte_ranges(c, p)[k].1 == encode_utf8(c.take(p[k].1)).len(),
{
    text::lemma_utf8_bytes_is_encoded_len(c.take(p[k].0));
    text::lemma_utf8_bytes_is_encoded_len(c.take(p[k].1));
}

proof fn lemma_runs_agree(c: Seq<char>, i: int)
    requires
        forall|k: int| 0 <= k < c.len() ==> !unicode_lookup::mark(#[trigger] c[k]),
        0 <= i <= c.len(),
    ensures
        scanner::run_end(c, i, Run::Letters { marks: true }) == scanner::run_end(
            c,
            i,
            Run::Letters { marks: false },
        ),
        scanner::run_end(c, i, Run::Symbols { marks: true }) == scanner::run_end(
            c,
            i,
            Run::Symbols { marks: false },
        ),
    decreases c.len() - i,
{
    if i < c.len() {
        lemma_runs_agree(c, i + 1);
    }
}

/// The two patterns differ only where there are combining marks: a text without any has
/// the same pieces under both.
pub proof fn patterns_agree_without_marks(c: Seq<char>, i: int)
    requires
        forall|k: int| 0 <= k < c.len() ==> !unicode_lookup::mark(#[trigger] c[k]),
        0 <= i <= c.len(),
    ensures
        scanner::pieces(c, i, true) == scanner::pieces(c, i, false),
    decreases c.len() - i,
{
    if i < c.len() {
        lemma_runs_agree(c, i);
        lemma_runs_agree(c, i + 1);
        assert(scanner::letters(c, i, true) == scanner::letters(c, i, false));
        assert(scanner::symbols(c, i, true) == scanner::symbols(c, i, false));
        assert(scanner::alternative(c, i, true) == scanner::alternative(c, i, false));
        scanner::every_character_matches(c, i, true);
        patterns_agree_without_marks(c, scanner::alternative(c, i, true)->0);
    }
}

} // verus!
