//! The pre-tokenizer: a scanner for the Qwen2 pattern.
//!
//! ```text
//! (?i:'s|'t|'re|'ve|'m|'ll|'d)       1  contractions, case-insensitive
//! |[^\r\n\p{L}\p{N}]?[\p{L}\p{M}]+   2  one optional non-letter/digit/newline, then letters
//! |\p{N}                             3  a single number-class character
//! | ?[^\s\p{L}\p{M}\p{N}]+[\r\n]*    4  optional space, symbol run, trailing newlines
//! |\s*[\r\n]+                        5  whitespace ending in newlines
//! |\s+(?!\S)                         6  whitespace not immediately before a non-space
//! |\s+                               7  whitespace
//! ```
//!
//! At each position the alternatives are tried **in order** and the first match wins,
//! with greedy quantifiers that backtrack -- Perl semantics, not longest-match. Three
//! observations pin down the parts that are easy to get wrong:
//!
//! * `"Hello world"` -> `["Hello", "Ġworld"]`. The space belongs to alternative 2,
//!   via its optional prefix, and is *not* a separate piece.
//! * `"a+b"` -> 2 tokens but `"a++b"` -> 3. Alternative 2's optional prefix takes
//!   **exactly one** character, so `"+b"` is one piece while `"++"` falls through to
//!   alternative 4.
//! * `"  leading"` -> `["Ġ", "Ġleading"]`. Alternative 6 means "the whitespace run, minus
//!   its last character, unless the run reaches the end of input".
use crate::text;
use crate::text::{char_width, is_white_space, str_chars};
use crate::unicode_lookup;
use crate::unicode_lookup::{is_letter, is_mark, is_number};
use vstd::prelude::*;

verus! {

// ---------------------------------------------------------------------------
// what is matched
// ---------------------------------------------------------------------------
/// A class of characters that the pattern repeats. `marks` says whether combining marks
/// join letters.
#[derive(Clone, Copy)]
pub enum Run {
    /// `[\p{L}\p{M}]`, or `\p{L}` without marks.
    Letters { marks: bool },
    /// `[^\s\p{L}\p{M}\p{N}]`, or `[^\s\p{L}\p{N}]` without marks.
    Symbols { marks: bool },
    /// `\s`
    Space,
    /// `[\r\n]`
    Newlines,
}

/// Whether `c` belongs to the class.
pub open spec fn in_run(run: Run, c: char) -> bool {
    match run {
        Run::Letters { marks } => unicode_lookup::letter(c) || (marks && unicode_lookup::mark(c)),
        Run::Symbols { marks } => !text::white_space(c) && !unicode_lookup::letter(c)
            && !unicode_lookup::number(c) && !(marks && unicode_lookup::mark(c)),
        Run::Space => text::white_space(c),
        Run::Newlines => c == '\r' || c == '\n',
    }
}

/// The end of the run of the class that starts at `i`.
pub open spec fn run_end(c: Seq<char>, i: int, run: Run) -> int
    decreases c.len() - i,
{
    if 0 <= i < c.len() && in_run(run, c[i]) {
        run_end(c, i + 1, run)
    } else {
        i
    }
}

/// The lower case of an ASCII letter, and any other character itself.
pub open spec fn ascii_lower(c: char) -> char {
    if 'A' <= c <= 'Z' {
        (c as u32 + 32) as char
    } else {
        c
    }
}

/// Whether the lower case of what stands at `i` is `x`.
pub open spec fn lower_at(c: Seq<char>, i: int, x: char) -> bool {
    0 <= i < c.len() && ascii_lower(c[i]) == x
}

/// Alternative 1: `(?i:'s|'t|'re|'ve|'m|'ll|'d)`.
pub open spec fn contraction(c: Seq<char>, i: int) -> Option<int> {
    if c[i] != '\'' {
        None
    } else if lower_at(c, i + 1, 's') || lower_at(c, i + 1, 't') || lower_at(c, i + 1, 'm')
        || lower_at(c, i + 1, 'd') {
        Some(i + 2)
    } else if (lower_at(c, i + 1, 'r') && lower_at(c, i + 2, 'e')) || (lower_at(c, i + 1, 'v')
        && lower_at(c, i + 2, 'e')) || (lower_at(c, i + 1, 'l') && lower_at(c, i + 2, 'l')) {
        Some(i + 3)
    } else {
        None
    }
}

/// Whether `c` can be the optional prefix of alternative 2: `[^\r\n\p{L}\p{N}]`.
pub open spec fn letter_prefix(c: char) -> bool {
    c != '\r' && c != '\n' && !unicode_lookup::letter(c) && !unicode_lookup::number(c)
}

/// Alternative 2: `[^\r\n\p{L}\p{N}]?[\p{L}\p{M}]+`.
pub open spec fn letters(c: Seq<char>, i: int, marks: bool) -> Option<int> {
    let run = Run::Letters { marks };
    if letter_prefix(c[i]) && i + 1 < c.len() && in_run(run, c[i + 1]) {
        Some(run_end(c, i + 1, run))
    } else if in_run(run, c[i]) {
        Some(run_end(c, i, run))
    } else {
        None
    }
}

/// Alternative 4: ` ?[^\s\p{L}\p{M}\p{N}]+[\r\n]*`.
pub open spec fn symbols(c: Seq<char>, i: int, marks: bool) -> Option<int> {
    let run = Run::Symbols { marks };
    let start = if c[i] == ' ' {
        i + 1
    } else {
        i
    };
    if start < c.len() && in_run(run, c[start]) {
        Some(run_end(c, run_end(c, start, run), Run::Newlines))
    } else {
        None
    }
}

/// The last newline in `i..k`.
pub open spec fn last_newline(c: Seq<char>, i: int, k: int) -> Option<int>
    decreases k - i,
{
    if k <= i {
        None
    } else if in_run(Run::Newlines, c[k - 1]) {
        Some(k - 1)
    } else {
        last_newline(c, i, k - 1)
    }
}

/// Alternative 5: `\s*[\r\n]+`. Greedy `\s*` wants the whole run of white space, so it
/// backtracks to the last newline in it.
pub open spec fn space_to_newline(c: Seq<char>, i: int) -> Option<int> {
    match last_newline(c, i, run_end(c, i, Run::Space)) {
        Some(j) => Some(run_end(c, j, Run::Newlines)),
        None => None,
    }
}

/// Alternative 6: `\s+(?!\S)`. The run of white space, minus its last character -- unless
/// the run reaches the end of input.
pub open spec fn space_lookahead(c: Seq<char>, i: int) -> Option<int> {
    let k = run_end(c, i, Run::Space);
    if k == i {
        None
    } else if k == c.len() {
        Some(k)
    } else if k >= i + 2 {
        Some(k - 1)
    } else {
        None
    }
}

/// Alternative 7: `\s+`.
pub open spec fn space(c: Seq<char>, i: int) -> Option<int> {
    let k = run_end(c, i, Run::Space);
    if k == i {
        None
    } else {
        Some(k)
    }
}

/// The end of the first alternative that matches at `i`.
pub open spec fn alternative(c: Seq<char>, i: int, marks: bool) -> Option<int> {
    match contraction(c, i) {
        Some(j) => Some(j),
        None => match letters(c, i, marks) {
            Some(j) => Some(j),
            None => if unicode_lookup::number(c[i]) {
                Some(i + 1)
            } else {
                match symbols(c, i, marks) {
                    Some(j) => Some(j),
                    None => match space_to_newline(c, i) {
                        Some(j) => Some(j),
                        None => match space_lookahead(c, i) {
                            Some(j) => Some(j),
                            None => space(c, i),
                        },
                    },
                }
            },
        },
    }
}

pub proof fn lemma_run_end(c: Seq<char>, i: int, run: Run)
    requires
        0 <= i <= c.len(),
    ensures
        i <= run_end(c, i, run) <= c.len(),
        forall|k: int| i <= k < run_end(c, i, run) ==> in_run(run, #[trigger] c[k]),
        run_end(c, i, run) < c.len() ==> !in_run(run, c[run_end(c, i, run)]),
    decreases c.len() - i,
{
    if i < c.len() && in_run(run, c[i]) {
        lemma_run_end(c, i + 1, run);
    }
}

pub proof fn lemma_last_newline(c: Seq<char>, i: int, k: int)
    requires
        0 <= i <= k <= c.len(),
    ensures
        match last_newline(c, i, k) {
            Some(j) => i <= j < k && in_run(Run::Newlines, c[j]) && forall|m: int|
                j < m < k ==> !in_run(Run::Newlines, #[trigger] c[m]),
            None => forall|m: int| i <= m < k ==> !in_run(Run::Newlines, #[trigger] c[m]),
        },
    decreases k - i,
{
    if i < k && !in_run(Run::Newlines, c[k - 1]) {
        lemma_last_newline(c, i, k - 1);
    }
}

/// Every character matches some alternative: letters and marks match 2, numbers match 3,
/// white space matches 5, 6 or 7, and anything else is a symbol and matches 4. What is
/// matched is not empty.
pub proof fn every_character_matches(c: Seq<char>, i: int, marks: bool)
    requires
        0 <= i < c.len(),
    ensures
        alternative(c, i, marks) is Some,
        i < alternative(c, i, marks)->0 <= c.len(),
{
    let letters_run = Run::Letters { marks };
    let symbols_run = Run::Symbols { marks };
    lemma_run_end(c, i, letters_run);
    lemma_run_end(c, i + 1, letters_run);
    lemma_run_end(c, i, symbols_run);
    lemma_run_end(c, i + 1, symbols_run);
    lemma_run_end(c, run_end(c, i, symbols_run), Run::Newlines);
    lemma_run_end(c, run_end(c, i + 1, symbols_run), Run::Newlines);
    lemma_run_end(c, i, Run::Space);
    let k = run_end(c, i, Run::Space);
    lemma_last_newline(c, i, k);
    if let Some(j) = last_newline(c, i, k) {
        lemma_run_end(c, j, Run::Newlines);
    }
}

/// The pieces of `c` from `i` on, as character ranges.
pub open spec fn pieces(c: Seq<char>, i: int, marks: bool) -> Seq<(int, int)>
    decreases c.len() - i,
{
    if !(0 <= i < c.len()) {
        seq![]
    } else {
        proof {
            every_character_matches(c, i, marks);
        }
        let j = alternative(c, i, marks)->0;
        seq![(i, j)] + pieces(c, j, marks)
    }
}

/// Character ranges as byte ranges.
pub open spec fn byte_ranges(c: Seq<char>, p: Seq<(int, int)>) -> Seq<(int, int)> {
    Seq::new(
        p.len(),
        |k: int|
            (text::utf8_bytes(c.take(p[k].0)) as int, text::utf8_bytes(c.take(p[k].1)) as int),
    )
}

/// Ranges of machine integers as ranges of integers.
pub open spec fn int_ranges(p: Seq<(usize, usize)>) -> Seq<(int, int)> {
    Seq::new(p.len(), |k: int| (p[k].0 as int, p[k].1 as int))
}

// ---------------------------------------------------------------------------
// matching it
// ---------------------------------------------------------------------------
/// Whether `c` belongs to the class.
fn is_in_run(run: Run, c: char) -> (r: bool)
    ensures
        r == in_run(run, c),
{
    match run {
        Run::Letters { marks } => is_letter(c) || (marks && is_mark(c)),
        Run::Symbols { marks } => !is_white_space(c) && !is_letter(c) && !is_number(c) && !(marks
            && is_mark(c)),
        Run::Space => is_white_space(c),
        Run::Newlines => c == '\r' || c == '\n',
    }
}

/// The end of the run of the class that starts at `i`.
fn end_of_run(c: &[char], i: usize, run: Run) -> (r: usize)
    requires
        i <= c@.len(),
    ensures
        r == run_end(c@, i as int, run),
        i <= r <= c@.len(),
{
    let mut k: usize = i;
    while k < c.len() && is_in_run(run, c[k])
        invariant
            i <= k <= c@.len(),
            run_end(c@, i as int, run) == run_end(c@, k as int, run),
        decreases c.len() - k,
    {
        k += 1;
    }
    k
}

/// Whether the lower case of what stands at `i` is `x`.
fn is_lower_at(c: &[char], i: usize, x: char) -> (r: bool)
    ensures
        r == lower_at(c@, i as int, x),
{
    if i >= c.len() {
        return false;
    }
    let y: char = if 'A' <= c[i] && c[i] <= 'Z' {
        (c[i] as u8 + 32) as char
    } else {
        c[i]
    };
    y == x
}

/// Whether what was found is what the pattern says.
spec fn finds(r: Option<usize>, s: Option<int>) -> bool {
    match (r, s) {
        (Some(j), Some(k)) => j == k,
        (None, None) => true,
        _ => false,
    }
}

/// The contraction alternative, matched case-insensitively at `c[i]`.
fn match_contraction(c: &[char], i: usize) -> (r: Option<usize>)
    requires
        i < c@.len(),
    ensures
        finds(r, contraction(c@, i as int)),
{
    if c[i] != '\'' {
        return None;
    }
    let n: usize = c.len();
    if i + 1 >= n {
        return None;
    }
    if is_lower_at(c, i + 1, 's') || is_lower_at(c, i + 1, 't') || is_lower_at(c, i + 1, 'm')
        || is_lower_at(c, i + 1, 'd') {
        return Some(i + 2);
    }
    if i + 2 < n {
        if (is_lower_at(c, i + 1, 'r') && is_lower_at(c, i + 2, 'e')) || (is_lower_at(c, i + 1, 'v')
            && is_lower_at(c, i + 2, 'e')) || (is_lower_at(c, i + 1, 'l') && is_lower_at(
            c,
            i + 2,
            'l',
        )) {
            return Some(i + 3);
        }
    }
    None
}

/// `[^\r\n\p{L}\p{N}]?[\p{L}\p{M}]+`
///
/// Note what the negated class excludes: `\r`, `\n`, letters and numbers -- but **not
/// marks**. A mark can therefore be either the optional prefix or part of the run, and
/// both readings give the same end position, so the ambiguity is harmless.
fn match_letters(c: &[char], i: usize, marks_join: bool) -> (r: Option<usize>)
    requires
        i < c@.len(),
    ensures
        finds(r, letters(c@, i as int, marks_join)),
{
    let run = Run::Letters { marks: marks_join };
    let n: usize = c.len();
    let c0: char = c[i];
    // The optional prefix only helps if a letter or mark actually follows it.
    if c0 != '\r' && c0 != '\n' && !is_letter(c0) && !is_number(c0) && i + 1 < n && is_in_run(
        run,
        c[i + 1],
    ) {
        return Some(end_of_run(c, i + 1, run));
    }
    if is_in_run(run, c0) {
        return Some(end_of_run(c, i, run));
    }
    None
}

/// ` ?[^\s\p{L}\p{M}\p{N}]+[\r\n]*`
///
/// The leading ` ?` is a literal space, not `\s`, so a tab cannot start this
/// alternative. Since `\r` and `\n` are whitespace they are excluded from the symbol
/// run, which is why the trailing `[\r\n]*` can pick them up without backtracking.
fn match_symbols(c: &[char], i: usize, marks_join: bool) -> (r: Option<usize>)
    requires
        i < c@.len(),
    ensures
        finds(r, symbols(c@, i as int, marks_join)),
{
    let run = Run::Symbols { marks: marks_join };
    let n: usize = c.len();
    let start: usize = if c[i] == ' ' {
        i + 1
    } else {
        i
    };
    if start >= n || !is_in_run(run, c[start]) {
        return None;
    }
    let j: usize = end_of_run(c, start, run);
    Some(end_of_run(c, j, Run::Newlines))
}

/// `\s*[\r\n]+`
///
/// `"\n\na"` matches both newlines; `" \n "` matches `" \n"` and leaves the trailing space.
fn match_ws_then_newline(c: &[char], i: usize) -> (r: Option<usize>)
    requires
        i < c@.len(),
    ensures
        finds(r, space_to_newline(c@, i as int)),
{
    let end: usize = end_of_run(c, i, Run::Space);
    let mut k: usize = end;
    while k > i
        invariant
            i <= k <= end <= c@.len(),
            end == run_end(c@, i as int, Run::Space),
            last_newline(c@, i as int, end as int) == last_newline(c@, i as int, k as int),
        decreases k,
    {
        if c[k - 1] == '\r' || c[k - 1] == '\n' {
            return Some(end_of_run(c, k - 1, Run::Newlines));
        }
        k -= 1;
    }
    None
}

/// `\s+(?!\S)`
fn match_ws_lookahead(c: &[char], i: usize) -> (r: Option<usize>)
    requires
        i < c@.len(),
    ensures
        finds(r, space_lookahead(c@, i as int)),
{
    let k: usize = end_of_run(c, i, Run::Space);
    if k == i {
        None
    } else if k == c.len() {
        Some(k)
    } else if k >= i + 2 {
        Some(k - 1)
    } else {
        None
    }
}

/// `\s+`
fn match_whitespace(c: &[char], i: usize) -> (r: Option<usize>)
    requires
        i < c@.len(),
    ensures
        finds(r, space(c@, i as int)),
{
    let k: usize = end_of_run(c, i, Run::Space);
    if k == i {
        None
    } else {
        Some(k)
    }
}

/// Try the alternatives in order at char index `i`; return the end index.
fn match_alternative(c: &[char], i: usize, marks_join: bool) -> (r: usize)
    requires
        i < c@.len(),
    ensures
        alternative(c@, i as int, marks_join) == Some(r as int),
        i < r <= c@.len(),
{
    proof {
        every_character_matches(c@, i as int, marks_join);
    }
    if let Some(j) = match_contraction(c, i) {
        return j;
    }
    if let Some(j) = match_letters(c, i, marks_join) {
        return j;
    }
    if is_number(c[i]) {
        return i + 1;
    }
    if let Some(j) = match_symbols(c, i, marks_join) {
        return j;
    }
    if let Some(j) = match_ws_then_newline(c, i) {
        return j;
    }
    if let Some(j) = match_ws_lookahead(c, i) {
        return j;
    }
    match match_whitespace(c, i) {
        Some(j) => j,
        None => i + 1,
    }
}

/// The pieces of `c`, as character ranges.
pub(crate) fn scan(c: &[char], marks_join: bool) -> (r: Vec<(usize, usize)>)
    ensures
        int_ranges(r@) == pieces(c@, 0, marks_join),
{
    let mut out: Vec<(usize, usize)> = Vec::new();
    let mut i: usize = 0;
    assert(int_ranges(out@) + pieces(c@, 0, marks_join) =~= pieces(c@, 0, marks_join));
    while i < c.len()
        invariant
            i <= c@.len(),
            pieces(c@, 0, marks_join) == int_ranges(out@) + pieces(c@, i as int, marks_join),
        decreases c.len() - i,
    {
        let j: usize = match_alternative(c, i, marks_join);
        let ghost before = int_ranges(out@);
        out.push((i, j));
        proof {
            assert(int_ranges(out@) =~= before.push((i as int, j as int)));
            assert(before + (seq![(i as int, j as int)] + pieces(c@, j as int, marks_join))
                =~= int_ranges(out@) + pieces(c@, j as int, marks_join));
        }
        i = j;
    }
    assert(int_ranges(out@) + Seq::<(int, int)>::empty() =~= int_ranges(out@));
    out
}

/// Split `text` into pieces, as byte ranges, with combining marks treated as part of
/// the letter run (the `tokenizer.json` behaviour).
pub fn pretokenize(text: &str) -> (r: Vec<(usize, usize)>)
    ensures
        int_ranges(r@) == byte_ranges(text@, pieces(text@, 0, true)),
{
    pretokenize_with(text, true)
}

/// Split `text` into pieces, choosing whether combining marks join letter runs.
///
/// `marks_join = false` reproduces `Qwen2Tokenizer`, which is what
/// `AutoTokenizer` uses for this checkpoint.
pub fn pretokenize_with(text: &str, marks_join: bool) -> (r: Vec<(usize, usize)>)
    ensures
        int_ranges(r@) == byte_ranges(text@, pieces(text@, 0, marks_join)),
{
    let chars = str_chars(text);
    let c: &[char] = chars.as_slice();
    let mut out: Vec<(usize, usize)> = Vec::new();
    let mut i: usize = 0;
    let mut start: usize = 0;
    let ghost all = pieces(c@, 0, marks_join);
    proof {
        assert(byte_ranges(c@, seq![]) =~= seq![]);
        assert(int_ranges(out@) =~= seq![]);
        assert(all =~= all.take(0) + all);
        assert(c@.take(0) =~= seq![]);
    }
    let ghost mut done: Seq<(int, int)> = seq![];
    while i < c.len()
        invariant
            i <= c@.len(),
            text::utf8_bytes(c@) <= usize::MAX,
            start == text::utf8_bytes(c@.take(i as int)),
            all == done + pieces(c@, i as int, marks_join),
            int_ranges(out@) == byte_ranges(c@, done),
        decreases c.len() - i,
    {
        let j: usize = match_alternative(c, i, marks_join);
        let end: usize = piece_end(c, i, j, start);
        let ghost before = int_ranges(out@);
        let ghost piece = (i as int, j as int);
        out.push((start, end));
        proof {
            let next = done.push(piece);
            assert(done + (seq![piece] + pieces(c@, j as int, marks_join)) =~= next + pieces(
                c@,
                j as int,
                marks_join,
            ));
            assert(int_ranges(out@) =~= before.push((start as int, end as int)));
            assert(byte_ranges(c@, next) =~= byte_ranges(c@, done).push(
                (start as int, end as int),
            ));
            done = next;
        }
        start = end;
        i = j;
    }
    assert(done + Seq::<(int, int)>::empty() =~= done);
    out
}

/// The byte offset of `j`, from that of `i`.
fn piece_end(c: &[char], i: usize, j: usize, start: usize) -> (r: usize)
    requires
        i <= j <= c@.len(),
        text::utf8_bytes(c@) <= usize::MAX,
        start == text::utf8_bytes(c@.take(i as int)),
    ensures
        r == text::utf8_bytes(c@.take(j as int)),
{
    let mut end: usize = start;
    let mut k: usize = i;
    while k < j
        invariant
            i <= k <= j <= c@.len(),
            text::utf8_bytes(c@) <= usize::MAX,
            end == text::utf8_bytes(c@.take(k as int)),
        decreases j - k,
    {
        proof {
            assert(c@.take(k + 1).drop_last() =~= c@.take(k as int));
            assert(c@ =~= c@.take(k + 1) + c@.skip(k + 1));
            text::lemma_utf8_bytes_concat(c@.take(k + 1), c@.skip(k + 1));
        }
        end += char_width(c[k]);
        k += 1;
    }
    end
}

} // verus!
