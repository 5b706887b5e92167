//! Text as sequences of characters: the small operations that the parsers and
//! writers of this crate are built from.
use vstd::prelude::*;
use vstd::slice::slice_subrange;
use vstd::utf8::*;

verus! {

/// `String::push`: appends one character.
pub assume_specification[ String::push ](s: &mut String, c: char)
    ensures
        final(s)@ == old(s)@.push(c),
;

/// Whether `u` is a Unicode scalar value: a code point that is not a surrogate.
pub open spec fn scalar_value(u: u32) -> bool {
    u < 0xd800 || 0xe000 <= u < 0x110000
}

/// `char::from_u32`: the character with that scalar value, and `None` for a number
/// that is no scalar value.
pub assume_specification[ char::from_u32 ](u: u32) -> (r: Option<char>)
    ensures
        scalar_value(u) ==> r == Some(u as char),
        !scalar_value(u) ==> r is None,
;

/// Whether `c` has the Unicode property `White_Space`.
pub open spec fn white_space(c: char) -> bool {
    ||| '\u{9}' <= c <= '\u{d}'
    ||| c == '\u{20}'
    ||| c == '\u{85}'
    ||| c == '\u{a0}'
    ||| c == '\u{1680}'
    ||| '\u{2000}' <= c <= '\u{200a}'
    ||| c == '\u{2028}'
    ||| c == '\u{2029}'
    ||| c == '\u{202f}'
    ||| c == '\u{205f}'
    ||| c == '\u{3000}'
}

/// Whether `c` has the Unicode property `White_Space`.
pub fn is_white_space(c: char) -> (r: bool)
    ensures
        r == white_space(c),
{
    ('\u{9}' <= c && c <= '\u{d}') || c == '\u{20}' || c == '\u{85}' || c == '\u{a0}' || c
        == '\u{1680}' || ('\u{2000}' <= c && c <= '\u{200a}') || c == '\u{2028}' || c == '\u{2029}'
        || c == '\u{202f}' || c == '\u{205f}' || c == '\u{3000}'
}

// ---------------------------------------------------------------------------
// UTF-8 lengths
// ---------------------------------------------------------------------------
/// How many bytes UTF-8 spends on `c`.
pub open spec fn utf8_width(c: char) -> nat {
    if (c as u32) < 0x80 {
        1
    } else if (c as u32) < 0x800 {
        2
    } else if (c as u32) < 0x10000 {
        3
    } else {
        4
    }
}

/// How many bytes UTF-8 spends on `s`.
pub open spec fn utf8_bytes(s: Seq<char>) -> nat
    decreases s.len(),
{
    if s.len() == 0 {
        0
    } else {
        utf8_bytes(s.drop_last()) + utf8_width(s.last())
    }
}

/// How many bytes UTF-8 spends on `c`.
pub fn char_width(c: char) -> (r: usize)
    ensures
        r == utf8_width(c),
{
    if (c as u32) < 0x80 {
        1
    } else if (c as u32) < 0x800 {
        2
    } else if (c as u32) < 0x10000 {
        3
    } else {
        4
    }
}

pub proof fn lemma_utf8_bytes_concat(a: Seq<char>, b: Seq<char>)
    ensures
        utf8_bytes(a + b) == utf8_bytes(a) + utf8_bytes(b),
    decreases b.len(),
{
    if b.len() == 0 {
        assert(a + b =~= a);
    } else {
        assert((a + b).drop_last() =~= a + b.drop_last());
        lemma_utf8_bytes_concat(a, b.drop_last());
    }
}

/// `utf8_bytes` counts the bytes of the encoding.
pub proof fn lemma_utf8_bytes_is_encoded_len(s: Seq<char>)
    ensures
        utf8_bytes(s) == encode_utf8(s).len(),
    decreases s.len(),
{
    if s.len() > 0 {
        let first = seq![s[0]];
        let rest = s.drop_first();
        lemma_utf8_bytes_is_encoded_len(rest);
        lemma_utf8_bytes_concat(first, rest);
        assert(s =~= first + rest);
        assert(utf8_bytes(first) == utf8_width(s[0])) by {
            assert(first.drop_last() =~= Seq::<char>::empty());
            assert(utf8_bytes(first.drop_last()) == 0);
        }
        char_is_scalar(s[0]);
        assert(encode_scalar(s[0] as u32).len() == utf8_width(s[0]));
    }
}

/// How many of the characters from `i` on fit in `room` bytes.
pub open spec fn whole_chars(c: Seq<char>, i: int, room: nat) -> nat
    decreases c.len() - i,
{
    if 0 <= i < c.len() && utf8_width(c[i]) <= room {
        1 + whole_chars(c, i + 1, (room - utf8_width(c[i])) as nat)
    } else {
        0
    }
}

pub proof fn lemma_whole_chars(c: Seq<char>, i: int, room: nat)
    requires
        0 <= i <= c.len(),
    ensures
        i + whole_chars(c, i, room) <= c.len(),
        whole_chars(c, i, room) <= room,
    decreases c.len() - i,
{
    if i < c.len() && utf8_width(c[i]) <= room {
        lemma_whole_chars(c, i + 1, (room - utf8_width(c[i])) as nat);
    }
}

/// The longest beginning of `c` that fits in `room` bytes.
pub open spec fn cut(c: Seq<char>, room: nat) -> Seq<char> {
    c.take(whole_chars(c, 0, room) as int)
}

/// The longest beginning of `c` that fits in `room` bytes.
pub fn cut_text(c: &[char], room: usize) -> (r: String)
    ensures
        r@ == cut(c@, room as nat),
{
    let mut k: usize = 0;
    let mut left: usize = room;
    while k < c.len() && char_width(c[k]) <= left
        invariant
            k <= c@.len(),
            whole_chars(c@, 0, room as nat) == k + whole_chars(c@, k as int, left as nat),
        decreases c.len() - k,
    {
        left -= char_width(c[k]);
        k += 1;
    }
    assert(c@.subrange(0, k as int) =~= c@.take(k as int));
    chars_string(c, 0, k)
}

/// A text in memory spends at most `usize::MAX` bytes on its characters.
pub fn str_chars(s: &str) -> (r: Vec<char>)
    ensures
        r@ == s@,
        utf8_bytes(r@) <= usize::MAX,
{
    let mut out: Vec<char> = Vec::new();
    let bytes: usize = s.as_bytes().len();
    proof {
        lemma_utf8_bytes_is_encoded_len(s@);
    }
    for c in it: s.chars()
        invariant
            out@ == s@.take(it.index() as int),
            it.seq() == s@,
            it.index() <= s@.len(),
            utf8_bytes(s@) == bytes,
    {
        out.push(c);
        assert(s@.take(it.index() as int).push(c) =~= s@.take(it.index() as int + 1));
    }
    assert(s@.take(s@.len() as int) =~= s@);
    out
}

/// The text made of the characters `c[from..to]`.
pub fn chars_string(c: &[char], from: usize, to: usize) -> (r: String)
    requires
        from <= to <= c@.len(),
    ensures
        r@ == c@.subrange(from as int, to as int),
{
    let mut out = String::new();
    let mut i: usize = from;
    while i < to
        invariant
            from <= i <= to <= c@.len(),
            out@ == c@.subrange(from as int, i as int),
        decreases to - i,
    {
        out.push(c[i]);
        assert(c@.subrange(from as int, i as int).push(c@[i as int]) =~= c@.subrange(
            from as int,
            i + 1,
        ));
        i += 1;
    }
    out
}

// ---------------------------------------------------------------------------
// decimal numerals
// ---------------------------------------------------------------------------
/// The character of a decimal digit.
pub open spec fn digit_char(d: nat) -> char {
    (d + 48) as char
}

/// `n` in decimal, without leading zeros.
pub open spec fn decimal(n: nat) -> Seq<char>
    decreases n,
{
    if n < 10 {
        seq![digit_char(n)]
    } else {
        decimal(n / 10).push(digit_char(n % 10))
    }
}

/// `n` in decimal, with a `-` in front of a negative number.
pub open spec fn decimal_int(n: int) -> Seq<char> {
    if n < 0 {
        seq!['-'] + decimal((-n) as nat)
    } else {
        decimal(n as nat)
    }
}

/// Writes `n` in decimal at the end of `out`.
pub fn push_decimal(out: &mut String, n: u128)
    ensures
        final(out)@ == old(out)@ + decimal(n as nat),
    decreases n,
{
    if n >= 10 {
        push_decimal(out, n / 10);
    }
    let d: u8 = (n % 10) as u8;
    out.push((d + 48) as char);
    assert(out@ =~= old(out)@ + decimal(n as nat));
}

/// Writes `n` in decimal at the end of `out`.
pub fn push_decimal_int(out: &mut String, n: i128)
    ensures
        final(out)@ == old(out)@ + decimal_int(n as int),
{
    if n < 0 {
        out.push('-');
        let magnitude: u128 = if n == i128::MIN {
            0x8000_0000_0000_0000_0000_0000_0000_0000
        } else {
            (-n) as u128
        };
        push_decimal(out, magnitude);
        assert(out@ =~= old(out)@ + decimal_int(n as int));
    } else {
        push_decimal(out, n as u128);
    }
}

/// Writes `c[from..to]` at the end of `out`.
pub fn push_chars(out: &mut String, c: &Vec<char>, from: usize, to: usize)
    requires
        from <= to <= c@.len(),
    ensures
        final(out)@ == old(out)@ + c@.subrange(from as int, to as int),
{
    let mut i: usize = from;
    while i < to
        invariant
            from <= i <= to <= c@.len(),
            out@ == old(out)@ + c@.subrange(from as int, i as int),
        decreases to - i,
    {
        out.push(c[i]);
        i += 1;
        assert(out@ =~= old(out)@ + c@.subrange(from as int, i as int));
    }
}

/// Appends `tail`.
pub fn push_text(out: &mut String, tail: &str)
    ensures
        final(out)@ == old(out)@ + tail@,
{
    out.append(tail);
}

// ---------------------------------------------------------------------------
// comparing and searching
// ---------------------------------------------------------------------------
/// Whether two texts are the same.
pub fn same_text(a: &str, b: &str) -> (r: bool)
    ensures
        r == (a@ == b@),
{
    let x = a.as_bytes();
    let y = b.as_bytes();
    proof {
        encode_utf8_decode_utf8(a@);
        encode_utf8_decode_utf8(b@);
    }
    if x.len() != y.len() {
        return false;
    }
    let mut i: usize = 0;
    while i < x.len()
        invariant
            i <= x@.len() == y@.len(),
            x@ == encode_utf8(a@),
            y@ == encode_utf8(b@),
            forall|k: int| 0 <= k < i ==> x@[k] == y@[k],
        decreases x.len() - i,
    {
        if x[i] != y[i] {
            return false;
        }
        i += 1;
    }
    assert(x@ =~= y@);
    true
}

/// Whether `part` stands in `whole` at `i`.
pub open spec fn matches_at(whole: Seq<char>, part: Seq<char>, i: int) -> bool {
    0 <= i && i + part.len() <= whole.len() && whole.subrange(i, i + part.len()) == part
}

/// The first position at or after `from` at which `part` stands in `whole`.
pub open spec fn find_from(whole: Seq<char>, part: Seq<char>, from: int) -> Option<int>
    decreases whole.len() - from + 1,
{
    if from + part.len() > whole.len() {
        None
    } else if matches_at(whole, part, from) {
        Some(from)
    } else {
        find_from(whole, part, from + 1)
    }
}

/// Whether `part` stands in `whole` at `i`.
pub fn stands_at(whole: &[char], part: &[char], i: usize) -> (r: bool)
    ensures
        r == matches_at(whole@, part@, i as int),
{
    if i > whole.len() || part.len() > whole.len() - i {
        return false;
    }
    let mut k: usize = 0;
    while k < part.len()
        invariant
            i + part@.len() <= whole@.len() == whole.len(),
            k <= part@.len(),
            forall|j: int| 0 <= j < k ==> whole@[i + j] == part@[j],
        decreases part.len() - k,
    {
        if whole[i + k] != part[k] {
            assert(whole@.subrange(i as int, i + part@.len())[k as int] != part@[k as int]);
            return false;
        }
        k += 1;
    }
    assert(whole@.subrange(i as int, i + part@.len()) =~= part@);
    true
}

/// The first position at or after `from` at which `part` stands in `whole`.
pub fn find(whole: &[char], part: &[char], from: usize) -> (r: Option<usize>)
    requires
        from <= whole@.len(),
    ensures
        match r {
            Some(i) => find_from(whole@, part@, from as int) == Some(i as int),
            None => find_from(whole@, part@, from as int) is None,
        },
{
    let mut i: usize = from;
    loop
        invariant
            from <= i <= whole@.len(),
            find_from(whole@, part@, from as int) == find_from(whole@, part@, i as int),
        decreases whole.len() - i,
    {
        if part.len() > whole.len() - i {
            return None;
        }
        if stands_at(whole, part, i) {
            return Some(i);
        }
        if i == whole.len() {
            assert(whole@.subrange(i as int, i as int) =~= part@);
            return None;
        }
        i += 1;
    }
}

/// What `find_from` gives is an occurrence, with none before it.
pub proof fn lemma_find_from(whole: Seq<char>, part: Seq<char>, from: int)
    requires
        0 <= from,
    ensures
        match find_from(whole, part, from) {
            Some(i) => from <= i && matches_at(whole, part, i) && forall|j: int|
                from <= j < i ==> !#[trigger] matches_at(whole, part, j),
            None => forall|j: int| from <= j ==> !#[trigger] matches_at(whole, part, j),
        },
    decreases whole.len() - from + 1,
{
    if from + part.len() <= whole.len() && !matches_at(whole, part, from) {
        lemma_find_from(whole, part, from + 1);
    }
}

/// The last position at or before `upto` at which `part` stands in `whole`.
pub open spec fn find_back(whole: Seq<char>, part: Seq<char>, upto: int) -> Option<int>
    decreases upto + 1,
{
    if upto < 0 {
        None
    } else if matches_at(whole, part, upto) {
        Some(upto)
    } else {
        find_back(whole, part, upto - 1)
    }
}

/// Whether `part` stands anywhere in `whole`.
pub open spec fn has_text(whole: Seq<char>, part: Seq<char>) -> bool {
    find_from(whole, part, 0) is Some
}

/// `whole` up to the first `sep`, and all of it where there is none.
pub open spec fn before_first(whole: Seq<char>, sep: Seq<char>) -> Seq<char> {
    match find_from(whole, sep, 0) {
        Some(i) => whole.take(i),
        None => whole,
    }
}

/// `whole` behind the first `sep`, and nothing where there is none.
pub open spec fn after_first(whole: Seq<char>, sep: Seq<char>) -> Seq<char> {
    match find_from(whole, sep, 0) {
        Some(i) => whole.skip(i + sep.len()),
        None => seq![],
    }
}

/// `whole` behind the last `sep`, and all of it where there is none.
pub open spec fn after_last(whole: Seq<char>, sep: Seq<char>) -> Seq<char> {
    match find_back(whole, sep, whole.len() as int) {
        Some(i) => whole.skip(i + sep.len()),
        None => whole,
    }
}

/// Whether `whole` starts with `part`.
pub open spec fn has_prefix(whole: Seq<char>, part: Seq<char>) -> bool {
    matches_at(whole, part, 0)
}

/// Whether `whole` ends with `part`.
pub open spec fn has_suffix(whole: Seq<char>, part: Seq<char>) -> bool {
    matches_at(whole, part, whole.len() - part.len())
}

/// Where the first `part` stands in `whole`.
pub fn find_text(whole: &[char], part: &str) -> (r: Option<usize>)
    ensures
        match r {
            Some(i) => find_from(whole@, part@, 0) == Some(i as int) && i + part@.len()
                <= whole@.len(),
            None => find_from(whole@, part@, 0) is None,
        },
{
    let p = str_chars(part);
    proof {
        lemma_find_from(whole@, part@, 0);
    }
    find(whole, &p, 0)
}

/// `whole` before and behind the first `sep`.
pub fn split_once<'a>(whole: &'a [char], sep: &str) -> (r: Option<(&'a [char], &'a [char])>)
    ensures
        match r {
            Some((a, b)) => has_text(whole@, sep@) && a@ == before_first(whole@, sep@) && b@
                == after_first(whole@, sep@),
            None => !has_text(whole@, sep@),
        },
{
    let p = str_chars(sep);
    proof {
        lemma_find_from(whole@, sep@, 0);
    }
    match find(whole, &p, 0) {
        Some(i) => {
            let n: usize = whole.len();
            let a = slice_subrange(whole, 0, i);
            let b = slice_subrange(whole, i + p.len(), n);
            assert(a@ =~= whole@.take(i as int));
            assert(b@ =~= whole@.skip(i + sep@.len()));
            Some((a, b))
        },
        None => None,
    }
}

/// `whole` behind the last `sep`, and all of it where there is none.
pub fn last_piece<'a>(whole: &'a [char], sep: &str) -> (r: &'a [char])
    ensures
        r@ == after_last(whole@, sep@),
{
    let p = str_chars(sep);
    let n: usize = whole.len();
    let mut i: usize = n;
    loop
        invariant
            p@ == sep@,
            i <= n == whole@.len(),
            find_back(whole@, sep@, n as int) == find_back(whole@, sep@, i as int),
        decreases i,
    {
        if stands_at(whole, &p, i) {
            let b = slice_subrange(whole, i + p.len(), n);
            assert(b@ =~= whole@.skip(i + sep@.len()));
            return b;
        }
        if i == 0 {
            assert(find_back(whole@, sep@, -1) is None);
            return whole;
        }
        i -= 1;
    }
}

/// `whole` behind `prefix`, where it starts with it.
pub fn strip_prefix<'a>(whole: &'a [char], prefix: &str) -> (r: Option<&'a [char]>)
    ensures
        match r {
            Some(b) => has_prefix(whole@, prefix@) && b@ == whole@.skip(prefix@.len() as int),
            None => !has_prefix(whole@, prefix@),
        },
{
    let p = str_chars(prefix);
    if stands_at(whole, &p, 0) {
        let b = slice_subrange(whole, p.len(), whole.len());
        assert(b@ =~= whole@.skip(prefix@.len() as int));
        Some(b)
    } else {
        None
    }
}

/// `whole` before `suffix`, where it ends with it.
pub fn strip_suffix<'a>(whole: &'a [char], suffix: &str) -> (r: Option<&'a [char]>)
    ensures
        match r {
            Some(b) => has_suffix(whole@, suffix@) && b@ == whole@.take(
                whole@.len() - suffix@.len(),
            ),
            None => !has_suffix(whole@, suffix@),
        },
{
    let p = str_chars(suffix);
    let n: usize = whole.len();
    if p.len() <= n && stands_at(whole, &p, n - p.len()) {
        let b = slice_subrange(whole, 0, n - p.len());
        assert(b@ =~= whole@.take(whole@.len() - suffix@.len()));
        Some(b)
    } else {
        None
    }
}

// ---------------------------------------------------------------------------
// trimming
// ---------------------------------------------------------------------------
/// A class of characters that is trimmed from the ends of a text.
#[derive(Clone, Copy)]
pub enum Class {
    /// What Python's `str.strip` removes: `White_Space` and `U+001C..U+001F`.
    PythonSpace,
    /// `\n` alone.
    Newline,
    /// What Rust's `str::trim` removes: `White_Space`.
    WhiteSpace,
}

/// Whether `c` belongs to the class.
pub open spec fn in_class(class: Class, c: char) -> bool {
    match class {
        Class::PythonSpace => '\u{1c}' <= c <= '\u{1f}' || white_space(c),
        Class::Newline => c == '\n',
        Class::WhiteSpace => white_space(c),
    }
}

/// `s` without the leading characters of the class.
pub open spec fn trim_start(s: Seq<char>, class: Class) -> Seq<char>
    decreases s.len(),
{
    if s.len() > 0 && in_class(class, s[0]) {
        trim_start(s.skip(1), class)
    } else {
        s
    }
}

pub proof fn lemma_trim_start_shorter(s: Seq<char>, class: Class)
    ensures
        trim_start(s, class).len() <= s.len(),
    decreases s.len(),
{
    if s.len() > 0 && in_class(class, s[0]) {
        lemma_trim_start_shorter(s.skip(1), class);
    }
}

/// `s` without the trailing characters of the class.
pub open spec fn trim_end(s: Seq<char>, class: Class) -> Seq<char>
    decreases s.len(),
{
    if s.len() > 0 && in_class(class, s.last()) {
        trim_end(s.drop_last(), class)
    } else {
        s
    }
}

/// `s` without the leading and the trailing characters of the class.
pub open spec fn trim(s: Seq<char>, class: Class) -> Seq<char> {
    trim_end(trim_start(s, class), class)
}

/// Whether `c` belongs to the class.
pub fn is_in_class(class: Class, c: char) -> (r: bool)
    ensures
        r == in_class(class, c),
{
    match class {
        Class::PythonSpace => ('\u{1c}' <= c && c <= '\u{1f}') || is_white_space(c),
        Class::Newline => c == '\n',
        Class::WhiteSpace => is_white_space(c),
    }
}

/// `s` without the leading characters of the class.
pub fn trimmed_start(s: &[char], class: Class) -> (r: &[char])
    ensures
        r@ == trim_start(s@, class),
{
    let n: usize = s.len();
    let mut i: usize = 0;
    assert(s@.skip(0) =~= s@);
    while i < n && is_in_class(class, s[i])
        invariant
            i <= n == s@.len(),
            trim_start(s@, class) == trim_start(s@.skip(i as int), class),
        decreases n - i,
    {
        assert(s@.skip(i as int).skip(1) =~= s@.skip(i + 1));
        i += 1;
    }
    let r = slice_subrange(s, i, n);
    assert(r@ =~= s@.skip(i as int));
    r
}

/// `s` without the trailing characters of the class.
pub fn trimmed_end(s: &[char], class: Class) -> (r: &[char])
    ensures
        r@ == trim_end(s@, class),
{
    let mut i: usize = s.len();
    assert(s@.take(i as int) =~= s@);
    while i > 0 && is_in_class(class, s[i - 1])
        invariant
            i <= s@.len(),
            trim_end(s@, class) == trim_end(s@.take(i as int), class),
        decreases i,
    {
        assert(s@.take(i as int).drop_last() =~= s@.take(i - 1));
        i -= 1;
    }
    let r = slice_subrange(s, 0, i);
    assert(r@ =~= s@.take(i as int));
    r
}

/// `s` without the leading and the trailing characters of the class.
pub fn trimmed(s: &[char], class: Class) -> (r: &[char])
    ensures
        r@ == trim(s@, class),
{
    trimmed_end(trimmed_start(s, class), class)
}

/// The text made of all the characters of `c`.
pub fn to_text(c: &[char]) -> (r: String)
    ensures
        r@ == c@,
{
    assert(c@.subrange(0, c@.len() as int) =~= c@);
    chars_string(c, 0, c.len())
}

/// A text of its own with the same characters.
pub fn to_owned_text(s: &str) -> (r: String)
    ensures
        r@ == s@,
{
    let mut out = String::new();
    push_text(&mut out, s);
    assert(out@ =~= s@);
    out
}

/// What Rust's `{:?}` writes for a text: the text in double quotes, with quotes, control
/// characters and what cannot be printed escaped.
pub uninterp spec fn debug_form(s: Seq<char>) -> Seq<char>;

/// `format!("{s:?}")`, the standard library's `Debug` for `str`: its result depends on
/// the text alone, and `debug_form` names it.
#[verifier::external_body]
pub(crate) fn debug_text(s: &str) -> (r: String)
    ensures
        r@ == debug_form(s@),
{
    format!("{s:?}")
}

} // verus!
