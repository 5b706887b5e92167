//! What the reader and the writer are to each other.
use super::float;
use super::float::Real;
use super::reader;
use super::value::Json;
use super::writer;
use crate::text;
use vstd::prelude::*;

verus! {

/// Whether `v` can be written as JSON: its integers fit `i128`, and its floats are finite
/// and in their shortest form.
pub open spec fn writable(v: Json) -> bool
    decreases v,
{
    match v {
        Json::Int(i) => i128::MIN <= i <= i128::MAX,
        Json::Float(f) => f.canonical(),
        Json::Array(a) => forall|i: int| 0 <= i < a.len() ==> writable(#[trigger] a[i]),
        Json::Object(m) => forall|i: int| 0 <= i < m.len() ==> writable((#[trigger] m[i]).1),
        _ => true,
    }
}

/// Whether nothing that could go on a number stands at `k`.
pub open spec fn ends(c: Seq<char>, k: int) -> bool {
    reader::peek(c, k) is None || c[k] == ',' || c[k] == ']' || c[k] == '}' || reader::json_space(c[k])
}

proof fn lemma_matches_parts(c: Seq<char>, a: Seq<char>, b: Seq<char>, i: int)
    requires
        text::matches_at(c, a + b, i),
    ensures
        text::matches_at(c, a, i),
        text::matches_at(c, b, i + a.len()),
{
    let s = c.subrange(i, i + a.len() + b.len());
    assert(s == a + b);
    assert(c.subrange(i, i + a.len()) =~= a) by {
        assert forall|k: int| 0 <= k < a.len() implies c[i + k] == a[k] by {
            assert(s[k] == (a + b)[k]);
        }
    }
    assert(c.subrange(i + a.len(), i + a.len() + b.len()) =~= b) by {
        assert forall|k: int| 0 <= k < b.len() implies c[i + a.len() + k] == b[k] by {
            assert(s[a.len() + k] == (a + b)[a.len() + k]);
        }
    }
}

proof fn lemma_matches_char(c: Seq<char>, s: Seq<char>, i: int, k: int)
    requires
        text::matches_at(c, s, i),
        0 <= k < s.len(),
    ensures
        c[i + k] == s[k],
        0 <= i + k < c.len(),
{
    assert(c.subrange(i, i + s.len())[k] == s[k]);
}

// ---------------------------------------------------------------------------
// strings
// ---------------------------------------------------------------------------
proof fn lemma_json_chars_front(s: Seq<char>)
    requires
        s.len() > 0,
    ensures
        writer::json_chars(s) == writer::json_char(s[0]) + writer::json_chars(s.drop_first()),
    decreases s.len(),
{
    if s.len() == 1 {
        assert(s.drop_last() =~= seq![]);
        assert(s.drop_first() =~= seq![]);
        assert(writer::json_chars(s) =~= writer::json_char(s[0]) + writer::json_chars(
            s.drop_first(),
        ));
    } else {
        lemma_json_chars_front(s.drop_last());
        assert(s.drop_last().drop_first() =~= s.drop_first().drop_last());
        assert(writer::json_chars(s) =~= writer::json_char(s[0]) + writer::json_chars(
            s.drop_first(),
        ));
    }
}

/// Four ASCII characters are the next four bytes.
pub(crate) proof fn lemma_four_ascii(c: Seq<char>, i: int)
    requires
        0 <= i,
        i + 4 <= c.len(),
        forall|k: int| i <= k < i + 4 ==> (#[trigger] c[k] as u32) < 0x80,
    ensures
        text::whole_chars(c, i, 4) == 4,
        text::utf8_bytes(c.subrange(i, i + 4)) == 4,
        text::utf8_bytes(c.skip(i)) >= 4,
{
    reveal_with_fuel(text::whole_chars, 5);
    let s = c.subrange(i, i + 4);
    assert(s.drop_last() =~= c.subrange(i, i + 3));
    assert(s.drop_last().drop_last() =~= c.subrange(i, i + 2));
    assert(s.drop_last().drop_last().drop_last() =~= c.subrange(i, i + 1));
    assert(s.drop_last().drop_last().drop_last().drop_last() =~= seq![]);
    reveal_with_fuel(text::utf8_bytes, 5);
    assert(c.skip(i) =~= s + c.skip(i + 4));
    text::lemma_utf8_bytes_concat(s, c.skip(i + 4));
}

proof fn lemma_string_char_reads_back(c: Seq<char>, i: int, x: char)
    requires
        text::matches_at(c, writer::json_char(x), i),
    ensures
        reader::string_char(c, i) == Ok::<(char, int), Seq<char>>((x, i + writer::json_char(x).len())),
        c[i] != '"',
        0 <= i < c.len(),
        writer::json_char(x).len() > 0,
{
    let s = writer::json_char(x);
    reveal_with_fuel(writer::hex, 5);
    lemma_matches_char(c, s, i, 0);
    if s.len() > 1 {
        lemma_matches_char(c, s, i, 1);
    }
    if s.len() > 2 {
        lemma_matches_char(c, s, i, 2);
        lemma_matches_char(c, s, i, 3);
        lemma_matches_char(c, s, i, 4);
        lemma_matches_char(c, s, i, 5);
        assert(c[i + 2] == '0' && c[i + 3] == '0');
        lemma_four_ascii(c, i + 2);
        let h = c.subrange(i + 2, i + 6);
        assert(h[0] == c[i + 2] && h[1] == c[i + 3] && h[2] == c[i + 4] && h[3] == c[i + 5]);
        assert(reader::four_hex(h));
        assert(reader::four_hex_value(h) == x as nat);
    }
}

/// The characters of a string, read from where they were written.
proof fn lemma_string_reads_back(c: Seq<char>, i: int, s: Seq<char>)
    requires
        text::matches_at(c, writer::json_chars(s) + seq!['"'], i),
    ensures
        reader::string_tail(c, i) == Ok::<(Seq<char>, int), Seq<char>>(
            (s, i + writer::json_chars(s).len() + 1),
        ),
    decreases s.len(),
{
    if s.len() == 0 {
        assert(writer::json_chars(s) + seq!['"'] =~= seq!['"']);
        lemma_matches_char(c, seq!['"'], i, 0);
        assert(s =~= seq![]);
    } else {
        let first = writer::json_char(s[0]);
        let rest = s.drop_first();
        lemma_json_chars_front(s);
        assert(writer::json_chars(s) + seq!['"'] =~= first + (writer::json_chars(rest) + seq![
            '"',
        ]));
        lemma_matches_parts(c, first, writer::json_chars(rest) + seq!['"'], i);
        lemma_string_char_reads_back(c, i, s[0]);
        lemma_string_reads_back(c, i + first.len(), rest);
        assert(seq![s[0]] + rest =~= s);
    }
}

/// A string, read from where it was written.
proof fn lemma_quoted_reads_back(c: Seq<char>, i: int, s: Seq<char>)
    requires
        text::matches_at(c, writer::json_string(s), i),
    ensures
        reader::string_at(c, i) == Ok::<(Seq<char>, int), Seq<char>>(
            (s, i + writer::json_string(s).len()),
        ),
{
    assert(writer::json_string(s) =~= seq!['"'] + (writer::json_chars(s) + seq!['"']));
    lemma_matches_parts(c, seq!['"'], writer::json_chars(s) + seq!['"'], i);
    lemma_matches_char(c, seq!['"'], i, 0);
    lemma_string_reads_back(c, i + 1, s);
}

// ---------------------------------------------------------------------------
// numbers
// ---------------------------------------------------------------------------
proof fn lemma_decimal(n: nat)
    ensures
        text::decimal(n).len() > 0,
        float::all_digits(text::decimal(n)),
        reader::digits_value(text::decimal(n)) == n,
        text::decimal(n)[0] == '0' ==> n == 0 && text::decimal(n).len() == 1,
    decreases n,
{
    if n < 10 {
        assert(text::decimal(n).drop_last() =~= seq![]);
        assert(reader::digits_value(text::decimal(n).drop_last()) == 0);
    } else {
        lemma_decimal(n / 10);
        assert(text::decimal(n).drop_last() =~= text::decimal(n / 10));
    }
}

/// A run of digits ends where the next character is none.
proof fn lemma_skip_digits_is(c: Seq<char>, a: int, b: int)
    requires
        0 <= a <= b <= c.len(),
        forall|k: int| a <= k < b ==> float::is_digit(#[trigger] c[k]),
        reader::peek(c, b) is Some ==> !float::is_digit(c[b]),
    ensures
        reader::skip_digits(c, a) == b,
    decreases b - a,
{
    if a < b {
        lemma_skip_digits_is(c, a + 1, b);
    }
}

/// An integer, read from where it was written.
proof fn lemma_int_reads_back(c: Seq<char>, i: int, n: int)
    requires
        text::matches_at(c, text::decimal_int(n), i),
        i128::MIN <= n <= i128::MAX,
        ends(c, i + text::decimal_int(n).len()),
    ensures
        reader::value_at(c, i) == Ok::<(Json, int), Seq<char>>(
            (Json::Int(n), i + text::decimal_int(n).len()),
        ),
{
    let s = text::decimal_int(n);
    let m: nat = if n < 0 {
        (-n) as nat
    } else {
        n as nat
    };
    let d = text::decimal(m);
    lemma_decimal(m);
    let a = if n < 0 {
        i + 1
    } else {
        i
    };
    if n < 0 {
        lemma_matches_parts(c, seq!['-'], d, i);
        lemma_matches_char(c, seq!['-'], i, 0);
    }
    let b = a + d.len();
    assert(c.subrange(a, b) == d);
    assert forall|k: int| a <= k < b implies float::is_digit(#[trigger] c[k]) by {
        assert(c[k] == d[k - a]);
    }
    lemma_skip_digits_is(c, a, b);
    lemma_matches_char(c, d, a, 0);
    assert(c[i] == '-' || float::is_digit(c[i]));
}

/// Where a number has its digits in `a..b`, a fraction in `b..f` and an exponent in
/// `f..end`, it is read as the float they make up.
pub(crate) proof fn lemma_float_is_read(c: Seq<char>, i: int, negative: bool, b: int, f: int, end: int)
    requires
        0 <= i < c.len(),
        ({
            let a = if negative {
                i + 1
            } else {
                i
            };
            &&& a < b <= f <= end <= c.len()
            &&& negative <==> c[i] == '-'
            &&& forall|k: int| a <= k < b ==> float::is_digit(#[trigger] c[k])
            &&& b - a > 1 ==> c[a] != '0'
        }),
        f == b ==> reader::peek(c, b) != Some('.') && (reader::peek(c, b) is Some ==> !float::is_digit(c[b])),
        f > b ==> f > b + 1 && c[b] == '.' && (forall|k: int|
            b < k < f ==> float::is_digit(#[trigger] c[k])) && (reader::peek(c, f) is Some
            ==> !float::is_digit(c[f])),
        f == end ==> !reader::has_exponent(c, f),
        f < end ==> reader::has_exponent(c, f) && reader::exponent_digits(c, f) < end && (forall|k: int|
            reader::exponent_digits(c, f) <= k < end ==> float::is_digit(#[trigger] c[k])) && (reader::peek(
            c,
            end,
        ) is Some ==> !float::is_digit(c[end])),
        end > b,
    ensures
        ({
            let a = if negative {
                i + 1
            } else {
                i
            };
            reader::value_at(c, i) == Ok::<(Json, int), Seq<char>>(
                (
                    Json::Float(
                        reader::normal_form(
                            negative,
                            c.subrange(a, b) + reader::fraction_digits(c, b, f),
                            b - a + reader::exponent_value(c, f, end),
                        ),
                    ),
                    end,
                ),
            )
        }),
{
    let a = if negative {
        i + 1
    } else {
        i
    };
    lemma_skip_digits_is(c, a, b);
    if f > b {
        lemma_skip_digits_is(c, b + 1, f);
    }
    if end > f {
        lemma_skip_digits_is(c, reader::exponent_digits(c, f), end);
    }
    assert(float::is_digit(c[a]));
}

proof fn lemma_leading_zeros_then(n: nat, s: Seq<char>)
    requires
        s.len() > 0 ==> s[0] != '0',
    ensures
        reader::leading_zeros(float::zeros(n) + s) == n,
        (float::zeros(n) + s).skip(n as int) == s,
    decreases n,
{
    let t = float::zeros(n) + s;
    if n > 0 {
        assert(t.skip(1) =~= float::zeros((n - 1) as nat) + s);
        lemma_leading_zeros_then((n - 1) as nat, s);
    }
    assert(t.skip(n as int) =~= s);
}

proof fn lemma_trailing_zeros_after(s: Seq<char>, n: nat)
    requires
        s.len() > 0 ==> s.last() != '0',
    ensures
        reader::without_trailing_zeros(s + float::zeros(n)) == s,
    decreases n,
{
    let t = s + float::zeros(n);
    if n > 0 {
        assert(t.drop_last() =~= s + float::zeros((n - 1) as nat));
        lemma_trailing_zeros_after(s, (n - 1) as nat);
    } else {
        assert(t =~= s);
    }
}

/// The normal form of digits with zeros round them is those digits.
proof fn lemma_normal_form_is(
    negative: bool,
    before: nat,
    digits: Seq<char>,
    after: nat,
    exponent: int,
)
    requires
        float::shortest(digits, exponent),
        digits[0] != '0',
    ensures
        reader::normal_form(
            negative,
            float::zeros(before) + digits + float::zeros(after),
            exponent + before + 1,
        ) == (Real::Finite { negative, digits, exponent }),
{
    let all = float::zeros(before) + digits + float::zeros(after);
    let tail = digits + float::zeros(after);
    assert(all =~= float::zeros(before) + tail);
    lemma_leading_zeros_then(before, tail);
    if digits.len() == 1 {
        assert(digits.last() == digits[0]);
    }
    lemma_trailing_zeros_after(digits, after);
}

proof fn lemma_digits_value_padded(s: Seq<char>)
    ensures
        reader::digits_value(seq!['0'] + s) == reader::digits_value(s),
    decreases s.len(),
{
    let t = seq!['0'] + s;
    if s.len() == 0 {
        assert(t.drop_last() =~= seq![]);
        assert(reader::digits_value(t.drop_last()) == 0);
    } else {
        assert(t.drop_last() =~= seq!['0'] + s.drop_last());
        lemma_digits_value_padded(s.drop_last());
    }
}

/// What `repr_exponent` writes is a sign and digits with that value.
proof fn lemma_repr_exponent(e: int)
    ensures
        ({
            let s = float::repr_exponent(e);
            &&& s.len() > 1
            &&& s[0] == if e < 0 {
                '-'
            } else {
                '+'
            }
            &&& float::all_digits(s.skip(1))
            &&& reader::digits_value(s.skip(1)) == if e < 0 {
                -e
            } else {
                e
            }
        }),
{
    let m: nat = if e < 0 {
        (-e) as nat
    } else {
        e as nat
    };
    lemma_decimal(m);
    lemma_digits_value_padded(text::decimal(m));
    let s = float::repr_exponent(e);
    if m < 10 {
        assert(s.skip(1) =~= seq!['0'] + text::decimal(m));
    } else {
        assert(s.skip(1) =~= text::decimal(m));
    }
}

/// A float in exponent form, read from where it was written.
#[verifier::rlimit(60)]
proof fn lemma_exponent_form_reads_back(
    c: Seq<char>,
    i: int,
    negative: bool,
    digits: Seq<char>,
    exponent: int,
)
    requires
        float::shortest(digits, exponent),
        exponent + 1 <= -4 || exponent + 1 > 16,
        ({
            let a = if negative {
                i + 1
            } else {
                i
            };
            let s = float::repr_layout(digits, exponent + 1);
            &&& 0 <= i < c.len()
            &&& negative <==> c[i] == '-'
            &&& text::matches_at(c, s, a)
            &&& ends(c, a + s.len())
        }),
    ensures
        ({
            let a = if negative {
                i + 1
            } else {
                i
            };
            reader::value_at(c, i) == Ok::<(Json, int), Seq<char>>(
                (
                    Json::Float(Real::Finite { negative, digits, exponent }),
                    a + float::repr_layout(digits, exponent + 1).len(),
                ),
            )
        }),
{
    let a = if negative {
        i + 1
    } else {
        i
    };
    let s = float::repr_layout(digits, exponent + 1);
    let x = float::repr_exponent(exponent);
    lemma_repr_exponent(exponent);
    let fraction = if digits.len() > 1 {
        seq!['.'] + digits.skip(1)
    } else {
        seq![]
    };
    let b = a + 1;
    let f = b + fraction.len();
    let end = a + s.len();
    assert(s =~= (seq![digits[0]] + fraction + seq!['e']) + x);
    lemma_matches_parts(c, seq![digits[0]] + fraction + seq!['e'], x, a);
    lemma_matches_parts(c, seq![digits[0]] + fraction, seq!['e'], a);
    lemma_matches_parts(c, seq![digits[0]], fraction, a);
    lemma_matches_char(c, seq![digits[0]], a, 0);
    lemma_matches_char(c, seq!['e'], f, 0);
    lemma_matches_char(c, x, f + 1, 0);
    assert forall|k: int| b < k < f implies float::is_digit(#[trigger] c[k]) by {
        lemma_matches_char(c, fraction, b, k - b);
        assert(fraction[k - b] == digits[k - b]);
    }
    if f > b {
        lemma_matches_char(c, fraction, b, 0);
    }
    assert forall|k: int| f + 2 <= k < end implies float::is_digit(#[trigger] c[k]) by {
        lemma_matches_char(c, x, f + 1, k - f - 1);
        assert(x.skip(1)[k - f - 2] == x[k - f - 1]);
    }
    assert(float::is_digit(digits[0]));
    lemma_float_is_read(c, i, negative, b, f, end);
    assert(c.subrange(a, b) + reader::fraction_digits(c, b, f) =~= digits) by {
        if f > b {
            assert forall|k: int| b < k < f implies #[trigger] c[k] == digits[k - b] by {
                lemma_matches_char(c, fraction, b, k - b);
            }
        }
    }
    assert(c.subrange(f + 2, end) =~= x.skip(1)) by {
        assert forall|k: int| f + 2 <= k < end implies #[trigger] c[k] == x[k - f - 1] by {
            lemma_matches_char(c, x, f + 1, k - f - 1);
        }
    }
    assert(float::zeros(0) + digits + float::zeros(0) =~= digits);
    lemma_normal_form_is(negative, 0, digits, 0, exponent);
}

/// A float with its point in place, read from where it was written.
#[verifier::rlimit(60)]
proof fn lemma_point_form_reads_back(
    c: Seq<char>,
    i: int,
    negative: bool,
    digits: Seq<char>,
    exponent: int,
)
    requires
        float::shortest(digits, exponent),
        -4 < exponent + 1 <= 16,
        ({
            let a = if negative {
                i + 1
            } else {
                i
            };
            let s = float::repr_layout(digits, exponent + 1);
            &&& 0 <= i < c.len()
            &&& negative <==> c[i] == '-'
            &&& text::matches_at(c, s, a)
            &&& ends(c, a + s.len())
        }),
    ensures
        ({
            let a = if negative {
                i + 1
            } else {
                i
            };
            reader::value_at(c, i) == Ok::<(Json, int), Seq<char>>(
                (
                    Json::Float(Real::Finite { negative, digits, exponent }),
                    a + float::repr_layout(digits, exponent + 1).len(),
                ),
            )
        }),
{
    let a = if negative {
        i + 1
    } else {
        i
    };
    let decpt = exponent + 1;
    let s = float::repr_layout(digits, decpt);
    let end = a + s.len();
    // The integer part and the fraction.
    let whole = if decpt <= 0 {
        seq!['0']
    } else if decpt >= digits.len() {
        digits + float::zeros((decpt - digits.len()) as nat)
    } else {
        digits.take(decpt)
    };
    let fraction = if decpt <= 0 {
        float::zeros((-decpt) as nat) + digits
    } else if decpt >= digits.len() {
        seq!['0']
    } else {
        digits.skip(decpt)
    };
    assert(s =~= whole + (seq!['.'] + fraction));
    assert(float::all_digits(whole));
    assert(float::all_digits(fraction));
    let b = a + whole.len();
    lemma_matches_parts(c, whole, seq!['.'] + fraction, a);
    lemma_matches_parts(c, seq!['.'], fraction, b);
    lemma_matches_char(c, seq!['.'], b, 0);
    assert forall|k: int| a <= k < b implies float::is_digit(#[trigger] c[k]) by {
        lemma_matches_char(c, whole, a, k - a);
    }
    assert forall|k: int| b < k < end implies float::is_digit(#[trigger] c[k]) by {
        lemma_matches_char(c, fraction, b + 1, k - b - 1);
    }
    lemma_matches_char(c, whole, a, 0);
    lemma_float_is_read(c, i, negative, b, end, end);
    assert(c.subrange(a, b) =~= whole);
    assert(c.subrange(b + 1, end) =~= fraction);
    let all = whole + fraction;
    if digits[0] == '0' {
        assert(all =~= float::zeros(2) + seq![]);
        lemma_leading_zeros_then(2, seq![]);
        assert(digits =~= seq!['0']);
    } else {
        let before: nat = if decpt <= 0 {
            (1 - decpt) as nat
        } else {
            0
        };
        let after: nat = if decpt >= digits.len() {
            (decpt - digits.len() + 1) as nat
        } else {
            0
        };
        assert(all =~= float::zeros(before) + digits + float::zeros(after));
        lemma_normal_form_is(negative, before, digits, after, exponent);
        assert(exponent + before + 1 == b - a);
    }
}

/// A float, read from where it was written.
proof fn lemma_float_reads_back(c: Seq<char>, i: int, f: Real)
    requires
        f.canonical(),
        text::matches_at(c, float::repr_real(f), i),
        ends(c, i + float::repr_real(f).len()),
    ensures
        reader::value_at(c, i) == Ok::<(Json, int), Seq<char>>(
            (Json::Float(f), i + float::repr_real(f).len()),
        ),
{
    if let Real::Finite { negative, digits, exponent } = f {
        let body = float::repr_layout(digits, exponent + 1);
        assert(float::is_digit(digits[0]));
        if negative {
            lemma_matches_parts(c, seq!['-'], body, i);
            lemma_matches_char(c, seq!['-'], i, 0);
        } else {
            assert(float::repr_real(f) =~= body);
            assert(body.len() > 0 && float::is_digit(body[0]));
            lemma_matches_char(c, body, i, 0);
        }
        if exponent + 1 <= -4 || exponent + 1 > 16 {
            lemma_exponent_form_reads_back(c, i, negative, digits, exponent);
        } else {
            lemma_point_form_reads_back(c, i, negative, digits, exponent);
        }
    }
}

// ---------------------------------------------------------------------------
// values
// ---------------------------------------------------------------------------
/// What a value's text starts with.
proof fn lemma_first_char(v: Json)
    requires
        writable(v),
    ensures
        writer::dumps_text(v).len() > 0,
        ({
            let x = writer::dumps_text(v)[0];
            !json_separator(x)
        }),
{
    reveal_strlit("null");
    reveal_strlit("true");
    reveal_strlit("false");
    match v {
        Json::Int(n) => {
            lemma_decimal(
                if n < 0 {
                    (-n) as nat
                } else {
                    n as nat
                },
            );
        },
        Json::Float(f) => {
            if let Real::Finite { negative, digits, exponent } = f {
                assert(float::is_digit(digits[0]));
            }
        },
        _ => {},
    }
}

/// Whether `x` is white space or closes a container.
spec fn json_separator(x: char) -> bool {
    reader::json_space(x) || x == ']' || x == '}'
}

proof fn lemma_items_front(a: Seq<Json>)
    requires
        a.len() > 1,
    ensures
        writer::dumps_items(a) == writer::dumps_text(a[0]) + (seq![',', ' ']
            + writer::dumps_items(a.drop_first())),
    decreases a.len(),
{
    let rest = a.drop_first();
    if a.len() == 2 {
        assert(writer::dumps_items(a.drop_last()) == writer::dumps_text(a[0]));
        assert(writer::dumps_items(rest) == writer::dumps_text(a[1]));
        assert(writer::dumps_items(a) =~= writer::dumps_text(a[0]) + (seq![',', ' ']
            + writer::dumps_items(rest)));
    } else {
        lemma_items_front(a.drop_last());
        assert(a.drop_last().drop_first() =~= rest.drop_last());
        assert(writer::dumps_items(a) =~= writer::dumps_text(a[0]) + (seq![',', ' ']
            + writer::dumps_items(rest)));
    }
}

/// One member of an object.
spec fn member_text(m: (Seq<char>, Json)) -> Seq<char> {
    writer::json_string(m.0) + seq![':', ' '] + writer::dumps_text(m.1)
}

proof fn lemma_members_front(m: Seq<(Seq<char>, Json)>)
    requires
        m.len() > 1,
    ensures
        writer::dumps_members(m) == member_text(m[0]) + (seq![',', ' '] + writer::dumps_members(
            m.drop_first(),
        )),
    decreases m.len(),
{
    let rest = m.drop_first();
    if m.len() == 2 {
        assert(writer::dumps_members(m.drop_last()) == member_text(m[0]));
        assert(writer::dumps_members(rest) == member_text(m[1]));
        assert(writer::dumps_members(m) =~= member_text(m[0]) + (seq![',', ' ']
            + writer::dumps_members(rest)));
    } else {
        lemma_members_front(m.drop_last());
        assert(m.drop_last().drop_first() =~= rest.drop_last());
        assert(writer::dumps_members(m) =~= member_text(m[0]) + (seq![',', ' ']
            + writer::dumps_members(rest)));
    }
}

/// A value, read from where it was written.
proof fn lemma_value_reads_back(c: Seq<char>, i: int, v: Json)
    requires
        writable(v),
        text::matches_at(c, writer::dumps_text(v), i),
        ends(c, i + writer::dumps_text(v).len()),
    ensures
        reader::value_at(c, i) == Ok::<(Json, int), Seq<char>>(
            (v, i + writer::dumps_text(v).len()),
        ),
    decreases v, 0nat,
{
    lemma_first_char(v);
    lemma_matches_char(c, writer::dumps_text(v), i, 0);
    match v {
        Json::Null => {
            reveal_strlit("null");
        },
        Json::Bool(b) => {
            reveal_strlit("true");
            reveal_strlit("false");
        },
        Json::Int(n) => {
            lemma_int_reads_back(c, i, n);
        },
        Json::Float(f) => {
            lemma_float_reads_back(c, i, f);
        },
        Json::Str(s) => {
            lemma_quoted_reads_back(c, i, s);
        },
        Json::Array(a) => {
            let body = writer::dumps_items(a);
            assert(writer::dumps_text(v) =~= seq!['['] + (body + seq![']']));
            lemma_matches_parts(c, seq!['['], body + seq![']'], i);
            if a.len() == 0 {
                assert(body + seq![']'] =~= seq![']']);
                lemma_matches_char(c, seq![']'], i + 1, 0);
                assert(a =~= seq![]);
            } else {
                lemma_items_first(a);
                lemma_matches_char(c, body + seq![']'], i + 1, 0);
                lemma_items_read_back(c, i + 1, i + 1, a);
            }
        },
        Json::Object(m) => {
            let body = writer::dumps_members(m);
            assert(writer::dumps_text(v) =~= seq!['{'] + (body + seq!['}']));
            lemma_matches_parts(c, seq!['{'], body + seq!['}'], i);
            if m.len() == 0 {
                assert(body + seq!['}'] =~= seq!['}']);
                lemma_matches_char(c, seq!['}'], i + 1, 0);
                assert(m =~= seq![]);
            } else {
                lemma_members_first(m);
                lemma_matches_char(c, body + seq!['}'], i + 1, 0);
                lemma_members_read_back(c, i + 1, i + 1, m);
            }
        },
    }
}

proof fn lemma_items_first(a: Seq<Json>)
    requires
        a.len() > 0,
        writable(a[0]),
    ensures
        writer::dumps_items(a).len() > 0,
        writer::dumps_items(a)[0] == writer::dumps_text(a[0])[0],
        !json_separator(writer::dumps_items(a)[0]),
{
    lemma_first_char(a[0]);
    if a.len() > 1 {
        lemma_items_front(a);
    }
}

proof fn lemma_members_first(m: Seq<(Seq<char>, Json)>)
    requires
        m.len() > 0,
    ensures
        writer::dumps_members(m).len() > 0,
        writer::dumps_members(m)[0] == '"',
{
    if m.len() > 1 {
        lemma_members_front(m);
    }
}

/// The elements of an array, read from where they were written: behind white space.
proof fn lemma_items_read_back(c: Seq<char>, i: int, j: int, a: Seq<Json>)
    requires
        a.len() > 0,
        forall|k: int| 0 <= k < a.len() ==> writable(#[trigger] a[k]),
        text::matches_at(c, writer::dumps_items(a) + seq![']'], j),
        reader::skip_space(c, i) == j,
    ensures
        reader::items_at(c, i) == Ok::<(Seq<Json>, int), Seq<char>>(
            (a, j + writer::dumps_items(a).len() + 1),
        ),
    decreases a, a.len(),
{
    let first = writer::dumps_text(a[0]);
    let rest = a.drop_first();
    let k = j + first.len();
    lemma_first_char(a[0]);
    if a.len() == 1 {
        lemma_matches_parts(c, first, seq![']'], j);
        lemma_matches_char(c, seq![']'], k, 0);
        lemma_value_reads_back(c, j, a[0]);
        assert(seq![a[0]] =~= a);
    } else {
        lemma_items_front(a);
        let tail = writer::dumps_items(rest) + seq![']'];
        assert(writer::dumps_items(a) + seq![']'] =~= first + (seq![',', ' '] + tail));
        lemma_matches_parts(c, first, seq![',', ' '] + tail, j);
        lemma_matches_parts(c, seq![',', ' '], tail, k);
        lemma_matches_char(c, seq![',', ' '], k, 0);
        lemma_matches_char(c, seq![',', ' '], k, 1);
        lemma_value_reads_back(c, j, a[0]);
        assert forall|n: int| 0 <= n < rest.len() implies writable(#[trigger] rest[n]) by {
            assert(rest[n] == a[n + 1]);
        }
        lemma_items_first(rest);
        lemma_matches_char(c, tail, k + 2, 0);
        reveal_with_fuel(reader::skip_space, 3);
        lemma_items_read_back(c, k + 1, k + 2, rest);
        assert(seq![a[0]] + rest =~= a);
    }
}

/// The members of an object, read from where they were written: behind white space.
#[verifier::rlimit(60)]
proof fn lemma_members_read_back(c: Seq<char>, i: int, j: int, m: Seq<(Seq<char>, Json)>)
    requires
        m.len() > 0,
        forall|k: int| 0 <= k < m.len() ==> writable((#[trigger] m[k]).1),
        text::matches_at(c, writer::dumps_members(m) + seq!['}'], j),
        reader::skip_space(c, i) == j,
    ensures
        reader::members_at(c, i) == Ok::<(Seq<(Seq<char>, Json)>, int), Seq<char>>(
            (m, j + writer::dumps_members(m).len() + 1),
        ),
    decreases m, m.len(),
{
    let key = writer::json_string(m[0].0);
    let first = writer::dumps_text(m[0].1);
    let rest = m.drop_first();
    let tail = if m.len() == 1 {
        seq!['}']
    } else {
        seq![',', ' '] + (writer::dumps_members(rest) + seq!['}'])
    };
    if m.len() > 1 {
        lemma_members_front(m);
    }
    assert(writer::dumps_members(m) + seq!['}'] =~= key + (seq![':', ' '] + (first + tail)));
    let p = j + key.len();
    let n = p + 2;
    let k = n + first.len();
    lemma_matches_parts(c, key, seq![':', ' '] + (first + tail), j);
    lemma_matches_parts(c, seq![':', ' '], first + tail, p);
    lemma_matches_parts(c, first, tail, n);
    lemma_quoted_reads_back(c, j, m[0].0);
    lemma_matches_char(c, seq![':', ' '], p, 0);
    lemma_matches_char(c, seq![':', ' '], p, 1);
    lemma_matches_char(c, tail, k, 0);
    lemma_first_char(m[0].1);
    lemma_matches_char(c, first, n, 0);
    reveal_with_fuel(reader::skip_space, 3);
    assert(decreases_to!(m => m[0]));
    assert(decreases_to!(m[0] => m[0].1));
    lemma_value_reads_back(c, n, m[0].1);
    if m.len() == 1 {
        assert(seq![m[0]] =~= m);
    } else {
        lemma_matches_parts(c, seq![',', ' '], writer::dumps_members(rest) + seq!['}'], k);
        lemma_matches_char(c, seq![',', ' '], k, 1);
        assert forall|x: int| 0 <= x < rest.len() implies writable((#[trigger] rest[x]).1) by {
            assert(rest[x] == m[x + 1]);
        }
        lemma_members_first(rest);
        lemma_matches_char(c, writer::dumps_members(rest) + seq!['}'], k + 2, 0);
        lemma_members_read_back(c, k + 1, k + 2, rest);
        assert(seq![m[0]] + rest =~= m);
    }
}

/// Reading what was written gives back the value: the same members in the same order,
/// the same texts, the same numbers.
pub proof fn dumps_parse_round_trip(v: Json)
    requires
        writable(v),
    ensures
        reader::document(writer::dumps_text(v)) == Ok::<Json, Seq<char>>(v),
{
    let c = writer::dumps_text(v);
    lemma_first_char(v);
    assert(c.subrange(0, c.len() as int) =~= c);
    lemma_value_reads_back(c, 0, v);
}

} // verus!
