//! How values are written, piece by piece.
use super::float;
use super::float::Real;
use super::value::Json;
use super::writer;
use crate::text;
use vstd::prelude::*;

verus! {

/// **`dumps` of a scalar**: the words, the decimal of an integer, and a text in quotes.
pub proof fn dumps_of_scalars(i: int, s: Seq<char>)
    ensures
        writer::dumps_text(Json::Null) == "null"@,
        writer::dumps_text(Json::Bool(true)) == "true"@,
        writer::dumps_text(Json::Bool(false)) == "false"@,
        i >= 0 ==> writer::dumps_text(Json::Int(i)) == text::decimal(i as nat),
        i < 0 ==> writer::dumps_text(Json::Int(i)) == seq!['-'] + text::decimal((-i) as nat),
        writer::dumps_text(Json::Str(s)) == seq!['"'] + Seq::new(
            s.len(),
            |k: int|
                if s[k] == '"' || s[k] == '\\' {
                    seq!['\\', s[k]]
                } else if s[k] == '\n' {
                    seq!['\\', 'n']
                } else if s[k] == '\r' {
                    seq!['\\', 'r']
                } else if s[k] == '\t' {
                    seq!['\\', 't']
                } else if s[k] == '\u{8}' {
                    seq!['\\', 'b']
                } else if s[k] == '\u{c}' {
                    seq!['\\', 'f']
                } else if (s[k] as int) < 32 {
                    seq![
                        '\\',
                        'u',
                        '0',
                        '0',
                        if (s[k] as int) < 16 {
                            '0'
                        } else {
                            '1'
                        },
                        if s[k] as int % 16 < 10 {
                            ('0' as int + s[k] as int % 16) as char
                        } else {
                            ('a' as int + s[k] as int % 16 - 10) as char
                        },
                    ]
                } else {
                    seq![s[k]]
                },
        ).flatten() + seq!['"'],
{
    reveal_with_fuel(writer::dumps_text, 2);
    let pieces = Seq::new(
        s.len(),
        |k: int|
            if s[k] == '"' || s[k] == '\\' {
                seq!['\\', s[k]]
            } else if s[k] == '\n' {
                seq!['\\', 'n']
            } else if s[k] == '\r' {
                seq!['\\', 'r']
            } else if s[k] == '\t' {
                seq!['\\', 't']
            } else if s[k] == '\u{8}' {
                seq!['\\', 'b']
            } else if s[k] == '\u{c}' {
                seq!['\\', 'f']
            } else if (s[k] as int) < 32 {
                seq![
                    '\\',
                    'u',
                    '0',
                    '0',
                    if (s[k] as int) < 16 {
                        '0'
                    } else {
                        '1'
                    },
                    if s[k] as int % 16 < 10 {
                        ('0' as int + s[k] as int % 16) as char
                    } else {
                        ('a' as int + s[k] as int % 16 - 10) as char
                    },
                ]
            } else {
                seq![s[k]]
            },
    );
    assert forall|k: int| 0 <= k < s.len() implies writer::json_char(s[k]) == #[trigger] pieces[k] by {
        lemma_json_char(s[k]);
    }
    assert(pieces =~= Seq::new(s.len(), |k: int| writer::json_char(s[k])));
    lemma_json_chars(s);
}

proof fn lemma_json_char(c: char)
    ensures
        writer::json_char(c) == if c == '"' || c == '\\' {
            seq!['\\', c]
        } else if c == '\n' {
            seq!['\\', 'n']
        } else if c == '\r' {
            seq!['\\', 'r']
        } else if c == '\t' {
            seq!['\\', 't']
        } else if c == '\u{8}' {
            seq!['\\', 'b']
        } else if c == '\u{c}' {
            seq!['\\', 'f']
        } else if (c as int) < 32 {
            seq![
                '\\',
                'u',
                '0',
                '0',
                if (c as int) < 16 {
                    '0'
                } else {
                    '1'
                },
                if c as int % 16 < 10 {
                    ('0' as int + c as int % 16) as char
                } else {
                    ('a' as int + c as int % 16 - 10) as char
                },
            ]
        } else {
            seq![c]
        },
{
    if (c as int) < 32 {
        lemma_control(c);
    }
}

proof fn lemma_control(c: char)
    requires
        (c as int) < 32,
    ensures
        writer::hex(c as nat, 4) == seq![
            '0',
            '0',
            if (c as int) < 16 {
                '0'
            } else {
                '1'
            },
            if c as int % 16 < 10 {
                ('0' as int + c as int % 16) as char
            } else {
                ('a' as int + c as int % 16 - 10) as char
            },
        ],
{
    reveal_with_fuel(writer::hex, 5);
    let n = c as nat;
    assert(n / 16 / 16 == 0);
    assert(n / 16 / 16 / 16 == 0);
    assert(n / 16 < 2);
    assert(writer::hex(n, 4) =~= seq![
        writer::hex_digit(n / 16 / 16 / 16 % 16),
        writer::hex_digit(n / 16 / 16 % 16),
        writer::hex_digit(n / 16 % 16),
        writer::hex_digit(n % 16),
    ]);
}

proof fn lemma_json_chars(s: Seq<char>)
    ensures
        writer::json_chars(s) == Seq::new(
            s.len(),
            |k: int| writer::json_char(s[k]),
        ).flatten(),
    decreases s.len(),
{
    let pieces = Seq::new(s.len(), |k: int| writer::json_char(s[k]));
    if s.len() > 0 {
        let init = s.drop_last();
        lemma_json_chars(init);
        let shorter = Seq::new(init.len(), |k: int| writer::json_char(init[k]));
        assert(pieces =~= shorter.push(writer::json_char(s.last())));
        shorter.lemma_flatten_push(writer::json_char(s.last()));
    } else {
        assert(pieces =~= seq![]);
    }
}

/// **`dumps` of a list**: every element, in order, with `, ` between two.
pub proof fn dumps_of_a_list(a: Seq<Json>)
    ensures
        writer::dumps_text(Json::Array(a)) == seq!['['] + Seq::new(
            a.len(),
            |k: int|
                if k > 0 {
                    seq![',', ' ']
                } else {
                    seq![]
                } + writer::dumps_text(a[k]),
        ).flatten() + seq![']'],
    decreases a.len(),
{
    lemma_dumps_items(a);
}

proof fn lemma_dumps_items(a: Seq<Json>)
    ensures
        writer::dumps_items(a) == Seq::new(
            a.len(),
            |k: int|
                if k > 0 {
                    seq![',', ' ']
                } else {
                    seq![]
                } + writer::dumps_text(a[k]),
        ).flatten(),
    decreases a.len(),
{
    let pieces = Seq::new(
        a.len(),
        |k: int|
            if k > 0 {
                seq![',', ' ']
            } else {
                seq![]
            } + writer::dumps_text(a[k]),
    );
    if a.len() > 0 {
        let init = a.drop_last();
        lemma_dumps_items(init);
        let shorter = Seq::new(
            init.len(),
            |k: int|
                if k > 0 {
                    seq![',', ' ']
                } else {
                    seq![]
                } + writer::dumps_text(init[k]),
        );
        let last = pieces[a.len() - 1];
        assert(pieces =~= shorter.push(last));
        shorter.lemma_flatten_push(last);
        if a.len() == 1 {
            assert(shorter =~= seq![]);
            assert(writer::dumps_items(a) =~= last);
            assert(shorter.flatten() + last =~= last);
        } else {
            assert(writer::dumps_items(a) =~= writer::dumps_items(init) + last);
        }
    } else {
        assert(pieces =~= seq![]);
    }
}

/// **`dumps` of a dict**: every member, in order, as its key, `: ` and its value, with `, `
/// between two.
pub proof fn dumps_of_a_dict(m: Seq<(Seq<char>, Json)>)
    ensures
        writer::dumps_text(Json::Object(m)) == seq!['{'] + Seq::new(
            m.len(),
            |k: int|
                if k > 0 {
                    seq![',', ' ']
                } else {
                    seq![]
                } + writer::dumps_text(Json::Str(m[k].0)) + seq![':', ' '] + writer::dumps_text(
                    m[k].1,
                ),
        ).flatten() + seq!['}'],
    decreases m.len(),
{
    let pieces = Seq::new(
        m.len(),
        |k: int|
            if k > 0 {
                seq![',', ' ']
            } else {
                seq![]
            } + writer::json_string(m[k].0) + seq![':', ' '] + writer::dumps_text(m[k].1),
    );
    lemma_dumps_members(m);
    assert(pieces =~= Seq::new(
        m.len(),
        |k: int|
            if k > 0 {
                seq![',', ' ']
            } else {
                seq![]
            } + writer::dumps_text(Json::Str(m[k].0)) + seq![':', ' '] + writer::dumps_text(
                m[k].1,
            ),
    ));
}

proof fn lemma_dumps_members(m: Seq<(Seq<char>, Json)>)
    ensures
        writer::dumps_members(m) == Seq::new(
            m.len(),
            |k: int|
                if k > 0 {
                    seq![',', ' ']
                } else {
                    seq![]
                } + writer::json_string(m[k].0) + seq![':', ' '] + writer::dumps_text(m[k].1),
        ).flatten(),
    decreases m.len(),
{
    let pieces = Seq::new(
        m.len(),
        |k: int|
            if k > 0 {
                seq![',', ' ']
            } else {
                seq![]
            } + writer::json_string(m[k].0) + seq![':', ' '] + writer::dumps_text(m[k].1),
    );
    if m.len() > 0 {
        let init = m.drop_last();
        lemma_dumps_members(init);
        let shorter = Seq::new(
            init.len(),
            |k: int|
                if k > 0 {
                    seq![',', ' ']
                } else {
                    seq![]
                } + writer::json_string(init[k].0) + seq![':', ' '] + writer::dumps_text(
                    init[k].1,
                ),
        );
        let last = pieces[m.len() - 1];
        assert(pieces =~= shorter.push(last));
        shorter.lemma_flatten_push(last);
        if m.len() == 1 {
            assert(shorter =~= seq![]);
            assert(writer::dumps_members(m) =~= last);
            assert(shorter.flatten() + last =~= last);
        } else {
            assert(writer::dumps_members(m) =~= writer::dumps_members(init) + last);
        }
    } else {
        assert(pieces =~= seq![]);
    }
}

/// **`str` of a scalar**: Python's words, the decimal of an integer, and a text as it is.
pub proof fn str_of_scalars(i: int, s: Seq<char>)
    ensures
        writer::str_text(Json::Null) == "None"@,
        writer::str_text(Json::Bool(true)) == "True"@,
        writer::str_text(Json::Bool(false)) == "False"@,
        writer::str_text(Json::Int(i)) == writer::dumps_text(Json::Int(i)),
        writer::str_text(Json::Str(s)) == s,
{
    reveal_with_fuel(writer::str_text, 2);
    reveal_with_fuel(writer::dumps_text, 2);
}

/// **`repr` of a text**: in single quotes, or in double ones where it holds a single quote and no
/// double one. The quote and the backslash are escaped, and so are the control characters.
pub proof fn repr_of_a_text(s: Seq<char>)
    ensures
        ({
            let quote = if s.contains('\'') && !s.contains('"') {
                '"'
            } else {
                '\''
            };
            writer::repr_text(Json::Str(s)) == seq![quote] + Seq::new(
                s.len(),
                |k: int|
                    if s[k] == quote || s[k] == '\\' {
                        seq!['\\', s[k]]
                    } else if s[k] == '\n' {
                        seq!['\\', 'n']
                    } else if s[k] == '\r' {
                        seq!['\\', 'r']
                    } else if s[k] == '\t' {
                        seq!['\\', 't']
                    } else if (s[k] as int) < 32 || s[k] == '\u{7f}' {
                        seq![
                            '\\',
                            'x',
                            ('0' as int + s[k] as int / 16) as char,
                            if s[k] as int % 16 < 10 {
                                ('0' as int + s[k] as int % 16) as char
                            } else {
                                ('a' as int + s[k] as int % 16 - 10) as char
                            },
                        ]
                    } else {
                        seq![s[k]]
                    },
            ).flatten() + seq![quote]
        }),
{
    let quote = writer::repr_quote(s);
    let pieces = Seq::new(
        s.len(),
        |k: int|
            if s[k] == quote || s[k] == '\\' {
                seq!['\\', s[k]]
            } else if s[k] == '\n' {
                seq!['\\', 'n']
            } else if s[k] == '\r' {
                seq!['\\', 'r']
            } else if s[k] == '\t' {
                seq!['\\', 't']
            } else if (s[k] as int) < 32 || s[k] == '\u{7f}' {
                seq![
                    '\\',
                    'x',
                    ('0' as int + s[k] as int / 16) as char,
                    if s[k] as int % 16 < 10 {
                        ('0' as int + s[k] as int % 16) as char
                    } else {
                        ('a' as int + s[k] as int % 16 - 10) as char
                    },
                ]
            } else {
                seq![s[k]]
            },
    );
    assert forall|k: int| 0 <= k < s.len() implies writer::repr_char(s[k], quote)
        == #[trigger] pieces[k] by {
        lemma_repr_char(s[k], quote);
    }
    assert(pieces =~= Seq::new(s.len(), |k: int| writer::repr_char(s[k], quote)));
    lemma_repr_chars(s, quote);
}

proof fn lemma_repr_char(c: char, quote: char)
    requires
        quote == '\'' || quote == '"',
    ensures
        writer::repr_char(c, quote) == if c == quote || c == '\\' {
            seq!['\\', c]
        } else if c == '\n' {
            seq!['\\', 'n']
        } else if c == '\r' {
            seq!['\\', 'r']
        } else if c == '\t' {
            seq!['\\', 't']
        } else if (c as int) < 32 || c == '\u{7f}' {
            seq![
                '\\',
                'x',
                ('0' as int + c as int / 16) as char,
                if c as int % 16 < 10 {
                    ('0' as int + c as int % 16) as char
                } else {
                    ('a' as int + c as int % 16 - 10) as char
                },
            ]
        } else {
            seq![c]
        },
{
    reveal_with_fuel(writer::hex, 3);
    let n = c as nat;
    assert(n < 128 ==> n / 16 < 8);
    assert(writer::hex(n, 2) =~= seq![
        writer::hex_digit(n / 16 % 16),
        writer::hex_digit(n % 16),
    ]);
}

proof fn lemma_repr_chars(s: Seq<char>, quote: char)
    ensures
        writer::repr_chars(s, quote) == Seq::new(
            s.len(),
            |k: int| writer::repr_char(s[k], quote),
        ).flatten(),
    decreases s.len(),
{
    let pieces = Seq::new(s.len(), |k: int| writer::repr_char(s[k], quote));
    if s.len() > 0 {
        let init = s.drop_last();
        lemma_repr_chars(init, quote);
        let shorter = Seq::new(init.len(), |k: int| writer::repr_char(init[k], quote));
        assert(pieces =~= shorter.push(writer::repr_char(s.last(), quote)));
        shorter.lemma_flatten_push(writer::repr_char(s.last(), quote));
    } else {
        assert(pieces =~= seq![]);
    }
}

/// **`str` of a list**: the `repr` of every element, in order, with `, ` between two.
pub proof fn str_of_a_list(a: Seq<Json>)
    ensures
        writer::str_text(Json::Array(a)) == seq!['['] + Seq::new(
            a.len(),
            |k: int|
                if k > 0 {
                    seq![',', ' ']
                } else {
                    seq![]
                } + writer::repr_text(a[k]),
        ).flatten() + seq![']'],
{
    lemma_repr_items(a);
}

proof fn lemma_repr_items(a: Seq<Json>)
    ensures
        writer::repr_items(a) == Seq::new(
            a.len(),
            |k: int|
                if k > 0 {
                    seq![',', ' ']
                } else {
                    seq![]
                } + writer::repr_text(a[k]),
        ).flatten(),
    decreases a.len(),
{
    let pieces = Seq::new(
        a.len(),
        |k: int|
            if k > 0 {
                seq![',', ' ']
            } else {
                seq![]
            } + writer::repr_text(a[k]),
    );
    if a.len() > 0 {
        let init = a.drop_last();
        lemma_repr_items(init);
        let shorter = Seq::new(
            init.len(),
            |k: int|
                if k > 0 {
                    seq![',', ' ']
                } else {
                    seq![]
                } + writer::repr_text(init[k]),
        );
        let last = pieces[a.len() - 1];
        assert(pieces =~= shorter.push(last));
        shorter.lemma_flatten_push(last);
        if a.len() == 1 {
            assert(shorter =~= seq![]);
            assert(writer::repr_items(a) =~= last);
            assert(shorter.flatten() + last =~= last);
        } else {
            assert(writer::repr_items(a) =~= writer::repr_items(init) + last);
        }
    } else {
        assert(pieces =~= seq![]);
    }
}

/// **`str` of a dict**: the `repr` of every key and value, in order, with `: ` between the two
/// and `, ` between two members.
pub proof fn str_of_a_dict(m: Seq<(Seq<char>, Json)>)
    ensures
        writer::str_text(Json::Object(m)) == seq!['{'] + Seq::new(
            m.len(),
            |k: int|
                if k > 0 {
                    seq![',', ' ']
                } else {
                    seq![]
                } + writer::repr_text(Json::Str(m[k].0)) + seq![':', ' '] + writer::repr_text(
                    m[k].1,
                ),
        ).flatten() + seq!['}'],
{
    let pieces = Seq::new(
        m.len(),
        |k: int|
            if k > 0 {
                seq![',', ' ']
            } else {
                seq![]
            } + writer::repr_string(m[k].0) + seq![':', ' '] + writer::repr_text(m[k].1),
    );
    lemma_repr_members(m);
    assert(pieces =~= Seq::new(
        m.len(),
        |k: int|
            if k > 0 {
                seq![',', ' ']
            } else {
                seq![]
            } + writer::repr_text(Json::Str(m[k].0)) + seq![':', ' '] + writer::repr_text(m[k].1),
    ));
}

proof fn lemma_repr_members(m: Seq<(Seq<char>, Json)>)
    ensures
        writer::repr_members(m) == Seq::new(
            m.len(),
            |k: int|
                if k > 0 {
                    seq![',', ' ']
                } else {
                    seq![]
                } + writer::repr_string(m[k].0) + seq![':', ' '] + writer::repr_text(m[k].1),
        ).flatten(),
    decreases m.len(),
{
    let pieces = Seq::new(
        m.len(),
        |k: int|
            if k > 0 {
                seq![',', ' ']
            } else {
                seq![]
            } + writer::repr_string(m[k].0) + seq![':', ' '] + writer::repr_text(m[k].1),
    );
    if m.len() > 0 {
        let init = m.drop_last();
        lemma_repr_members(init);
        let shorter = Seq::new(
            init.len(),
            |k: int|
                if k > 0 {
                    seq![',', ' ']
                } else {
                    seq![]
                } + writer::repr_string(init[k].0) + seq![':', ' '] + writer::repr_text(
                    init[k].1,
                ),
        );
        let last = pieces[m.len() - 1];
        assert(pieces =~= shorter.push(last));
        shorter.lemma_flatten_push(last);
        if m.len() == 1 {
            assert(shorter =~= seq![]);
            assert(writer::repr_members(m) =~= last);
            assert(shorter.flatten() + last =~= last);
        } else {
            assert(writer::repr_members(m) =~= writer::repr_members(init) + last);
        }
    } else {
        assert(pieces =~= seq![]);
    }
}

/// **`repr` of a float** `d[0].d[1]d[2].. * 10^exponent` has its point in place and a digit on
/// either side of it from `1e-4` up to below `1e16`. Outside of that it is written with an exponent
/// of a sign and two digits at least, and with a point only where there are digits behind it.
pub proof fn repr_of_a_float(negative: bool, digits: Seq<char>, exponent: int)
    requires
        float::shortest(digits, exponent),
    ensures
        ({
            let sign = if negative {
                seq!['-']
            } else {
                seq![]
            };
            let n = digits.len() as int;
            let x = Real::Finite { negative, digits, exponent };
            writer::dumps_text(Json::Float(x)) == sign + if 0 <= exponent < 16 {
                if exponent < n - 1 {
                    digits.take(exponent + 1) + seq!['.'] + digits.skip(exponent + 1)
                } else {
                    digits + Seq::new((exponent + 1 - n) as nat, |i: int| '0') + seq!['.', '0']
                }
            } else if -4 <= exponent < 0 {
                seq!['0', '.'] + Seq::new((-exponent - 1) as nat, |i: int| '0') + digits
            } else {
                digits.take(1) + if n > 1 {
                    seq!['.'] + digits.skip(1)
                } else {
                    seq![]
                } + seq!['e'] + if exponent < 0 {
                    seq!['-'] + if exponent > -10 {
                        seq!['0']
                    } else {
                        seq![]
                    } + text::decimal((-exponent) as nat)
                } else {
                    seq!['+'] + if exponent < 10 {
                        seq!['0']
                    } else {
                        seq![]
                    } + text::decimal(exponent as nat)
                }
            }
        }),
        writer::str_text(Json::Float(Real::Finite { negative, digits, exponent }))
            == writer::dumps_text(Json::Float(Real::Finite { negative, digits, exponent })),
{
    let x = Real::Finite { negative, digits, exponent };
    assert(writer::dumps_text(Json::Float(x)) == float::repr_real(x));
    assert(writer::str_text(Json::Float(x)) == float::str_real(x));
    assert(seq![digits[0]] =~= digits.take(1));
    let n = digits.len() as int;
    assert(float::zeros((exponent + 1 - n) as nat) =~= Seq::new(
        (exponent + 1 - n) as nat,
        |i: int| '0',
    ));
    assert(float::zeros((-exponent - 1) as nat) =~= Seq::new(
        (-exponent - 1) as nat,
        |i: int| '0',
    ));
    if exponent == n - 1 {
        assert(digits.take(n) =~= digits);
    }
}

/// **What is not finite** has JavaScript's names in JSON, and Python's in a `str`.
pub proof fn what_is_not_finite_has_a_name()
    ensures
        writer::dumps_text(Json::Float(Real::Nan)) == "NaN"@,
        writer::dumps_text(Json::Float(Real::Infinite { negative: false })) == "Infinity"@,
        writer::dumps_text(Json::Float(Real::Infinite { negative: true })) == "-Infinity"@,
        writer::str_text(Json::Float(Real::Nan)) == "nan"@,
        writer::str_text(Json::Float(Real::Infinite { negative: false })) == "inf"@,
        writer::str_text(Json::Float(Real::Infinite { negative: true })) == "-inf"@,
{
}

} // verus!
