//! Floats in decimal form, and Python's `repr` of them.
//!
//! A float is held as the decimal numeral that stands for it: the digits and the
//! exponent that Rust's `{:e}` writes, which for a double is the shortest numeral that
//! reads back as the same double. What Python and Rust disagree on is only the *layout*
//! of those digits, and that is what [`py_repr_f64`] decides.
use crate::text;
use crate::text::{push_chars, push_decimal, push_text, to_owned_text};
use vstd::prelude::*;

verus! {

/// A float as mathematics sees it.
#[verifier::ext_equal]
pub enum Real {
    Nan,
    Infinite { negative: bool },
    /// `d[0].d[1]d[2].. * 10^exponent`, negated where `negative` says so.
    Finite { negative: bool, digits: Seq<char>, exponent: int },
}

/// A finite decimal: `d[0].d[1]d[2].. * 10^exponent`, negated where `negative` says so.
#[derive(Debug, PartialEq)]
pub struct Decimal {
    pub negative: bool,
    pub digits: Vec<char>,
    pub exponent: i32,
}

/// A float: a finite decimal, an infinity or no number at all.
#[derive(Debug, PartialEq)]
pub enum Float {
    Nan,
    Infinite { negative: bool },
    Finite(Decimal),
}

impl View for Float {
    type V = Real;

    open spec fn view(&self) -> Real {
        match *self {
            Float::Nan => Real::Nan,
            Float::Infinite { negative } => Real::Infinite { negative },
            Float::Finite(d) => Real::Finite {
                negative: d.negative,
                digits: d.digits@,
                exponent: d.exponent as int,
            },
        }
    }
}

impl Clone for Decimal {
    fn clone(&self) -> (r: Self)
        ensures
            r.negative == self.negative,
            r.digits@ == self.digits@,
            r.exponent == self.exponent,
    {
        let mut digits: Vec<char> = Vec::new();
        digits.extend_from_slice(self.digits.as_slice());
        assert(digits@ =~= self.digits@);
        Decimal { negative: self.negative, digits, exponent: self.exponent }
    }
}

impl Clone for Float {
    fn clone(&self) -> (r: Self)
        ensures
            r@ == self@,
    {
        match self {
            Float::Nan => Float::Nan,
            Float::Infinite { negative } => Float::Infinite { negative: *negative },
            Float::Finite(d) => Float::Finite(d.clone()),
        }
    }
}

/// Whether `c` is a decimal digit.
pub open spec fn is_digit(c: char) -> bool {
    '0' <= c <= '9'
}

/// Whether `s` is made of decimal digits.
pub open spec fn all_digits(s: Seq<char>) -> bool {
    forall|i: int| 0 <= i < s.len() ==> is_digit(#[trigger] s[i])
}

/// Whether the digits and the exponent are the only ones that stand for their number:
/// there is no leading and no trailing zero, and zero itself is `0e0`.
pub open spec fn shortest(digits: Seq<char>, exponent: int) -> bool {
    &&& digits.len() > 0
    &&& all_digits(digits)
    &&& i32::MIN <= exponent <= i32::MAX
    &&& digits[0] == '0' ==> digits.len() == 1 && exponent == 0
    &&& digits.len() > 1 ==> digits.last() != '0'
}

impl Real {
    /// Whether this is a finite number in its shortest form.
    pub open spec fn canonical(self) -> bool {
        match self {
            Real::Finite { negative, digits, exponent } => shortest(digits, exponent),
            _ => false,
        }
    }
}

/// `n` zeros.
pub open spec fn zeros(n: nat) -> Seq<char> {
    Seq::new(n, |i: int| '0')
}

/// A decimal exponent as Python writes it: with its sign, in two digits at least.
pub open spec fn repr_exponent(e: int) -> Seq<char> {
    let magnitude = if e < 0 {
        (-e) as nat
    } else {
        e as nat
    };
    let sign = if e < 0 {
        seq!['-']
    } else {
        seq!['+']
    };
    let pad = if magnitude < 10 {
        seq!['0']
    } else {
        seq![]
    };
    sign + pad + text::decimal(magnitude)
}

/// The digits of `0.<digits> * 10^decpt` laid out as Python lays them out: in exponent
/// form if and only if `decpt <= -4` or `decpt > 16`, and otherwise with the decimal
/// point in place and at least one digit on either side of it.
pub open spec fn repr_layout(digits: Seq<char>, decpt: int) -> Seq<char> {
    if decpt <= -4 || decpt > 16 {
        let first = if digits.len() > 0 {
            digits[0]
        } else {
            '0'
        };
        let fraction = if digits.len() > 1 {
            seq!['.'] + digits.skip(1)
        } else {
            seq![]
        };
        seq![first] + fraction + seq!['e'] + repr_exponent(decpt - 1)
    } else if decpt <= 0 {
        seq!['0', '.'] + zeros((-decpt) as nat) + digits
    } else if decpt >= digits.len() {
        digits + zeros((decpt - digits.len()) as nat) + seq!['.', '0']
    } else {
        digits.take(decpt) + seq!['.'] + digits.skip(decpt)
    }
}

/// Python's `repr` of a finite float, and the name that `json.dumps` gives any other.
pub open spec fn repr_real(x: Real) -> Seq<char> {
    match x {
        Real::Nan => "NaN"@,
        Real::Infinite { negative } => if negative {
            "-Infinity"@
        } else {
            "Infinity"@
        },
        Real::Finite { negative, digits, exponent } => {
            let sign = if negative {
                seq!['-']
            } else {
                seq![]
            };
            sign + repr_layout(digits, exponent + 1)
        },
    }
}

/// Python's `str` of a float, which is its `repr`: `inf`, `-inf` and `nan` for what is not
/// finite.
pub open spec fn str_real(x: Real) -> Seq<char> {
    match x {
        Real::Nan => "nan"@,
        Real::Infinite { negative } => if negative {
            "-inf"@
        } else {
            "inf"@
        },
        Real::Finite { .. } => repr_real(x),
    }
}

/// Writes `n` zeros at the end of `out`.
fn push_zeros(out: &mut String, n: usize)
    ensures
        final(out)@ == old(out)@ + zeros(n as nat),
{
    let mut k: usize = 0;
    while k < n
        invariant
            k <= n,
            out@ == old(out)@ + zeros(k as nat),
        decreases n - k,
    {
        out.push('0');
        assert(zeros(k as nat).push('0') =~= zeros((k + 1) as nat));
        k += 1;
        assert(out@ =~= old(out)@ + zeros(k as nat));
    }
}

/// Writes a decimal exponent as Python does at the end of `out`.
fn push_exponent(out: &mut String, e: i64)
    requires
        e > i64::MIN,
    ensures
        final(out)@ == old(out)@ + repr_exponent(e as int),
{
    let magnitude: i64 = if e < 0 {
        -e
    } else {
        e
    };
    out.push(
        if e < 0 {
            '-'
        } else {
            '+'
        },
    );
    if magnitude < 10 {
        out.push('0');
    }
    push_decimal(out, magnitude as u128);
    assert(out@ =~= old(out)@ + repr_exponent(e as int));
}

/// Python's `repr(float)` where the float is finite, and what `json.dumps` writes where it is
/// not: `Infinity`, `-Infinity` and `NaN`.
///
/// One rule decides the layout:
///
/// ```text
/// exponent form  iff  decpt <= -4  or  decpt > 16
/// ```
///
/// where `decpt` is the decimal point's position in `0.<digits> * 10**decpt`. It gives
/// `1e-05`, `0.0001`, `1e+16`, `1000000000000000.0`, `100.0`, `3.0` and `-0.0`.
pub fn py_repr_f64(x: &Float) -> (r: String)
    ensures
        r@ == repr_real(x@),
{
    let mut out = String::new();
    match x {
        Float::Nan => {
            push_text(&mut out, "NaN");
        },
        Float::Infinite { negative } => {
            if *negative {
                push_text(&mut out, "-Infinity");
            } else {
                push_text(&mut out, "Infinity");
            }
        },
        Float::Finite(d) => {
            if d.negative {
                out.push('-');
            }
            let ghost sign = out@;
            let decpt: i64 = d.exponent as i64 + 1;
            let n: usize = d.digits.len();
            if decpt <= -4 || decpt > 16 {
                out.push(
                    if n > 0 {
                        d.digits[0]
                    } else {
                        '0'
                    },
                );
                if n > 1 {
                    out.push('.');
                    push_chars(&mut out, &d.digits, 1, n);
                }
                out.push('e');
                push_exponent(&mut out, decpt - 1);
            } else if decpt <= 0 {
                push_text(&mut out, "0.");
                proof {
                    reveal_strlit("0.");
                }
                push_zeros(&mut out, (-decpt) as usize);
                push_chars(&mut out, &d.digits, 0, n);
            } else if decpt as usize >= n {
                push_chars(&mut out, &d.digits, 0, n);
                push_zeros(&mut out, decpt as usize - n);
                push_text(&mut out, ".0");
                proof {
                    reveal_strlit(".0");
                }
            } else {
                push_chars(&mut out, &d.digits, 0, decpt as usize);
                out.push('.');
                push_chars(&mut out, &d.digits, decpt as usize, n);
            }
            assert(out@ =~= sign + repr_layout(d.digits@, decpt as int));
        },
    }
    assert(out@ =~= repr_real(x@));
    out
}

/// Python's `str(float)`: [`py_repr_f64`], but for `inf`, `-inf` and `nan`.
pub fn py_str_f64(x: &Float) -> (r: String)
    ensures
        r@ == str_real(x@),
{
    match x {
        Float::Nan => to_owned_text("nan"),
        Float::Infinite { negative } => if *negative {
            to_owned_text("-inf")
        } else {
            to_owned_text("inf")
        },
        Float::Finite(_) => py_repr_f64(x),
    }
}

} // verus!
