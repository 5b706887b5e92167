//! How a number that a user wrote compares with zero and one, and how it is shown.
use crate::pyjson::float;
use crate::pyjson::float::{Decimal, Float, Real};
use crate::text::push_text;
use vstd::prelude::*;

verus! {

/// How many zeros the digits start with.
pub open spec fn leading_zeros(digits: Seq<char>) -> nat
    decreases digits.len(),
{
    if digits.len() > 0 && digits[0] == '0' {
        1 + leading_zeros(digits.drop_first())
    } else {
        0
    }
}

/// The sign of a number: -1, 0 or 1, and nothing for what is no number.
pub open spec fn sign(x: Real) -> Option<int> {
    match x {
        Real::Nan => None,
        Real::Infinite { negative } => Some(
            if negative {
                -1
            } else {
                1
            },
        ),
        Real::Finite { negative, digits, exponent } => if leading_zeros(digits) == digits.len() {
            Some(0)
        } else if negative {
            Some(-1)
        } else {
            Some(1)
        },
    }
}

/// The sign of a number that is not negative less one. Its first digit that is not zero
/// has the weight `10^(exponent - zeros)`, so a negative weight is below one, a positive
/// one above, and in between only `1`, with nothing but zeros behind it, is one.
pub open spec fn magnitude_less_one(digits: Seq<char>, exponent: int) -> int {
    let z = leading_zeros(digits);
    let rest = digits.skip(z as int);
    if rest.len() == 0 || exponent < z {
        -1
    } else if exponent > z || rest[0] != '1' {
        1
    } else if leading_zeros(rest.drop_first()) == rest.len() - 1 {
        0
    } else {
        1
    }
}

/// The sign of `x - 1`, and nothing for what is no number.
pub open spec fn sign_less_one(x: Real) -> Option<int> {
    match x {
        Real::Nan => None,
        Real::Infinite { negative } => Some(
            if negative {
                -1
            } else {
                1
            },
        ),
        Real::Finite { negative, digits, exponent } => if negative {
            Some(-1)
        } else {
            Some(magnitude_less_one(digits, exponent))
        },
    }
}

/// Whether `x` is a finite number.
pub open spec fn is_finite(x: Real) -> bool {
    x is Finite
}

/// A number in plain decimals, as Rust's `{}` writes it: without an exponent, and without a
/// point where there is nothing behind it.
pub open spec fn plain(x: Real) -> Seq<char> {
    match x {
        Real::Nan => "NaN"@,
        Real::Infinite { negative } => if negative {
            "-inf"@
        } else {
            "inf"@
        },
        Real::Finite { negative, digits, exponent } => {
            let sign = if negative {
                seq!['-']
            } else {
                seq![]
            };
            let point = exponent + 1;
            let body = if point <= 0 {
                seq!['0', '.'] + float::zeros((-point) as nat) + digits
            } else if point >= digits.len() {
                digits + float::zeros((point - digits.len()) as nat)
            } else {
                digits.take(point) + seq!['.'] + digits.skip(point)
            };
            sign + body
        },
    }
}

proof fn lemma_leading_zeros(s: Seq<char>, n: int)
    requires
        0 <= n <= s.len(),
        forall|k: int| 0 <= k < n ==> #[trigger] s[k] == '0',
        n < s.len() ==> s[n] != '0',
    ensures
        leading_zeros(s) == n,
    decreases s.len(),
{
    if n > 0 {
        let rest = s.drop_first();
        assert(s[0] == '0');
        assert forall|k: int| 0 <= k < n - 1 implies #[trigger] rest[k] == '0' by {
            assert(rest[k] == s[k + 1]);
        }
        lemma_leading_zeros(rest, n - 1);
    }
}

/// How many zeros stand in `digits` from `from` on.
fn count_zeros(digits: &Vec<char>, from: usize) -> (r: usize)
    requires
        from <= digits.len(),
    ensures
        r == leading_zeros(digits@.skip(from as int)),
        from + r <= digits.len(),
{
    let mut n: usize = 0;
    let ghost s = digits@.skip(from as int);
    while from + n < digits.len() && digits[from + n] == '0'
        invariant
            from + n <= digits.len(),
            s == digits@.skip(from as int),
            forall|k: int| 0 <= k < n ==> #[trigger] s[k] == '0',
        ensures
            from + n <= digits.len(),
            forall|k: int| 0 <= k < n ==> #[trigger] s[k] == '0',
            n < s.len() ==> s[n as int] != '0',
        decreases digits.len() - from - n,
    {
        n += 1;
    }
    proof {
        lemma_leading_zeros(s, n as int);
    }
    n
}

/// The sign of a number.
pub(crate) fn sign_of(x: &Float) -> (r: Option<i8>)
    ensures
        match r {
            Some(s) => sign(x@) == Some(s as int),
            None => sign(x@) is None,
        },
{
    match x {
        Float::Nan => None,
        Float::Infinite { negative } => Some(
            if *negative {
                -1
            } else {
                1
            },
        ),
        Float::Finite(d) => {
            assert(d.digits@.skip(0) =~= d.digits@);
            if count_zeros(&d.digits, 0) == d.digits.len() {
                Some(0)
            } else if d.negative {
                Some(-1)
            } else {
                Some(1)
            }
        },
    }
}

/// The sign of a magnitude less one.
fn magnitude_against_one(d: &Decimal) -> (r: i8)
    ensures
        r == magnitude_less_one(d.digits@, d.exponent as int),
{
    assert(d.digits@.skip(0) =~= d.digits@);
    let z: usize = count_zeros(&d.digits, 0);
    if z == d.digits.len() || (d.exponent as i128) < z as i128 {
        return -1;
    }
    if d.exponent as i128 > z as i128 || d.digits[z] != '1' {
        return 1;
    }
    proof {
        assert(d.digits@.skip(z as int).drop_first() =~= d.digits@.skip(z + 1));
    }
    if count_zeros(&d.digits, z + 1) == d.digits.len() - z - 1 {
        0
    } else {
        1
    }
}

/// The sign of `x - 1`.
pub(crate) fn sign_against_one(x: &Float) -> (r: Option<i8>)
    ensures
        match r {
            Some(s) => sign_less_one(x@) == Some(s as int),
            None => sign_less_one(x@) is None,
        },
{
    match x {
        Float::Nan => None,
        Float::Infinite { negative } => Some(
            if *negative {
                -1
            } else {
                1
            },
        ),
        Float::Finite(d) => if d.negative {
            Some(-1)
        } else {
            Some(magnitude_against_one(d))
        },
    }
}

/// Appends a number in plain decimals.
pub(crate) fn push_plain(out: &mut String, x: &Float)
    ensures
        final(out)@ == old(out)@ + plain(x@),
{
    let ghost before = out@;
    match x {
        Float::Nan => {
            push_text(out, "NaN");
        },
        Float::Infinite { negative } => {
            if *negative {
                push_text(out, "-inf");
            } else {
                push_text(out, "inf");
            }
        },
        Float::Finite(d) => {
            let n: usize = d.digits.len();
            if d.negative {
                out.push('-');
            }
            let point: i64 = d.exponent as i64 + 1;
            if point <= 0 {
                out.push('0');
                out.push('.');
                push_zeros(out, -point);
                push_digits(out, &d.digits, 0, n);
                assert(d.digits@.subrange(0, n as int) =~= d.digits@);
            } else if point as u64 >= n as u64 {
                push_digits(out, &d.digits, 0, n);
                assert(d.digits@.subrange(0, n as int) =~= d.digits@);
                push_zeros(out, point - n as i64);
            } else {
                push_digits(out, &d.digits, 0, point as usize);
                out.push('.');
                push_digits(out, &d.digits, point as usize, n);
                assert(d.digits@.subrange(0, point as int) =~= d.digits@.take(point as int));
                assert(d.digits@.subrange(point as int, n as int) =~= d.digits@.skip(point as int));
            }
            assert(out@ =~= before + plain(x@));
        },
    }
}

/// Appends `n` zeros.
fn push_zeros(out: &mut String, n: i64)
    requires
        0 <= n,
    ensures
        final(out)@ == old(out)@ + float::zeros(n as nat),
{
    let mut k: i64 = 0;
    assert(out@ =~= old(out)@ + float::zeros(0));
    while k < n
        invariant
            0 <= k <= n,
            out@ == old(out)@ + float::zeros(k as nat),
        decreases n - k,
    {
        out.push('0');
        k += 1;
        assert(out@ =~= old(out)@ + float::zeros(k as nat));
    }
}

/// Appends `digits[from..to]`.
fn push_digits(out: &mut String, digits: &Vec<char>, from: usize, to: usize)
    requires
        from <= to <= digits.len(),
    ensures
        final(out)@ == old(out)@ + digits@.subrange(from as int, to as int),
{
    let mut k: usize = from;
    assert(out@ =~= old(out)@ + digits@.subrange(from as int, from as int));
    while k < to
        invariant
            from <= k <= to <= digits.len(),
            out@ == old(out)@ + digits@.subrange(from as int, k as int),
        decreases to - k,
    {
        out.push(digits[k]);
        k += 1;
        assert(out@ =~= old(out)@ + digits@.subrange(from as int, k as int));
    }
}

} // verus!
