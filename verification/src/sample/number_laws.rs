//! The signs of decimals are those of the numbers they write.
use super::number;
use crate::pyjson::float;
use crate::pyjson::reader;
use vstd::arithmetic::power::{
    lemma_pow0, lemma_pow1, lemma_pow_adds, lemma_pow_increases, lemma_pow_positive, pow,
};
use vstd::prelude::*;

verus! {

/// The sign of `a - b`.
pub open spec fn sign_of_difference(a: int, b: int) -> int {
    if a < b {
        -1
    } else if a == b {
        0
    } else {
        1
    }
}

/// The sign of `digits[0].digits[1..] * 10^exponent - 1`: the digits read as one whole number
/// against the power of ten that stands for one there.
pub open spec fn difference_from_one(digits: Seq<char>, exponent: int) -> int {
    let n = reader::digits_value(digits) as int;
    let shift = exponent - (digits.len() - 1);
    if shift >= 0 {
        sign_of_difference(n * pow(10, shift as nat), 1)
    } else {
        sign_of_difference(n, pow(10, (-shift) as nat))
    }
}

/// A run of digits is below the power of ten with as many zeros.
proof fn lemma_value_bound(s: Seq<char>)
    requires
        float::all_digits(s),
    ensures
        0 <= reader::digits_value(s) < pow(10, s.len()),
    decreases s.len(),
{
    if s.len() == 0 {
        lemma_pow0(10);
    } else {
        let t = s.drop_last();
        assert(float::all_digits(t)) by {
            assert forall|i: int| 0 <= i < t.len() implies float::is_digit(#[trigger] t[i]) by {
                assert(float::is_digit(s[i]));
            }
        }
        lemma_value_bound(t);
        assert(float::is_digit(s[s.len() - 1]));
        lemma_pow_adds(10, t.len(), 1);
        lemma_pow1(10);
    }
}

/// The first digit counts for the power of ten behind it.
proof fn lemma_first_digit(s: Seq<char>)
    requires
        float::all_digits(s),
        s.len() > 0,
    ensures
        float::all_digits(s.drop_first()),
        reader::digits_value(s) == (s[0] as int - '0' as int) * pow(10, (s.len() - 1) as nat)
            + reader::digits_value(s.drop_first()),
    decreases s.len(),
{
    let rest = s.drop_first();
    assert(float::is_digit(s[0]));
    assert forall|i: int| 0 <= i < rest.len() implies float::is_digit(#[trigger] rest[i]) by {
        assert(float::is_digit(s[i + 1]));
    }
    if s.len() == 1 {
        lemma_pow0(10);
        assert(s.drop_last() =~= seq![]);
        assert(rest =~= seq![]);
        reveal_with_fuel(reader::digits_value, 2);
    } else {
        let t = s.drop_last();
        assert(float::all_digits(t)) by {
            assert forall|i: int| 0 <= i < t.len() implies float::is_digit(#[trigger] t[i]) by {
                assert(float::is_digit(s[i]));
            }
        }
        lemma_first_digit(t);
        assert(t.drop_first() =~= rest.drop_last());
        assert(rest.last() == s.last());
        let d = s[0] as int - '0' as int;
        let p = pow(10, (t.len() - 1) as nat);
        lemma_pow_adds(10, (t.len() - 1) as nat, 1);
        lemma_pow1(10);
        assert(10 * (d * p) == d * (p * 10)) by (nonlinear_arith);
    }
}

/// Leading zeros do not count.
proof fn lemma_skip_zeros(s: Seq<char>)
    requires
        float::all_digits(s),
    ensures
        ({
            let z = number::leading_zeros(s);
            let rest = s.skip(z as int);
            &&& z <= s.len()
            &&& float::all_digits(rest)
            &&& reader::digits_value(rest) == reader::digits_value(s)
            &&& rest.len() > 0 ==> rest[0] != '0'
        }),
    decreases s.len(),
{
    if s.len() > 0 && s[0] == '0' {
        let t = s.drop_first();
        lemma_first_digit(s);
        lemma_skip_zeros(t);
        let p = pow(10, (s.len() - 1) as nat);
        assert(0 * p == 0) by (nonlinear_arith);
        assert(s.skip(number::leading_zeros(s) as int) =~= t.skip(
            number::leading_zeros(t) as int,
        ));
    } else {
        assert(s.skip(0) =~= s);
    }
}

/// **Signs are what they say.** A decimal is zero exactly where all its digits are, and how
/// its magnitude compares with one is how the number compares with one.
pub proof fn signs_are_those_of_the_number(digits: Seq<char>, exponent: int)
    requires
        float::all_digits(digits),
        digits.len() > 0,
    ensures
        number::leading_zeros(digits) == digits.len() <==> reader::digits_value(digits) == 0,
        number::magnitude_less_one(digits, exponent) == difference_from_one(digits, exponent),
{
    let z = number::leading_zeros(digits);
    let rest = digits.skip(z as int);
    lemma_skip_zeros(digits);
    let n = reader::digits_value(digits) as int;
    let shift = exponent - (digits.len() - 1);
    if rest.len() == 0 {
        assert(rest =~= seq![]);
        if shift >= 0 {
            assert(0 * pow(10, shift as nat) == 0) by (nonlinear_arith);
        } else {
            lemma_pow_positive(10, (-shift) as nat);
        }
    } else {
        let m = (rest.len() - 1) as nat;
        let behind = rest.drop_first();
        let d = rest[0] as int - '0' as int;
        let one = pow(10, m);
        let v = reader::digits_value(behind) as int;
        assert(float::is_digit(rest[0]));
        lemma_first_digit(rest);
        lemma_value_bound(behind);
        lemma_pow_positive(10, m);
        lemma_skip_zeros(behind);
        assert(d * one >= one) by (nonlinear_arith)
            requires
                d >= 1,
                one >= 0,
        ;
        assert(n >= one);
        if exponent < z {
            let k = (-shift) as nat;
            lemma_value_bound(rest);
            lemma_pow_increases(10, rest.len(), k);
        } else if exponent > z {
            if shift >= 0 {
                let p = pow(10, shift as nat);
                lemma_pow_positive(10, shift as nat);
                if m == 0 {
                    lemma_pow0(10);
                    lemma_pow1(10);
                    lemma_pow_increases(10, 1, shift as nat);
                } else {
                    lemma_pow1(10);
                    lemma_pow_increases(10, 1, m);
                }
                assert(n * p > 1) by (nonlinear_arith)
                    requires
                        (n >= 1 && p >= 10) || (n >= 10 && p >= 1),
                ;
            } else {
                let k = (-shift) as nat;
                lemma_pow_adds(10, k, 1);
                lemma_pow1(10);
                lemma_pow_increases(10, k + 1, m);
                lemma_pow_positive(10, k);
            }
        } else {
            if shift >= 0 {
                lemma_pow0(10);
                assert(n * 1 == n);
            }
            if d >= 2 {
                assert(d * one >= 2 * one) by (nonlinear_arith)
                    requires
                        d >= 2,
                        one >= 0,
                ;
            } else {
                assert(1 * one == one) by (nonlinear_arith);
                let b = number::leading_zeros(behind);
                let tail = behind.skip(b as int);
                if b == behind.len() {
                    assert(tail =~= seq![]);
                } else {
                    lemma_first_digit(tail);
                    assert(float::is_digit(tail[0]));
                    let q = pow(10, (tail.len() - 1) as nat);
                    lemma_pow_positive(10, (tail.len() - 1) as nat);
                    let c = tail[0] as int - '0' as int;
                    assert(c * q >= 1) by (nonlinear_arith)
                        requires
                            c >= 1,
                            q >= 1,
                    ;
                }
            }
        }
    }
}

} // verus!
