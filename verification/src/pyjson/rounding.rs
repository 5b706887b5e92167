//! Numbers as they are held: every float rounded to what a float can be.
//!
//! A numeral can stand for more numbers than a double can: `0.1000000000000000055` is read as
//! `0.1`, and `1e400` as infinity. Which double is nearest is floating point and is handed in;
//! where a document holds floats, and that nothing else changes, is decided here.
use super::float::{Float, Real};
use super::laws;
use super::reader;
use super::reader::parse_exact;
use super::value;
use super::value::{Json, Value};
use super::writer;
use vstd::prelude::*;

verus! {

/// Whether `y` is what rounding makes of `x`.
pub open spec fn float_rounds<R: Fn(&Float) -> Float>(round: R, x: Real, y: Real) -> bool {
    exists|f: &Float, g: Float| f@ == x && g@ == y && #[trigger] call_ensures(round, (f,), g)
}

/// Whether `b` is `a` with every float rounded.
pub open spec fn rounds_to<R: Fn(&Float) -> Float>(round: R, a: Json, b: Json) -> bool
    decreases a,
{
    match (a, b) {
        (Json::Float(x), Json::Float(y)) => float_rounds(round, x, y),
        (Json::Array(x), Json::Array(y)) => {
            &&& x.len() == y.len()
            &&& forall|i: int| 0 <= i < x.len() ==> rounds_to(round, x[i], #[trigger] y[i])
        },
        (Json::Object(x), Json::Object(y)) => {
            &&& x.len() == y.len()
            &&& forall|i: int|
                0 <= i < x.len() ==> x[i].0 == (#[trigger] y[i]).0 && rounds_to(
                    round,
                    x[i].1,
                    y[i].1,
                )
        },
        _ => !(a is Float || a is Array || a is Object) && a == b,
    }
}

/// A value with every float rounded.
pub fn round_floats<R: Fn(&Float) -> Float>(v: &Value, round: &R) -> (r: Value)
    requires
        forall|f: &Float| call_requires(*round, (f,)),
    ensures
        rounds_to(*round, v@, r@),
    decreases v,
{
    match v {
        Value::Null => Value::Null,
        Value::Bool(b) => Value::Bool(*b),
        Value::Int(i) => Value::Int(*i),
        Value::Str(s) => Value::Str(s.clone()),
        Value::Float(f) => Value::Float(round(f)),
        Value::Array(a) => {
            let mut out: Vec<Value> = Vec::new();
            let mut i: usize = 0;
            while i < a.len()
                invariant
                    v == Value::Array(*a),
                    i <= a@.len(),
                    out.len() == i,
                    forall|f: &Float| call_requires(*round, (f,)),
                    forall|j: int|
                        0 <= j < i ==> rounds_to(*round, a@[j]@, (#[trigger] out@[j])@),
                decreases a.len() - i,
            {
                proof {
                    value::lemma_array_item_smaller(v, a, i as int);
                }
                let item = round_floats(&a[i], round);
                out.push(item);
                i += 1;
            }
            proof {
                value::lemma_array_view(*a);
                value::lemma_array_view(out);
                let x = value::json_items(a@);
                let y = value::json_items(out@);
                assert forall|j: int| 0 <= j < x.len() implies rounds_to(
                    *round,
                    x[j],
                    #[trigger] y[j],
                ) by {
                    assert(rounds_to(*round, a@[j]@, out@[j]@));
                }
            }
            Value::Array(out)
        },
        Value::Object(kv) => {
            let mut out: Vec<(String, Value)> = Vec::new();
            let mut i: usize = 0;
            while i < kv.len()
                invariant
                    v == Value::Object(*kv),
                    i <= kv@.len(),
                    out.len() == i,
                    forall|f: &Float| call_requires(*round, (f,)),
                    forall|j: int|
                        0 <= j < i ==> kv@[j].0@ == (#[trigger] out@[j]).0@ && rounds_to(
                            *round,
                            kv@[j].1@,
                            out@[j].1@,
                        ),
                decreases kv.len() - i,
            {
                proof {
                    value::lemma_object_item_smaller(v, kv, i as int);
                }
                let key = kv[i].0.clone();
                let item = round_floats(&kv[i].1, round);
                out.push((key, item));
                i += 1;
            }
            proof {
                value::lemma_object_view(*kv);
                value::lemma_object_view(out);
                let x = value::json_members(kv@);
                let y = value::json_members(out@);
                assert forall|j: int| 0 <= j < x.len() implies x[j].0 == (#[trigger] y[j]).0
                    && rounds_to(*round, x[j].1, y[j].1) by {
                    assert(kv@[j].0@ == out@[j].0@);
                }
            }
            Value::Object(out)
        },
    }
}

/// Parse a JSON document.
///
/// Strict about the grammar, but two Python-isms are accepted because documents are
/// written by Python and typed by people: any top-level white space, and integers of any
/// width that fits `i128` (Python has no overflow, so `17800000000000000000` is legal
/// JSON for it). `round` gives the float that a numeral is read as: for a double the nearest
/// one, so that `1e400` is infinite.
pub fn parse<R: Fn(&Float) -> Float>(src: &str, round: &R) -> (r: Result<Value, String>)
    requires
        forall|f: &Float| call_requires(*round, (f,)),
    ensures
        match (r, reader::document(src@)) {
            (Ok(v), Ok(j)) => rounds_to(*round, j, v@),
            (Err(m), Err(n)) => m@ == n,
            _ => false,
        },
{
    match parse_exact(src) {
        Ok(v) => Ok(round_floats(&v, round)),
        Err(e) => Err(e),
    }
}

/// Whether rounding leaves every float in a value as it is.
pub open spec fn is_rounded<R: Fn(&Float) -> Float>(round: R, v: Json) -> bool
    decreases v,
{
    match v {
        Json::Float(x) => forall|y: Real| #[trigger] float_rounds(round, x, y) ==> y == x,
        Json::Array(a) => forall|i: int| 0 <= i < a.len() ==> is_rounded(round, #[trigger] a[i]),
        Json::Object(m) => forall|i: int|
            0 <= i < m.len() ==> is_rounded(round, (#[trigger] m[i]).1),
        _ => true,
    }
}

proof fn lemma_rounded_stays<R: Fn(&Float) -> Float>(round: R, v: Json, w: Json)
    requires
        is_rounded(round, v),
        rounds_to(round, v, w),
    ensures
        w == v,
    decreases v,
{
    match (v, w) {
        (Json::Array(x), Json::Array(y)) => {
            assert forall|i: int| 0 <= i < x.len() implies x[i] == y[i] by {
                assert(is_rounded(round, x[i]));
                assert(rounds_to(round, x[i], y[i]));
                lemma_rounded_stays(round, x[i], y[i]);
            }
            assert(x =~= y);
        },
        (Json::Object(x), Json::Object(y)) => {
            assert forall|i: int| 0 <= i < x.len() implies x[i] == y[i] by {
                assert(is_rounded(round, x[i].1));
                assert(x[i].0 == y[i].0 && rounds_to(round, x[i].1, y[i].1));
                lemma_rounded_stays(round, x[i].1, y[i].1);
            }
            assert(x =~= y);
        },
        _ => {},
    }
}

/// Reading what was written gives back the value, where its floats are what floats can be:
/// rounding them again changes nothing.
pub proof fn parse_gives_back_what_dumps_wrote<R: Fn(&Float) -> Float>(
    round: R,
    v: Json,
    w: Json,
)
    requires
        laws::writable(v),
        is_rounded(round, v),
        match reader::document(writer::dumps_text(v)) {
            Ok(j) => rounds_to(round, j, w),
            Err(_) => false,
        },
    ensures
        w == v,
{
    laws::dumps_parse_round_trip(v);
    lemma_rounded_stays(round, v, w);
}

} // verus!
