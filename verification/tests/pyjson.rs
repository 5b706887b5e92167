use gdn::pyjson::{dumps, parse_exact, py_repr_f64, py_str, py_str_f64, Float, Value};

fn float(x: f64) -> Value {
    parse_exact(&format!("{x:e}")).unwrap()
}

fn decimal(x: f64) -> Float {
    match float(x) {
        Value::Float(f) => f,
        other => panic!("{x:e} is no float: {other:?}"),
    }
}

fn s(v: &str) -> Value {
    Value::Str(v.to_string())
}

fn obj(kv: &[(&str, Value)]) -> Value {
    Value::Object(kv.iter().map(|(k, v)| (k.to_string(), v.clone())).collect())
}

/// The exact strings `python3 -c 'import json; print(json.dumps(...))'`
/// produced for these inputs. Every one of them is a case where the usual compact writer
/// would differ.
#[test]
fn dumps_matches_python() {
    assert_eq!(dumps(&obj(&[("a", Value::Int(1)), ("b", Value::Int(2))])), r#"{"a": 1, "b": 2}"#);
    assert_eq!(
        dumps(&obj(&[("a", obj(&[("b", Value::Array(vec![Value::Int(1), Value::Int(2), obj(&[("c", Value::Null)])]))])), ("d", Value::Bool(true)), ("e", Value::Array(vec![]))])),
        r#"{"a": {"b": [1, 2, {"c": null}]}, "d": true, "e": []}"#
    );
    assert_eq!(dumps(&Value::Object(vec![])), "{}");
    assert_eq!(dumps(&Value::Array(vec![])), "[]");
    // `ensure_ascii=False`, and no HTML-safe escaping.
    assert_eq!(dumps(&obj(&[("k", s("中文 é"))])), "{\"k\": \"中文 é\"}");
    assert_eq!(dumps(&obj(&[("k", s("<a>&'</a>"))])), "{\"k\": \"<a>&'</a>\"}");
    // Only `"`, `\` and the C0 controls are escaped.
    assert_eq!(dumps(&s("a\"b")), "\"a\\\"b\"");
    assert_eq!(dumps(&s("a\\b")), "\"a\\\\b\"");
    assert_eq!(dumps(&s("a\nb")), "\"a\\nb\"");
    assert_eq!(dumps(&s("a\tb")), "\"a\\tb\"");
    assert_eq!(dumps(&s("\u{0}\u{1}\u{1f}")), "\"\\u0000\\u0001\\u001f\"");
    assert_eq!(dumps(&s("\u{7f}")), "\"\u{7f}\"");
    assert_eq!(dumps(&s("\u{2028}\u{2029}")), "\"\u{2028}\u{2029}\"");
    assert_eq!(dumps(&s("\u{1F600}")), "\"\u{1F600}\"");
    assert_eq!(dumps(&s("a/b")), "\"a/b\"");
}

/// Key order is insertion order, which a sorted map would lose. A tool definition written `name, description, parameters` must
/// not come back `description, name, parameters`.
#[test]
fn object_key_order_is_preserved() {
    let v = obj(&[("name", s("f")), ("description", s("d")), ("parameters", obj(&[]))]);
    assert_eq!(dumps(&v), r#"{"name": "f", "description": "d", "parameters": {}}"#);
    let back = parse(&dumps(&v)).unwrap();
    assert_eq!(back, v, "a round trip through the parser must not reorder");
}

/// The float cases, copied from `repr()` on CPython 3.10. The interesting
/// ones are the boundaries: `1e-5` uses an exponent but `1e-4` does not, and
/// `1e16` does but `1e15` does not.
#[test]
fn float_repr_matches_python() {
    let cases: &[(f64, &str)] = &[
        (1.5, "1.5"),
        (0.1, "0.1"),
        (1e-5, "1e-05"),
        (1e-4, "0.0001"),
        (1e15, "1000000000000000.0"),
        (1e16, "1e+16"),
        (1e17, "1e+17"),
        (-0.0, "-0.0"),
        (0.0, "0.0"),
        (1.0 / 3.0, "0.3333333333333333"),
        (1e300, "1e+300"),
        (3.0, "3.0"),
        (100.0, "100.0"),
        // Written with the digits f64 can actually hold: the point is that a
        // value with more precision than f64 has still round-trips to the
        // shortest spelling, which is what Python prints.
        (123_456_789.123_456_79, "123456789.12345679"),
        (2.5e-323, "2.5e-323"),
        (f64::MAX, "1.7976931348623157e+308"),
        (5e-324, "5e-324"),
    ];
    for (v, want) in cases {
        assert_eq!(&py_repr_f64(&decimal(*v)), want, "repr({v:?})");
    }
}

/// `str` and `dumps` differ, and the template needs both: a bare string, int,
/// bool or float goes through `str` (no quotes, `True`, `None`), while a
/// mapping or a non-string sequence goes through `tojson`.
#[test]
fn py_str_is_pythons_str() {
    assert_eq!(py_str(&Value::Int(42)), "42");
    assert_eq!(py_str(&float(1.5)), "1.5");
    assert_eq!(py_str(&Value::Bool(true)), "True");
    assert_eq!(py_str(&Value::Bool(false)), "False");
    assert_eq!(py_str(&Value::Null), "None");
    assert_eq!(py_str(&s("s")), "s");
    assert_eq!(py_str(&Value::Array(vec![Value::Int(1), Value::Int(2)])), "[1, 2]");
    assert_eq!(py_str(&obj(&[("x", Value::Int(1))])), "{'x': 1}");
    assert_eq!(py_str(&Value::Array(vec![])), "[]");
    // The container branches are unreachable from the template, but a
    // container holding a string must still quote it, pythonically.
    assert_eq!(py_str(&Value::Array(vec![s("it's")])), "[\"it's\"]");
    assert_eq!(py_str(&Value::Array(vec![s("a\nb")])), "['a\\nb']");
}

#[test]
fn parses_every_shape() {
    assert_eq!(parse("null").unwrap(), Value::Null);
    assert_eq!(parse(" true ").unwrap(), Value::Bool(true));
    assert_eq!(parse("-17").unwrap(), Value::Int(-17));
    assert_eq!(parse("1.5e3").unwrap(), float(1500.0));
    assert_eq!(parse(r#""a\u0041\u4e2d""#).unwrap(), s("aA中"));
    // A surrogate pair, and the non-BMP character it stands for.
    assert_eq!(parse(r#""\ud83d\ude00""#).unwrap(), s("\u{1F600}"));
    assert_eq!(parse("[]").unwrap(), Value::Array(vec![]));
    assert_eq!(parse("{}").unwrap(), Value::Object(vec![]));
    assert_eq!(
        parse(r#"{"a": [1, {"b": null}]}"#).unwrap(),
        obj(&[("a", Value::Array(vec![Value::Int(1), obj(&[("b", Value::Null)])]))])
    );
    // Python has arbitrary-precision ints, so an id beyond i64 is legal.
    assert_eq!(parse("17800000000000000000").unwrap(), Value::Int(17800000000000000000));
}

#[test]
fn rejects_malformed_input() {
    for bad in [
        "", "{", "[1,", "{\"a\"}", "tru", "01", "-01", "1.", "1e", "\"unterminated", "1 2",
        "[1]]",
    ] {
        assert!(parse(bad).is_err(), "`{bad}` should not parse");
    }
    // A lone high surrogate has no character, so it is refused rather than
    // silently replaced.
    assert!(parse(r#""\ud83d""#).is_err());
    // ... but a leading zero inside a string is just a string.
    assert_eq!(parse(r#""01""#).unwrap(), s("01"));
}

/// `dumps` then `parse` must be the identity on every value, which is the
/// property the corpus relies on when it round-trips tool definitions.
#[test]
fn dumps_parse_round_trip() {
    let v = obj(&[
        ("s", s("a\"b\\c\nd")),
        ("i", Value::Int(-3)),
        ("f", float(1e-5)),
        ("b", Value::Bool(false)),
        ("n", Value::Null),
        ("a", Value::Array(vec![float(0.0), s("")])),
        ("o", obj(&[("z", Value::Int(1)), ("a", Value::Int(2))])),
    ]);
    assert_eq!(parse(&dumps(&v)).unwrap(), v);
}

#[test]
fn json_that_is_strictly_no_json_is_refused() {
    for bad in ["-.5", "\"\\u+041\"", "\"a\nb\"", "NaN", "[1 2]", "\"\\x\""] {
        assert!(parse(bad).is_err(), "`{bad}` should not parse");
    }
    let e = parse("[1]]").unwrap_err();
    assert_eq!(e, "trailing input at byte 3");
}

#[test]
fn members_and_items_are_found() {
    let v = parse("{\"a\": [1, true], \"b\": \"x\", \"a\": 2}").unwrap();
    assert_eq!(v.get("a").unwrap().as_array().unwrap().len(), 2);
    assert!(v.get("c").is_none());
    assert!(v.contains_key("b") && !v.contains_key("x"));
    assert_eq!(v.get("b").unwrap().as_str(), Some("x"));
    assert!(Value::Str("haystack".to_string()).contains_key("ays"));
    assert_eq!(Value::Int(-1).as_usize(), None);
    assert_eq!(Value::Int(7).as_u64(), Some(7));
    assert_eq!(Value::Bool(true).as_bool(), Some(true));
    assert!(Value::Array(vec![]).as_nonempty_array().is_none());
}

#[test]
fn floats_that_are_no_numbers_have_pythons_names() {
    assert_eq!(py_repr_f64(&Float::Nan), "NaN");
    assert_eq!(py_repr_f64(&Float::Infinite { negative: true }), "-Infinity");
    assert_eq!(py_repr_f64(&Float::Infinite { negative: false }), "Infinity");
    let odd = |s: &str| parse(s).unwrap();
    let of = |v: Value| (py_str(&v), dumps(&v));
    let both = |a: &str, b: &str| (a.to_string(), b.to_string());
    assert_eq!(of(Value::Float(Float::Nan)), both("nan", "NaN"));
    assert_eq!(of(Value::Float(Float::Infinite { negative: true })), both("-inf", "-Infinity"));
    assert_eq!(of(Value::Float(Float::Infinite { negative: false })), both("inf", "Infinity"));
    assert_eq!(
        of(Value::Array(vec![Value::Float(Float::Nan), odd("1.5")])),
        both("[nan, 1.5]", "[NaN, 1.5]")
    );
    assert_eq!(py_str_f64(&Float::Nan), "nan");
}

/// The double that a decimal is read as, in its shortest form.
fn nearest(f: &Float) -> Float {
    let Float::Finite(_) = f else { return f.clone() };
    let x: f64 = py_repr_f64(f).parse().unwrap();
    if x.is_infinite() {
        return Float::Infinite { negative: x < 0.0 };
    }
    match parse_exact(&format!("{x:?}")).unwrap() {
        Value::Float(g) => g,
        other => panic!("{other:?} is no float"),
    }
}

fn parse(text: &str) -> Result<Value, String> {
    gdn::pyjson::parse(text, &nearest)
}

/// A numeral is read as the nearest double, wherever it stands.
#[test]
fn floats_are_rounded_where_they_stand() {
    let v = parse("{\"a\": [0.1000000000000000055, 1], \"b\": 1e400, \"c\": -1e400}").unwrap();
    assert_eq!(dumps(&v), "{\"a\": [0.1, 1], \"b\": Infinity, \"c\": -Infinity}");
    let exact = parse_exact("[1e400]").unwrap();
    assert_eq!(dumps(&exact), "[1e+400]");
    let infinite = Value::Float(Float::Infinite { negative: false });
    assert_eq!(parse("[1e400]").unwrap(), Value::Array(vec![infinite]));
}
