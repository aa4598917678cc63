use std::collections::HashMap;

use rexp::eval::{EvalContext, Evaluator};
use rexp::parser::Parser;
use rexp::value::Value;

fn eval_with(formula: &str, context: EvalContext) -> Value {
    let mut p = Parser::new(formula);
    p.tokenize();
    let e = p.parse();
    let evaluator = Evaluator { expr: e, context };
    evaluator.resolve()
}

fn eval(formula: &str) -> Value {
    eval_with(formula, EvalContext::new())
}

fn context_of(pairs: &HashMap<String, Value>) -> EvalContext {
    let mut c = EvalContext::new();
    for (k, v) in pairs.iter() {
        c.insert(k.clone(), clone_of(v));
    }
    c
}

fn clone_of(v: &Value) -> Value {
    match v {
        Value::Boolean(b) => Value::Boolean(*b),
        Value::Number(n) => Value::Number(*n),
        Value::String(s) => Value::String(s.clone()),
        Value::Date(n) => Value::Date(*n),
        Value::Empty => Value::Empty,
        Value::Unknown => Value::Unknown,
        Value::Error(e) => Value::Error(e.clone()),
        Value::Array(_) => panic!("not needed"),
    }
}

#[test]
fn eval_all() {
    let mut empty_context = HashMap::new();
    empty_context.insert("b0987654321".to_string(), Value::Empty);
    let mut ref_context = HashMap::new();
    ref_context.insert("b0987654321".to_string(), Value::Number((2.0f64).to_bits()));

    let cases: Vec<(&str, HashMap<String, Value>, Value)> = vec![
        ("-(1+(2+3)*4-5)", HashMap::new(), Value::Number((-16.0f64).to_bits())),
        ("1", HashMap::new(), Value::Number((1.0f64).to_bits())),
        ("\"50\"", HashMap::new(), Value::String("50".to_string())),
        ("1<2", HashMap::new(), Value::Boolean(true)),
        ("SUM(1+1,1/1)", HashMap::new(), Value::Number((3.0f64).to_bits())),
        (
            "REF(\"a1234567890.b0987654321\")",
            ref_context,
            Value::Number((2.0f64).to_bits()),
        ),
        ("AVERAGE(1,2,3,\"a\")", HashMap::new(), Value::Number((2.0f64).to_bits())),
        (
            "average(ref(\"a1234567890.b0987654321\"),ref(\"a1234567890.b0987654321\"))",
            empty_context,
            Value::Empty,
        ),
    ];
    for (formula, ctx, expect) in cases {
        let result = eval_with(formula, context_of(&ctx));
        assert_eq!(result, expect);
    }
}

#[test]
fn precedence_is_respected() {
    assert_eq!(eval("1+2*3"), Value::Number((7.0f64).to_bits()));
    assert_eq!(eval("2*3+1"), Value::Number((7.0f64).to_bits()));
    assert_eq!(eval("(1+2)*3"), Value::Number((9.0f64).to_bits()));
    assert_eq!(eval("8-4/2"), Value::Number((6.0f64).to_bits()));
}

#[test]
fn ref_missing_key_is_ref_error() {
    let result = eval("REF(\"a1234567890.b0987654321\")");
    assert_eq!(result, Value::Error("#REF!".to_string()));
}

#[test]
fn division_by_zero() {
    assert_eq!(eval("1/0"), Value::Error("#DIV/0".to_string()));
    assert_eq!(eval("SUM(1,2)/(1-1)"), Value::Error("#DIV/0".to_string()));
    assert_eq!(eval("1/2"), Value::Number((0.5f64).to_bits()));
}

#[test]
fn comparison_is_exact() {
    let a = Value::Number((1.0f64).to_bits());
    let b = Value::Number((1.0000000001f64).to_bits());
    assert_eq!(rexp::functions::compare(&a, &b, "="), Value::Boolean(false));
    assert_eq!(rexp::functions::compare(&a, &a, "="), Value::Boolean(true));
    assert_eq!(rexp::functions::compare(&a, &b, "<"), Value::Boolean(true));
    assert_eq!(rexp::functions::compare(&a, &b, "<>"), Value::Boolean(true));
    assert_eq!(rexp::functions::compare(&a, &b, "##"), Value::Boolean(false));
}

#[test]
fn error_literal_propagates() {
    assert_eq!(eval("SUM(1,#NULL!,2)"), Value::Error("#NULL!".to_string()));
    assert_eq!(eval("SUM(#VALUE!,1/0)"), Value::Error("#VALUE!".to_string()));
}

#[test]
fn unknown_function_falls_back_to_sum() {
    assert_eq!(eval("NOSUCH(1,2)"), Value::Number((3.0f64).to_bits()));
}

#[test]
fn boolean_literals() {
    assert_eq!(eval("true"), Value::Boolean(true));
    assert_eq!(eval("FALSE"), Value::Error("#N/A".to_string()));
    assert_eq!(eval("true+1"), Value::Number((2.0f64).to_bits()));
}

#[test]
fn empty_formula_is_missing_value() {
    assert_eq!(eval(""), Value::Error("#N/A".to_string()));
    assert_eq!(rexp::resolve(""), "#N/A".to_string());
}

#[test]
fn resolve_renders_result() {
    assert_eq!(rexp::resolve("-(1+(2+3)*4-5)"), "-16".to_string());
    assert_eq!(rexp::resolve("\"50\""), "50".to_string());
    assert_eq!(rexp::resolve("2.5+2.5"), "5".to_string());
}

#[test]
fn number_rendering_is_shortest_faithful() {
    assert_eq!(Value::Number((0.1f64).to_bits()).as_string(), "0.1".to_string());
    assert_eq!(
        Value::Number((0.30000000000000004f64).to_bits()).as_string(),
        "0.30000000000000004".to_string()
    );
    assert_eq!(rexp::resolve("0.1"), "0.1".to_string());
    assert_eq!(rexp::resolve("1/3"), "0.3333333333333333".to_string());
}

#[test]
fn concatenation_and_unary() {
    assert_eq!(eval("-3"), Value::Number((-3.0f64).to_bits()));
    assert_eq!(eval("--3"), Value::Number((3.0f64).to_bits()));
    assert_eq!(eval("+3"), Value::Number((3.0f64).to_bits()));
}

#[test]
fn special_float_words() {
    assert_eq!(eval("inf"), Value::Number(f64::INFINITY.to_bits()));
    assert_eq!(eval("Infinity"), Value::Number(f64::INFINITY.to_bits()));
    assert_eq!(eval("nan"), Value::Number(0x7FF8_0000_0000_0000));
    assert_eq!(eval("NAN"), Value::Number(0x7FF8_0000_0000_0000));
    assert_eq!(eval("1/inf"), Value::Number(0u64));
    // A NaN compares false under every operator but inequality.
    let nan = Value::Number(0x7FF8_0000_0000_0000u64);
    let one = Value::Number((1.0f64).to_bits());
    assert_eq!(rexp::functions::compare(&nan, &one, "="), Value::Boolean(false));
    assert_eq!(rexp::functions::compare(&nan, &one, "<"), Value::Boolean(false));
    assert_eq!(rexp::functions::compare(&nan, &one, "<>"), Value::Boolean(true));
}

#[test]
fn date_out_of_calendar_renders_empty() {
    let d = Value::Date((2.0e14f64).to_bits());
    assert_eq!(d.as_string(), "".to_string());
    // A NaN day count truncates to zero days: the epoch itself.
    let n = Value::Date(f64::NAN.to_bits());
    assert_eq!(n.as_string(), "1899/12/30".to_string());
}

#[test]
fn today_is_numeric() {
    let v = rexp::functions::today(&[]);
    assert!(matches!(v, Value::Number(_)));
}

#[test]
fn date_renders_as_calendar_day() {
    let d = Value::Date((44237.1f64).to_bits());
    assert_eq!(d.as_string(), "2021/02/10".to_string());
}

#[test]
fn average_of_refs_with_values() {
    let mut c = EvalContext::new();
    c.insert("b0987654321".to_string(), Value::Number((4.0f64).to_bits()));
    let r = eval_with(
        "AVERAGE(REF(\"a1234567890.b0987654321\"),2)",
        c,
    );
    assert_eq!(r, Value::Number((3.0f64).to_bits()));
}
