use rexp::eval::EvalContext;
use rexp::functions;
use rexp::token::{Token, TokenSubType, TokenType, Tokens};
use rexp::value::Value;

#[test]
fn value_coercions() {
    assert_eq!(Value::Number((2.5f64).to_bits()).to_number(), (2.5f64).to_bits());
    assert_eq!(Value::Boolean(true).to_number(), (1.0f64).to_bits());
    assert_eq!(Value::Boolean(false).to_number(), 0u64);
    assert_eq!(Value::String("9".to_string()).to_number(), 0u64);
    assert_eq!(Value::Empty.to_number(), 0u64);
    assert!(Value::Number(0).is_number());
    assert!(!Value::Empty.is_number());
    assert!(Value::Error("#REF!".to_string()).is_error());
    assert_eq!(Value::Error("#REF!".to_string()).as_string(), "#REF!".to_string());
    assert_eq!(Value::String("ab".to_string()).as_string(), "ab".to_string());
    assert_eq!(Value::Empty.as_string(), "".to_string());
    assert_eq!(Value::Number((0.5f64).to_bits()).as_string(), "0.5".to_string());
}

#[test]
fn arithmetic_functions() {
    let two = Value::Number((2.0f64).to_bits());
    let three = Value::Number((3.0f64).to_bits());
    assert_eq!(functions::add(&two, &three), Value::Number((5.0f64).to_bits()));
    assert_eq!(functions::subtract(&two, &three), Value::Number((-1.0f64).to_bits()));
    assert_eq!(functions::multiply(&two, &three), Value::Number((6.0f64).to_bits()));
    assert_eq!(functions::divide(&three, &two), Value::Number((1.5f64).to_bits()));
    assert_eq!(
        functions::divide(&three, &Value::Number((0.0f64).to_bits())),
        Value::Error("#DIV/0".to_string())
    );
    assert_eq!(
        functions::divide(&three, &Value::Number((-0.0f64).to_bits())),
        Value::Error("#DIV/0".to_string())
    );
    assert_eq!(
        functions::divide(&three, &Value::String("x".to_string())),
        Value::Error("#DIV/0".to_string())
    );
}

#[test]
fn sum_count_average() {
    let args = vec![
        Value::Number((1.0f64).to_bits()),
        Value::Number((2.0f64).to_bits()),
        Value::Number((3.0f64).to_bits()),
        Value::String("a".to_string()),
    ];
    assert_eq!(functions::sum(&args), Value::Number((6.0f64).to_bits()));
    assert_eq!(functions::count(&args), Value::Number((3.0f64).to_bits()));
    assert_eq!(functions::avarage(&args), Value::Number((2.0f64).to_bits()));
    let none: Vec<Value> = vec![Value::Empty, Value::String("b".to_string())];
    assert_eq!(functions::avarage(&none), Value::Empty);
    assert_eq!(functions::sum(&[]), Value::Number(0));
}

#[test]
fn ref_lookup() {
    let mut ctx = EvalContext::new();
    ctx.insert("b0987654321".to_string(), Value::Number((2.0f64).to_bits()));
    let arg = vec![Value::String("a1234567890.b0987654321".to_string())];
    assert_eq!(
        functions::get_ref_value(&ctx, &arg),
        Value::Number((2.0f64).to_bits())
    );
    assert_eq!(
        functions::get_ref_value(&ctx, &[]),
        Value::Error("#REF!".to_string())
    );
    let short = vec![Value::String("tiny".to_string())];
    assert_eq!(
        functions::get_ref_value(&ctx, &short),
        Value::Error("#REF!".to_string())
    );
    let missing = vec![Value::String("a1234567890.nope".to_string())];
    assert_eq!(
        functions::get_ref_value(&ctx, &missing),
        Value::Error("#REF!".to_string())
    );
}

#[test]
fn context_shadows_by_latest() {
    let mut ctx = EvalContext::new();
    ctx.insert("k0000000000".to_string(), Value::Number((1.0f64).to_bits()));
    ctx.insert("k0000000000".to_string(), Value::Number((9.0f64).to_bits()));
    assert_eq!(
        ctx.get("k0000000000"),
        Some(Value::Number((9.0f64).to_bits()))
    );
    assert_eq!(ctx.get("absent"), None);
}

#[test]
fn token_stream_cursor() {
    let mut ts = Tokens::new();
    ts.add("1".to_string(), TokenType::Operand, TokenSubType::Number);
    ts.add_ref(&Token::new(
        "+".to_string(),
        TokenType::OperatorInfix,
        TokenSubType::Math,
    ));
    ts.add("2".to_string(), TokenType::Operand, TokenSubType::Number);
    assert_eq!(ts.len(), 3);
    assert!(ts.bof());
    assert!(!ts.eof());
    assert!(ts.move_next());
    assert_eq!(ts.current().value, "1".to_string());
    assert_eq!(ts.next().value, "+".to_string());
    assert!(ts.move_next());
    assert_eq!(ts.previous().value, "1".to_string());
    ts.set_current_field(Some("-".to_string()), None, Some(TokenSubType::Math));
    assert_eq!(ts.current().value, "-".to_string());
    assert!(ts.move_next());
    assert!(ts.eof());
    assert!(!ts.move_next());
    ts.reset();
    assert!(ts.bof());
    assert_eq!(ts.get(2).value, "2".to_string());
}

#[test]
fn scope_stack_operations() {
    let mut stack = Tokens::new();
    assert_eq!(*stack.tp(), TokenType::Noop);
    let popped = stack.pop().unwrap();
    assert_eq!(popped.token_type, TokenType::Function);
    assert_eq!(popped.sub_type, TokenSubType::Stop);
    stack.push(Token::new(
        "SUM".to_string(),
        TokenType::Function,
        TokenSubType::Start,
    ));
    stack.push(Token::new(
        String::new(),
        TokenType::Subexpression,
        TokenSubType::Start,
    ));
    assert_eq!(*stack.tp(), TokenType::Subexpression);
    assert_eq!(stack.token().token_type, TokenType::Subexpression);
    let top = stack.pop().unwrap();
    assert_eq!(top.token_type, TokenType::Subexpression);
    assert_eq!(top.sub_type, TokenSubType::Stop);
    assert_eq!(*stack.tp(), TokenType::Function);
}
