use rexp::exp::get_precedence;
use rexp::parser::Parser;

#[test]
fn render_round_trip() {
    let cases = [
        "-(1+(2+3)*4-5)",
        "SUM(1+1,1/1)",
        "AVERAGE(1,2,3,\"a\")",
        "\"a\"&\"b\"",
        "1<=2",
        "{1;2}",
        "1 2",
        "1+2*3-4/5+6*7",
    ];
    for f in cases {
        let mut p = Parser::new(f);
        p.tokenize();
        let rendered = p.render();
        let mut p2 = Parser::new(&rendered);
        p2.tokenize();
        let rendered2 = p2.render();
        assert_eq!(rendered, rendered2);
        assert_eq!(p.pretty(), p2.pretty());
    }
}

#[test]
fn render_normalizes() {
    let mut p = Parser::new("sum(1 , 2)");
    p.tokenize();
    assert_eq!(p.render(), "SUM(1,2)".to_string());
}

#[test]
fn pretty_dumps_each_token() {
    let mut p = Parser::new("SUM(1)");
    p.tokenize();
    let dump = p.pretty();
    assert!(dump.contains("SUM <Function> <Start>"));
    assert!(dump.contains("1 <Operand> <Number>"));
    assert!(dump.contains("<Function> <Stop>"));
}

#[test]
fn classification_cases() {
    let mut p = Parser::new("true<>\"txt\"&bare");
    p.tokenize();
    let dump = p.pretty();
    assert!(dump.contains("true <Operand> <Logical>"));
    assert!(dump.contains("<> <OperatorInfix> <Logical>"));
    assert!(dump.contains("txt <Operand> <Text>"));
    assert!(dump.contains("& <OperatorInfix> <Concatenation>"));
    assert!(dump.contains("bare <Operand> <Text>"));
}

#[test]
fn error_literal_and_array_tokens() {
    let mut p = Parser::new("{1;2}+#DIV/0!");
    p.tokenize();
    let dump = p.pretty();
    assert!(dump.contains("ARRAY <Function> <Start>"));
    assert!(dump.contains("ARRAYROW <Function> <Start>"));
    assert!(dump.contains("#DIV/0! <Operand> <Error>"));
    assert!(dump.contains("+ <OperatorInfix> <Math>"));
}

#[test]
fn at_prefix_is_stripped() {
    let mut p = Parser::new("@foo(1)");
    p.tokenize();
    assert_eq!(p.render(), "FOO(1)".to_string());
}

#[test]
fn whitespace_becomes_intersection_between_operands() {
    let mut p = Parser::new("1 2");
    p.tokenize();
    let dump = p.pretty();
    assert!(dump.contains("<OperatorInfix> <Intersection>"));
    assert_eq!(p.render(), "1 2".to_string());
}

#[test]
fn percent_is_postfix() {
    let mut p = Parser::new("5%");
    p.tokenize();
    assert!(p.pretty().contains("% <OperatorPostfix> <Nothing>"));
}

#[test]
fn precedence_table() {
    assert_eq!(get_precedence("/"), 40);
    assert_eq!(get_precedence("*"), 40);
    assert_eq!(get_precedence("+"), 30);
    assert_eq!(get_precedence("-"), 30);
    assert_eq!(get_precedence("&"), 20);
    assert_eq!(get_precedence("<"), 10);
    assert_eq!(get_precedence("<>"), 10);
    assert_eq!(get_precedence("=="), 10);
    assert_eq!(get_precedence("x"), -1);
}

#[test]
fn parser_cursor_helpers() {
    let p = Parser::new("  12  ");
    assert_eq!(p.current_char(), b'1');
    assert_eq!(p.double_char(), "12".to_string());
    assert!(!p.eof());
    let q = Parser::new("");
    assert!(q.eof());
    assert_eq!(q.double_char(), "".to_string());
}
