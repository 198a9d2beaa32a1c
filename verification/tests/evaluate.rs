use calculator::error::Error;
use calculator::evaluator::{evaluate, Operation};
use calculator::lexer::lex;
use calculator::parser::parse;
use calculator::token::Number;
use calculator::tree::{Node, Operator, Sign};

fn float_arithmetic(operation: Operation<f64>) -> f64 {
    match operation {
        Operation::Literal(number) => {
            let text: String = number.chars().iter().collect();
            text.parse::<f64>().unwrap()
        }
        Operation::Negate(a) => -a,
        Operation::Add(a, b) => a + b,
        Operation::Subtract(a, b) => a - b,
        Operation::Multiply(a, b) => a * b,
        Operation::Divide(a, b) => a / b,
    }
}

fn written(operation: Operation<String>) -> String {
    match operation {
        Operation::Literal(number) => number.chars().iter().collect(),
        Operation::Negate(a) => format!("neg({})", a),
        Operation::Add(a, b) => format!("add({},{})", a, b),
        Operation::Subtract(a, b) => format!("sub({},{})", a, b),
        Operation::Multiply(a, b) => format!("mul({},{})", a, b),
        Operation::Divide(a, b) => format!("div({},{})", a, b),
    }
}

fn calc(expression: &str) -> f64 {
    evaluate(expression, &float_arithmetic).unwrap()
}

fn close(a: f64, b: f64) -> bool {
    (a - b).abs() <= 1e-9 * b.abs().max(1.0)
}

fn lit(text: &str) -> Node {
    Node::Literal(Number::new(text.chars().collect()).unwrap())
}

#[test]
fn operator_precedence() {
    assert_eq!(calc("2+3*4"), 14.0);
    assert_eq!(calc("(2+3)*4"), 20.0);
}

#[test]
fn left_associativity() {
    assert_eq!(calc("10-3-2"), 5.0);
    assert_eq!(calc("64/4/2"), 8.0);
}

#[test]
fn unary_stacking() {
    assert_eq!(calc("--5"), 5.0);
    assert_eq!(calc("-5+3"), -2.0);
    assert_eq!(calc("+5"), 5.0);
    assert_eq!(calc("-+-+5"), 5.0);
}

#[test]
fn whitespace_tolerance() {
    assert_eq!(calc("1 + 2"), calc("1+2"));
    assert_eq!(calc("1 + 2"), 3.0);
    assert_eq!(calc(" ( 2 + 3 ) * 4 "), calc("(2+3)*4"));
}

#[test]
fn nested_parentheses() {
    assert_eq!(calc("((1+2)*(3+4))"), 21.0);
}

#[test]
fn reference_scenario() {
    let value = calc("((2.33 / (2.9+3.5)*4) - -6)");
    assert!(close(value, 7.45625), "{}", value);
}

#[test]
fn division_by_zero() {
    assert_eq!(calc("1/0"), f64::INFINITY);
    assert_eq!(calc("-1/0"), f64::NEG_INFINITY);
    assert!(calc("0/0").is_nan());
}

#[test]
fn same_text_same_value() {
    for text in ["((2.33 / (2.9+3.5)*4) - -6)", "1/3", "2*", "0/0"] {
        let first = calc(text);
        let second = calc(text);
        assert_eq!(first.to_bits(), second.to_bits());
    }
    assert_eq!(evaluate("(1", &float_arithmetic), evaluate("(1", &float_arithmetic));
}

#[test]
fn well_formed_expressions_have_their_mathematical_value() {
    assert!(close(calc("1+2*3-4/(5--6)"), 1.0 + 2.0 * 3.0 - 4.0 / (5.0 + 6.0)));
    assert!(close(calc("0.1+0.2"), 0.3));
    assert!(close(calc("3.5*(2-0.5)/7"), 0.75));
    assert!(close(calc("-(1.5+2.5)*-2"), 8.0));
    assert!(close(calc("100/3/3"), 100.0 / 9.0));
}

#[test]
fn literal_forms() {
    assert_eq!(calc("42"), 42.0);
    assert_eq!(calc(".5"), 0.5);
    assert_eq!(calc("5."), 5.0);
    assert_eq!(calc("007"), 7.0);
    assert_eq!(calc("2.50"), 2.5);
}

#[test]
fn missing_operand_counts_as_zero() {
    assert_eq!(calc(""), 0.0);
    assert_eq!(calc("1+"), 1.0);
    assert_eq!(calc("*3"), 0.0);
    assert_eq!(calc("7-"), 7.0);
}

#[test]
fn trailing_tokens_are_not_read() {
    assert_eq!(calc("1+2)"), 3.0);
    assert_eq!(calc("4 5"), 4.0);
}

#[test]
fn malformed_literal_fails_with_conversion_error() {
    assert_eq!(evaluate("1.2.3", &float_arithmetic), Err(Error::NumericConversion));
    assert_eq!(evaluate("2 * .", &float_arithmetic), Err(Error::NumericConversion));
}

#[test]
fn conversion_error_comes_before_syntax_error() {
    assert_eq!(evaluate("(1.2.3", &float_arithmetic), Err(Error::NumericConversion));
    assert_eq!(evaluate("(1+2 .", &float_arithmetic), Err(Error::NumericConversion));
}

#[test]
fn unclosed_parenthesis_fails_with_syntax_error() {
    assert_eq!(evaluate("(1+2", &float_arithmetic), Err(Error::Syntax));
    assert_eq!(evaluate("2*(3", &float_arithmetic), Err(Error::Syntax));
}

#[test]
fn steps_are_taken_children_first_and_left_before_right() {
    assert_eq!(
        evaluate("10-3-2", &written),
        Ok(String::from("sub(sub(10,3),2)"))
    );
    assert_eq!(
        evaluate("2+3*4", &written),
        Ok(String::from("add(2,mul(3,4))"))
    );
    assert_eq!(
        evaluate("((2.33 / (2.9+3.5)*4) - -6)", &written),
        Ok(String::from("sub(mul(div(2.33,add(2.9,3.5)),4),neg(6))"))
    );
}

#[test]
fn plus_sign_takes_no_step() {
    assert_eq!(evaluate("+7", &written), Ok(String::from("7")));
    assert_eq!(evaluate("-+7", &written), Ok(String::from("neg(7)")));
}

#[test]
fn each_operator_has_its_step() {
    assert_eq!(evaluate("6+2", &written), Ok(String::from("add(6,2)")));
    assert_eq!(evaluate("6-2", &written), Ok(String::from("sub(6,2)")));
    assert_eq!(evaluate("6*2", &written), Ok(String::from("mul(6,2)")));
    assert_eq!(evaluate("6/2", &written), Ok(String::from("div(6,2)")));
    assert_eq!(calc("6+2"), 8.0);
    assert_eq!(calc("6-2"), 4.0);
    assert_eq!(calc("6*2"), 12.0);
    assert_eq!(calc("6/2"), 3.0);
}

#[test]
fn resolve_walks_a_tree_built_by_hand() {
    let tree = Node::BinaryOp {
        op: Operator::Divide,
        left: Box::new(Node::UnaryOp { sign: Sign::Minus, child: Box::new(lit("9")) }),
        right: Box::new(Node::UnaryOp { sign: Sign::Plus, child: Box::new(lit("3")) }),
    };
    assert_eq!(tree.resolve(&float_arithmetic), -3.0);
    assert_eq!(tree.resolve(&written), "div(neg(9),3)");
}

#[test]
fn evaluate_is_lex_then_parse_then_resolve() {
    for text in ["1+2*3", "-(4-6)/8", "", "3)"] {
        let tree = parse(lex(text).unwrap()).unwrap();
        assert_eq!(evaluate(text, &written), Ok(tree.resolve(&written)));
    }
}

#[test]
fn integer_arithmetic_can_stand_in() {
    let integers = |operation: Operation<i64>| -> i64 {
        match operation {
            Operation::Literal(number) => {
                number.chars().iter().collect::<String>().parse::<i64>().unwrap()
            }
            Operation::Negate(a) => -a,
            Operation::Add(a, b) => a + b,
            Operation::Subtract(a, b) => a - b,
            Operation::Multiply(a, b) => a * b,
            Operation::Divide(a, b) => a / b,
        }
    };
    assert_eq!(evaluate("7/2*2", &integers), Ok(6));
    assert_eq!(evaluate("2*7/2", &integers), Ok(7));
}
