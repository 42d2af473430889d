use c4::text::{push_decimal, push_signed};
use c4::vm::compute;
use c4::{tokenize, ASTNode, EvalError, Operator, Parser, VM};

fn value_of(source: &str) -> Result<i32, EvalError> {
    let ast = Parser::new(tokenize(source)).parse_return().unwrap();
    VM::eval(ast)
}

fn num(value: i32) -> Box<ASTNode> {
    Box::new(ASTNode::Number(value))
}

#[test]
fn precedence() {
    assert_eq!(value_of("return 2 + 3 * 4;"), Ok(14));
    assert_eq!(value_of("return (2 + 3) * 4;"), Ok(20));
}

#[test]
fn left_associativity() {
    assert_eq!(value_of("return 10 - 2 - 3;"), Ok(5));
    assert_eq!(value_of("return 8 / 4 / 2;"), Ok(1));
    assert_eq!(value_of("return 100 / 10 * 2;"), Ok(20));
}

#[test]
fn division_truncates() {
    assert_eq!(value_of("return 7 / 2;"), Ok(3));
    assert_eq!(value_of("return (0 - 7) / 2;"), Ok(-3));
    assert_eq!(value_of("return 7 / (0 - 2);"), Ok(-3));
    assert_eq!(value_of("return (0 - 7) / (0 - 2);"), Ok(3));
    assert_eq!(value_of("return 0 / 5;"), Ok(0));
}

#[test]
fn division_by_zero_is_reported() {
    assert_eq!(value_of("return 1 / 0;"), Err(EvalError::DivisionByZero));
    assert_eq!(value_of("return 0 / 0;"), Err(EvalError::DivisionByZero));
    assert_eq!(value_of("return 1 + 2 / (3 - 3);"), Err(EvalError::DivisionByZero));
    assert_eq!(value_of("return 5 / x;"), Err(EvalError::DivisionByZero));
    assert_eq!(value_of("return (1 / 0) * 0;"), Err(EvalError::DivisionByZero));
}

#[test]
fn identifier_reads_as_zero() {
    for name in ["x", "y2", "_", "abc_def", "Return", "iff"] {
        assert_eq!(value_of(&format!("return {};", name)), Ok(0));
    }
    assert_eq!(value_of("return x + 5;"), Ok(5));
}

#[test]
fn assignment_has_the_value_assigned_and_binds_nothing() {
    assert_eq!(value_of("return x = 5;"), Ok(5));
    assert_eq!(value_of("return (x = 5) + x;"), Ok(5));
    assert_eq!(value_of("return a = b = 2 + 3;"), Ok(5));
}

#[test]
fn number_evaluates_to_itself() {
    assert_eq!(VM::eval(ASTNode::Number(-17)), Ok(-17));
    assert_eq!(VM::eval(ASTNode::Return(num(99))), Ok(99));
    assert_eq!(VM::eval(ASTNode::Assignment("n".to_string(), num(4))), Ok(4));
    assert_eq!(VM::eval(ASTNode::Identifier("n".to_string())), Ok(0));
}

#[test]
fn arithmetic_wraps_to_32_bits() {
    assert_eq!(value_of("return 2147483647 + 1;"), Ok(i32::MIN));
    assert_eq!(value_of("return 0 - 2147483647 - 2;"), Ok(i32::MAX));
    assert_eq!(value_of("return 65536 * 65536;"), Ok(0));
    assert_eq!(value_of("return 65536 * 32768;"), Ok(i32::MIN));
    assert_eq!(value_of("return 2147483647 * 2147483647;"), Ok(1));
    assert_eq!(value_of("return (0 - 2147483647 - 1) / (0 - 1);"), Ok(i32::MIN));
}

#[test]
fn compute_applies_each_operator() {
    assert_eq!(compute(Operator::Add, 7, 3), Ok(10));
    assert_eq!(compute(Operator::Sub, 7, 3), Ok(4));
    assert_eq!(compute(Operator::Mul, 7, 3), Ok(21));
    assert_eq!(compute(Operator::Div, 7, 3), Ok(2));
    assert_eq!(compute(Operator::Div, -7, 3), Ok(-2));
    assert_eq!(compute(Operator::Div, 7, 0), Err(EvalError::DivisionByZero));
    assert_eq!(compute(Operator::Div, i32::MIN, -1), Ok(i32::MIN));
    assert_eq!(compute(Operator::Add, i32::MAX, i32::MAX), Ok(-2));
    assert_eq!(compute(Operator::Sub, i32::MIN, 1), Ok(i32::MAX));
    assert_eq!(compute(Operator::Mul, i32::MIN, -1), Ok(i32::MIN));
}

#[test]
fn compute_agrees_with_wrapping_arithmetic() {
    let samples =
        [i32::MIN, i32::MIN + 1, -65536, -7, -1, 0, 1, 2, 7, 46341, 65536, i32::MAX - 1, i32::MAX];
    for l in samples {
        for r in samples {
            assert_eq!(compute(Operator::Add, l, r), Ok(l.wrapping_add(r)));
            assert_eq!(compute(Operator::Sub, l, r), Ok(l.wrapping_sub(r)));
            assert_eq!(compute(Operator::Mul, l, r), Ok(l.wrapping_mul(r)));
            if r == 0 {
                assert_eq!(compute(Operator::Div, l, r), Err(EvalError::DivisionByZero));
            } else {
                assert_eq!(compute(Operator::Div, l, r), Ok(l.wrapping_div(r)));
            }
        }
    }
}

#[test]
fn left_fault_comes_before_right() {
    let fault = Box::new(ASTNode::BinaryOp { op: Operator::Div, left: num(1), right: num(0) });
    let node = ASTNode::BinaryOp { op: Operator::Add, left: fault, right: num(1) };
    assert_eq!(VM::eval(node), Err(EvalError::DivisionByZero));
}

#[test]
fn run_gives_the_line_to_print() {
    let ast = Parser::new(tokenize("return 7 + 3;")).parse_return().unwrap();
    assert_eq!(VM::run(ast), Ok("Returned: 10".to_string()));
    let ast = Parser::new(tokenize("return 0 - 12;")).parse_return().unwrap();
    assert_eq!(VM::run(ast), Ok("Returned: -12".to_string()));
    let ast = Parser::new(tokenize("return 0;")).parse_return().unwrap();
    assert_eq!(VM::run(ast), Ok("Returned: 0".to_string()));
    let ast = Parser::new(tokenize("return 0 - 2147483647 - 1;")).parse_return().unwrap();
    assert_eq!(VM::run(ast), Ok("Returned: -2147483648".to_string()));
}

#[test]
fn run_reports_the_fault() {
    let ast = Parser::new(tokenize("return 1 / 0;")).parse_return().unwrap();
    assert_eq!(VM::run(ast), Err(EvalError::DivisionByZero));
    assert_eq!(EvalError::DivisionByZero.message(), "division by zero");
}

#[test]
fn decimal_text_is_what_the_standard_library_writes() {
    for n in [0u64, 1, 9, 10, 11, 99, 100, 101, 12345, 4294967295, u64::MAX] {
        let mut out = String::from("n=");
        push_decimal(&mut out, n);
        assert_eq!(out, format!("n={}", n));
    }
    for v in [0i32, 1, -1, 9, -9, 10, -10, 2147483647, -2147483647, i32::MIN] {
        let mut out = String::new();
        push_signed(&mut out, v);
        assert_eq!(out, format!("{}", v));
    }
}

#[test]
fn deep_chain_evaluates() {
    let mut source = String::from("return 0");
    for _ in 0..1000 {
        source.push_str(" + 1");
    }
    source.push(';');
    assert_eq!(value_of(&source), Ok(1000));
}
