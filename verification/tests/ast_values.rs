use string_matching::ast::BinaryOpcode;
use string_matching::ast::Expr;
use string_matching::ast::ExprEvaluator;
use string_matching::ast::UnaryOpcode;

fn num(v: i32) -> Expr {
    Expr::Num(v)
}

fn bin(l: Expr, op: BinaryOpcode, r: Expr) -> Expr {
    Expr::BinOp(Box::new(l), op, Box::new(r))
}

fn plus(l: Expr, r: Expr) -> Expr {
    bin(l, BinaryOpcode::Addition, r)
}

fn minus(l: Expr, r: Expr) -> Expr {
    bin(l, BinaryOpcode::Subtraction, r)
}

fn times(l: Expr, r: Expr) -> Expr {
    bin(l, BinaryOpcode::Multiplication, r)
}

fn quot(l: Expr, r: Expr) -> Expr {
    bin(l, BinaryOpcode::Division, r)
}

fn remainder(l: Expr, r: Expr) -> Expr {
    bin(l, BinaryOpcode::Modulo, r)
}

fn power(l: Expr, r: Expr) -> Expr {
    bin(l, BinaryOpcode::Exponentiation, r)
}

fn neg(e: Expr) -> Expr {
    Expr::UnOp(UnaryOpcode::Negation, Box::new(e))
}

fn eval_of(e: &Expr) -> Result<i32, String> {
    let mut evaluator = ExprEvaluator::new();
    e.walk(&mut evaluator);
    evaluator.value()
}

fn eq(e: Expr, expected: i32) {
    assert_eq!(eval_of(&e), Ok(expected));
}

fn err(e: Expr, expected: &str) {
    assert_eq!(eval_of(&e), Err(expected.to_string()));
}

#[test]
fn numbers() {
    eq(num(0), 0);
    eq(num(3), 3);
    eq(num(12345), 12345);
    eq(num(-987), -987);
}

#[test]
fn addition() {
    eq(plus(num(1), num(2)), 3);
    eq(plus(num(10), num(10)), 20);
    eq(plus(plus(num(1), num(2)), num(3)), 6);
    eq(plus(num(1), plus(num(2), plus(num(3), num(4)))), 10);
}

#[test]
fn subtraction() {
    eq(minus(num(2), num(1)), 1);
    eq(minus(num(1), num(2)), -1);
    eq(minus(minus(num(3), num(2)), num(1)), 0);
    eq(minus(num(1), minus(num(2), minus(num(3), num(4)))), -2);
}

#[test]
fn multiplication() {
    eq(times(num(1), num(2)), 2);
    eq(times(num(10), num(10)), 100);
    eq(times(times(num(1), num(2)), times(num(3), num(4))), 24);
}

#[test]
fn division() {
    eq(quot(num(1), num(2)), 0);
    eq(quot(num(10), num(3)), 3);
    eq(quot(num(10), num(4)), 2);
    eq(quot(quot(num(10), num(2)), num(2)), 2);
}

#[test]
fn division_rounds_toward_negative_infinity() {
    eq(quot(neg(num(1)), num(2)), -1);
    eq(quot(neg(num(10)), num(3)), -4);
    eq(quot(neg(num(10)), num(4)), -3);
    eq(quot(num(10), neg(num(3))), -4);
    eq(quot(neg(num(10)), neg(num(3))), 3);
}

#[test]
fn modulo() {
    eq(remainder(num(1), num(2)), 1);
    eq(remainder(num(10), num(3)), 1);
    eq(remainder(num(10), num(4)), 2);
    eq(remainder(remainder(num(10), num(4)), num(3)), 2);
}

#[test]
fn modulo_takes_the_divisor_sign() {
    eq(remainder(neg(num(10)), num(3)), 2);
    eq(remainder(num(10), neg(num(3))), -2);
    eq(remainder(neg(num(10)), neg(num(3))), -1);
    eq(remainder(num(8), neg(num(3))), -1);
    eq(remainder(neg(num(8)), num(3)), 1);
}

#[test]
fn exponentiation() {
    eq(power(num(2), num(0)), 1);
    eq(power(num(2), num(4)), 16);
    eq(power(num(0), num(10)), 0);
    eq(power(num(3), num(4)), 81);
    eq(power(num(2), power(num(3), num(2))), 512);
    eq(neg(power(num(2), num(2))), -4);
}

#[test]
fn negation() {
    eq(neg(num(3)), -3);
    eq(neg(neg(num(10))), 10);
    eq(neg(plus(num(2), num(3))), -5);
    eq(plus(num(1), neg(num(4))), -3);
}

#[test]
fn mixed_precedence_shapes() {
    // 2+2*2 and friends, as the parser would shape them.
    eq(plus(num(2), times(num(2), num(2))), 6);
    eq(plus(plus(num(2), times(num(2), num(2))), num(2)), 8);
    eq(times(quot(times(num(2), num(6)), num(3)), num(4)), 16);
    eq(times(num(3), power(num(2), num(2))), 12);
    eq(times(num(2), quot(minus(num(2), num(2)), num(2))), 0);
}

#[test]
fn division_by_zero() {
    err(quot(num(1), num(0)), "Division by zero!");
    err(quot(num(10), minus(num(5), num(5))), "Division by zero!");
}

#[test]
fn modulo_by_zero() {
    err(remainder(num(7), num(0)), "Division by zero!");
}

#[test]
fn negative_exponent() {
    err(power(num(2), neg(num(1))), "Negative exponent!");
}

#[test]
fn error_node() {
    err(Expr::Error, "???");
    err(plus(num(1), Expr::Error), "???");
}

#[test]
fn left_error_wins() {
    err(plus(quot(num(1), num(0)), power(num(2), neg(num(1)))), "Division by zero!");
}

#[test]
fn empty_stack() {
    let evaluator = ExprEvaluator::new();
    assert_eq!(evaluator.value(), Err("Empty stack!!!".to_string()));
}
