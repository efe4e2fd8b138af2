use string_matching::ast::BinaryOpcode;
use string_matching::ast::Expr;
use string_matching::ast::RPNEvaluator;
use string_matching::ast::UnaryOpcode;

fn num(v: i32) -> Expr {
    Expr::Num(v)
}

fn bin(l: Expr, op: BinaryOpcode, r: Expr) -> Expr {
    Expr::BinOp(Box::new(l), op, Box::new(r))
}

fn plus(l: Expr, r: Expr) -> Expr {
    bin(l, BinaryOpcode::Addition, r)
}

fn minus(l: Expr, r: Expr) -> Expr {
    bin(l, BinaryOpcode::Subtraction, r)
}

fn times(l: Expr, r: Expr) -> Expr {
    bin(l, BinaryOpcode::Multiplication, r)
}

fn quot(l: Expr, r: Expr) -> Expr {
    bin(l, BinaryOpcode::Division, r)
}

fn remainder(l: Expr, r: Expr) -> Expr {
    bin(l, BinaryOpcode::Modulo, r)
}

fn power(l: Expr, r: Expr) -> Expr {
    bin(l, BinaryOpcode::Exponentiation, r)
}

fn neg(e: Expr) -> Expr {
    Expr::UnOp(UnaryOpcode::Negation, Box::new(e))
}

fn rpn_of(e: &Expr) -> String {
    let mut printer = RPNEvaluator::new();
    e.walk(&mut printer);
    printer.value()
}

fn eq(e: Expr, expected: &str) {
    assert_eq!(rpn_of(&e), expected);
}

#[test]
fn rpn_numbers() {
    eq(num(0), "0");
    eq(num(10), "10");
    eq(num(12345), "12345");
    eq(num(-987), "-987");
}

#[test]
fn rpn_addition() {
    eq(plus(num(1), num(2)), "1 2 +");
    eq(plus(plus(num(1), num(2)), num(3)), "1 2 + 3 +");
    eq(plus(num(1), plus(num(2), plus(num(3), num(4)))), "1 2 3 4 + + +");
}

#[test]
fn rpn_subtraction() {
    eq(minus(num(2), num(1)), "2 1 -");
    eq(minus(minus(num(3), num(2)), num(1)), "3 2 - 1 -");
}

#[test]
fn rpn_multiplication() {
    eq(times(num(1), num(2)), "1 2 *");
    eq(times(num(1), times(num(2), times(num(3), num(4)))), "1 2 3 4 * * *");
}

#[test]
fn rpn_division() {
    eq(quot(num(1), num(2)), "1 2 /");
    eq(quot(quot(quot(num(1), num(2)), num(3)), num(4)), "1 2 / 3 / 4 /");
}

#[test]
fn rpn_modulo() {
    eq(remainder(num(1), num(2)), "1 2 %");
    eq(remainder(num(1), remainder(num(2), remainder(num(3), num(4)))), "1 2 3 4 % % %");
}

#[test]
fn rpn_exponentiation() {
    eq(power(num(1), num(2)), "1 2 ^");
    eq(power(num(1), power(num(2), num(3))), "1 2 3 ^ ^");
    eq(power(power(num(1), num(2)), num(3)), "1 2 ^ 3 ^");
}

#[test]
fn rpn_negation_of_a_number_is_its_sign() {
    eq(neg(num(10)), "-10");
    eq(plus(num(1), neg(num(2))), "1 -2 +");
}

#[test]
fn rpn_negation_elsewhere_is_postfix() {
    eq(neg(neg(num(987))), "-987 ~");
    eq(neg(neg(neg(num(987)))), "-987 ~ ~");
    eq(neg(plus(num(2), num(3))), "2 3 + ~");
    eq(plus(num(1), neg(plus(neg(num(2)), plus(num(3), num(4))))), "1 -2 3 4 + + ~ +");
}

#[test]
fn rpn_precedence_shapes() {
    eq(plus(num(2), times(num(2), num(2))), "2 2 2 * +");
    eq(plus(plus(num(2), times(num(2), num(2))), num(2)), "2 2 2 * + 2 +");
    eq(plus(times(num(2), num(2)), num(2)), "2 2 * 2 +");
    eq(times(quot(times(num(2), num(6)), num(3)), num(4)), "2 6 * 3 / 4 *");
    eq(times(neg(num(1)), neg(power(num(2), num(3)))), "-1 2 3 ^ ~ *");
}

#[test]
fn rpn_negative_numbers_in_operations() {
    eq(times(neg(num(1)), neg(num(2))), "-1 -2 *");
    eq(quot(neg(num(1)), neg(num(4))), "-1 -4 /");
    eq(minus(neg(num(2)), neg(num(1))), "-2 -1 -");
}
