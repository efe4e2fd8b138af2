//! Arithmetic expression trees with visitor-based processing: an evaluator
//! that computes the 32-bit integer value of a tree (with floored division
//! and modulo and non-negative exponentiation from the `num` crate), and a
//! printer that renders a tree in reverse Polish notation.

use vstd::prelude::*;

verus! {

/// An arithmetic expression tree: binary and unary operations over 32-bit
/// integer literals, plus an explicit error node for callers that build
/// trees from unparsable input.
pub enum Expr {
    BinOp(Box<Expr>, BinaryOpcode, Box<Expr>),
    UnOp(UnaryOpcode, Box<Expr>),
    Num(i32),
    Error,
}

#[derive(Copy, Clone)]
pub enum BinaryOpcode {
    Addition,
    Subtraction,
    Multiplication,
    Division,
    Modulo,
    Exponentiation,
}

#[derive(Copy, Clone)]
pub enum UnaryOpcode {
    Negation,
}

/// Modulo rounding toward negative infinity: the result has the divisor's
/// sign.  Matches `num::integer::mod_floor`.
pub open spec fn floor_mod(a: int, b: int) -> int
    recommends
        b != 0,
{
    if b > 0 {
        a % b
    } else if a % b == 0 {
        0
    } else {
        a % b + b
    }
}

/// Division rounding toward negative infinity.  Matches
/// `num::integer::div_floor`.
pub open spec fn floor_div(a: int, b: int) -> int
    recommends
        b != 0,
{
    (a - floor_mod(a, b)) / b
}

pub open spec fn pow_int(base: int, exp: int) -> int
    decreases exp,
{
    if exp <= 0 {
        1
    } else {
        base * pow_int(base, exp - 1)
    }
}

pub open spec fn in_i32(v: int) -> bool {
    i32::MIN <= v <= i32::MAX
}

/// The outcome of one binary operation on two in-range values: the
/// mathematical result, or the error the evaluator reports.
pub open spec fn binop_value(op: BinaryOpcode, a: int, b: int) -> Result<int, Seq<char>> {
    match op {
        BinaryOpcode::Addition => Ok(a + b),
        BinaryOpcode::Subtraction => Ok(a - b),
        BinaryOpcode::Multiplication => Ok(a * b),
        BinaryOpcode::Division => if b != 0 {
            Ok(floor_div(a, b))
        } else {
            Err("Division by zero!"@)
        },
        BinaryOpcode::Modulo => if b != 0 {
            Ok(floor_mod(a, b))
        } else {
            Err("Division by zero!"@)
        },
        BinaryOpcode::Exponentiation => if b >= 0 {
            Ok(pow_int(a, b))
        } else {
            Err("Negative exponent!"@)
        },
    }
}

pub open spec fn unop_value(op: UnaryOpcode, v: Result<int, Seq<char>>) -> Result<
    int,
    Seq<char>,
> {
    match op {
        UnaryOpcode::Negation => match v {
            Ok(x) => Ok(-x),
            Err(m) => Err(m),
        },
    }
}

/// Combines the outcomes of the two operands: an error in the left operand
/// wins, then one in the right, else the operation is applied.
pub open spec fn combine(
    op: BinaryOpcode,
    lv: Result<int, Seq<char>>,
    rv: Result<int, Seq<char>>,
) -> Result<int, Seq<char>> {
    match lv {
        Err(m) => Err(m),
        Ok(a) => match rv {
            Err(m) => Err(m),
            Ok(b) => binop_value(op, a, b),
        },
    }
}

/// The value of a whole tree: an unbounded-integer evaluation with the
/// error propagation of the executable evaluator.
pub open spec fn eval(e: Expr) -> Result<int, Seq<char>>
    decreases e,
{
    match e {
        Expr::Num(v) => Ok(v as int),
        Expr::Error => Err("???"@),
        Expr::UnOp(op, inner) => unop_value(op, eval(*inner)),
        Expr::BinOp(l, op, r) => combine(op, eval(*l), eval(*r)),
    }
}

/// The operation stays within `i32`, exactly where the underlying machine
/// operations are defined (the failing modulo case is the one division the
/// machine cannot represent).
pub open spec fn binop_fits(op: BinaryOpcode, a: int, b: int) -> bool {
    match op {
        BinaryOpcode::Addition => in_i32(a + b),
        BinaryOpcode::Subtraction => in_i32(a - b),
        BinaryOpcode::Multiplication => in_i32(a * b),
        BinaryOpcode::Division => b != 0 ==> in_i32(floor_div(a, b)),
        BinaryOpcode::Modulo => b != 0 ==> !(a == i32::MIN && b == -1),
        BinaryOpcode::Exponentiation => b >= 0 ==> in_i32(pow_int(a, b)),
    }
}

pub open spec fn binop_results_fit(
    op: BinaryOpcode,
    lv: Result<int, Seq<char>>,
    rv: Result<int, Seq<char>>,
) -> bool {
    match (lv, rv) {
        (Ok(a), Ok(b)) => binop_fits(op, a, b),
        _ => true,
    }
}

pub open spec fn unop_result_fits(op: UnaryOpcode, v: Result<int, Seq<char>>) -> bool {
    match op {
        UnaryOpcode::Negation => match v {
            Ok(x) => x > i32::MIN,
            Err(_) => true,
        },
    }
}

/// Every intermediate value of the evaluation stays within `i32`: the
/// executable evaluator is defined exactly on such trees and never panics.
pub open spec fn fits(e: Expr) -> bool
    decreases e,
{
    match e {
        Expr::Num(_) => true,
        Expr::Error => true,
        Expr::UnOp(op, inner) => fits(*inner) && unop_result_fits(op, eval(*inner)),
        Expr::BinOp(l, op, r) => fits(*l) && fits(*r) && binop_results_fit(
            op,
            eval(*l),
            eval(*r),
        ),
    }
}

/// The executable result denotes the specification-level outcome: the same
/// success value, or the same error text.
pub open spec fn res_matches(r: Result<i32, String>, o: Result<int, Seq<char>>) -> bool {
    match (r, o) {
        (Ok(v), Ok(x)) => v as int == x,
        (Err(s), Err(t)) => s@ == t,
        _ => false,
    }
}

/// One outcome was pushed: the stack grew by a single entry denoting `o`.
pub open spec fn stack_pushed(
    pre: Seq<Result<i32, String>>,
    post: Seq<Result<i32, String>>,
    o: Result<int, Seq<char>>,
) -> bool {
    &&& post.len() == pre.len() + 1
    &&& post.drop_last() == pre
    &&& res_matches(post.last(), o)
}

/// The tree holds no error node: the reverse-Polish printer is defined only
/// on such trees.
pub open spec fn no_error(e: Expr) -> bool
    decreases e,
{
    match e {
        Expr::Num(_) => true,
        Expr::Error => false,
        Expr::UnOp(_, inner) => no_error(*inner),
        Expr::BinOp(l, _, r) => no_error(*l) && no_error(*r),
    }
}

pub open spec fn digit_char(d: int) -> char {
    if d == 0 {
        '0'
    } else if d == 1 {
        '1'
    } else if d == 2 {
        '2'
    } else if d == 3 {
        '3'
    } else if d == 4 {
        '4'
    } else if d == 5 {
        '5'
    } else if d == 6 {
        '6'
    } else if d == 7 {
        '7'
    } else if d == 8 {
        '8'
    } else {
        '9'
    }
}

pub open spec fn dec_digits(n: int) -> Seq<char>
    decreases n,
{
    if n <= 0 {
        Seq::empty()
    } else {
        dec_digits(n / 10).push(digit_char(n % 10))
    }
}

/// The decimal rendering of `v`: the digits of its absolute value, with a
/// leading minus sign when negative.
pub open spec fn dec_int(v: int) -> Seq<char> {
    if v == 0 {
        seq!['0']
    } else if v < 0 {
        seq!['-'] + dec_digits(-v)
    } else {
        dec_digits(v)
    }
}

pub open spec fn symbol_seq(op: BinaryOpcode) -> Seq<char> {
    match op {
        BinaryOpcode::Addition => "+"@,
        BinaryOpcode::Subtraction => "-"@,
        BinaryOpcode::Multiplication => "*"@,
        BinaryOpcode::Division => "/"@,
        BinaryOpcode::Modulo => "%"@,
        BinaryOpcode::Exponentiation => "^"@,
    }
}

pub open spec fn prefix_symbol_seq(op: UnaryOpcode) -> Seq<char> {
    match op {
        UnaryOpcode::Negation => "-"@,
    }
}

pub open spec fn postfix_symbol_seq(op: UnaryOpcode) -> Seq<char> {
    match op {
        UnaryOpcode::Negation => "~"@,
    }
}

/// The reverse-Polish rendering of a unary node over `e`: negation is shown
/// as the sign of a numeric literal, and as the postfix mark otherwise.
pub open spec fn rpn_unop(op: UnaryOpcode, e: Expr) -> Seq<char>
    decreases e, 1int,
{
    match e {
        Expr::Num(v) => prefix_symbol_seq(op) + dec_int(v as int),
        _ => rpn_of(e) + " "@ + postfix_symbol_seq(op),
    }
}

/// The reverse-Polish rendering of a tree: operands before their operator,
/// blank-separated.
pub open spec fn rpn_of(e: Expr) -> Seq<char>
    decreases e, 0int,
{
    match e {
        Expr::Num(v) => dec_int(v as int),
        Expr::Error => Seq::empty(),
        Expr::BinOp(l, op, r) => rpn_of(*l) + " "@ + rpn_of(*r) + " "@ + symbol_seq(op),
        Expr::UnOp(op, inner) => rpn_unop(op, *inner),
    }
}

/// Relies on `num::integer::div_floor` for `i32`: division rounded toward
/// negative infinity, defined for a non-zero divisor and a representable
/// quotient.
#[verifier::external_body]
fn div_floor_i32(a: i32, b: i32) -> (r: i32)
    requires
        b != 0,
        in_i32(floor_div(a as int, b as int)),
    ensures
        r as int == floor_div(a as int, b as int),
{
    num::integer::div_floor(a, b)
}

/// Relies on `num::integer::mod_floor` for `i32`: modulo rounded toward
/// negative infinity, defined for a non-zero divisor away from the one
/// unrepresentable division.
#[verifier::external_body]
fn mod_floor_i32(a: i32, b: i32) -> (r: i32)
    requires
        b != 0,
        !(a == i32::MIN && b == -1),
    ensures
        r as int == floor_mod(a as int, b as int),
{
    num::integer::mod_floor(a, b)
}

/// Relies on `num::pow` for `i32`: exponentiation by squaring, defined for
/// a non-negative exponent and a representable power (every intermediate
/// square then stays representable too).
#[verifier::external_body]
fn pow_i32(a: i32, b: i32) -> (r: i32)
    requires
        b >= 0,
        in_i32(pow_int(a as int, b as int)),
    ensures
        r as int == pow_int(a as int, b as int),
{
    num::pow(a, b as usize)
}

/// Relies on the standard `ToString` for `i32`: the decimal digits of the
/// value, with a leading minus sign when negative.
#[verifier::external_body]
fn int_to_string(v: i32) -> (s: String)
    ensures
        s@ == dec_int(v as int),
{
    v.to_string()
}

impl BinaryOpcode {
    fn symbol(&self) -> (r: &'static str)
        ensures
            r@ == symbol_seq(*self),
    {
        match self {
            BinaryOpcode::Addition => "+",
            BinaryOpcode::Subtraction => "-",
            BinaryOpcode::Multiplication => "*",
            BinaryOpcode::Division => "/",
            BinaryOpcode::Modulo => "%",
            BinaryOpcode::Exponentiation => "^",
        }
    }

    /// Applies the operation to two values, reporting division by zero and
    /// negative exponents as errors.
    fn execute(&self, a: i32, b: i32) -> (r: Result<i32, String>)
        requires
            binop_fits(*self, a as int, b as int),
        ensures
            res_matches(r, binop_value(*self, a as int, b as int)),
    {
        match self {
            BinaryOpcode::Addition => Ok(a + b),
            BinaryOpcode::Subtraction => Ok(a - b),
            BinaryOpcode::Multiplication => Ok(a * b),
            BinaryOpcode::Division => {
                if b != 0 {
                    Ok(div_floor_i32(a, b))
                } else {
                    Err("Division by zero!".to_owned())
                }
            },
            BinaryOpcode::Modulo => {
                if b != 0 {
                    Ok(mod_floor_i32(a, b))
                } else {
                    Err("Division by zero!".to_owned())
                }
            },
            BinaryOpcode::Exponentiation => {
                if b >= 0 {
                    Ok(pow_i32(a, b))
                } else {
                    Err("Negative exponent!".to_owned())
                }
            },
        }
    }
}

impl UnaryOpcode {
    fn prefix_symbol(&self) -> (r: &'static str)
        ensures
            r@ == prefix_symbol_seq(*self),
    {
        match self {
            UnaryOpcode::Negation => "-",
        }
    }

    fn postfix_symbol(&self) -> (r: &'static str)
        ensures
            r@ == postfix_symbol_seq(*self),
    {
        match self {
            UnaryOpcode::Negation => "~",
        }
    }

    fn execute(&self, val: i32) -> (r: Result<i32, String>)
        requires
            unop_result_fits(*self, Ok(val as int)),
        ensures
            res_matches(r, unop_value(*self, Ok(val as int))),
    {
        match self {
            UnaryOpcode::Negation => Ok(-val),
        }
    }
}

/// A visitor over expression trees.  Each implementation states, as
/// specification functions, its own precondition and effect for every node
/// shape; `Expr::walk` dispatches one node to the matching method and
/// promises exactly that effect.
pub trait ExprVisitor: Sized {
    spec fn binop_enabled(&self, l: Expr, op: BinaryOpcode, r: Expr) -> bool;

    spec fn binop_visited(&self, pre: Self, l: Expr, op: BinaryOpcode, r: Expr) -> bool;

    spec fn unop_enabled(&self, op: UnaryOpcode, e: Expr) -> bool;

    spec fn unop_visited(&self, pre: Self, op: UnaryOpcode, e: Expr) -> bool;

    spec fn num_enabled(&self, val: i32) -> bool;

    spec fn num_visited(&self, pre: Self, val: i32) -> bool;

    spec fn error_enabled(&self) -> bool;

    spec fn error_visited(&self, pre: Self) -> bool;

    fn visit_binop(&mut self, l: &Expr, op: BinaryOpcode, r: &Expr)
        requires
            old(self).binop_enabled(*l, op, *r),
        ensures
            final(self).binop_visited(*old(self), *l, op, *r),
    ;

    fn visit_unop(&mut self, op: UnaryOpcode, e: &Expr)
        requires
            old(self).unop_enabled(op, *e),
        ensures
            final(self).unop_visited(*old(self), op, *e),
    ;

    fn visit_num(&mut self, val: i32)
        requires
            old(self).num_enabled(val),
        ensures
            final(self).num_visited(*old(self), val),
    ;

    fn visit_error(&mut self)
        requires
            old(self).error_enabled(),
        ensures
            final(self).error_visited(*old(self)),
    ;
}

/// The visitor's precondition for the node shape of `e`.
pub open spec fn walk_enabled<V: ExprVisitor>(v: V, e: Expr) -> bool {
    match e {
        Expr::BinOp(l, op, r) => v.binop_enabled(*l, op, *r),
        Expr::UnOp(op, inner) => v.unop_enabled(op, *inner),
        Expr::Num(val) => v.num_enabled(val),
        Expr::Error => v.error_enabled(),
    }
}

/// The visitor's effect for the node shape of `e`.
pub open spec fn walk_visited<V: ExprVisitor>(pre: V, post: V, e: Expr) -> bool {
    match e {
        Expr::BinOp(l, op, r) => post.binop_visited(pre, *l, op, *r),
        Expr::UnOp(op, inner) => post.unop_visited(pre, op, *inner),
        Expr::Num(val) => post.num_visited(pre, val),
        Expr::Error => post.error_visited(pre),
    }
}

impl Expr {
    /// Dispatches this node to the visitor method matching its shape.
    pub fn walk<V: ExprVisitor>(&self, visitor: &mut V)
        requires
            walk_enabled(*old(visitor), *self),
        ensures
            walk_visited(*old(visitor), *final(visitor), *self),
    {
        match self {
            Expr::BinOp(l, op, r) => visitor.visit_binop(&**l, *op, &**r),
            Expr::UnOp(op, inner) => visitor.visit_unop(*op, &**inner),
            Expr::Num(val) => visitor.visit_num(*val),
            Expr::Error => visitor.visit_error(),
        }
    }
}

/// Evaluates a subtree directly; the visitor's stack protocol builds on
/// this, pushing exactly one outcome per visited node.
fn eval_expr(e: &Expr) -> (r: Result<i32, String>)
    requires
        fits(*e),
    ensures
        res_matches(r, eval(*e)),
    decreases *e,
{
    match e {
        Expr::Num(v) => Ok(*v),
        Expr::Error => Err("???".to_owned()),
        Expr::UnOp(op, inner) => {
            match eval_expr(&**inner) {
                Err(m) => Err(m),
                Ok(v) => op.execute(v),
            }
        },
        Expr::BinOp(l, op, r) => {
            let lv = eval_expr(&**l);
            let rv = eval_expr(&**r);
            match lv {
                Err(m) => Err(m),
                Ok(a) => match rv {
                    Err(m) => Err(m),
                    Ok(b) => op.execute(a, b),
                },
            }
        },
    }
}

/// Computes the integer value of walked trees: each walked node leaves its
/// outcome on a stack, and `value` hands out the final result.
pub struct ExprEvaluator {
    stack: Vec<Result<i32, String>>,
}

impl ExprEvaluator {
    /// The outcomes accumulated so far, oldest first.
    pub closed spec fn stack_model(&self) -> Seq<Result<i32, String>> {
        self.stack@
    }

    pub fn new() -> (e: ExprEvaluator)
        ensures
            e.stack_model().len() == 0,
    {
        ExprEvaluator { stack: Vec::new() }
    }

    /// The computed value: the outcome left on top of the stack, or an
    /// error for a fresh evaluator that walked nothing.
    pub fn value(self) -> (r: Result<i32, String>)
        ensures
            self.stack_model().len() > 0 ==> r == self.stack_model().last(),
            self.stack_model().len() == 0 ==> res_matches(r, Err("Empty stack!!!"@)),
    {
        let mut s = self;
        match s.stack.pop() {
            Some(top) => top,
            None => Err("Empty stack!!!".to_owned()),
        }
    }
}

impl ExprVisitor for ExprEvaluator {
    open spec fn binop_enabled(&self, l: Expr, op: BinaryOpcode, r: Expr) -> bool {
        fits(l) && fits(r) && binop_results_fit(op, eval(l), eval(r))
    }

    open spec fn binop_visited(&self, pre: Self, l: Expr, op: BinaryOpcode, r: Expr) -> bool {
        stack_pushed(pre.stack_model(), self.stack_model(), combine(op, eval(l), eval(r)))
    }

    open spec fn unop_enabled(&self, op: UnaryOpcode, e: Expr) -> bool {
        fits(e) && unop_result_fits(op, eval(e))
    }

    open spec fn unop_visited(&self, pre: Self, op: UnaryOpcode, e: Expr) -> bool {
        stack_pushed(pre.stack_model(), self.stack_model(), unop_value(op, eval(e)))
    }

    open spec fn num_enabled(&self, val: i32) -> bool {
        true
    }

    open spec fn num_visited(&self, pre: Self, val: i32) -> bool {
        stack_pushed(pre.stack_model(), self.stack_model(), Ok(val as int))
    }

    open spec fn error_enabled(&self) -> bool {
        true
    }

    open spec fn error_visited(&self, pre: Self) -> bool {
        stack_pushed(pre.stack_model(), self.stack_model(), Err("???"@))
    }

    fn visit_binop(&mut self, l: &Expr, op: BinaryOpcode, r: &Expr) {
        let ghost pre = self.stack@;
        let lv = eval_expr(l);
        let rv = eval_expr(r);
        let result = match lv {
            Err(m) => Err(m),
            Ok(a) => match rv {
                Err(m) => Err(m),
                Ok(b) => op.execute(a, b),
            },
        };
        self.stack.push(result);
        proof {
            assert(self.stack@.drop_last() =~= pre);
        }
    }

    fn visit_unop(&mut self, op: UnaryOpcode, e: &Expr) {
        let ghost pre = self.stack@;
        let result = match eval_expr(e) {
            Err(m) => Err(m),
            Ok(v) => op.execute(v),
        };
        self.stack.push(result);
        proof {
            assert(self.stack@.drop_last() =~= pre);
        }
    }

    fn visit_num(&mut self, val: i32) {
        let ghost pre = self.stack@;
        self.stack.push(Ok(val));
        proof {
            assert(self.stack@.drop_last() =~= pre);
        }
    }

    fn visit_error(&mut self) {
        let ghost pre = self.stack@;
        self.stack.push(Err("???".to_owned()));
        proof {
            assert(self.stack@.drop_last() =~= pre);
        }
    }
}

/// Renders walked trees in reverse Polish notation, appending to one
/// growing string; `value` hands the rendering out.
pub struct RPNEvaluator {
    rpn: String,
}

impl RPNEvaluator {
    /// The rendering accumulated so far.
    pub closed spec fn rpn_model(&self) -> Seq<char> {
        self.rpn@
    }

    pub fn new() -> (e: RPNEvaluator)
        ensures
            e.rpn_model().len() == 0,
    {
        RPNEvaluator { rpn: String::new() }
    }

    pub fn value(self) -> (r: String)
        ensures
            r@ == self.rpn_model(),
    {
        self.rpn
    }

    /// Appends the rendering of a whole subtree.
    fn append_rpn(&mut self, e: &Expr)
        requires
            no_error(*e),
        ensures
            final(self).rpn_model() == old(self).rpn_model() + rpn_of(*e),
        decreases *e,
    {
        let ghost pre = self.rpn@;
        match e {
            Expr::Num(v) => {
                let s = int_to_string(*v);
                self.rpn.append(s.as_str());
                proof {
                    assert(self.rpn@ =~= pre + rpn_of(*e));
                }
            },
            Expr::Error => {
                proof {
                    assert(false);
                }
            },
            Expr::BinOp(l, op, r) => {
                self.append_rpn(&**l);
                self.rpn.append(" ");
                self.append_rpn(&**r);
                self.rpn.append(" ");
                self.rpn.append(op.symbol());
                proof {
                    assert(self.rpn@ =~= pre + rpn_of(*e));
                }
            },
            Expr::UnOp(op, inner) => {
                match &**inner {
                    Expr::Num(_) => {
                        self.rpn.append(op.prefix_symbol());
                        self.append_rpn(&**inner);
                        proof {
                            assert(rpn_of(*e) == rpn_unop(*op, **inner));
                            assert(self.rpn@ =~= pre + rpn_of(*e));
                        }
                    },
                    _ => {
                        self.append_rpn(&**inner);
                        self.rpn.append(" ");
                        self.rpn.append(op.postfix_symbol());
                        proof {
                            assert(self.rpn@ =~= pre + rpn_of(*e));
                        }
                    },
                }
            },
        }
    }
}

impl ExprVisitor for RPNEvaluator {
    open spec fn binop_enabled(&self, l: Expr, op: BinaryOpcode, r: Expr) -> bool {
        no_error(l) && no_error(r)
    }

    open spec fn binop_visited(&self, pre: Self, l: Expr, op: BinaryOpcode, r: Expr) -> bool {
        self.rpn_model() == pre.rpn_model() + rpn_of(l) + " "@ + rpn_of(r) + " "@ + symbol_seq(op)
    }

    open spec fn unop_enabled(&self, op: UnaryOpcode, e: Expr) -> bool {
        no_error(e)
    }

    open spec fn unop_visited(&self, pre: Self, op: UnaryOpcode, e: Expr) -> bool {
        self.rpn_model() == pre.rpn_model() + rpn_unop(op, e)
    }

    open spec fn num_enabled(&self, val: i32) -> bool {
        true
    }

    open spec fn num_visited(&self, pre: Self, val: i32) -> bool {
        self.rpn_model() == pre.rpn_model() + dec_int(val as int)
    }

    open spec fn error_enabled(&self) -> bool {
        false
    }

    open spec fn error_visited(&self, pre: Self) -> bool {
        self.rpn_model() == pre.rpn_model()
    }

    fn visit_binop(&mut self, l: &Expr, op: BinaryOpcode, r: &Expr) {
        self.append_rpn(l);
        self.rpn.append(" ");
        self.append_rpn(r);
        self.rpn.append(" ");
        self.rpn.append(op.symbol());
    }

    fn visit_unop(&mut self, op: UnaryOpcode, e: &Expr) {
        let ghost pre = self.rpn@;
        match e {
            Expr::Num(_) => {
                self.rpn.append(op.prefix_symbol());
                self.append_rpn(e);
            },
            _ => {
                self.append_rpn(e);
                self.rpn.append(" ");
                self.rpn.append(op.postfix_symbol());
            },
        }
        proof {
            assert(self.rpn@ =~= pre + rpn_unop(op, *e));
        }
    }

    fn visit_num(&mut self, val: i32) {
        let s = int_to_string(val);
        self.rpn.append(s.as_str());
    }

    fn visit_error(&mut self) {
    }
}

} // verus!
