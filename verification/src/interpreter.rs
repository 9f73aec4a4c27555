//! The evaluator: a pure recursive walk over the tree, with runtime
//! type checking.  Of a binary node the right child is evaluated before
//! the left one, so when both sides would fail, the right side's error
//! is the one surfaced.
//!
//! The function `eval_spec` is the mathematical statement of what
//! evaluation yields; the executable `evaluate` is proved to return
//! exactly that.

use vstd::prelude::*;
use vstd::string::*;

use crate::ast::{Node, Value};
use crate::numerics::{
    add_bits, div_bits, eq_bits, le_bits, lt_bits, mul_bits, neg_bits, num_add, num_div, num_eq,
    num_le, num_lt, num_mul, num_neg, num_pow, num_sub, pow_bits, sub_bits,
};
use crate::parser::{kind_name, kind_name_str};
use crate::tokens::TokenType;

verus! {

/// A type error found during evaluation.
pub ghost enum EvalError {
    UnaryNumber { op: TokenType },
    UnaryBoolean { op: TokenType },
    BinaryNumbers { op: TokenType },
    BinaryBooleans { op: TokenType },
    MixedOperands,
}

/// The message each evaluation error is reported with.
pub open spec fn eval_msg(e: EvalError) -> Seq<char> {
    match e {
        EvalError::UnaryNumber { op } => "Incompatible operand type (Number) for operation '"@
            + kind_name(op) + "'."@,
        EvalError::UnaryBoolean { op } => "Incompatible operand type (Boolean) for operation '"@
            + kind_name(op) + "'."@,
        EvalError::BinaryNumbers { op } => "Cannot apply operator '"@ + kind_name(op)
            + "' to two Numbers."@,
        EvalError::BinaryBooleans { op } => "Cannot apply operator '"@ + kind_name(op)
            + "' to two Booleans."@,
        EvalError::MixedOperands => "Left hand and right hand side of the expression are not of the same type."@,
    }
}

/// What a unary operator yields on a value: `-` negates a number, `+`
/// returns it unchanged, `!` negates a boolean; anything else is a type
/// error.
pub open spec fn apply_unary(op: TokenType, v: Value) -> Result<Value, EvalError> {
    match v {
        Value::Number(b) => match op {
            TokenType::Minus => Ok(Value::Number(neg_bits(b))),
            TokenType::Plus => Ok(Value::Number(b)),
            _ => Err(EvalError::UnaryNumber { op }),
        },
        Value::Boolean(x) => match op {
            TokenType::Not => Ok(Value::Boolean(!x)),
            _ => Err(EvalError::UnaryBoolean { op }),
        },
    }
}

/// What a binary operator yields on two values.  Two numbers take the
/// arithmetic and comparison operators; two booleans take equality and
/// the logical operators; mixed operands always fail.  No operator
/// coerces between the two kinds.
pub open spec fn apply_binary(op: TokenType, lhs: Value, rhs: Value) -> Result<Value, EvalError> {
    match (rhs, lhs) {
        (Value::Number(r), Value::Number(l)) => match op {
            TokenType::Plus => Ok(Value::Number(add_bits(l, r))),
            TokenType::Minus => Ok(Value::Number(sub_bits(l, r))),
            TokenType::Star => Ok(Value::Number(mul_bits(l, r))),
            TokenType::Slash => Ok(Value::Number(div_bits(l, r))),
            TokenType::Carrot => Ok(Value::Number(pow_bits(l, r))),
            TokenType::EqualEqual => Ok(Value::Boolean(eq_bits(l, r))),
            TokenType::NotEqual => Ok(Value::Boolean(!eq_bits(l, r))),
            TokenType::LessThan => Ok(Value::Boolean(lt_bits(l, r))),
            TokenType::LessThanEqual => Ok(Value::Boolean(le_bits(l, r))),
            TokenType::GreaterThan => Ok(Value::Boolean(lt_bits(r, l))),
            TokenType::GreaterThanEqual => Ok(Value::Boolean(le_bits(r, l))),
            _ => Err(EvalError::BinaryNumbers { op }),
        },
        (Value::Boolean(r), Value::Boolean(l)) => match op {
            TokenType::NotEqual => Ok(Value::Boolean(l != r)),
            TokenType::EqualEqual => Ok(Value::Boolean(l == r)),
            TokenType::Or => Ok(Value::Boolean(l || r)),
            TokenType::And => Ok(Value::Boolean(l && r)),
            _ => Err(EvalError::BinaryBooleans { op }),
        },
        _ => Err(EvalError::MixedOperands),
    }
}

/// The value a tree evaluates to, or the first type error: literals
/// directly; a unary node from its child's value; a binary node from
/// its children's values, the right child first; a grouping exactly
/// from its child.
pub open spec fn eval_spec(n: Node) -> Result<Value, EvalError>
    decreases n,
{
    match n {
        Node::Number(b) => Ok(Value::Number(b)),
        Node::Boolean(v) => Ok(Value::Boolean(v)),
        Node::UnaryExpr { operator, child } => match eval_spec(*child) {
            Ok(v) => apply_unary(operator, v),
            Err(e) => Err(e),
        },
        Node::BinaryExpr { operator, lhs, rhs } => match eval_spec(*rhs) {
            Ok(rv) => match eval_spec(*lhs) {
                Ok(lv) => apply_binary(operator, lv, rv),
                Err(e) => Err(e),
            },
            Err(e) => Err(e),
        },
        Node::GroupingExpr { child } => eval_spec(*child),
    }
}

fn msg_unary(kind_text: &str, op: TokenType) -> (m: String)
    requires
        kind_text@ == "Incompatible operand type (Number) for operation '"@ || kind_text@
            == "Incompatible operand type (Boolean) for operation '"@,
    ensures
        m@ == kind_text@ + kind_name(op) + "'."@,
{
    let mut m = String::from_str(kind_text);
    m.append(kind_name_str(op));
    m.append("'.");
    proof {
        assert(m@ =~= kind_text@ + kind_name(op) + "'."@);
    }
    m
}

fn msg_binary(op: TokenType, suffix: &str) -> (m: String)
    requires
        suffix@ == "' to two Numbers."@ || suffix@ == "' to two Booleans."@,
    ensures
        m@ == "Cannot apply operator '"@ + kind_name(op) + suffix@,
{
    let mut m = String::from_str("Cannot apply operator '");
    m.append(kind_name_str(op));
    m.append(suffix);
    proof {
        assert(m@ =~= "Cannot apply operator '"@ + kind_name(op) + suffix@);
    }
    m
}

/// Evaluates a tree to its value, or to the message of its first type
/// error.
pub fn evaluate(node: &Node) -> (r: Result<Value, String>)
    ensures
        match eval_spec(*node) {
            Ok(v) => r == Ok::<Value, String>(v),
            Err(e) => r matches Err(m) && m@ == eval_msg(e),
        },
    decreases *node,
{
    match node {
        Node::Number(b) => Ok(Value::Number(*b)),
        Node::Boolean(v) => Ok(Value::Boolean(*v)),
        Node::UnaryExpr { operator, child } => {
            let v = match evaluate(&**child) {
                Ok(v) => v,
                Err(m) => {
                    return Err(m);
                },
            };
            match v {
                Value::Number(b) => match operator {
                    TokenType::Minus => Ok(Value::Number(num_neg(b))),
                    TokenType::Plus => Ok(Value::Number(b)),
                    _ => Err(
                        msg_unary("Incompatible operand type (Number) for operation '", *operator),
                    ),
                },
                Value::Boolean(x) => match operator {
                    TokenType::Not => Ok(Value::Boolean(!x)),
                    _ => Err(
                        msg_unary("Incompatible operand type (Boolean) for operation '", *operator),
                    ),
                },
            }
        },
        Node::BinaryExpr { operator, lhs, rhs } => {
            let rv = match evaluate(&**rhs) {
                Ok(v) => v,
                Err(m) => {
                    return Err(m);
                },
            };
            let lv = match evaluate(&**lhs) {
                Ok(v) => v,
                Err(m) => {
                    return Err(m);
                },
            };
            match (rv, lv) {
                (Value::Number(r), Value::Number(l)) => match operator {
                    TokenType::Plus => Ok(Value::Number(num_add(l, r))),
                    TokenType::Minus => Ok(Value::Number(num_sub(l, r))),
                    TokenType::Star => Ok(Value::Number(num_mul(l, r))),
                    TokenType::Slash => Ok(Value::Number(num_div(l, r))),
                    TokenType::Carrot => Ok(Value::Number(num_pow(l, r))),
                    TokenType::EqualEqual => Ok(Value::Boolean(num_eq(l, r))),
                    TokenType::NotEqual => Ok(Value::Boolean(!num_eq(l, r))),
                    TokenType::LessThan => Ok(Value::Boolean(num_lt(l, r))),
                    TokenType::LessThanEqual => Ok(Value::Boolean(num_le(l, r))),
                    TokenType::GreaterThan => Ok(Value::Boolean(num_lt(r, l))),
                    TokenType::GreaterThanEqual => Ok(Value::Boolean(num_le(r, l))),
                    _ => Err(msg_binary(*operator, "' to two Numbers.")),
                },
                (Value::Boolean(r), Value::Boolean(l)) => match operator {
                    TokenType::NotEqual => Ok(Value::Boolean(l != r)),
                    TokenType::EqualEqual => Ok(Value::Boolean(l == r)),
                    TokenType::Or => Ok(Value::Boolean(l || r)),
                    TokenType::And => Ok(Value::Boolean(l && r)),
                    _ => Err(msg_binary(*operator, "' to two Booleans.")),
                },
                _ => Err(
                    String::from_str(
                        "Left hand and right hand side of the expression are not of the same type.",
                    ),
                ),
            }
        },
        Node::GroupingExpr { child } => evaluate(&**child),
    }
}

} // verus!
