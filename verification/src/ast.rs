//! The abstract syntax tree and the values expressions evaluate to.

use vstd::prelude::*;

use crate::interpreter::{eval_msg, eval_spec, evaluate, EvalError};
use crate::numerics::{literal_bits, valid_literal};
use crate::parser::{
    next_pos, parse_expression_at, parse_factor_at, parse_factor_rest, parse_from_input,
    parse_input_spec, parse_logic_at, parse_logic_rest, parse_power_at, parse_power_rest,
    parse_primary_at, parse_term_at, parse_term_rest, parse_unary_at, ParseError,
};
use crate::scanner::{
    clamp_end, lemma_lit_end_is, scan_from, scan_spec, step_at, LexError, Step,
};
use crate::tokens::{TokenModel, TokenType};

verus! {

/// A node of the abstract syntax tree.  Each node owns its children
/// outright; a numeric literal holds the bit pattern of the binary64
/// value it denotes.
#[derive(Debug)]
pub enum Node {
    Number(u64),
    Boolean(bool),
    UnaryExpr { operator: TokenType, child: Box<Node> },
    BinaryExpr { operator: TokenType, lhs: Box<Node>, rhs: Box<Node> },
    GroupingExpr { child: Box<Node> },
}

/// A computed value: a number, as the bit pattern of an IEEE 754
/// binary64 value, or a boolean.
#[derive(Clone, Copy, Debug, PartialEq, Eq, Structural)]
pub enum Value {
    Number(u64),
    Boolean(bool),
}

/// What a whole input evaluates to: a value, or the message of the
/// first error of whichever stage failed first.  Every evaluation is a
/// pure function of the input text alone: no state survives a call, so
/// the same text always yields the same result.
pub open spec fn from_input_spec(s: Seq<char>) -> Result<Value, Seq<char>> {
    match parse_input_spec(s) {
        Ok(n) => match eval_spec(n) {
            Ok(v) => Ok(v),
            Err(e) => Err(eval_msg(e)),
        },
        Err(m) => Err(m),
    }
}

/// Every text that is one well-formed numeric literal evaluates to the
/// number that literal denotes.
pub proof fn lemma_literal_evaluates_to_its_number(s: Seq<char>)
    requires
        valid_literal(s),
    ensures
        from_input_spec(s) == Ok::<Value, Seq<char>>(Value::Number(literal_bits(s))),
{
    let len = s.len() as int;
    let bits = literal_bits(s);
    lemma_lit_end_is(s, 0, len);
    assert(s.subrange(0, len) =~= s);
    assert(step_at(s, 0, 1) == (Step::Emit { kind: TokenType::Number(bits), end: len }));
    assert(clamp_end(0, len, len) == len);
    let num = TokenModel { kind: TokenType::Number(bits), lexeme: s, line: 1 };
    let eof = TokenModel { kind: TokenType::Eof, lexeme: Seq::<char>::empty(), line: 1 };
    assert(scan_from(s, len, 1) == Ok::<Seq<TokenModel>, LexError>(seq![eof]));
    let ts = seq![num] + seq![eof];
    assert(scan_spec(s) == Ok::<Seq<TokenModel>, LexError>(ts));
    assert(ts.len() == 2 && ts[0] == num && ts[1] == eof);
    let node = Node::Number(bits);
    assert(parse_primary_at(ts, 0) == Ok::<(Node, int), ParseError>((node, 1)));
    assert(parse_unary_at(ts, 0) == Ok::<(Node, int), ParseError>((node, 1)));
    assert(next_pos(-1, 1, 2) == 1);
    assert(parse_power_rest(ts, node, 1) == Ok::<(Node, int), ParseError>((node, 1)));
    assert(parse_power_at(ts, 0) == Ok::<(Node, int), ParseError>((node, 1)));
    assert(parse_factor_rest(ts, node, 1) == Ok::<(Node, int), ParseError>((node, 1)));
    assert(parse_factor_at(ts, 0) == Ok::<(Node, int), ParseError>((node, 1)));
    assert(parse_term_rest(ts, node, 1) == Ok::<(Node, int), ParseError>((node, 1)));
    assert(parse_term_at(ts, 0) == Ok::<(Node, int), ParseError>((node, 1)));
    assert(parse_logic_rest(ts, node, 1) == Ok::<(Node, int), ParseError>((node, 1)));
    assert(parse_logic_at(ts, 0) == Ok::<(Node, int), ParseError>((node, 1)));
    assert(parse_expression_at(ts, 0) == Ok::<(Node, int), ParseError>((node, 1)));
    assert(eval_spec(node) == Ok::<Value, EvalError>(Value::Number(bits)));
}

impl Value {
    /// Runs the whole pipeline over in-memory text: scan, parse,
    /// evaluate.
    pub fn from_input(input: &str) -> (r: Result<Value, String>)
        ensures
            match from_input_spec(input@) {
                Ok(v) => r == Ok::<Value, String>(v),
                Err(msg) => r matches Err(m) && m@ == msg,
            },
    {
        let node = match parse_from_input(input) {
            Ok(n) => n,
            Err(m) => {
                return Err(m);
            },
        };
        evaluate(&node)
    }
}

} // verus!

