//! The parser: recursive descent over the token sequence, with one
//! precedence level per function.  From loosest to tightest binding:
//! the shared logical/relational level, additive, multiplicative,
//! power, unary, primary.  Every binary level folds to the left.
//!
//! The functions `parse_expression_at` and `parse_input_spec` are the
//! mathematical statement of what parsing yields; the executable
//! `Parser` is proved to return exactly that.

use vstd::prelude::*;
use vstd::string::*;

use crate::ast::Node;
use crate::render::{append_decimal, dec_str};
use crate::scanner::{lemma_scan_ends_eof, lex_msg, scan_from_input, scan_spec};
use crate::tokens::{Token, TokenModel, TokenType};

verus! {

/// A syntax error.
pub ghost enum ParseError {
    UnsupportedIdentifier { name: Seq<char>, line: usize },
    MissingCloseParen,
    UnexpectedToken { kind: TokenType, line: usize },
}

/// The name each token kind is printed with.
pub open spec fn kind_name(k: TokenType) -> Seq<char> {
    match k {
        TokenType::LeftParen => "LeftParen"@,
        TokenType::RightParen => "RightParen"@,
        TokenType::Comma => "Comma"@,
        TokenType::Plus => "Plus"@,
        TokenType::Minus => "Minus"@,
        TokenType::Star => "Star"@,
        TokenType::Slash => "Slash"@,
        TokenType::Carrot => "Carrot"@,
        TokenType::Not => "Not"@,
        TokenType::GreaterThan => "GreaterThan"@,
        TokenType::GreaterThanEqual => "GreaterThanEqual"@,
        TokenType::LessThan => "LessThan"@,
        TokenType::LessThanEqual => "LessThanEqual"@,
        TokenType::EqualEqual => "EqualEqual"@,
        TokenType::NotEqual => "NotEqual"@,
        TokenType::And => "And"@,
        TokenType::Or => "Or"@,
        TokenType::Identifier => "Identifier"@,
        TokenType::Number(_) => "Number"@,
        TokenType::Eof => "Eof"@,
    }
}

/// The message each syntax error is reported with.
pub open spec fn parse_msg(e: ParseError) -> Seq<char> {
    match e {
        ParseError::UnsupportedIdentifier { name, line } => "Identifiers are not supported yet. '"@
            + name + "' on line "@ + dec_str(line as nat) + "."@,
        ParseError::MissingCloseParen => "Expected ')' after grouping expression."@,
        ParseError::UnexpectedToken { kind, line } => "Unexpected token '"@ + kind_name(kind)
            + "' at line "@ + dec_str(line as nat),
    }
}

/// The operators of the shared logical/relational level.
pub open spec fn is_logic_op(k: TokenType) -> bool {
    ||| k is GreaterThan
    ||| k is GreaterThanEqual
    ||| k is LessThan
    ||| k is LessThanEqual
    ||| k is EqualEqual
    ||| k is NotEqual
    ||| k is Or
    ||| k is And
}

/// The additive operators.
pub open spec fn is_term_op(k: TokenType) -> bool {
    k is Plus || k is Minus
}

/// The multiplicative operators.
pub open spec fn is_factor_op(k: TokenType) -> bool {
    k is Star || k is Slash
}

/// The power operator.
pub open spec fn is_power_op(k: TokenType) -> bool {
    k is Carrot
}

/// The prefix operators.
pub open spec fn is_unary_op(k: TokenType) -> bool {
    k is Minus || k is Not
}

/// An operand's end position, held strictly beyond the operator at
/// `pos` and within the tokens.  Every operand the parser accepts ends
/// there already; the bounds only keep the definitions below grounded.
pub open spec fn next_pos(pos: int, q: int, len: int) -> int {
    if pos + 1 >= len {
        len
    } else if q <= pos + 1 {
        pos + 1
    } else if q > len {
        len
    } else {
        q
    }
}

/// The error for a position the parser cannot reach: the token
/// sequences it runs on always hold an end-of-input token.
pub open spec fn out_of_tokens() -> ParseError {
    ParseError::UnexpectedToken { kind: TokenType::Eof, line: 1 }
}

/// A primary expression: a numeric literal, `true` or `false`, or a
/// parenthesized expression.  Any other identifier, and any other
/// token, is a syntax error.
pub open spec fn parse_primary_at(toks: Seq<TokenModel>, pos: int) -> Result<
    (Node, int),
    ParseError,
>
    decreases toks.len() - pos, 0int,
{
    if 0 <= pos < toks.len() {
        let t = toks[pos];
        match t.kind {
            TokenType::Number(bits) => Ok((Node::Number(bits), pos + 1)),
            TokenType::Identifier => if t.lexeme == "true"@ {
                Ok((Node::Boolean(true), pos + 1))
            } else if t.lexeme == "false"@ {
                Ok((Node::Boolean(false), pos + 1))
            } else {
                Err(ParseError::UnsupportedIdentifier { name: t.lexeme, line: t.line })
            },
            TokenType::LeftParen => match parse_expression_at(toks, pos + 1) {
                Ok((child, q)) => if 0 <= q < toks.len() && toks[q].kind is RightParen {
                    Ok((Node::GroupingExpr { child: Box::new(child) }, q + 1))
                } else {
                    Err(ParseError::MissingCloseParen)
                },
                Err(e) => Err(e),
            },
            _ => Err(ParseError::UnexpectedToken { kind: t.kind, line: t.line }),
        }
    } else {
        Err(out_of_tokens())
    }
}

/// A unary expression: any chain of prefix `-` and `!` over a primary
/// expression.
pub open spec fn parse_unary_at(toks: Seq<TokenModel>, pos: int) -> Result<(Node, int), ParseError>
    decreases toks.len() - pos, 1int,
{
    if 0 <= pos < toks.len() && is_unary_op(toks[pos].kind) {
        let op = toks[pos].kind;
        match parse_unary_at(toks, pos + 1) {
            Ok((child, q)) => Ok((Node::UnaryExpr { operator: op, child: Box::new(child) }, q)),
            Err(e) => Err(e),
        }
    } else {
        parse_primary_at(toks, pos)
    }
}

/// Folds further `^` operators onto `acc`, to the left.
pub open spec fn parse_power_rest(toks: Seq<TokenModel>, acc: Node, pos: int) -> Result<
    (Node, int),
    ParseError,
>
    decreases toks.len() - pos, 2int,
{
    if 0 <= pos < toks.len() && is_power_op(toks[pos].kind) {
        let op = toks[pos].kind;
        match parse_unary_at(toks, pos + 1) {
            Ok((rhs, q)) => parse_power_rest(
                toks,
                Node::BinaryExpr { operator: op, rhs: Box::new(rhs), lhs: Box::new(acc) },
                next_pos(pos, q, toks.len() as int),
            ),
            Err(e) => Err(e),
        }
    } else {
        Ok((acc, pos))
    }
}

/// A power expression: unary operands folded to the left under `^`.
pub open spec fn parse_power_at(toks: Seq<TokenModel>, pos: int) -> Result<(Node, int), ParseError>
    decreases toks.len() - pos, 3int,
{
    if 0 <= pos <= toks.len() {
        match parse_unary_at(toks, pos) {
            Ok((e, q)) => parse_power_rest(toks, e, next_pos(pos - 1, q, toks.len() as int)),
            Err(e) => Err(e),
        }
    } else {
        Err(out_of_tokens())
    }
}

/// Folds further `*` and `/` operators onto `acc`, to the left.
pub open spec fn parse_factor_rest(toks: Seq<TokenModel>, acc: Node, pos: int) -> Result<
    (Node, int),
    ParseError,
>
    decreases toks.len() - pos, 4int,
{
    if 0 <= pos < toks.len() && is_factor_op(toks[pos].kind) {
        let op = toks[pos].kind;
        match parse_power_at(toks, pos + 1) {
            Ok((rhs, q)) => parse_factor_rest(
                toks,
                Node::BinaryExpr { operator: op, rhs: Box::new(rhs), lhs: Box::new(acc) },
                next_pos(pos, q, toks.len() as int),
            ),
            Err(e) => Err(e),
        }
    } else {
        Ok((acc, pos))
    }
}

/// A multiplicative expression: power operands folded to the left.
pub open spec fn parse_factor_at(toks: Seq<TokenModel>, pos: int) -> Result<(Node, int), ParseError>
    decreases toks.len() - pos, 5int,
{
    if 0 <= pos <= toks.len() {
        match parse_power_at(toks, pos) {
            Ok((e, q)) => parse_factor_rest(toks, e, next_pos(pos - 1, q, toks.len() as int)),
            Err(e) => Err(e),
        }
    } else {
        Err(out_of_tokens())
    }
}

/// Folds further `+` and `-` operators onto `acc`, to the left.
pub open spec fn parse_term_rest(toks: Seq<TokenModel>, acc: Node, pos: int) -> Result<
    (Node, int),
    ParseError,
>
    decreases toks.len() - pos, 6int,
{
    if 0 <= pos < toks.len() && is_term_op(toks[pos].kind) {
        let op = toks[pos].kind;
        match parse_factor_at(toks, pos + 1) {
            Ok((rhs, q)) => parse_term_rest(
                toks,
                Node::BinaryExpr { operator: op, rhs: Box::new(rhs), lhs: Box::new(acc) },
                next_pos(pos, q, toks.len() as int),
            ),
            Err(e) => Err(e),
        }
    } else {
        Ok((acc, pos))
    }
}

/// An additive expression: multiplicative operands folded to the left.
pub open spec fn parse_term_at(toks: Seq<TokenModel>, pos: int) -> Result<(Node, int), ParseError>
    decreases toks.len() - pos, 7int,
{
    if 0 <= pos <= toks.len() {
        match parse_factor_at(toks, pos) {
            Ok((e, q)) => parse_term_rest(toks, e, next_pos(pos - 1, q, toks.len() as int)),
            Err(e) => Err(e),
        }
    } else {
        Err(out_of_tokens())
    }
}

/// Folds further logical/relational operators onto `acc`, to the left.
pub open spec fn parse_logic_rest(toks: Seq<TokenModel>, acc: Node, pos: int) -> Result<
    (Node, int),
    ParseError,
>
    decreases toks.len() - pos, 8int,
{
    if 0 <= pos < toks.len() && is_logic_op(toks[pos].kind) {
        let op = toks[pos].kind;
        match parse_term_at(toks, pos + 1) {
            Ok((rhs, q)) => parse_logic_rest(
                toks,
                Node::BinaryExpr { operator: op, rhs: Box::new(rhs), lhs: Box::new(acc) },
                next_pos(pos, q, toks.len() as int),
            ),
            Err(e) => Err(e),
        }
    } else {
        Ok((acc, pos))
    }
}

/// The shared logical/relational level: additive operands folded to the
/// left, with no precedence distinction among its seven operators.
pub open spec fn parse_logic_at(toks: Seq<TokenModel>, pos: int) -> Result<(Node, int), ParseError>
    decreases toks.len() - pos, 9int,
{
    if 0 <= pos <= toks.len() {
        match parse_term_at(toks, pos) {
            Ok((e, q)) => parse_logic_rest(toks, e, next_pos(pos - 1, q, toks.len() as int)),
            Err(e) => Err(e),
        }
    } else {
        Err(out_of_tokens())
    }
}

/// A whole expression: the grammar's entry point.
pub open spec fn parse_expression_at(toks: Seq<TokenModel>, pos: int) -> Result<
    (Node, int),
    ParseError,
>
    decreases toks.len() - pos, 10int,
{
    parse_logic_at(toks, pos)
}

/// The tree a token sequence parses to, or its first syntax error.
/// Tokens after the parsed expression are not consumed.
pub open spec fn parse_spec(toks: Seq<TokenModel>) -> Result<Node, ParseError> {
    match parse_expression_at(toks, 0) {
        Ok((n, _)) => Ok(n),
        Err(e) => Err(e),
    }
}

/// Whether an end-of-input token stands at or after `pos`.
pub open spec fn has_eof_from(toks: Seq<TokenModel>, pos: int) -> bool {
    exists|i: int| pos <= i < toks.len() && toks[i].kind is Eof
}

/// The mathematical model of a parser: its tokens and its position.
pub ghost struct ParserModel {
    pub toks: Seq<TokenModel>,
    pub pos: int,
}

/// A parser runs within its tokens, and an end-of-input token lies
/// ahead of it.
pub open spec fn parser_wf(m: ParserModel) -> bool {
    &&& 0 <= m.pos <= m.toks.len()
    &&& has_eof_from(m.toks, m.pos)
}

/// The parser: the token sequence and a forward cursor into it.
pub struct Parser {
    tokens: Vec<Token>,
    current: usize,
}

impl View for Parser {
    type V = ParserModel;

    closed spec fn view(&self) -> ParserModel {
        ParserModel { toks: self.tokens.deep_view(), pos: self.current as int }
    }
}

pub(crate) fn kind_name_str(k: TokenType) -> (r: &'static str)
    ensures
        r@ == kind_name(k),
{
    match k {
        TokenType::LeftParen => "LeftParen",
        TokenType::RightParen => "RightParen",
        TokenType::Comma => "Comma",
        TokenType::Plus => "Plus",
        TokenType::Minus => "Minus",
        TokenType::Star => "Star",
        TokenType::Slash => "Slash",
        TokenType::Carrot => "Carrot",
        TokenType::Not => "Not",
        TokenType::GreaterThan => "GreaterThan",
        TokenType::GreaterThanEqual => "GreaterThanEqual",
        TokenType::LessThan => "LessThan",
        TokenType::LessThanEqual => "LessThanEqual",
        TokenType::EqualEqual => "EqualEqual",
        TokenType::NotEqual => "NotEqual",
        TokenType::And => "And",
        TokenType::Or => "Or",
        TokenType::Identifier => "Identifier",
        TokenType::Number(_) => "Number",
        TokenType::Eof => "Eof",
    }
}

fn msg_unsupported_identifier(name: &str, line: usize) -> (m: String)
    ensures
        m@ == parse_msg(ParseError::UnsupportedIdentifier { name: name@, line }),
{
    let mut m = String::from_str("Identifiers are not supported yet. '");
    m.append(name);
    m.append("' on line ");
    append_decimal(&mut m, line);
    m.append(".");
    proof {
        assert(m@ =~= parse_msg(ParseError::UnsupportedIdentifier { name: name@, line }));
    }
    m
}

fn msg_unexpected_token(kind: TokenType, line: usize) -> (m: String)
    ensures
        m@ == parse_msg(ParseError::UnexpectedToken { kind, line }),
{
    let mut m = String::from_str("Unexpected token '");
    m.append(kind_name_str(kind));
    m.append("' at line ");
    append_decimal(&mut m, line);
    proof {
        assert(m@ =~= parse_msg(ParseError::UnexpectedToken { kind, line }));
    }
    m
}

impl Parser {
    pub fn new(tokens: Vec<Token>) -> (p: Parser)
        ensures
            p@ == (ParserModel { toks: tokens.deep_view(), pos: 0 }),
    {
        Parser { tokens, current: 0 }
    }

    fn advance(&mut self)
        requires
            parser_wf(old(self)@),
            !(old(self)@.toks[old(self)@.pos].kind is Eof),
        ensures
            final(self)@.toks == old(self)@.toks,
            final(self)@.pos == old(self)@.pos + 1,
            parser_wf(final(self)@),
    {
        let n = self.tokens.len();
        proof {
            let toks = self@.toks;
            let pos = self@.pos;
            let i = choose|i: int| pos <= i < toks.len() && toks[i].kind is Eof;
            assert(i != pos);
            assert(pos + 1 <= i < toks.len() && toks[i].kind is Eof);
            assert(self.current < n);
        }
        self.current = self.current + 1;
    }

    /// Parses one whole expression from the cursor on.  Tokens after it
    /// are left unconsumed.
    pub fn parse(&mut self) -> (r: Result<Node, String>)
        requires
            parser_wf(old(self)@),
        ensures
            final(self)@.toks == old(self)@.toks,
            parser_wf(final(self)@),
            match r {
                Ok(n) => parse_expression_at(old(self)@.toks, old(self)@.pos) == Ok::<
                    (Node, int),
                    ParseError,
                >((n, final(self)@.pos)),
                Err(m) => parse_expression_at(old(self)@.toks, old(self)@.pos) matches Err(e)
                    && m@ == parse_msg(e),
            },
        decreases old(self)@.toks.len() - old(self)@.pos, 11int,
    {
        self.parse_expression()
    }

    fn parse_expression(&mut self) -> (r: Result<Node, String>)
        requires
            parser_wf(old(self)@),
        ensures
            final(self)@.toks == old(self)@.toks,
            parser_wf(final(self)@),
            match r {
                Ok(n) => parse_expression_at(old(self)@.toks, old(self)@.pos) == Ok::<
                    (Node, int),
                    ParseError,
                >((n, final(self)@.pos)) && old(self)@.pos < final(self)@.pos,
                Err(m) => parse_expression_at(old(self)@.toks, old(self)@.pos) matches Err(e)
                    && m@ == parse_msg(e),
            },
        decreases old(self)@.toks.len() - old(self)@.pos, 10int,
    {
        self.parse_logic_binary()
    }

    fn parse_logic_binary(&mut self) -> (r: Result<Node, String>)
        requires
            parser_wf(old(self)@),
        ensures
            final(self)@.toks == old(self)@.toks,
            parser_wf(final(self)@),
            match r {
                Ok(n) => parse_logic_at(old(self)@.toks, old(self)@.pos) == Ok::<
                    (Node, int),
                    ParseError,
                >((n, final(self)@.pos)) && old(self)@.pos < final(self)@.pos,
                Err(m) => parse_logic_at(old(self)@.toks, old(self)@.pos) matches Err(e) && m@
                    == parse_msg(e),
            },
        decreases old(self)@.toks.len() - old(self)@.pos, 9int,
    {
        let ghost toks = self@.toks;
        let ghost pos0 = self@.pos;
        let mut expr = match self.parse_term() {
            Ok(n) => n,
            Err(m) => {
                return Err(m);
            },
        };
        proof {
            assert(next_pos(pos0 - 1, self@.pos, toks.len() as int) == self@.pos);
        }
        loop
            invariant
                parser_wf(self@),
                self@.toks == toks,
                toks == old(self)@.toks,
                pos0 == old(self)@.pos,
                0 <= pos0 < self@.pos <= toks.len(),
                parse_logic_at(toks, pos0) == parse_logic_rest(toks, expr, self@.pos),
            ensures
                parser_wf(self@),
                self@.toks == toks,
                pos0 < self@.pos <= toks.len(),
                parse_logic_at(toks, pos0) == Ok::<(Node, int), ParseError>((expr, self@.pos)),
            decreases toks.len() - self@.pos,
        {
            let k = self.tokens[self.current].token_type;
            match k {
                TokenType::GreaterThan
                | TokenType::GreaterThanEqual
                | TokenType::LessThan
                | TokenType::LessThanEqual
                | TokenType::EqualEqual
                | TokenType::NotEqual
                | TokenType::Or
                | TokenType::And => {
                    let ghost p = self@.pos;
                    self.advance();
                    let rhs = match self.parse_term() {
                        Ok(n) => n,
                        Err(m) => {
                            return Err(m);
                        },
                    };
                    proof {
                        assert(next_pos(p, self@.pos, toks.len() as int) == self@.pos);
                    }
                    expr = Node::BinaryExpr { operator: k, rhs: Box::new(rhs), lhs: Box::new(
                        expr,
                    ) };
                },
                _ => {
                    break ;
                },
            }
        }
        Ok(expr)
    }

    fn parse_term(&mut self) -> (r: Result<Node, String>)
        requires
            parser_wf(old(self)@),
        ensures
            final(self)@.toks == old(self)@.toks,
            parser_wf(final(self)@),
            match r {
                Ok(n) => parse_term_at(old(self)@.toks, old(self)@.pos) == Ok::<
                    (Node, int),
                    ParseError,
                >((n, final(self)@.pos)) && old(self)@.pos < final(self)@.pos,
                Err(m) => parse_term_at(old(self)@.toks, old(self)@.pos) matches Err(e) && m@
                    == parse_msg(e),
            },
        decreases old(self)@.toks.len() - old(self)@.pos, 7int,
    {
        let ghost toks = self@.toks;
        let ghost pos0 = self@.pos;
        let mut expr = match self.parse_factor() {
            Ok(n) => n,
            Err(m) => {
                return Err(m);
            },
        };
        proof {
            assert(next_pos(pos0 - 1, self@.pos, toks.len() as int) == self@.pos);
        }
        loop
            invariant
                parser_wf(self@),
                self@.toks == toks,
                toks == old(self)@.toks,
                pos0 == old(self)@.pos,
                0 <= pos0 < self@.pos <= toks.len(),
                parse_term_at(toks, pos0) == parse_term_rest(toks, expr, self@.pos),
            ensures
                parser_wf(self@),
                self@.toks == toks,
                pos0 < self@.pos <= toks.len(),
                parse_term_at(toks, pos0) == Ok::<(Node, int), ParseError>((expr, self@.pos)),
            decreases toks.len() - self@.pos,
        {
            let k = self.tokens[self.current].token_type;
            match k {
                TokenType::Plus | TokenType::Minus => {
                    let ghost p = self@.pos;
                    self.advance();
                    let rhs = match self.parse_factor() {
                        Ok(n) => n,
                        Err(m) => {
                            return Err(m);
                        },
                    };
                    proof {
                        assert(next_pos(p, self@.pos, toks.len() as int) == self@.pos);
                    }
                    expr = Node::BinaryExpr { operator: k, rhs: Box::new(rhs), lhs: Box::new(
                        expr,
                    ) };
                },
                _ => {
                    break ;
                },
            }
        }
        Ok(expr)
    }

    fn parse_factor(&mut self) -> (r: Result<Node, String>)
        requires
            parser_wf(old(self)@),
        ensures
            final(self)@.toks == old(self)@.toks,
            parser_wf(final(self)@),
            match r {
                Ok(n) => parse_factor_at(old(self)@.toks, old(self)@.pos) == Ok::<
                    (Node, int),
                    ParseError,
                >((n, final(self)@.pos)) && old(self)@.pos < final(self)@.pos,
                Err(m) => parse_factor_at(old(self)@.toks, old(self)@.pos) matches Err(e) && m@
                    == parse_msg(e),
            },
        decreases old(self)@.toks.len() - old(self)@.pos, 5int,
    {
        let ghost toks = self@.toks;
        let ghost pos0 = self@.pos;
        let mut expr = match self.parse_power() {
            Ok(n) => n,
            Err(m) => {
                return Err(m);
            },
        };
        proof {
            assert(next_pos(pos0 - 1, self@.pos, toks.len() as int) == self@.pos);
        }
        loop
            invariant
                parser_wf(self@),
                self@.toks == toks,
                toks == old(self)@.toks,
                pos0 == old(self)@.pos,
                0 <= pos0 < self@.pos <= toks.len(),
                parse_factor_at(toks, pos0) == parse_factor_rest(toks, expr, self@.pos),
            ensures
                parser_wf(self@),
                self@.toks == toks,
                pos0 < self@.pos <= toks.len(),
                parse_factor_at(toks, pos0) == Ok::<(Node, int), ParseError>((expr, self@.pos)),
            decreases toks.len() - self@.pos,
        {
            let k = self.tokens[self.current].token_type;
            match k {
                TokenType::Star | TokenType::Slash => {
                    let ghost p = self@.pos;
                    self.advance();
                    let rhs = match self.parse_power() {
                        Ok(n) => n,
                        Err(m) => {
                            return Err(m);
                        },
                    };
                    proof {
                        assert(next_pos(p, self@.pos, toks.len() as int) == self@.pos);
                    }
                    expr = Node::BinaryExpr { operator: k, rhs: Box::new(rhs), lhs: Box::new(
                        expr,
                    ) };
                },
                _ => {
                    break ;
                },
            }
        }
        Ok(expr)
    }

    fn parse_power(&mut self) -> (r: Result<Node, String>)
        requires
            parser_wf(old(self)@),
        ensures
            final(self)@.toks == old(self)@.toks,
            parser_wf(final(self)@),
            match r {
                Ok(n) => parse_power_at(old(self)@.toks, old(self)@.pos) == Ok::<
                    (Node, int),
                    ParseError,
                >((n, final(self)@.pos)) && old(self)@.pos < final(self)@.pos,
                Err(m) => parse_power_at(old(self)@.toks, old(self)@.pos) matches Err(e) && m@
                    == parse_msg(e),
            },
        decreases old(self)@.toks.len() - old(self)@.pos, 3int,
    {
        let ghost toks = self@.toks;
        let ghost pos0 = self@.pos;
        let mut expr = match self.parse_unary() {
            Ok(n) => n,
            Err(m) => {
                return Err(m);
            },
        };
        proof {
            assert(next_pos(pos0 - 1, self@.pos, toks.len() as int) == self@.pos);
        }
        loop
            invariant
                parser_wf(self@),
                self@.toks == toks,
                toks == old(self)@.toks,
                pos0 == old(self)@.pos,
                0 <= pos0 < self@.pos <= toks.len(),
                parse_power_at(toks, pos0) == parse_power_rest(toks, expr, self@.pos),
            ensures
                parser_wf(self@),
                self@.toks == toks,
                pos0 < self@.pos <= toks.len(),
                parse_power_at(toks, pos0) == Ok::<(Node, int), ParseError>((expr, self@.pos)),
            decreases toks.len() - self@.pos,
        {
            let k = self.tokens[self.current].token_type;
            match k {
                TokenType::Carrot => {
                    let ghost p = self@.pos;
                    self.advance();
                    let rhs = match self.parse_unary() {
                        Ok(n) => n,
                        Err(m) => {
                            return Err(m);
                        },
                    };
                    proof {
                        assert(next_pos(p, self@.pos, toks.len() as int) == self@.pos);
                    }
                    expr = Node::BinaryExpr { operator: k, rhs: Box::new(rhs), lhs: Box::new(
                        expr,
                    ) };
                },
                _ => {
                    break ;
                },
            }
        }
        Ok(expr)
    }

    fn parse_unary(&mut self) -> (r: Result<Node, String>)
        requires
            parser_wf(old(self)@),
        ensures
            final(self)@.toks == old(self)@.toks,
            parser_wf(final(self)@),
            match r {
                Ok(n) => parse_unary_at(old(self)@.toks, old(self)@.pos) == Ok::<
                    (Node, int),
                    ParseError,
                >((n, final(self)@.pos)) && old(self)@.pos < final(self)@.pos,
                Err(m) => parse_unary_at(old(self)@.toks, old(self)@.pos) matches Err(e) && m@
                    == parse_msg(e),
            },
        decreases old(self)@.toks.len() - old(self)@.pos, 1int,
    {
        let k = self.tokens[self.current].token_type;
        match k {
            TokenType::Minus | TokenType::Not => {
                self.advance();
                match self.parse_unary() {
                    Ok(child) => Ok(Node::UnaryExpr { operator: k, child: Box::new(child) }),
                    Err(m) => Err(m),
                }
            },
            _ => self.parse_primary(),
        }
    }

    fn parse_primary(&mut self) -> (r: Result<Node, String>)
        requires
            parser_wf(old(self)@),
        ensures
            final(self)@.toks == old(self)@.toks,
            parser_wf(final(self)@),
            match r {
                Ok(n) => parse_primary_at(old(self)@.toks, old(self)@.pos) == Ok::<
                    (Node, int),
                    ParseError,
                >((n, final(self)@.pos)) && old(self)@.pos < final(self)@.pos,
                Err(m) => parse_primary_at(old(self)@.toks, old(self)@.pos) matches Err(e) && m@
                    == parse_msg(e),
            },
        decreases old(self)@.toks.len() - old(self)@.pos, 0int,
    {
        let k = self.tokens[self.current].token_type;
        match k {
            TokenType::Number(bits) => {
                self.advance();
                Ok(Node::Number(bits))
            },
            TokenType::Identifier => {
                let truth = String::from_str("true");
                let falsity = String::from_str("false");
                if self.tokens[self.current].lexeme == truth {
                    self.advance();
                    Ok(Node::Boolean(true))
                } else if self.tokens[self.current].lexeme == falsity {
                    self.advance();
                    Ok(Node::Boolean(false))
                } else {
                    let line = self.tokens[self.current].line;
                    let m = msg_unsupported_identifier(
                        self.tokens[self.current].lexeme.as_str(),
                        line,
                    );
                    Err(m)
                }
            },
            TokenType::LeftParen => {
                self.advance();
                match self.parse_expression() {
                    Ok(child) => {
                        let close = self.tokens[self.current].token_type;
                        match close {
                            TokenType::RightParen => {
                                self.advance();
                                Ok(Node::GroupingExpr { child: Box::new(child) })
                            },
                            _ => Err(String::from_str("Expected ')' after grouping expression.")),
                        }
                    },
                    Err(m) => Err(m),
                }
            },
            _ => {
                let line = self.tokens[self.current].line;
                Err(msg_unexpected_token(k, line))
            },
        }
    }
}

/// What a whole input parses to: its tree, or the first error's
/// message, from whichever stage failed first.
pub open spec fn parse_input_spec(s: Seq<char>) -> Result<Node, Seq<char>> {
    match scan_spec(s) {
        Err(e) => Err(lex_msg(e)),
        Ok(ts) => match parse_expression_at(ts, 0) {
            Ok((n, _)) => Ok(n),
            Err(e) => Err(parse_msg(e)),
        },
    }
}

/// Scans and parses a whole input.
pub fn parse_from_input(input: &str) -> (r: Result<Node, String>)
    ensures
        match parse_input_spec(input@) {
            Ok(n) => r matches Ok(node) && node == n,
            Err(msg) => r matches Err(m) && m@ == msg,
        },
{
    let toks = match scan_from_input(input) {
        Ok(v) => v,
        Err(m) => {
            return Err(m);
        },
    };
    proof {
        lemma_scan_ends_eof(input@, 0, 1);
        let ts = toks.deep_view();
        assert(ts[ts.len() - 1].kind is Eof);
        assert(has_eof_from(ts, 0));
    }
    let mut p = Parser::new(toks);
    p.parse()
}

} // verus!
