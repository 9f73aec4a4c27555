//! The scanner: one left-to-right pass over the input's characters,
//! producing the token sequence, or a lexical error rendered as a
//! message.
//!
//! The function `scan_spec` is the mathematical statement of what
//! scanning yields for every input; the executable `Scanner` is proved
//! to return exactly that.

use vstd::prelude::*;
use vstd::string::*;

use crate::numerics::{
    alphabetic, char_is_alphabetic, dots_in, has_digit, is_digit_char, is_lit_char, literal_bits,
    parse_literal, valid_literal,
};
use crate::render::{append_decimal, dec_str};
use crate::tokens::{Token, TokenModel, TokenType};

verus! {

/// How many newlines lie strictly before position `i`.
pub open spec fn newlines_before(s: Seq<char>, i: int) -> nat
    decreases i,
{
    if i <= 0 || i > s.len() {
        0
    } else {
        newlines_before(s, i - 1) + if s[i - 1] == '\n' {
            1nat
        } else {
            0nat
        }
    }
}

/// The 1-based line of position `i`: one more than the newlines before
/// it, held within `usize`.
pub open spec fn line_at(s: Seq<char>, i: int) -> usize {
    if 1 + newlines_before(s, i) <= usize::MAX {
        (1 + newlines_before(s, i)) as usize
    } else {
        usize::MAX
    }
}

/// The line counter after one more newline.
pub open spec fn bump_line(line: usize) -> usize {
    if line < usize::MAX {
        (line + 1) as usize
    } else {
        line
    }
}

/// The first position at or after `i` that does not hold a literal
/// character.
pub open spec fn lit_end(s: Seq<char>, i: int) -> int
    decreases s.len() - i,
{
    if 0 <= i < s.len() && is_lit_char(s[i]) {
        lit_end(s, i + 1)
    } else {
        i
    }
}

/// The first position at or after `i` that does not hold an alphabetic
/// character.
pub open spec fn ident_end(s: Seq<char>, i: int) -> int
    decreases s.len() - i,
{
    if 0 <= i < s.len() && alphabetic(s[i]) {
        ident_end(s, i + 1)
    } else {
        i
    }
}

/// A lexical error.
pub ghost enum LexError {
    StrayEquals,
    StrayAmpersand,
    StrayPipe,
    MultipleDecimalPoints,
    MalformedNumber,
    UnexpectedChar { c: char, line: usize },
}

/// The message each lexical error is reported with.
pub open spec fn lex_msg(e: LexError) -> Seq<char> {
    match e {
        LexError::StrayEquals => "Expected '=' to follow '=' character."@,
        LexError::StrayAmpersand => "Expected '&' to follow '&' character."@,
        LexError::StrayPipe => "Expected '|' to follow '|' character."@,
        LexError::MultipleDecimalPoints => "Numbers may only have one decimal point."@,
        LexError::MalformedNumber => "Something went wrong when scanning number token."@,
        LexError::UnexpectedChar { c, line } => "Unexpected character '"@ + seq![c]
            + "' on line "@ + dec_str(line as nat) + "."@,
    }
}

/// What one step of the scanner does at position `i`.
pub ghost enum Step {
    Emit { kind: TokenType, end: int },
    Skip { end: int, newline: bool },
    Fail { e: LexError },
}

/// The scanner's treatment of a numeric literal starting at `i`: its
/// extent runs while digits and decimal points continue; more than one
/// point, or no digit at all, is an error.
pub open spec fn lit_step(s: Seq<char>, i: int) -> Step {
    let j = lit_end(s, i);
    let lex = s.subrange(i, j);
    if dots_in(lex) >= 2 {
        Step::Fail { e: LexError::MultipleDecimalPoints }
    } else if !has_digit(lex) {
        Step::Fail { e: LexError::MalformedNumber }
    } else {
        Step::Emit { kind: TokenType::Number(literal_bits(lex)), end: j }
    }
}

/// The classification of the character at position `i`, given the
/// current line.
pub open spec fn step_at(s: Seq<char>, i: int, line: usize) -> Step {
    let c = s[i];
    if c == '(' {
        Step::Emit { kind: TokenType::LeftParen, end: i + 1 }
    } else if c == ')' {
        Step::Emit { kind: TokenType::RightParen, end: i + 1 }
    } else if c == ',' {
        Step::Emit { kind: TokenType::Comma, end: i + 1 }
    } else if c == '+' {
        Step::Emit { kind: TokenType::Plus, end: i + 1 }
    } else if c == '-' {
        Step::Emit { kind: TokenType::Minus, end: i + 1 }
    } else if c == '*' {
        Step::Emit { kind: TokenType::Star, end: i + 1 }
    } else if c == '/' {
        Step::Emit { kind: TokenType::Slash, end: i + 1 }
    } else if c == '^' {
        Step::Emit { kind: TokenType::Carrot, end: i + 1 }
    } else if c == '.' {
        lit_step(s, i)
    } else if c == '=' {
        if i + 1 < s.len() && s[i + 1] == '=' {
            Step::Emit { kind: TokenType::EqualEqual, end: i + 2 }
        } else {
            Step::Fail { e: LexError::StrayEquals }
        }
    } else if c == '<' {
        if i + 1 < s.len() && s[i + 1] == '=' {
            Step::Emit { kind: TokenType::LessThanEqual, end: i + 2 }
        } else {
            Step::Emit { kind: TokenType::LessThan, end: i + 1 }
        }
    } else if c == '>' {
        if i + 1 < s.len() && s[i + 1] == '=' {
            Step::Emit { kind: TokenType::GreaterThanEqual, end: i + 2 }
        } else {
            Step::Emit { kind: TokenType::GreaterThan, end: i + 1 }
        }
    } else if c == '!' {
        if i + 1 < s.len() && s[i + 1] == '=' {
            Step::Emit { kind: TokenType::NotEqual, end: i + 2 }
        } else {
            Step::Emit { kind: TokenType::Not, end: i + 1 }
        }
    } else if c == '&' {
        if i + 1 < s.len() && s[i + 1] == '&' {
            Step::Emit { kind: TokenType::And, end: i + 2 }
        } else {
            Step::Fail { e: LexError::StrayAmpersand }
        }
    } else if c == '|' {
        if i + 1 < s.len() && s[i + 1] == '|' {
            Step::Emit { kind: TokenType::Or, end: i + 2 }
        } else {
            Step::Fail { e: LexError::StrayPipe }
        }
    } else if c == ' ' || c == '\r' || c == '\t' {
        Step::Skip { end: i + 1, newline: false }
    } else if c == '\n' {
        Step::Skip { end: i + 1, newline: true }
    } else if is_digit_char(c) {
        lit_step(s, i)
    } else if alphabetic(c) {
        Step::Emit { kind: TokenType::Identifier, end: ident_end(s, i) }
    } else {
        Step::Fail { e: LexError::UnexpectedChar { c, line } }
    }
}

/// A step's end position, held within the bounds the scanner moves in.
pub open spec fn clamp_end(i: int, j: int, len: int) -> int {
    if j <= i {
        i + 1
    } else if j > len {
        len
    } else {
        j
    }
}

/// The tokens of `s` from position `i` on, given the current line, or
/// the first lexical error.  The token sequence always ends with an
/// end-of-input token.
pub open spec fn scan_from(s: Seq<char>, i: int, line: usize) -> Result<Seq<TokenModel>, LexError>
    decreases s.len() - i,
{
    if !(0 <= i < s.len()) {
        Ok(seq![TokenModel { kind: TokenType::Eof, lexeme: Seq::<char>::empty(), line }])
    } else {
        match step_at(s, i, line) {
            Step::Fail { e } => Err(e),
            Step::Skip { end, newline } => scan_from(
                s,
                clamp_end(i, end, s.len() as int),
                if newline {
                    bump_line(line)
                } else {
                    line
                },
            ),
            Step::Emit { kind, end } => {
                let j = clamp_end(i, end, s.len() as int);
                match scan_from(s, j, line) {
                    Ok(rest) => Ok(
                        seq![TokenModel { kind, lexeme: s.subrange(i, j), line }] + rest,
                    ),
                    Err(e) => Err(e),
                }
            },
        }
    }
}

/// The tokens of a whole input, or its first lexical error.
pub open spec fn scan_spec(s: Seq<char>) -> Result<Seq<TokenModel>, LexError> {
    scan_from(s, 0, 1)
}

/// `scan_from` with the tokens already produced put in front.
pub open spec fn scan_cont(s: Seq<char>, i: int, line: usize, done: Seq<TokenModel>) -> Result<
    Seq<TokenModel>,
    LexError,
> {
    match scan_from(s, i, line) {
        Ok(rest) => Ok(done + rest),
        Err(e) => Err(e),
    }
}

pub(crate) proof fn lemma_lit_end_is(s: Seq<char>, i: int, j: int)
    requires
        0 <= i <= j <= s.len(),
        forall|k: int| i <= k < j ==> is_lit_char(s[k]),
        j == s.len() || !is_lit_char(s[j]),
    ensures
        lit_end(s, i) == j,
    decreases j - i,
{
    if i < j {
        lemma_lit_end_is(s, i + 1, j);
    }
}

proof fn lemma_ident_end_is(s: Seq<char>, i: int, j: int)
    requires
        0 <= i <= j <= s.len(),
        forall|k: int| i <= k < j ==> alphabetic(s[k]),
        j == s.len() || !alphabetic(s[j]),
    ensures
        ident_end(s, i) == j,
    decreases j - i,
{
    if i < j {
        lemma_ident_end_is(s, i + 1, j);
    }
}

proof fn lemma_step_emit(
    s: Seq<char>,
    i: int,
    line: usize,
    kind: TokenType,
    end: int,
    done: Seq<TokenModel>,
)
    requires
        0 <= i < s.len(),
        i < end <= s.len(),
        step_at(s, i, line) == (Step::Emit { kind, end }),
    ensures
        scan_cont(s, end, line, done.push(TokenModel { kind, lexeme: s.subrange(i, end), line }))
            == scan_cont(s, i, line, done),
{
    assert(clamp_end(i, end, s.len() as int) == end);
    let tok = TokenModel { kind, lexeme: s.subrange(i, end), line };
    match scan_from(s, end, line) {
        Ok(rest) => {
            assert(done.push(tok) + rest =~= done + (seq![tok] + rest));
        },
        Err(e) => {},
    }
}

proof fn lemma_step_skip(s: Seq<char>, i: int, line: usize, newline: bool, done: Seq<TokenModel>)
    requires
        0 <= i < s.len(),
        step_at(s, i, line) == (Step::Skip { end: i + 1, newline }),
    ensures
        scan_cont(
            s,
            i + 1,
            if newline {
                bump_line(line)
            } else {
                line
            },
            done,
        ) == scan_cont(s, i, line, done),
{
    assert(clamp_end(i, i + 1, s.len() as int) == i + 1);
}

proof fn lemma_step_fail(s: Seq<char>, i: int, line: usize, e: LexError)
    requires
        0 <= i < s.len(),
        step_at(s, i, line) == (Step::Fail { e }),
    ensures
        scan_from(s, i, line) == Err::<Seq<TokenModel>, LexError>(e),
{
}

/// The scanner: the input, its characters, the bounds of the lexeme
/// being scanned, and the current line.
pub struct Scanner<'a> {
    input: &'a str,
    chars: Vec<char>,
    start: usize,
    current: usize,
    line: usize,
}

/// The mathematical model of a scanner: the text, the position reached,
/// and the line reached.
pub ghost struct ScannerModel {
    pub text: Seq<char>,
    pub pos: int,
    pub line: usize,
}

impl<'a> View for Scanner<'a> {
    type V = ScannerModel;

    closed spec fn view(&self) -> ScannerModel {
        ScannerModel { text: self.chars@, pos: self.current as int, line: self.line }
    }
}

fn is_digit(c: char) -> (r: bool)
    ensures
        r == is_digit_char(c),
{
    '0' <= c && c <= '9'
}

fn msg_of(text: &str, e: Ghost<LexError>) -> (m: String)
    requires
        text@ == lex_msg(e@),
    ensures
        m@ == lex_msg(e@),
{
    String::from_str(text)
}

fn msg_unexpected_char(piece: &str, line: usize) -> (m: String)
    requires
        piece@.len() == 1,
    ensures
        m@ == lex_msg(LexError::UnexpectedChar { c: piece@[0], line }),
{
    let mut m = String::from_str("Unexpected character '");
    m.append(piece);
    m.append("' on line ");
    append_decimal(&mut m, line);
    m.append(".");
    proof {
        assert(piece@ =~= seq![piece@[0]]);
        assert(m@ =~= lex_msg(LexError::UnexpectedChar { c: piece@[0], line }));
    }
    m
}

impl<'a> Scanner<'a> {
    /// The scanner's characters mirror its input, and its position lies
    /// within them.
    pub closed spec fn wf(&self) -> bool {
        &&& self.input@ == self.chars@
        &&& self.current <= self.chars@.len()
    }

    pub fn new(input: &'a str) -> (s: Scanner<'a>)
        ensures
            s.wf(),
            s@ == (ScannerModel { text: input@, pos: 0, line: 1 }),
    {
        let n = input.unicode_len();
        let mut chars: Vec<char> = Vec::new();
        let mut i: usize = 0;
        while i < n
            invariant
                i <= n,
                n == input@.len(),
                chars@ =~= input@.subrange(0, i as int),
            decreases n - i,
        {
            chars.push(input.get_char(i));
            i = i + 1;
        }
        proof {
            assert(chars@ =~= input@);
        }
        Scanner { input, chars, start: 0, current: 0, line: 1 }
    }

    fn is_at_end(&self) -> (r: bool)
        ensures
            r == (self.current >= self.chars@.len()),
    {
        self.current >= self.chars.len()
    }

    fn get_current(&self) -> (c: char)
        requires
            self.wf(),
        ensures
            c == (if self.current < self.chars@.len() {
                self.chars@[self.current as int]
            } else {
                '\0'
            }),
    {
        if self.is_at_end() {
            return '\0';
        }
        self.chars[self.current]
    }

    fn advance(&mut self) -> (c: char)
        requires
            old(self).wf(),
            old(self).current < old(self).chars@.len(),
        ensures
            final(self).wf(),
            final(self).input == old(self).input,
            final(self).chars@ == old(self).chars@,
            final(self).start == old(self).start,
            final(self).line == old(self).line,
            final(self).current == old(self).current + 1,
            c == old(self).chars@[old(self).current as int],
    {
        let n = self.chars.len();
        assert(self.current < n);
        let temp = self.chars[self.current];
        self.current = self.current + 1;
        temp
    }

    fn add_token(&self, tokens: &mut Vec<Token>, token_type: TokenType)
        requires
            self.wf(),
            self.start <= self.current <= self.chars@.len(),
        ensures
            final(tokens).deep_view() == old(tokens).deep_view().push(
                TokenModel {
                    kind: token_type,
                    lexeme: self.chars@.subrange(self.start as int, self.current as int),
                    line: self.line,
                },
            ),
    {
        let text = self.input.substring_char(self.start, self.current);
        tokens.push(Token::new(token_type, text.to_owned(), self.line));
        proof {
            assert(tokens.deep_view() =~= old(tokens).deep_view().push(
                TokenModel {
                    kind: token_type,
                    lexeme: self.chars@.subrange(self.start as int, self.current as int),
                    line: self.line,
                },
            ));
        }
    }

    /// Scans the whole remaining input: the token sequence, ended by an
    /// end-of-input token, or the first lexical error's message.
    pub fn scan_tokens(&mut self) -> (r: Result<Vec<Token>, String>)
        requires
            old(self).wf(),
        ensures
            match scan_from(old(self)@.text, old(self)@.pos, old(self)@.line) {
                Ok(ts) => r matches Ok(v) && v.deep_view() == ts,
                Err(e) => r matches Err(m) && m@ == lex_msg(e),
            },
    {
        let ghost text0 = self.chars@;
        let ghost pos0 = self.current as int;
        let ghost line0 = self.line;
        let mut tokens: Vec<Token> = Vec::new();
        proof {
            assert(tokens.deep_view() =~= Seq::<TokenModel>::empty());
            match scan_from(text0, pos0, line0) {
                Ok(rest) => {
                    assert(tokens.deep_view() + rest =~= rest);
                },
                Err(e) => {},
            }
        }
        while !self.is_at_end()
            invariant
                self.wf(),
                text0 == old(self)@.text,
                pos0 == old(self)@.pos,
                line0 == old(self)@.line,
                self.chars@ == text0,
                scan_cont(text0, self.current as int, self.line, tokens.deep_view()) == scan_from(
                    text0,
                    pos0,
                    line0,
                ),
            decreases self.chars@.len() - self.current,
        {
            self.start = self.current;
            match self.scan_token(&mut tokens) {
                Ok(()) => {},
                Err(m) => {
                    return Err(m);
                },
            }
        }
        tokens.push(Token::new(TokenType::Eof, String::new(), self.line));
        proof {
            let eof = TokenModel {
                kind: TokenType::Eof,
                lexeme: Seq::<char>::empty(),
                line: self.line,
            };
            match scan_from(text0, pos0, line0) {
                Ok(ts) => {
                    assert(tokens.deep_view() =~= ts);
                },
                Err(e) => {},
            }
        }
        Ok(tokens)
    }

    fn scan_token(&mut self, tokens: &mut Vec<Token>) -> (r: Result<(), String>)
        requires
            old(self).wf(),
            old(self).start == old(self).current,
            old(self).current < old(self).chars@.len(),
        ensures
            final(self).wf(),
            final(self).input == old(self).input,
            final(self).chars@ == old(self).chars@,
            match r {
                Ok(()) => {
                    &&& old(self).current < final(self).current <= old(self).chars@.len()
                    &&& scan_cont(
                        old(self).chars@,
                        final(self).current as int,
                        final(self).line,
                        final(tokens).deep_view(),
                    ) == scan_cont(
                        old(self).chars@,
                        old(self).current as int,
                        old(self).line,
                        old(tokens).deep_view(),
                    )
                },
                Err(m) => scan_from(old(self).chars@, old(self).current as int, old(self).line)
                    matches Err(e) && m@ == lex_msg(e),
            },
    {
        let ghost s = self.chars@;
        let ghost i = self.current as int;
        let ghost line0 = self.line;
        let ghost done = tokens.deep_view();
        let c = self.advance();
        match c {
            '(' => {
                self.add_token(tokens, TokenType::LeftParen);
                proof {
                    lemma_step_emit(s, i, line0, TokenType::LeftParen, i + 1, done);
                }
                Ok(())
            },
            ')' => {
                self.add_token(tokens, TokenType::RightParen);
                proof {
                    lemma_step_emit(s, i, line0, TokenType::RightParen, i + 1, done);
                }
                Ok(())
            },
            ',' => {
                self.add_token(tokens, TokenType::Comma);
                proof {
                    lemma_step_emit(s, i, line0, TokenType::Comma, i + 1, done);
                }
                Ok(())
            },
            '+' => {
                self.add_token(tokens, TokenType::Plus);
                proof {
                    lemma_step_emit(s, i, line0, TokenType::Plus, i + 1, done);
                }
                Ok(())
            },
            '-' => {
                self.add_token(tokens, TokenType::Minus);
                proof {
                    lemma_step_emit(s, i, line0, TokenType::Minus, i + 1, done);
                }
                Ok(())
            },
            '*' => {
                self.add_token(tokens, TokenType::Star);
                proof {
                    lemma_step_emit(s, i, line0, TokenType::Star, i + 1, done);
                }
                Ok(())
            },
            '/' => {
                self.add_token(tokens, TokenType::Slash);
                proof {
                    lemma_step_emit(s, i, line0, TokenType::Slash, i + 1, done);
                }
                Ok(())
            },
            '^' => {
                self.add_token(tokens, TokenType::Carrot);
                proof {
                    lemma_step_emit(s, i, line0, TokenType::Carrot, i + 1, done);
                }
                Ok(())
            },
            '.' => self.number(tokens),
            '=' => {
                if self.get_current() == '=' {
                    self.advance();
                    self.add_token(tokens, TokenType::EqualEqual);
                    proof {
                        lemma_step_emit(s, i, line0, TokenType::EqualEqual, i + 2, done);
                    }
                    Ok(())
                } else {
                    proof {
                        lemma_step_fail(s, i, line0, LexError::StrayEquals);
                    }
                    Err(
                        msg_of(
                            "Expected '=' to follow '=' character.",
                            Ghost(LexError::StrayEquals),
                        ),
                    )
                }
            },
            '<' => {
                if self.get_current() == '=' {
                    self.advance();
                    self.add_token(tokens, TokenType::LessThanEqual);
                    proof {
                        lemma_step_emit(s, i, line0, TokenType::LessThanEqual, i + 2, done);
                    }
                } else {
                    self.add_token(tokens, TokenType::LessThan);
                    proof {
                        lemma_step_emit(s, i, line0, TokenType::LessThan, i + 1, done);
                    }
                }
                Ok(())
            },
            '>' => {
                if self.get_current() == '=' {
                    self.advance();
                    self.add_token(tokens, TokenType::GreaterThanEqual);
                    proof {
                        lemma_step_emit(s, i, line0, TokenType::GreaterThanEqual, i + 2, done);
                    }
                } else {
                    self.add_token(tokens, TokenType::GreaterThan);
                    proof {
                        lemma_step_emit(s, i, line0, TokenType::GreaterThan, i + 1, done);
                    }
                }
                Ok(())
            },
            '!' => {
                if self.get_current() == '=' {
                    self.advance();
                    self.add_token(tokens, TokenType::NotEqual);
                    proof {
                        lemma_step_emit(s, i, line0, TokenType::NotEqual, i + 2, done);
                    }
                } else {
                    self.add_token(tokens, TokenType::Not);
                    proof {
                        lemma_step_emit(s, i, line0, TokenType::Not, i + 1, done);
                    }
                }
                Ok(())
            },
            '&' => {
                if self.get_current() == '&' {
                    self.advance();
                    self.add_token(tokens, TokenType::And);
                    proof {
                        lemma_step_emit(s, i, line0, TokenType::And, i + 2, done);
                    }
                    Ok(())
                } else {
                    proof {
                        lemma_step_fail(s, i, line0, LexError::StrayAmpersand);
                    }
                    Err(
                        msg_of(
                            "Expected '&' to follow '&' character.",
                            Ghost(LexError::StrayAmpersand),
                        ),
                    )
                }
            },
            '|' => {
                if self.get_current() == '|' {
                    self.advance();
                    self.add_token(tokens, TokenType::Or);
                    proof {
                        lemma_step_emit(s, i, line0, TokenType::Or, i + 2, done);
                    }
                    Ok(())
                } else {
                    proof {
                        lemma_step_fail(s, i, line0, LexError::StrayPipe);
                    }
                    Err(msg_of("Expected '|' to follow '|' character.", Ghost(LexError::StrayPipe)))
                }
            },
            ' ' | '\r' | '\t' => {
                proof {
                    lemma_step_skip(s, i, line0, false, done);
                }
                Ok(())
            },
            '\n' => {
                self.line = self.line.saturating_add(1);
                proof {
                    lemma_step_skip(s, i, line0, true, done);
                }
                Ok(())
            },
            other => {
                if is_digit(other) {
                    self.number(tokens)
                } else if char_is_alphabetic(other) {
                    self.identifier(tokens);
                    Ok(())
                } else {
                    proof {
                        lemma_step_fail(
                            s,
                            i,
                            line0,
                            LexError::UnexpectedChar { c: s[i], line: line0 },
                        );
                    }
                    let piece = self.input.substring_char(self.start, self.start + 1);
                    proof {
                        assert(piece@ =~= seq![s[i]]);
                    }
                    Err(msg_unexpected_char(piece, self.line))
                }
            },
        }
    }

    fn identifier(&mut self, tokens: &mut Vec<Token>)
        requires
            old(self).wf(),
            old(self).current == old(self).start + 1,
            old(self).start < old(self).chars@.len(),
            alphabetic(old(self).chars@[old(self).start as int]),
            step_at(old(self).chars@, old(self).start as int, old(self).line) == (Step::Emit {
                kind: TokenType::Identifier,
                end: ident_end(old(self).chars@, old(self).start as int),
            }),
        ensures
            final(self).wf(),
            final(self).input == old(self).input,
            final(self).chars@ == old(self).chars@,
            final(self).line == old(self).line,
            old(self).start < final(self).current <= old(self).chars@.len(),
            scan_cont(
                old(self).chars@,
                final(self).current as int,
                final(self).line,
                final(tokens).deep_view(),
            ) == scan_cont(
                old(self).chars@,
                old(self).start as int,
                old(self).line,
                old(tokens).deep_view(),
            ),
    {
        let ghost s = self.chars@;
        let ghost st = self.start as int;
        let ghost done = tokens.deep_view();
        loop
            invariant
                self.wf(),
                self.input == old(self).input,
                self.chars@ == s,
                0 <= st == self.start as int,
                self.start == old(self).start,
                self.line == old(self).line,
                st < self.current as int <= s.len(),
                forall|k: int| st <= k < self.current as int ==> alphabetic(s[k]),
            ensures
                self.wf(),
                self.input == old(self).input,
                self.chars@ == s,
                self.start == old(self).start,
                self.line == old(self).line,
                st < self.current as int <= s.len(),
                forall|k: int| st <= k < self.current as int ==> alphabetic(s[k]),
                self.current as int == s.len() || !alphabetic(s[self.current as int]),
            decreases s.len() - self.current,
        {
            if self.is_at_end() {
                break ;
            }
            let c = self.get_current();
            if !char_is_alphabetic(c) {
                break ;
            }
            self.advance();
        }
        proof {
            lemma_ident_end_is(s, st, self.current as int);
        }
        self.add_token(tokens, TokenType::Identifier);
        proof {
            lemma_step_emit(s, st, self.line, TokenType::Identifier, self.current as int, done);
        }
    }

    fn number(&mut self, tokens: &mut Vec<Token>) -> (r: Result<(), String>)
        requires
            old(self).wf(),
            old(self).current == old(self).start + 1,
            old(self).start < old(self).chars@.len(),
            is_lit_char(old(self).chars@[old(self).start as int]),
            step_at(old(self).chars@, old(self).start as int, old(self).line) == lit_step(
                old(self).chars@,
                old(self).start as int,
            ),
        ensures
            final(self).wf(),
            final(self).input == old(self).input,
            final(self).chars@ == old(self).chars@,
            final(self).line == old(self).line,
            match r {
                Ok(()) => {
                    &&& old(self).start < final(self).current <= old(self).chars@.len()
                    &&& scan_cont(
                        old(self).chars@,
                        final(self).current as int,
                        final(self).line,
                        final(tokens).deep_view(),
                    ) == scan_cont(
                        old(self).chars@,
                        old(self).start as int,
                        old(self).line,
                        old(tokens).deep_view(),
                    )
                },
                Err(m) => scan_from(old(self).chars@, old(self).start as int, old(self).line)
                    matches Err(e) && m@ == lex_msg(e),
            },
    {
        let ghost s = self.chars@;
        let ghost st = self.start as int;
        let ghost line0 = self.line;
        let ghost done = tokens.deep_view();
        let n = self.chars.len();
        let first = self.chars[self.start];
        let mut dots: usize = if first == '.' {
            1
        } else {
            0
        };
        let mut saw_digit = is_digit(first);
        proof {
            let x = s.subrange(st, st + 1);
            assert(x =~= seq![s[st]]);
            assert(x.drop_last() =~= Seq::<char>::empty());
            assert(dots_in(Seq::<char>::empty()) == 0);
            assert(x.last() == s[st]);
            if is_digit_char(s[st]) {
                assert(is_digit_char(x[0]));
            }
            if has_digit(x) {
                let w = choose|w: int| 0 <= w < x.len() && is_digit_char(x[w]);
                assert(x[w] == s[st]);
            }
        }
        loop
            invariant
                self.wf(),
                self.input == old(self).input,
                self.chars@ == s,
                0 <= st == self.start as int,
                self.start == old(self).start,
                self.line == line0,
                s.len() <= usize::MAX,
                st < self.current as int <= s.len(),
                forall|k: int| st <= k < self.current as int ==> is_lit_char(s[k]),
                dots as int <= self.current as int - st,
                dots as nat == dots_in(s.subrange(st, self.current as int)),
                saw_digit == has_digit(s.subrange(st, self.current as int)),
            ensures
                self.wf(),
                self.input == old(self).input,
                self.chars@ == s,
                self.start == old(self).start,
                self.line == line0,
                st < self.current as int <= s.len(),
                forall|k: int| st <= k < self.current as int ==> is_lit_char(s[k]),
                dots as nat == dots_in(s.subrange(st, self.current as int)),
                saw_digit == has_digit(s.subrange(st, self.current as int)),
                self.current as int == s.len() || !is_lit_char(s[self.current as int]),
            decreases s.len() - self.current,
        {
            if self.is_at_end() {
                break ;
            }
            let c = self.get_current();
            if !is_digit(c) && c != '.' {
                break ;
            }
            assert(self.current < s.len());
            let ghost before = s.subrange(st, self.current as int);
            if c == '.' {
                dots = dots + 1;
            } else {
                saw_digit = true;
            }
            self.advance();
            proof {
                let after = s.subrange(st, self.current as int);
                assert(after.drop_last() =~= before);
                assert(after.last() == c);
                if has_digit(before) {
                    let w = choose|w: int| 0 <= w < before.len() && is_digit_char(before[w]);
                    assert(is_digit_char(after[w]));
                }
                if is_digit_char(c) {
                    assert(is_digit_char(after[after.len() - 1]));
                }
                if has_digit(after) {
                    let w = choose|w: int| 0 <= w < after.len() && is_digit_char(after[w]);
                    if w < after.len() - 1 {
                        assert(is_digit_char(before[w]));
                    }
                }
            }
        }
        proof {
            lemma_lit_end_is(s, st, self.current as int);
        }
        let ghost lex = s.subrange(st, self.current as int);
        if dots >= 2 {
            proof {
                lemma_step_fail(s, st, line0, LexError::MultipleDecimalPoints);
            }
            Err(
                msg_of(
                    "Numbers may only have one decimal point.",
                    Ghost(LexError::MultipleDecimalPoints),
                ),
            )
        } else if !saw_digit {
            proof {
                lemma_step_fail(s, st, line0, LexError::MalformedNumber);
            }
            Err(
                msg_of(
                    "Something went wrong when scanning number token.",
                    Ghost(LexError::MalformedNumber),
                ),
            )
        } else {
            let text = self.input.substring_char(self.start, self.current);
            let bits = parse_literal(text);
            self.add_token(tokens, TokenType::Number(bits));
            proof {
                lemma_step_emit(
                    s,
                    st,
                    line0,
                    TokenType::Number(literal_bits(lex)),
                    self.current as int,
                    done,
                );
            }
            Ok(())
        }
    }
}

proof fn lemma_lit_end_props(s: Seq<char>, i: int)
    requires
        0 <= i <= s.len(),
    ensures
        i <= lit_end(s, i) <= s.len(),
        forall|k: int| i <= k < lit_end(s, i) ==> is_lit_char(s[k]),
    decreases s.len() - i,
{
    if i < s.len() && is_lit_char(s[i]) {
        lemma_lit_end_props(s, i + 1);
    }
}

proof fn lemma_ident_end_props(s: Seq<char>, i: int)
    requires
        0 <= i <= s.len(),
    ensures
        i <= ident_end(s, i) <= s.len(),
        forall|k: int| i <= k < ident_end(s, i) ==> alphabetic(s[k]),
    decreases s.len() - i,
{
    if i < s.len() && alphabetic(s[i]) {
        lemma_ident_end_props(s, i + 1);
    }
}

proof fn lemma_no_newline_same_count(s: Seq<char>, i: int, j: int)
    requires
        0 <= i <= j <= s.len(),
        forall|k: int| i <= k < j ==> s[k] != '\n',
    ensures
        newlines_before(s, j) == newlines_before(s, i),
    decreases j - i,
{
    if i < j {
        lemma_no_newline_same_count(s, i, j - 1);
    }
}

proof fn lemma_step_keeps_lines(s: Seq<char>, i: int, line: usize)
    requires
        0 <= i < s.len(),
        forall|k: int| 0 <= k < s.len() && s[k] == '\n' ==> !alphabetic(s[k]),
    ensures
        match step_at(s, i, line) {
            Step::Emit { kind, end } => {
                let j = clamp_end(i, end, s.len() as int);
                i < j <= s.len() && line_at(s, j) == line_at(s, i)
            },
            Step::Skip { end, newline } => end == i + 1 && line_at(s, i + 1) == (if newline {
                bump_line(line_at(s, i))
            } else {
                line_at(s, i)
            }),
            Step::Fail { e } => true,
        },
{
    let len = s.len() as int;
    match step_at(s, i, line) {
        Step::Fail { e } => {},
        Step::Skip { end, newline } => {
            if newline {
                assert(s[i] == '\n');
                assert(newlines_before(s, i + 1) == newlines_before(s, i) + 1);
            } else {
                assert(s[i] != '\n');
                assert(newlines_before(s, i + 1) == newlines_before(s, i));
            }
        },
        Step::Emit { kind, end } => {
            let j = clamp_end(i, end, len);
            assert(i < j <= len) by {
                if s[i] == '.' || is_digit_char(s[i]) {
                    lemma_lit_end_props(s, i);
                } else if !(s[i] == '(' || s[i] == ')' || s[i] == ',' || s[i] == '+' || s[i] == '-'
                    || s[i] == '*' || s[i] == '/' || s[i] == '^' || s[i] == '=' || s[i] == '<'
                    || s[i] == '>' || s[i] == '!' || s[i] == '&' || s[i] == '|') {
                    lemma_ident_end_props(s, i);
                }
            }
            assert(forall|k: int| i <= k < j ==> s[k] != '\n') by {
                if s[i] == '.' || is_digit_char(s[i]) {
                    lemma_lit_end_props(s, i);
                    assert(forall|k: int| i <= k < j ==> is_lit_char(s[k]));
                } else if !(s[i] == '(' || s[i] == ')' || s[i] == ',' || s[i] == '+' || s[i] == '-'
                    || s[i] == '*' || s[i] == '/' || s[i] == '^' || s[i] == '=' || s[i] == '<'
                    || s[i] == '>' || s[i] == '!' || s[i] == '&' || s[i] == '|') {
                    lemma_ident_end_props(s, i);
                    assert(forall|k: int| i <= k < j ==> alphabetic(s[k]));
                }
            }
            lemma_no_newline_same_count(s, i, j);
        },
    }
}

proof fn lemma_scan_from_unexpected(s: Seq<char>, i: int)
    requires
        0 <= i <= s.len(),
        forall|k: int| 0 <= k < s.len() && s[k] == '\n' ==> !alphabetic(s[k]),
    ensures
        scan_from(s, i, line_at(s, i)) matches Err(LexError::UnexpectedChar { c, line })
            ==> exists|k: int| i <= k < s.len() && s[k] == c && line == line_at(s, k),
    decreases s.len() - i,
{
    if 0 <= i < s.len() {
        let line = line_at(s, i);
        let len = s.len() as int;
        lemma_step_keeps_lines(s, i, line);
        match step_at(s, i, line) {
            Step::Fail { e } => {},
            Step::Skip { end, newline } => {
                assert(clamp_end(i, end, len) == i + 1);
                lemma_scan_from_unexpected(s, i + 1);
            },
            Step::Emit { kind, end } => {
                lemma_scan_from_unexpected(s, clamp_end(i, end, len));
            },
        }
    }
}

/// A token stands at position `k` of the text when its lexeme is the
/// span of the text starting there and its line is the line of that
/// position.
pub open spec fn token_at(s: Seq<char>, t: TokenModel, k: int) -> bool {
    &&& 0 <= k <= s.len()
    &&& k + t.lexeme.len() <= s.len()
    &&& t.lexeme == s.subrange(k, k + t.lexeme.len())
    &&& t.line == line_at(s, k)
}

/// The token stands at some position of the text at or after `lo`.
pub open spec fn placed_after(s: Seq<char>, t: TokenModel, lo: int) -> bool {
    exists|k: int| lo <= k && #[trigger] token_at(s, t, k)
}

proof fn lemma_placed_weaken(s: Seq<char>, t: TokenModel, lo1: int, lo2: int)
    requires
        lo2 <= lo1,
        placed_after(s, t, lo1),
    ensures
        placed_after(s, t, lo2),
{
    let k = choose|k: int| lo1 <= k && #[trigger] token_at(s, t, k);
    assert(lo2 <= k && token_at(s, t, k));
}

proof fn lemma_scan_from_token_lines(s: Seq<char>, i: int)
    requires
        0 <= i <= s.len(),
        forall|k: int| 0 <= k < s.len() && s[k] == '\n' ==> !alphabetic(s[k]),
    ensures
        scan_from(s, i, line_at(s, i)) matches Ok(ts) ==> forall|j: int|
            0 <= j < ts.len() ==> #[trigger] placed_after(s, ts[j], i),
    decreases s.len() - i,
{
    let line = line_at(s, i);
    let len = s.len() as int;
    match scan_from(s, i, line) {
        Err(e) => {},
        Ok(ts) => {
            if !(0 <= i < s.len()) {
                let eof = TokenModel { kind: TokenType::Eof, lexeme: Seq::<char>::empty(), line };
                assert(eof.lexeme =~= s.subrange(len, len + eof.lexeme.len()));
                assert forall|j: int| 0 <= j < ts.len() implies #[trigger] placed_after(
                    s,
                    ts[j],
                    i,
                ) by {
                    assert(ts[j] == eof);
                    assert(i <= len && token_at(s, ts[j], len));
                }
            } else {
                lemma_step_keeps_lines(s, i, line);
                match step_at(s, i, line) {
                    Step::Fail { e } => {},
                    Step::Skip { end, newline } => {
                        assert(clamp_end(i, end, len) == i + 1);
                        lemma_scan_from_token_lines(s, i + 1);
                        assert forall|j: int| 0 <= j < ts.len() implies #[trigger] placed_after(
                            s,
                            ts[j],
                            i,
                        ) by {
                            assert(placed_after(s, ts[j], i + 1));
                            lemma_placed_weaken(s, ts[j], i + 1, i);
                        }
                    },
                    Step::Emit { kind, end } => {
                        let j2 = clamp_end(i, end, len);
                        lemma_scan_from_token_lines(s, j2);
                        match scan_from(s, j2, line) {
                            Err(e) => {},
                            Ok(rest) => {
                                let tok = TokenModel { kind, lexeme: s.subrange(i, j2), line };
                                assert(ts == seq![tok] + rest);
                                assert(tok.lexeme.len() == j2 - i);
                                assert(tok.lexeme =~= s.subrange(i, i + tok.lexeme.len()));
                                assert(token_at(s, tok, i));
                                assert forall|m: int| 0 <= m < ts.len() implies
                                    #[trigger] placed_after(s, ts[m], i) by {
                                    if m == 0 {
                                        assert(ts[m] == tok);
                                        assert(i <= i && token_at(s, ts[m], i));
                                    } else {
                                        assert(ts[m] == rest[m - 1]);
                                        assert(placed_after(s, rest[m - 1], j2));
                                        lemma_placed_weaken(s, ts[m], j2, i);
                                    }
                                }
                            },
                        }
                    },
                }
            }
        },
    }
}

/// Every token of a scan reports the 1-based line, counted by the
/// newlines before it, of the very span of text its lexeme occupies —
/// and so does every error built from a token's line.  The premise
/// only rules out a newline counting as alphabetic, which
/// `char::is_alphabetic` never reports.
pub proof fn lemma_token_lines_count_newlines(s: Seq<char>)
    requires
        forall|k: int| 0 <= k < s.len() && s[k] == '\n' ==> !alphabetic(s[k]),
    ensures
        scan_spec(s) matches Ok(ts) ==> forall|j: int|
            0 <= j < ts.len() ==> #[trigger] placed_after(s, ts[j], 0),
{
    assert(newlines_before(s, 0) == 0);
    assert(line_at(s, 0) == 1);
    lemma_scan_from_token_lines(s, 0);
}

/// An unexpected-character error names a character of the text and the
/// 1-based line, counted by the newlines before it, on which that
/// character stands.  The premise only rules out a newline counting as
/// alphabetic, which `char::is_alphabetic` never reports.
pub proof fn lemma_unexpected_char_reports_its_line(s: Seq<char>)
    requires
        forall|k: int| 0 <= k < s.len() && s[k] == '\n' ==> !alphabetic(s[k]),
    ensures
        scan_spec(s) matches Err(LexError::UnexpectedChar { c, line }) ==> exists|k: int|
            0 <= k < s.len() && s[k] == c && line == line_at(s, k),
{
    assert(line_at(s, 0) == 1);
    lemma_scan_from_unexpected(s, 0);
}

/// A scan that succeeds always ends its tokens with an end-of-input
/// token.
pub proof fn lemma_scan_ends_eof(s: Seq<char>, i: int, line: usize)
    ensures
        scan_from(s, i, line) matches Ok(ts) ==> ts.len() >= 1 && ts.last().kind is Eof,
    decreases s.len() - i,
{
    if 0 <= i < s.len() {
        match step_at(s, i, line) {
            Step::Fail { e } => {},
            Step::Skip { end, newline } => {
                lemma_scan_ends_eof(
                    s,
                    clamp_end(i, end, s.len() as int),
                    if newline {
                        bump_line(line)
                    } else {
                        line
                    },
                );
            },
            Step::Emit { kind, end } => {
                lemma_scan_ends_eof(s, clamp_end(i, end, s.len() as int), line);
            },
        }
    }
}

/// Scans a whole input.
pub fn scan_from_input(input: &str) -> (r: Result<Vec<Token>, String>)
    ensures
        match scan_spec(input@) {
            Ok(ts) => r matches Ok(v) && v.deep_view() == ts,
            Err(e) => r matches Err(m) && m@ == lex_msg(e),
        },
{
    let mut s = Scanner::new(input);
    s.scan_tokens()
}

} // verus!
