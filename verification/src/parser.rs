//! The parser: precedence-climbing recursive descent over the token stream,
//! with two tokens of context and an accumulating diagnostic list. Malformed
//! input is recorded, never fatal: every entry point terminates on every
//! input, which the termination measure over the remaining text guarantees.
use vstd::prelude::*;
use vstd::string::StringExecFns;
use crate::ast::{Expression, Statement, Infix, Prefix, ExprV, StmtV, stmts_view, stmt_view, expr_view};
use crate::lexer::{Lexer, token_scan, skip_ws_from, lemma_token_scan_unique};
use crate::token::{Token, token_eq_spec, token_text, lemma_token_eq_shape};

verus! {

/// The operator precedence levels. `order_rank` orders them; assignment
/// binds looser than every other binary operator — one step above
/// `Lowest` — so `x = a + b` groups as `x = (a + b)`.
#[derive(Debug, Clone, Copy, PartialEq, Eq, Structural)]
pub enum Order {
    Lowest,
    Equals,
    LessGreater,
    Sum,
    Product,
    Prefix,
    Call,
    Index,
    Assign,
}

/// The precedence level as a number. Assignment binds looser than every
/// other binary operator — one step above `Lowest` — so `x = a + b`
/// groups as `x = (a + b)`.
pub open spec fn order_rank(o: Order) -> int {
    match o {
        Order::Lowest => 0,
        Order::Assign => 1,
        Order::Equals => 2,
        Order::LessGreater => 3,
        Order::Sum => 4,
        Order::Product => 5,
        Order::Prefix => 6,
        Order::Call => 7,
        Order::Index => 8,
    }
}

impl Order {
    /// The precedence level as a number.
    pub fn rank(self) -> (r: u8)
        ensures
            r as int == order_rank(self),
    {
        match self {
            Order::Lowest => 0,
            Order::Assign => 1,
            Order::Equals => 2,
            Order::LessGreater => 3,
            Order::Sum => 4,
            Order::Product => 5,
            Order::Prefix => 6,
            Order::Call => 7,
            Order::Index => 8,
        }
    }

    /// Whether this level binds looser than the other.
    pub fn lt(self, other: Order) -> (r: bool)
        ensures
            r == (order_rank(self) < order_rank(other)),
    {
        self.rank() < other.rank()
    }
}

/// The kinds of parse diagnostic.
#[derive(Debug, Clone, Copy, PartialEq, Eq, Structural)]
pub enum Error {
    UnexpectedToken,
}

/// One recorded diagnostic: its kind and a readable message.
#[derive(Debug, Clone)]
pub struct ParseError {
    kind: Error,
    msg: String,
}

pub type ParseErrors = Vec<ParseError>;

impl ParseError {
    /// The diagnostic's kind.
    pub closed spec fn kind_spec(self) -> Error {
        self.kind
    }

    fn new(kind: Error, msg: String) -> (r: ParseError)
        ensures
            r.kind_spec() == kind,
    {
        ParseError { kind, msg }
    }

    /// Copies the diagnostic.
    fn duplicate(&self) -> (r: ParseError)
        ensures
            r == *self,
    {
        ParseError { kind: self.kind, msg: self.msg.clone() }
    }

    /// The diagnostic as one readable line.
    pub fn to_text(&self) -> String {
        let mut s = String::from_str("Unexpected Token!: ");
        s.append(self.msg.as_str());
        s
    }
}

/// The precedence level of a token in operand position; tokens that are no
/// operator sit at the loosest level.
pub open spec fn token_order_spec(t: Token) -> Order {
    match t {
        Token::Equal => Order::Equals,
        Token::NotEqual => Order::Equals,
        Token::LessThan => Order::LessGreater,
        Token::LessThanAndEqual => Order::LessGreater,
        Token::MoreThan => Order::LessGreater,
        Token::MoreThanAndEqual => Order::LessGreater,
        Token::Plus => Order::Sum,
        Token::Minus => Order::Sum,
        Token::Asterisk => Order::Product,
        Token::Slash => Order::Product,
        Token::LeftBracket => Order::Index,
        Token::LeftParanthesis => Order::Call,
        Token::Assign => Order::Assign,
        _ => Order::Lowest,
    }
}

/// What the parser holds: the current token, one token of lookahead, the
/// scanner, and the diagnostics gathered so far.
pub struct Parser {
    current_token: Token,
    next_token: Token,
    lexer: Lexer,
    err_list: ParseErrors,
}

/// The token-budget cost of a buffered token.
pub open spec fn tokcost(t: Token) -> int {
    if t is Eof {
        0
    } else {
        1
    }
}

impl Parser {
    /// The text being parsed.
    pub closed spec fn text(self) -> Seq<char> {
        self.lexer.text()
    }

    /// The scanner's position in the text.
    pub closed spec fn pos(self) -> int {
        self.lexer.at()
    }

    /// The token under the cursor.
    pub closed spec fn current(self) -> Token {
        self.current_token
    }

    /// The lookahead token.
    pub closed spec fn peek(self) -> Token {
        self.next_token
    }

    /// The diagnostics recorded so far.
    pub closed spec fn errors(self) -> Seq<ParseError> {
        self.err_list@
    }

    /// Well-formedness: the scanner sits inside the text, a scanner at the
    /// end is what put `Eof` into the lookahead, and `Eof` under the cursor
    /// means the lookahead is `Eof` too.
    pub closed spec fn wf(self) -> bool {
        &&& 0 <= self.lexer.at() <= self.lexer.text().len()
        &&& (self.next_token is Eof ==> self.lexer.at() == self.lexer.text().len())
        &&& (self.current_token is Eof ==> self.next_token is Eof)
    }

    /// How much input is left: remaining text plus buffered tokens. Every
    /// step of the parser leaves it no larger, and consuming a token
    /// shrinks it; that is what makes every parse terminate.
    pub closed spec fn measure(self) -> int {
        self.lexer.text().len() - self.lexer.at() + tokcost(self.current_token) + tokcost(
            self.next_token,
        )
    }
}

/// What every parsing step guarantees: the text stays, well-formedness
/// stays, the input budget never grows and only shrinks when a token was
/// consumed, and diagnostics are only added.
pub open spec fn frame(pre: Parser, post: Parser) -> bool {
    &&& post.wf()
    &&& post.text() == pre.text()
    &&& post.measure() <= pre.measure()
    &&& (post.measure() == pre.measure() ==> post.current() == pre.current())
    &&& pre.errors().len() <= post.errors().len()
}

/// The parser stands on an integer literal that ends the input: an integer
/// under the cursor, a semicolon as lookahead, the scanner at the end.
pub open spec fn at_integer_statement(p: Parser) -> bool {
    &&& p.current() matches Token::Int(_)
    &&& p.peek() is Semicolon
    &&& p.pos() == p.text().len()
}

/// The token of each binary operator.
pub open spec fn infix_token(op: Infix) -> Token {
    match op {
        Infix::Plus => Token::Plus,
        Infix::Minus => Token::Minus,
        Infix::Divide => Token::Slash,
        Infix::Multiply => Token::Asterisk,
        Infix::Equal => Token::Equal,
        Infix::NotEqual => Token::NotEqual,
        Infix::MoreThanAndEqual => Token::MoreThanAndEqual,
        Infix::MoreThan => Token::MoreThan,
        Infix::LessThanAndEqual => Token::LessThanAndEqual,
        Infix::LessThan => Token::LessThan,
        Infix::Assign => Token::Assign,
    }
}

/// The binary operator a token denotes, if any.
pub open spec fn token_infix_spec(t: Token) -> Option<Infix> {
    match t {
        Token::Plus => Some(Infix::Plus),
        Token::Minus => Some(Infix::Minus),
        Token::Slash => Some(Infix::Divide),
        Token::Asterisk => Some(Infix::Multiply),
        Token::Equal => Some(Infix::Equal),
        Token::NotEqual => Some(Infix::NotEqual),
        Token::LessThanAndEqual => Some(Infix::LessThanAndEqual),
        Token::LessThan => Some(Infix::LessThan),
        Token::MoreThanAndEqual => Some(Infix::MoreThanAndEqual),
        Token::MoreThan => Some(Infix::MoreThan),
        Token::Assign => Some(Infix::Assign),
        _ => None,
    }
}

/// The parser stands on a two-literal operator statement that ends the
/// input: an integer under the cursor, the operator as lookahead, and the
/// text from the scanner's position holding one more integer and the
/// closing semicolon.
pub open spec fn at_infix_statement(p: Parser, a: i64, op: Infix, b: i64, m: int) -> bool {
    &&& p.current() == Token::Int(a)
    &&& p.peek() == infix_token(op)
    &&& token_scan(p.text(), p.pos(), Token::Int(b), m)
    &&& token_scan(p.text(), m, Token::Semicolon, p.text().len() as int)
}

/// The parser stands on a binary operator whose right operand is the last
/// integer of the input, before the closing semicolon.
pub open spec fn at_operator_tail(p: Parser, op: Infix, b: i64) -> bool {
    &&& p.current() == infix_token(op)
    &&& p.peek() == Token::Int(b)
    &&& token_scan(p.text(), p.pos(), Token::Semicolon, p.text().len() as int)
}

/// The parser stands on an integer atom: an integer under the cursor and a
/// lookahead that extends no expression (a terminator or delimiter, not the
/// end of input).
pub open spec fn at_integer_atom(p: Parser) -> bool {
    &&& p.current() matches Token::Int(_)
    &&& token_order_spec(p.peek()) == Order::Lowest
    &&& !(p.peek() is Eof)
    &&& !(p.peek() is Let)
}

/// The parser stands on a bare `let`: the keyword under the cursor, the
/// bound name as lookahead, and the closing semicolon next in the text.
pub open spec fn at_bare_let(p: Parser, m: int) -> bool {
    &&& p.current() is Let
    &&& p.peek() matches Token::Identifier(_)
    &&& token_scan(p.text(), p.pos(), Token::Semicolon, m)
}

/// The parser stands on `let <name> = <integer> ;`.
pub open spec fn at_let_integer(p: Parser, v: i64, m1: int, m2: int, m3: int) -> bool {
    &&& p.current() is Let
    &&& p.peek() matches Token::Identifier(_)
    &&& token_scan(p.text(), p.pos(), Token::Assign, m1)
    &&& token_scan(p.text(), m1, Token::Int(v), m2)
    &&& token_scan(p.text(), m2, Token::Semicolon, m3)
}

/// The parser stands on a `let` whose name is followed by neither `=` nor
/// a semicolon.
pub open spec fn at_let_missing_assign(p: Parser, t: Token, m: int) -> bool {
    &&& p.current() is Let
    &&& p.peek() matches Token::Identifier(_)
    &&& token_scan(p.text(), p.pos(), t, m)
    &&& !(t is Semicolon)
    &&& !(t is Assign)
}

/// The parser stands on `return <integer> ;`.
pub open spec fn at_return_integer(p: Parser, v: i64, m: int) -> bool {
    &&& p.current() is Return
    &&& p.peek() == Token::Int(v)
    &&& token_scan(p.text(), p.pos(), Token::Semicolon, m)
}

/// The parser stands before a one-integer expression list: the integer as
/// lookahead and the closing token next in the text.
pub open spec fn at_one_item_list(p: Parser, end: Token, v: i64, m: int) -> bool {
    &&& p.peek() == Token::Int(v)
    &&& token_scan(p.text(), p.pos(), end, m)
    &&& token_order_spec(end) == Order::Lowest
    &&& !(end is Eof)
    &&& !(end is Comma)
    &&& !(end is Int)
    &&& !(end is Let)
}

/// The parser stands before a one-name parameter list: the name as
/// lookahead and the closing parenthesis next in the text.
pub open spec fn at_one_param_list(p: Parser, m: int) -> bool {
    &&& p.peek() matches Token::Identifier(_)
    &&& token_scan(p.text(), p.pos(), Token::RightParanthesis, m)
}

/// The parser stands on `if (<integer>) { }` with no `else` after it.
pub open spec fn at_if_integer_empty(
    p: Parser,
    v: i64,
    t5: Token,
    m1: int,
    m2: int,
    m3: int,
    m4: int,
    m5: int,
) -> bool {
    &&& p.current() is If
    &&& p.peek() is LeftParanthesis
    &&& token_scan(p.text(), p.pos(), Token::Int(v), m1)
    &&& token_scan(p.text(), m1, Token::RightParanthesis, m2)
    &&& token_scan(p.text(), m2, Token::LeftBrace, m3)
    &&& token_scan(p.text(), m3, Token::RightBrace, m4)
    &&& token_scan(p.text(), m4, t5, m5)
    &&& !(t5 is Else)
}

/// The parser stands on `fn <name> ( <param> ) { }`: the keyword under the
/// cursor, the function's name as lookahead, then the parenthesized
/// one-name parameter list and an empty body in the text.
pub open spec fn at_fn_one_param_empty(
    p: Parser,
    pn: Token,
    m1: int,
    m2: int,
    m3: int,
    m4: int,
    m5: int,
) -> bool {
    &&& p.current() is Fn
    &&& p.peek() matches Token::Identifier(_)
    &&& token_scan(p.text(), p.pos(), Token::LeftParanthesis, m1)
    &&& pn matches Token::Identifier(_)
    &&& token_scan(p.text(), m1, pn, m2)
    &&& token_scan(p.text(), m2, Token::RightParanthesis, m3)
    &&& token_scan(p.text(), m3, Token::LeftBrace, m4)
    &&& token_scan(p.text(), m4, Token::RightBrace, m5)
}

/// The parser stands on the matrix literal `[{<integer>}]`.
pub open spec fn at_array_one_cell(p: Parser, v: i64, m1: int, m2: int, m3: int) -> bool {
    &&& p.current() is LeftBracket
    &&& p.peek() is LeftBrace
    &&& token_scan(p.text(), p.pos(), Token::Int(v), m1)
    &&& token_scan(p.text(), m1, Token::RightBrace, m2)
    &&& token_scan(p.text(), m2, Token::RightBracket, m3)
}

/// The parser stands on an operator whose right side is a tighter-binding
/// operator statement ending the input: the first operator under the
/// cursor, then integer, operator, integer, semicolon in the text, the
/// second operator binding tighter than the first.
pub open spec fn at_operator_chain(
    p: Parser,
    op1: Infix,
    a2: i64,
    op2: Infix,
    b2: i64,
    m1: int,
    m2: int,
) -> bool {
    &&& p.current() == infix_token(op1)
    &&& p.peek() == Token::Int(a2)
    &&& token_scan(p.text(), p.pos(), infix_token(op2), m1)
    &&& token_scan(p.text(), m1, Token::Int(b2), m2)
    &&& token_scan(p.text(), m2, Token::Semicolon, p.text().len() as int)
    &&& order_rank(token_order_spec(infix_token(op1))) < order_rank(
        token_order_spec(infix_token(op2)),
    )
}

/// The parser stands on a two-operator statement that ends the input, the
/// second operator binding tighter than the first — the shape whose right
/// grouping shows precedence climbing at work.
pub open spec fn at_infix2_statement(
    p: Parser,
    a1: i64,
    op1: Infix,
    a2: i64,
    op2: Infix,
    b2: i64,
    m1: int,
    m2: int,
    m3: int,
) -> bool {
    &&& p.current() == Token::Int(a1)
    &&& p.peek() == infix_token(op1)
    &&& token_scan(p.text(), p.pos(), Token::Int(a2), m1)
    &&& token_scan(p.text(), m1, infix_token(op2), m2)
    &&& token_scan(p.text(), m2, Token::Int(b2), m3)
    &&& token_scan(p.text(), m3, Token::Semicolon, p.text().len() as int)
    &&& order_rank(token_order_spec(infix_token(op1))) < order_rank(
        token_order_spec(infix_token(op2)),
    )
}

/// The parser stands before a one-statement block body: an integer
/// statement and then the closing brace in the text.
pub open spec fn at_one_statement_block(p: Parser, v: i64, m1: int, m2: int) -> bool {
    &&& p.peek() == Token::Int(v)
    &&& token_scan(p.text(), p.pos(), Token::Semicolon, m1)
    &&& token_scan(p.text(), m1, Token::RightBrace, m2)
}

/// The parser stands on the closing semicolon of the input.
pub open spec fn at_closing_semicolon(p: Parser) -> bool {
    &&& p.current() is Semicolon
    &&& p.peek() is Eof
    &&& p.pos() == p.text().len()
}

impl Parser {
    /// A parser over the given scanner, with the first two tokens read.
    pub fn new(lexer_: Lexer) -> (p: Parser)
        ensures
            p.wf(),
            p.text() == lexer_.text(),
            p.errors().len() == 0,
            exists|mid: int|
                token_scan(lexer_.text(), lexer_.at(), p.current(), mid) && token_scan(
                    lexer_.text(),
                    mid,
                    p.peek(),
                    p.pos(),
                ),
    {
        // pins the scanner's position inside its text
        let _position = lexer_.position();
        let mut parser = Parser {
            lexer: lexer_,
            current_token: Token::Illegal,
            next_token: Token::Illegal,
            err_list: Vec::new(),
        };
        parser.next_token();
        let ghost mid = parser.pos();
        parser.next_token();
        proof {
            assert(token_scan(lexer_.text(), lexer_.at(), parser.current(), mid) && token_scan(
                lexer_.text(),
                mid,
                parser.peek(),
                parser.pos(),
            ));
        }
        parser
    }

    /// Hands out a copy of the recorded diagnostics.
    pub fn get_errors(&mut self) -> (r: ParseErrors)
        ensures
            *final(self) == *old(self),
            r@ == final(self).errors(),
    {
        let mut r: ParseErrors = Vec::new();
        let mut i: usize = 0;
        while i < self.err_list.len()
            invariant
                *self == *old(self),
                i <= self.err_list@.len(),
                r@.len() == i,
                forall|j: int| 0 <= j < i ==> #[trigger] r@[j] == self.err_list@[j],
            decreases self.err_list@.len() - i,
        {
            r.push(self.err_list[i].duplicate());
            i = i + 1;
        }
        proof {
            assert(r@ =~= self.err_list@);
        }
        r
    }

    /// Records that the lookahead was not the expected token.
    fn error_next(&mut self, tok: &Token)
        requires
            old(self).wf(),
        ensures
            frame(*old(self), *final(self)),
            final(self).current() == old(self).current(),
            final(self).peek() == old(self).peek(),
            final(self).pos() == old(self).pos(),
            final(self).measure() == old(self).measure(),
            final(self).errors().len() == old(self).errors().len() + 1,
            final(self).errors().take(old(self).errors().len() as int) == old(self).errors(),
            final(self).errors().last().kind_spec() == Error::UnexpectedToken,
    {
        let mut msg = String::from_str("expected ");
        msg.append(token_text(tok).as_str());
        msg.append(", but found ");
        msg.append(token_text(&self.next_token).as_str());
        msg.append(" instead");
        self.err_list.push(ParseError::new(Error::UnexpectedToken, msg));
        proof {
            assert(self.err_list@.take(old(self).err_list@.len() as int) =~= old(
                self,
            ).err_list@);
        }
    }

    /// Records that no prefix rule applies to the current token.
    fn error_no_prefix(&mut self)
        requires
            old(self).wf(),
        ensures
            frame(*old(self), *final(self)),
            final(self).current() == old(self).current(),
            final(self).peek() == old(self).peek(),
            final(self).pos() == old(self).pos(),
            final(self).measure() == old(self).measure(),
            final(self).errors().len() == old(self).errors().len() + 1,
            final(self).errors().take(old(self).errors().len() as int) == old(self).errors(),
            final(self).errors().last().kind_spec() == Error::UnexpectedToken,
    {
        let mut msg = String::from_str("no prefix for ");
        msg.append(token_text(&self.current_token).as_str());
        msg.append(" found");
        self.err_list.push(ParseError::new(Error::UnexpectedToken, msg));
        proof {
            assert(self.err_list@.take(old(self).err_list@.len() as int) =~= old(
                self,
            ).err_list@);
        }
    }

    /// Steps the cursor: the lookahead becomes current, and the scanner
    /// yields a fresh lookahead.
    pub fn next_token(&mut self)
        requires
            old(self).wf(),
        ensures
            frame(*old(self), *final(self)),
            final(self).current() == old(self).peek(),
            token_scan(old(self).text(), old(self).pos(), final(self).peek(), final(self).pos()),
            !(old(self).current() is Eof) ==> final(self).measure() < old(self).measure(),
            old(self).current() is Eof ==> final(self).current() is Eof,
            final(self).errors() == old(self).errors(),
    {
        let ghost pre = *self;
        let mut nt = self.lexer.next_token();
        core::mem::swap(&mut self.next_token, &mut nt);
        self.current_token = nt;
        proof {
            if pre.peek() is Eof {
                assert(pre.lexer.at() == pre.text().len());
                assert(skip_ws_from(pre.text(), pre.text().len() as int) == pre.text().len());
                assert(self.next_token is Eof);
            }
            assert(self.wf());
        }
    }

    /// Whether the lookahead equals the given token.
    fn next_token_is(&self, tok: &Token) -> (r: bool)
        ensures
            r == token_eq_spec(self.peek(), *tok),
    {
        self.next_token == *tok
    }

    /// Whether the current token equals the given token.
    fn current_token_is(&self, tok: &Token) -> (r: bool)
        ensures
            r == token_eq_spec(self.current(), *tok),
    {
        self.current_token == *tok
    }

    /// Steps past the lookahead where it is the expected token, records a
    /// diagnostic otherwise.
    fn expect_next_token(&mut self, token: Token) -> (r: bool)
        requires
            old(self).wf(),
        ensures
            frame(*old(self), *final(self)),
            r == token_eq_spec(old(self).peek(), token),
            r ==> final(self).current() == old(self).peek() && final(self).errors() == old(
                self,
            ).errors() && token_scan(
                old(self).text(),
                old(self).pos(),
                final(self).peek(),
                final(self).pos(),
            ),
            !r ==> final(self).current() == old(self).current() && final(self).peek() == old(
                self,
            ).peek() && final(self).measure() == old(self).measure() && final(self).errors().len()
                == old(self).errors().len() + 1 && final(self).errors().take(
                old(self).errors().len() as int,
            ) == old(self).errors() && final(self).errors().last().kind_spec()
                == Error::UnexpectedToken,
    {
        if self.next_token_is(&token) {
            proof {
                if old(self).current() is Eof {
                    assert(old(self).peek() is Eof);
                    assert(!(token_eq_spec(old(self).peek(), token) && !(token is Eof)));
                }
            }
            self.next_token();
            true
        } else {
            self.error_next(&token);
            false
        }
    }

    /// The precedence level of a token.
    fn token_order(token: &Token) -> (r: Order)
        ensures
            r == token_order_spec(*token),
    {
        match token {
            Token::Equal => Order::Equals,
            Token::NotEqual => Order::Equals,
            Token::LessThan => Order::LessGreater,
            Token::LessThanAndEqual => Order::LessGreater,
            Token::MoreThan => Order::LessGreater,
            Token::MoreThanAndEqual => Order::LessGreater,
            Token::Plus => Order::Sum,
            Token::Minus => Order::Sum,
            Token::Asterisk => Order::Product,
            Token::Slash => Order::Product,
            Token::LeftBracket => Order::Index,
            Token::LeftParanthesis => Order::Call,
            Token::Assign => Order::Assign,
            _ => Order::Lowest,
        }
    }

    /// The lookahead's precedence level.
    fn peek_order(&self) -> (r: Order)
        ensures
            r == token_order_spec(self.peek()),
    {
        Self::token_order(&self.next_token)
    }

    /// The current token's precedence level.
    fn current_order(&self) -> (r: Order)
        ensures
            r == token_order_spec(self.current()),
    {
        Self::token_order(&self.current_token)
    }

    /// Stops the parse: both buffered tokens become `Eof` and the scanner
    /// is drained, so every enclosing loop winds down.
    fn truncate(&mut self)
        requires
            old(self).wf(),
        ensures
            frame(*old(self), *final(self)),
            final(self).current() is Eof,
            final(self).measure() == 0,
            !(old(self).current() is Eof) ==> final(self).measure() < old(self).measure(),
            final(self).errors() == old(self).errors(),
    {
        self.current_token = Token::Eof;
        self.next_token = Token::Eof;
        self.lexer.finish();
    }

    /// Parses the whole input into a statement sequence. It always
    /// terminates and never aborts; whether the result is trustworthy is
    /// what the diagnostic list reports.
    pub fn parse(&mut self) -> (program: Vec<Statement>)
        requires
            old(self).wf(),
        ensures
            frame(*old(self), *final(self)),
            at_integer_statement(*old(self)) ==> stmts_view(program@) == seq![
                StmtV::Expression(ExprV::Integer(old(self).current()->Int_0 as int)),
            ],
            forall|a: i64, op: Infix, b: i64, m: int|
                #[trigger] at_infix_statement(*old(self), a, op, b, m) ==> stmts_view(program@)
                    == seq![
                    StmtV::Expression(
                        ExprV::Infix(
                            op,
                            Box::new(ExprV::Integer(a as int)),
                            Box::new(ExprV::Integer(b as int)),
                        ),
                    ),
                ],
            forall|t: Token, m: int| #[trigger]
                at_let_missing_assign(*old(self), t, m) ==> final(self).errors().len() > 0,
            forall|a1: i64, op1: Infix, a2: i64, op2: Infix, b2: i64, m1: int, m2: int, m3: int|
                #[trigger] at_infix2_statement(*old(self), a1, op1, a2, op2, b2, m1, m2, m3)
                    ==> stmts_view(program@) == seq![
                    StmtV::Expression(
                        ExprV::Infix(
                            op1,
                            Box::new(ExprV::Integer(a1 as int)),
                            Box::new(
                                ExprV::Infix(
                                    op2,
                                    Box::new(ExprV::Integer(a2 as int)),
                                    Box::new(ExprV::Integer(b2 as int)),
                                ),
                            ),
                        ),
                    ),
                ],
    {
        let ghost lone = Statement::Expression(
            Expression::Integer(old(self).current()->Int_0),
        );
        let mut program: Vec<Statement> = Vec::new();
        while !self.current_token_is(&Token::Eof)
            invariant
                self.wf(),
                frame(*old(self), *self),
                at_integer_statement(*old(self)) ==> lone == Statement::Expression(
                    Expression::Integer(old(self).current()->Int_0),
                ) && ((*self == *old(self) && program@.len() == 0) || ((at_closing_semicolon(
                    *self,
                ) || self.current() is Eof) && program@.len() == 1 && program@[0] == lone)),
                forall|a: i64, op: Infix, b: i64, m: int|
                    #[trigger] at_infix_statement(*old(self), a, op, b, m) ==> ((*self == *old(
                        self,
                    ) && program@.len() == 0) || ((at_closing_semicolon(*self)
                        || self.current() is Eof) && program@.len() == 1 && program@[0]
                        == Statement::Expression(
                        Expression::Infix(
                            op,
                            Box::new(Expression::Integer(a)),
                            Box::new(Expression::Integer(b)),
                        ),
                    ))),
                forall|t: Token, m: int| #[trigger]
                    at_let_missing_assign(*old(self), t, m) ==> (*self == *old(self)
                        || self.errors().len() > 0),
                forall|a1: i64, op1: Infix, a2: i64, op2: Infix, b2: i64, m1: int, m2: int, m3: int|
                    #[trigger] at_infix2_statement(*old(self), a1, op1, a2, op2, b2, m1, m2, m3)
                        ==> ((*self == *old(self) && program@.len() == 0) || ((
                    at_closing_semicolon(*self) || self.current() is Eof) && program@.len() == 1
                        && program@[0] == Statement::Expression(
                        Expression::Infix(
                            op1,
                            Box::new(Expression::Integer(a1)),
                            Box::new(
                                Expression::Infix(
                                    op2,
                                    Box::new(Expression::Integer(a2)),
                                    Box::new(Expression::Integer(b2)),
                                ),
                            ),
                        ),
                    ))),
            decreases self.measure(),
        {
            let ghost m0 = self.measure();
            match self.parse_statement() {
                Some(stmt) => {
                    program.push(stmt);
                },
                None => {},
            }
            self.next_token();
            proof {
                assert(skip_ws_from(self.text(), self.text().len() as int)
                    == self.text().len());
            }
        }
        proof {
            assert forall|
                a1: i64,
                op1: Infix,
                a2: i64,
                op2: Infix,
                b2: i64,
                m1: int,
                m2: int,
                m3: int,
            |
                #[trigger] at_infix2_statement(*old(self), a1, op1, a2, op2, b2, m1, m2, m3)
                implies stmts_view(program@) == seq![
                StmtV::Expression(
                    ExprV::Infix(
                        op1,
                        Box::new(ExprV::Integer(a1 as int)),
                        Box::new(
                            ExprV::Infix(
                                op2,
                                Box::new(ExprV::Integer(a2 as int)),
                                Box::new(ExprV::Integer(b2 as int)),
                            ),
                        ),
                    ),
                ),
            ] by {
                let stmt = Statement::Expression(
                    Expression::Infix(
                        op1,
                        Box::new(Expression::Integer(a1)),
                        Box::new(
                            Expression::Infix(
                                op2,
                                Box::new(Expression::Integer(a2)),
                                Box::new(Expression::Integer(b2)),
                            ),
                        ),
                    ),
                );
                assert(program@.len() == 1 && program@[0] == stmt);
                assert(program@.drop_last() =~= Seq::<Statement>::empty());
                assert(stmts_view(program@) == stmts_view(program@.drop_last()).push(
                    stmt_view(program@.last()),
                ));
                assert(expr_view(Expression::Integer(a1)) == ExprV::Integer(a1 as int));
                assert(expr_view(Expression::Integer(a2)) == ExprV::Integer(a2 as int));
                assert(expr_view(Expression::Integer(b2)) == ExprV::Integer(b2 as int));
                assert(expr_view(
                    Expression::Infix(
                        op2,
                        Box::new(Expression::Integer(a2)),
                        Box::new(Expression::Integer(b2)),
                    ),
                ) == ExprV::Infix(
                    op2,
                    Box::new(ExprV::Integer(a2 as int)),
                    Box::new(ExprV::Integer(b2 as int)),
                ));
                assert(stmts_view(program@) =~= seq![
                    StmtV::Expression(
                        ExprV::Infix(
                            op1,
                            Box::new(ExprV::Integer(a1 as int)),
                            Box::new(
                                ExprV::Infix(
                                    op2,
                                    Box::new(ExprV::Integer(a2 as int)),
                                    Box::new(ExprV::Integer(b2 as int)),
                                ),
                            ),
                        ),
                    ),
                ]);
            }
            assert forall|a: i64, op: Infix, b: i64, m: int|
                #[trigger] at_infix_statement(*old(self), a, op, b, m) implies stmts_view(
                program@,
            ) == seq![
                StmtV::Expression(
                    ExprV::Infix(
                        op,
                        Box::new(ExprV::Integer(a as int)),
                        Box::new(ExprV::Integer(b as int)),
                    ),
                ),
            ] by {
                let stmt = Statement::Expression(
                    Expression::Infix(
                        op,
                        Box::new(Expression::Integer(a)),
                        Box::new(Expression::Integer(b)),
                    ),
                );
                assert(program@.len() == 1 && program@[0] == stmt);
                assert(program@.drop_last() =~= Seq::<Statement>::empty());
                assert(stmts_view(program@) == stmts_view(program@.drop_last()).push(
                    stmt_view(program@.last()),
                ));
                assert(expr_view(Expression::Integer(a)) == ExprV::Integer(a as int));
                assert(expr_view(Expression::Integer(b)) == ExprV::Integer(b as int));
                assert(stmts_view(program@) =~= seq![
                    StmtV::Expression(
                        ExprV::Infix(
                            op,
                            Box::new(ExprV::Integer(a as int)),
                            Box::new(ExprV::Integer(b as int)),
                        ),
                    ),
                ]);
            }
            if at_integer_statement(*old(self)) {
                assert(program@.len() == 1 && program@[0] == lone);
                assert(program@.drop_last() =~= Seq::<Statement>::empty());
                assert(stmts_view(program@) == stmts_view(program@.drop_last()).push(
                    stmt_view(program@.last()),
                ));
                assert(program@.last() == lone);
                assert(stmt_view(lone) == StmtV::Expression(
                    ExprV::Integer(old(self).current()->Int_0 as int),
                ));
                assert(stmts_view(program@) =~= seq![
                    StmtV::Expression(ExprV::Integer(old(self).current()->Int_0 as int)),
                ]);
            }
        }
        program
    }

    /// The current token's identifier name, if it is one.
    fn parse_identifier(&mut self) -> (r: Option<String>)
        ensures
            *final(self) == *old(self),
            match r {
                Some(name) => old(self).current() matches Token::Identifier(n) && n == name,
                None => !(old(self).current() is Identifier),
            },
    {
        match &self.current_token {
            Token::Identifier(ident) => Some(ident.clone()),
            _ => None,
        }
    }

    /// Parses one statement, dispatching on the current token.
    fn parse_statement(&mut self) -> (r: Option<Statement>)
        requires
            old(self).wf(),
        ensures
            frame(*old(self), *final(self)),
            at_integer_atom(*old(self)) ==> *final(self) == *old(self) && r == Some(
                Statement::Expression(Expression::Integer(old(self).current()->Int_0)),
            ),
            at_closing_semicolon(*old(self)) ==> r is None && final(self).current() is Eof
                && final(self).peek() is Eof && final(self).pos() == final(self).text().len(),
            forall|a: i64, op: Infix, b: i64, m: int|
                #[trigger] at_infix_statement(*old(self), a, op, b, m) ==> r == Some(
                    Statement::Expression(
                        Expression::Infix(
                            op,
                            Box::new(Expression::Integer(a)),
                            Box::new(Expression::Integer(b)),
                        ),
                    ),
                ) && at_integer_statement(*final(self)) && final(self).current() == Token::Int(b)
                    && final(self).text() == old(self).text(),
            forall|a1: i64, op1: Infix, a2: i64, op2: Infix, b2: i64, m1: int, m2: int, m3: int|
                #[trigger] at_infix2_statement(*old(self), a1, op1, a2, op2, b2, m1, m2, m3) ==> r
                    == Some(
                    Statement::Expression(
                        Expression::Infix(
                            op1,
                            Box::new(Expression::Integer(a1)),
                            Box::new(
                                Expression::Infix(
                                    op2,
                                    Box::new(Expression::Integer(a2)),
                                    Box::new(Expression::Integer(b2)),
                                ),
                            ),
                        ),
                    ),
                ) && at_integer_statement(*final(self)) && final(self).current() == Token::Int(
                    b2,
                ) && final(self).text() == old(self).text(),
            forall|m: int| #[trigger]
                at_bare_let(*old(self), m) ==> r == Some(
                    Statement::Let(old(self).peek()->Identifier_0, Expression::Integer(0)),
                ) && final(self).errors() == old(self).errors(),
            forall|v: i64, m1: int, m2: int, m3: int| #[trigger]
                at_let_integer(*old(self), v, m1, m2, m3) ==> r == Some(
                    Statement::Let(old(self).peek()->Identifier_0, Expression::Integer(v)),
                ) && final(self).errors() == old(self).errors(),
            forall|t: Token, m: int| #[trigger]
                at_let_missing_assign(*old(self), t, m) ==> r is None
                    && final(self).errors().len() == old(self).errors().len() + 1,
        decreases old(self).measure(), 9int,
    {
        if self.next_token_is(&Token::Let) {
            self.next_token();
        }
        let kind: u8 = match &self.current_token {
            Token::Return => 0,
            Token::Let => 1,
            Token::Illegal => 2,
            _ => 3,
        };
        if kind == 0 {
            self.parse_return_statement()
        } else if kind == 1 {
            self.parse_let_statement()
        } else if kind == 2 {
            Some(Statement::Empty)
        } else {
            self.parse_expression_statement()
        }
    }

    /// Parses an expression statement.
    fn parse_expression_statement(&mut self) -> (r: Option<Statement>)
        requires
            old(self).wf(),
        ensures
            frame(*old(self), *final(self)),
            at_integer_atom(*old(self)) ==> *final(self) == *old(self) && r == Some(
                Statement::Expression(Expression::Integer(old(self).current()->Int_0)),
            ),
            at_closing_semicolon(*old(self)) ==> r is None && final(self).current() is Eof
                && final(self).peek() is Eof && final(self).pos() == final(self).text().len(),
            forall|a: i64, op: Infix, b: i64, m: int|
                #[trigger] at_infix_statement(*old(self), a, op, b, m) ==> r == Some(
                    Statement::Expression(
                        Expression::Infix(
                            op,
                            Box::new(Expression::Integer(a)),
                            Box::new(Expression::Integer(b)),
                        ),
                    ),
                ) && at_integer_statement(*final(self)) && final(self).current() == Token::Int(b)
                    && final(self).text() == old(self).text(),
            forall|a1: i64, op1: Infix, a2: i64, op2: Infix, b2: i64, m1: int, m2: int, m3: int|
                #[trigger] at_infix2_statement(*old(self), a1, op1, a2, op2, b2, m1, m2, m3) ==> r
                    == Some(
                    Statement::Expression(
                        Expression::Infix(
                            op1,
                            Box::new(Expression::Integer(a1)),
                            Box::new(
                                Expression::Infix(
                                    op2,
                                    Box::new(Expression::Integer(a2)),
                                    Box::new(Expression::Integer(b2)),
                                ),
                            ),
                        ),
                    ),
                ) && at_integer_statement(*final(self)) && final(self).current() == Token::Int(
                    b2,
                ) && final(self).text() == old(self).text(),
        decreases old(self).measure(), 8int,
    {
        match self.parse_expression(Order::Lowest) {
            Some(expr) => Some(Statement::Expression(expr)),
            None => None,
        }
    }

    /// Parses an expression by precedence climbing: a prefix rule gives the
    /// left operand, then infix rules extend it while the lookahead binds
    /// tighter than `order`.
    fn parse_expression(&mut self, order: Order) -> (r: Option<Expression>)
        requires
            old(self).wf(),
        ensures
            frame(*old(self), *final(self)),
            at_integer_atom(*old(self)) ==> *final(self) == *old(self) && r == Some(
                Expression::Integer(old(self).current()->Int_0),
            ),
            at_closing_semicolon(*old(self)) ==> r is None && final(self).current() is Eof
                && final(self).peek() is Eof && final(self).pos() == final(self).text().len(),
            forall|a: i64, op: Infix, b: i64, m: int|
                (#[trigger] at_infix_statement(*old(self), a, op, b, m) && order_rank(order)
                    < order_rank(token_order_spec(infix_token(op)))) ==> r == Some(
                    Expression::Infix(
                        op,
                        Box::new(Expression::Integer(a)),
                        Box::new(Expression::Integer(b)),
                    ),
                ) && at_integer_statement(*final(self)) && final(self).current() == Token::Int(b)
                    && final(self).text() == old(self).text(),
            forall|a1: i64, op1: Infix, a2: i64, op2: Infix, b2: i64, m1: int, m2: int, m3: int|
                (#[trigger] at_infix2_statement(*old(self), a1, op1, a2, op2, b2, m1, m2, m3)
                    && order_rank(order) < order_rank(token_order_spec(infix_token(op1)))) ==> r
                    == Some(
                    Expression::Infix(
                        op1,
                        Box::new(Expression::Integer(a1)),
                        Box::new(
                            Expression::Infix(
                                op2,
                                Box::new(Expression::Integer(a2)),
                                Box::new(Expression::Integer(b2)),
                            ),
                        ),
                    ),
                ) && at_integer_statement(*final(self)) && final(self).current() == Token::Int(
                    b2,
                ) && final(self).text() == old(self).text(),
        decreases old(self).measure(), 7int,
    {
        let prefix_kind: u8 = match &self.current_token {
            Token::Identifier(_) => 0,
            Token::True => 1,
            Token::False => 1,
            Token::Int(_) => 2,
            Token::LeftBracket => 3,
            Token::Fn => 4,
            Token::Exclamation => 5,
            Token::Minus => 5,
            Token::Plus => 5,
            Token::Semicolon => 6,
            Token::If => 7,
            _ => 8,
        };
        let parsed: Option<Expression> = if prefix_kind == 0 {
            self.parse_identifier_expression()
        } else if prefix_kind == 1 {
            self.parse_bool_expression()
        } else if prefix_kind == 2 {
            self.parse_int_expression()
        } else if prefix_kind == 3 {
            self.parse_array_expression()
        } else if prefix_kind == 4 {
            self.parse_function_expression()
        } else if prefix_kind == 5 {
            self.parse_prefix_expression()
        } else if prefix_kind == 6 {
            self.next_token();
            return None;
        } else if prefix_kind == 7 {
            self.parse_if_expression()
        } else {
            self.error_no_prefix();
            return None;
        };
        let mut left = match parsed {
            Some(l) => l,
            None => {
                return None;
            },
        };
        while !self.next_token_is(&Token::Semicolon) && order.lt(self.peek_order())
            invariant
                self.wf(),
                frame(*old(self), *self),
                at_integer_atom(*old(self)) ==> *self == *old(self) && left
                    == Expression::Integer(old(self).current()->Int_0),
                forall|a: i64, op: Infix, b: i64, m: int|
                    (#[trigger] at_infix_statement(*old(self), a, op, b, m) && order_rank(order)
                        < order_rank(token_order_spec(infix_token(op)))) ==> ((*self == *old(self)
                        && left == Expression::Integer(
                        a,
                    )) || (at_integer_statement(*self) && self.current() == Token::Int(b)
                        && self.text() == old(self).text() && left == Expression::Infix(
                        op,
                        Box::new(Expression::Integer(a)),
                        Box::new(Expression::Integer(b)),
                    ))),
                forall|a1: i64, op1: Infix, a2: i64, op2: Infix, b2: i64, m1: int, m2: int, m3: int|
                    (#[trigger] at_infix2_statement(*old(self), a1, op1, a2, op2, b2, m1, m2, m3)
                        && order_rank(order) < order_rank(token_order_spec(infix_token(op1))))
                        ==> ((*self == *old(self) && left == Expression::Integer(a1)) || (
                    at_integer_statement(*self) && self.current() == Token::Int(b2) && self.text()
                        == old(self).text() && left == Expression::Infix(
                        op1,
                        Box::new(Expression::Integer(a1)),
                        Box::new(
                            Expression::Infix(
                                op2,
                                Box::new(Expression::Integer(a2)),
                                Box::new(Expression::Integer(b2)),
                            ),
                        ),
                    ))),
            decreases self.measure(),
        {
            let loop_kind: u8 = match &self.next_token {
                Token::Plus => 0,
                Token::Minus => 0,
                Token::Slash => 0,
                Token::Asterisk => 0,
                Token::Equal => 0,
                Token::NotEqual => 0,
                Token::LessThan => 0,
                Token::LessThanAndEqual => 0,
                Token::MoreThan => 0,
                Token::MoreThanAndEqual => 0,
                Token::Assign => 0,
                Token::Identifier(_) => 1,
                Token::LeftBracket => 2,
                Token::LeftParanthesis => 3,
                _ => 4,
            };
            if loop_kind == 0 {
                let ghost pre = *self;
                self.next_token();
                proof {
                    assert forall|a: i64, op: Infix, b: i64, m: int|
                        #[trigger] at_infix_statement(pre, a, op, b, m) implies at_operator_tail(
                        *self,
                        op,
                        b,
                    ) by {
                        lemma_token_scan_unique(
                            pre.text(),
                            pre.pos(),
                            Token::Int(b),
                            m,
                            self.peek(),
                            self.pos(),
                        );
                    }
                    assert forall|
                        a1: i64,
                        op1: Infix,
                        a2: i64,
                        op2: Infix,
                        b2: i64,
                        m1: int,
                        m2: int,
                        m3: int,
                    |
                        #[trigger] at_infix2_statement(pre, a1, op1, a2, op2, b2, m1, m2, m3)
                        implies at_operator_chain(*self, op1, a2, op2, b2, m2, m3) by {
                        lemma_token_scan_unique(
                            pre.text(),
                            pre.pos(),
                            Token::Int(a2),
                            m1,
                            self.peek(),
                            self.pos(),
                        );
                    }
                }
                left = match self.parse_infix_expression(left) {
                    Some(l) => l,
                    None => {
                        return None;
                    },
                };
            } else if loop_kind == 1 {
                self.next_token();
                self.error_no_prefix();
            } else if loop_kind == 2 {
                self.next_token();
                left = match self.parse_index_expression(left) {
                    Some(l) => l,
                    None => {
                        return None;
                    },
                };
            } else if loop_kind == 3 {
                self.next_token();
                left = match self.parse_call_expression(left) {
                    Some(l) => l,
                    None => {
                        return None;
                    },
                };
            } else {
                return Some(left);
            }
        }
        if self.next_token_is(&Token::Eof) && !self.current_token_is(&Token::Eof)
            && !self.current_token_is(&Token::Semicolon) && !self.current_token_is(
            &Token::RightBrace,
        ) {
            self.error_next(&Token::Semicolon);
            self.next_token();
            return None;
        }
        Some(left)
    }

    /// Parses a prefix-operator expression.
    fn parse_prefix_expression(&mut self) -> (r: Option<Expression>)
        requires
            old(self).wf(),
        ensures
            frame(*old(self), *final(self)),
        decreases old(self).measure(), 6int,
    {
        let prefix = match &self.current_token {
            Token::Exclamation => Prefix::Not,
            Token::Plus => Prefix::Plus,
            Token::Minus => Prefix::Minus,
            _ => {
                self.error_no_prefix();
                return None;
            },
        };
        self.next_token();
        match self.parse_expression(Order::Prefix) {
            Some(expr) => Some(Expression::Prefix(prefix, Box::new(expr))),
            None => None,
        }
    }

    /// Parses the right operand of a binary operator and joins the two.
    fn parse_infix_expression(&mut self, left: Expression) -> (r: Option<Expression>)
        requires
            old(self).wf(),
        ensures
            frame(*old(self), *final(self)),
            forall|op: Infix, b: i64| #[trigger]
                at_operator_tail(*old(self), op, b) ==> r == Some(
                    Expression::Infix(op, Box::new(left), Box::new(Expression::Integer(b))),
                ) && final(self).current() == Token::Int(b) && at_integer_statement(*final(self))
                    && final(self).text() == old(self).text(),
            forall|op1: Infix, a2: i64, op2: Infix, b2: i64, m1: int, m2: int| #[trigger]
                at_operator_chain(*old(self), op1, a2, op2, b2, m1, m2) ==> r == Some(
                    Expression::Infix(
                        op1,
                        Box::new(left),
                        Box::new(
                            Expression::Infix(
                                op2,
                                Box::new(Expression::Integer(a2)),
                                Box::new(Expression::Integer(b2)),
                            ),
                        ),
                    ),
                ) && final(self).current() == Token::Int(b2) && at_integer_statement(
                    *final(self),
                ) && final(self).text() == old(self).text(),
        decreases old(self).measure(), 6int,
    {
        let infix = match &self.current_token {
            Token::Plus => Infix::Plus,
            Token::Minus => Infix::Minus,
            Token::Asterisk => Infix::Multiply,
            Token::Slash => Infix::Divide,
            Token::Equal => Infix::Equal,
            Token::NotEqual => Infix::NotEqual,
            Token::LessThanAndEqual => Infix::LessThanAndEqual,
            Token::LessThan => Infix::LessThan,
            Token::MoreThanAndEqual => Infix::MoreThanAndEqual,
            Token::MoreThan => Infix::MoreThan,
            Token::Assign => Infix::Assign,
            _ => {
                return None;
            },
        };
        let order = self.current_order();
        let ghost pre = *self;
        self.next_token();
        proof {
            assert forall|op: Infix, b: i64| #[trigger]
                at_operator_tail(pre, op, b) implies self.current() == Token::Int(b)
                && at_integer_statement(*self) && at_integer_atom(*self) by {
                lemma_token_scan_unique(
                    pre.text(),
                    pre.pos(),
                    Token::Semicolon,
                    pre.text().len() as int,
                    self.peek(),
                    self.pos(),
                );
            }
            assert forall|op1: Infix, a2: i64, op2: Infix, b2: i64, m1: int, m2: int| #[trigger]
                at_operator_chain(pre, op1, a2, op2, b2, m1, m2) implies at_infix_statement(
                *self,
                a2,
                op2,
                b2,
                m2,
            ) && infix == op1 && order_rank(order) < order_rank(
                token_order_spec(infix_token(op2)),
            ) by {
                lemma_token_scan_unique(
                    pre.text(),
                    pre.pos(),
                    infix_token(op2),
                    m1,
                    self.peek(),
                    self.pos(),
                );
                lemma_token_eq_shape(infix_token(op2), self.peek());
                assert(self.peek() == infix_token(op2));
            }
        }
        match self.parse_expression(order) {
            Some(expression) => Some(
                Expression::Infix(infix, Box::new(left), Box::new(expression)),
            ),
            None => None,
        }
    }

    /// Parses the bracketed index after an indexable expression; a second
    /// bracket pair on an index expression becomes its column index.
    fn parse_index_expression(&mut self, left: Expression) -> (r: Option<Expression>)
        requires
            old(self).wf(),
        ensures
            frame(*old(self), *final(self)),
        decreases old(self).measure(), 6int,
    {
        self.next_token();
        if self.current_token_is(&Token::Eof) {
            self.error_no_prefix();
            return None;
        }
        let index = match self.parse_expression(Order::Lowest) {
            Some(expr) => expr,
            None => {
                return None;
            },
        };
        if !self.expect_next_token(Token::RightBracket) {
            return None;
        }
        match left {
            Expression::Index(target, first, Option::None) => Some(
                Expression::Index(target, first, Some(Box::new(index))),
            ),
            other => Some(Expression::Index(Box::new(other), Box::new(index), Option::None)),
        }
    }

    /// Parses the current identifier as an expression.
    fn parse_identifier_expression(&mut self) -> (r: Option<Expression>)
        ensures
            *final(self) == *old(self),
            match r {
                Some(e) => old(self).current() matches Token::Identifier(n) && e
                    == Expression::Identifier(n),
                None => !(old(self).current() is Identifier),
            },
    {
        match self.parse_identifier() {
            Some(ident) => Some(Expression::Identifier(ident)),
            _ => None,
        }
    }

    /// Parses the current integer literal as an expression.
    fn parse_integer_literal(&mut self) -> (r: Option<Expression>)
        ensures
            *final(self) == *old(self),
            match r {
                Some(e) => old(self).current() matches Token::Int(n) && e == Expression::Integer(
                    n,
                ),
                None => !(old(self).current() is Int),
            },
    {
        match &self.current_token {
            Token::Int(n) => Some(Expression::Integer(*n)),
            _ => None,
        }
    }

    /// Parses the current boolean keyword as an expression.
    fn parse_bool_expression(&mut self) -> (r: Option<Expression>)
        ensures
            *final(self) == *old(self),
            match r {
                Some(e) => (old(self).current() is True && e == Expression::Bool(true)) || (old(
                    self,
                ).current() is False && e == Expression::Bool(false)),
                None => !(old(self).current() is True) && !(old(self).current() is False),
            },
    {
        match &self.current_token {
            Token::True => Some(Expression::Bool(true)),
            Token::False => Some(Expression::Bool(false)),
            _ => None,
        }
    }

    /// Parses the current integer token as an expression.
    fn parse_int_expression(&mut self) -> (r: Option<Expression>)
        ensures
            *final(self) == *old(self),
            match r {
                Some(e) => old(self).current() matches Token::Int(n) && e == Expression::Integer(
                    n,
                ),
                None => !(old(self).current() is Int),
            },
    {
        match &self.current_token {
            Token::Int(n) => Some(Expression::Integer(*n)),
            _ => None,
        }
    }

    /// Parses a comma-separated expression list up to the closing token.
    fn parse_expression_list(&mut self, end: Token) -> (r: Option<Vec<Expression>>)
        requires
            old(self).wf(),
        ensures
            frame(*old(self), *final(self)),
            token_eq_spec(old(self).peek(), end) ==> (r matches Some(es) && es@.len() == 0)
                && final(self).current() == old(self).peek()
                && final(self).errors() == old(self).errors(),
            forall|v: i64, m: int| #[trigger]
                at_one_item_list(*old(self), end, v, m) ==> (r matches Some(es) && es@.len() == 1
                    && es@[0] == Expression::Integer(v)) && final(self).current() == Token::Int(v)
                    && token_eq_spec(end, final(self).peek()) && final(self).pos() == m
                    && final(self).text() == old(self).text()
                    && final(self).errors() == old(self).errors(),
        decreases old(self).measure(), 5int,
    {
        let mut vec: Vec<Expression> = Vec::new();
        if self.next_token_is(&end) {
            self.next_token();
            return Some(vec);
        }
        self.next_token();
        proof {
            assert forall|v: i64, m: int| #[trigger]
                at_one_item_list(*old(self), end, v, m) implies at_integer_atom(*self)
                && self.current() == Token::Int(v) && token_eq_spec(end, self.peek())
                && self.pos() == m by {
                lemma_token_scan_unique(
                    old(self).text(),
                    old(self).pos(),
                    end,
                    m,
                    self.peek(),
                    self.pos(),
                );
                lemma_token_eq_shape(end, self.peek());
            }
        }
        if self.current_token_is(&Token::Eof) {
            self.error_no_prefix();
            return None;
        }
        match self.parse_expression(Order::Lowest) {
            Some(expr) => vec.push(expr),
            _ => {
                return None;
            },
        }
        let ghost snap = *self;
        let ghost vsnap = vec@;
        while self.next_token_is(&Token::Comma)
            invariant
                self.wf(),
                frame(*old(self), *self),
                !token_eq_spec(old(self).peek(), end),
                forall|v: i64, m: int| #[trigger]
                    at_one_item_list(*old(self), end, v, m) ==> *self == snap && vec@ == vsnap
                        && vec@.len() == 1 && vec@[0] == Expression::Integer(v)
                        && self.current() == Token::Int(v) && token_eq_spec(end, self.peek())
                        && self.pos() == m && self.text() == old(self).text() && self.errors()
                        == old(self).errors(),
            decreases self.measure(),
        {
            proof {
                assert forall|v: i64, m: int| #[trigger]
                    at_one_item_list(*old(self), end, v, m) implies false by {
                    lemma_token_eq_shape(end, self.peek());
                }
            }
            self.next_token();
            self.next_token();
            match self.parse_expression(Order::Lowest) {
                Some(expr) => vec.push(expr),
                _ => {
                    return None;
                },
            }
        }
        proof {
            assert forall|v: i64, m: int| #[trigger]
                at_one_item_list(*old(self), end, v, m) implies token_eq_spec(
                self.peek(),
                end,
            ) by {
                lemma_token_eq_shape(end, self.peek());
            }
        }
        if !self.next_token_is(&end) {
            return None;
        }
        Some(vec)
    }

    /// Parses a matrix literal: brace-delimited rows inside one bracket
    /// pair.
    fn parse_array_expression(&mut self) -> (r: Option<Expression>)
        requires
            old(self).wf(),
        ensures
            frame(*old(self), *final(self)),
            forall|v: i64, m1: int, m2: int, m3: int| #[trigger]
                at_array_one_cell(*old(self), v, m1, m2, m3) ==> (r matches Some(e) && e matches
                    Expression::Array(rows) && rows@.len() == 1 && rows@[0]@.len() == 1
                    && rows@[0]@[0] == Expression::Integer(v))
                    && final(self).errors() == old(self).errors(),
        decreases old(self).measure(), 6int,
    {
        if !self.next_token_is(&Token::LeftBrace) {
            self.error_next(&Token::LeftBrace);
        }
        let mut arr: Vec<Vec<Expression>> = Vec::new();
        while !self.next_token_is(&Token::RightBracket) && !self.next_token_is(&Token::Eof)
            invariant
                self.wf(),
                frame(*old(self), *self),
                forall|v: i64, m1: int, m2: int, m3: int| #[trigger]
                    at_array_one_cell(*old(self), v, m1, m2, m3) ==> ((*self == *old(self)
                        && arr@.len() == 0) || (token_eq_spec(Token::RightBracket, self.peek())
                        && arr@.len() == 1 && arr@[0]@.len() == 1 && arr@[0]@[0]
                        == Expression::Integer(v) && self.errors() == old(self).errors())),
            decreases self.measure(),
        {
            self.next_token();
            proof {
                assert forall|v: i64, m1: int, m2: int, m3: int| #[trigger]
                    at_array_one_cell(*old(self), v, m1, m2, m3) implies at_one_item_list(
                    *self,
                    Token::RightBrace,
                    v,
                    m2,
                ) by {
                    lemma_token_scan_unique(
                        old(self).text(),
                        old(self).pos(),
                        Token::Int(v),
                        m1,
                        self.peek(),
                        self.pos(),
                    );
                }
            }
            match self.parse_expression_list(Token::RightBrace) {
                Some(row) => arr.push(row),
                None => {
                    return None;
                },
            }
            proof {
                assert forall|v: i64, m1: int, m2: int, m3: int| #[trigger]
                    at_array_one_cell(*old(self), v, m1, m2, m3) implies token_eq_spec(
                    Token::RightBrace,
                    self.peek(),
                ) && self.pos() == m2 by {
                }
            }
            self.next_token();
            proof {
                assert forall|v: i64, m1: int, m2: int, m3: int| #[trigger]
                    at_array_one_cell(*old(self), v, m1, m2, m3) implies self.current()
                    is RightBrace && token_eq_spec(Token::RightBracket, self.peek()) by {
                    lemma_token_eq_shape(Token::RightBrace, self.current());
                    lemma_token_scan_unique(
                        old(self).text(),
                        m2,
                        Token::RightBracket,
                        m3,
                        self.peek(),
                        self.pos(),
                    );
                }
            }
            if !self.current_token_is(&Token::Comma) && !self.current_token_is(&Token::RightBrace)
                && !self.current_token_is(&Token::RightBracket) {
                return None;
            }
        }
        proof {
            assert forall|v: i64, m1: int, m2: int, m3: int| #[trigger]
                at_array_one_cell(*old(self), v, m1, m2, m3) implies arr@.len() == 1
                && arr@[0]@.len() == 1 && arr@[0]@[0] == Expression::Integer(v) by {
            }
        }
        self.next_token();
        Some(Expression::Array(arr))
    }

    /// Parses a parenthesized, comma-separated parameter-name list.
    fn parse_function_parameters(&mut self) -> (r: Option<Vec<String>>)
        requires
            old(self).wf(),
        ensures
            frame(*old(self), *final(self)),
            old(self).peek() is RightParanthesis ==> (r matches Some(ps) && ps@.len() == 0)
                && *final(self) == *old(self),
            forall|m: int| #[trigger]
                at_one_param_list(*old(self), m) ==> (r matches Some(ps) && ps@.len() == 1
                    && ps@[0]@ == (old(self).peek()->Identifier_0)@)
                    && final(self).current() is RightParanthesis
                    && token_scan(old(self).text(), m, final(self).peek(), final(self).pos())
                    && final(self).text() == old(self).text()
                    && final(self).errors() == old(self).errors(),
        decreases old(self).measure(), 5int,
    {
        let mut params: Vec<String> = Vec::new();
        if self.next_token_is(&Token::RightParanthesis) {
            return Some(params);
        }
        self.next_token();
        proof {
            assert forall|m: int| #[trigger] at_one_param_list(*old(self), m) implies token_eq_spec(
                Token::RightParanthesis,
                self.peek(),
            ) && self.peek() is RightParanthesis && self.pos() == m by {
                lemma_token_scan_unique(
                    old(self).text(),
                    old(self).pos(),
                    Token::RightParanthesis,
                    m,
                    self.peek(),
                    self.pos(),
                );
                lemma_token_eq_shape(Token::RightParanthesis, self.peek());
            }
        }
        match self.parse_identifier() {
            Some(ident) => params.push(ident),
            _ => {
                return None;
            },
        }
        let ghost snap = *self;
        let ghost psnap = params@;
        while self.next_token_is(&Token::Comma)
            invariant
                self.wf(),
                frame(*old(self), *self),
                !(old(self).peek() is RightParanthesis),
                forall|m: int| #[trigger]
                    at_one_param_list(*old(self), m) ==> *self == snap && params@ == psnap
                        && params@.len() == 1 && params@[0]@ == (old(
                        self,
                    ).peek()->Identifier_0)@ && self.peek() is RightParanthesis && self.pos() == m
                        && self.text() == old(self).text() && self.errors() == old(self).errors(),
            decreases self.measure(),
        {
            self.next_token();
            self.next_token();
            match self.parse_identifier() {
                Some(ident) => params.push(ident),
                _ => {
                    return None;
                },
            }
        }
        if !self.expect_next_token(Token::RightParanthesis) {
            self.error_next(&Token::RightParanthesis);
            return None;
        }
        Some(params)
    }

    /// Parses a function literal: keyword, name, parameters, body block.
    fn parse_function_expression(&mut self) -> (r: Option<Expression>)
        requires
            old(self).wf(),
        ensures
            frame(*old(self), *final(self)),
            forall|pn: Token, m1: int, m2: int, m3: int, m4: int, m5: int| #[trigger]
                at_fn_one_param_empty(*old(self), pn, m1, m2, m3, m4, m5) ==> (r matches Some(e)
                    && e matches Expression::Function(name, ps, body) && name == old(
                    self,
                ).peek()->Identifier_0 && ps@.len() == 1 && ps@[0]@ == (pn->Identifier_0)@
                    && body@.len() == 0) && final(self).errors() == old(self).errors(),
        decreases old(self).measure(), 6int,
    {
        self.next_token();
        proof {
            assert forall|pn: Token, m1: int, m2: int, m3: int, m4: int, m5: int| #[trigger]
                at_fn_one_param_empty(*old(self), pn, m1, m2, m3, m4, m5) implies self.peek()
                is LeftParanthesis && self.pos() == m1 && self.current() == old(self).peek() by {
                lemma_token_scan_unique(
                    old(self).text(),
                    old(self).pos(),
                    Token::LeftParanthesis,
                    m1,
                    self.peek(),
                    self.pos(),
                );
                lemma_token_eq_shape(Token::LeftParanthesis, self.peek());
            }
        }
        if self.current_token_is(&Token::LeftParanthesis) {
            self.error_next(&Token::LeftParanthesis);
            return None;
        }
        let ident = match self.parse_identifier() {
            Some(ident) => ident,
            _ => {
                return None;
            },
        };
        self.next_token();
        proof {
            assert forall|pn: Token, m1: int, m2: int, m3: int, m4: int, m5: int| #[trigger]
                at_fn_one_param_empty(*old(self), pn, m1, m2, m3, m4, m5) implies at_one_param_list(
                *self,
                m3,
            ) && token_eq_spec(pn, self.peek()) by {
                lemma_token_scan_unique(
                    old(self).text(),
                    m1,
                    pn,
                    m2,
                    self.peek(),
                    self.pos(),
                );
                lemma_token_eq_shape(pn, self.peek());
            }
        }
        let params = match self.parse_function_parameters() {
            Some(params) => params,
            _ => {
                return None;
            },
        };
        proof {
            assert forall|pn: Token, m1: int, m2: int, m3: int, m4: int, m5: int| #[trigger]
                at_fn_one_param_empty(*old(self), pn, m1, m2, m3, m4, m5) implies self.peek()
                is LeftBrace && self.pos() == m4 by {
                lemma_token_scan_unique(
                    old(self).text(),
                    m3,
                    Token::LeftBrace,
                    m4,
                    self.peek(),
                    self.pos(),
                );
                lemma_token_eq_shape(Token::LeftBrace, self.peek());
            }
        }
        if !self.expect_next_token(Token::LeftBrace) {
            self.error_next(&Token::LeftBrace);
            return None;
        }
        proof {
            assert forall|pn: Token, m1: int, m2: int, m3: int, m4: int, m5: int| #[trigger]
                at_fn_one_param_empty(*old(self), pn, m1, m2, m3, m4, m5) implies self.peek()
                is RightBrace && !(self.current() is Eof) by {
                lemma_token_scan_unique(
                    old(self).text(),
                    m4,
                    Token::RightBrace,
                    m5,
                    self.peek(),
                    self.pos(),
                );
                lemma_token_eq_shape(Token::RightBrace, self.peek());
            }
        }
        let body = self.parse_block_statements();
        Some(Expression::Function(ident, params, body))
    }

    /// Parses statements up to the closing brace. A missing statement
    /// terminator stops the whole parse, dropping what follows.
    fn parse_block_statements(&mut self) -> (r: Vec<Statement>)
        requires
            old(self).wf(),
            !(old(self).current() is Eof),
        ensures
            frame(*old(self), *final(self)),
            old(self).peek() is RightBrace ==> r@.len() == 0 && final(self).current()
                is RightBrace && token_scan(
                old(self).text(),
                old(self).pos(),
                final(self).peek(),
                final(self).pos(),
            ) && final(self).text() == old(self).text()
                && final(self).errors() == old(self).errors(),
            forall|v: i64, m1: int, m2: int| #[trigger]
                at_one_statement_block(*old(self), v, m1, m2) ==> r@.len() == 1 && r@[0]
                    == Statement::Expression(Expression::Integer(v)) && final(self).current()
                    is RightBrace && final(self).errors() == old(self).errors(),
        decreases old(self).measure(), 2int,
    {
        let mut statements: Vec<Statement> = Vec::new();
        self.next_token();
        let ghost snap = *self;
        while !self.current_token_is(&Token::RightBrace) && !self.current_token_is(&Token::Eof)
            invariant
                self.wf(),
                frame(*old(self), *self),
                self.measure() < old(self).measure(),
                old(self).peek() is RightBrace ==> *self == snap && statements@.len() == 0
                    && self.current() is RightBrace && token_scan(
                    old(self).text(),
                    old(self).pos(),
                    self.peek(),
                    self.pos(),
                ) && self.text() == old(self).text() && self.errors() == old(self).errors(),
                forall|v: i64, m1: int, m2: int| #[trigger]
                    at_one_statement_block(*old(self), v, m1, m2) ==> ((*self == snap
                        && statements@.len() == 0 && self.current() == Token::Int(v)
                        && self.peek() is Semicolon && self.pos() == m1 && self.text() == old(
                        self,
                    ).text() && self.errors() == old(self).errors() && !(self.current() is Let))
                        || (self.current() is RightBrace && statements@.len() == 1
                        && statements@[0] == Statement::Expression(Expression::Integer(v))
                        && self.errors() == old(self).errors())),
            decreases self.measure(),
        {
            let ghost m0 = self.measure();
            let ghost cur0 = self.current();
            proof {
                assert(!(cur0 is Eof));
            }
            match self.parse_statement() {
                Some(statement) => {
                    proof {
                        if self.measure() == m0 {
                            assert(self.current() == cur0);
                        }
                    }
                    if !self.next_token_is(&Token::Semicolon) {
                        self.error_next(&Token::Semicolon);
                        self.truncate();
                    }
                    statements.push(statement);
                    self.next_token();
                },
                None => {
                    proof {
                        if self.measure() == m0 {
                            assert(self.current() == cur0);
                        }
                    }
                },
            }
            self.next_token();
        }
        statements
    }

    /// Parses a `let` statement; a bare `let name;` binds the name to zero.
    pub fn parse_let_statement(&mut self) -> (r: Option<Statement>)
        requires
            old(self).wf(),
        ensures
            frame(*old(self), *final(self)),
            forall|m: int| #[trigger]
                at_bare_let(*old(self), m) ==> r == Some(
                    Statement::Let(old(self).peek()->Identifier_0, Expression::Integer(0)),
                ) && final(self).errors() == old(self).errors(),
            forall|v: i64, m1: int, m2: int, m3: int| #[trigger]
                at_let_integer(*old(self), v, m1, m2, m3) ==> r == Some(
                    Statement::Let(old(self).peek()->Identifier_0, Expression::Integer(v)),
                ) && final(self).errors() == old(self).errors(),
            forall|t: Token, m: int| #[trigger]
                at_let_missing_assign(*old(self), t, m) ==> r is None
                    && final(self).errors().len() == old(self).errors().len() + 1,
        decreases old(self).measure(), 8int,
    {
        let next_is_ident = match &self.next_token {
            Token::Identifier(_) => true,
            _ => false,
        };
        if next_is_ident {
            self.next_token();
        } else {
            return None;
        }
        proof {
            assert forall|m: int| #[trigger] at_bare_let(*old(self), m) implies self.peek()
                is Semicolon by {
                lemma_token_scan_unique(
                    old(self).text(),
                    old(self).pos(),
                    Token::Semicolon,
                    m,
                    self.peek(),
                    self.pos(),
                );
            }
            assert forall|v: i64, m1: int, m2: int, m3: int| #[trigger]
                at_let_integer(*old(self), v, m1, m2, m3) implies self.peek() is Assign
                && self.pos() == m1 by {
                lemma_token_scan_unique(
                    old(self).text(),
                    old(self).pos(),
                    Token::Assign,
                    m1,
                    self.peek(),
                    self.pos(),
                );
            }
            assert forall|t: Token, m: int| #[trigger]
                at_let_missing_assign(*old(self), t, m) implies !(self.peek() is Semicolon)
                && !(self.peek() is Assign) by {
                lemma_token_scan_unique(
                    old(self).text(),
                    old(self).pos(),
                    t,
                    m,
                    self.peek(),
                    self.pos(),
                );
            }
        }
        let ident = match self.parse_identifier() {
            Some(name) => name,
            None => {
                return None;
            },
        };
        if self.next_token_is(&Token::Semicolon) {
            return Some(Statement::Let(ident, Expression::Integer(0)));
        }
        if !self.expect_next_token(Token::Assign) {
            self.next_token();
            return None;
        }
        proof {
            assert forall|v: i64, m1: int, m2: int, m3: int| #[trigger]
                at_let_integer(*old(self), v, m1, m2, m3) implies self.peek() == Token::Int(v)
                && self.pos() == m2 by {
                lemma_token_scan_unique(
                    old(self).text(),
                    m1,
                    Token::Int(v),
                    m2,
                    self.peek(),
                    self.pos(),
                );
            }
        }
        self.next_token();
        proof {
            assert forall|v: i64, m1: int, m2: int, m3: int| #[trigger]
                at_let_integer(*old(self), v, m1, m2, m3) implies at_integer_atom(*self)
                && self.current() == Token::Int(v) by {
                lemma_token_scan_unique(
                    old(self).text(),
                    m2,
                    Token::Semicolon,
                    m3,
                    self.peek(),
                    self.pos(),
                );
            }
        }
        let eval = match self.parse_expression(Order::Lowest) {
            Some(expr) => expr,
            _ => {
                return None;
            },
        };
        self.next_token();
        Some(Statement::Let(ident, eval))
    }

    /// Parses a `return` statement.
    fn parse_return_statement(&mut self) -> (r: Option<Statement>)
        requires
            old(self).wf(),
        ensures
            frame(*old(self), *final(self)),
            forall|v: i64, m: int| #[trigger]
                at_return_integer(*old(self), v, m) ==> r == Some(
                    Statement::Return(Expression::Integer(v)),
                ) && final(self).errors() == old(self).errors(),
        decreases old(self).measure(), 8int,
    {
        self.next_token();
        proof {
            assert forall|v: i64, m: int| #[trigger]
                at_return_integer(*old(self), v, m) implies at_integer_atom(*self)
                && self.current() == Token::Int(v) by {
                lemma_token_scan_unique(
                    old(self).text(),
                    old(self).pos(),
                    Token::Semicolon,
                    m,
                    self.peek(),
                    self.pos(),
                );
            }
        }
        match self.parse_expression(Order::Lowest) {
            Some(expr) => Some(Statement::Return(expr)),
            None => None,
        }
    }

    /// Parses a conditional expression with its blocks.
    fn parse_if_expression(&mut self) -> (r: Option<Expression>)
        requires
            old(self).wf(),
        ensures
            frame(*old(self), *final(self)),
            forall|v: i64, t5: Token, m1: int, m2: int, m3: int, m4: int, m5: int| #[trigger]
                at_if_integer_empty(*old(self), v, t5, m1, m2, m3, m4, m5) ==> (r matches Some(e)
                    && e matches Expression::If(c, body, els) && *c == Expression::Integer(v)
                    && body@.len() == 0 && els is None)
                    && final(self).errors() == old(self).errors(),
        decreases old(self).measure(), 6int,
    {
        if !self.expect_next_token(Token::LeftParanthesis) {
            return None;
        }
        proof {
            assert forall|v: i64, t5: Token, m1: int, m2: int, m3: int, m4: int, m5: int|
                #[trigger] at_if_integer_empty(*old(self), v, t5, m1, m2, m3, m4, m5) implies self
                .peek() == Token::Int(v) && self.pos() == m1 by {
                lemma_token_scan_unique(
                    old(self).text(),
                    old(self).pos(),
                    Token::Int(v),
                    m1,
                    self.peek(),
                    self.pos(),
                );
            }
        }
        self.next_token();
        proof {
            assert forall|v: i64, t5: Token, m1: int, m2: int, m3: int, m4: int, m5: int|
                #[trigger] at_if_integer_empty(*old(self), v, t5, m1, m2, m3, m4, m5) implies
                at_integer_atom(*self) && self.current() == Token::Int(v) && self.pos() == m2 by {
                lemma_token_scan_unique(
                    old(self).text(),
                    m1,
                    Token::RightParanthesis,
                    m2,
                    self.peek(),
                    self.pos(),
                );
                lemma_token_eq_shape(Token::RightParanthesis, self.peek());
            }
        }
        let predicate = match self.parse_expression(Order::Lowest) {
            Some(expr) => expr,
            None => {
                return None;
            },
        };
        if !self.expect_next_token(Token::RightParanthesis) {
            return None;
        }
        proof {
            assert forall|v: i64, t5: Token, m1: int, m2: int, m3: int, m4: int, m5: int|
                #[trigger] at_if_integer_empty(*old(self), v, t5, m1, m2, m3, m4, m5) implies self
                .peek() is LeftBrace && self.pos() == m3 by {
                lemma_token_scan_unique(
                    old(self).text(),
                    m2,
                    Token::LeftBrace,
                    m3,
                    self.peek(),
                    self.pos(),
                );
                lemma_token_eq_shape(Token::LeftBrace, self.peek());
            }
        }
        if !self.expect_next_token(Token::LeftBrace) {
            return None;
        }
        proof {
            assert forall|v: i64, t5: Token, m1: int, m2: int, m3: int, m4: int, m5: int|
                #[trigger] at_if_integer_empty(*old(self), v, t5, m1, m2, m3, m4, m5) implies self
                .peek() is RightBrace && self.pos() == m4 && !(self.current() is Eof) by {
                lemma_token_scan_unique(
                    old(self).text(),
                    m3,
                    Token::RightBrace,
                    m4,
                    self.peek(),
                    self.pos(),
                );
                lemma_token_eq_shape(Token::RightBrace, self.peek());
            }
        }
        let ghost before_block = *self;
        let body = self.parse_block_statements();
        proof {
            assert forall|v: i64, t5: Token, m1: int, m2: int, m3: int, m4: int, m5: int|
                #[trigger] at_if_integer_empty(*old(self), v, t5, m1, m2, m3, m4, m5) implies !(
                self.peek() is Else) && body@.len() == 0 by {
                lemma_token_scan_unique(
                    old(self).text(),
                    m4,
                    t5,
                    m5,
                    self.peek(),
                    self.pos(),
                );
                lemma_token_eq_shape(t5, self.peek());
            }
        }
        let mut else_body: Option<Vec<Statement>> = Option::None;
        if self.next_token_is(&Token::Else) {
            self.next_token();
            if !self.expect_next_token(Token::LeftBrace) {
                return None;
            }
            else_body = Some(self.parse_block_statements());
        }
        Some(Expression::If(Box::new(predicate), body, else_body))
    }

    /// Parses the argument list of a call and joins it with the callee.
    pub fn parse_call_expression(&mut self, expr: Expression) -> (r: Option<Expression>)
        requires
            old(self).wf(),
        ensures
            frame(*old(self), *final(self)),
            old(self).peek() is RightParanthesis ==> (r matches Some(e) && e matches
                Expression::Call { func, args } && *func == expr && args@.len() == 0)
                && final(self).errors() == old(self).errors(),
            forall|v: i64, m: int| #[trigger]
                at_one_item_list(*old(self), Token::RightParanthesis, v, m) ==> (r matches Some(e)
                    && e matches Expression::Call { func, args } && *func == expr && args@.len()
                    == 1 && args@[0] == Expression::Integer(v))
                    && final(self).errors() == old(self).errors(),
        decreases old(self).measure(), 6int,
    {
        let args = match self.parse_expression_list(Token::RightParanthesis) {
            Some(args) => args,
            None => {
                return None;
            },
        };
        Some(Expression::Call { func: Box::new(expr), args })
    }
}

} // verus!
