//! Lexical tokens and the keyword table.
use vstd::prelude::*;
use vstd::string::StrSliceExecFns;
use vstd::string::StringExecFns;

verus! {

/// One lexical unit of source text, as the lexer emits them.
#[derive(Debug, Clone)]
pub enum Token {
    // special tokens
    Eof,
    Illegal,
    // identifiers and literals
    Identifier(String),
    Int(i64),
    // operators
    Assign,
    Equal,
    NotEqual,
    LessThan,
    LessThanAndEqual,
    MoreThan,
    MoreThanAndEqual,
    Plus,
    Increment,
    Minus,
    Decrement,
    Asterisk,
    Slash,
    Exclamation,
    // delimiters
    Comma,
    Semicolon,
    LeftParanthesis,
    RightParanthesis,
    LeftBrace,
    RightBrace,
    LeftBracket,
    RightBracket,
    // keywords
    Let,
    Fn,
    True,
    False,
    If,
    Else,
    Return,
    And,
    Or,
}

/// Token equality at the specification level: same variant, and for the two
/// payload-carrying variants, equal payloads (identifier names compared as
/// character sequences).
pub open spec fn token_eq_spec(a: Token, b: Token) -> bool {
    match (a, b) {
        (Token::Identifier(x), Token::Identifier(y)) => x@ == y@,
        (Token::Int(x), Token::Int(y)) => x == y,
        (Token::Eof, Token::Eof) => true,
        (Token::Illegal, Token::Illegal) => true,
        (Token::Assign, Token::Assign) => true,
        (Token::Equal, Token::Equal) => true,
        (Token::NotEqual, Token::NotEqual) => true,
        (Token::LessThan, Token::LessThan) => true,
        (Token::LessThanAndEqual, Token::LessThanAndEqual) => true,
        (Token::MoreThan, Token::MoreThan) => true,
        (Token::MoreThanAndEqual, Token::MoreThanAndEqual) => true,
        (Token::Plus, Token::Plus) => true,
        (Token::Increment, Token::Increment) => true,
        (Token::Minus, Token::Minus) => true,
        (Token::Decrement, Token::Decrement) => true,
        (Token::Asterisk, Token::Asterisk) => true,
        (Token::Slash, Token::Slash) => true,
        (Token::Exclamation, Token::Exclamation) => true,
        (Token::Comma, Token::Comma) => true,
        (Token::Semicolon, Token::Semicolon) => true,
        (Token::LeftParanthesis, Token::LeftParanthesis) => true,
        (Token::RightParanthesis, Token::RightParanthesis) => true,
        (Token::LeftBrace, Token::LeftBrace) => true,
        (Token::RightBrace, Token::RightBrace) => true,
        (Token::LeftBracket, Token::LeftBracket) => true,
        (Token::RightBracket, Token::RightBracket) => true,
        (Token::Let, Token::Let) => true,
        (Token::Fn, Token::Fn) => true,
        (Token::True, Token::True) => true,
        (Token::False, Token::False) => true,
        (Token::If, Token::If) => true,
        (Token::Else, Token::Else) => true,
        (Token::Return, Token::Return) => true,
        (Token::And, Token::And) => true,
        (Token::Or, Token::Or) => true,
        _ => false,
    }
}

impl PartialEq for Token {
    fn eq(&self, other: &Token) -> (r: bool) {
        match (self, other) {
            (Token::Identifier(x), Token::Identifier(y)) => x.eq(y),
            (Token::Int(x), Token::Int(y)) => *x == *y,
            (Token::Eof, Token::Eof) => true,
            (Token::Illegal, Token::Illegal) => true,
            (Token::Assign, Token::Assign) => true,
            (Token::Equal, Token::Equal) => true,
            (Token::NotEqual, Token::NotEqual) => true,
            (Token::LessThan, Token::LessThan) => true,
            (Token::LessThanAndEqual, Token::LessThanAndEqual) => true,
            (Token::MoreThan, Token::MoreThan) => true,
            (Token::MoreThanAndEqual, Token::MoreThanAndEqual) => true,
            (Token::Plus, Token::Plus) => true,
            (Token::Increment, Token::Increment) => true,
            (Token::Minus, Token::Minus) => true,
            (Token::Decrement, Token::Decrement) => true,
            (Token::Asterisk, Token::Asterisk) => true,
            (Token::Slash, Token::Slash) => true,
            (Token::Exclamation, Token::Exclamation) => true,
            (Token::Comma, Token::Comma) => true,
            (Token::Semicolon, Token::Semicolon) => true,
            (Token::LeftParanthesis, Token::LeftParanthesis) => true,
            (Token::RightParanthesis, Token::RightParanthesis) => true,
            (Token::LeftBrace, Token::LeftBrace) => true,
            (Token::RightBrace, Token::RightBrace) => true,
            (Token::LeftBracket, Token::LeftBracket) => true,
            (Token::RightBracket, Token::RightBracket) => true,
            (Token::Let, Token::Let) => true,
            (Token::Fn, Token::Fn) => true,
            (Token::True, Token::True) => true,
            (Token::False, Token::False) => true,
            (Token::If, Token::If) => true,
            (Token::Else, Token::Else) => true,
            (Token::Return, Token::Return) => true,
            (Token::And, Token::And) => true,
            (Token::Or, Token::Or) => true,
            _ => false,
        }
    }
}

impl vstd::std_specs::cmp::PartialEqSpecImpl for Token {
    open spec fn obeys_eq_spec() -> bool {
        true
    }

    open spec fn eq_spec(&self, other: &Token) -> bool {
        token_eq_spec(*self, *other)
    }
}

/// Compares two string slices character by character.
pub fn str_eq(a: &str, b: &str) -> (r: bool)
    ensures
        r == (a@ == b@),
{
    let alen = a.unicode_len();
    let blen = b.unicode_len();
    if alen != blen {
        return false;
    }
    let mut i: usize = 0;
    while i < alen
        invariant
            alen == a@.len(),
            alen == b@.len(),
            i <= alen,
            forall|j: int| 0 <= j < i ==> a@[j] == b@[j],
        decreases alen - i,
    {
        if a.get_char(i) != b.get_char(i) {
            return false;
        }
        i = i + 1;
    }
    proof {
        assert(a@ =~= b@);
    }
    true
}

/// The keyword that a name denotes, if any.
pub open spec fn keyword_of(s: Seq<char>) -> Option<Token> {
    if s == "fn"@ {
        Some(Token::Fn)
    } else if s == "let"@ {
        Some(Token::Let)
    } else if s == "true"@ {
        Some(Token::True)
    } else if s == "false"@ {
        Some(Token::False)
    } else if s == "if"@ {
        Some(Token::If)
    } else if s == "else"@ {
        Some(Token::Else)
    } else if s == "and"@ {
        Some(Token::And)
    } else if s == "or"@ {
        Some(Token::Or)
    } else if s == "return"@ {
        Some(Token::Return)
    } else {
        None
    }
}

/// Relates a scanned name to the token the lexer emits for it: the keyword
/// token where the name is a keyword, an identifier token carrying the name
/// otherwise.
pub open spec fn name_token(s: Seq<char>, t: Token) -> bool {
    match keyword_of(s) {
        Some(k) => t == k,
        None => t matches Token::Identifier(name) && name@ == s,
    }
}

/// Maps a scanned name to its token: keywords to their keyword token,
/// everything else to an identifier token.
pub fn get_identifier(idnt: &str) -> (t: Token)
    ensures
        name_token(idnt@, t),
{
    if str_eq(idnt, "fn") {
        Token::Fn
    } else if str_eq(idnt, "let") {
        Token::Let
    } else if str_eq(idnt, "true") {
        Token::True
    } else if str_eq(idnt, "false") {
        Token::False
    } else if str_eq(idnt, "if") {
        Token::If
    } else if str_eq(idnt, "else") {
        Token::Else
    } else if str_eq(idnt, "and") {
        Token::And
    } else if str_eq(idnt, "or") {
        Token::Or
    } else if str_eq(idnt, "return") {
        Token::Return
    } else {
        Token::Identifier(String::from_str(idnt))
    }
}

/// Tokens equal under `token_eq_spec` share their shape: the relation is
/// symmetric, and the two tokens agree on every variant test and on their
/// operator role.
pub proof fn lemma_token_eq_shape(a: Token, b: Token)
    requires
        token_eq_spec(a, b),
    ensures
        token_eq_spec(b, a),
        (a is Eof) == (b is Eof),
        (a is Comma) == (b is Comma),
        (a is Let) == (b is Let),
        (a is Semicolon) == (b is Semicolon),
        (a is Int) == (b is Int),
        (a is Identifier) == (b is Identifier),
        (a is RightBrace) == (b is RightBrace),
        (a is LeftBrace) == (b is LeftBrace),
        (a is RightBracket) == (b is RightBracket),
        (a is RightParanthesis) == (b is RightParanthesis),
        (a is Else) == (b is Else),
{
}

/// Relies on `String::push`: appends one character at the end of the string.
#[verifier::external_body]
pub fn push_char(s: &mut String, c: char)
    ensures
        final(s)@ == old(s)@.push(c),
{
    s.push(c);
}

/// The digit character of a decimal digit.
pub open spec fn digit_char(d: int) -> char {
    if d == 0 {
        '0'
    } else if d == 1 {
        '1'
    } else if d == 2 {
        '2'
    } else if d == 3 {
        '3'
    } else if d == 4 {
        '4'
    } else if d == 5 {
        '5'
    } else if d == 6 {
        '6'
    } else if d == 7 {
        '7'
    } else if d == 8 {
        '8'
    } else {
        '9'
    }
}

/// The decimal digits of a number, most significant first.
pub open spec fn dec_digits(n: int) -> Seq<char>
    decreases n,
{
    if n < 10 {
        seq![digit_char(n)]
    } else {
        dec_digits(n / 10).push(digit_char(n % 10))
    }
}

/// A decimal representation is never empty and holds digits only.
pub proof fn lemma_dec_digits_are_digits(n: int)
    requires
        n >= 0,
    ensures
        dec_digits(n).len() >= 1,
        forall|m: int| 0 <= m < dec_digits(n).len() ==> ('0' as int) <= (
        #[trigger] dec_digits(n)[m] as int) <= ('9' as int),
    decreases n,
{
    if n >= 10 {
        lemma_dec_digits_are_digits(n / 10);
        assert forall|m: int| 0 <= m < dec_digits(n).len() implies ('0' as int) <= (
        #[trigger] dec_digits(n)[m] as int) <= ('9' as int) by {
            if m < dec_digits(n).len() - 1 {
                assert(dec_digits(n)[m] == dec_digits(n / 10)[m]);
            } else {
                assert(dec_digits(n)[m] == digit_char(n % 10));
            }
        }
    }
}

/// Writes a non-negative number in decimal.
pub fn int_to_string(n: i64) -> (r: String)
    requires
        n >= 0,
    ensures
        r@ == dec_digits(n as int),
    decreases n,
{
    if n < 10 {
        let mut s = String::new();
        push_char(&mut s, digit_of(n));
        s
    } else {
        let mut s = int_to_string(n / 10);
        push_char(&mut s, digit_of(n % 10));
        s
    }
}

/// The digit character of a decimal digit.
pub fn digit_of(d: i64) -> (c: char)
    requires
        0 <= d <= 9,
    ensures
        c == digit_char(d as int),
{
    if d == 0 {
        '0'
    } else if d == 1 {
        '1'
    } else if d == 2 {
        '2'
    } else if d == 3 {
        '3'
    } else if d == 4 {
        '4'
    } else if d == 5 {
        '5'
    } else if d == 6 {
        '6'
    } else if d == 7 {
        '7'
    } else if d == 8 {
        '8'
    } else {
        '9'
    }
}

/// A short text for each token, as diagnostics show them.
pub fn token_text(t: &Token) -> (r: String)
{
    match t {
        Token::Eof => String::from_str("end of input"),
        Token::Illegal => String::from_str("illegal token"),
        Token::Identifier(name) => name.clone(),
        Token::Int(n) => {
            if *n >= 0 {
                int_to_string(*n)
            } else {
                String::from_str("integer")
            }
        },
        Token::Assign => String::from_str("="),
        Token::Equal => String::from_str("=="),
        Token::NotEqual => String::from_str("!="),
        Token::LessThan => String::from_str("<"),
        Token::LessThanAndEqual => String::from_str("<="),
        Token::MoreThan => String::from_str(">"),
        Token::MoreThanAndEqual => String::from_str(">="),
        Token::Plus => String::from_str("+"),
        Token::Increment => String::from_str("++"),
        Token::Minus => String::from_str("-"),
        Token::Decrement => String::from_str("--"),
        Token::Asterisk => String::from_str("*"),
        Token::Slash => String::from_str("/"),
        Token::Exclamation => String::from_str("!"),
        Token::Comma => String::from_str(","),
        Token::Semicolon => String::from_str(";"),
        Token::LeftParanthesis => String::from_str("("),
        Token::RightParanthesis => String::from_str(")"),
        Token::LeftBrace => String::from_str("{"),
        Token::RightBrace => String::from_str("}"),
        Token::LeftBracket => String::from_str("["),
        Token::RightBracket => String::from_str("]"),
        Token::Let => String::from_str("let"),
        Token::Fn => String::from_str("fn"),
        Token::True => String::from_str("true"),
        Token::False => String::from_str("false"),
        Token::If => String::from_str("if"),
        Token::Else => String::from_str("else"),
        Token::Return => String::from_str("return"),
        Token::And => String::from_str("and"),
        Token::Or => String::from_str("or"),
    }
}

} // verus!
