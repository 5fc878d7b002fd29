//! The character-level scanner: turns source text into tokens, one at a
//! time. Its contract pins each emitted token to the character classes of
//! the text, so the parser's callers can reason from the text itself.
use vstd::prelude::*;
use vstd::string::StrSliceExecFns;
use crate::token::{Token, get_identifier, name_token, token_eq_spec, keyword_of, push_char, dec_digits, digit_char, lemma_dec_digits_are_digits};

verus! {

/// The letter class: ASCII letters and the underscore.
pub open spec fn is_letter_char(c: char) -> bool {
    ('a' as int) <= (c as int) <= ('z' as int) || ('A' as int) <= (c as int) <= ('Z' as int) || c
        == '_'
}

/// The digit class.
pub open spec fn is_digit_char(c: char) -> bool {
    ('0' as int) <= (c as int) <= ('9' as int)
}

/// The whitespace class: blank, tab and line ends.
pub open spec fn is_ws_char(c: char) -> bool {
    c == ' ' || c == '\t' || c == '\n' || c == '\r'
}

/// Tests for the letter class.
pub fn is_letter(ch: char) -> (r: bool)
    ensures
        r == is_letter_char(ch),
{
    let u = ch as u32;
    (('a' as u32) <= u && u <= ('z' as u32)) || (('A' as u32) <= u && u <= ('Z' as u32)) || ch
        == '_'
}

/// Tests for the digit class.
pub fn is_digit(ch: char) -> (r: bool)
    ensures
        r == is_digit_char(ch),
{
    let u = ch as u32;
    ('0' as u32) <= u && u <= ('9' as u32)
}

/// Tests for the whitespace class.
pub fn is_whitespace(ch: char) -> (r: bool)
    ensures
        r == is_ws_char(ch),
{
    ch == ' ' || ch == '\t' || ch == '\n' || ch == '\r'
}

/// The first position at or after `i` that holds no whitespace.
pub open spec fn skip_ws_from(s: Seq<char>, i: int) -> int
    decreases s.len() - i,
{
    if 0 <= i < s.len() && is_ws_char(s[i]) {
        skip_ws_from(s, i + 1)
    } else {
        i
    }
}

/// The end of the letter run that starts at `i`.
pub open spec fn ident_end(s: Seq<char>, i: int) -> int
    decreases s.len() - i,
{
    if 0 <= i < s.len() && is_letter_char(s[i]) {
        ident_end(s, i + 1)
    } else {
        i
    }
}

/// The end of the digit run that starts at `i`.
pub open spec fn digits_end(s: Seq<char>, i: int) -> int
    decreases s.len() - i,
{
    if 0 <= i < s.len() && is_digit_char(s[i]) {
        digits_end(s, i + 1)
    } else {
        i
    }
}

/// The number that the digits of `s` between `i` and `end` denote.
pub open spec fn digits_val(s: Seq<char>, i: int, end: int) -> int
    decreases end - i,
{
    if i >= end {
        0
    } else {
        digits_val(s, i, end - 1) * 10 + ((s[end - 1] as int) - ('0' as int))
    }
}

/// A digit run's value is never negative.
pub proof fn lemma_digits_val_nonneg(s: Seq<char>, i: int, j: int)
    requires
        0 <= i <= j <= s.len(),
        forall|m: int| i <= m < j ==> is_digit_char(#[trigger] s[m]),
    ensures
        digits_val(s, i, j) >= 0,
    decreases j - i,
{
    if j > i {
        lemma_digits_val_nonneg(s, i, j - 1);
        assert(is_digit_char(s[j - 1]));
    }
}

/// A digit run's value never shrinks as the run grows.
pub proof fn lemma_digits_val_grows(s: Seq<char>, i: int, j: int, k: int)
    requires
        0 <= i <= j <= k <= s.len(),
        forall|m: int| i <= m < k ==> is_digit_char(#[trigger] s[m]),
    ensures
        digits_val(s, i, j) <= digits_val(s, i, k),
    decreases k - j,
{
    if j < k {
        lemma_digits_val_grows(s, i, j, k - 1);
        lemma_digits_val_nonneg(s, i, k - 1);
        assert(is_digit_char(s[k - 1]));
        assert(digits_val(s, i, k) == digits_val(s, i, k - 1) * 10 + ((s[k - 1] as int) - (
        '0' as int)));
    }
}

/// The token that the text yields from a position, and where the scan stops:
/// whitespace is passed over; then the head characters decide the token.
pub open spec fn token_scan(s: Seq<char>, start: int, t: Token, end: int) -> bool {
    let p = skip_ws_from(s, start);
    if p >= s.len() {
        t == Token::Eof && end == p
    } else {
        let c = s[p];
        if c == '=' {
            if p + 1 < s.len() && s[p + 1] == '=' {
                t == Token::Equal && end == p + 2
            } else {
                t == Token::Assign && end == p + 1
            }
        } else if c == '!' {
            if p + 1 < s.len() && s[p + 1] == '=' {
                t == Token::NotEqual && end == p + 2
            } else {
                t == Token::Exclamation && end == p + 1
            }
        } else if c == '+' {
            if p + 1 < s.len() && s[p + 1] == '+' {
                t == Token::Increment && end == p + 2
            } else {
                t == Token::Plus && end == p + 1
            }
        } else if c == '-' {
            if p + 1 < s.len() && s[p + 1] == '-' {
                t == Token::Decrement && end == p + 2
            } else {
                t == Token::Minus && end == p + 1
            }
        } else if c == '>' {
            if p + 1 < s.len() && s[p + 1] == '=' {
                t == Token::MoreThanAndEqual && end == p + 2
            } else {
                t == Token::MoreThan && end == p + 1
            }
        } else if c == '<' {
            if p + 1 < s.len() && s[p + 1] == '=' {
                t == Token::LessThanAndEqual && end == p + 2
            } else {
                t == Token::LessThan && end == p + 1
            }
        } else if c == '/' {
            t == Token::Slash && end == p + 1
        } else if c == '*' {
            t == Token::Asterisk && end == p + 1
        } else if c == ';' {
            t == Token::Semicolon && end == p + 1
        } else if c == ',' {
            t == Token::Comma && end == p + 1
        } else if c == '(' {
            t == Token::LeftParanthesis && end == p + 1
        } else if c == ')' {
            t == Token::RightParanthesis && end == p + 1
        } else if c == '{' {
            t == Token::LeftBrace && end == p + 1
        } else if c == '}' {
            t == Token::RightBrace && end == p + 1
        } else if c == '[' {
            t == Token::LeftBracket && end == p + 1
        } else if c == ']' {
            t == Token::RightBracket && end == p + 1
        } else if is_letter_char(c) {
            name_token(s.subrange(p, ident_end(s, p)), t) && end == ident_end(s, p)
        } else if is_digit_char(c) {
            let e = digits_end(s, p);
            end == e && if digits_val(s, p, e) <= i64::MAX {
                t == Token::Int(digits_val(s, p, e) as i64)
            } else {
                t == Token::Illegal
            }
        } else {
            t == Token::Illegal && end == p + 1
        }
    }
}

/// The scanner: the text as characters and the position of the next one.
pub struct Lexer {
    input: Vec<char>,
    pos: usize,
}

impl Lexer {
    /// The whole text being scanned.
    pub closed spec fn text(self) -> Seq<char> {
        self.input@
    }

    /// The position of the next character to read.
    pub closed spec fn at(self) -> int {
        self.pos as int
    }

    #[verifier::type_invariant]
    spec fn wf(self) -> bool {
        self.pos <= self.input@.len()
    }

    /// The scanner's position, which never leaves the text.
    pub fn position(&self) -> (r: usize)
        ensures
            r as int == self.at(),
            0 <= self.at() <= self.text().len(),
    {
        proof {
            use_type_invariant(&*self);
        }
        self.pos
    }

    /// Drains the rest of the text, leaving the scanner at the end.
    pub fn finish(&mut self)
        ensures
            final(self).text() == old(self).text(),
            final(self).at() == final(self).text().len(),
    {
        proof {
            use_type_invariant(&*self);
        }
        self.pos = self.input.len();
    }

    /// A scanner over the given text, at its start.
    pub fn new(input: &str) -> (l: Lexer)
        ensures
            l.text() == input@,
            l.at() == 0,
    {
        let n = input.unicode_len();
        let mut chars: Vec<char> = Vec::new();
        let mut i: usize = 0;
        while i < n
            invariant
                i <= n,
                n == input@.len(),
                chars@.len() == i,
                forall|j: int| 0 <= j < i ==> chars@[j] == input@[j],
            decreases n - i,
        {
            let c = input.get_char(i);
            chars.push(c);
            i = i + 1;
        }
        proof {
            assert(chars@ =~= input@);
        }
        Lexer { input: chars, pos: 0 }
    }

    /// Hands out the next character and steps past it, nothing at the end.
    pub fn read_char(&mut self) -> (r: Option<char>)
        ensures
            final(self).text() == old(self).text(),
            old(self).at() < old(self).text().len() ==> r == Some(
                old(self).text()[old(self).at()],
            ) && final(self).at() == old(self).at() + 1,
            old(self).at() >= old(self).text().len() ==> r is None && final(self).at() == old(
                self,
            ).at(),
    {
        proof {
            use_type_invariant(&*self);
        }
        if self.pos < self.input.len() {
            let c = self.input[self.pos];
            self.pos = self.pos + 1;
            Some(c)
        } else {
            None
        }
    }

    /// Hands out the next character without stepping.
    pub fn peek_char(&self) -> (r: Option<char>)
        ensures
            self.at() < self.text().len() ==> r == Some(self.text()[self.at()]),
            self.at() >= self.text().len() ==> r is None,
    {
        proof {
            use_type_invariant(&*self);
        }
        if self.pos < self.input.len() {
            Some(self.input[self.pos])
        } else {
            None
        }
    }

    /// Whether the next character is exactly `ch`.
    pub fn peek_char_eq(&self, ch: char) -> (r: bool)
        ensures
            r == (self.at() < self.text().len() && self.text()[self.at()] == ch),
    {
        match self.peek_char() {
            Some(peek_ch) => peek_ch == ch,
            None => false,
        }
    }

    /// Whether the next character is whitespace.
    fn peek_is_ws(&self) -> (r: bool)
        ensures
            r == (self.at() < self.text().len() && is_ws_char(self.text()[self.at()])),
    {
        match self.peek_char() {
            Some(c) => is_whitespace(c),
            None => false,
        }
    }

    /// Steps past whitespace.
    fn skip_whitespace(&mut self)
        ensures
            final(self).text() == old(self).text(),
            final(self).at() == skip_ws_from(old(self).text(), old(self).at()),
    {
        proof {
            use_type_invariant(&*self);
        }
        while self.peek_is_ws()
            invariant
                self.at() <= self.text().len(),
                self.text() == old(self).text(),
                skip_ws_from(self.text(), self.at()) == skip_ws_from(
                    old(self).text(),
                    old(self).at(),
                ),
            decreases self.text().len() - self.at(),
        {
            self.read_char();
        }
    }

    /// Whether the next character is a letter.
    fn peek_is_letter(&self) -> (r: bool)
        ensures
            r == (self.at() < self.text().len() && is_letter_char(self.text()[self.at()])),
    {
        match self.peek_char() {
            Some(ch) => is_letter(ch),
            None => false,
        }
    }

    /// Reads the rest of a name whose first letter was already consumed.
    fn read_identifier(&mut self, first: char) -> (r: String)
        ensures
            final(self).text() == old(self).text(),
            final(self).at() == ident_end(old(self).text(), old(self).at()),
            r@ == seq![first] + old(self).text().subrange(old(self).at(), final(self).at()),
    {
        proof {
            use_type_invariant(&*self);
            assert(self.text().subrange(old(self).at(), old(self).at()) =~= Seq::<
                char,
            >::empty());
        }
        let mut ident = String::new();
        push_char(&mut ident, first);
        while self.peek_is_letter()
            invariant
                self.text() == old(self).text(),
                old(self).at() <= self.at() <= self.text().len(),
                ident_end(self.text(), self.at()) == ident_end(old(self).text(), old(self).at()),
                ident@ == seq![first] + self.text().subrange(old(self).at(), self.at()),
            decreases self.text().len() - self.at(),
        {
            let ghost pos0 = self.at();
            match self.read_char() {
                Some(ch) => {
                    push_char(&mut ident, ch);
                    proof {
                        assert(self.text().subrange(old(self).at(), self.at()) =~= self.text()
                            .subrange(old(self).at(), pos0).push(self.text()[pos0]));
                    }
                },
                None => {
                    proof {
                        assert(false);
                    }
                },
            }
        }
        ident
    }

    /// Whether the next character is a digit.
    fn peek_is_digit(&self) -> (r: bool)
        ensures
            r == (self.at() < self.text().len() && is_digit_char(self.text()[self.at()])),
    {
        match self.peek_char() {
            Some(c) => is_digit(c),
            None => false,
        }
    }

    /// Reads the rest of a number whose first digit was already consumed,
    /// handing back its value, or nothing where the run does not fit the
    /// integer type.
    fn read_number(&mut self, first: char) -> (r: Option<i64>)
        requires
            old(self).at() >= 1,
            old(self).at() <= old(self).text().len(),
            old(self).text()[old(self).at() - 1] == first,
            is_digit_char(first),
        ensures
            final(self).text() == old(self).text(),
            final(self).at() == digits_end(old(self).text(), old(self).at()),
            ({
                let v = digits_val(old(self).text(), old(self).at() - 1, final(self).at());
                match r {
                    Some(n) => v <= i64::MAX && n as int == v,
                    None => v > i64::MAX,
                }
            }),
    {
        let ghost s = old(self).text();
        let ghost start = old(self).at() - 1;
        let mut acc: i64 = (first as u32 as i64) - ('0' as u32 as i64);
        let mut overflowed = false;
        proof {
            use_type_invariant(&*self);
            assert((first as u32) as int == first as int);
            assert(digits_val(s, start, start) == 0);
            assert(digits_val(s, start, start + 1) == 0 * 10 + ((s[start] as int) - ('0' as int)));
            assert(digits_val(s, start, start + 1) == acc as int);
        }
        while self.peek_is_digit()
            invariant
                self.wf(),
                self.text() == s,
                start + 1 <= self.at() <= self.text().len(),
                start == old(self).at() - 1,
                0 <= start < s.len(),
                s[start] == first,
                is_digit_char(first),
                forall|m: int| start <= m < self.at() ==> is_digit_char(#[trigger] s[m]),
                digits_end(s, self.at()) == digits_end(s, old(self).at()),
                !overflowed ==> acc >= 0 && acc as int == digits_val(s, start, self.at()),
                overflowed ==> digits_val(s, start, self.at()) > i64::MAX,
            decreases self.text().len() - self.at(),
        {
            let ghost pos0 = self.at();
            match self.read_char() {
                Some(c) => {
                    let d = (c as u32 as i64) - ('0' as u32 as i64);
                    if !overflowed {
                        let stepped = match acc.checked_mul(10) {
                            Some(m) => m.checked_add(d),
                            None => None,
                        };
                        match stepped {
                            Some(v) => {
                                acc = v;
                            },
                            None => {
                                overflowed = true;
                                proof {
                                    assert(digits_val(s, start, pos0 + 1) == digits_val(
                                        s,
                                        start,
                                        pos0,
                                    ) * 10 + ((s[pos0] as int) - ('0' as int)));
                                }
                            },
                        }
                    } else {
                        proof {
                            lemma_digits_val_grows(s, start, pos0, pos0 + 1);
                        }
                    }
                },
                None => {
                    proof {
                        assert(false);
                    }
                },
            }
        }
        if overflowed {
            None
        } else {
            Some(acc)
        }
    }

    /// Scans and hands out the next token.
    pub fn next_token(&mut self) -> (t: Token)
        ensures
            final(self).text() == old(self).text(),
            token_scan(old(self).text(), old(self).at(), t, final(self).at()),
            old(self).at() <= final(self).at() <= old(self).text().len(),
            !(t is Eof) ==> final(self).at() > old(self).at(),
            t is Eof ==> final(self).at() == old(self).text().len(),
    {
        proof {
            use_type_invariant(&*self);
        }
        let ghost s = old(self).text();
        self.skip_whitespace();
        let ghost p = self.at();
        proof {
            lemma_skip_ws_bounds(s, old(self).at());
        }
        match self.read_char() {
            Some('=') => {
                if self.peek_char_eq('=') {
                    self.read_char();
                    Token::Equal
                } else {
                    Token::Assign
                }
            },
            Some('!') => {
                if self.peek_char_eq('=') {
                    self.read_char();
                    Token::NotEqual
                } else {
                    Token::Exclamation
                }
            },
            Some('+') => {
                if self.peek_char_eq('+') {
                    self.read_char();
                    Token::Increment
                } else {
                    Token::Plus
                }
            },
            Some('-') => {
                if self.peek_char_eq('-') {
                    self.read_char();
                    Token::Decrement
                } else {
                    Token::Minus
                }
            },
            Some('>') => {
                if self.peek_char_eq('=') {
                    self.read_char();
                    Token::MoreThanAndEqual
                } else {
                    Token::MoreThan
                }
            },
            Some('<') => {
                if self.peek_char_eq('=') {
                    self.read_char();
                    Token::LessThanAndEqual
                } else {
                    Token::LessThan
                }
            },
            Some('/') => Token::Slash,
            Some('*') => Token::Asterisk,
            Some(';') => Token::Semicolon,
            Some(',') => Token::Comma,
            Some('(') => Token::LeftParanthesis,
            Some(')') => Token::RightParanthesis,
            Some('{') => Token::LeftBrace,
            Some('}') => Token::RightBrace,
            Some('[') => Token::LeftBracket,
            Some(']') => Token::RightBracket,
            Some(ch) => {
                if is_letter(ch) {
                    proof {
                        lemma_ident_end_bounds(s, p + 1);
                    }
                    let literal = self.read_identifier(ch);
                    proof {
                        assert(ident_end(s, p) == ident_end(s, p + 1));
                        assert(seq![ch] + s.subrange(p + 1, ident_end(s, p + 1)) =~= s.subrange(
                            p,
                            ident_end(s, p),
                        ));
                    }
                    get_identifier(literal.as_str())
                } else if is_digit(ch) {
                    proof {
                        lemma_digits_end_bounds(s, p + 1);
                        assert(digits_end(s, p) == digits_end(s, p + 1));
                    }
                    match self.read_number(ch) {
                        Some(n) => Token::Int(n),
                        None => Token::Illegal,
                    }
                } else {
                    Token::Illegal
                }
            },
            None => Token::Eof,
        }
    }
}

/// A letter run never runs past the end of the text.
pub proof fn lemma_ident_end_bounds(s: Seq<char>, i: int)
    requires
        0 <= i <= s.len(),
    ensures
        i <= ident_end(s, i) <= s.len(),
    decreases s.len() - i,
{
    if i < s.len() && is_letter_char(s[i]) {
        lemma_ident_end_bounds(s, i + 1);
    }
}

/// A digit run never runs past the end of the text.
pub proof fn lemma_digits_end_bounds(s: Seq<char>, i: int)
    requires
        0 <= i <= s.len(),
    ensures
        i <= digits_end(s, i) <= s.len(),
    decreases s.len() - i,
{
    if i < s.len() && is_digit_char(s[i]) {
        lemma_digits_end_bounds(s, i + 1);
    }
}

/// Where a digit run ends: at the first non-digit after its start.
pub proof fn lemma_digits_end_is(s: Seq<char>, i: int, k: int)
    requires
        0 <= i <= k <= s.len(),
        forall|m: int| i <= m < k ==> is_digit_char(#[trigger] s[m]),
        k == s.len() || !is_digit_char(s[k]),
    ensures
        digits_end(s, i) == k,
    decreases k - i,
{
    if i < k {
        lemma_digits_end_is(s, i + 1, k);
        assert(is_digit_char(s[i]));
    }
}

/// A decimal digit character stands for its value and is in the digit class.
pub proof fn lemma_digit_char_val(d: int)
    requires
        0 <= d <= 9,
    ensures
        (digit_char(d) as int) - ('0' as int) == d,
        is_digit_char(digit_char(d)),
{
}

/// The digits of a number written into a text scan back to that number.
pub proof fn lemma_digits_val_of_rep(t: Seq<char>, p: int, n: int)
    requires
        n >= 0,
        0 <= p,
        p + dec_digits(n).len() <= t.len(),
        t.subrange(p, p + dec_digits(n).len()) == dec_digits(n),
    ensures
        digits_val(t, p, p + dec_digits(n).len()) == n,
        forall|m: int| p <= m < p + dec_digits(n).len() ==> is_digit_char(#[trigger] t[m]),
    decreases n,
{
    let k = dec_digits(n).len() as int;
    assert forall|m: int| p <= m < p + k implies is_digit_char(#[trigger] t[m]) by {
        lemma_dec_digits_are_digits(n);
        assert(t.subrange(p, p + k)[m - p] == t[m]);
        assert(dec_digits(n)[m - p] as int >= '0' as int && dec_digits(n)[m - p] as int
            <= '9' as int);
    }
    if n < 10 {
        assert(t.subrange(p, p + 1)[0] == t[p]);
        assert(t[p] == digit_char(n));
        lemma_digit_char_val(n);
        assert(digits_val(t, p, p) == 0);
    } else {
        let prefix = dec_digits(n / 10);
        assert(dec_digits(n) == prefix.push(digit_char(n % 10)));
        assert(prefix.len() == k - 1);
        assert(t.subrange(p, p + k - 1) =~= prefix) by {
            assert forall|m: int| 0 <= m < k - 1 implies t.subrange(p, p + k - 1)[m]
                == prefix[m] by {
                assert(t.subrange(p, p + k - 1)[m] == t[p + m]);
                assert(t.subrange(p, p + k)[m] == t[p + m]);
                assert(dec_digits(n)[m] == prefix[m]);
            }
        }
        lemma_digits_val_of_rep(t, p, n / 10);
        assert(t.subrange(p, p + k)[k - 1] == t[p + k - 1]);
        assert(t[p + k - 1] == digit_char(n % 10));
        lemma_digit_char_val(n % 10);
        assert(digits_val(t, p, p + k) == digits_val(t, p, p + k - 1) * 10 + ((t[p + k
            - 1] as int) - ('0' as int)));
        assert(digits_val(t, p, p + k - 1) == n / 10);
        assert((n / 10) * 10 + n % 10 == n);
    }
}

/// From one position the scan yields one token (identifier payloads
/// compared as character sequences) and one end position.
pub proof fn lemma_token_scan_unique(
    s: Seq<char>,
    p: int,
    t1: Token,
    e1: int,
    t2: Token,
    e2: int,
)
    requires
        token_scan(s, p, t1, e1),
        token_scan(s, p, t2, e2),
    ensures
        token_eq_spec(t1, t2),
        e1 == e2,
{
}

/// Passing over whitespace never runs past the end of the text.
pub proof fn lemma_skip_ws_bounds(s: Seq<char>, i: int)
    requires
        0 <= i <= s.len(),
    ensures
        i <= skip_ws_from(s, i) <= s.len(),
        skip_ws_from(s, i) < s.len() ==> !is_ws_char(s[skip_ws_from(s, i)]),
    decreases s.len() - i,
{
    if i < s.len() && is_ws_char(s[i]) {
        lemma_skip_ws_bounds(s, i + 1);
    }
}

} // verus!
