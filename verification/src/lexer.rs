//! The scanner: from the bytes of a source text to tokens, one at a time.

use vstd::prelude::*;
use crate::text::{
    ascii_text, decoded, is_ascii_bytes, lemma_ascii_is_valid, lemma_between_ascii_is_valid, text_of,
};
use crate::token::{SpecToken, Token};

verus! {

pub const TAB: u8 = 9;
pub const LINE_FEED: u8 = 10;
pub const FORM_FEED: u8 = 12;
pub const CARRIAGE_RETURN: u8 = 13;
pub const SPACE: u8 = 32;
pub const BANG: u8 = 33;
pub const QUOTE: u8 = 34;
pub const AMPERSAND: u8 = 38;
pub const LPAREN: u8 = 40;
pub const RPAREN: u8 = 41;
pub const ASTERISK: u8 = 42;
pub const PLUS: u8 = 43;
pub const COMMA: u8 = 44;
pub const MINUS: u8 = 45;
pub const DOT: u8 = 46;
pub const SLASH: u8 = 47;
pub const SEMICOLON: u8 = 59;
pub const LESS: u8 = 60;
pub const ASSIGN: u8 = 61;
pub const GREATER: u8 = 62;
pub const UNDERSCORE: u8 = 95;
pub const LBRACE: u8 = 123;
pub const PIPE: u8 = 124;
pub const RBRACE: u8 = 125;

/// Why the scanner could not produce a token.
#[derive(Debug, Clone, Copy, PartialEq, Eq, Structural)]
pub enum LexError {
    /// A byte at which no token starts.
    IllegalCharacter { byte: u8, position: usize },
    /// A string literal whose closing quote is missing; `position` is where
    /// the opening quote stands.
    UnterminatedString { position: usize },
}

/// Whether `c` separates tokens without being one: space, tab, line feed,
/// form feed, carriage return.
pub open spec fn is_space(c: u8) -> bool {
    c == SPACE || c == TAB || c == LINE_FEED || c == FORM_FEED || c == CARRIAGE_RETURN
}

/// Whether `c` is an ASCII letter.
pub open spec fn is_letter(c: u8) -> bool {
    (65 <= c && c <= 90) || (97 <= c && c <= 122)
}

/// Whether `c` may stand in an identifier: a letter or an underscore.
pub open spec fn is_ident_byte(c: u8) -> bool {
    is_letter(c) || c == UNDERSCORE
}

/// Whether `c` is an ASCII digit.
pub open spec fn is_digit(c: u8) -> bool {
    48 <= c && c <= 57
}

/// The byte at `pos`, or 0 where `pos` is outside the text.
pub open spec fn byte_at(s: Seq<u8>, pos: int) -> u8 {
    if 0 <= pos < s.len() {
        s[pos]
    } else {
        0
    }
}

/// The first position at or after `pos` that holds no whitespace.
pub open spec fn skip_spaces(s: Seq<u8>, pos: int) -> int
    decreases s.len() - pos,
{
    if 0 <= pos < s.len() && is_space(s[pos]) {
        skip_spaces(s, pos + 1)
    } else {
        pos
    }
}

/// The first position at or after `pos` that holds no identifier byte.
pub open spec fn ident_end(s: Seq<u8>, pos: int) -> int
    decreases s.len() - pos,
{
    if 0 <= pos < s.len() && is_ident_byte(s[pos]) {
        ident_end(s, pos + 1)
    } else {
        pos
    }
}

/// Whether a number literal that has (`has_dot`) or has not yet taken its
/// decimal point goes on with the byte `c`.
pub open spec fn continues_number(c: u8, has_dot: bool) -> bool {
    is_digit(c) || (c == DOT && !has_dot)
}

/// Where the number literal ends that is being read at `pos`: digits, and one
/// decimal point at most.
pub open spec fn number_end(s: Seq<u8>, pos: int, has_dot: bool) -> int
    decreases s.len() - pos,
{
    if 0 <= pos < s.len() && continues_number(s[pos], has_dot) {
        number_end(s, pos + 1, has_dot || s[pos] == DOT)
    } else {
        pos
    }
}

/// The position of the first `delimiter` at or after `pos`, or the length of
/// the text where there is none.
pub open spec fn delimiter_at(s: Seq<u8>, pos: int, delimiter: u8) -> int
    decreases s.len() - pos,
{
    if 0 <= pos < s.len() && s[pos] != delimiter {
        delimiter_at(s, pos + 1, delimiter)
    } else {
        pos
    }
}

/// The token that a word of letters and underscores is: a keyword where the
/// keyword table lists it, an identifier otherwise.
pub open spec fn word_token(word: Seq<char>) -> SpecToken {
    if word == "function"@ {
        SpecToken::Function
    } else if word == "let"@ {
        SpecToken::Let
    } else if word == "if"@ {
        SpecToken::If
    } else if word == "else"@ {
        SpecToken::Else
    } else if word == "while"@ {
        SpecToken::While
    } else if word == "for"@ {
        SpecToken::For
    } else if word == "do"@ {
        SpecToken::Do
    } else if word == "return"@ {
        SpecToken::Return
    } else if word == "true"@ {
        SpecToken::True
    } else if word == "false"@ {
        SpecToken::False
    } else if word == "null"@ {
        SpecToken::Null
    } else if word == "print"@ {
        SpecToken::Print
    } else {
        SpecToken::Ident(word)
    }
}

/// What scanning one token yields: the token or the error, and the position
/// after it. After an error the position is that of the offending byte.
pub struct Scanned {
    pub token: Result<SpecToken, LexError>,
    pub next: int,
}

/// A token that takes `width` bytes at `pos`.
pub open spec fn fixed(token: SpecToken, pos: int, width: int) -> Scanned {
    Scanned { token: Ok(token), next: pos + width }
}

/// The operator at `pos` that is `long` where the byte after it is `second`,
/// and `short` otherwise.
pub open spec fn one_or_two(s: Seq<u8>, pos: int, second: u8, long: SpecToken, short: SpecToken)
    -> Scanned {
    if byte_at(s, pos + 1) == second {
        fixed(long, pos, 2)
    } else {
        fixed(short, pos, 1)
    }
}

/// The operator at `pos` that needs its byte twice (`&&`, `||`); a single
/// one is no token.
pub open spec fn doubled(s: Seq<u8>, pos: int, token: SpecToken) -> Scanned {
    if byte_at(s, pos + 1) == s[pos] {
        fixed(token, pos, 2)
    } else {
        Scanned {
            token: Err(LexError::IllegalCharacter { byte: s[pos], position: pos as usize }),
            next: pos,
        }
    }
}

/// The token that starts at `pos`, where `pos` holds no whitespace.
pub open spec fn scan(s: Seq<u8>, pos: int) -> Scanned {
    if !(0 <= pos < s.len()) {
        Scanned { token: Ok(SpecToken::Eof), next: pos }
    } else {
        let c = s[pos];
        if c == LBRACE {
            fixed(SpecToken::LSquirly, pos, 1)
        } else if c == RBRACE {
            fixed(SpecToken::RSquirly, pos, 1)
        } else if c == LPAREN {
            fixed(SpecToken::Lparen, pos, 1)
        } else if c == RPAREN {
            fixed(SpecToken::Rparen, pos, 1)
        } else if c == COMMA {
            fixed(SpecToken::Comma, pos, 1)
        } else if c == SEMICOLON {
            fixed(SpecToken::Semicolon, pos, 1)
        } else if c == PLUS {
            fixed(SpecToken::Plus, pos, 1)
        } else if c == MINUS {
            fixed(SpecToken::Minus, pos, 1)
        } else if c == ASTERISK {
            fixed(SpecToken::Asterisk, pos, 1)
        } else if c == SLASH {
            fixed(SpecToken::ForwardSlash, pos, 1)
        } else if c == ASSIGN {
            one_or_two(s, pos, ASSIGN, SpecToken::Equal, SpecToken::Assign)
        } else if c == LESS {
            one_or_two(s, pos, ASSIGN, SpecToken::LessThanOrEqual, SpecToken::LessThan)
        } else if c == GREATER {
            one_or_two(s, pos, ASSIGN, SpecToken::GreaterThanOrEqual, SpecToken::GreaterThan)
        } else if c == BANG {
            one_or_two(s, pos, ASSIGN, SpecToken::NotEqual, SpecToken::Bang)
        } else if c == AMPERSAND {
            doubled(s, pos, SpecToken::And)
        } else if c == PIPE {
            doubled(s, pos, SpecToken::Or)
        } else if c == QUOTE {
            let close = delimiter_at(s, pos + 1, QUOTE);
            if close < s.len() {
                Scanned {
                    token: Ok(SpecToken::String(decoded(s.subrange(pos + 1, close)))),
                    next: close + 1,
                }
            } else {
                Scanned {
                    token: Err(LexError::UnterminatedString { position: pos as usize }),
                    next: pos,
                }
            }
        } else if is_ident_byte(c) {
            let end = ident_end(s, pos);
            Scanned { token: Ok(word_token(ascii_text(s.subrange(pos, end)))), next: end }
        } else if is_digit(c) || c == DOT {
            let end = number_end(s, pos, false);
            Scanned { token: Ok(SpecToken::Number(ascii_text(s.subrange(pos, end)))), next: end }
        } else {
            Scanned {
                token: Err(LexError::IllegalCharacter { byte: c, position: pos as usize }),
                next: pos,
            }
        }
    }
}

/// The next token of the text `s` for a scanner that stands at `pos`:
/// whitespace is skipped, then one token is scanned.
#[verifier::opaque]
pub open spec fn next_token_at(s: Seq<u8>, pos: int) -> Scanned {
    scan(s, skip_spaces(s, pos))
}

/// `skip_spaces` stays inside the text, never goes back, and stops at a byte
/// that is no whitespace.
pub proof fn lemma_skip_spaces(s: Seq<u8>, pos: int)
    requires
        0 <= pos <= s.len(),
    ensures
        pos <= skip_spaces(s, pos) <= s.len(),
        skip_spaces(s, pos) < s.len() ==> !is_space(s[skip_spaces(s, pos)]),
        forall|i: int| pos <= i < skip_spaces(s, pos) ==> is_space(#[trigger] s[i]),
    decreases s.len() - pos,
{
    if pos < s.len() && is_space(s[pos]) {
        lemma_skip_spaces(s, pos + 1);
    }
}

/// `ident_end` stays inside the text, and every byte up to it is an
/// identifier byte.
pub proof fn lemma_ident_end(s: Seq<u8>, pos: int)
    requires
        0 <= pos <= s.len(),
    ensures
        pos <= ident_end(s, pos) <= s.len(),
        forall|i: int| pos <= i < ident_end(s, pos) ==> is_ident_byte(#[trigger] s[i]),
        ident_end(s, pos) < s.len() ==> !is_ident_byte(s[ident_end(s, pos)]),
    decreases s.len() - pos,
{
    if pos < s.len() && is_ident_byte(s[pos]) {
        lemma_ident_end(s, pos + 1);
    }
}

/// `number_end` stays inside the text, and every byte up to it is a digit or
/// a decimal point.
pub proof fn lemma_number_end(s: Seq<u8>, pos: int, has_dot: bool)
    requires
        0 <= pos <= s.len(),
    ensures
        pos <= number_end(s, pos, has_dot) <= s.len(),
        forall|i: int|
            pos <= i < number_end(s, pos, has_dot) ==> (is_digit(#[trigger] s[i]) || s[i] == DOT),
    decreases s.len() - pos,
{
    if pos < s.len() && continues_number(s[pos], has_dot) {
        lemma_number_end(s, pos + 1, has_dot || s[pos] == DOT);
    }
}

/// `delimiter_at` stays inside the text, and no byte up to it is the
/// delimiter.
pub proof fn lemma_delimiter_at(s: Seq<u8>, pos: int, delimiter: u8)
    requires
        0 <= pos <= s.len(),
    ensures
        pos <= delimiter_at(s, pos, delimiter) <= s.len(),
        forall|i: int| pos <= i < delimiter_at(s, pos, delimiter) ==> #[trigger] s[i] != delimiter,
        delimiter_at(s, pos, delimiter) < s.len() ==> s[delimiter_at(s, pos, delimiter)]
            == delimiter,
    decreases s.len() - pos,
{
    if pos < s.len() && s[pos] != delimiter {
        lemma_delimiter_at(s, pos + 1, delimiter);
    }
}

/// Scanning makes progress: the position after a token lies inside the text
/// and not before the scanner, and after any token but the end-of-input marker
/// it lies further on. Only where nothing but whitespace is left is the token
/// the end-of-input marker.
pub proof fn lemma_next_token_progress(s: Seq<u8>, pos: int)
    requires
        0 <= pos <= s.len(),
    ensures
        pos <= next_token_at(s, pos).next <= s.len(),
        next_token_at(s, pos).token == Ok::<SpecToken, LexError>(SpecToken::Eof) <==> skip_spaces(
            s,
            pos,
        ) == s.len(),
        (next_token_at(s, pos).token is Ok && next_token_at(s, pos).token
            != Ok::<SpecToken, LexError>(SpecToken::Eof)) ==> pos < next_token_at(s, pos).next,
        next_token_at(s, pos).token is Err ==> next_token_at(s, pos).next == skip_spaces(s, pos),
{
    reveal(next_token_at);
    lemma_skip_spaces(s, pos);
    let start = skip_spaces(s, pos);
    if start < s.len() {
        let c = s[start];
        lemma_delimiter_at(s, start + 1, QUOTE);
        lemma_ident_end(s, start);
        lemma_number_end(s, start, false);
        if is_ident_byte(c) {
            lemma_ident_end(s, start + 1);
            lemma_word_token_not_eof(ascii_text(s.subrange(start, ident_end(s, start))));
        }
        if is_digit(c) || c == DOT {
            lemma_number_end(s, start + 1, c == DOT);
        }
    }
}

/// In a text that is valid UTF-8, the text of a string literal is what the
/// bytes between its quotes encode.
pub proof fn lemma_string_token_is_decoded(s: Seq<u8>, pos: int)
    requires
        vstd::utf8::valid_utf8(s),
        0 <= pos < s.len(),
        s[pos] == QUOTE,
        delimiter_at(s, pos + 1, QUOTE) < s.len(),
    ensures
        scan(s, pos).token == Ok::<SpecToken, LexError>(
            SpecToken::String(
                vstd::utf8::decode_utf8(s.subrange(pos + 1, delimiter_at(s, pos + 1, QUOTE))),
            ),
        ),
{
    lemma_delimiter_at(s, pos + 1, QUOTE);
    lemma_between_ascii_is_valid(s, pos, delimiter_at(s, pos + 1, QUOTE));
}

/// No word is the end-of-input marker.
pub proof fn lemma_word_token_not_eof(word: Seq<char>)
    ensures
        word_token(word) != SpecToken::Eof,
{
}

/// The view of a scanning result: the token by its view, the error as it is.
pub open spec fn token_result_view(r: Result<Token, LexError>) -> Result<SpecToken, LexError> {
    match r {
        Ok(token) => Ok(token@),
        Err(error) => Err(error),
    }
}

/// A scanner over the bytes of one source text.
pub struct Lexer {
    input: Vec<u8>,
    position: usize,
    curr_token: Token,
}

impl Lexer {
    #[verifier::type_invariant]
    spec fn in_text(self) -> bool {
        self.position <= self.input.len()
    }

    /// The bytes of the source text.
    pub closed spec fn bytes(&self) -> Seq<u8> {
        self.input@
    }

    /// Where the scanner stands: the index of the first byte not yet consumed.
    pub closed spec fn pos(&self) -> int {
        self.position as int
    }

    /// The token most recently consumed.
    pub closed spec fn current(&self) -> SpecToken {
        self.curr_token@
    }

    /// Whether the scanner stands inside its text or at its end.
    pub open spec fn in_bounds(&self) -> bool {
        0 <= self.pos() <= self.bytes().len()
    }

    /// A scanner at the start of `input`, which has consumed no token yet.
    pub fn new(input: String) -> (r: Lexer)
        ensures
            r.bytes() == vstd::utf8::encode_utf8(input@),
            vstd::utf8::valid_utf8(r.bytes()),
            r.pos() == 0,
            r.current() == SpecToken::Illegal,
    {
        proof {
            vstd::utf8::encode_utf8_valid_utf8(input@);
        }
        Lexer { input: input.as_str().as_bytes_vec(), position: 0, curr_token: Token::Illegal }
    }

    /// The byte under the scanner, or 0 at the end of the text.
    fn ch(&self) -> (c: u8)
        ensures
            c == byte_at(self.bytes(), self.pos()),
    {
        proof {
            use_type_invariant(self);
        }
        if self.position < self.input.len() {
            self.input[self.position]
        } else {
            0
        }
    }

    /// The byte after the one under the scanner, or 0 where the text has none.
    pub fn peek_char(&self) -> (c: u8)
        ensures
            c == byte_at(self.bytes(), self.pos() + 1),
    {
        proof {
            use_type_invariant(self);
        }
        if self.position >= self.input.len() || self.position + 1 >= self.input.len() {
            0
        } else {
            self.input[self.position + 1]
        }
    }

    /// Steps over the byte under the scanner; at the end of the text it stays.
    fn read_char(&mut self)
        ensures
            final(self).bytes() == old(self).bytes(),
            final(self).current() == old(self).current(),
            final(self).pos() == if old(self).pos() < old(self).bytes().len() {
                old(self).pos() + 1
            } else {
                old(self).pos()
            },
    {
        proof {
            use_type_invariant(&*self);
        }
        if self.position < self.input.len() {
            self.position = self.position + 1;
        }
    }

    /// Steps over the whitespace under the scanner.
    fn skip_whitespace(&mut self)
        ensures
            final(self).bytes() == old(self).bytes(),
            final(self).current() == old(self).current(),
            final(self).pos() == skip_spaces(old(self).bytes(), old(self).pos()),
    {
        proof {
            use_type_invariant(&*self);
        }
        let mut at: usize = self.position;
        while at < self.input.len() && is_space_byte(self.input[at])
            invariant
                at <= self.input.len(),
                skip_spaces(self.input@, at as int) == skip_spaces(
                    self.input@,
                    self.position as int,
                ),
            decreases self.input.len() - at,
        {
            at = at + 1;
        }
        self.position = at;
    }

    /// Reads the word of letters and underscores under the scanner.
    fn read_ident(&mut self) -> (word: String)
        ensures
            final(self).bytes() == old(self).bytes(),
            final(self).current() == old(self).current(),
            final(self).pos() == ident_end(old(self).bytes(), old(self).pos()),
            word@ == ascii_text(old(self).bytes().subrange(old(self).pos(), final(self).pos())),
    {
        proof {
            use_type_invariant(&*self);
            lemma_ident_end(self.input@, self.position as int);
        }
        let start: usize = self.position;
        let mut at: usize = start;
        while at < self.input.len() && is_ident_start(self.input[at])
            invariant
                start <= at <= self.input.len(),
                ident_end(self.input@, at as int) == ident_end(self.input@, start as int),
            decreases self.input.len() - at,
        {
            at = at + 1;
        }
        self.position = at;
        proof {
            assert(is_ascii_bytes(self.input@.subrange(start as int, at as int)));
            lemma_ascii_is_valid(self.input@.subrange(start as int, at as int));
        }
        text_of(&self.input, start, at)
    }

    /// Reads up to the next `delimiter`, or to the end of the text where
    /// there is none; the scanner then stands on the delimiter.
    fn read_delimiter(&mut self, delimiter: u8) -> (text: String)
        ensures
            final(self).bytes() == old(self).bytes(),
            final(self).current() == old(self).current(),
            final(self).pos() == delimiter_at(old(self).bytes(), old(self).pos(), delimiter),
            text@ == decoded(old(self).bytes().subrange(old(self).pos(), final(self).pos())),
    {
        proof {
            use_type_invariant(&*self);
        }
        let start: usize = self.position;
        let mut at: usize = start;
        while at < self.input.len() && self.input[at] != delimiter
            invariant
                start <= at <= self.input.len(),
                delimiter_at(self.input@, at as int, delimiter) == delimiter_at(
                    self.input@,
                    start as int,
                    delimiter,
                ),
            decreases self.input.len() - at,
        {
            at = at + 1;
        }
        self.position = at;
        text_of(&self.input, start, at)
    }

    /// Reads the number literal under the scanner: digits, with one decimal
    /// point at most.
    fn read_number(&mut self) -> (text: String)
        ensures
            final(self).bytes() == old(self).bytes(),
            final(self).current() == old(self).current(),
            final(self).pos() == number_end(old(self).bytes(), old(self).pos(), false),
            text@ == ascii_text(old(self).bytes().subrange(old(self).pos(), final(self).pos())),
    {
        proof {
            use_type_invariant(&*self);
            lemma_number_end(self.input@, self.position as int, false);
        }
        let start: usize = self.position;
        let mut at: usize = start;
        let mut has_dot = false;
        while at < self.input.len() && (is_digit_byte(self.input[at]) || (self.input[at] == DOT
            && !has_dot))
            invariant
                start <= at <= self.input.len(),
                number_end(self.input@, at as int, has_dot) == number_end(
                    self.input@,
                    start as int,
                    false,
                ),
            decreases self.input.len() - at,
        {
            if self.input[at] == DOT {
                has_dot = true;
            }
            at = at + 1;
        }
        self.position = at;
        proof {
            assert(is_ascii_bytes(self.input@.subrange(start as int, at as int)));
            lemma_ascii_is_valid(self.input@.subrange(start as int, at as int));
        }
        text_of(&self.input, start, at)
    }

    /// A token of one byte: steps over it.
    fn single(&mut self, token: Token) -> (r: Result<Token, LexError>)
        requires
            old(self).pos() < old(self).bytes().len(),
        ensures
            final(self).bytes() == old(self).bytes(),
            final(self).current() == old(self).current(),
            final(self).pos() == old(self).pos() + 1,
            token_result_view(r) == Ok::<SpecToken, LexError>(token@),
    {
        self.read_char();
        Ok(token)
    }

    /// An operator that is `long` where `second` follows its first byte, and
    /// `short` otherwise: steps over the one or the two bytes.
    fn one_or_two(&mut self, second: u8, long: Token, short: Token) -> (r: Result<Token, LexError>)
        requires
            old(self).pos() < old(self).bytes().len(),
            second != 0,
        ensures
            final(self).bytes() == old(self).bytes(),
            final(self).current() == old(self).current(),
            final(self).pos() == one_or_two(
                old(self).bytes(),
                old(self).pos(),
                second,
                long@,
                short@,
            ).next,
            token_result_view(r) == one_or_two(
                old(self).bytes(),
                old(self).pos(),
                second,
                long@,
                short@,
            ).token,
    {
        if self.peek_char() == second {
            self.read_char();
            self.read_char();
            Ok(long)
        } else {
            self.read_char();
            Ok(short)
        }
    }

    /// An operator that needs its byte twice: steps over both, or reports
    /// the single byte as illegal and stays.
    fn doubled(&mut self, token: Token) -> (r: Result<Token, LexError>)
        requires
            old(self).pos() < old(self).bytes().len(),
            old(self).bytes()[old(self).pos()] != 0,
        ensures
            final(self).bytes() == old(self).bytes(),
            final(self).current() == old(self).current(),
            final(self).pos() == doubled(old(self).bytes(), old(self).pos(), token@).next,
            token_result_view(r) == doubled(old(self).bytes(), old(self).pos(), token@).token,
    {
        let c = self.ch();
        if self.peek_char() == c {
            self.read_char();
            self.read_char();
            Ok(token)
        } else {
            Err(LexError::IllegalCharacter { byte: c, position: self.position })
        }
    }

    /// Scans the token that starts under the scanner, which stands on no
    /// whitespace, and steps over it. On an error the scanner stays where the
    /// offending byte is.
    fn parse_token(&mut self) -> (r: Result<Token, LexError>)
        ensures
            final(self).bytes() == old(self).bytes(),
            final(self).current() == old(self).current(),
            final(self).pos() == scan(old(self).bytes(), old(self).pos()).next,
            token_result_view(r) == scan(old(self).bytes(), old(self).pos()).token,
    {
        proof {
            use_type_invariant(&*self);
        }
        if self.position >= self.input.len() {
            return Ok(Token::Eof);
        }
        let c = self.ch();
        if c == LBRACE {
            self.single(Token::LSquirly)
        } else if c == RBRACE {
            self.single(Token::RSquirly)
        } else if c == LPAREN {
            self.single(Token::Lparen)
        } else if c == RPAREN {
            self.single(Token::Rparen)
        } else if c == COMMA {
            self.single(Token::Comma)
        } else if c == SEMICOLON {
            self.single(Token::Semicolon)
        } else if c == PLUS {
            self.single(Token::Plus)
        } else if c == MINUS {
            self.single(Token::Minus)
        } else if c == ASTERISK {
            self.single(Token::Asterisk)
        } else if c == SLASH {
            self.single(Token::ForwardSlash)
        } else if c == ASSIGN {
            self.one_or_two(ASSIGN, Token::Equal, Token::Assign)
        } else if c == LESS {
            self.one_or_two(ASSIGN, Token::LessThanOrEqual, Token::LessThan)
        } else if c == GREATER {
            self.one_or_two(ASSIGN, Token::GreaterThanOrEqual, Token::GreaterThan)
        } else if c == BANG {
            self.one_or_two(ASSIGN, Token::NotEqual, Token::Bang)
        } else if c == AMPERSAND {
            self.doubled(Token::And)
        } else if c == PIPE {
            self.doubled(Token::Or)
        } else if c == QUOTE {
            let open: usize = self.position;
            self.read_char();
            let text = self.read_delimiter(QUOTE);
            proof {
                use_type_invariant(&*self);
            }
            if self.position < self.input.len() {
                self.read_char();
                Ok(Token::String(text))
            } else {
                self.position = open;
                Err(LexError::UnterminatedString { position: open })
            }
        } else if is_ident_start(c) {
            let word = self.read_ident();
            Ok(keyword_or_ident(word))
        } else if is_digit_byte(c) || c == DOT {
            let text = self.read_number();
            Ok(Token::Number(text))
        } else {
            Err(LexError::IllegalCharacter { byte: c, position: self.position })
        }
    }

    /// Consumes the next token and returns it: whitespace is skipped, then one
    /// token is scanned, which becomes the current token. On an error no
    /// token is consumed: the scanner stands on the offending byte and keeps
    /// its current token.
    pub fn next_token(&mut self) -> (r: Result<Token, LexError>)
        ensures
            final(self).bytes() == old(self).bytes(),
            final(self).in_bounds(),
            token_result_view(r) == next_token_at(old(self).bytes(), old(self).pos()).token,
            final(self).pos() == next_token_at(old(self).bytes(), old(self).pos()).next,
            final(self).current() == match r {
                Ok(token) => token@,
                Err(_) => old(self).current(),
            },
            old(self).in_bounds(),
    {
        proof {
            use_type_invariant(&*self);
            reveal(next_token_at);
        }
        self.skip_whitespace();
        let r = self.parse_token();
        proof {
            use_type_invariant(&*self);
        }
        match r {
            Ok(token) => {
                self.curr_token = token.clone();
                Ok(token)
            },
            Err(error) => Err(error),
        }
    }

    /// Whether the upcoming token is `token`; if so, consumes it. Otherwise,
    /// and where no token can be scanned, the scanner is left as it was.
    pub fn match_token_and_consume(&mut self, token: Token) -> (r: bool)
        ensures
            final(self).bytes() == old(self).bytes(),
            final(self).in_bounds(),
            r == (next_token_at(old(self).bytes(), old(self).pos()).token == Ok::<
                SpecToken,
                LexError,
            >(token@)),
            r ==> final(self).pos() == next_token_at(old(self).bytes(), old(self).pos()).next
                && final(self).current() == token@,
            !r ==> final(self).pos() == old(self).pos() && final(self).current() == old(
                self,
            ).current(),
            old(self).in_bounds(),
    {
        proof {
            use_type_invariant(&*self);
        }
        let upcoming = self.peek_token();
        match upcoming {
            Ok(found) => {
                if found.same(&token) {
                    let _ = self.next_token();
                    true
                } else {
                    false
                }
            },
            Err(_) => false,
        }
    }

    /// The upcoming token, without consuming it: the scanner is left as it
    /// was.
    pub fn peek_token(&mut self) -> (r: Result<Token, LexError>)
        ensures
            final(self).bytes() == old(self).bytes(),
            final(self).pos() == old(self).pos(),
            final(self).current() == old(self).current(),
            final(self).in_bounds(),
            token_result_view(r) == next_token_at(old(self).bytes(), old(self).pos()).token,
    {
        proof {
            use_type_invariant(&*self);
        }
        let pos: usize = self.position;
        let current_token = self.curr_token.clone();
        let token = self.next_token();
        self.position = pos;
        self.curr_token = current_token;
        token
    }

    /// The token most recently consumed; `Token::Illegal` before the first.
    pub fn curr_token(&self) -> (r: Token)
        ensures
            r@ == self.current(),
    {
        self.curr_token.clone()
    }

    /// Whether only the end-of-input marker remains: nothing but whitespace
    /// is left of the text.
    pub fn is_at_end(&self) -> (r: bool)
        ensures
            self.in_bounds(),
            r == (next_token_at(self.bytes(), self.pos()).token == Ok::<SpecToken, LexError>(
                SpecToken::Eof,
            )),
    {
        proof {
            use_type_invariant(self);
            lemma_next_token_progress(self.input@, self.position as int);
        }
        let mut at: usize = self.position;
        while at < self.input.len() && is_space_byte(self.input[at])
            invariant
                at <= self.input.len(),
                skip_spaces(self.input@, at as int) == skip_spaces(
                    self.input@,
                    self.position as int,
                ),
            decreases self.input.len() - at,
        {
            at = at + 1;
        }
        at >= self.input.len()
    }
}

/// The keyword that `word` is, or the identifier with that name.
fn keyword_or_ident(word: String) -> (r: Token)
    ensures
        r@ == word_token(word@),
{
    if is_word(&word, "function") {
        Token::Function
    } else if is_word(&word, "let") {
        Token::Let
    } else if is_word(&word, "if") {
        Token::If
    } else if is_word(&word, "else") {
        Token::Else
    } else if is_word(&word, "while") {
        Token::While
    } else if is_word(&word, "for") {
        Token::For
    } else if is_word(&word, "do") {
        Token::Do
    } else if is_word(&word, "return") {
        Token::Return
    } else if is_word(&word, "true") {
        Token::True
    } else if is_word(&word, "false") {
        Token::False
    } else if is_word(&word, "null") {
        Token::Null
    } else if is_word(&word, "print") {
        Token::Print
    } else {
        Token::Ident(word)
    }
}

/// Whether `text` is exactly `word`.
fn is_word(text: &String, word: &str) -> (r: bool)
    ensures
        r == (text@ == word@),
{
    let owned = word.to_owned();
    *text == owned
}

/// Whether `c` is whitespace.
fn is_space_byte(c: u8) -> (r: bool)
    ensures
        r == is_space(c),
{
    c == SPACE || c == TAB || c == LINE_FEED || c == FORM_FEED || c == CARRIAGE_RETURN
}

/// Whether `c` is a letter or an underscore.
fn is_ident_start(c: u8) -> (r: bool)
    ensures
        r == is_ident_byte(c),
{
    (65 <= c && c <= 90) || (97 <= c && c <= 122) || c == UNDERSCORE
}

/// Whether `c` is a digit.
fn is_digit_byte(c: u8) -> (r: bool)
    ensures
        r == is_digit(c),
{
    48 <= c && c <= 57
}

} // verus!
