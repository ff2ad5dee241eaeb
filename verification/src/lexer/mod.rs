//! The lexer: source text to located tokens.
pub mod laws;
pub mod round_trip;
pub mod scan;
pub mod token;

use crate::lexer::scan::{
    closes_string, digits_end, double_operator, ident_end, is_ident_character, is_letter,
    lemma_scan_bounds, lemma_string_close, line_end, scan, single_symbol, string_close,
    tokens_from, trivia_end, whitespace_end, word_kind,
};
use crate::lexer::token::{lexemes_of, Lexeme, Location, Token, TokenKind};
use crate::text::{
    column_at, decimal_digit, is_decimal_digit, lemma_position_bounds, lemma_run_end, line_at,
    same_text, to_chars,
};
use vstd::prelude::*;

verus! {

/// Where the lexer stands: the offset of the next character, the number of
/// line feeds before it, and the number of characters between the last of
/// them and itself.
struct Cursor {
    position: usize,
    lines_before: usize,
    line_offset: usize,
}

/// A lexer over one source text. It hands out the tokens of the text one after
/// the other, from where it stands.
pub struct Lexer {
    input: Vec<char>,
    cursor: Cursor,
}

impl Lexer {
    /// The cursor stands within the text, and its line and column are those of
    /// its offset, each less one.
    #[verifier::type_invariant]
    spec fn consistent(&self) -> bool {
        &&& self.cursor.position <= self.input@.len()
        &&& self.cursor.lines_before + 1 == line_at(self.input@, self.cursor.position as int)
        &&& self.cursor.line_offset + 1 == column_at(self.input@, self.cursor.position as int)
    }

    /// The text that is being read.
    pub closed spec fn source(&self) -> Seq<char> {
        self.input@
    }

    /// The offset of the next character to read.
    pub closed spec fn offset(&self) -> int {
        self.cursor.position as int
    }

    /// The tokens that are still to come.
    pub open spec fn pending(&self) -> Seq<Lexeme> {
        tokens_from(self.source(), self.offset())
    }

    /// A lexer at the start of `content`.
    pub fn new(content: &str) -> (r: Self)
        ensures
            r.source() == content@,
            r.offset() == 0,
    {
        Self {
            input: to_chars(content),
            cursor: Cursor { position: 0, lines_before: 0, line_offset: 0 },
        }
    }

    /// The next character, which stays unread.
    fn peek_char(&self) -> (r: Option<char>)
        ensures
            0 <= self.offset() <= self.source().len(),
            self.offset() < self.source().len() ==> r == Some(self.source()[self.offset()]),
            self.offset() >= self.source().len() ==> r is None,
    {
        proof {
            use_type_invariant(self);
        }
        if self.cursor.position < self.input.len() {
            Some(self.input[self.cursor.position])
        } else {
            None
        }
    }

    /// Reads the next character: the column moves on by one, and behind a line
    /// feed the next line starts.
    fn read_char(&mut self) -> (r: Option<char>)
        ensures
            final(self).source() == old(self).source(),
            0 <= old(self).offset() <= old(self).source().len(),
            old(self).offset() < old(self).source().len() ==> r == Some(
                old(self).source()[old(self).offset()],
            ) && final(self).offset() == old(self).offset() + 1,
            old(self).offset() >= old(self).source().len() ==> r is None && final(self).offset()
                == old(self).offset(),
    {
        proof {
            use_type_invariant(&*self);
        }
        if self.cursor.position < self.input.len() {
            let c = self.input[self.cursor.position];
            proof {
                lemma_position_bounds(self.input@, self.cursor.position as int);
            }
            let next = if c == '\n' {
                Cursor {
                    position: self.cursor.position + 1,
                    lines_before: self.cursor.lines_before + 1,
                    line_offset: 0,
                }
            } else {
                Cursor {
                    position: self.cursor.position + 1,
                    lines_before: self.cursor.lines_before,
                    line_offset: self.cursor.line_offset + 1,
                }
            };
            self.cursor = next;
            Some(c)
        } else {
            None
        }
    }

    /// Whether `c` may start a name.
    fn is_letter(c: char) -> (r: bool)
        ensures
            r == is_letter(c),
    {
        c.is_alphabetic() || c == '_'
    }

    /// Whether `c` may continue a name.
    fn is_ident_character(c: char) -> (r: bool)
        ensures
            r == is_ident_character(c),
    {
        Self::is_letter(c) || is_decimal_digit(c)
    }

    /// Passes over the white space before the next lexeme.
    fn skip_whitespace(&mut self)
        ensures
            final(self).source() == old(self).source(),
            final(self).offset() == whitespace_end(old(self).source(), old(self).offset()),
            0 <= old(self).offset() <= final(self).offset() <= old(self).source().len(),
    {
        proof {
            use_type_invariant(&*self);
        }
        loop
            invariant_except_break
                whitespace_end(self.source(), self.offset()) == whitespace_end(
                    old(self).source(),
                    old(self).offset(),
                ),
            invariant
                self.source() == old(self).source(),
                0 <= old(self).offset() <= self.offset() <= self.source().len(),
            ensures
                self.source() == old(self).source(),
                0 <= old(self).offset() <= self.offset() <= self.source().len(),
                self.offset() == whitespace_end(old(self).source(), old(self).offset()),
            decreases self.source().len() - self.offset(),
        {
            match self.peek_char() {
                Some(c) => {
                    if c.is_whitespace() {
                        let _ = self.read_char();
                    } else {
                        break ;
                    }
                },
                None => {
                    break ;
                },
            }
        }
    }

    /// The token that a word gives: the keyword that it spells, else a name
    /// with the word as its payload.
    fn lookup_keyword(identifier: String, location: Location) -> (r: Token)
        ensures
            r@.kind == word_kind(identifier@),
            r@.location == location,
            r@.payload == (if word_kind(identifier@) == TokenKind::Identifier {
                identifier@
            } else {
                Seq::empty()
            }),
    {
        proof {
            reveal_strlit("else");
            reveal_strlit("container");
            reveal_strlit("for");
            reveal_strlit("if");
            reveal_strlit("function");
            reveal_strlit("variable");
            reveal_strlit("true");
            reveal_strlit("false");
            assert("else"@ =~= TokenKind::Else.spelling());
            assert("container"@ =~= TokenKind::Container.spelling());
            assert("for"@ =~= TokenKind::For.spelling());
            assert("if"@ =~= TokenKind::If.spelling());
            assert("function"@ =~= TokenKind::Function.spelling());
            assert("variable"@ =~= TokenKind::Variable.spelling());
            assert("true"@ =~= TokenKind::True.spelling());
            assert("false"@ =~= TokenKind::False.spelling());
        }
        let word = identifier.as_str();
        if same_text(word, "else") {
            Token::Else(location)
        } else if same_text(word, "container") {
            Token::Container(location)
        } else if same_text(word, "for") {
            Token::For(location)
        } else if same_text(word, "if") {
            Token::If(location)
        } else if same_text(word, "function") {
            Token::Function(location)
        } else if same_text(word, "variable") {
            Token::Variable(location)
        } else if same_text(word, "true") {
            Token::True(location)
        } else if same_text(word, "false") {
            Token::False(location)
        } else {
            Token::Identifier(location, identifier)
        }
    }

    /// Reads the rest of a word whose first character `ch` has been read.
    fn read_identifier(&mut self, ch: char) -> (r: String)
        ensures
            final(self).source() == old(self).source(),
            final(self).offset() == ident_end(old(self).source(), old(self).offset()),
            0 <= old(self).offset() <= final(self).offset() <= old(self).source().len(),
            r@ == seq![ch] + old(self).source().subrange(
                old(self).offset(),
                final(self).offset(),
            ),
    {
        proof {
            use_type_invariant(&*self);
        }
        let mut identifier = String::new();
        identifier.push(ch);
        loop
            invariant_except_break
                ident_end(self.source(), self.offset()) == ident_end(
                    old(self).source(),
                    old(self).offset(),
                ),
                identifier@ == seq![ch] + self.source().subrange(
                    old(self).offset(),
                    self.offset(),
                ),
            invariant
                self.source() == old(self).source(),
                0 <= old(self).offset() <= self.offset() <= self.source().len(),
            ensures
                self.source() == old(self).source(),
                0 <= old(self).offset() <= self.offset() <= self.source().len(),
                self.offset() == ident_end(old(self).source(), old(self).offset()),
                identifier@ == seq![ch] + self.source().subrange(
                    old(self).offset(),
                    self.offset(),
                ),
            decreases self.source().len() - self.offset(),
        {
            let ghost before = self.offset();
            match self.peek_char() {
                Some(c) => {
                    if Self::is_ident_character(c) {
                        let _ = self.read_char();
                        identifier.push(c);
                        assert(self.source().subrange(old(self).offset(), before + 1)
                            =~= self.source().subrange(old(self).offset(), before).push(c));
                    } else {
                        break ;
                    }
                },
                None => {
                    break ;
                },
            }
        }
        identifier
    }

    /// Reads the contents of a string whose opening quote has been read, and
    /// the closing quote where there is one.
    fn read_string(&mut self) -> (r: String)
        ensures
            final(self).source() == old(self).source(),
            0 <= old(self).offset() <= final(self).offset() <= old(self).source().len(),
            r@ == old(self).source().subrange(
                old(self).offset(),
                string_close(old(self).source(), old(self).offset(), old(self).offset()),
            ),
            final(self).offset() == ({
                let close = string_close(
                    old(self).source(),
                    old(self).offset(),
                    old(self).offset(),
                );
                if close < old(self).source().len() {
                    close + 1
                } else {
                    close
                }
            }),
    {
        proof {
            use_type_invariant(&*self);
        }
        let mut string = String::new();
        let mut last = '\0';
        let ghost s = self.source();
        let ghost start = self.offset();
        assert(string@ =~= s.subrange(start, start));
        loop
            invariant_except_break
                string_close(s, start, self.offset()) == string_close(s, start, start),
                string@ == s.subrange(start, self.offset()),
                self.offset() > start ==> last == s[self.offset() - 1],
                self.offset() == start ==> last != '\\',
            invariant
                self.source() == s,
                s == old(self).source(),
                start == old(self).offset(),
                0 <= start <= self.offset() <= s.len(),
            ensures
                self.source() == s,
                0 <= start <= self.offset() <= s.len(),
                string@ == s.subrange(start, string_close(s, start, start)),
                self.offset() == (if string_close(s, start, start) < s.len() {
                    string_close(s, start, start) + 1
                } else {
                    string_close(s, start, start)
                }),
            decreases s.len() - self.offset(),
        {
            let ghost before = self.offset();
            match self.peek_char() {
                Some(ch) => {
                    if ch == '"' && last != '\\' {
                        assert(closes_string(s, start, before));
                        let _ = self.read_char();
                        break ;
                    } else {
                        assert(!closes_string(s, start, before));
                        last = ch;
                        let _ = self.read_char();
                        string.push(ch);
                        assert(s.subrange(start, before + 1) =~= s.subrange(start, before).push(
                            ch,
                        ));
                    }
                },
                None => {
                    break ;
                },
            }
        }
        string
    }

    /// Reads the rest of a number whose first digit `ch` has been read.
    fn read_number(&mut self, ch: char) -> (r: String)
        ensures
            final(self).source() == old(self).source(),
            final(self).offset() == digits_end(old(self).source(), old(self).offset()),
            0 <= old(self).offset() <= final(self).offset() <= old(self).source().len(),
            r@ == seq![ch] + old(self).source().subrange(
                old(self).offset(),
                final(self).offset(),
            ),
    {
        proof {
            use_type_invariant(&*self);
        }
        let mut number = String::new();
        number.push(ch);
        loop
            invariant_except_break
                digits_end(self.source(), self.offset()) == digits_end(
                    old(self).source(),
                    old(self).offset(),
                ),
                number@ == seq![ch] + self.source().subrange(old(self).offset(), self.offset()),
            invariant
                self.source() == old(self).source(),
                0 <= old(self).offset() <= self.offset() <= self.source().len(),
            ensures
                self.source() == old(self).source(),
                0 <= old(self).offset() <= self.offset() <= self.source().len(),
                self.offset() == digits_end(old(self).source(), old(self).offset()),
                number@ == seq![ch] + self.source().subrange(old(self).offset(), self.offset()),
            decreases self.source().len() - self.offset(),
        {
            let ghost before = self.offset();
            match self.peek_char() {
                Some(c) => {
                    if is_decimal_digit(c) {
                        let _ = self.read_char();
                        number.push(c);
                        assert(self.source().subrange(old(self).offset(), before + 1)
                            =~= self.source().subrange(old(self).offset(), before).push(c));
                    } else {
                        break ;
                    }
                },
                None => {
                    break ;
                },
            }
        }
        number
    }

    /// Passes over the rest of the line, its line feed included.
    fn next_line(&mut self)
        ensures
            final(self).source() == old(self).source(),
            final(self).offset() == line_end(old(self).source(), old(self).offset()),
            0 <= old(self).offset() <= final(self).offset() <= old(self).source().len(),
    {
        proof {
            use_type_invariant(&*self);
        }
        loop
            invariant_except_break
                line_end(self.source(), self.offset()) == line_end(
                    old(self).source(),
                    old(self).offset(),
                ),
            invariant
                self.source() == old(self).source(),
                0 <= old(self).offset() <= self.offset() <= self.source().len(),
            ensures
                self.source() == old(self).source(),
                0 <= old(self).offset() <= self.offset() <= self.source().len(),
                self.offset() == line_end(old(self).source(), old(self).offset()),
            decreases self.source().len() - self.offset(),
        {
            match self.read_char() {
                Some(ch) => {
                    if ch == '\n' {
                        break ;
                    }
                },
                None => {
                    break ;
                },
            }
        }
    }
}

/// The punctuation mark or operator that one character spells.
fn single_symbol_kind(c: char) -> (r: Option<TokenKind>)
    ensures
        r == single_symbol(c),
{
    match c {
        '=' => Some(TokenKind::Assignment),
        '>' => Some(TokenKind::GreaterThan),
        '<' => Some(TokenKind::LessThan),
        '-' => Some(TokenKind::Subtraction),
        '+' => Some(TokenKind::Addition),
        '*' => Some(TokenKind::Multiply),
        '/' => Some(TokenKind::Divide),
        '!' => Some(TokenKind::LogicalNot),
        '&' => Some(TokenKind::BitwiseAnd),
        '|' => Some(TokenKind::BitwiseOr),
        '~' => Some(TokenKind::BitwiseNot),
        ',' => Some(TokenKind::Comma),
        ';' => Some(TokenKind::Semicolon),
        '.' => Some(TokenKind::Dot),
        '{' => Some(TokenKind::OpenCurlyBrace),
        '}' => Some(TokenKind::CloseCurlyBrace),
        '[' => Some(TokenKind::OpenBracket),
        ']' => Some(TokenKind::CloseBracket),
        '(' => Some(TokenKind::OpenParentheses),
        ')' => Some(TokenKind::CloseParentheses),
        _ => None,
    }
}

/// The operator that two characters spell together.
fn double_operator_kind(first: char, second: char) -> (r: Option<TokenKind>)
    ensures
        r == double_operator(first, second),
{
    if second == '=' {
        match first {
            '=' => Some(TokenKind::Equality),
            '>' => Some(TokenKind::GreaterEqualTo),
            '<' => Some(TokenKind::LessEqualTo),
            '-' => Some(TokenKind::SubtractEqual),
            '+' => Some(TokenKind::AddEqual),
            '*' => Some(TokenKind::MultiplyEqual),
            '/' => Some(TokenKind::DivideEqual),
            '!' => Some(TokenKind::LogicalNotEqualTo),
            _ => None,
        }
    } else if first == '&' && second == '&' {
        Some(TokenKind::LogicalAnd)
    } else if first == '|' && second == '|' {
        Some(TokenKind::LogicalOr)
    } else {
        None
    }
}

impl Lexer {
    /// The next token, where one follows. Once the text has ended, or a
    /// character has been met that starts no token, every call returns `None`.
    pub fn next_token(&mut self) -> (r: Option<Token>)
        ensures
            final(self).source() == old(self).source(),
            0 <= old(self).offset() <= final(self).offset() <= old(self).source().len(),
            match scan(old(self).source(), old(self).offset()) {
                Some(t) => r matches Some(token) && token@ == t.lexeme(old(self).source())
                    && final(self).offset() == t.next,
                None => r is None && final(self).offset() == trivia_end(
                    old(self).source(),
                    old(self).offset(),
                ),
            },
        decreases old(self).source().len() - old(self).offset(),
    {
        let ghost s = self.source();
        let ghost i = self.offset();
        self.skip_whitespace();
        let ghost j = self.offset();
        let ch = match self.peek_char() {
            Some(ch) => ch,
            None => {
                return None;
            },
        };
        proof {
            use_type_invariant(&*self);
            lemma_position_bounds(s, j);
            assert(self.input@.len() == self.input.len());
        }
        let location = Location::new(self.cursor.line_offset + 1, self.cursor.lines_before + 1);
        match single_symbol_kind(ch) {
            Some(single) => {
                let _ = self.read_char();
                match self.peek_char() {
                    Some(second) => {
                        match double_operator_kind(ch, second) {
                            Some(double) => {
                                let _ = self.read_char();
                                Some(Token::of(double, location, String::new()))
                            },
                            None => {
                                if ch == '/' && second == '/' {
                                    proof {
                                        lemma_run_end(s, j + 2, |c: char| c != '\n');
                                        assert(line_end(s, j + 1) == line_end(s, j + 2));
                                    }
                                    self.next_line();
                                    self.next_token()
                                } else {
                                    Some(Token::of(single, location, String::new()))
                                }
                            },
                        }
                    },
                    None => Some(Token::of(single, location, String::new())),
                }
            },
            None => {
                if ch == '"' {
                    let _ = self.read_char();
                    let string = self.read_string();
                    proof {
                        lemma_string_close(s, j + 1, j + 1);
                    }
                    Some(Token::StringLiteral(location, string))
                } else if Self::is_letter(ch) {
                    let _ = self.read_char();
                    let identifier = self.read_identifier(ch);
                    proof {
                        lemma_run_end(s, j + 1, |c: char| is_ident_character(c));
                        assert(identifier@ =~= s.subrange(j, ident_end(s, j + 1)));
                    }
                    Some(Self::lookup_keyword(identifier, location))
                } else if is_decimal_digit(ch) {
                    let _ = self.read_char();
                    let number = self.read_number(ch);
                    proof {
                        lemma_run_end(s, j + 1, |c: char| decimal_digit(c));
                        assert(number@ =~= s.subrange(j, digits_end(s, j + 1)));
                    }
                    Some(Token::NumberLiteral(location, number))
                } else {
                    None
                }
            },
        }
    }

    /// All the tokens that are still to come, in order.
    pub fn lex(self) -> (tokens: Vec<Token>)
        ensures
            lexemes_of(tokens@) == self.pending(),
    {
        let mut lexer = self;
        let mut tokens: Vec<Token> = Vec::new();
        proof {
            use_type_invariant(&lexer);
            assert(lexemes_of(tokens@) =~= Seq::empty());
        }
        loop
            invariant_except_break
                lexemes_of(tokens@) + tokens_from(lexer.source(), lexer.offset())
                    == self.pending(),
            invariant
                lexer.source() == self.source(),
                0 <= lexer.offset() <= lexer.source().len(),
            ensures
                lexemes_of(tokens@) == self.pending(),
            decreases lexer.source().len() - lexer.offset(),
        {
            let ghost before = lexemes_of(tokens@);
            let ghost at = lexer.offset();
            proof {
                lemma_scan_bounds(lexer.source(), at);
            }
            match lexer.next_token() {
                Some(token) => {
                    tokens.push(token);
                    assert(lexemes_of(tokens@) =~= before + seq![token@]);
                    assert(before + seq![token@] + tokens_from(lexer.source(), lexer.offset())
                        =~= before + (seq![token@] + tokens_from(
                        lexer.source(),
                        lexer.offset(),
                    )));
                },
                None => {
                    assert(lexemes_of(tokens@) + Seq::<Lexeme>::empty() =~= lexemes_of(tokens@));
                    break ;
                },
            }
        }
        tokens
    }
}

} // verus!
