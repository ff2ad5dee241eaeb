//! What the lexer computes, as functions of the source text and an offset.
use crate::lexer::token::{Lexeme, Location, TokenKind};
use crate::text::{
    alphabetic, column_at, decimal_digit, lemma_run_end, line_at, run_end, white_space,
};
use vstd::prelude::*;

verus! {

/// A character that may start a name: a letter or the underscore.
pub open spec fn is_letter(c: char) -> bool {
    alphabetic(c) || c == '_'
}

/// A character that may continue a name: a letter, the underscore or a digit.
pub open spec fn is_ident_character(c: char) -> bool {
    is_letter(c) || decimal_digit(c)
}

/// The end of the white space that starts at `i`.
pub open spec fn whitespace_end(s: Seq<char>, i: int) -> int {
    run_end(s, i, |c: char| white_space(c))
}

/// The end of the name characters that start at `i`.
pub open spec fn ident_end(s: Seq<char>, i: int) -> int {
    run_end(s, i, |c: char| is_ident_character(c))
}

/// The end of the digits that start at `i`.
pub open spec fn digits_end(s: Seq<char>, i: int) -> int {
    run_end(s, i, |c: char| decimal_digit(c))
}

/// The start of the line after offset `i`: just behind the next line feed, or
/// the end of the text where no line feed follows.
pub open spec fn line_end(s: Seq<char>, i: int) -> int {
    let e = run_end(s, i, |c: char| c != '\n');
    if e < s.len() {
        e + 1
    } else {
        e
    }
}

/// Whether the quote at `k` closes the string whose contents start at `start`:
/// it does unless a backslash stands directly before it within the contents.
pub open spec fn closes_string(s: Seq<char>, start: int, k: int) -> bool {
    s[k] == '"' && (k == start || s[k - 1] != '\\')
}

/// The offset of the quote that closes the string whose contents start at
/// `start`, searched from `k` on; the end of the text where none closes it.
pub open spec fn string_close(s: Seq<char>, start: int, k: int) -> int
    decreases s.len() - k,
{
    if k < start || k >= s.len() {
        s.len() as int
    } else if closes_string(s, start, k) {
        k
    } else {
        string_close(s, start, k + 1)
    }
}

/// The start of the next lexeme at or after `i`: white space and line comments
/// are passed over, as often as they come.
pub open spec fn trivia_end(s: Seq<char>, i: int) -> int
    decreases s.len() - i,
{
    let j = whitespace_end(s, i);
    if 0 <= i && j + 1 < s.len() && s[j] == '/' && s[j + 1] == '/' {
        proof {
            lemma_run_end(s, i, |c: char| white_space(c));
            lemma_run_end(s, j + 2, |c: char| c != '\n');
        }
        trivia_end(s, line_end(s, j + 2))
    } else {
        j
    }
}

/// The operator that two characters spell together, if they spell one.
pub open spec fn double_operator(first: char, second: char) -> Option<TokenKind> {
    if second == '=' {
        if first == '=' {
            Some(TokenKind::Equality)
        } else if first == '>' {
            Some(TokenKind::GreaterEqualTo)
        } else if first == '<' {
            Some(TokenKind::LessEqualTo)
        } else if first == '-' {
            Some(TokenKind::SubtractEqual)
        } else if first == '+' {
            Some(TokenKind::AddEqual)
        } else if first == '*' {
            Some(TokenKind::MultiplyEqual)
        } else if first == '/' {
            Some(TokenKind::DivideEqual)
        } else if first == '!' {
            Some(TokenKind::LogicalNotEqualTo)
        } else {
            None
        }
    } else if first == '&' && second == '&' {
        Some(TokenKind::LogicalAnd)
    } else if first == '|' && second == '|' {
        Some(TokenKind::LogicalOr)
    } else {
        None
    }
}

/// The punctuation mark or operator that one character spells, if it spells one.
pub open spec fn single_symbol(c: char) -> Option<TokenKind> {
    if c == '=' {
        Some(TokenKind::Assignment)
    } else if c == '>' {
        Some(TokenKind::GreaterThan)
    } else if c == '<' {
        Some(TokenKind::LessThan)
    } else if c == '-' {
        Some(TokenKind::Subtraction)
    } else if c == '+' {
        Some(TokenKind::Addition)
    } else if c == '*' {
        Some(TokenKind::Multiply)
    } else if c == '/' {
        Some(TokenKind::Divide)
    } else if c == '!' {
        Some(TokenKind::LogicalNot)
    } else if c == '&' {
        Some(TokenKind::BitwiseAnd)
    } else if c == '|' {
        Some(TokenKind::BitwiseOr)
    } else if c == '~' {
        Some(TokenKind::BitwiseNot)
    } else if c == ',' {
        Some(TokenKind::Comma)
    } else if c == ';' {
        Some(TokenKind::Semicolon)
    } else if c == '.' {
        Some(TokenKind::Dot)
    } else if c == '{' {
        Some(TokenKind::OpenCurlyBrace)
    } else if c == '}' {
        Some(TokenKind::CloseCurlyBrace)
    } else if c == '[' {
        Some(TokenKind::OpenBracket)
    } else if c == ']' {
        Some(TokenKind::CloseBracket)
    } else if c == '(' {
        Some(TokenKind::OpenParentheses)
    } else if c == ')' {
        Some(TokenKind::CloseParentheses)
    } else {
        None
    }
}

/// The kind of a word: that of the keyword it spells, else a name.
pub open spec fn word_kind(word: Seq<char>) -> TokenKind {
    if word == TokenKind::Else.spelling() {
        TokenKind::Else
    } else if word == TokenKind::Container.spelling() {
        TokenKind::Container
    } else if word == TokenKind::For.spelling() {
        TokenKind::For
    } else if word == TokenKind::If.spelling() {
        TokenKind::If
    } else if word == TokenKind::Function.spelling() {
        TokenKind::Function
    } else if word == TokenKind::Variable.spelling() {
        TokenKind::Variable
    } else if word == TokenKind::True.spelling() {
        TokenKind::True
    } else if word == TokenKind::False.spelling() {
        TokenKind::False
    } else {
        TokenKind::Identifier
    }
}

/// A lexeme found in a text: its kind, the offset of its first character, its
/// payload, and the offset just behind it.
pub struct Scanned {
    pub kind: TokenKind,
    pub start: int,
    pub payload: Seq<char>,
    pub next: int,
}

impl Scanned {
    /// The token that the lexeme gives in the text `s`.
    pub open spec fn lexeme(self, s: Seq<char>) -> Lexeme {
        Lexeme {
            kind: self.kind,
            location: Location {
                column: column_at(s, self.start) as usize,
                line: line_at(s, self.start) as usize,
            },
            payload: self.payload,
        }
    }
}

/// The lexeme that starts exactly at `j`, where one starts there. Two
/// characters that spell an operator together are one lexeme; a string runs to
/// its closing quote or to the end of the text; a word and a number take every
/// character that continues them. `None` at the end of the text and at a
/// character that starts no lexeme.
pub open spec fn lexeme_at(s: Seq<char>, j: int) -> Option<Scanned> {
    if j < 0 || j >= s.len() {
        None
    } else if j + 1 < s.len() && double_operator(s[j], s[j + 1]) is Some {
        Some(
            Scanned {
                kind: double_operator(s[j], s[j + 1])->0,
                start: j,
                payload: Seq::empty(),
                next: j + 2,
            },
        )
    } else if single_symbol(s[j]) is Some {
        Some(Scanned { kind: single_symbol(s[j])->0, start: j, payload: Seq::empty(), next: j + 1 })
    } else if s[j] == '"' {
        let close = string_close(s, j + 1, j + 1);
        Some(
            Scanned {
                kind: TokenKind::StringLiteral,
                start: j,
                payload: s.subrange(j + 1, close),
                next: if close < s.len() {
                    close + 1
                } else {
                    close
                },
            },
        )
    } else if is_letter(s[j]) {
        let end = ident_end(s, j + 1);
        let word = s.subrange(j, end);
        Some(
            Scanned {
                kind: word_kind(word),
                start: j,
                payload: if word_kind(word) == TokenKind::Identifier {
                    word
                } else {
                    Seq::empty()
                },
                next: end,
            },
        )
    } else if decimal_digit(s[j]) {
        let end = digits_end(s, j + 1);
        Some(
            Scanned {
                kind: TokenKind::NumberLiteral,
                start: j,
                payload: s.subrange(j, end),
                next: end,
            },
        )
    } else {
        None
    }
}

/// The next lexeme at or after `i`, behind any white space and comments.
pub open spec fn scan(s: Seq<char>, i: int) -> Option<Scanned> {
    lexeme_at(s, trivia_end(s, i))
}

/// The closing quote of a string is searched within the text, from the start
/// of the contents on.
pub proof fn lemma_string_close(s: Seq<char>, start: int, k: int)
    requires
        0 <= start <= k <= s.len(),
    ensures
        k <= string_close(s, start, k) <= s.len(),
        string_close(s, start, k) < s.len() ==> closes_string(s, start, string_close(s, start, k)),
        forall|m: int| k <= m < string_close(s, start, k) ==> !closes_string(s, start, m),
    decreases s.len() - k,
{
    if k < s.len() && !closes_string(s, start, k) {
        lemma_string_close(s, start, k + 1);
    }
}

/// Trivia end at or after their start and within the text.
pub proof fn lemma_trivia_end(s: Seq<char>, i: int)
    requires
        0 <= i <= s.len(),
    ensures
        i <= trivia_end(s, i) <= s.len(),
    decreases s.len() - i,
{
    let j = whitespace_end(s, i);
    lemma_run_end(s, i, |c: char| white_space(c));
    if j + 1 < s.len() && s[j] == '/' && s[j + 1] == '/' {
        lemma_run_end(s, j + 2, |c: char| c != '\n');
        lemma_trivia_end(s, line_end(s, j + 2));
    }
}

/// A lexeme lies within the text, is not empty, and starts where the trivia
/// before it end.
pub proof fn lemma_scan_bounds(s: Seq<char>, i: int)
    requires
        0 <= i <= s.len(),
    ensures
        scan(s, i) matches Some(t) ==> i <= t.start < t.next <= s.len() && t.start == trivia_end(
            s,
            i,
        ),
{
    lemma_trivia_end(s, i);
    let j = trivia_end(s, i);
    if j < s.len() {
        lemma_string_close(s, j + 1, j + 1);
        lemma_run_end(s, j + 1, |c: char| is_ident_character(c));
        lemma_run_end(s, j + 1, |c: char| decimal_digit(c));
    }
}

/// The tokens of the text from offset `i` on: one lexeme after the other until
/// the text ends or a character starts none.
pub open spec fn tokens_from(s: Seq<char>, i: int) -> Seq<Lexeme>
    decreases s.len() - i,
{
    if 0 <= i <= s.len() {
        match scan(s, i) {
            Some(t) => {
                proof {
                    lemma_scan_bounds(s, i);
                }
                seq![t.lexeme(s)] + tokens_from(s, t.next)
            },
            None => Seq::empty(),
        }
    } else {
        Seq::empty()
    }
}

/// The tokens of a whole text.
pub open spec fn tokens_of(s: Seq<char>) -> Seq<Lexeme> {
    tokens_from(s, 0)
}

} // verus!
