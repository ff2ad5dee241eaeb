use llc::lexer::token::{Location, Token, TokenKind};
use llc::lexer::Lexer;

fn kinds(text: &str) -> Vec<TokenKind> {
    Lexer::new(text).lex().iter().map(|t| t.kind()).collect()
}

fn at(column: usize, line: usize) -> Location {
    Location::new(column, line)
}

#[test]
fn lexes_equality_as_one_token() {
    let tokens = Lexer::new("a == b").lex();
    assert_eq!(
        tokens,
        vec![
            Token::Identifier(at(1, 1), "a".to_string()),
            Token::Equality(at(3, 1)),
            Token::Identifier(at(6, 1), "b".to_string()),
        ]
    );
}

#[test]
fn two_character_operators_are_taken_whole() {
    assert_eq!(kinds("=="), vec![TokenKind::Equality]);
    assert_eq!(kinds(">="), vec![TokenKind::GreaterEqualTo]);
    assert_eq!(kinds("<="), vec![TokenKind::LessEqualTo]);
    assert_eq!(kinds("-="), vec![TokenKind::SubtractEqual]);
    assert_eq!(kinds("+="), vec![TokenKind::AddEqual]);
    assert_eq!(kinds("*="), vec![TokenKind::MultiplyEqual]);
    assert_eq!(kinds("/="), vec![TokenKind::DivideEqual]);
    assert_eq!(kinds("!="), vec![TokenKind::LogicalNotEqualTo]);
    assert_eq!(kinds("&&"), vec![TokenKind::LogicalAnd]);
    assert_eq!(kinds("||"), vec![TokenKind::LogicalOr]);
}

#[test]
fn single_operators_when_the_second_character_differs() {
    assert_eq!(kinds("=a"), vec![TokenKind::Assignment, TokenKind::Identifier]);
    assert_eq!(kinds(">1"), vec![TokenKind::GreaterThan, TokenKind::NumberLiteral]);
    assert_eq!(kinds("<("), vec![TokenKind::LessThan, TokenKind::OpenParentheses]);
    assert_eq!(kinds("-1"), vec![TokenKind::Subtraction, TokenKind::NumberLiteral]);
    assert_eq!(kinds("+x"), vec![TokenKind::Addition, TokenKind::Identifier]);
    assert_eq!(kinds("*)"), vec![TokenKind::Multiply, TokenKind::CloseParentheses]);
    assert_eq!(kinds("/ 2"), vec![TokenKind::Divide, TokenKind::NumberLiteral]);
    assert_eq!(kinds("!x"), vec![TokenKind::LogicalNot, TokenKind::Identifier]);
    assert_eq!(kinds("&|"), vec![TokenKind::BitwiseAnd, TokenKind::BitwiseOr]);
    assert_eq!(kinds("|&"), vec![TokenKind::BitwiseOr, TokenKind::BitwiseAnd]);
    assert_eq!(kinds("="), vec![TokenKind::Assignment]);
    assert_eq!(kinds("~"), vec![TokenKind::BitwiseNot]);
}

#[test]
fn operators_split_greedily_from_the_left() {
    assert_eq!(kinds("==="), vec![TokenKind::Equality, TokenKind::Assignment]);
    assert_eq!(kinds("&&&"), vec![TokenKind::LogicalAnd, TokenKind::BitwiseAnd]);
    assert_eq!(kinds("= ="), vec![TokenKind::Assignment, TokenKind::Assignment]);
    assert_eq!(kinds("!=="), vec![TokenKind::LogicalNotEqualTo, TokenKind::Assignment]);
}

#[test]
fn keywords_are_not_identifiers() {
    assert_eq!(
        Lexer::new("if else for function variable container true false").lex(),
        vec![
            Token::If(at(1, 1)),
            Token::Else(at(4, 1)),
            Token::For(at(9, 1)),
            Token::Function(at(13, 1)),
            Token::Variable(at(22, 1)),
            Token::Container(at(31, 1)),
            Token::True(at(41, 1)),
            Token::False(at(46, 1)),
        ]
    );
}

#[test]
fn other_words_are_identifiers() {
    assert_eq!(
        Lexer::new("iff _else for2 If function_ x").lex(),
        vec![
            Token::Identifier(at(1, 1), "iff".to_string()),
            Token::Identifier(at(5, 1), "_else".to_string()),
            Token::Identifier(at(11, 1), "for2".to_string()),
            Token::Identifier(at(16, 1), "If".to_string()),
            Token::Identifier(at(19, 1), "function_".to_string()),
            Token::Identifier(at(29, 1), "x".to_string()),
        ]
    );
}

#[test]
fn letters_beyond_ascii_start_identifiers() {
    assert_eq!(
        Lexer::new("été = 1").lex(),
        vec![
            Token::Identifier(at(1, 1), "été".to_string()),
            Token::Assignment(at(5, 1)),
            Token::NumberLiteral(at(7, 1), "1".to_string()),
        ]
    );
}

#[test]
fn escaped_quote_does_not_end_a_string() {
    let tokens = Lexer::new("\"a\\\"b\"").lex();
    assert_eq!(tokens, vec![Token::StringLiteral(at(1, 1), "a\\\"b".to_string())]);
}

#[test]
fn string_ends_at_the_first_unescaped_quote() {
    let tokens = Lexer::new("\"a\\\"b\" c \"d\"").lex();
    assert_eq!(
        tokens,
        vec![
            Token::StringLiteral(at(1, 1), "a\\\"b".to_string()),
            Token::Identifier(at(8, 1), "c".to_string()),
            Token::StringLiteral(at(10, 1), "d".to_string()),
        ]
    );
}

#[test]
fn backslash_before_a_quote_always_escapes_it() {
    // The backslash is not decoded: even after another backslash it keeps the
    // quote from closing the string.
    let tokens = Lexer::new("\"a\\\\\" b").lex();
    assert_eq!(tokens, vec![Token::StringLiteral(at(1, 1), "a\\\\\" b".to_string())]);
}

#[test]
fn unterminated_string_runs_to_the_end() {
    assert_eq!(
        Lexer::new("x \"abc").lex(),
        vec![
            Token::Identifier(at(1, 1), "x".to_string()),
            Token::StringLiteral(at(3, 1), "abc".to_string()),
        ]
    );
}

#[test]
fn empty_string_literal() {
    assert_eq!(Lexer::new("\"\"").lex(), vec![Token::StringLiteral(at(1, 1), String::new())]);
}

#[test]
fn numbers_are_digit_runs() {
    assert_eq!(
        Lexer::new("12 007 3x").lex(),
        vec![
            Token::NumberLiteral(at(1, 1), "12".to_string()),
            Token::NumberLiteral(at(4, 1), "007".to_string()),
            Token::NumberLiteral(at(8, 1), "3".to_string()),
            Token::Identifier(at(9, 1), "x".to_string()),
        ]
    );
}

#[test]
fn punctuation_marks() {
    assert_eq!(
        kinds("; , ( ) [ ] { } ."),
        vec![
            TokenKind::Semicolon,
            TokenKind::Comma,
            TokenKind::OpenParentheses,
            TokenKind::CloseParentheses,
            TokenKind::OpenBracket,
            TokenKind::CloseBracket,
            TokenKind::OpenCurlyBrace,
            TokenKind::CloseCurlyBrace,
            TokenKind::Dot,
        ]
    );
}

#[test]
fn locations_are_the_starts_of_lexemes() {
    assert_eq!(
        Lexer::new("ab\n  cd >= 10\n\n;").lex(),
        vec![
            Token::Identifier(at(1, 1), "ab".to_string()),
            Token::Identifier(at(3, 2), "cd".to_string()),
            Token::GreaterEqualTo(at(6, 2)),
            Token::NumberLiteral(at(9, 2), "10".to_string()),
            Token::Semicolon(at(1, 4)),
        ]
    );
}

#[test]
fn line_feed_inside_a_string_starts_a_line() {
    assert_eq!(
        Lexer::new("\"a\nb\" c").lex(),
        vec![
            Token::StringLiteral(at(1, 1), "a\nb".to_string()),
            Token::Identifier(at(4, 2), "c".to_string()),
        ]
    );
}

#[test]
fn comments_are_discarded() {
    assert_eq!(
        Lexer::new("a // b c\n// d\n  e // f").lex(),
        vec![
            Token::Identifier(at(1, 1), "a".to_string()),
            Token::Identifier(at(3, 3), "e".to_string()),
        ]
    );
}

#[test]
fn divide_equal_wins_over_comment() {
    assert_eq!(kinds("/=/"), vec![TokenKind::DivideEqual, TokenKind::Divide]);
    assert_eq!(kinds("a / / b"), vec![
        TokenKind::Identifier,
        TokenKind::Divide,
        TokenKind::Divide,
        TokenKind::Identifier,
    ]);
}

#[test]
fn empty_and_blank_texts_have_no_tokens() {
    assert_eq!(Lexer::new("").lex(), vec![]);
    assert_eq!(Lexer::new(" \t\r\n \u{a0}").lex(), vec![]);
    assert_eq!(Lexer::new("// only a comment").lex(), vec![]);
}

#[test]
fn invalid_character_ends_the_tokens() {
    assert_eq!(
        Lexer::new("a b # c d").lex(),
        vec![
            Token::Identifier(at(1, 1), "a".to_string()),
            Token::Identifier(at(3, 1), "b".to_string()),
        ]
    );
    assert_eq!(Lexer::new("@").lex(), vec![]);
}

#[test]
fn next_token_stays_at_the_end() {
    let mut lexer = Lexer::new("x $ y");
    assert_eq!(lexer.next_token(), Some(Token::Identifier(at(1, 1), "x".to_string())));
    assert_eq!(lexer.next_token(), None);
    assert_eq!(lexer.next_token(), None);
    assert_eq!(lexer.lex(), vec![]);
}

#[test]
fn next_token_one_by_one() {
    let mut lexer = Lexer::new("f(1)");
    assert_eq!(lexer.next_token(), Some(Token::Identifier(at(1, 1), "f".to_string())));
    assert_eq!(lexer.next_token(), Some(Token::OpenParentheses(at(2, 1))));
    assert_eq!(
        lexer.lex(),
        vec![Token::NumberLiteral(at(3, 1), "1".to_string()), Token::CloseParentheses(at(4, 1))]
    );
}

#[test]
fn token_accessors() {
    let token = Token::Identifier(at(4, 2), "name".to_string());
    assert_eq!(token.kind(), TokenKind::Identifier);
    assert_eq!(token.location(), at(4, 2));
    assert_eq!(token.location().column(), 4);
    assert_eq!(token.location().line(), 2);
    assert_eq!(token.payload(), Some(&"name".to_string()));
    assert_eq!(token.text(), "name");
    let token = Token::LessEqualTo(at(1, 1));
    assert_eq!(token.payload(), None);
    assert_eq!(token.text(), "<=");
    assert_eq!(Token::StringLiteral(at(1, 1), "a b".to_string()).text(), "\"a b\"");
    assert_eq!(Token::Container(at(1, 1)).text(), "container");
    assert!(TokenKind::NumberLiteral.carries_payload());
    assert!(!TokenKind::Dot.carries_payload());
    assert_eq!(TokenKind::LogicalOr.spelled(), "||");
    assert_eq!(TokenKind::Identifier.spelled(), "");
}

#[test]
fn token_of_kind_keeps_payload_only_where_it_belongs() {
    assert_eq!(
        Token::of(TokenKind::NumberLiteral, at(1, 1), "42".to_string()),
        Token::NumberLiteral(at(1, 1), "42".to_string())
    );
    assert_eq!(Token::of(TokenKind::Comma, at(2, 3), "x".to_string()), Token::Comma(at(2, 3)));
}

fn rendered(tokens: &[Token]) -> String {
    let mut text = String::new();
    for token in tokens {
        text.push_str(&token.text());
        text.push(' ');
    }
    text
}

#[test]
fn lexing_the_rendered_tokens_gives_the_same_kinds() {
    let source = "function add(integer a,integer b){\n  // sum\n  variable c=a+b;c+=1;\n  \
                  if(a>=b&&!c||a!=b){x=\"s \\\" t\";}\n}";
    let first = Lexer::new(source).lex();
    assert_eq!(first.len(), 41);
    let second = Lexer::new(&rendered(&first)).lex();
    let first_kinds: Vec<TokenKind> = first.iter().map(|t| t.kind()).collect();
    let second_kinds: Vec<TokenKind> = second.iter().map(|t| t.kind()).collect();
    assert_eq!(first_kinds, second_kinds);
    let first_payloads: Vec<Option<&String>> = first.iter().map(|t| t.payload()).collect();
    let second_payloads: Vec<Option<&String>> = second.iter().map(|t| t.payload()).collect();
    assert_eq!(first_payloads, second_payloads);
}

#[test]
fn rendering_an_unterminated_string_keeps_the_kinds() {
    let first = Lexer::new("a \"b\\").lex();
    let second = Lexer::new(&rendered(&first)).lex();
    assert_eq!(kinds("a \"b\\"), vec![TokenKind::Identifier, TokenKind::StringLiteral]);
    assert_eq!(second.len(), 2);
    assert_eq!(second[1].kind(), TokenKind::StringLiteral);
}
