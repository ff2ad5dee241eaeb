//! What holds of the lexer on every text.
use crate::lexer::scan::{
    closes_string, double_operator, ident_end, is_ident_character, is_letter,
    lemma_string_close, lemma_trivia_end,
    lexeme_at, line_end, scan, single_symbol, string_close, trivia_end, whitespace_end,
    word_kind, Scanned,
};
use crate::lexer::token::TokenKind;
use crate::text::{decimal_digit, lemma_run_end, white_space};
use vstd::prelude::*;

verus! {

/// Where the trivia end, a lexeme can start: the text is over, or the next
/// character is no white space and no comment starts there.
pub proof fn lemma_trivia_end_stops(s: Seq<char>, i: int)
    requires
        0 <= i <= s.len(),
    ensures
        ({
            let j = trivia_end(s, i);
            &&& j < s.len() ==> !white_space(s[j])
            &&& j + 1 < s.len() ==> !(s[j] == '/' && s[j + 1] == '/')
            &&& trivia_end(s, j) == j
        }),
    decreases s.len() - i,
{
    let j = whitespace_end(s, i);
    lemma_run_end(s, i, |c: char| white_space(c));
    if j + 1 < s.len() && s[j] == '/' && s[j + 1] == '/' {
        lemma_run_end(s, j + 2, |c: char| c != '\n');
        lemma_trivia_end_stops(s, line_end(s, j + 2));
    } else {
        lemma_run_end(s, j, |c: char| white_space(c));
    }
}

/// The two-character operators are these ten, and no other pair of
/// characters spells an operator.
pub proof fn lemma_double_operators(first: char, second: char)
    ensures
        double_operator('=', '=') == Some(TokenKind::Equality),
        double_operator('>', '=') == Some(TokenKind::GreaterEqualTo),
        double_operator('<', '=') == Some(TokenKind::LessEqualTo),
        double_operator('-', '=') == Some(TokenKind::SubtractEqual),
        double_operator('+', '=') == Some(TokenKind::AddEqual),
        double_operator('*', '=') == Some(TokenKind::MultiplyEqual),
        double_operator('/', '=') == Some(TokenKind::DivideEqual),
        double_operator('!', '=') == Some(TokenKind::LogicalNotEqualTo),
        double_operator('&', '&') == Some(TokenKind::LogicalAnd),
        double_operator('|', '|') == Some(TokenKind::LogicalOr),
        double_operator(first, second) is Some <==> (second == '=' && (first == '=' || first == '>'
            || first == '<' || first == '-' || first == '+' || first == '*' || first == '/'
            || first == '!')) || (first == '&' && second == '&') || (first == '|' && second
            == '|'),
        double_operator(first, second) matches Some(kind) ==> kind.spelling() == seq![
            first,
            second,
        ] && single_symbol(first) is Some,
        single_symbol(first) matches Some(kind) ==> kind.spelling() == seq![first],
{
    if let Some(kind) = double_operator(first, second) {
        assert(kind.spelling() =~= seq![first, second]);
    }
    if let Some(kind) = single_symbol(first) {
        assert(kind.spelling() =~= seq![first]);
    }
}

/// Operators are taken greedily. Where the next lexeme starts with a
/// character that spells a mark, and that character and the one behind it
/// spell an operator together, the two are one token; where they do not, or
/// the text ends there, the first character alone is the token.
pub proof fn lemma_operator_is_greedy(s: Seq<char>, i: int)
    requires
        0 <= i <= s.len(),
        trivia_end(s, i) < s.len(),
        single_symbol(s[trivia_end(s, i)]) is Some,
    ensures
        ({
            let j = trivia_end(s, i);
            if j + 1 < s.len() && double_operator(s[j], s[j + 1]) is Some {
                scan(s, i) == Some(
                    Scanned {
                        kind: double_operator(s[j], s[j + 1])->0,
                        start: j,
                        payload: Seq::empty(),
                        next: j + 2,
                    },
                )
            } else {
                scan(s, i) == Some(
                    Scanned {
                        kind: single_symbol(s[j])->0,
                        start: j,
                        payload: Seq::empty(),
                        next: j + 1,
                    },
                )
            }
        }),
{
    lemma_trivia_end(s, i);
}

/// Each keyword is classified as itself, and every other word as a name.
pub proof fn lemma_keywords(word: Seq<char>)
    ensures
        word_kind(TokenKind::If.spelling()) == TokenKind::If,
        word_kind(TokenKind::Else.spelling()) == TokenKind::Else,
        word_kind(TokenKind::For.spelling()) == TokenKind::For,
        word_kind(TokenKind::Function.spelling()) == TokenKind::Function,
        word_kind(TokenKind::Variable.spelling()) == TokenKind::Variable,
        word_kind(TokenKind::Container.spelling()) == TokenKind::Container,
        word_kind(TokenKind::True.spelling()) == TokenKind::True,
        word_kind(TokenKind::False.spelling()) == TokenKind::False,
        word_kind(word) == TokenKind::Identifier <==> word != TokenKind::If.spelling() && word
            != TokenKind::Else.spelling() && word != TokenKind::For.spelling() && word
            != TokenKind::Function.spelling() && word != TokenKind::Variable.spelling() && word
            != TokenKind::Container.spelling() && word != TokenKind::True.spelling() && word
            != TokenKind::False.spelling(),
        word_kind(word) != TokenKind::Identifier ==> word_kind(word).spelling() == word,
{
    let e = TokenKind::Else.spelling();
    let c = TokenKind::Container.spelling();
    let f = TokenKind::For.spelling();
    let i = TokenKind::If.spelling();
    let u = TokenKind::Function.spelling();
    let v = TokenKind::Variable.spelling();
    let t = TokenKind::True.spelling();
    let a = TokenKind::False.spelling();
    assert(e.len() == 4 && c.len() == 9 && f.len() == 3 && i.len() == 2 && u.len() == 8 && v.len()
        == 8 && t.len() == 4 && a.len() == 5);
    assert(e[0] == 'e' && t[0] == 't' && u[0] == 'f' && v[0] == 'v');
}

/// A lexeme that starts with a letter or an underscore is the longest run of
/// name characters from there; it is a keyword where the run spells one, and
/// a name with the run as its payload where it does not.
pub proof fn lemma_word_lexeme(s: Seq<char>, i: int)
    requires
        0 <= i <= s.len(),
        trivia_end(s, i) < s.len(),
        is_letter(s[trivia_end(s, i)]),
    ensures
        ({
            let j = trivia_end(s, i);
            let word = s.subrange(j, ident_end(s, j + 1));
            scan(s, i) == Some(
                Scanned {
                    kind: word_kind(word),
                    start: j,
                    payload: if word_kind(word) == TokenKind::Identifier {
                        word
                    } else {
                        Seq::empty()
                    },
                    next: ident_end(s, j + 1),
                },
            )
        }),
{
    lemma_trivia_end(s, i);
}

/// A lexeme that starts with a quote is a string. Its payload is what stands
/// between that quote and the first quote behind it that no backslash stands
/// directly before, or the end of the text where there is no such quote: a
/// quote behind a backslash does not end the string, and nothing of the
/// payload is decoded.
pub proof fn lemma_string_lexeme(s: Seq<char>, i: int)
    requires
        0 <= i <= s.len(),
        trivia_end(s, i) < s.len(),
        s[trivia_end(s, i)] == '"',
    ensures
        ({
            let j = trivia_end(s, i);
            let close = string_close(s, j + 1, j + 1);
            &&& j + 1 <= close <= s.len()
            &&& scan(s, i) == Some(
                Scanned {
                    kind: TokenKind::StringLiteral,
                    start: j,
                    payload: s.subrange(j + 1, close),
                    next: if close < s.len() {
                        close + 1
                    } else {
                        close
                    },
                },
            )
            &&& close < s.len() ==> s[close] == '"' && (close == j + 1 || s[close - 1] != '\\')
            &&& forall|m: int|
                j + 1 <= m < close && #[trigger] s[m] == '"' ==> m > j + 1 && s[m - 1] == '\\'
        }),
{
    let j = trivia_end(s, i);
    lemma_trivia_end(s, i);
    lemma_string_close(s, j + 1, j + 1);
    assert forall|m: int| j + 1 <= m < string_close(s, j + 1, j + 1) && #[trigger] s[m]
        == '"' implies m > j + 1 && s[m - 1] == '\\' by {
        assert(!closes_string(s, j + 1, m));
    }
}

/// The tokens end where the text ends, behind any white space and comments,
/// and where a character stands that starts no token: one that is no mark, no
/// quote, no letter, no underscore and no digit. Nothing tells the two apart.
pub proof fn lemma_scan_ends(s: Seq<char>, i: int)
    requires
        0 <= i <= s.len(),
    ensures
        ({
            let j = trivia_end(s, i);
            scan(s, i) is None <==> j >= s.len() || (single_symbol(s[j]) is None && s[j] != '"'
                && !is_letter(s[j]) && !decimal_digit(s[j]))
        }),
{
    lemma_trivia_end(s, i);
    let j = trivia_end(s, i);
    if j < s.len() {
        if j + 1 < s.len() {
            lemma_double_operators(s[j], s[j + 1]);
        }
        assert(lexeme_at(s, j) is None <==> (single_symbol(s[j]) is None && s[j] != '"'
            && !is_letter(s[j]) && !decimal_digit(s[j])));
    }
}

/// The payload of a name starts with a letter or an underscore, holds
/// letters, underscores and digits only, and spells no keyword; the payload
/// of a number holds one digit or more, and digits only.
pub proof fn lemma_payload_shape(s: Seq<char>, i: int)
    requires
        0 <= i <= s.len(),
    ensures
        scan(s, i) matches Some(t) ==> {
            &&& t.kind == TokenKind::Identifier ==> t.payload.len() > 0 && is_letter(t.payload[0])
                && word_kind(t.payload) == TokenKind::Identifier && forall|k: int|
                0 <= k < t.payload.len() ==> is_ident_character(#[trigger] t.payload[k])
            &&& t.kind == TokenKind::NumberLiteral ==> t.payload.len() > 0 && forall|k: int|
                0 <= k < t.payload.len() ==> decimal_digit(#[trigger] t.payload[k])
            &&& !t.kind.has_payload() ==> t.payload.len() == 0
        },
{
    lemma_trivia_end(s, i);
    let j = trivia_end(s, i);
    if j < s.len() {
        if j + 1 < s.len() {
            lemma_double_operators(s[j], s[j + 1]);
        }
        lemma_double_operators(s[j], ' ');
        lemma_run_end(s, j + 1, |c: char| is_ident_character(c));
        lemma_run_end(s, j + 1, |c: char| decimal_digit(c));
        let t = scan(s, i);
        if t is Some {
            let payload = t->0.payload;
            if t->0.kind == TokenKind::Identifier || t->0.kind == TokenKind::NumberLiteral {
                assert(single_symbol(s[j]) is None);
                assert(payload.len() > 0);
                assert(payload[0] == s[j]);
                assert forall|k: int| 0 <= k < payload.len() implies payload[k] == s[j + k] by {}
            }
        }
    }
}

} // verus!
