//! Tokens written out and lexed again: the kinds come back.
use crate::lexer::laws::{lemma_double_operators, lemma_keywords, lemma_trivia_end_stops};
use crate::lexer::scan::{
    closes_string, digits_end, double_operator, ident_end, is_ident_character, is_letter,
    lemma_scan_bounds, lemma_string_close, lemma_trivia_end, lexeme_at, line_end, scan,
    single_symbol, string_close, tokens_from, tokens_of, trivia_end, whitespace_end, word_kind,
    Scanned,
};
use crate::lexer::token::{Lexeme, TokenKind};
use crate::text::{decimal_digit, lemma_run_end, lemma_run_is, lemma_run_shift, white_space};
use vstd::prelude::*;

verus! {

/// The kinds of a list of tokens, in order.
pub open spec fn kinds_of(lexemes: Seq<Lexeme>) -> Seq<TokenKind> {
    lexemes.map_values(|l: Lexeme| l.kind)
}

/// The tokens written out as source text, each with a space behind it.
pub open spec fn render(lexemes: Seq<Lexeme>) -> Seq<char>
    decreases lexemes.len(),
{
    if lexemes.len() == 0 {
        Seq::empty()
    } else {
        lexemes[0].text() + seq![' '] + render(lexemes.drop_first())
    }
}

/// The closing quote of a string is at `e` where no quote closes it before
/// `e` and one does at `e`, or the text ends there.
pub proof fn lemma_string_close_is(s: Seq<char>, start: int, k: int, e: int)
    requires
        0 <= start <= k <= e <= s.len(),
        forall|m: int| k <= m < e ==> !closes_string(s, start, m),
        e < s.len() ==> closes_string(s, start, e),
    ensures
        string_close(s, start, k) == e,
    decreases e - k,
{
    if k < e {
        lemma_string_close_is(s, start, k + 1, e);
    }
}

/// The closing quote of a string in a text without its first `d` characters
/// is where it is in the whole text.
pub proof fn lemma_string_close_shift(s: Seq<char>, d: int, start: int, k: int)
    requires
        0 <= d <= start <= k <= s.len(),
    ensures
        string_close(s.skip(d), start - d, k - d) == string_close(s, start, k) - d,
    decreases s.len() - k,
{
    if k < s.len() {
        assert(s.skip(d)[k - d] == s[k]);
        if k > start {
            assert(s.skip(d)[k - d - 1] == s[k - 1]);
        }
        if !closes_string(s, start, k) {
            lemma_string_close_shift(s, d, start, k + 1);
        }
    }
}

/// Trivia in a text without its first `d` characters end where they end in
/// the whole text.
pub proof fn lemma_trivia_end_shift(s: Seq<char>, d: int, i: int)
    requires
        0 <= d <= i <= s.len(),
    ensures
        trivia_end(s.skip(d), i - d) == trivia_end(s, i) - d,
    decreases s.len() - i,
{
    let t = s.skip(d);
    lemma_run_shift(s, d, i, |c: char| white_space(c));
    lemma_run_end(s, i, |c: char| white_space(c));
    let j = whitespace_end(s, i);
    if j + 1 < s.len() {
        assert(t[j - d] == s[j]);
        assert(t[j - d + 1] == s[j + 1]);
        if s[j] == '/' && s[j + 1] == '/' {
            lemma_run_shift(s, d, j + 2, |c: char| c != '\n');
            lemma_run_end(s, j + 2, |c: char| c != '\n');
            lemma_trivia_end_shift(s, d, line_end(s, j + 2));
        }
    }
}

/// A lexeme of a text without its first `d` characters is the lexeme of the
/// whole text at the same place, `d` characters earlier.
pub proof fn lemma_lexeme_at_shift(s: Seq<char>, d: int, j: int)
    requires
        0 <= d <= j <= s.len(),
    ensures
        match lexeme_at(s, j) {
            Some(a) => lexeme_at(s.skip(d), j - d) == Some(
                Scanned { kind: a.kind, start: a.start - d, payload: a.payload, next: a.next - d },
            ),
            None => lexeme_at(s.skip(d), j - d) is None,
        },
{
    let t = s.skip(d);
    if j < s.len() {
        assert(t[j - d] == s[j]);
        if j + 1 < s.len() {
            assert(t[j - d + 1] == s[j + 1]);
        }
        lemma_string_close_shift(s, d, j + 1, j + 1);
        lemma_string_close(s, j + 1, j + 1);
        lemma_run_shift(s, d, j + 1, |c: char| is_ident_character(c));
        lemma_run_end(s, j + 1, |c: char| is_ident_character(c));
        lemma_run_shift(s, d, j + 1, |c: char| decimal_digit(c));
        lemma_run_end(s, j + 1, |c: char| decimal_digit(c));
        assert(t.subrange(j + 1 - d, string_close(s, j + 1, j + 1) - d) =~= s.subrange(
            j + 1,
            string_close(s, j + 1, j + 1),
        ));
        assert(t.subrange(j - d, ident_end(s, j + 1) - d) =~= s.subrange(
            j,
            ident_end(s, j + 1),
        ));
        assert(t.subrange(j - d, digits_end(s, j + 1) - d) =~= s.subrange(
            j,
            digits_end(s, j + 1),
        ));
    }
}

/// The kinds of a list with one token before it.
pub proof fn lemma_kinds_cons(first: Lexeme, rest: Seq<Lexeme>)
    ensures
        kinds_of(seq![first] + rest) == seq![first.kind] + kinds_of(rest),
{
    assert(kinds_of(seq![first] + rest) =~= seq![first.kind] + kinds_of(rest));
}

/// The tokens of a text without its first `d` characters have the kinds of
/// the tokens of the whole text from `d` characters later.
pub proof fn lemma_kinds_shift(s: Seq<char>, d: int, i: int)
    requires
        0 <= d <= i <= s.len(),
    ensures
        kinds_of(tokens_from(s.skip(d), i - d)) == kinds_of(tokens_from(s, i)),
    decreases s.len() - i,
{
    lemma_trivia_end(s, i);
    lemma_trivia_end_shift(s, d, i);
    lemma_lexeme_at_shift(s, d, trivia_end(s, i));
    lemma_scan_bounds(s, i);
    match scan(s, i) {
        Some(a) => {
            let b = scan(s.skip(d), i - d)->0;
            lemma_kinds_shift(s, d, a.next);
            lemma_kinds_cons(a.lexeme(s), tokens_from(s, a.next));
            lemma_kinds_cons(b.lexeme(s.skip(d)), tokens_from(s.skip(d), b.next));
        },
        None => {},
    }
}

/// No trivia stand before a character that is no white space and starts no
/// comment.
proof fn lemma_no_trivia(r: Seq<char>)
    requires
        r.len() > 0,
        !white_space(r[0]),
        !(r.len() > 1 && r[0] == '/' && r[1] == '/'),
    ensures
        trivia_end(r, 0) == 0,
{
    lemma_run_is(r, 0, 0, |c: char| white_space(c));
}

/// An operator of two characters, written out with a space behind it, is
/// lexed as itself.
pub proof fn lemma_rescan_double(a: char, b: char, rest: Seq<char>)
    requires
        double_operator(a, b) is Some,
    ensures
        scan(seq![a, b] + seq![' '] + rest, 0) == Some(
            Scanned {
                kind: double_operator(a, b)->0,
                start: 0,
                payload: Seq::empty(),
                next: 2,
            },
        ),
{
    let r = seq![a, b] + seq![' '] + rest;
    assert(r[0] == a && r[1] == b && r[2] == ' ');
    lemma_no_trivia(r);
}

/// A mark of one character, written out with a space behind it, is lexed as
/// itself.
pub proof fn lemma_rescan_single(a: char, rest: Seq<char>)
    requires
        single_symbol(a) is Some,
    ensures
        scan(seq![a] + seq![' '] + rest, 0) == Some(
            Scanned { kind: single_symbol(a)->0, start: 0, payload: Seq::empty(), next: 1 },
        ),
{
    let r = seq![a] + seq![' '] + rest;
    assert(r[0] == a && r[1] == ' ');
    lemma_no_trivia(r);
}

/// A word, written out with a space behind it, is lexed as itself.
pub proof fn lemma_rescan_word(word: Seq<char>, rest: Seq<char>)
    requires
        word.len() > 0,
        is_letter(word[0]),
        !white_space(word[0]),
        forall|k: int| 0 <= k < word.len() ==> is_ident_character(#[trigger] word[k]),
    ensures
        scan(word + seq![' '] + rest, 0) == Some(
            Scanned {
                kind: word_kind(word),
                start: 0,
                payload: if word_kind(word) == TokenKind::Identifier {
                    word
                } else {
                    Seq::empty()
                },
                next: word.len() as int,
            },
        ),
{
    let r = word + seq![' '] + rest;
    let n = word.len() as int;
    assert(r[0] == word[0]);
    assert(r[n] == ' ');
    assert forall|k: int| 1 <= k < n implies is_ident_character(#[trigger] r[k]) by {
        assert(r[k] == word[k]);
    }
    lemma_no_trivia(r);
    lemma_run_is(r, 1, n, |c: char| is_ident_character(c));
    assert(r.subrange(0, n) =~= word);
}

/// A number, written out with a space behind it, is lexed as itself.
pub proof fn lemma_rescan_number(digits: Seq<char>, rest: Seq<char>)
    requires
        digits.len() > 0,
        forall|k: int| 0 <= k < digits.len() ==> decimal_digit(#[trigger] digits[k]),
    ensures
        scan(digits + seq![' '] + rest, 0) == Some(
            Scanned {
                kind: TokenKind::NumberLiteral,
                start: 0,
                payload: digits,
                next: digits.len() as int,
            },
        ),
{
    let r = digits + seq![' '] + rest;
    let n = digits.len() as int;
    assert(r[0] == digits[0]);
    assert(r[n] == ' ');
    assert forall|k: int| 1 <= k < n implies decimal_digit(#[trigger] r[k]) by {
        assert(r[k] == digits[k]);
    }
    lemma_no_trivia(r);
    lemma_run_is(r, 1, n, |c: char| decimal_digit(c));
    assert(r.subrange(0, n) =~= digits);
}

/// Whether no quote inside the contents of a string would close it.
pub open spec fn holds_no_closing_quote(payload: Seq<char>) -> bool {
    forall|m: int|
        0 <= m < payload.len() ==> !(#[trigger] payload[m] == '"' && (m == 0 || payload[m - 1]
            != '\\'))
}

/// A string whose contents do not end in a backslash, written out between
/// quotes with a space behind it, is lexed as itself.
pub proof fn lemma_rescan_string(payload: Seq<char>, rest: Seq<char>)
    requires
        holds_no_closing_quote(payload),
        payload.len() == 0 || payload.last() != '\\',
    ensures
        scan(seq!['"'] + payload + seq!['"'] + seq![' '] + rest, 0) == Some(
            Scanned {
                kind: TokenKind::StringLiteral,
                start: 0,
                payload,
                next: payload.len() as int + 2,
            },
        ),
{
    let r = seq!['"'] + payload + seq!['"'] + seq![' '] + rest;
    let n = payload.len() as int;
    assert(r[0] == '"');
    assert(r[n + 1] == '"');
    assert forall|m: int| 1 <= m < n + 1 implies !closes_string(r, 1, m) by {
        assert(r[m] == payload[m - 1]);
        if m > 1 {
            assert(r[m - 1] == payload[m - 2]);
        }
    }
    if n > 0 {
        assert(r[n] == payload[n - 1]);
    }
    lemma_no_trivia(r);
    lemma_string_close_is(r, 1, 1, n + 1);
    assert(r.subrange(1, n + 1) =~= payload);
}

/// A string whose contents end in a backslash, written out between quotes
/// with a space behind it and nothing else, is lexed as one string that runs
/// to the end.
pub proof fn lemma_rescan_open_string(payload: Seq<char>)
    requires
        holds_no_closing_quote(payload),
        payload.len() > 0,
        payload.last() == '\\',
    ensures
        scan(seq!['"'] + payload + seq!['"'] + seq![' '], 0) matches Some(t) && t.kind
            == TokenKind::StringLiteral && t.next == payload.len() + 3,
{
    let r = seq!['"'] + payload + seq!['"'] + seq![' '];
    let n = payload.len() as int;
    assert(r[0] == '"');
    assert(r[n + 1] == '"');
    assert(r[n + 2] == ' ');
    assert(r[n] == payload[n - 1]);
    assert forall|m: int| 1 <= m < n + 3 implies !closes_string(r, 1, m) by {
        if m < n + 1 {
            assert(r[m] == payload[m - 1]);
            if m > 1 {
                assert(r[m - 1] == payload[m - 2]);
            }
        }
    }
    lemma_no_trivia(r);
    lemma_string_close_is(r, 1, 1, n + 3);
}

/// Behind a space, the tokens of a text have the kinds of the tokens of what
/// follows the space.
proof fn lemma_behind_space(r: Seq<char>, w: int, rest: Seq<char>)
    requires
        0 <= w < r.len(),
        r[w] == ' ',
        r.skip(w + 1) == rest,
    ensures
        kinds_of(tokens_from(r, w)) == kinds_of(tokens_from(rest, 0)),
{
    lemma_run_end(r, w + 1, |c: char| white_space(c));
    assert(whitespace_end(r, w) == whitespace_end(r, w + 1));
    assert(trivia_end(r, w) == trivia_end(r, w + 1));
    assert(scan(r, w) == scan(r, w + 1));
    assert(tokens_from(r, w) == tokens_from(r, w + 1));
    lemma_kinds_shift(r, w + 1, w + 1);
}

/// No tokens follow the end of a text.
proof fn lemma_no_tokens_at_end(s: Seq<char>)
    ensures
        tokens_from(s, s.len() as int) == Seq::<Lexeme>::empty(),
{
    lemma_trivia_end(s, s.len() as int);
}

/// A lexeme of a text, written out with a space and the rest of the written
/// tokens behind it, is lexed with its kind, and the tokens behind it are
/// those of the rest.
proof fn lemma_rescan(s: Seq<char>, i: int)
    requires
        0 <= i <= s.len(),
        scan(s, i) is Some,
    ensures
        ({
            let t = scan(s, i)->0;
            let rest = render(tokens_from(s, t.next));
            let r = t.lexeme(s).text() + seq![' '] + rest;
            scan(r, 0) matches Some(u) && u.kind == t.kind && 0 <= u.next <= r.len() && kinds_of(
                tokens_from(r, u.next),
            ) == kinds_of(tokens_from(rest, 0))
        }),
{
    lemma_trivia_end(s, i);
    lemma_trivia_end_stops(s, i);
    lemma_scan_bounds(s, i);
    let j = trivia_end(s, i);
    let t = scan(s, i)->0;
    let x = t.lexeme(s);
    let rest = render(tokens_from(s, t.next));
    let r = x.text() + seq![' '] + rest;
    let w = x.text().len() as int;
    if j + 1 < s.len() && double_operator(s[j], s[j + 1]) is Some {
        lemma_double_operators(s[j], s[j + 1]);
        lemma_rescan_double(s[j], s[j + 1], rest);
        assert(r[2] == ' ');
        assert(r.skip(3) =~= rest);
        lemma_behind_space(r, 2, rest);
    } else if single_symbol(s[j]) is Some {
        lemma_double_operators(s[j], ' ');
        lemma_rescan_single(s[j], rest);
        assert(r[1] == ' ');
        assert(r.skip(2) =~= rest);
        lemma_behind_space(r, 1, rest);
    } else if s[j] == '"' {
        let close = string_close(s, j + 1, j + 1);
        let payload = s.subrange(j + 1, close);
        lemma_string_close(s, j + 1, j + 1);
        assert forall|m: int| 0 <= m < payload.len() implies !(#[trigger] payload[m] == '"' && (m
            == 0 || payload[m - 1] != '\\')) by {
            assert(!closes_string(s, j + 1, j + 1 + m));
            assert(payload[m] == s[j + 1 + m]);
            if m > 0 {
                assert(payload[m - 1] == s[j + m]);
            }
        }
        if payload.len() > 0 {
            assert(payload.last() == s[close - 1]);
        }
        if payload.len() == 0 || payload.last() != '\\' {
            lemma_rescan_string(payload, rest);
            assert(r[w] == ' ');
            assert(r.skip(w + 1) =~= rest);
            lemma_behind_space(r, w, rest);
        } else {
            assert(close == s.len());
            lemma_no_tokens_at_end(s);
            assert(rest =~= Seq::<char>::empty());
            assert(r =~= seq!['"'] + payload + seq!['"'] + seq![' ']);
            lemma_rescan_open_string(payload);
            lemma_no_tokens_at_end(r);
            lemma_no_tokens_at_end(rest);
        }
    } else if is_letter(s[j]) {
        let end = ident_end(s, j + 1);
        let word = s.subrange(j, end);
        lemma_run_end(s, j + 1, |c: char| is_ident_character(c));
        lemma_keywords(word);
        assert(word[0] == s[j]);
        assert forall|k: int| 0 <= k < word.len() implies is_ident_character(
            #[trigger] word[k],
        ) by {
            assert(word[k] == s[j + k]);
        }
        assert(x.text() == word);
        lemma_rescan_word(word, rest);
        assert(r[w] == ' ');
        assert(r.skip(w + 1) =~= rest);
        lemma_behind_space(r, w, rest);
    } else {
        let end = digits_end(s, j + 1);
        let digits = s.subrange(j, end);
        lemma_run_end(s, j + 1, |c: char| decimal_digit(c));
        assert(digits[0] == s[j]);
        assert forall|k: int| 0 <= k < digits.len() implies decimal_digit(
            #[trigger] digits[k],
        ) by {
            assert(digits[k] == s[j + k]);
        }
        lemma_rescan_number(digits, rest);
        assert(r[w] == ' ');
        assert(r.skip(w + 1) =~= rest);
        lemma_behind_space(r, w, rest);
    }
}

/// The tokens of a text from `i` on, written out with spaces between them and
/// lexed again, have the kinds that they had.
pub proof fn lemma_round_trip_from(s: Seq<char>, i: int)
    requires
        0 <= i <= s.len(),
    ensures
        kinds_of(tokens_of(render(tokens_from(s, i)))) == kinds_of(tokens_from(s, i)),
    decreases s.len() - i,
{
    lemma_scan_bounds(s, i);
    match scan(s, i) {
        Some(t) => {
            let x = t.lexeme(s);
            let tail = tokens_from(s, t.next);
            let rest = render(tail);
            let r = x.text() + seq![' '] + rest;
            assert(tokens_from(s, i) == seq![x] + tail);
            assert((seq![x] + tail).drop_first() =~= tail);
            assert(render(tokens_from(s, i)) == r);
            lemma_rescan(s, i);
            lemma_round_trip_from(s, t.next);
            let u = scan(r, 0)->0;
            lemma_kinds_cons(u.lexeme(r), tokens_from(r, u.next));
            lemma_kinds_cons(x, tail);
        },
        None => {
            assert(render(tokens_from(s, i)) =~= Seq::<char>::empty());
            lemma_no_tokens_at_end(Seq::<char>::empty());
        },
    }
}

/// Lexing is idempotent on what it yields: the tokens of any text, written
/// out in order with a space behind each and lexed again, have the same
/// kinds in the same order.
pub proof fn lemma_round_trip(s: Seq<char>)
    ensures
        kinds_of(tokens_of(render(tokens_of(s)))) == kinds_of(tokens_of(s)),
{
    lemma_round_trip_from(s, 0);
}

} // verus!
