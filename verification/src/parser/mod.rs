//! The grammar engine: source text to a tree of declarations, or to the chain
//! of rules that failed.
pub mod expression;
pub mod fault;
pub mod grammar;
pub mod laws;
pub mod report;

use crate::parser::expression::{lemma_node, nodes_of, Container, Expression, Function, Node};
use crate::parser::fault::{frame, mark_outcome, nodes_outcome, outcome, Fault, Frame, Parsed, Rule};
use crate::parser::grammar::{
    alphanumeric_end, comment_end, digit_end, escape_value, has_prefix, literal_end, space_end,
};
use crate::parser::laws::{lemma_failure_has_frames, lemma_program_shape};
use crate::parser::report::{diagnostics, messages, texts_of};
use crate::text::{
    ascii_alphanumeric, blank, collect, is_ascii_letter, is_blank, is_decimal_digit,
    lemma_run_end, to_chars,
};
use vstd::prelude::*;
use vstd::string::StrSliceExecFns;

verus! {

/// Passes over the blanks that start at `i`.
pub fn space(s: &Vec<char>, i: usize) -> (j: usize)
    requires
        i <= s@.len(),
    ensures
        j == space_end(s@, i as int),
        i <= j <= s@.len(),
{
    let mut j = i;
    while j < s.len() && is_blank(s[j])
        invariant
            i <= j <= s@.len(),
            space_end(s@, j as int) == space_end(s@, i as int),
        decreases s@.len() - j,
    {
        j += 1;
    }
    j
}

/// Passes over the ASCII letters and digits that start at `i`.
fn alphanumeric(s: &Vec<char>, i: usize) -> (j: usize)
    requires
        i <= s@.len(),
    ensures
        j == alphanumeric_end(s@, i as int),
        i <= j <= s@.len(),
{
    let mut j = i;
    while j < s.len() && (is_ascii_letter(s[j]) || is_decimal_digit(s[j]))
        invariant
            i <= j <= s@.len(),
            alphanumeric_end(s@, j as int) == alphanumeric_end(s@, i as int),
        decreases s@.len() - j,
    {
        j += 1;
    }
    j
}

/// Passes over the digits that start at `i`.
fn digits(s: &Vec<char>, i: usize) -> (j: usize)
    requires
        i <= s@.len(),
    ensures
        j == digit_end(s@, i as int),
        i <= j <= s@.len(),
{
    let mut j = i;
    while j < s.len() && is_decimal_digit(s[j])
        invariant
            i <= j <= s@.len(),
            digit_end(s@, j as int) == digit_end(s@, i as int),
        decreases s@.len() - j,
    {
        j += 1;
    }
    j
}

/// Passes over the rest of the line, up to its line feed.
fn rest_of_line(s: &Vec<char>, i: usize) -> (j: usize)
    requires
        i <= s@.len(),
    ensures
        j == comment_end(s@, i as int),
        i <= j <= s@.len(),
{
    let mut j = i;
    while j < s.len() && s[j] != '\n'
        invariant
            i <= j <= s@.len(),
            comment_end(s@, j as int) == comment_end(s@, i as int),
        decreases s@.len() - j,
    {
        j += 1;
    }
    j
}

/// Whether `word` stands in the text at offset `i`.
fn has_word(s: &Vec<char>, i: usize, word: &str) -> (r: bool)
    requires
        i <= s@.len(),
    ensures
        r == has_prefix(s@, i as int, word@),
        r ==> i + word@.len() <= usize::MAX,
{
    let n = word.unicode_len();
    if n > s.len() - i {
        return false;
    }
    let mut k: usize = 0;
    while k < n
        invariant
            k <= n,
            n == word@.len(),
            i + n <= s@.len() <= usize::MAX,
            forall|m: int| 0 <= m < k ==> s@[i + m] == word@[m],
        decreases n - k,
    {
        if s[i + k] != word.get_char(k) {
            assert(s@.subrange(i as int, i + n)[k as int] != word@[k as int]);
            return false;
        }
        k += 1;
    }
    assert(s@.subrange(i as int, i + n) =~= word@);
    true
}

/// The mark `c`, behind any blanks.
pub fn symbol(s: &Vec<char>, i: usize, c: char) -> (r: Result<usize, Fault>)
    requires
        i <= s@.len(),
    ensures
        mark_outcome(r) == grammar::symbol(s@, i as int, c),
        r matches Ok(next) ==> i < next <= s@.len(),
{
    let j = space(s, i);
    if j < s.len() && s[j] == c {
        Ok(j + 1)
    } else {
        Err(Fault::new(Rule::Character(c), j))
    }
}

/// A name.
pub fn identifier(s: &Vec<char>, i: usize) -> (r: Result<(String, usize), Fault>)
    requires
        i <= s@.len(),
    ensures
        outcome(r) == grammar::identifier(s@, i as int),
        r matches Ok(v) ==> i < v.1 <= s@.len(),
{
    let j = space(s, i);
    if j < s.len() && is_ascii_letter(s[j]) {
        let end = alphanumeric(s, j);
        proof {
            lemma_run_end(s@, j + 1, |c: char| ascii_alphanumeric(c));
        }
        Ok((collect(s, j, end), end))
    } else {
        Err(Fault::new(Rule::Letter, j).within(Rule::Identifier, i))
    }
}

/// A number.
pub fn integer_literal(s: &Vec<char>, i: usize) -> (r: Result<(Expression, usize), Fault>)
    requires
        i <= s@.len(),
    ensures
        outcome(r) == grammar::integer_literal(s@, i as int),
        r matches Ok(v) ==> i < v.1 <= s@.len(),
{
    let j = space(s, i);
    let end = digits(s, j);
    if end > j {
        Ok((Expression::IntegerLiteral(collect(s, j, end)), end))
    } else {
        Err(Fault::new(Rule::Digit, j).within(Rule::Integer, i))
    }
}

/// The name of a type.
pub fn variable_type(s: &Vec<char>, i: usize) -> (r: Result<(String, usize), Fault>)
    requires
        i <= s@.len(),
    ensures
        outcome(r) == grammar::variable_type(s@, i as int),
        r matches Ok(v) ==> i < v.1 <= s@.len(),
{
    proof {
        reveal_strlit("integer");
        reveal_strlit("string");
        reveal_strlit("boolean");
        reveal_strlit("character");
        assert("integer"@ =~= grammar::word_integer());
        assert("string"@ =~= grammar::word_string());
        assert("boolean"@ =~= grammar::word_boolean());
        assert("character"@ =~= grammar::word_character());
        assert(grammar::word_integer().len() == 7);
        assert(grammar::word_string().len() == 6);
        assert(grammar::word_boolean().len() == 7);
        assert(grammar::word_character().len() == 9);
    }
    let j = space(s, i);
    if has_word(s, j, "integer") {
        Ok(("integer".to_owned(), j + 7))
    } else if has_word(s, j, "string") {
        Ok(("string".to_owned(), j + 6))
    } else if has_word(s, j, "boolean") {
        Ok(("boolean".to_owned(), j + 7))
    } else if has_word(s, j, "character") {
        Ok(("character".to_owned(), j + 9))
    } else {
        match identifier(s, j) {
            Ok(found) => Ok(found),
            Err(fault) => Err(fault.within(Rule::Type, i)),
        }
    }
}

/// A declaration: a type and a name.
pub fn variable_declaration(s: &Vec<char>, i: usize) -> (r: Result<(Expression, usize), Fault>)
    requires
        i <= s@.len(),
    ensures
        outcome(r) == grammar::variable_declaration(s@, i as int),
        r matches Ok(v) ==> i < v.1 <= s@.len() && v.0 is VariableDeclaration,
        r matches Err(fault) ==> !fault.fatal,
{
    proof {
        grammar::lemma_variable_declaration(s@, i as int);
    }
    match variable_type(s, i) {
        Ok((ty, n)) => match identifier(s, n) {
            Ok((name, next)) => Ok((Expression::VariableDeclaration(ty, name), next)),
            Err(fault) => Err(fault.within(Rule::Declaration, i)),
        },
        Err(fault) => Err(fault.within(Rule::Declaration, i)),
    }
}

/// One piece of a string's contents.
#[derive(Debug, Clone, Copy, PartialEq, Eq)]
pub enum StringFragment {
    /// The plain characters from the first offset up to the second.
    Literal(usize, usize),
    /// The character that an escape stands for.
    EscapedChar(char),
    /// A backslash and the blanks behind it.
    EscapedWS,
}

impl StringFragment {
    /// Whether the piece lies within the text `s`.
    pub open spec fn fits(self, s: Seq<char>) -> bool {
        self matches StringFragment::Literal(from, to) ==> from <= to <= s.len()
    }

    /// The characters that the piece stands for in the text `s`.
    pub open spec fn text(self, s: Seq<char>) -> Seq<char> {
        match self {
            StringFragment::Literal(from, to) => s.subrange(from as int, to as int),
            StringFragment::EscapedChar(c) => seq![c],
            StringFragment::EscapedWS => Seq::empty(),
        }
    }
}

/// A backslash and an escape letter at `i`: the character they stand for.
pub fn parse_escaped_char(s: &Vec<char>, i: usize) -> (r: Option<char>)
    requires
        i <= s@.len(),
    ensures
        r == (if i + 1 < s@.len() && s@[i as int] == '\\' {
            escape_value(s@[i + 1])
        } else {
            None
        }),
        r is Some ==> i + 1 < s@.len() <= usize::MAX,
{
    if i < s.len() && s.len() - i > 1 && s[i] == '\\' {
        match s[i + 1] {
            'n' => Some('\n'),
            'r' => Some('\r'),
            't' => Some('\t'),
            '\\' => Some('\\'),
            '/' => Some('/'),
            '"' => Some('"'),
            _ => None,
        }
    } else {
        None
    }
}

/// A backslash and one blank or more at `i`: the offset behind the blanks.
pub fn parse_escaped_whitespace(s: &Vec<char>, i: usize) -> (r: Option<usize>)
    requires
        i <= s@.len(),
    ensures
        r is Some <==> i + 1 < s@.len() && s@[i as int] == '\\' && blank(s@[i + 1]),
        r matches Some(end) ==> end == space_end(s@, i + 1) && i + 1 < end <= s@.len(),
{
    if i < s.len() && s.len() - i > 1 && s[i] == '\\' && is_blank(s[i + 1]) {
        proof {
            lemma_run_end(s@, i + 2, |c: char| blank(c));
        }
        Some(space(s, i + 1))
    } else {
        None
    }
}

/// A run of plain characters at `i` that is not empty: the offset behind it.
pub fn parse_literal(s: &Vec<char>, i: usize) -> (r: Option<usize>)
    requires
        i <= s@.len(),
    ensures
        r is Some <==> i < s@.len() && s@[i as int] != '"' && s@[i as int] != '\\',
        r matches Some(end) ==> end == literal_end(s@, i as int) && i < end <= s@.len(),
{
    let mut j = i;
    while j < s.len() && s[j] != '"' && s[j] != '\\'
        invariant
            i <= j <= s@.len(),
            literal_end(s@, j as int) == literal_end(s@, i as int),
        decreases s@.len() - j,
    {
        j += 1;
    }
    if j > i {
        Some(j)
    } else {
        None
    }
}

/// One piece of a string's contents at `i`, with the offset behind it.
pub fn parse_fragment(s: &Vec<char>, i: usize) -> (r: Option<(StringFragment, usize)>)
    requires
        i <= s@.len(),
    ensures
        match (r, grammar::fragment(s@, i as int)) {
            (Some(found), Some(piece)) => found.0.fits(s@) && found.0.text(s@) == piece.0
                && found.1 == piece.1 && i < found.1 <= s@.len(),
            (None, None) => true,
            _ => false,
        },
{
    match parse_literal(s, i) {
        Some(end) => Some((StringFragment::Literal(i, end), end)),
        None => match parse_escaped_char(s, i) {
            Some(c) => Some((StringFragment::EscapedChar(c), i + 2)),
            None => match parse_escaped_whitespace(s, i) {
                Some(end) => Some((StringFragment::EscapedWS, end)),
                None => None,
            },
        },
    }
}

/// Appends the characters from `from` up to `to` to a text.
fn push_range(string: &mut String, s: &Vec<char>, from: usize, to: usize)
    requires
        from <= to <= s@.len(),
    ensures
        final(string)@ == old(string)@ + s@.subrange(from as int, to as int),
{
    let mut k = from;
    assert(string@ =~= old(string)@ + s@.subrange(from as int, k as int));
    while k < to
        invariant
            from <= k <= to <= s@.len(),
            string@ == old(string)@ + s@.subrange(from as int, k as int),
        decreases to - k,
    {
        string.push(s[k]);
        k += 1;
        assert(string@ =~= old(string)@ + s@.subrange(from as int, k as int));
    }
}

/// A string: a quote, the contents with their escapes resolved, a quote.
pub fn parse_string(s: &Vec<char>, i: usize) -> (r: Result<(Expression, usize), Fault>)
    requires
        i <= s@.len(),
    ensures
        outcome(r) == grammar::parse_string(s@, i as int),
        r matches Ok(v) ==> i < v.1 <= s@.len(),
        r matches Err(fault) ==> !fault.fatal,
{
    let j = space(s, i);
    if j < s.len() && s[j] == '"' {
        let mut string = String::new();
        let mut k = j + 1;
        assert(string@ + grammar::string_contents(s@, k as int).0 =~= grammar::string_contents(
            s@,
            k as int,
        ).0);
        loop
            invariant_except_break
                grammar::string_contents(s@, j + 1) == (
                    string@ + grammar::string_contents(s@, k as int).0,
                    grammar::string_contents(s@, k as int).1,
                ),
            invariant
                j < k <= s@.len(),
            ensures
                grammar::string_contents(s@, j + 1) == (string@, k as int),
            decreases s@.len() - k,
        {
            let ghost before = string@;
            match parse_fragment(s, k) {
                Some((piece, next)) => {
                    match piece {
                        StringFragment::Literal(from, to) => {
                            push_range(&mut string, s, from, to);
                        },
                        StringFragment::EscapedChar(c) => {
                            string.push(c);
                        },
                        StringFragment::EscapedWS => {},
                    }
                    assert(string@ =~= before + piece.text(s@));
                    assert(string@ + grammar::string_contents(s@, next as int).0 =~= before + (
                    piece.text(s@) + grammar::string_contents(s@, next as int).0));
                    k = next;
                },
                None => {
                    assert(string@ + Seq::<char>::empty() =~= string@);
                    break ;
                },
            }
        }
        if k < s.len() && s[k] == '"' {
            Ok((Expression::StringLiteral(string), k + 1))
        } else {
            Err(Fault::new(Rule::Character('"'), k).within(Rule::StringLiteral, i))
        }
    } else {
        Err(Fault::new(Rule::Character('"'), j).within(Rule::StringLiteral, i))
    }
}

/// The list that holds one expression.
fn single(e: Expression) -> (list: Vec<Expression>)
    ensures
        list@ == seq![e],
        nodes_of(list@) == seq![e@],
{
    let mut list: Vec<Expression> = Vec::new();
    list.push(e);
    assert(nodes_of(list@) =~= seq![e@]);
    list
}

/// An initializer: `=` and one value.
pub fn assignment(s: &Vec<char>, i: usize) -> (r: Result<(Vec<Expression>, usize), Fault>)
    requires
        i <= s@.len(),
    ensures
        nodes_outcome(r) == grammar::assignment(s@, i as int),
        r matches Ok(v) ==> i < v.1 <= s@.len(),
{
    let j = space(s, i);
    if j < s.len() && s[j] == '=' {
        match integer_literal(s, j + 1) {
            Ok((value, next)) => Ok((single(value), next)),
            Err(first) => match parse_string(s, j + 1) {
                Ok((value, next)) => Ok((single(value), next)),
                Err(second) => match identifier(s, j + 1) {
                    Ok((name, next)) => Ok((single(Expression::Identifier(name)), next)),
                    Err(third) => Err(
                        first.joined(second).joined(third).committed().within(Rule::Assignment, i),
                    ),
                },
            },
        }
    } else {
        Err(Fault::new(Rule::Character('='), j).within(Rule::Assignment, i))
    }
}

/// A definition: a declaration, an initializer or none, and `;`.
pub fn variable_definition(s: &Vec<char>, i: usize) -> (r: Result<(Expression, usize), Fault>)
    requires
        i <= s@.len(),
    ensures
        outcome(r) == grammar::variable_definition(s@, i as int),
        r matches Ok(v) ==> i < v.1 <= s@.len(),
{
    match variable_declaration(s, i) {
        Ok((declaration, n)) => {
            let (def, after) = match assignment(s, n) {
                Ok((list, next)) => (Some(list), next),
                Err(fault) => {
                    if fault.fatal {
                        return Err(fault.within(Rule::Definition, i));
                    }
                    (None, n)
                },
            };
            match symbol(s, after, ';') {
                Ok(next) => Ok((Expression::assign_from_declaration(declaration, def), next)),
                Err(fault) => Err(fault.within(Rule::Definition, i)),
            }
        },
        Err(fault) => Err(fault.within(Rule::Definition, i)),
    }
}

/// A comment: its text, without the two slashes.
pub fn comment(s: &Vec<char>, i: usize) -> (r: Result<(String, usize), Fault>)
    requires
        i <= s@.len(),
    ensures
        outcome(r) == grammar::comment(s@, i as int),
        r matches Ok(v) ==> i < v.1 <= s@.len(),
        r matches Err(fault) ==> !fault.fatal,
{
    proof {
        reveal_strlit("//");
        assert("//"@ =~= grammar::comment_marker());
        assert(grammar::comment_marker().len() == 2);
    }
    let j = space(s, i);
    if has_word(s, j, "//") {
        let end = rest_of_line(s, j + 2);
        Ok((collect(s, j + 2, end), end))
    } else {
        Err(Fault::new(Rule::CommentMarker, j).within(Rule::Comment, i))
    }
}

/// The declaration of a container, behind its keyword.
pub fn container_declaration(s: &Vec<char>, i: usize) -> (r: Result<(Container, usize), Fault>)
    requires
        i <= s@.len(),
    ensures
        outcome(r) == grammar::container_declaration(s@, i as int),
        r matches Ok(v) ==> i < v.1 <= s@.len(),
{
    let (name, n) = match identifier(s, i) {
        Ok(found) => found,
        Err(fault) => {
            return Err(fault.within(Rule::ContainerDeclaration, i));
        },
    };
    let m = match symbol(s, n, '{') {
        Ok(next) => next,
        Err(fault) => {
            return Err(fault.within(Rule::ContainerDeclaration, i));
        },
    };
    let mut variables: Vec<Expression> = Vec::new();
    let mut k = m;
    assert(nodes_of(variables@) + grammar::fields(s@, k as int).0 =~= grammar::fields(
        s@,
        k as int,
    ).0);
    loop
        invariant_except_break
            grammar::fields(s@, m as int) == (
                nodes_of(variables@) + grammar::fields(s@, k as int).0,
                grammar::fields(s@, k as int).1,
            ),
        invariant
            m <= k <= s@.len(),
        ensures
            grammar::fields(s@, m as int) == (nodes_of(variables@), k as int),
        decreases s@.len() - k,
    {
        let ghost before = nodes_of(variables@);
        match variable_declaration(s, k) {
            Ok((declaration, next)) => {
                if next < s.len() && s[next] == ';' {
                    variables.push(declaration);
                    assert(nodes_of(variables@) =~= before + seq![declaration@]);
                    assert(nodes_of(variables@) + grammar::fields(s@, next + 1).0 =~= before + (
                    seq![declaration@] + grammar::fields(s@, next + 1).0));
                    k = next + 1;
                } else {
                    assert(before + Seq::<Node>::empty() =~= before);
                    break ;
                }
            },
            Err(_) => {
                assert(before + Seq::<Node>::empty() =~= before);
                break ;
            },
        }
    }
    match symbol(s, k, '}') {
        Ok(next) => Ok((Container::new(name, variables), next)),
        Err(fault) => Err(fault.within(Rule::ContainerDeclaration, i)),
    }
}

/// The parameters of a function from `i` on, with the offset behind them.
fn parameters(s: &Vec<char>, i: usize) -> (r: (Vec<Expression>, usize))
    requires
        i <= s@.len(),
    ensures
        (nodes_of(r.0@), r.1 as int) == grammar::parameters(s@, i as int),
        i <= r.1 <= s@.len(),
{
    let mut list: Vec<Expression> = Vec::new();
    let mut k = i;
    match variable_declaration(s, i) {
        Ok((declaration, next)) => {
            list.push(declaration);
            k = next;
            assert(nodes_of(list@) =~= seq![declaration@]);
        },
        Err(_) => {
            assert(nodes_of(list@) =~= Seq::<Node>::empty());
            return (list, i);
        },
    }
    loop
        invariant_except_break
            grammar::parameters(s@, i as int) == (
                nodes_of(list@) + grammar::more_parameters(s@, k as int).0,
                grammar::more_parameters(s@, k as int).1,
            ),
        invariant
            i <= k <= s@.len(),
        ensures
            grammar::parameters(s@, i as int) == (nodes_of(list@), k as int),
        decreases s@.len() - k,
    {
        let ghost before = nodes_of(list@);
        match symbol(s, k, ',') {
            Ok(after) => match variable_declaration(s, after) {
                Ok((declaration, next)) => {
                    list.push(declaration);
                    assert(nodes_of(list@) =~= before + seq![declaration@]);
                    assert(nodes_of(list@) + grammar::more_parameters(s@, next as int).0
                        =~= before + (seq![declaration@] + grammar::more_parameters(
                        s@,
                        next as int,
                    ).0));
                    k = next;
                },
                Err(_) => {
                    assert(before + Seq::<Node>::empty() =~= before);
                    break ;
                },
            },
            Err(_) => {
                assert(before + Seq::<Node>::empty() =~= before);
                break ;
            },
        }
    }
    (list, k)
}

/// The parameter list of a function, between parentheses.
pub fn arguments(s: &Vec<char>, i: usize) -> (r: Result<(Vec<Expression>, usize), Fault>)
    requires
        i <= s@.len(),
    ensures
        nodes_outcome(r) == grammar::arguments(s@, i as int),
        r matches Ok(v) ==> i < v.1 <= s@.len(),
{
    match symbol(s, i, '(') {
        Ok(n) => {
            let (list, k) = parameters(s, n);
            match symbol(s, k, ')') {
                Ok(next) => Ok((list, next)),
                Err(fault) => Err(fault.within(Rule::Arguments, i)),
            }
        },
        Err(fault) => Err(fault.within(Rule::Arguments, i)),
    }
}

/// A statement of a scope: a comment, else a definition, else a string.
pub fn statement(s: &Vec<char>, i: usize) -> (r: Result<(Expression, usize), Fault>)
    requires
        i <= s@.len(),
    ensures
        outcome(r) == grammar::statement(s@, i as int),
        r matches Ok(v) ==> i < v.1 <= s@.len(),
{
    match comment(s, i) {
        Ok((text, next)) => Ok((Expression::Comment(text), next)),
        Err(first) => match variable_definition(s, i) {
            Ok(found) => Ok(found),
            Err(second) => {
                if second.fatal {
                    Err(second)
                } else {
                    match parse_string(s, i) {
                        Ok(found) => Ok(found),
                        Err(third) => Err(first.joined(second).joined(third)),
                    }
                }
            },
        },
    }
}

/// The body of a function: statements between braces.
pub fn scope(s: &Vec<char>, i: usize) -> (r: Result<(Vec<Expression>, usize), Fault>)
    requires
        i <= s@.len(),
    ensures
        nodes_outcome(r) == grammar::scope(s@, i as int),
        r matches Ok(v) ==> i < v.1 <= s@.len(),
{
    let n = match symbol(s, i, '{') {
        Ok(next) => next,
        Err(fault) => {
            return Err(fault.within(Rule::Scope, i));
        },
    };
    let mut body: Vec<Expression> = Vec::new();
    let mut k = n;
    proof {
        assert(nodes_of(body@) =~= Seq::<Node>::empty());
        if let Parsed::Match { value, next } = grammar::statements(s@, n as int) {
            assert(nodes_of(body@) + value =~= value);
        }
    }
    loop
        invariant_except_break
            grammar::statements(s@, n as int) == (match grammar::statements(s@, k as int) {
                Parsed::Match { value, next } => Parsed::Match {
                    value: nodes_of(body@) + value,
                    next,
                },
                Parsed::Miss { fatal, frames } => Parsed::Miss { fatal, frames },
            }),
        invariant
            i <= s@.len(),
            grammar::symbol(s@, i as int, '{') == (Parsed::Match { value: (), next: n as int }),
            n <= k <= s@.len(),
        ensures
            grammar::statements(s@, n as int) == (Parsed::Match {
                value: nodes_of(body@),
                next: k as int,
            }),
        decreases s@.len() - k,
    {
        let ghost before = nodes_of(body@);
        match statement(s, k) {
            Ok((found, next)) => {
                body.push(found);
                proof {
                    assert(nodes_of(body@) =~= before + seq![found@]);
                    if let Parsed::Match { value, next: _ } = grammar::statements(s@, next as int) {
                        assert(nodes_of(body@) + value =~= before + (seq![found@] + value));
                    }
                }
                k = next;
            },
            Err(fault) => {
                if fault.fatal {
                    assert(grammar::statements(s@, k as int) == (Parsed::Miss::<Seq<Node>> {
                        fatal: true,
                        frames: fault.frames@,
                    }));
                    return Err(fault.within(Rule::Scope, i));
                }
                assert(before + Seq::<Node>::empty() =~= before);
                break ;
            },
        }
    }
    match symbol(s, k, '}') {
        Ok(next) => Ok((body, next)),
        Err(fault) => Err(fault.within(Rule::Scope, i)),
    }
}

/// The declaration of a function, behind its keyword.
pub fn function_declaration(s: &Vec<char>, i: usize) -> (r: Result<(Function, usize), Fault>)
    requires
        i <= s@.len(),
    ensures
        outcome(r) == grammar::function_declaration(s@, i as int),
        r matches Ok(v) ==> i < v.1 <= s@.len(),
{
    match identifier(s, i) {
        Ok((name, n)) => match arguments(s, n) {
            Ok((list, m)) => match scope(s, m) {
                Ok((body, next)) => Ok((Function::new(name, list, body), next)),
                Err(fault) => Err(fault.within(Rule::FunctionDeclaration, i)),
            },
            Err(fault) => Err(fault.within(Rule::FunctionDeclaration, i)),
        },
        Err(fault) => Err(fault.within(Rule::FunctionDeclaration, i)),
    }
}

/// The outcome of the rule for what stands at the top level, which yields a
/// node or none.
pub open spec fn item_outcome(r: Result<(Option<Expression>, usize), Fault>) -> Parsed<
    Option<Node>,
> {
    match r {
        Ok((Some(e), next)) => Parsed::Match { value: Some(e@), next: next as int },
        Ok((None, next)) => Parsed::Match { value: None, next: next as int },
        Err(fault) => Parsed::Miss { fatal: fault.fatal, frames: fault.frames@ },
    }
}

/// What stands at the top level at `i`: a comment, which yields nothing, a
/// container or a function.
pub fn item(s: &Vec<char>, i: usize) -> (r: Result<(Option<Expression>, usize), Fault>)
    requires
        i <= s@.len(),
    ensures
        item_outcome(r) == grammar::item(s@, i as int),
        r matches Ok(v) ==> i < v.1 <= s@.len(),
{
    proof {
        reveal_strlit("container");
        reveal_strlit("function");
        assert("container"@ =~= grammar::word_container());
        assert("function"@ =~= grammar::word_function());
        assert(grammar::word_container().len() == 9);
        assert(grammar::word_function().len() == 8);
    }
    let j = space(s, i);
    match comment(s, j) {
        Ok((_, next)) => Ok((None, next)),
        Err(first) => {
            if has_word(s, j, "container") {
                match container_declaration(s, j + 9) {
                    Ok((container, next)) => {
                        let e = Expression::ContainerDeclaration(container);
                        proof {
                            lemma_node(e);
                        }
                        Ok((Some(e), next))
                    },
                    Err(fault) => Err(fault.committed()),
                }
            } else if has_word(s, j, "function") {
                match function_declaration(s, j + 8) {
                    Ok((function, next)) => {
                        let e = Expression::FunctionDeclaration(function);
                        proof {
                            lemma_node(e);
                        }
                        Ok((Some(e), next))
                    },
                    Err(fault) => Err(fault.committed()),
                }
            } else {
                let fault = first.within(Rule::ContainerKeyword, j).within(
                    Rule::FunctionKeyword,
                    j,
                );
                assert(fault.frames@ =~= first.frames@ + seq![
                    frame(Rule::ContainerKeyword, j as int),
                    frame(Rule::FunctionKeyword, j as int),
                ]);
                Err(fault)
            }
        },
    }
}

/// The declarations of a text, or the frames of its failure.
pub fn program(s: &Vec<char>) -> (r: Result<Vec<Expression>, Vec<Frame>>)
    ensures
        match grammar::program(s@) {
            Ok(nodes) => r matches Ok(list) && nodes_of(list@) == nodes,
            Err(frames) => r matches Err(found) && found@ == frames,
        },
{
    let mut list: Vec<Expression> = Vec::new();
    let mut i: usize = 0;
    proof {
        assert(nodes_of(list@) =~= Seq::<Node>::empty());
        grammar::lemma_program_prefix(Seq::empty(), grammar::program_from(s@, 0));
    }
    loop
        invariant_except_break
            grammar::program(s@) == grammar::behind(
                nodes_of(list@),
                grammar::program_from(s@, i as int),
            ),
        invariant
            i <= s@.len(),
        ensures
            grammar::program(s@) == Ok::<Seq<Node>, Seq<Frame>>(nodes_of(list@)),
        decreases s@.len() - i,
    {
        let ghost before = nodes_of(list@);
        proof {
            grammar::lemma_program_step(s@, i as int);
        }
        if space(s, i) >= s.len() {
            assert(before + Seq::<Node>::empty() =~= before);
            break ;
        }
        match item(s, i) {
            Ok((found, next)) => {
                match found {
                    Some(e) => {
                        list.push(e);
                        proof {
                            assert(nodes_of(list@) =~= before + seq![e@]);
                            grammar::lemma_behind_behind(
                                before,
                                seq![e@],
                                grammar::program_from(s@, next as int),
                            );
                        }
                    },
                    None => {
                        proof {
                            grammar::lemma_program_prefix(
                                Seq::empty(),
                                grammar::program_from(s@, next as int),
                            );
                        }
                    },
                }
                i = next;
            },
            Err(fault) => {
                return Err(fault.within(Rule::Program, 0).frames);
            },
        }
    }
    Ok(list)
}

/// The declarations of a source text, or the frames of its failure, from the
/// most specific to the outermost. Every declaration is a container or a
/// function; a failure has at least one frame.
pub fn parse(content: &str) -> (r: Result<Vec<Expression>, Vec<Frame>>)
    ensures
        match grammar::program(content@) {
            Ok(nodes) => r matches Ok(list) && nodes_of(list@) == nodes,
            Err(frames) => r matches Err(found) && found@ == frames,
        },
        r matches Ok(list) ==> forall|k: int|
            0 <= k < list@.len() ==> (#[trigger] nodes_of(list@)[k]).is_top_level(),
        r matches Err(found) ==> found@.len() > 0,
{
    let s = to_chars(content);
    proof {
        lemma_program_shape(s@, 0);
        lemma_failure_has_frames(s@, 0);
    }
    program(&s)
}

/// A parsed source text: its top-level declarations, in order.
#[derive(Debug, PartialEq, Eq)]
pub struct Parser {
    pub expressions: Vec<Expression>,
}

impl View for Parser {
    type V = Seq<Node>;

    open spec fn view(&self) -> Seq<Node> {
        nodes_of(self.expressions@)
    }
}

impl Parser {
    /// Parses a source text. A text that the grammar takes to its end gives its
    /// declarations, each a container or a function; any other gives one
    /// diagnostic for each frame of the failure, from the most specific to the
    /// outermost, and at least one.
    pub fn from_content(content: &str) -> (r: Result<Self, Vec<String>>)
        ensures
            match grammar::program(content@) {
                Ok(nodes) => r matches Ok(parser) && parser@ == nodes,
                Err(frames) => r matches Err(list) && texts_of(list@) == diagnostics(
                    content@,
                    frames,
                ),
            },
            r matches Ok(parser) ==> forall|k: int|
                0 <= k < parser@.len() ==> (#[trigger] parser@[k]).is_top_level(),
            r matches Err(list) ==> list@.len() > 0,
    {
        let s = to_chars(content);
        proof {
            lemma_program_shape(s@, 0);
            lemma_failure_has_frames(s@, 0);
        }
        match program(&s) {
            Ok(expressions) => Ok(Self { expressions }),
            Err(frames) => {
                let list = messages(&s, &frames);
                assert(texts_of(list@).len() == list@.len());
                Err(list)
            },
        }
    }

    /// The top-level declarations, in order.
    pub fn expressions(&self) -> (r: &Vec<Expression>)
        ensures
            r == self.expressions,
    {
        &self.expressions
    }
}

} // verus!
