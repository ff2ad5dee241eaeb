//! Diagnostics: a frame of a failed parse as a line of text that names the rule
//! and the place.
use crate::lexer::token::Location;
use crate::parser::fault::{Frame, Rule};
use crate::text::{column_at, lemma_position_bounds, line_at};
use vstd::prelude::*;
use vstd::string::StringExecFns;

verus! {

/// The name of a rule in a diagnostic.
pub open spec fn label(rule: Rule) -> Seq<char> {
    match rule {
        Rule::Program => "Program"@,
        Rule::Comment => "Comment"@,
        Rule::ContainerDeclaration => "Container Declaration"@,
        Rule::FunctionDeclaration => "Function Declaration"@,
        Rule::Arguments => "Arguments"@,
        Rule::Scope => "Scope"@,
        Rule::Declaration => "Declaration"@,
        Rule::Definition => "Definition"@,
        Rule::Assignment => "Assignment"@,
        Rule::Type => "Type"@,
        Rule::Identifier => "Identifier"@,
        Rule::Integer => "Integer"@,
        Rule::StringLiteral => "String"@,
        Rule::Letter => "letter"@,
        Rule::Digit => "digit"@,
        Rule::Character(c) => seq!['\'', c, '\''],
        Rule::CommentMarker => "comment marker"@,
        Rule::ContainerKeyword => "keyword container"@,
        Rule::FunctionKeyword => "keyword function"@,
    }
}

/// The character of a decimal digit.
pub open spec fn digit_character(d: nat) -> char {
    seq!['0', '1', '2', '3', '4', '5', '6', '7', '8', '9'][d as int]
}

/// A number in decimal, without leading zeros.
pub open spec fn decimal(n: nat) -> Seq<char>
    decreases n,
{
    if n < 10 {
        seq![digit_character(n)]
    } else {
        decimal(n / 10).push(digit_character(n % 10))
    }
}

/// A line or a column as a machine number: itself where it fits, else the
/// largest number.
pub open spec fn clip(n: int) -> usize {
    if n <= usize::MAX {
        n as usize
    } else {
        usize::MAX
    }
}

/// The place of an offset in a text; an offset beyond the text has the place
/// of its end.
pub open spec fn place(s: Seq<char>, offset: int) -> Location {
    let at = if offset <= s.len() {
        offset
    } else {
        s.len() as int
    };
    Location { column: clip(column_at(s, at)), line: clip(line_at(s, at)) }
}

/// The diagnostic of a frame: the rule, then the line and the column at which
/// it was tried.
pub open spec fn diagnostic(s: Seq<char>, frame: Frame) -> Seq<char> {
    label(frame.rule) + " at line "@ + decimal(place(s, frame.offset as int).line as nat)
        + ", column "@ + decimal(place(s, frame.offset as int).column as nat)
}

/// The diagnostics of a chain of frames, in its order.
pub open spec fn diagnostics(s: Seq<char>, frames: Seq<Frame>) -> Seq<Seq<char>> {
    frames.map_values(|f: Frame| diagnostic(s, f))
}

/// What a list of texts holds, text by text.
pub open spec fn texts_of(list: Seq<String>) -> Seq<Seq<char>> {
    list.map_values(|t: String| t@)
}

/// The name of a rule.
pub fn rule_label(rule: Rule) -> (r: String)
    ensures
        r@ == label(rule),
{
    match rule {
        Rule::Program => "Program".to_owned(),
        Rule::Comment => "Comment".to_owned(),
        Rule::ContainerDeclaration => "Container Declaration".to_owned(),
        Rule::FunctionDeclaration => "Function Declaration".to_owned(),
        Rule::Arguments => "Arguments".to_owned(),
        Rule::Scope => "Scope".to_owned(),
        Rule::Declaration => "Declaration".to_owned(),
        Rule::Definition => "Definition".to_owned(),
        Rule::Assignment => "Assignment".to_owned(),
        Rule::Type => "Type".to_owned(),
        Rule::Identifier => "Identifier".to_owned(),
        Rule::Integer => "Integer".to_owned(),
        Rule::StringLiteral => "String".to_owned(),
        Rule::Letter => "letter".to_owned(),
        Rule::Digit => "digit".to_owned(),
        Rule::Character(c) => {
            let mut text = String::new();
            text.push('\'');
            text.push(c);
            text.push('\'');
            assert(text@ =~= seq!['\'', c, '\'']);
            text
        },
        Rule::CommentMarker => "comment marker".to_owned(),
        Rule::ContainerKeyword => "keyword container".to_owned(),
        Rule::FunctionKeyword => "keyword function".to_owned(),
    }
}

/// The character of a decimal digit.
fn digit(d: usize) -> (c: char)
    requires
        d < 10,
    ensures
        c == digit_character(d as nat),
{
    match d {
        0 => '0',
        1 => '1',
        2 => '2',
        3 => '3',
        4 => '4',
        5 => '5',
        6 => '6',
        7 => '7',
        8 => '8',
        _ => '9',
    }
}

/// Appends a number in decimal to a text.
pub fn push_decimal(text: &mut String, n: usize)
    ensures
        final(text)@ == old(text)@ + decimal(n as nat),
    decreases n,
{
    if n >= 10 {
        push_decimal(text, n / 10);
    }
    text.push(digit(n % 10));
    assert(text@ =~= old(text)@ + decimal(n as nat));
}

/// The line and the column of an offset in a text.
pub fn locate(s: &Vec<char>, offset: usize) -> (r: Location)
    ensures
        r == place(s@, offset as int),
{
    let len = s.len();
    let at = if offset <= len {
        offset
    } else {
        len
    };
    let mut lines_before: usize = 0;
    let mut line_offset: usize = 0;
    let mut k: usize = 0;
    while k < at
        invariant
            k <= at <= s@.len(),
            lines_before + 1 == line_at(s@, k as int),
            line_offset + 1 == column_at(s@, k as int),
        decreases at - k,
    {
        proof {
            lemma_position_bounds(s@, k as int);
        }
        if s[k] == '\n' {
            lines_before += 1;
            line_offset = 0;
        } else {
            line_offset += 1;
        }
        k += 1;
    }
    Location { column: line_offset.saturating_add(1), line: lines_before.saturating_add(1) }
}

/// The diagnostic of a frame of a failed parse of the text `s`.
pub fn message(s: &Vec<char>, frame: Frame) -> (r: String)
    ensures
        r@ == diagnostic(s@, frame),
{
    let location = locate(s, frame.offset);
    let mut text = rule_label(frame.rule);
    text.append(" at line ");
    push_decimal(&mut text, location.line);
    text.append(", column ");
    push_decimal(&mut text, location.column);
    text
}

/// The diagnostics of a chain of frames, in its order.
pub fn messages(s: &Vec<char>, frames: &Vec<Frame>) -> (r: Vec<String>)
    ensures
        texts_of(r@) == diagnostics(s@, frames@),
{
    let mut list: Vec<String> = Vec::new();
    let mut k: usize = 0;
    while k < frames.len()
        invariant
            k <= frames@.len(),
            list@.len() == k,
            forall|m: int| 0 <= m < k ==> (#[trigger] list@[m])@ == diagnostic(s@, frames@[m]),
        decreases frames@.len() - k,
    {
        list.push(message(s, frames[k]));
        k += 1;
    }
    assert(texts_of(list@) =~= diagnostics(s@, frames@));
    list
}

} // verus!
