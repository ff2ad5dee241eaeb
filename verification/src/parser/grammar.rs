//! The grammar, as functions of the source text and an offset. Each rule says
//! what it yields and where it stops, or with which chain of frames it fails.
//!
//! ```text
//! program        := { comment | "container" container_decl | "function" function_decl }
//! container_decl := identifier "{" { variable_decl ";" } "}"
//! function_decl  := identifier "(" [ variable_decl { "," variable_decl } ] ")" scope
//! scope          := "{" { comment | variable_def | string } "}"
//! variable_decl  := type identifier
//! variable_def   := variable_decl [ assignment ] ";"
//! assignment     := "=" ( integer | string | identifier )
//! comment        := "//" { any character but a line feed }
//! string         := '"' { literal run | escaped character | escaped blanks } '"'
//! type           := "integer" | "string" | "boolean" | "character" | identifier
//! identifier     := letter { letter | digit }
//! integer        := digit { digit }
//! ```
//!
//! Every rule and every mark passes over the blanks before it, but for the
//! `;` behind a field of a container and the marks inside a string.
use crate::parser::expression::{ContainerNode, FunctionNode, Node};
use crate::parser::fault::{frame, miss, Frame, Parsed, Rule};
use crate::text::{ascii_alphanumeric, ascii_letter, blank, decimal_digit, lemma_run_end, run_end};
use vstd::prelude::*;

verus! {

/// The end of the blanks that start at `i`.
pub open spec fn space_end(s: Seq<char>, i: int) -> int {
    run_end(s, i, |c: char| blank(c))
}

/// The end of the ASCII letters and digits that start at `i`.
pub open spec fn alphanumeric_end(s: Seq<char>, i: int) -> int {
    run_end(s, i, |c: char| ascii_alphanumeric(c))
}

/// The end of the digits that start at `i`.
pub open spec fn digit_end(s: Seq<char>, i: int) -> int {
    run_end(s, i, |c: char| decimal_digit(c))
}

/// The end of the line that holds offset `i`: the offset of the next line feed,
/// or the end of the text.
pub open spec fn comment_end(s: Seq<char>, i: int) -> int {
    run_end(s, i, |c: char| c != '\n')
}

/// The end of the characters from `i` on that are neither a quote nor a
/// backslash.
pub open spec fn literal_end(s: Seq<char>, i: int) -> int {
    run_end(s, i, |c: char| c != '"' && c != '\\')
}

/// Whether `word` stands in the text at offset `i`.
pub open spec fn has_prefix(s: Seq<char>, i: int, word: Seq<char>) -> bool {
    0 <= i && i + word.len() <= s.len() && s.subrange(i, i + word.len()) == word
}

/// The built-in type name `integer`.
pub open spec fn word_integer() -> Seq<char> {
    seq!['i', 'n', 't', 'e', 'g', 'e', 'r']
}

/// The built-in type name `string`.
pub open spec fn word_string() -> Seq<char> {
    seq!['s', 't', 'r', 'i', 'n', 'g']
}

/// The built-in type name `boolean`.
pub open spec fn word_boolean() -> Seq<char> {
    seq!['b', 'o', 'o', 'l', 'e', 'a', 'n']
}

/// The built-in type name `character`.
pub open spec fn word_character() -> Seq<char> {
    seq!['c', 'h', 'a', 'r', 'a', 'c', 't', 'e', 'r']
}

/// The keyword `container`.
pub open spec fn word_container() -> Seq<char> {
    seq!['c', 'o', 'n', 't', 'a', 'i', 'n', 'e', 'r']
}

/// The keyword `function`.
pub open spec fn word_function() -> Seq<char> {
    seq!['f', 'u', 'n', 'c', 't', 'i', 'o', 'n']
}

/// The two slashes that start a comment.
pub open spec fn comment_marker() -> Seq<char> {
    seq!['/', '/']
}

/// The mark `c`, behind any blanks.
pub open spec fn symbol(s: Seq<char>, i: int, c: char) -> Parsed<()> {
    let j = space_end(s, i);
    if j < s.len() && s[j] == c {
        Parsed::Match { value: (), next: j + 1 }
    } else {
        miss(Rule::Character(c), j)
    }
}

/// A name: an ASCII letter and the ASCII letters and digits that follow it.
pub open spec fn identifier(s: Seq<char>, i: int) -> Parsed<Seq<char>> {
    let j = space_end(s, i);
    if j < s.len() && ascii_letter(s[j]) {
        Parsed::Match { value: s.subrange(j, alphanumeric_end(s, j)), next: alphanumeric_end(s, j) }
    } else {
        miss::<Seq<char>>(Rule::Letter, j).within(Rule::Identifier, i)
    }
}

/// A number: one digit or more.
pub open spec fn integer_literal(s: Seq<char>, i: int) -> Parsed<Node> {
    let j = space_end(s, i);
    if digit_end(s, j) > j {
        Parsed::Match {
            value: Node::IntegerLiteral(s.subrange(j, digit_end(s, j))),
            next: digit_end(s, j),
        }
    } else {
        miss::<Node>(Rule::Digit, j).within(Rule::Integer, i)
    }
}

/// The name of a type: one of the four built-in names, wherever the text
/// starts with one, else any name.
pub open spec fn variable_type(s: Seq<char>, i: int) -> Parsed<Seq<char>> {
    let j = space_end(s, i);
    if has_prefix(s, j, word_integer()) {
        Parsed::Match { value: word_integer(), next: j + 7 }
    } else if has_prefix(s, j, word_string()) {
        Parsed::Match { value: word_string(), next: j + 6 }
    } else if has_prefix(s, j, word_boolean()) {
        Parsed::Match { value: word_boolean(), next: j + 7 }
    } else if has_prefix(s, j, word_character()) {
        Parsed::Match { value: word_character(), next: j + 9 }
    } else {
        identifier(s, j).within(Rule::Type, i)
    }
}

/// A declaration: a type and a name.
pub open spec fn variable_declaration(s: Seq<char>, i: int) -> Parsed<Node> {
    match variable_type(s, i) {
        Parsed::Match { value: ty, next: n } => match identifier(s, n) {
            Parsed::Match { value: name, next } => Parsed::Match {
                value: Node::VariableDeclaration(ty, name),
                next,
            },
            Parsed::Miss { fatal, frames } => Parsed::Miss::<Node> { fatal, frames }.within(
                Rule::Declaration,
                i,
            ),
        },
        Parsed::Miss { fatal, frames } => Parsed::Miss::<Node> { fatal, frames }.within(
            Rule::Declaration,
            i,
        ),
    }
}

/// The character that stands for the escape letter `c` behind a backslash.
pub open spec fn escape_value(c: char) -> Option<char> {
    if c == 'n' {
        Some('\n')
    } else if c == 'r' {
        Some('\r')
    } else if c == 't' {
        Some('\t')
    } else if c == '\\' {
        Some('\\')
    } else if c == '/' {
        Some('/')
    } else if c == '"' {
        Some('"')
    } else {
        None
    }
}

/// One piece of a string's contents at `i`, with the offset behind it: a run
/// of plain characters, which stands for itself; a backslash and an escape
/// letter, which stand for one character; or a backslash and the blanks behind
/// it, which stand for nothing.
pub open spec fn fragment(s: Seq<char>, i: int) -> Option<(Seq<char>, int)> {
    if i < 0 || i >= s.len() {
        None
    } else if s[i] != '"' && s[i] != '\\' {
        Some((s.subrange(i, literal_end(s, i)), literal_end(s, i)))
    } else if s[i] == '\\' && i + 1 < s.len() && escape_value(s[i + 1]) is Some {
        Some((seq![escape_value(s[i + 1])->0], i + 2))
    } else if s[i] == '\\' && i + 1 < s.len() && blank(s[i + 1]) {
        Some((Seq::empty(), space_end(s, i + 1)))
    } else {
        None
    }
}

/// A piece of a string's contents is not empty and lies within the text.
pub proof fn lemma_fragment_bounds(s: Seq<char>, i: int)
    ensures
        fragment(s, i) matches Some(piece) ==> i < piece.1 <= s.len(),
{
    if 0 <= i < s.len() {
        lemma_run_end(s, i + 1, |c: char| c != '"' && c != '\\');
        lemma_run_end(s, i + 1, |c: char| blank(c));
        if i + 1 < s.len() {
            lemma_run_end(s, i + 2, |c: char| blank(c));
        }
    }
}

/// The contents of a string from `i` on, piece by piece, with the offset at
/// which no further piece starts.
pub open spec fn string_contents(s: Seq<char>, i: int) -> (Seq<char>, int)
    decreases s.len() - i,
{
    match fragment(s, i) {
        Some(piece) => {
            proof {
                lemma_fragment_bounds(s, i);
            }
            (piece.0 + string_contents(s, piece.1).0, string_contents(s, piece.1).1)
        },
        None => (Seq::empty(), i),
    }
}

/// A string: a quote, the contents, a quote.
pub open spec fn parse_string(s: Seq<char>, i: int) -> Parsed<Node> {
    let j = space_end(s, i);
    if j < s.len() && s[j] == '"' {
        let body = string_contents(s, j + 1);
        if body.1 < s.len() && s[body.1] == '"' {
            Parsed::Match { value: Node::StringLiteral(body.0), next: body.1 + 1 }
        } else {
            miss::<Node>(Rule::Character('"'), body.1).within(Rule::StringLiteral, i)
        }
    } else {
        miss::<Node>(Rule::Character('"'), j).within(Rule::StringLiteral, i)
    }
}

/// An initializer: `=` and one value, a number, a string or a name. With the
/// `=` read, a missing value is fatal, and the fault holds the frames of all
/// three.
pub open spec fn assignment(s: Seq<char>, i: int) -> Parsed<Seq<Node>> {
    let j = space_end(s, i);
    if j < s.len() && s[j] == '=' {
        match integer_literal(s, j + 1) {
            Parsed::Match { value, next } => Parsed::Match { value: seq![value], next },
            Parsed::Miss { fatal: _, frames: first } => match parse_string(s, j + 1) {
                Parsed::Match { value, next } => Parsed::Match { value: seq![value], next },
                Parsed::Miss { fatal: _, frames: second } => match identifier(s, j + 1) {
                    Parsed::Match { value, next } => Parsed::Match {
                        value: seq![Node::Identifier(value)],
                        next,
                    },
                    Parsed::Miss { fatal: _, frames: third } => Parsed::Miss {
                        fatal: true,
                        frames: (first + second + third).push(frame(Rule::Assignment, i)),
                    },
                },
            },
        }
    } else {
        miss::<Seq<Node>>(Rule::Character('='), j).within(Rule::Assignment, i)
    }
}

/// A definition: a declaration, an initializer or none, and `;`.
pub open spec fn variable_definition(s: Seq<char>, i: int) -> Parsed<Node> {
    match variable_declaration(s, i) {
        Parsed::Match { value: declaration, next: n } => {
            let initializer = assignment(s, n);
            if initializer.is_fatal() {
                initializer.miss_as::<Node>().within(Rule::Definition, i)
            } else {
                let after = if initializer is Match {
                    initializer->next
                } else {
                    n
                };
                let def = if initializer is Match {
                    Some(initializer->value)
                } else {
                    None
                };
                match symbol(s, after, ';') {
                    Parsed::Match { value: _, next } => Parsed::Match {
                        value: Node::VariableAssignment(
                            declaration->VariableDeclaration_0,
                            declaration->VariableDeclaration_1,
                            def,
                        ),
                        next,
                    },
                    Parsed::Miss { fatal, frames } => Parsed::Miss::<Node> { fatal, frames }.within(
                        Rule::Definition,
                        i,
                    ),
                }
            }
        },
        Parsed::Miss { fatal, frames } => Parsed::Miss::<Node> { fatal, frames }.within(
            Rule::Definition,
            i,
        ),
    }
}

/// A comment: two slashes and the rest of the line, which is its text.
pub open spec fn comment(s: Seq<char>, i: int) -> Parsed<Seq<char>> {
    let j = space_end(s, i);
    if has_prefix(s, j, comment_marker()) {
        Parsed::Match {
            value: s.subrange(j + 2, comment_end(s, j + 2)),
            next: comment_end(s, j + 2),
        }
    } else {
        miss::<Seq<char>>(Rule::CommentMarker, j).within(Rule::Comment, i)
    }
}

/// A field of a container: a declaration with `;` directly behind it.
pub open spec fn field(s: Seq<char>, i: int) -> Option<(Node, int)> {
    match variable_declaration(s, i) {
        Parsed::Match { value, next } => if next < s.len() && s[next] == ';' {
            Some((value, next + 1))
        } else {
            None
        },
        Parsed::Miss { .. } => None,
    }
}

/// Whether an outcome that started at `i` in a text of length `len`, where it
/// is a match, stops behind `i` and within the text.
pub open spec fn advances<T>(p: Parsed<T>, i: int, len: int) -> bool {
    p matches Parsed::Match { value: _, next } ==> i < next <= len
}

/// Blanks end within the text, before a character that is no blank.
pub proof fn lemma_space_end(s: Seq<char>, i: int)
    requires
        0 <= i <= s.len(),
    ensures
        i <= space_end(s, i) <= s.len(),
        space_end(s, i) < s.len() ==> !blank(s[space_end(s, i)]),
        space_end(s, space_end(s, i)) == space_end(s, i),
{
    lemma_run_end(s, i, |c: char| blank(c));
}

/// A mark that is found ends behind where it was looked for.
pub proof fn lemma_symbol(s: Seq<char>, i: int, c: char)
    requires
        0 <= i <= s.len(),
    ensures
        advances(symbol(s, i, c), i, s.len() as int),
{
    lemma_space_end(s, i);
}

/// A name is not empty, and a missing name is never fatal.
pub proof fn lemma_identifier(s: Seq<char>, i: int)
    requires
        0 <= i <= s.len(),
    ensures
        advances(identifier(s, i), i, s.len() as int),
        identifier(s, i) is Miss ==> !identifier(s, i)->fatal,
{
    lemma_space_end(s, i);
    let j = space_end(s, i);
    if j < s.len() {
        lemma_run_end(s, j + 1, |c: char| ascii_alphanumeric(c));
    }
}

/// A number is not empty.
pub proof fn lemma_integer_literal(s: Seq<char>, i: int)
    requires
        0 <= i <= s.len(),
    ensures
        advances(integer_literal(s, i), i, s.len() as int),
{
    lemma_space_end(s, i);
    lemma_run_end(s, space_end(s, i), |c: char| decimal_digit(c));
}

/// The name of a type is not empty, and a missing one is never fatal.
pub proof fn lemma_variable_type(s: Seq<char>, i: int)
    requires
        0 <= i <= s.len(),
    ensures
        advances(variable_type(s, i), i, s.len() as int),
        variable_type(s, i) is Miss ==> !variable_type(s, i)->fatal,
{
    lemma_space_end(s, i);
    lemma_identifier(s, space_end(s, i));
}

/// A declaration is not empty and yields a declaration node; a missing one is
/// never fatal.
pub proof fn lemma_variable_declaration(s: Seq<char>, i: int)
    requires
        0 <= i <= s.len(),
    ensures
        advances(variable_declaration(s, i), i, s.len() as int),
        variable_declaration(s, i) matches Parsed::Match { value, next: _ } ==> value
            is VariableDeclaration,
        variable_declaration(s, i) is Miss ==> !variable_declaration(s, i)->fatal,
{
    lemma_variable_type(s, i);
    if let Parsed::Match { value: _, next: n } = variable_type(s, i) {
        lemma_identifier(s, n);
    }
}

/// The contents of a string end within the text.
pub proof fn lemma_string_contents(s: Seq<char>, i: int)
    requires
        0 <= i <= s.len(),
    ensures
        i <= string_contents(s, i).1 <= s.len(),
    decreases s.len() - i,
{
    lemma_fragment_bounds(s, i);
    if let Some(piece) = fragment(s, i) {
        lemma_string_contents(s, piece.1);
    }
}

/// A string is not empty and yields a string node; a missing one is never
/// fatal.
pub proof fn lemma_parse_string(s: Seq<char>, i: int)
    requires
        0 <= i <= s.len(),
    ensures
        advances(parse_string(s, i), i, s.len() as int),
        parse_string(s, i) matches Parsed::Match { value, next: _ } ==> value is StringLiteral,
        parse_string(s, i) is Miss ==> !parse_string(s, i)->fatal,
{
    lemma_space_end(s, i);
    let j = space_end(s, i);
    if j < s.len() {
        lemma_string_contents(s, j + 1);
    }
}

/// An initializer is not empty.
pub proof fn lemma_assignment(s: Seq<char>, i: int)
    requires
        0 <= i <= s.len(),
    ensures
        advances(assignment(s, i), i, s.len() as int),
{
    lemma_space_end(s, i);
    let j = space_end(s, i);
    if j < s.len() {
        lemma_integer_literal(s, j + 1);
        lemma_parse_string(s, j + 1);
        lemma_identifier(s, j + 1);
    }
}

/// A definition is not empty.
pub proof fn lemma_variable_definition(s: Seq<char>, i: int)
    requires
        0 <= i <= s.len(),
    ensures
        advances(variable_definition(s, i), i, s.len() as int),
{
    lemma_variable_declaration(s, i);
    if let Parsed::Match { value: _, next: n } = variable_declaration(s, i) {
        lemma_assignment(s, n);
        lemma_symbol(s, n, ';');
        if let Parsed::Match { value: _, next: after } = assignment(s, n) {
            lemma_symbol(s, after, ';');
        }
    }
}

/// A comment is not empty, and a missing one is never fatal.
pub proof fn lemma_comment(s: Seq<char>, i: int)
    requires
        0 <= i <= s.len(),
    ensures
        advances(comment(s, i), i, s.len() as int),
        comment(s, i) is Miss ==> !comment(s, i)->fatal,
{
    lemma_space_end(s, i);
    let j = space_end(s, i);
    if j + 2 <= s.len() {
        lemma_run_end(s, j + 2, |c: char| c != '\n');
    }
}

/// A field is not empty and yields a declaration node.
pub proof fn lemma_field(s: Seq<char>, i: int)
    requires
        0 <= i <= s.len(),
    ensures
        field(s, i) matches Some(f) ==> i < f.1 <= s.len() && f.0 is VariableDeclaration,
{
    lemma_variable_declaration(s, i);
}

/// The fields of a container from `i` on, with the offset at which no further
/// field starts.
pub open spec fn fields(s: Seq<char>, i: int) -> (Seq<Node>, int)
    decreases s.len() - i,
{
    if 0 <= i <= s.len() {
        match field(s, i) {
            Some(f) => {
                proof {
                    lemma_field(s, i);
                }
                (seq![f.0] + fields(s, f.1).0, fields(s, f.1).1)
            },
            None => (Seq::empty(), i),
        }
    } else {
        (Seq::empty(), i)
    }
}

/// The fields of a container end within the text, and all of them are
/// declaration nodes.
pub proof fn lemma_fields(s: Seq<char>, i: int)
    requires
        0 <= i <= s.len(),
    ensures
        i <= fields(s, i).1 <= s.len(),
        forall|k: int|
            0 <= k < fields(s, i).0.len() ==> (#[trigger] fields(s, i).0[k]) is VariableDeclaration,
    decreases s.len() - i,
{
    lemma_field(s, i);
    if let Some(f) = field(s, i) {
        lemma_fields(s, f.1);
    }
}

/// The declaration of a container, behind its keyword: a name and the fields
/// between braces.
pub open spec fn container_declaration(s: Seq<char>, i: int) -> Parsed<ContainerNode> {
    match identifier(s, i) {
        Parsed::Match { value: name, next: n } => match symbol(s, n, '{') {
            Parsed::Match { value: _, next: m } => match symbol(s, fields(s, m).1, '}') {
                Parsed::Match { value: _, next } => Parsed::Match {
                    value: ContainerNode { name, variables: fields(s, m).0 },
                    next,
                },
                Parsed::Miss { fatal, frames } => Parsed::Miss::<ContainerNode> {
                    fatal,
                    frames,
                }.within(Rule::ContainerDeclaration, i),
            },
            Parsed::Miss { fatal, frames } => Parsed::Miss::<ContainerNode> {
                fatal,
                frames,
            }.within(Rule::ContainerDeclaration, i),
        },
        Parsed::Miss { fatal, frames } => Parsed::Miss::<ContainerNode> { fatal, frames }.within(
            Rule::ContainerDeclaration,
            i,
        ),
    }
}

/// A container is not empty.
pub proof fn lemma_container_declaration(s: Seq<char>, i: int)
    requires
        0 <= i <= s.len(),
    ensures
        advances(container_declaration(s, i), i, s.len() as int),
{
    lemma_identifier(s, i);
    if let Parsed::Match { value: _, next: n } = identifier(s, i) {
        lemma_symbol(s, n, '{');
        if let Parsed::Match { value: _, next: m } = symbol(s, n, '{') {
            lemma_fields(s, m);
            lemma_symbol(s, fields(s, m).1, '}');
        }
    }
}

/// The parameters behind the first, each with `,` before it, from `i` on. A
/// `,` that no declaration follows is not read.
pub open spec fn more_parameters(s: Seq<char>, i: int) -> (Seq<Node>, int)
    decreases s.len() - i,
{
    if 0 <= i <= s.len() {
        match symbol(s, i, ',') {
            Parsed::Match { value: _, next: n } => match variable_declaration(s, n) {
                Parsed::Match { value, next } => {
                    proof {
                        lemma_symbol(s, i, ',');
                        lemma_variable_declaration(s, n);
                    }
                    (seq![value] + more_parameters(s, next).0, more_parameters(s, next).1)
                },
                Parsed::Miss { .. } => (Seq::empty(), i),
            },
            Parsed::Miss { .. } => (Seq::empty(), i),
        }
    } else {
        (Seq::empty(), i)
    }
}

/// The parameters of a function from `i` on: none, or declarations with `,`
/// between them.
pub open spec fn parameters(s: Seq<char>, i: int) -> (Seq<Node>, int) {
    match variable_declaration(s, i) {
        Parsed::Match { value, next } => (
            seq![value] + more_parameters(s, next).0,
            more_parameters(s, next).1,
        ),
        Parsed::Miss { .. } => (Seq::empty(), i),
    }
}

/// The parameters behind the first end within the text, and all of them are
/// declaration nodes.
pub proof fn lemma_more_parameters(s: Seq<char>, i: int)
    requires
        0 <= i <= s.len(),
    ensures
        i <= more_parameters(s, i).1 <= s.len(),
        forall|k: int|
            0 <= k < more_parameters(s, i).0.len() ==> (#[trigger] more_parameters(s, i).0[k])
                is VariableDeclaration,
    decreases s.len() - i,
{
    lemma_symbol(s, i, ',');
    if let Parsed::Match { value: _, next: n } = symbol(s, i, ',') {
        lemma_variable_declaration(s, n);
        if let Parsed::Match { value: _, next } = variable_declaration(s, n) {
            lemma_more_parameters(s, next);
        }
    }
}

/// The parameters end within the text, and all of them are declaration nodes.
pub proof fn lemma_parameters(s: Seq<char>, i: int)
    requires
        0 <= i <= s.len(),
    ensures
        i <= parameters(s, i).1 <= s.len(),
        forall|k: int|
            0 <= k < parameters(s, i).0.len() ==> (#[trigger] parameters(s, i).0[k])
                is VariableDeclaration,
{
    lemma_variable_declaration(s, i);
    if let Parsed::Match { value: _, next } = variable_declaration(s, i) {
        lemma_more_parameters(s, next);
    }
}

/// The parameter list of a function, between parentheses.
pub open spec fn arguments(s: Seq<char>, i: int) -> Parsed<Seq<Node>> {
    match symbol(s, i, '(') {
        Parsed::Match { value: _, next: n } => match symbol(s, parameters(s, n).1, ')') {
            Parsed::Match { value: _, next } => Parsed::Match { value: parameters(s, n).0, next },
            Parsed::Miss { fatal, frames } => Parsed::Miss::<Seq<Node>> { fatal, frames }.within(
                Rule::Arguments,
                i,
            ),
        },
        Parsed::Miss { fatal, frames } => Parsed::Miss::<Seq<Node>> { fatal, frames }.within(
            Rule::Arguments,
            i,
        ),
    }
}

/// A parameter list is not empty.
pub proof fn lemma_arguments(s: Seq<char>, i: int)
    requires
        0 <= i <= s.len(),
    ensures
        advances(arguments(s, i), i, s.len() as int),
{
    lemma_symbol(s, i, '(');
    if let Parsed::Match { value: _, next: n } = symbol(s, i, '(') {
        lemma_parameters(s, n);
        lemma_symbol(s, parameters(s, n).1, ')');
    }
}

/// A statement of a scope: a comment, else a definition, else a string. A
/// fatal fault of the definition is the statement's; where all three fail
/// otherwise, the fault holds the frames of all three.
pub open spec fn statement(s: Seq<char>, i: int) -> Parsed<Node> {
    match comment(s, i) {
        Parsed::Match { value, next } => Parsed::Match { value: Node::Comment(value), next },
        Parsed::Miss { fatal: _, frames: first } => match variable_definition(s, i) {
            Parsed::Match { value, next } => Parsed::Match { value, next },
            Parsed::Miss { fatal: true, frames } => Parsed::Miss { fatal: true, frames },
            Parsed::Miss { fatal: false, frames: second } => match parse_string(s, i) {
                Parsed::Match { value, next } => Parsed::Match { value, next },
                Parsed::Miss { fatal: _, frames: third } => Parsed::Miss {
                    fatal: false,
                    frames: first + second + third,
                },
            },
        },
    }
}

/// A statement is not empty.
pub proof fn lemma_statement(s: Seq<char>, i: int)
    requires
        0 <= i <= s.len(),
    ensures
        advances(statement(s, i), i, s.len() as int),
{
    lemma_comment(s, i);
    lemma_variable_definition(s, i);
    lemma_parse_string(s, i);
}

/// The statements of a scope from `i` on, with the offset at which no further
/// statement starts; or the fatal fault of one of them.
pub open spec fn statements(s: Seq<char>, i: int) -> Parsed<Seq<Node>>
    decreases s.len() - i,
{
    if 0 <= i <= s.len() {
        match statement(s, i) {
            Parsed::Match { value, next } => {
                proof {
                    lemma_statement(s, i);
                }
                match statements(s, next) {
                    Parsed::Match { value: rest, next: end } => Parsed::Match {
                        value: seq![value] + rest,
                        next: end,
                    },
                    Parsed::Miss { fatal, frames } => Parsed::Miss { fatal, frames },
                }
            },
            Parsed::Miss { fatal: true, frames } => Parsed::Miss { fatal: true, frames },
            Parsed::Miss { fatal: false, frames: _ } => Parsed::Match {
                value: Seq::empty(),
                next: i,
            },
        }
    } else {
        Parsed::Match { value: Seq::empty(), next: i }
    }
}

/// The statements of a scope end within the text, and they fail only fatally.
pub proof fn lemma_statements(s: Seq<char>, i: int)
    requires
        0 <= i <= s.len(),
    ensures
        statements(s, i) matches Parsed::Match { value: _, next } ==> i <= next <= s.len(),
        statements(s, i) is Miss ==> statements(s, i)->fatal,
    decreases s.len() - i,
{
    lemma_statement(s, i);
    if let Parsed::Match { value: _, next } = statement(s, i) {
        lemma_statements(s, next);
    }
}

/// The body of a function: statements between braces.
pub open spec fn scope(s: Seq<char>, i: int) -> Parsed<Seq<Node>> {
    match symbol(s, i, '{') {
        Parsed::Match { value: _, next: n } => match statements(s, n) {
            Parsed::Match { value: body, next: m } => match symbol(s, m, '}') {
                Parsed::Match { value: _, next } => Parsed::Match { value: body, next },
                Parsed::Miss { fatal, frames } => Parsed::Miss::<Seq<Node>> {
                    fatal,
                    frames,
                }.within(Rule::Scope, i),
            },
            Parsed::Miss { fatal, frames } => Parsed::Miss::<Seq<Node>> { fatal, frames }.within(
                Rule::Scope,
                i,
            ),
        },
        Parsed::Miss { fatal, frames } => Parsed::Miss::<Seq<Node>> { fatal, frames }.within(
            Rule::Scope,
            i,
        ),
    }
}

/// A scope is not empty.
pub proof fn lemma_scope(s: Seq<char>, i: int)
    requires
        0 <= i <= s.len(),
    ensures
        advances(scope(s, i), i, s.len() as int),
{
    lemma_symbol(s, i, '{');
    if let Parsed::Match { value: _, next: n } = symbol(s, i, '{') {
        lemma_statements(s, n);
        if let Parsed::Match { value: _, next: m } = statements(s, n) {
            lemma_symbol(s, m, '}');
        }
    }
}

/// The declaration of a function, behind its keyword: a name, the parameter
/// list and the body.
pub open spec fn function_declaration(s: Seq<char>, i: int) -> Parsed<FunctionNode> {
    match identifier(s, i) {
        Parsed::Match { value: name, next: n } => match arguments(s, n) {
            Parsed::Match { value: arguments, next: m } => match scope(s, m) {
                Parsed::Match { value: body, next } => Parsed::Match {
                    value: FunctionNode { name, arguments, body },
                    next,
                },
                Parsed::Miss { fatal, frames } => Parsed::Miss::<FunctionNode> {
                    fatal,
                    frames,
                }.within(Rule::FunctionDeclaration, i),
            },
            Parsed::Miss { fatal, frames } => Parsed::Miss::<FunctionNode> {
                fatal,
                frames,
            }.within(Rule::FunctionDeclaration, i),
        },
        Parsed::Miss { fatal, frames } => Parsed::Miss::<FunctionNode> { fatal, frames }.within(
            Rule::FunctionDeclaration,
            i,
        ),
    }
}

/// A function is not empty.
pub proof fn lemma_function_declaration(s: Seq<char>, i: int)
    requires
        0 <= i <= s.len(),
    ensures
        advances(function_declaration(s, i), i, s.len() as int),
{
    lemma_identifier(s, i);
    if let Parsed::Match { value: _, next: n } = identifier(s, i) {
        lemma_arguments(s, n);
        if let Parsed::Match { value: _, next: m } = arguments(s, n) {
            lemma_scope(s, m);
        }
    }
}

/// What stands at the top level at `i`: a comment, which yields no node; the
/// keyword `container` and a container; or the keyword `function` and a
/// function. Behind a keyword every fault is fatal. Where none of the three
/// starts, the fault holds the frames of all three.
pub open spec fn item(s: Seq<char>, i: int) -> Parsed<Option<Node>> {
    let j = space_end(s, i);
    match comment(s, j) {
        Parsed::Match { value: _, next } => Parsed::Match { value: None, next },
        Parsed::Miss { fatal: _, frames: first } => if has_prefix(s, j, word_container()) {
            match container_declaration(s, j + 9) {
                Parsed::Match { value, next } => Parsed::Match {
                    value: Some(Node::ContainerDeclaration(value)),
                    next,
                },
                Parsed::Miss { fatal: _, frames } => Parsed::Miss { fatal: true, frames },
            }
        } else if has_prefix(s, j, word_function()) {
            match function_declaration(s, j + 8) {
                Parsed::Match { value, next } => Parsed::Match {
                    value: Some(Node::FunctionDeclaration(value)),
                    next,
                },
                Parsed::Miss { fatal: _, frames } => Parsed::Miss { fatal: true, frames },
            }
        } else {
            Parsed::Miss {
                fatal: false,
                frames: first + seq![
                    frame(Rule::ContainerKeyword, j),
                    frame(Rule::FunctionKeyword, j),
                ],
            }
        },
    }
}

/// What stands at the top level is not empty.
pub proof fn lemma_item(s: Seq<char>, i: int)
    requires
        0 <= i <= s.len(),
    ensures
        advances(item(s, i), i, s.len() as int),
{
    lemma_space_end(s, i);
    let j = space_end(s, i);
    lemma_comment(s, j);
    if has_prefix(s, j, word_container()) {
        lemma_container_declaration(s, j + 9);
    }
    if has_prefix(s, j, word_function()) {
        lemma_function_declaration(s, j + 8);
    }
}

/// A result of the program with the nodes `prefix` before its own.
pub open spec fn behind(prefix: Seq<Node>, rest: Result<Seq<Node>, Seq<Frame>>) -> Result<
    Seq<Node>,
    Seq<Frame>,
> {
    match rest {
        Ok(nodes) => Ok(prefix + nodes),
        Err(frames) => Err(frames),
    }
}

/// The node of an item, where it has one, as a list.
pub open spec fn yield_of(value: Option<Node>) -> Seq<Node> {
    match value {
        Some(node) => seq![node],
        None => Seq::empty(),
    }
}

/// The declarations of the text from `i` on, or the frames of the first item
/// that fails, with the frame of the program behind them. The text has to be
/// read to its end: what starts no item fails the parse.
pub open spec fn program_from(s: Seq<char>, i: int) -> Result<Seq<Node>, Seq<Frame>>
    decreases s.len() - i,
{
    if 0 <= i <= s.len() {
        if space_end(s, i) >= s.len() {
            Ok(Seq::empty())
        } else {
            match item(s, i) {
                Parsed::Match { value, next } => {
                    proof {
                        lemma_item(s, i);
                    }
                    behind(yield_of(value), program_from(s, next))
                },
                Parsed::Miss { fatal: _, frames } => Err(frames.push(frame(Rule::Program, 0))),
            }
        }
    } else {
        Ok(Seq::empty())
    }
}

/// The declarations of a whole text, or the frames of its failure.
pub open spec fn program(s: Seq<char>) -> Result<Seq<Node>, Seq<Frame>> {
    program_from(s, 0)
}

/// One step of the program: what it yields from `i` on, by the item at `i`.
pub proof fn lemma_program_step(s: Seq<char>, i: int)
    requires
        0 <= i <= s.len(),
    ensures
        program_from(s, i) == (if space_end(s, i) >= s.len() {
            Ok(Seq::empty())
        } else {
            match item(s, i) {
                Parsed::Match { value, next } => behind(yield_of(value), program_from(s, next)),
                Parsed::Miss { fatal: _, frames } => Err(frames.push(frame(Rule::Program, 0))),
            }
        }),
{
}

/// Nothing before a result leaves it as it is.
pub proof fn lemma_program_prefix(prefix: Seq<Node>, rest: Result<Seq<Node>, Seq<Frame>>)
    requires
        prefix.len() == 0,
    ensures
        behind(prefix, rest) == rest,
{
    if let Ok(nodes) = rest {
        assert(prefix + nodes =~= nodes);
    }
}

/// Two lists before a result are their concatenation before it.
pub proof fn lemma_behind_behind(
    first: Seq<Node>,
    second: Seq<Node>,
    rest: Result<Seq<Node>, Seq<Frame>>,
)
    ensures
        behind(first, behind(second, rest)) == behind(first + second, rest),
{
    if let Ok(nodes) = rest {
        assert(first + (second + nodes) =~= (first + second) + nodes);
    }
}

} // verus!
