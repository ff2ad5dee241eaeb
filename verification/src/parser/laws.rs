//! What holds of the grammar on every text.
use crate::parser::expression::Node;
use crate::parser::fault::{frame, Frame, Parsed, Rule};
use crate::parser::grammar;
use crate::parser::grammar::{
    arguments, assignment, behind, comment, comment_marker, container_declaration,
    function_declaration, has_prefix, identifier, integer_literal, item, lemma_fields,
    lemma_item, lemma_parameters, lemma_space_end, lemma_statement, lemma_variable_declaration,
    parse_string, program, program_from, space_end, statement, statements,
    variable_definition, word_container, word_function, yield_of,
};
use crate::text::{ascii_alphanumeric, ascii_letter, decimal_digit, lemma_run_end};
use vstd::prelude::*;

verus! {

/// A text that starts, behind its blanks, with something that is neither a
/// comment nor one of the two keywords is not parsed: the failure holds the
/// frames of the three things that were tried there, and the frame of the
/// program behind them. No declaration is yielded.
pub proof fn lemma_unknown_start_fails(s: Seq<char>)
    requires
        space_end(s, 0) < s.len(),
        !has_prefix(s, space_end(s, 0), comment_marker()),
        !has_prefix(s, space_end(s, 0), word_container()),
        !has_prefix(s, space_end(s, 0), word_function()),
    ensures
        program(s) == Err::<Seq<Node>, Seq<Frame>>(
            seq![
                frame(Rule::CommentMarker, space_end(s, 0)),
                frame(Rule::Comment, space_end(s, 0)),
                frame(Rule::ContainerKeyword, space_end(s, 0)),
                frame(Rule::FunctionKeyword, space_end(s, 0)),
                frame(Rule::Program, 0),
            ],
        ),
{
    lemma_space_end(s, 0);
    let j = space_end(s, 0);
    let expected = seq![
        frame(Rule::CommentMarker, j),
        frame(Rule::Comment, j),
        frame(Rule::ContainerKeyword, j),
        frame(Rule::FunctionKeyword, j),
        frame(Rule::Program, 0),
    ];
    assert(program(s) matches Err(frames) && frames =~= expected);
}

/// The same at any place of the top level: where the text goes on, behind the
/// blanks at `i`, with something that starts no item, the parse from `i` on
/// fails with five frames.
pub proof fn lemma_unknown_item_fails(s: Seq<char>, i: int)
    requires
        0 <= i <= s.len(),
        space_end(s, i) < s.len(),
        !has_prefix(s, space_end(s, i), comment_marker()),
        !has_prefix(s, space_end(s, i), word_container()),
        !has_prefix(s, space_end(s, i), word_function()),
    ensures
        program_from(s, i) matches Err(frames) && frames.len() == 5,
{
    lemma_space_end(s, i);
}

/// A keyword commits. Behind `container`, a container that fails makes the
/// whole parse from there fail, with the container's frames and the frame of
/// the program; behind `function`, a function that fails does so. Nothing
/// else is tried at that place.
pub proof fn lemma_keyword_commits(s: Seq<char>, i: int)
    requires
        0 <= i <= s.len(),
    ensures
        ({
            let j = space_end(s, i);
            &&& has_prefix(s, j, word_container()) ==> (match container_declaration(s, j + 9) {
                Parsed::Miss { fatal: _, frames } => program_from(s, i) == Err::<
                    Seq<Node>,
                    Seq<Frame>,
                >(frames.push(frame(Rule::Program, 0))),
                Parsed::Match { value, next } => item(s, i) == (Parsed::Match {
                    value: Some(Node::ContainerDeclaration(value)),
                    next,
                }),
            })
            &&& has_prefix(s, j, word_function()) ==> (match function_declaration(s, j + 8) {
                Parsed::Miss { fatal: _, frames } => program_from(s, i) == Err::<
                    Seq<Node>,
                    Seq<Frame>,
                >(frames.push(frame(Rule::Program, 0))),
                Parsed::Match { value, next } => item(s, i) == (Parsed::Match {
                    value: Some(Node::FunctionDeclaration(value)),
                    next,
                }),
            })
        }),
{
    lemma_space_end(s, i);
    let j = space_end(s, i);
    assert(word_container()[0] == 'c');
    assert(word_function()[0] == 'f');
    assert(comment_marker()[0] == '/');
    if has_prefix(s, j, word_container()) {
        assert(s.subrange(j, j + 9)[0] == 'c');
        if has_prefix(s, j, comment_marker()) {
            assert(s.subrange(j, j + 2)[0] == '/');
        }
    }
    if has_prefix(s, j, word_function()) {
        assert(s.subrange(j, j + 8)[0] == 'f');
        if has_prefix(s, j, comment_marker()) {
            assert(s.subrange(j, j + 2)[0] == '/');
        }
        if has_prefix(s, j, word_container()) {
            assert(s.subrange(j, j + 9)[0] == 'c');
        }
    }
}

/// A field without its `;` fails the container. Where the fields of a
/// container end before a declaration that no `;` follows directly, the
/// closing brace is not found there, and the declaration of the container
/// fails; behind the keyword, the whole parse fails with it.
pub proof fn lemma_field_without_semicolon_fails(s: Seq<char>, i: int)
    requires
        0 <= i <= s.len(),
        identifier(s, i) is Match,
        grammar::symbol(s, identifier(s, i)->next, '{') is Match,
        ({
            let body = grammar::symbol(s, identifier(s, i)->next, '{')->next;
            let end = grammar::fields(s, body).1;
            grammar::variable_declaration(s, end) is Match && grammar::field(s, end) is None
        }),
    ensures
        container_declaration(s, i) is Miss,
{
    grammar::lemma_identifier(s, i);
    let n = identifier(s, i)->next;
    grammar::lemma_symbol(s, n, '{');
    let body = grammar::symbol(s, n, '{')->next;
    lemma_fields(s, body);
    let end = grammar::fields(s, body).1;
    lemma_space_end(s, end);
    let j = space_end(s, end);
    assert(grammar::variable_type(s, end) is Match);
    assert(j < s.len() && s[j] != '}') by {
        if has_prefix(s, j, grammar::word_integer()) {
            assert(s.subrange(j, j + 7)[0] == 'i');
        } else if has_prefix(s, j, grammar::word_string()) {
            assert(s.subrange(j, j + 6)[0] == 's');
        } else if has_prefix(s, j, grammar::word_boolean()) {
            assert(s.subrange(j, j + 7)[0] == 'b');
        } else if has_prefix(s, j, grammar::word_character()) {
            assert(s.subrange(j, j + 9)[0] == 'c');
        } else {
            lemma_space_end(s, j);
        }
    }
}

/// A failure is never partial: where an item is parsed and the rest of the
/// text fails, the whole fails with the frames of the rest; and where an item
/// fails, the whole fails there.
pub proof fn lemma_failure_is_whole(s: Seq<char>, i: int)
    requires
        0 <= i <= s.len(),
        space_end(s, i) < s.len(),
    ensures
        match item(s, i) {
            Parsed::Match { value, next } => program_from(s, i) == behind(
                yield_of(value),
                program_from(s, next),
            ),
            Parsed::Miss { fatal: _, frames } => program_from(s, i) == Err::<
                Seq<Node>,
                Seq<Frame>,
            >(frames.push(frame(Rule::Program, 0))),
        },
{
}

/// A failed parse has frames, and the last of them is that of the program.
pub proof fn lemma_failure_has_frames(s: Seq<char>, i: int)
    requires
        0 <= i <= s.len(),
    ensures
        program_from(s, i) matches Err(frames) ==> frames.len() > 0 && frames.last() == frame(
            Rule::Program,
            0,
        ),
    decreases s.len() - i,
{
    if space_end(s, i) < s.len() {
        lemma_item(s, i);
        if let Parsed::Match { value: _, next } = item(s, i) {
            lemma_failure_has_frames(s, next);
        }
    }
}

/// A name of the grammar starts with an ASCII letter and holds ASCII letters
/// and digits only.
pub proof fn lemma_identifier_shape(s: Seq<char>, i: int)
    requires
        0 <= i <= s.len(),
    ensures
        identifier(s, i) matches Parsed::Match { value, next: _ } ==> value.len() > 0
            && ascii_letter(value[0]) && forall|k: int|
            0 <= k < value.len() ==> ascii_alphanumeric(#[trigger] value[k]),
{
    lemma_space_end(s, i);
    let j = space_end(s, i);
    if j < s.len() && ascii_letter(s[j]) {
        lemma_run_end(s, j, |c: char| ascii_alphanumeric(c));
        lemma_run_end(s, j + 1, |c: char| ascii_alphanumeric(c));
        let value = s.subrange(j, grammar::alphanumeric_end(s, j));
        assert(value[0] == s[j]);
        assert forall|k: int| 0 <= k < value.len() implies ascii_alphanumeric(
            #[trigger] value[k],
        ) by {
            assert(value[k] == s[j + k]);
        }
    }
}

/// A number of the grammar holds one digit or more, and digits only.
pub proof fn lemma_integer_shape(s: Seq<char>, i: int)
    requires
        0 <= i <= s.len(),
    ensures
        integer_literal(s, i) matches Parsed::Match { value: Node::IntegerLiteral(digits), next: _ }
            ==> digits.len() > 0 && forall|k: int|
            0 <= k < digits.len() ==> decimal_digit(#[trigger] digits[k]),
        integer_literal(s, i) matches Parsed::Match { value, next: _ } ==> value
            is IntegerLiteral,
{
    lemma_space_end(s, i);
    let j = space_end(s, i);
    lemma_run_end(s, j, |c: char| decimal_digit(c));
    let digits = s.subrange(j, grammar::digit_end(s, j));
    assert forall|k: int| 0 <= k < digits.len() implies decimal_digit(#[trigger] digits[k]) by {
        assert(digits[k] == s[j + k]);
    }
}

/// An initializer holds one value: a number, a string or a name.
pub proof fn lemma_assignment_shape(s: Seq<char>, i: int)
    requires
        0 <= i <= s.len(),
    ensures
        assignment(s, i) matches Parsed::Match { value, next: _ } ==> value.len() == 1
            && value[0].is_value(),
{
}

/// Every statement of a scope is a comment, a string or a definition.
pub proof fn lemma_statement_shape(s: Seq<char>, i: int)
    requires
        0 <= i <= s.len(),
    ensures
        statement(s, i) matches Parsed::Match { value, next: _ } ==> value.is_statement(),
{
    lemma_variable_declaration(s, i);
    if let Parsed::Match { value: _, next: n } = grammar::variable_declaration(
        s,
        i,
    ) {
        lemma_assignment_shape(s, n);
    }
}

/// Every statement of a list of statements is a comment, a string or a
/// definition.
pub proof fn lemma_statements_shape(s: Seq<char>, i: int)
    requires
        0 <= i <= s.len(),
    ensures
        statements(s, i) matches Parsed::Match { value, next: _ } ==> forall|k: int|
            0 <= k < value.len() ==> (#[trigger] value[k]).is_statement(),
    decreases s.len() - i,
{
    lemma_statement(s, i);
    lemma_statement_shape(s, i);
    if let Parsed::Match { value: _, next } = statement(s, i) {
        lemma_statements_shape(s, next);
    }
}

/// What stands at the top level is a container of declarations or a function
/// of declarations and statements.
pub proof fn lemma_item_shape(s: Seq<char>, i: int)
    requires
        0 <= i <= s.len(),
    ensures
        item(s, i) matches Parsed::Match { value: Some(node), next: _ } ==> node.is_top_level(),
{
    lemma_space_end(s, i);
    let j = space_end(s, i);
    if comment(s, j) is Miss {
        if has_prefix(s, j, word_container()) {
            if let Parsed::Match { value: _, next: n } = identifier(s, j + 9) {
                grammar::lemma_identifier(s, j + 9);
                if let Parsed::Match { value: _, next: m } = grammar::symbol(
                    s,
                    n,
                    '{',
                ) {
                    grammar::lemma_symbol(s, n, '{');
                    lemma_fields(s, m);
                }
            }
        } else if has_prefix(s, j, word_function()) {
            if let Parsed::Match { value: _, next: n } = identifier(s, j + 8) {
                grammar::lemma_identifier(s, j + 8);
                if let Parsed::Match { value: _, next: a } = grammar::symbol(
                    s,
                    n,
                    '(',
                ) {
                    grammar::lemma_symbol(s, n, '(');
                    lemma_parameters(s, a);
                }
                if let Parsed::Match { value: _, next: m } = arguments(s, n) {
                    grammar::lemma_arguments(s, n);
                    if let Parsed::Match { value: _, next: b } = grammar::symbol(
                        s,
                        m,
                        '{',
                    ) {
                        grammar::lemma_symbol(s, m, '{');
                        lemma_statements_shape(s, b);
                    }
                }
            }
        }
    }
}

/// Every node of a parsed text is a container or a function, well formed
/// inside.
pub proof fn lemma_program_shape(s: Seq<char>, i: int)
    requires
        0 <= i <= s.len(),
    ensures
        program_from(s, i) matches Ok(nodes) ==> forall|k: int|
            0 <= k < nodes.len() ==> (#[trigger] nodes[k]).is_top_level(),
    decreases s.len() - i,
{
    if space_end(s, i) < s.len() {
        lemma_item(s, i);
        lemma_item_shape(s, i);
        if let Parsed::Match { value: _, next } = item(s, i) {
            lemma_program_shape(s, next);
        }
    }
}

/// Whether every frame of a chain lies within a text of length `len`.
pub open spec fn within_text(frames: Seq<Frame>, len: int) -> bool {
    forall|k: int| 0 <= k < frames.len() ==> (#[trigger] frames[k]).offset <= len
}

/// Whether the frames of an outcome, where it is a failure, lie within a text
/// of length `len`.
pub open spec fn fails_within<T>(p: Parsed<T>, len: int) -> bool {
    p matches Parsed::Miss { fatal: _, frames } ==> within_text(frames, len)
}

/// The frames of each rule lie within the text: of a mark,
proof fn lemma_symbol_within(s: Seq<char>, i: int, c: char)
    requires
        0 <= i <= s.len() <= usize::MAX,
    ensures
        fails_within(grammar::symbol(s, i, c), s.len() as int),
{
    lemma_space_end(s, i);
}

/// of a name,
proof fn lemma_identifier_within(s: Seq<char>, i: int)
    requires
        0 <= i <= s.len() <= usize::MAX,
    ensures
        fails_within(identifier(s, i), s.len() as int),
{
    lemma_space_end(s, i);
}

/// of a number,
proof fn lemma_integer_within(s: Seq<char>, i: int)
    requires
        0 <= i <= s.len() <= usize::MAX,
    ensures
        fails_within(integer_literal(s, i), s.len() as int),
{
    lemma_space_end(s, i);
}

/// of a string,
proof fn lemma_string_within(s: Seq<char>, i: int)
    requires
        0 <= i <= s.len() <= usize::MAX,
    ensures
        fails_within(parse_string(s, i), s.len() as int),
{
    lemma_space_end(s, i);
    if space_end(s, i) < s.len() {
        grammar::lemma_string_contents(s, space_end(s, i) + 1);
    }
}

/// of a comment,
proof fn lemma_comment_within(s: Seq<char>, i: int)
    requires
        0 <= i <= s.len() <= usize::MAX,
    ensures
        fails_within(comment(s, i), s.len() as int),
{
    lemma_space_end(s, i);
}

/// of a type and of a declaration,
proof fn lemma_declaration_within(s: Seq<char>, i: int)
    requires
        0 <= i <= s.len() <= usize::MAX,
    ensures
        fails_within(grammar::variable_type(s, i), s.len() as int),
        fails_within(grammar::variable_declaration(s, i), s.len() as int),
{
    lemma_space_end(s, i);
    lemma_identifier_within(s, space_end(s, i));
    grammar::lemma_variable_type(s, i);
    if let Parsed::Match { value: _, next: n } = grammar::variable_type(s, i) {
        lemma_identifier_within(s, n);
    }
}

/// of an initializer,
proof fn lemma_assignment_within(s: Seq<char>, i: int)
    requires
        0 <= i <= s.len() <= usize::MAX,
    ensures
        fails_within(assignment(s, i), s.len() as int),
{
    lemma_space_end(s, i);
    let j = space_end(s, i);
    if j < s.len() {
        lemma_integer_within(s, j + 1);
        lemma_string_within(s, j + 1);
        lemma_identifier_within(s, j + 1);
    }
}

/// of a definition,
proof fn lemma_definition_within(s: Seq<char>, i: int)
    requires
        0 <= i <= s.len() <= usize::MAX,
    ensures
        fails_within(variable_definition(s, i), s.len() as int),
{
    lemma_declaration_within(s, i);
    lemma_variable_declaration(s, i);
    if let Parsed::Match { value: _, next: n } = grammar::variable_declaration(s, i) {
        lemma_assignment_within(s, n);
        grammar::lemma_assignment(s, n);
        lemma_symbol_within(s, n, ';');
        if let Parsed::Match { value: _, next: after } = assignment(s, n) {
            lemma_symbol_within(s, after, ';');
        }
    }
}

/// of a statement,
proof fn lemma_statement_within(s: Seq<char>, i: int)
    requires
        0 <= i <= s.len() <= usize::MAX,
    ensures
        fails_within(statement(s, i), s.len() as int),
{
    lemma_comment_within(s, i);
    lemma_definition_within(s, i);
    lemma_string_within(s, i);
}

/// of the statements of a scope,
proof fn lemma_statements_within(s: Seq<char>, i: int)
    requires
        0 <= i <= s.len() <= usize::MAX,
    ensures
        fails_within(statements(s, i), s.len() as int),
    decreases s.len() - i,
{
    lemma_statement_within(s, i);
    lemma_statement(s, i);
    if let Parsed::Match { value: _, next } = statement(s, i) {
        lemma_statements_within(s, next);
    }
}

/// of a container,
proof fn lemma_container_within(s: Seq<char>, i: int)
    requires
        0 <= i <= s.len() <= usize::MAX,
    ensures
        fails_within(container_declaration(s, i), s.len() as int),
{
    lemma_identifier_within(s, i);
    grammar::lemma_identifier(s, i);
    if let Parsed::Match { value: _, next: n } = identifier(s, i) {
        lemma_symbol_within(s, n, '{');
        grammar::lemma_symbol(s, n, '{');
        if let Parsed::Match { value: _, next: m } = grammar::symbol(s, n, '{') {
            lemma_fields(s, m);
            lemma_symbol_within(s, grammar::fields(s, m).1, '}');
        }
    }
}

/// of a function,
proof fn lemma_function_within(s: Seq<char>, i: int)
    requires
        0 <= i <= s.len() <= usize::MAX,
    ensures
        fails_within(function_declaration(s, i), s.len() as int),
{
    lemma_identifier_within(s, i);
    grammar::lemma_identifier(s, i);
    if let Parsed::Match { value: _, next: n } = identifier(s, i) {
        lemma_symbol_within(s, n, '(');
        grammar::lemma_symbol(s, n, '(');
        if let Parsed::Match { value: _, next: a } = grammar::symbol(s, n, '(') {
            lemma_parameters(s, a);
            lemma_symbol_within(s, grammar::parameters(s, a).1, ')');
        }
        grammar::lemma_arguments(s, n);
        if let Parsed::Match { value: _, next: m } = arguments(s, n) {
            lemma_symbol_within(s, m, '{');
            grammar::lemma_symbol(s, m, '{');
            if let Parsed::Match { value: _, next: b } = grammar::symbol(s, m, '{') {
                lemma_statements_within(s, b);
                grammar::lemma_statements(s, b);
                if let Parsed::Match { value: _, next: e } = statements(s, b) {
                    lemma_symbol_within(s, e, '}');
                }
            }
        }
    }
}

/// and of what stands at the top level.
proof fn lemma_item_within(s: Seq<char>, i: int)
    requires
        0 <= i <= s.len() <= usize::MAX,
    ensures
        fails_within(item(s, i), s.len() as int),
{
    lemma_space_end(s, i);
    let j = space_end(s, i);
    lemma_comment_within(s, j);
    if has_prefix(s, j, word_container()) {
        lemma_container_within(s, j + 9);
    }
    if has_prefix(s, j, word_function()) {
        lemma_function_within(s, j + 8);
    }
}

/// Every frame of a failed parse lies within the text: its offset is that of
/// a character of the text, or the end of the text.
pub proof fn lemma_frames_within(s: Seq<char>, i: int)
    requires
        0 <= i <= s.len() <= usize::MAX,
    ensures
        program_from(s, i) matches Err(frames) ==> within_text(frames, s.len() as int),
    decreases s.len() - i,
{
    if space_end(s, i) < s.len() {
        lemma_item(s, i);
        lemma_item_within(s, i);
        if let Parsed::Match { value: _, next } = item(s, i) {
            lemma_frames_within(s, next);
        }
    }
}

} // verus!
