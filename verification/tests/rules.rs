use llc::parser::expression::{Container, Expression, Function};
use llc::parser::fault::{Fault, Frame, Rule};
use llc::parser::{
    arguments, assignment, comment, container_declaration, function_declaration, identifier,
    integer_literal, item, parse_escaped_char, parse_escaped_whitespace, parse_fragment,
    parse_literal, parse_string, program, scope, space, statement, symbol, variable_declaration,
    variable_definition, variable_type, StringFragment,
};

fn chars(text: &str) -> Vec<char> {
    text.chars().collect()
}

fn frames_of<T: std::fmt::Debug>(r: Result<T, Fault>) -> (bool, Vec<Frame>) {
    let fault = r.unwrap_err();
    (fault.fatal, fault.frames)
}

fn f(rule: Rule, offset: usize) -> Frame {
    Frame { rule, offset }
}

#[test]
fn space_passes_over_the_four_blanks_only() {
    assert_eq!(space(&chars(" \t\r\n x"), 0), 5);
    assert_eq!(space(&chars("x  "), 0), 0);
    assert_eq!(space(&chars("x  "), 1), 3);
    assert_eq!(space(&chars(""), 0), 0);
    assert_eq!(space(&chars("\u{b}x"), 0), 0);
    assert_eq!(space(&chars("\u{a0}x"), 0), 0);
}

#[test]
fn symbol_expects_one_character() {
    assert_eq!(symbol(&chars("  {x"), 0, '{').unwrap(), 3);
    assert_eq!(
        frames_of(symbol(&chars("  }x"), 0, '{')),
        (false, vec![f(Rule::Character('{'), 2)])
    );
    assert_eq!(frames_of(symbol(&chars("  "), 0, '{')), (false, vec![f(Rule::Character('{'), 2)]));
}

#[test]
fn identifier_is_a_letter_and_what_follows() {
    assert_eq!(identifier(&chars("  ab12 c"), 0).unwrap(), ("ab12".to_string(), 6));
    assert_eq!(identifier(&chars("a_b"), 0).unwrap(), ("a".to_string(), 1));
    assert_eq!(identifier(&chars("x"), 0).unwrap(), ("x".to_string(), 1));
    assert_eq!(identifier(&chars("Zé"), 0).unwrap(), ("Z".to_string(), 1));
    assert_eq!(
        frames_of(identifier(&chars(" 1ab"), 0)),
        (false, vec![f(Rule::Letter, 1), f(Rule::Identifier, 0)])
    );
    assert_eq!(
        frames_of(identifier(&chars("été"), 0)),
        (false, vec![f(Rule::Letter, 0), f(Rule::Identifier, 0)])
    );
    assert_eq!(
        frames_of(identifier(&chars(""), 0)),
        (false, vec![f(Rule::Letter, 0), f(Rule::Identifier, 0)])
    );
}

#[test]
fn integer_is_one_digit_or_more() {
    assert_eq!(
        integer_literal(&chars(" 0042x"), 0).unwrap(),
        (Expression::IntegerLiteral("0042".to_string()), 5)
    );
    assert_eq!(
        frames_of(integer_literal(&chars(" x"), 0)),
        (false, vec![f(Rule::Digit, 1), f(Rule::Integer, 0)])
    );
    assert_eq!(
        frames_of(integer_literal(&chars("-1"), 0)),
        (false, vec![f(Rule::Digit, 0), f(Rule::Integer, 0)])
    );
}

#[test]
fn type_is_a_built_in_name_or_a_name() {
    assert_eq!(variable_type(&chars(" integer x"), 0).unwrap(), ("integer".to_string(), 8));
    assert_eq!(variable_type(&chars("string"), 0).unwrap(), ("string".to_string(), 6));
    assert_eq!(variable_type(&chars("boolean b"), 0).unwrap(), ("boolean".to_string(), 7));
    assert_eq!(variable_type(&chars("character"), 0).unwrap(), ("character".to_string(), 9));
    assert_eq!(variable_type(&chars("Point p"), 0).unwrap(), ("Point".to_string(), 5));
    assert_eq!(variable_type(&chars("integers"), 0).unwrap(), ("integer".to_string(), 7));
    assert_eq!(variable_type(&chars("integ er"), 0).unwrap(), ("integ".to_string(), 5));
    assert_eq!(
        frames_of(variable_type(&chars(" ;"), 0)),
        (false, vec![f(Rule::Letter, 1), f(Rule::Identifier, 1), f(Rule::Type, 0)])
    );
}

#[test]
fn declaration_is_a_type_and_a_name() {
    assert_eq!(
        variable_declaration(&chars("integer x;"), 0).unwrap(),
        (Expression::VariableDeclaration("integer".to_string(), "x".to_string()), 9)
    );
    assert_eq!(
        frames_of(variable_declaration(&chars("integer ;"), 0)),
        (false, vec![f(Rule::Letter, 8), f(Rule::Identifier, 7), f(Rule::Declaration, 0)])
    );
    assert_eq!(
        frames_of(variable_declaration(&chars("}"), 0)),
        (
            false,
            vec![
                f(Rule::Letter, 0),
                f(Rule::Identifier, 0),
                f(Rule::Type, 0),
                f(Rule::Declaration, 0),
            ]
        )
    );
}

#[test]
fn escaped_characters() {
    assert_eq!(parse_escaped_char(&chars("\\n"), 0), Some('\n'));
    assert_eq!(parse_escaped_char(&chars("\\r"), 0), Some('\r'));
    assert_eq!(parse_escaped_char(&chars("\\t"), 0), Some('\t'));
    assert_eq!(parse_escaped_char(&chars("\\\\"), 0), Some('\\'));
    assert_eq!(parse_escaped_char(&chars("\\/"), 0), Some('/'));
    assert_eq!(parse_escaped_char(&chars("\\\""), 0), Some('"'));
    assert_eq!(parse_escaped_char(&chars("\\x"), 0), None);
    assert_eq!(parse_escaped_char(&chars("\\"), 0), None);
    assert_eq!(parse_escaped_char(&chars("n"), 0), None);
    assert_eq!(parse_escaped_char(&chars("a\\n"), 1), Some('\n'));
    assert_eq!(parse_escaped_char(&chars(""), 0), None);
}

#[test]
fn escaped_blanks() {
    assert_eq!(parse_escaped_whitespace(&chars("\\ \n\tx"), 0), Some(4));
    assert_eq!(parse_escaped_whitespace(&chars("\\ "), 0), Some(2));
    assert_eq!(parse_escaped_whitespace(&chars("\\x"), 0), None);
    assert_eq!(parse_escaped_whitespace(&chars("\\"), 0), None);
    assert_eq!(parse_escaped_whitespace(&chars("  "), 0), None);
}

#[test]
fn literal_runs() {
    assert_eq!(parse_literal(&chars("abc\"d"), 0), Some(3));
    assert_eq!(parse_literal(&chars("abc\\d"), 0), Some(3));
    assert_eq!(parse_literal(&chars("abc"), 1), Some(3));
    assert_eq!(parse_literal(&chars("\"abc"), 0), None);
    assert_eq!(parse_literal(&chars("\\abc"), 0), None);
    assert_eq!(parse_literal(&chars(""), 0), None);
}

#[test]
fn fragments_of_a_string() {
    assert_eq!(parse_fragment(&chars("ab\\n"), 0), Some((StringFragment::Literal(0, 2), 2)));
    assert_eq!(parse_fragment(&chars("ab\\n"), 2), Some((StringFragment::EscapedChar('\n'), 4)));
    assert_eq!(parse_fragment(&chars("\\  x"), 0), Some((StringFragment::EscapedWS, 3)));
    assert_eq!(parse_fragment(&chars("\"x"), 0), None);
    assert_eq!(parse_fragment(&chars("\\q"), 0), None);
    assert_eq!(parse_fragment(&chars("x"), 1), None);
}

#[test]
fn string_rule() {
    assert_eq!(
        parse_string(&chars("  \"a\\\"b\" rest"), 0).unwrap(),
        (Expression::StringLiteral("a\"b".to_string()), 8)
    );
    assert_eq!(
        parse_string(&chars("\"\""), 0).unwrap(),
        (Expression::StringLiteral(String::new()), 2)
    );
    assert_eq!(
        frames_of(parse_string(&chars(" x"), 0)),
        (false, vec![f(Rule::Character('"'), 1), f(Rule::StringLiteral, 0)])
    );
    assert_eq!(
        frames_of(parse_string(&chars("\"ab\\"), 0)),
        (false, vec![f(Rule::Character('"'), 3), f(Rule::StringLiteral, 0)])
    );
    assert_eq!(
        frames_of(parse_string(&chars("\"ab"), 0)),
        (false, vec![f(Rule::Character('"'), 3), f(Rule::StringLiteral, 0)])
    );
}

#[test]
fn assignment_rule() {
    assert_eq!(
        assignment(&chars(" = 12;"), 0).unwrap(),
        (vec![Expression::IntegerLiteral("12".to_string())], 5)
    );
    assert_eq!(
        assignment(&chars("=\"s\";"), 0).unwrap(),
        (vec![Expression::StringLiteral("s".to_string())], 4)
    );
    assert_eq!(
        assignment(&chars("= other ;"), 0).unwrap(),
        (vec![Expression::Identifier("other".to_string())], 7)
    );
    assert_eq!(
        frames_of(assignment(&chars(" ;"), 0)),
        (false, vec![f(Rule::Character('='), 1), f(Rule::Assignment, 0)])
    );
    let (fatal, frames) = frames_of(assignment(&chars("= ;"), 0));
    assert!(fatal);
    assert_eq!(frames.len(), 7);
    assert_eq!(frames[6], f(Rule::Assignment, 0));
}

#[test]
fn definition_rule() {
    assert_eq!(
        variable_definition(&chars("integer x = 1 ;"), 0).unwrap(),
        (
            Expression::VariableAssignment(
                "integer".to_string(),
                "x".to_string(),
                Some(vec![Expression::IntegerLiteral("1".to_string())]),
            ),
            15
        )
    );
    assert_eq!(
        variable_definition(&chars("T x;"), 0).unwrap(),
        (Expression::VariableAssignment("T".to_string(), "x".to_string(), None), 4)
    );
    assert_eq!(
        frames_of(variable_definition(&chars("T x"), 0)),
        (false, vec![f(Rule::Character(';'), 3), f(Rule::Definition, 0)])
    );
    let (fatal, frames) = frames_of(variable_definition(&chars("T x = }"), 0));
    assert!(fatal);
    assert_eq!(frames.last(), Some(&f(Rule::Definition, 0)));
}

#[test]
fn comment_rule() {
    assert_eq!(comment(&chars("  // text \nnext"), 0).unwrap(), (" text ".to_string(), 10));
    assert_eq!(comment(&chars("//"), 0).unwrap(), (String::new(), 2));
    assert_eq!(comment(&chars("///x"), 0).unwrap(), ("/x".to_string(), 4));
    assert_eq!(
        frames_of(comment(&chars(" / /"), 0)),
        (false, vec![f(Rule::CommentMarker, 1), f(Rule::Comment, 0)])
    );
}

#[test]
fn container_rule() {
    assert_eq!(
        container_declaration(&chars(" P { integer x;string s; } rest"), 0).unwrap(),
        (
            Container::new(
                "P".to_string(),
                vec![
                    Expression::VariableDeclaration("integer".to_string(), "x".to_string()),
                    Expression::VariableDeclaration("string".to_string(), "s".to_string()),
                ],
            ),
            26
        )
    );
    assert_eq!(
        frames_of(container_declaration(&chars(" P integer x; }"), 0)),
        (false, vec![f(Rule::Character('{'), 3), f(Rule::ContainerDeclaration, 0)])
    );
}

#[test]
fn arguments_rule() {
    assert_eq!(arguments(&chars(" ( ) {"), 0).unwrap(), (vec![], 4));
    assert_eq!(
        arguments(&chars("(A a,B b)"), 0).unwrap(),
        (
            vec![
                Expression::VariableDeclaration("A".to_string(), "a".to_string()),
                Expression::VariableDeclaration("B".to_string(), "b".to_string()),
            ],
            9
        )
    );
    assert_eq!(
        frames_of(arguments(&chars("(A a B b)"), 0)),
        (false, vec![f(Rule::Character(')'), 5), f(Rule::Arguments, 0)])
    );
    assert_eq!(
        frames_of(arguments(&chars("A a)"), 0)),
        (false, vec![f(Rule::Character('('), 0), f(Rule::Arguments, 0)])
    );
}

#[test]
fn statement_rule() {
    assert_eq!(
        statement(&chars(" //c"), 0).unwrap(),
        (Expression::Comment("c".to_string()), 4)
    );
    assert_eq!(
        statement(&chars(" \"s\""), 0).unwrap(),
        (Expression::StringLiteral("s".to_string()), 4)
    );
    let (fatal, frames) = frames_of(statement(&chars(" }"), 0));
    assert!(!fatal);
    assert_eq!(
        frames,
        vec![
            f(Rule::CommentMarker, 1),
            f(Rule::Comment, 0),
            f(Rule::Letter, 1),
            f(Rule::Identifier, 1),
            f(Rule::Type, 0),
            f(Rule::Declaration, 0),
            f(Rule::Definition, 0),
            f(Rule::Character('"'), 1),
            f(Rule::StringLiteral, 0),
        ]
    );
}

#[test]
fn scope_rule() {
    assert_eq!(scope(&chars(" { } x"), 0).unwrap(), (vec![], 4));
    assert_eq!(
        scope(&chars("{T x;\"s\"}"), 0).unwrap(),
        (
            vec![
                Expression::VariableAssignment("T".to_string(), "x".to_string(), None),
                Expression::StringLiteral("s".to_string()),
            ],
            9
        )
    );
    assert_eq!(
        frames_of(scope(&chars("{ T x; "), 0)),
        (false, vec![f(Rule::Character('}'), 7), f(Rule::Scope, 0)])
    );
}

#[test]
fn function_rule() {
    assert_eq!(
        function_declaration(&chars(" go ( ) { }"), 0).unwrap(),
        (Function::new("go".to_string(), vec![], vec![]), 11)
    );
    assert_eq!(
        frames_of(function_declaration(&chars(" go { }"), 0)),
        (
            false,
            vec![f(Rule::Character('('), 4), f(Rule::Arguments, 3), f(Rule::FunctionDeclaration, 0)]
        )
    );
}

#[test]
fn item_rule() {
    assert_eq!(item(&chars(" // c\nx"), 0).unwrap(), (None, 5));
    assert_eq!(
        item(&chars("container A{}"), 0).unwrap(),
        (Some(Expression::ContainerDeclaration(Container::new("A".to_string(), vec![]))), 13)
    );
    assert_eq!(
        item(&chars("function f(){}"), 0).unwrap(),
        (
            Some(Expression::FunctionDeclaration(Function::new(
                "f".to_string(),
                vec![],
                vec![]
            ))),
            14
        )
    );
    let (fatal, frames) = frames_of(item(&chars("container {}"), 0));
    assert!(fatal);
    assert_eq!(
        frames,
        vec![f(Rule::Letter, 10), f(Rule::Identifier, 9), f(Rule::ContainerDeclaration, 9)]
    );
    let (fatal, _) = frames_of(item(&chars("contain"), 0));
    assert!(!fatal);
}

#[test]
fn program_on_characters() {
    assert_eq!(program(&chars("")), Ok(vec![]));
    assert_eq!(
        program(&chars("container A{}")),
        Ok(vec![Expression::ContainerDeclaration(Container::new("A".to_string(), vec![]))])
    );
    assert_eq!(
        program(&chars("x")),
        Err(vec![
            f(Rule::CommentMarker, 0),
            f(Rule::Comment, 0),
            f(Rule::ContainerKeyword, 0),
            f(Rule::FunctionKeyword, 0),
            f(Rule::Program, 0),
        ])
    );
}

#[test]
fn faults_are_built_frame_by_frame() {
    let fault = Fault::new(Rule::Digit, 3);
    assert!(!fault.fatal);
    assert_eq!(fault.frames, vec![f(Rule::Digit, 3)]);
    let fault = fault.within(Rule::Integer, 1);
    assert_eq!(fault.frames, vec![f(Rule::Digit, 3), f(Rule::Integer, 1)]);
    let other = Fault::new(Rule::Letter, 3).committed();
    assert!(other.fatal);
    let joined = fault.joined(other);
    assert!(!joined.fatal);
    assert_eq!(joined.frames, vec![f(Rule::Digit, 3), f(Rule::Integer, 1), f(Rule::Letter, 3)]);
}
