use llc::parser::expression::{Container, Expression, Function};
use llc::parser::fault::{Frame, Rule};
use llc::parser::{parse, Parser};

fn declaration(ty: &str, name: &str) -> Expression {
    Expression::VariableDeclaration(ty.to_string(), name.to_string())
}

fn frame(rule: Rule, offset: usize) -> Frame {
    Frame { rule, offset }
}

fn body_of(source: &str) -> Vec<Expression> {
    let mut list = parse(source).unwrap();
    assert_eq!(list.len(), 1);
    match list.remove(0) {
        Expression::FunctionDeclaration(f) => f.body,
        other => panic!("not a function: {:?}", other),
    }
}

#[test]
fn container_with_two_fields() {
    let parser = Parser::from_content("container Point { integer x; integer y; }").unwrap();
    assert_eq!(
        parser.expressions,
        vec![Expression::ContainerDeclaration(Container::new(
            "Point".to_string(),
            vec![declaration("integer", "x"), declaration("integer", "y")],
        ))]
    );
    assert_eq!(parser.expressions().len(), 1);
}

#[test]
fn function_with_two_parameters_and_empty_body() {
    let parser = Parser::from_content("function add ( integer a , integer b ) { }").unwrap();
    assert_eq!(
        parser.expressions,
        vec![Expression::FunctionDeclaration(Function::new(
            "add".to_string(),
            vec![declaration("integer", "a"), declaration("integer", "b")],
            vec![],
        ))]
    );
}

#[test]
fn definition_with_integer_initializer() {
    assert_eq!(
        body_of("function f ( ) { integer count = 5 ; }"),
        vec![Expression::VariableAssignment(
            "integer".to_string(),
            "count".to_string(),
            Some(vec![Expression::IntegerLiteral("5".to_string())]),
        )]
    );
}

#[test]
fn definition_behind_the_word_variable_is_not_in_the_grammar() {
    // `variable` is read as the name of a type and `integer` as the name that
    // is declared; the `;` is then missing, and the function fails.
    let frames = parse("function f ( ) { variable integer count = 5 ; }").unwrap_err();
    assert_eq!(
        frames,
        vec![
            frame(Rule::Character('}'), 17),
            frame(Rule::Scope, 14),
            frame(Rule::FunctionDeclaration, 8),
            frame(Rule::Program, 0),
        ]
    );
}

#[test]
fn definition_without_initializer() {
    assert_eq!(
        body_of("function f(){boolean done;}"),
        vec![Expression::VariableAssignment("boolean".to_string(), "done".to_string(), None)]
    );
}

#[test]
fn definition_with_string_initializer() {
    assert_eq!(
        body_of("function f(){ string s = \"a\\tb\" ; }"),
        vec![Expression::VariableAssignment(
            "string".to_string(),
            "s".to_string(),
            Some(vec![Expression::StringLiteral("a\tb".to_string())]),
        )]
    );
}

#[test]
fn definition_with_identifier_initializer() {
    assert_eq!(
        body_of("function f(){ Point p = q; }"),
        vec![Expression::VariableAssignment(
            "Point".to_string(),
            "p".to_string(),
            Some(vec![Expression::Identifier("q".to_string())]),
        )]
    );
}

#[test]
fn scope_holds_comments_definitions_and_strings_in_order() {
    assert_eq!(
        body_of("function f(){\n  // first\n  integer a = 1;\n  \"text\"\n  //last\n}"),
        vec![
            Expression::Comment(" first".to_string()),
            Expression::VariableAssignment(
                "integer".to_string(),
                "a".to_string(),
                Some(vec![Expression::IntegerLiteral("1".to_string())]),
            ),
            Expression::StringLiteral("text".to_string()),
            Expression::Comment("last".to_string()),
        ]
    );
}

#[test]
fn string_escapes_are_resolved() {
    assert_eq!(
        body_of("function f(){\"n\\n r\\r t\\t b\\\\ s\\/ q\\\" end\"}"),
        vec![Expression::StringLiteral("n\n r\r t\t b\\ s/ q\" end".to_string())]
    );
}

#[test]
fn escaped_blanks_in_a_string_are_dropped() {
    assert_eq!(
        body_of("function f(){\"one \\\n     two\\ \t\r\nthree\"}"),
        vec![Expression::StringLiteral("one twothree".to_string())]
    );
}

#[test]
fn unknown_escape_fails_the_string() {
    let frames = parse("function f(){\"a\\qb\"}").unwrap_err();
    assert_eq!(
        frames,
        vec![
            frame(Rule::Character('}'), 13),
            frame(Rule::Scope, 12),
            frame(Rule::FunctionDeclaration, 8),
            frame(Rule::Program, 0),
        ]
    );
}

#[test]
fn empty_text_has_no_declarations() {
    assert_eq!(parse(""), Ok(vec![]));
    assert_eq!(parse(" \n\t \r\n"), Ok(vec![]));
    assert_eq!(Parser::from_content("").unwrap().expressions, vec![]);
}

#[test]
fn comments_at_the_top_level_yield_nothing() {
    assert_eq!(
        parse("// head\ncontainer A {}\n// tail"),
        Ok(vec![Expression::ContainerDeclaration(Container::new("A".to_string(), vec![]))])
    );
    assert_eq!(parse("// only"), Ok(vec![]));
}

#[test]
fn several_declarations_in_order() {
    let list = parse("container A { A next; }\nfunction f(A a) { }\ncontainer B {}").unwrap();
    assert_eq!(
        list,
        vec![
            Expression::ContainerDeclaration(Container::new(
                "A".to_string(),
                vec![declaration("A", "next")],
            )),
            Expression::FunctionDeclaration(Function::new(
                "f".to_string(),
                vec![declaration("A", "a")],
                vec![],
            )),
            Expression::ContainerDeclaration(Container::new("B".to_string(), vec![])),
        ]
    );
}

#[test]
fn built_in_type_names_are_prefixes() {
    // A built-in name is taken wherever the text starts with it.
    assert_eq!(
        parse("container C { integerx; characters; }"),
        Ok(vec![Expression::ContainerDeclaration(Container::new(
            "C".to_string(),
            vec![declaration("integer", "x"), declaration("character", "s")],
        ))])
    );
}

#[test]
fn keyword_may_touch_the_name() {
    assert_eq!(
        parse("containerPoint{}"),
        Ok(vec![Expression::ContainerDeclaration(Container::new("Point".to_string(), vec![]))])
    );
}

#[test]
fn names_hold_letters_and_digits_only() {
    let frames = parse("container my_point {}").unwrap_err();
    assert_eq!(
        frames,
        vec![
            frame(Rule::Character('{'), 12),
            frame(Rule::ContainerDeclaration, 9),
            frame(Rule::Program, 0),
        ]
    );
    let frames = parse("container 1st {}").unwrap_err();
    assert_eq!(
        frames,
        vec![
            frame(Rule::Letter, 10),
            frame(Rule::Identifier, 9),
            frame(Rule::ContainerDeclaration, 9),
            frame(Rule::Program, 0),
        ]
    );
}

#[test]
fn unknown_top_level_word_fails() {
    let frames = parse("widget foo {}").unwrap_err();
    assert_eq!(
        frames,
        vec![
            frame(Rule::CommentMarker, 0),
            frame(Rule::Comment, 0),
            frame(Rule::ContainerKeyword, 0),
            frame(Rule::FunctionKeyword, 0),
            frame(Rule::Program, 0),
        ]
    );
    let messages = Parser::from_content("widget foo {}").unwrap_err();
    assert_eq!(
        messages,
        vec![
            "comment marker at line 1, column 1",
            "Comment at line 1, column 1",
            "keyword container at line 1, column 1",
            "keyword function at line 1, column 1",
            "Program at line 1, column 1",
        ]
    );
}

#[test]
fn unknown_word_behind_a_declaration_fails_the_whole_parse() {
    let frames = parse("container A {}\n widget").unwrap_err();
    assert_eq!(
        frames,
        vec![
            frame(Rule::CommentMarker, 16),
            frame(Rule::Comment, 16),
            frame(Rule::ContainerKeyword, 16),
            frame(Rule::FunctionKeyword, 16),
            frame(Rule::Program, 0),
        ]
    );
}

#[test]
fn missing_semicolon_on_the_last_field_fails() {
    let frames = parse("container Point { integer x; integer y }").unwrap_err();
    assert_eq!(
        frames,
        vec![
            frame(Rule::Character('}'), 29),
            frame(Rule::ContainerDeclaration, 9),
            frame(Rule::Program, 0),
        ]
    );
    let messages = Parser::from_content("container Point { integer x; integer y }").unwrap_err();
    assert_eq!(
        messages,
        vec![
            "'}' at line 1, column 30",
            "Container Declaration at line 1, column 10",
            "Program at line 1, column 1",
        ]
    );
}

#[test]
fn failure_after_a_good_declaration_keeps_nothing() {
    assert!(Parser::from_content("container A {}\ncontainer B { integer x }").is_err());
}

#[test]
fn blank_before_the_semicolon_of_a_field_fails() {
    let frames = parse("container P { integer x ; }").unwrap_err();
    assert_eq!(
        frames,
        vec![
            frame(Rule::Character('}'), 14),
            frame(Rule::ContainerDeclaration, 9),
            frame(Rule::Program, 0),
        ]
    );
}

#[test]
fn missing_value_behind_the_equals_sign_is_fatal() {
    let frames = parse("function f() {\n  integer x = ;\n}").unwrap_err();
    assert_eq!(
        frames,
        vec![
            frame(Rule::Digit, 29),
            frame(Rule::Integer, 28),
            frame(Rule::Character('"'), 29),
            frame(Rule::StringLiteral, 28),
            frame(Rule::Letter, 29),
            frame(Rule::Identifier, 28),
            frame(Rule::Assignment, 26),
            frame(Rule::Definition, 14),
            frame(Rule::Scope, 12),
            frame(Rule::FunctionDeclaration, 8),
            frame(Rule::Program, 0),
        ]
    );
    let messages = Parser::from_content("function f() {\n  integer x = ;\n}").unwrap_err();
    assert_eq!(messages[0], "digit at line 2, column 15");
    assert_eq!(messages[6], "Assignment at line 2, column 12");
    assert_eq!(messages[7], "Definition at line 1, column 15");
    assert_eq!(messages.len(), 11);
}

#[test]
fn trailing_comma_in_parameters_fails() {
    let frames = parse("function f(integer a, ) {}").unwrap_err();
    assert_eq!(
        frames,
        vec![
            frame(Rule::Character(')'), 20),
            frame(Rule::Arguments, 10),
            frame(Rule::FunctionDeclaration, 8),
            frame(Rule::Program, 0),
        ]
    );
}

#[test]
fn function_without_parameters() {
    assert_eq!(
        parse("function main(){}"),
        Ok(vec![Expression::FunctionDeclaration(Function::new(
            "main".to_string(),
            vec![],
            vec![],
        ))])
    );
}

#[test]
fn function_without_keyword_fails() {
    assert!(parse("main(){}").is_err());
}

#[test]
fn unterminated_string_fails_at_the_end() {
    let frames = parse("function f(){\"abc").unwrap_err();
    assert_eq!(
        frames,
        vec![
            frame(Rule::Character('}'), 13),
            frame(Rule::Scope, 12),
            frame(Rule::FunctionDeclaration, 8),
            frame(Rule::Program, 0),
        ]
    );
}

#[test]
fn failure_at_the_end_of_the_text() {
    let messages = Parser::from_content("container A {\n").unwrap_err();
    assert_eq!(
        messages,
        vec![
            "'}' at line 2, column 1",
            "Container Declaration at line 1, column 10",
            "Program at line 1, column 1",
        ]
    );
}

#[test]
fn assign_from_declaration_joins_the_parts() {
    assert_eq!(
        Expression::assign_from_declaration(declaration("integer", "x"), None),
        Expression::VariableAssignment("integer".to_string(), "x".to_string(), None)
    );
    assert_eq!(
        Expression::assign_from_declaration(
            declaration("string", "s"),
            Some(vec![Expression::Identifier("t".to_string())]),
        ),
        Expression::VariableAssignment(
            "string".to_string(),
            "s".to_string(),
            Some(vec![Expression::Identifier("t".to_string())]),
        )
    );
}

#[test]
fn constructors_keep_their_arguments() {
    let f = Function::new("f".to_string(), vec![declaration("a", "b")], vec![]);
    assert_eq!(f.name, "f");
    assert_eq!(f.arguments, vec![declaration("a", "b")]);
    assert_eq!(f.body, vec![]);
    let c = Container::new("c".to_string(), vec![declaration("a", "b")]);
    assert_eq!(c.name, "c");
    assert_eq!(c.variables, vec![declaration("a", "b")]);
}
