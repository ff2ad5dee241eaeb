use llc::lexer::token::Location;
use llc::parser::fault::{Frame, Rule};
use llc::parser::report::{locate, message, messages, push_decimal, rule_label};

fn chars(text: &str) -> Vec<char> {
    text.chars().collect()
}

fn decimal(n: usize) -> String {
    let mut text = String::new();
    push_decimal(&mut text, n);
    text
}

#[test]
fn decimal_digits() {
    assert_eq!(decimal(0), "0");
    assert_eq!(decimal(7), "7");
    assert_eq!(decimal(10), "10");
    assert_eq!(decimal(909), "909");
    assert_eq!(decimal(1234567890), "1234567890");
    assert_eq!(decimal(usize::MAX), usize::MAX.to_string());
}

#[test]
fn decimal_is_appended() {
    let mut text = "line ".to_string();
    push_decimal(&mut text, 42);
    assert_eq!(text, "line 42");
}

#[test]
fn labels_of_rules() {
    assert_eq!(rule_label(Rule::Program), "Program");
    assert_eq!(rule_label(Rule::Comment), "Comment");
    assert_eq!(rule_label(Rule::ContainerDeclaration), "Container Declaration");
    assert_eq!(rule_label(Rule::FunctionDeclaration), "Function Declaration");
    assert_eq!(rule_label(Rule::Arguments), "Arguments");
    assert_eq!(rule_label(Rule::Scope), "Scope");
    assert_eq!(rule_label(Rule::Declaration), "Declaration");
    assert_eq!(rule_label(Rule::Definition), "Definition");
    assert_eq!(rule_label(Rule::Assignment), "Assignment");
    assert_eq!(rule_label(Rule::Type), "Type");
    assert_eq!(rule_label(Rule::Identifier), "Identifier");
    assert_eq!(rule_label(Rule::Integer), "Integer");
    assert_eq!(rule_label(Rule::StringLiteral), "String");
    assert_eq!(rule_label(Rule::Letter), "letter");
    assert_eq!(rule_label(Rule::Digit), "digit");
    assert_eq!(rule_label(Rule::Character('{')), "'{'");
    assert_eq!(rule_label(Rule::CommentMarker), "comment marker");
    assert_eq!(rule_label(Rule::ContainerKeyword), "keyword container");
    assert_eq!(rule_label(Rule::FunctionKeyword), "keyword function");
}

#[test]
fn places_of_offsets() {
    let text = chars("ab\ncd\n\nef");
    assert_eq!(locate(&text, 0), Location::new(1, 1));
    assert_eq!(locate(&text, 1), Location::new(2, 1));
    assert_eq!(locate(&text, 2), Location::new(3, 1));
    assert_eq!(locate(&text, 3), Location::new(1, 2));
    assert_eq!(locate(&text, 6), Location::new(1, 3));
    assert_eq!(locate(&text, 7), Location::new(1, 4));
    assert_eq!(locate(&text, 9), Location::new(3, 4));
}

#[test]
fn place_beyond_the_text_is_that_of_its_end() {
    let text = chars("ab\nc");
    assert_eq!(locate(&text, 4), Location::new(2, 2));
    assert_eq!(locate(&text, 5), Location::new(2, 2));
    assert_eq!(locate(&text, usize::MAX), Location::new(2, 2));
    assert_eq!(locate(&chars(""), 3), Location::new(1, 1));
}

#[test]
fn message_names_rule_line_and_column() {
    let text = chars("container A {\n  integer 1x;\n}");
    assert_eq!(
        message(&text, Frame { rule: Rule::Letter, offset: 24 }),
        "letter at line 2, column 11"
    );
    assert_eq!(
        message(&text, Frame { rule: Rule::Character('}'), offset: 16 }),
        "'}' at line 2, column 3"
    );
}

#[test]
fn messages_keep_the_order_of_the_frames() {
    let text = chars("a\nb");
    let frames = vec![
        Frame { rule: Rule::Digit, offset: 2 },
        Frame { rule: Rule::Integer, offset: 1 },
        Frame { rule: Rule::Program, offset: 0 },
    ];
    assert_eq!(
        messages(&text, &frames),
        vec![
            "digit at line 2, column 1",
            "Integer at line 1, column 2",
            "Program at line 1, column 1",
        ]
    );
    assert_eq!(messages(&text, &vec![]), Vec::<String>::new());
}
