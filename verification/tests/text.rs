use llc::text::{collect, is_ascii_letter, is_blank, is_decimal_digit, same_text, to_chars};

#[test]
fn characters_of_a_text() {
    assert_eq!(to_chars("aé\n"), vec!['a', 'é', '\n']);
    assert_eq!(to_chars(""), Vec::<char>::new());
}

#[test]
fn collected_ranges() {
    let text = to_chars("hello world");
    assert_eq!(collect(&text, 0, 5), "hello");
    assert_eq!(collect(&text, 6, 11), "world");
    assert_eq!(collect(&text, 3, 3), "");
}

#[test]
fn texts_are_compared_character_by_character() {
    assert!(same_text("if", "if"));
    assert!(same_text("", ""));
    assert!(!same_text("if", "iff"));
    assert!(!same_text("if", "of"));
    assert!(!same_text("été", "ete"));
    assert!(same_text("été", "été"));
}

#[test]
fn character_classes() {
    assert!(is_decimal_digit('0') && is_decimal_digit('9'));
    assert!(!is_decimal_digit('a') && !is_decimal_digit('/') && !is_decimal_digit(':'));
    assert!(!is_decimal_digit('٣'));
    assert!(is_ascii_letter('a') && is_ascii_letter('z') && is_ascii_letter('A'));
    assert!(is_ascii_letter('Z'));
    assert!(!is_ascii_letter('_') && !is_ascii_letter('1') && !is_ascii_letter('é'));
    assert!(!is_ascii_letter('[') && !is_ascii_letter('`') && !is_ascii_letter('{'));
    assert!(!is_ascii_letter('@'));
    assert!(is_blank(' ') && is_blank('\t') && is_blank('\r') && is_blank('\n'));
    assert!(!is_blank('\u{b}') && !is_blank('\u{c}') && !is_blank('\u{a0}') && !is_blank('x'));
}
