//! The character runs of the grammar, held against the recognizers of `nom`
//! that they stand for, and places in a text, held against `nom_locate`.
use llc::lexer::token::Location;
use llc::parser::report::locate;
use llc::parser::{identifier, parse_escaped_whitespace, parse_literal, space, symbol};
use nom::bytes::complete::{is_not, tag, take, take_while};
use nom::character::complete::{alphanumeric1, char, multispace1};
use nom::error::ErrorKind;
use nom::IResult;
use nom_locate::LocatedSpan;

const SAMPLES: [&str; 24] = [
    "",
    " ",
    "abc",
    "abc def",
    "  abc",
    "\t\r\n x",
    "a1b2 c3",
    "1abc",
    "_abc",
    "ab_c",
    "étude",
    "abé",
    "\u{a0}x",
    "\u{b}x",
    "\"quoted\"",
    "back\\slash",
    "\\ \n\t x",
    "\\x",
    "\\",
    "integer x;",
    "{",
    "  {",
    "x{",
    "Ünï",
];

fn chars(text: &str) -> Vec<char> {
    text.chars().collect()
}

fn consumed(input: &str, rest: &str) -> usize {
    input.chars().count() - rest.chars().count()
}

#[test]
fn space_agrees_with_take_while() {
    for input in SAMPLES.iter() {
        let blanks = " \t\r\n";
        let r: IResult<&str, &str, (&str, ErrorKind)> =
            take_while(move |c: char| blanks.contains(c))(*input);
        let (rest, _) = r.unwrap();
        assert_eq!(space(&chars(input), 0), consumed(input, rest), "on {:?}", input);
    }
}

#[test]
fn identifier_agrees_with_alphanumeric1() {
    for input in SAMPLES.iter() {
        let r: IResult<&str, &str, (&str, ErrorKind)> = alphanumeric1(*input);
        let expected = match r {
            Ok((rest, run)) if run.chars().next().unwrap().is_alphabetic() => {
                Some((run.to_string(), consumed(input, rest)))
            }
            _ => None,
        };
        let text = chars(input);
        let found = if space(&text, 0) == 0 { identifier(&text, 0).ok() } else { None };
        if space(&text, 0) == 0 {
            assert_eq!(found, expected, "on {:?}", input);
        }
    }
}

#[test]
fn literal_agrees_with_is_not() {
    for input in SAMPLES.iter() {
        let r: IResult<&str, &str, (&str, ErrorKind)> = is_not("\"\\")(*input);
        let expected = match r {
            Ok((rest, run)) if !run.is_empty() => Some(consumed(input, rest)),
            _ => None,
        };
        assert_eq!(parse_literal(&chars(input), 0), expected, "on {:?}", input);
    }
}

#[test]
fn escaped_blanks_agree_with_multispace1() {
    for input in SAMPLES.iter() {
        let first: IResult<&str, char, (&str, ErrorKind)> = char('\\')(*input);
        let expected = match first {
            Ok((rest, _)) => {
                let second: IResult<&str, &str, (&str, ErrorKind)> = multispace1(rest);
                match second {
                    Ok((rest, _)) => Some(consumed(input, rest)),
                    Err(_) => None,
                }
            }
            Err(_) => None,
        };
        assert_eq!(parse_escaped_whitespace(&chars(input), 0), expected, "on {:?}", input);
    }
}

#[test]
fn symbol_agrees_with_char() {
    for input in SAMPLES.iter() {
        let text = chars(input);
        let skipped = space(&text, 0);
        let tail: String = text[skipped..].iter().collect();
        let r: IResult<&str, char, (&str, ErrorKind)> = char('{')(tail.as_str());
        assert_eq!(symbol(&text, 0, '{').is_ok(), r.is_ok(), "on {:?}", input);
    }
}

#[test]
fn built_in_type_names_agree_with_tag() {
    for input in ["integer x", "integerx", "intege", "string", " string", "boolean", "characters"]
        .iter()
    {
        let r: IResult<&str, &str, (&str, ErrorKind)> = tag("integer")(*input);
        let found = llc::parser::variable_type(&chars(input), 0).ok();
        if r.is_ok() {
            assert_eq!(found, Some(("integer".to_string(), 7)), "on {:?}", input);
        } else if let Some((name, _)) = found {
            assert_ne!(name.len(), 0);
            assert!(!input.starts_with("integer"));
        }
    }
}

#[test]
fn places_agree_with_located_span() {
    for input in ["", "abc", "ab\ncd\n\nef", "é\nüx\n", "\n\n", "a\r\nb"].iter() {
        let text = chars(input);
        for offset in 0..=text.len() {
            let r: IResult<LocatedSpan<&str>, LocatedSpan<&str>, (LocatedSpan<&str>, ErrorKind)> =
                take(offset)(LocatedSpan::new(*input));
            let (rest, _) = r.unwrap();
            let expected = Location::new(rest.get_utf8_column(), rest.location_line() as usize);
            assert_eq!(locate(&text, offset), expected, "on {:?} at {}", input, offset);
        }
    }
}
