use ufmt::pieces::{check_args, parse, parse_colon, required_args, ArgumentError, ParseError, Piece};

#[test]
fn pieces() {
    // string interpolation
    assert_eq!(
        parse("The answer is {}").ok(),
        Some(vec![Piece::Str("The answer is ".to_string()), Piece::Display]),
    );

    assert_eq!(parse("{:?}").ok(), Some(vec![Piece::Debug { pretty: false }]),);

    assert_eq!(parse("{:#?}").ok(), Some(vec![Piece::Debug { pretty: true }]),);

    assert_eq!(
        parse("{:x}").ok(),
        Some(vec![Piece::Hex { upper_case: false, pad_char: b' ', pad_length: 0, prefix: false }]),
    );

    assert_eq!(
        parse("{:9x}").ok(),
        Some(vec![Piece::Hex { upper_case: false, pad_char: b' ', pad_length: 9, prefix: false }]),
    );

    assert_eq!(
        parse("{:9X}").ok(),
        Some(vec![Piece::Hex { upper_case: true, pad_char: b' ', pad_length: 9, prefix: false }]),
    );

    assert_eq!(
        parse("{:#X}").ok(),
        Some(vec![Piece::Hex { upper_case: true, pad_char: b' ', pad_length: 0, prefix: true }]),
    );

    assert_eq!(
        parse("{:.0}").ok(),
        Some(vec![Piece::Float { decimal_places: 0, pad_length: 0 }]),
    );

    assert_eq!(
        parse("{:.6}").ok(),
        Some(vec![Piece::Float { decimal_places: 6, pad_length: 0 }]),
    );

    assert_eq!(
        parse("{:17.6}").ok(),
        Some(vec![Piece::Float { decimal_places: 6, pad_length: 17 }]),
    );

    // escaped braces
    assert_eq!(
        parse("{{}} is not an argument").ok(),
        Some(vec![Piece::Str("{} is not an argument".to_string())]),
    );

    // left brace & junk
    assert!(parse("{").is_err());
    assert!(parse(" {").is_err());
    assert!(parse("{ ").is_err());
    assert!(parse("{ {").is_err());
    assert!(parse("{:q}").is_err());
}

#[test]
fn unescape() {
    // no right brace
    assert_eq!(ufmt::pieces::unescape("").ok(), Some("".to_string()));
    assert_eq!(ufmt::pieces::unescape("Hello").ok(), Some("Hello".to_string()));

    // unmatched right brace
    assert!(ufmt::pieces::unescape(" }").is_err());
    assert!(ufmt::pieces::unescape("} ").is_err());
    assert!(ufmt::pieces::unescape("}").is_err());

    // escaped right brace
    assert_eq!(ufmt::pieces::unescape("}}").ok(), Some("}".to_string()));
    assert_eq!(ufmt::pieces::unescape("}} ").ok(), Some("} ".to_string()));
}

#[test]
fn parse_errors_say_which() {
    assert_eq!(parse("a } b"), Err(ParseError::UnmatchedRightBrace));
    assert_eq!(parse("}{:?}"), Err(ParseError::UnmatchedRightBrace));
    assert_eq!(parse("}{q"), Err(ParseError::InvalidFormatString));
    assert_eq!(parse("{:.7}"), Err(ParseError::InvalidFormatString));
    assert_eq!(parse("{:#.3}"), Err(ParseError::InvalidFormatString));
    assert_eq!(parse("{:0.3}"), Err(ParseError::InvalidFormatString));
    assert_eq!(parse("{:99999999999999999999999999x}"), Err(ParseError::InvalidFormatString));
    assert_eq!(parse("{:"), Err(ParseError::InvalidFormatString));
    assert_eq!(ParseError::UnmatchedRightBrace.message(), "format string contains an unmatched right brace");
    assert_eq!(
        ParseError::InvalidFormatString.message(),
        "invalid format string: expected `{{`, `{}`, `{:?}`, `{:#?}`, '{:x}' or '{:.<0..6>}'"
    );
    assert_eq!(parse("{:x"), Err(ParseError::InvalidFormatString));
    assert_eq!(ufmt::pieces::unescape("a}b"), Err(ParseError::UnmatchedRightBrace));
}

#[test]
fn parse_mixed_pieces() {
    assert_eq!(
        parse("a{{b}}c {} d {:#06x}{:?}{:#?} é{:12.3}\n"),
        Ok(vec![
            Piece::Str("a{b}c ".to_string()),
            Piece::Display,
            Piece::Str(" d ".to_string()),
            Piece::Hex { upper_case: false, pad_char: b'0', pad_length: 6, prefix: true },
            Piece::Debug { pretty: false },
            Piece::Debug { pretty: true },
            Piece::Str(" é".to_string()),
            Piece::Float { decimal_places: 3, pad_length: 12 },
            Piece::Str("\n".to_string()),
        ])
    );
    assert_eq!(parse(""), Ok(vec![]));
    assert_eq!(parse("{{"), Ok(vec![Piece::Str("{".to_string())]));
}

#[test]
fn parse_colon_returns_the_rest() {
    assert_eq!(
        parse_colon("#04X} and more"),
        Ok((Piece::Hex { upper_case: true, pad_char: b'0', pad_length: 4, prefix: true }, " and more"))
    );
    assert_eq!(
        parse_colon("x5}"),
        Ok((Piece::Hex { upper_case: false, pad_char: b' ', pad_length: 0, prefix: false }, ""))
    );
    assert_eq!(parse_colon(""), Err(ParseError::InvalidFormatString));
    assert_eq!(parse_colon("?}"), Err(ParseError::InvalidFormatString));
}

#[test]
fn pieces_know_what_they_are() {
    assert!(Piece::Str("x".to_string()).is_str());
    assert!(!Piece::Display.is_str());
    assert!(!Piece::Debug { pretty: true }.is_str());
}

#[test]
fn arguments_are_counted() {
    let pieces = parse("{} and {:?} but not {{}}").unwrap();
    assert_eq!(required_args(&pieces), 2);
    assert_eq!(check_args(&pieces, 2), Ok(()));
    assert_eq!(check_args(&pieces, 1), Err(ArgumentError::Missing { required: 2, supplied: 1 }));
    assert_eq!(check_args(&pieces, 3), Err(ArgumentError::NeverUsed { index: 2 }));
    assert_eq!(
        ArgumentError::Missing { required: 2, supplied: 1 }.message(),
        "format string requires 2 arguments but 1 was supplied"
    );
    assert_eq!(
        ArgumentError::Missing { required: 12, supplied: 0 }.message(),
        "format string requires 12 arguments but 0 were supplied"
    );
    assert_eq!(ArgumentError::NeverUsed { index: 2 }.message(), "argument never used");
}
