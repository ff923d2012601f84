use roolz::compiler::parser::Error;
use roolz::compiler::parser::Expectation;
use roolz::compiler::parser::Parser;

#[test]
fn test() {
    let pkg = "\n            # hello\n            pkg hello;\n        ";
    Parser::parse(pkg.as_bytes().to_vec()).unwrap();
}

#[test]
fn accepts_dotted_package() {
    Parser::parse("pkg a.b.c;".as_bytes().to_vec()).unwrap();
}

#[test]
fn accepts_interleaved_whitespace() {
    Parser::parse("  pkg a . b\t.\tc ;\n".as_bytes().to_vec()).unwrap();
}

#[test]
fn whitespace_is_transparent_inside_keyword() {
    Parser::parse("p k g a;".as_bytes().to_vec()).unwrap();
}

#[test]
fn whitespace_is_transparent_inside_identifier() {
    Parser::parse("pkg a b;".as_bytes().to_vec()).unwrap();
}

#[test]
fn accepts_unicode_whitespace() {
    Parser::parse("\u{00a0}pkg a;\u{2003}".as_bytes().to_vec()).unwrap();
}

#[test]
fn accepts_underscore_identifier() {
    Parser::parse("pkg _x.y2;".as_bytes().to_vec()).unwrap();
}

#[test]
fn accepts_alphabetic_unicode_identifier() {
    Parser::parse("pkg caf\u{e9};".as_bytes().to_vec()).unwrap();
}

#[test]
fn comment_content_is_ignored() {
    Parser::parse("# ignore pkg nonsense\npkg a;".as_bytes().to_vec()).unwrap();
}

#[test]
fn misspelled_keyword_third_letter() {
    let r = Parser::parse("pkX foo;".as_bytes().to_vec());
    assert!(matches!(
        r,
        Err(Error::ParseError((1, 3), Expectation::KeywordG))
    ));
}

#[test]
fn misspelled_keyword_second_letter() {
    let r = Parser::parse("pXg foo;".as_bytes().to_vec());
    assert!(matches!(
        r,
        Err(Error::ParseError((1, 2), Expectation::KeywordK))
    ));
}

#[test]
fn misspelled_keyword_first_letter() {
    let r = Parser::parse("kpg foo;".as_bytes().to_vec());
    assert!(matches!(
        r,
        Err(Error::ParseError((1, 1), Expectation::PackageStart))
    ));
}

#[test]
fn truncated_input_reports_end_of_input() {
    let r = Parser::parse("pkg foo".as_bytes().to_vec());
    assert!(matches!(
        r,
        Err(Error::ParseError((1, 7), Expectation::MoreInput))
    ));
}

#[test]
fn empty_input_reports_end_of_input() {
    let r = Parser::parse(Vec::new());
    assert!(matches!(
        r,
        Err(Error::ParseError((1, 0), Expectation::MoreInput))
    ));
}

#[test]
fn empty_segment_after_dot_is_rejected() {
    let r = Parser::parse("pkg a..b;".as_bytes().to_vec());
    assert!(matches!(
        r,
        Err(Error::ParseError((1, 7), Expectation::Identifier))
    ));
}

#[test]
fn leading_dot_is_rejected() {
    let r = Parser::parse("pkg .a;".as_bytes().to_vec());
    assert!(matches!(
        r,
        Err(Error::ParseError((1, 5), Expectation::Identifier))
    ));
}

#[test]
fn missing_semicolon_character_is_rejected() {
    let r = Parser::parse("pkg a!".as_bytes().to_vec());
    assert!(matches!(
        r,
        Err(Error::ParseError((1, 6), Expectation::Semicolon))
    ));
}

#[test]
fn trailing_input_after_statement_is_rejected() {
    let r = Parser::parse("pkg a; x".as_bytes().to_vec());
    assert!(matches!(
        r,
        Err(Error::ParseError((1, 8), Expectation::EndOfInput))
    ));
}

#[test]
fn failure_position_counts_lines_and_columns() {
    let r = Parser::parse("\n\n  ;".as_bytes().to_vec());
    assert!(matches!(
        r,
        Err(Error::ParseError((3, 3), Expectation::PackageStart))
    ));
}

#[test]
fn failure_position_after_comment_lines() {
    let r = Parser::parse("# one\n# two\npkg ..".as_bytes().to_vec());
    assert!(matches!(
        r,
        Err(Error::ParseError((3, 5), Expectation::Identifier))
    ));
}

#[test]
fn invalid_byte_reports_positioned_decode_error() {
    let r = Parser::parse(vec![0x70, 0x6b, 0xff]);
    assert!(matches!(r, Err(Error::Utf8Error((1, 3), _))));
}

#[test]
fn truncated_utf8_tail_reports_positioned_decode_error() {
    let mut bytes = "pkg a".as_bytes().to_vec();
    bytes.push(0xc3);
    let r = Parser::parse(bytes);
    assert!(matches!(r, Err(Error::Utf8Error((1, 6), _))));
}

#[test]
fn non_alphanumeric_identifier_start_is_rejected() {
    let r = Parser::parse("pkg 1a;".as_bytes().to_vec());
    assert!(matches!(
        r,
        Err(Error::ParseError((1, 5), Expectation::Identifier))
    ));
}

#[test]
fn digits_may_continue_an_identifier() {
    Parser::parse("pkg a1;".as_bytes().to_vec()).unwrap();
}

#[test]
fn message_names_the_expectation() {
    let r = Parser::parse("pkg foo".as_bytes().to_vec());
    let e = r.unwrap_err();
    assert_eq!(e.message(), "Unexpected end of input");
    assert_eq!(e.position(), (1, 7));

    let r = Parser::parse("pkg .a;".as_bytes().to_vec());
    let e = r.unwrap_err();
    assert_eq!(e.message(), "Unexpected input, expecting identifier");

    let r = Parser::parse(vec![0xff]);
    let e = r.unwrap_err();
    assert_eq!(e.message(), "Invalid UTF-8 in input");
    assert_eq!(e.position(), (1, 1));
}
