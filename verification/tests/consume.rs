use css_minify::check::{
    equal, is_identifier, is_name_code_point, is_name_start_code_point, is_nonprintable,
    is_number, is_surrogate, is_valid_escape, is_whitespace, next_char_equals, MAX_CODE_POINT,
};
use css_minify::consume::{bad_url_remnant, escape, name, number, to_number, whitespace};
use css_minify::cursor::Cursor;
use css_minify::parsers::{lookahead, parse};
use css_minify::tokens::{CSSToken, NumericFlag};

fn cursor_of(s: &str) -> Cursor {
    Cursor::new(s.chars().collect())
}

#[test]
fn classifier_predicates() {
    assert!(is_name_start_code_point('a'));
    assert!(is_name_start_code_point('Z'));
    assert!(is_name_start_code_point('_'));
    assert!(is_name_start_code_point('é'));
    assert!(!is_name_start_code_point('1'));
    assert!(!is_name_start_code_point('-'));
    assert!(is_name_code_point('1'));
    assert!(is_name_code_point('-'));
    assert!(!is_name_code_point('.'));
    assert!(is_surrogate(0xD800));
    assert!(is_surrogate(0xDFFF));
    assert!(!is_surrogate(0xE000));
    assert!(is_nonprintable(&'\u{0}'));
    assert!(is_nonprintable(&'\u{B}'));
    assert!(is_nonprintable(&'\u{7F}'));
    assert!(!is_nonprintable(&'a'));
    assert!(is_whitespace(&'\n'));
    assert!(is_whitespace(&'\t'));
    assert!(is_whitespace(&' '));
    assert!(!is_whitespace(&'\r'));
    assert_eq!(MAX_CODE_POINT, 0x10FFFF);
    assert!(equal(&'a', &'a'));
    assert!(!equal(&'a', &'b'));
}

#[test]
fn lookahead_predicates() {
    let c = cursor_of("-a");
    assert!(is_identifier(&c));
    let c = cursor_of("--x");
    assert!(is_identifier(&c));
    let c = cursor_of("-1");
    assert!(!is_identifier(&c));
    let c = cursor_of("\\a");
    assert!(is_identifier(&c));
    let c = cursor_of("\\\n");
    assert!(!is_identifier(&c));
    let c = cursor_of("-5");
    assert!(is_number(&c));
    let c = cursor_of("-.5");
    assert!(is_number(&c));
    let c = cursor_of(".5");
    assert!(is_number(&c));
    let c = cursor_of(".a");
    assert!(!is_number(&c));
    let c = cursor_of("+a");
    assert!(!is_number(&c));
    let c = cursor_of("\\n");
    assert!(is_valid_escape(&c));
    let c = cursor_of("\\");
    assert!(!is_valid_escape(&c));
    let c = cursor_of("ab");
    assert!(next_char_equals(&c, &'a'));
    assert!(!next_char_equals(&c, &'b'));
    assert!(lookahead(&c, &['a', 'b']));
    assert!(!lookahead(&c, &['a', 'c']));
    assert!(!lookahead(&c, &['a', 'b', 'c']));
}

#[test]
fn escape_decodes_hex() {
    // `\41` followed by a non-hex code point decodes to A
    let mut c = cursor_of("41x");
    assert_eq!(escape(&mut c).unwrap(), 'A');
    assert_eq!(c.position(), 2);
}

#[test]
fn escape_zero_gives_replacement() {
    let mut c = cursor_of("0");
    assert_eq!(escape(&mut c).unwrap(), '\u{FFFD}');
}

#[test]
fn escape_out_of_range_gives_replacement() {
    let mut c = cursor_of("110000");
    assert_eq!(escape(&mut c).unwrap(), '\u{FFFD}');
}

#[test]
fn escape_surrogate_gives_replacement() {
    let mut c = cursor_of("d800");
    assert_eq!(escape(&mut c).unwrap(), '\u{FFFD}');
}

#[test]
fn escape_non_hex_passes_through() {
    let mut c = cursor_of("n");
    assert_eq!(escape(&mut c).unwrap(), 'n');
}

#[test]
fn escape_consumes_one_trailing_whitespace() {
    let mut c = cursor_of("41 b");
    assert_eq!(escape(&mut c).unwrap(), 'A');
    assert_eq!(c.position(), 3);
}

#[test]
fn escape_at_end_of_input_is_error() {
    let mut c = cursor_of("");
    let err = escape(&mut c).unwrap_err();
    assert_eq!(err.error_text, "Unexpected End Of File (EOF)");
    assert!(err.message().contains("EOF"));
}

#[test]
fn name_decodes_names_and_escapes() {
    let mut c = cursor_of("hello-world*rest");
    assert_eq!(name(&mut c).unwrap(), "hello-world");
    assert_eq!(c.position(), 11);
    let mut c = cursor_of("a\\42 c.");
    assert_eq!(name(&mut c).unwrap(), "aBc");
}

#[test]
fn number_captures_components() {
    let mut c = cursor_of("-12.5e+2px");
    let (v, flag) = number(&mut c).unwrap();
    assert!(v.negative);
    assert_eq!(v.integer, "12");
    assert_eq!(v.fraction, "5");
    assert!(!v.exp_negative);
    assert_eq!(v.exponent, "2");
    assert!(matches!(flag, NumericFlag::Number));
    let mut c = cursor_of("42");
    let (v, flag) = number(&mut c).unwrap();
    assert_eq!(v.integer, "42");
    assert!(!v.negative);
    assert!(v.fraction.is_empty());
    assert!(matches!(flag, NumericFlag::Integer));
}

#[test]
fn number_leaves_lone_dot_unconsumed() {
    let mut c = cursor_of("5.x");
    let (v, flag) = number(&mut c).unwrap();
    assert_eq!(v.integer, "5");
    assert!(v.fraction.is_empty());
    assert!(matches!(flag, NumericFlag::Integer));
    assert_eq!(c.position(), 1);
}

#[test]
fn number_at_end_of_input_is_error() {
    let mut c = cursor_of("");
    let err = number(&mut c).unwrap_err();
    assert_eq!(err.error_text, "Unexpected End Of File (EOF) parsing number");
}

#[test]
fn to_number_reparses_components() {
    let v = to_number(String::from("-12.5e-3")).unwrap();
    assert!(v.negative);
    assert_eq!(v.integer, "12");
    assert_eq!(v.fraction, "5");
    assert!(v.exp_negative);
    assert_eq!(v.exponent, "3");
    assert!(to_number(String::from("")).is_err());
}

#[test]
fn whitespace_consumes_maximal_run() {
    let mut c = cursor_of(" \t\n x");
    whitespace(&mut c);
    assert_eq!(c.position(), 4);
    assert_eq!(c.peek(), Some('x'));
}

#[test]
fn bad_url_remnant_consumes_through_close() {
    let mut c = cursor_of("ab\\)c)x");
    bad_url_remnant(&mut c);
    // the escaped parenthesis is decoded and discarded, so the remnants
    // end only at the unescaped one
    assert_eq!(c.peek(), Some('x'));
    let mut c = cursor_of("abc");
    bad_url_remnant(&mut c);
    assert!(c.at_end());
}

#[test]
fn bad_url_remnant_escape_at_first_position() {
    // a remnant that begins directly with an escaped parenthesis decodes
    // the escape and runs on: the only close here is escaped, so the
    // remnants are the whole stream
    let mut c = cursor_of("\\)x");
    bad_url_remnant(&mut c);
    assert!(c.at_end());
}

#[test]
fn parse_steps_resume_after_bad_string() {
    // `"ab<newline>c"` yields a bad string at the embedded newline, then
    // scanning resumes at `c"`
    let mut c = cursor_of("\"ab\nc\"");
    assert!(matches!(parse(&mut c).unwrap(), CSSToken::BadString));
    assert_eq!(c.position(), 3);
    assert!(matches!(parse(&mut c).unwrap(), CSSToken::Whitespace));
    assert!(matches!(parse(&mut c).unwrap(), CSSToken::Ident(n) if n == "c"));
    let err = parse(&mut c).unwrap_err();
    assert_eq!(err.error_text, "Unexpected End Of File (EOF)");
}

#[test]
fn parse_yields_eof_sentinel() {
    let mut c = cursor_of("");
    assert!(matches!(parse(&mut c).unwrap(), CSSToken::EOF));
    let mut c = cursor_of("}");
    assert!(matches!(parse(&mut c).unwrap(), CSSToken::RightBrace));
    assert!(matches!(parse(&mut c).unwrap(), CSSToken::EOF));
}

#[test]
fn serializer_canonical_forms() {
    assert_eq!(CSSToken::Ident(String::from("abc")).to_css(), "abc");
    assert_eq!(CSSToken::Function(String::from("calc")).to_css(), "calc(");
    assert_eq!(CSSToken::AtKeyword(String::from("media")).to_css(), "@media");
    assert_eq!(
        CSSToken::Hash(String::from("fff"), css_minify::tokens::HashFlag::Id).to_css(),
        "#fff"
    );
    assert_eq!(CSSToken::String(String::from("hi")).to_css(), "hi");
    assert_eq!(CSSToken::URL(String::from("a.png")).to_css(), "url(a.png)");
    assert_eq!(CSSToken::Delim('*').to_css(), "*");
    assert_eq!(CSSToken::Whitespace.to_css(), " ");
    assert_eq!(CSSToken::Comment.to_css(), "");
    assert_eq!(CSSToken::CDO.to_css(), "");
    assert_eq!(CSSToken::CDC.to_css(), "");
    assert_eq!(CSSToken::BadString.to_css(), "");
    assert_eq!(CSSToken::BadURL.to_css(), "");
    assert_eq!(CSSToken::Colon.to_css(), ":");
    assert_eq!(CSSToken::Semicolon.to_css(), ";");
    assert_eq!(CSSToken::Comma.to_css(), ",");
    assert_eq!(CSSToken::LeftBracket.to_css(), "[");
    assert_eq!(CSSToken::RightBracket.to_css(), "]");
    assert_eq!(CSSToken::LeftParentheses.to_css(), "(");
    assert_eq!(CSSToken::RightParentheses.to_css(), ")");
    assert_eq!(CSSToken::LeftBrace.to_css(), "{");
    assert_eq!(CSSToken::RightBrace.to_css(), "}");
    assert_eq!(CSSToken::EOF.to_css(), "");
}

#[test]
fn escape_largest_code_point() {
    let mut c = cursor_of("10ffff");
    assert_eq!(escape(&mut c).unwrap(), '\u{10FFFF}');
    let mut c = cursor_of("10FFFF*");
    assert_eq!(escape(&mut c).unwrap(), '\u{10FFFF}');
}

#[test]
fn escape_six_digit_cap() {
    // only six hex digits are taken; the seventh stays in the stream
    let mut c = cursor_of("0000411");
    assert_eq!(escape(&mut c).unwrap(), 'A');
    assert_eq!(c.peek(), Some('1'));
}
