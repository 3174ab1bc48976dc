use css_minify::minimize;
use css_minify::tokenizer::{preprocess, tokenize};
use css_minify::tokens::{CSSToken, HashFlag, NumericFlag, NumericValue};

fn num_value(v: &NumericValue) -> f64 {
    let mut text = String::new();
    if v.negative {
        text.push('-');
    }
    if v.integer.is_empty() {
        text.push('0');
    } else {
        text.push_str(&v.integer);
    }
    if !v.fraction.is_empty() {
        text.push('.');
        text.push_str(&v.fraction);
    }
    if !v.exponent.is_empty() {
        text.push('e');
        if v.exp_negative {
            text.push('-');
        }
        text.push_str(&v.exponent);
    }
    text.parse::<f64>().unwrap()
}

#[test]
fn preprocess_normalizes_line_endings_and_nul() {
    assert_eq!(preprocess(String::from("a\r\nb\rc\u{0}d")), "a\nb\nc\u{FFFD}d");
    assert_eq!(preprocess(String::from("")), "");
    assert_eq!(preprocess(String::from("\r\r\n")), "\n\n");
}

#[test]
fn number_decode_fraction_and_exponent() {
    let tokens = tokenize(String::from("-12.5e+2")).unwrap();
    assert_eq!(tokens.len(), 1);
    match &tokens[0] {
        CSSToken::Number(v, NumericFlag::Number) => {
            assert_eq!(num_value(v), -1250.0);
        }
        other => panic!("expected a number token, got {:?}", other),
    }
}

#[test]
fn number_decode_integer() {
    let tokens = tokenize(String::from("42")).unwrap();
    assert_eq!(tokens.len(), 1);
    match &tokens[0] {
        CSSToken::Number(v, NumericFlag::Integer) => {
            assert_eq!(num_value(v), 42.0);
        }
        other => panic!("expected an integer number token, got {:?}", other),
    }
}

#[test]
fn number_decode_leading_dot() {
    let tokens = tokenize(String::from(".5")).unwrap();
    assert_eq!(tokens.len(), 1);
    match &tokens[0] {
        CSSToken::Number(v, NumericFlag::Number) => {
            assert_eq!(num_value(v), 0.5);
        }
        other => panic!("expected a fractional number token, got {:?}", other),
    }
}

#[test]
fn number_decode_exponent_sets_number_flag() {
    let tokens = tokenize(String::from("12e3")).unwrap();
    assert_eq!(tokens.len(), 1);
    match &tokens[0] {
        CSSToken::Number(v, NumericFlag::Number) => {
            assert_eq!(num_value(v), 12000.0);
        }
        other => panic!("expected a number token with an exponent, got {:?}", other),
    }
}

#[test]
fn dispatch_priority_minus_dimension() {
    let tokens = tokenize(String::from("-5px")).unwrap();
    assert_eq!(tokens.len(), 1);
    match &tokens[0] {
        CSSToken::Dimension(v, NumericFlag::Integer, unit) => {
            assert_eq!(num_value(v), -5.0);
            assert_eq!(unit, "px");
        }
        other => panic!("expected a dimension token, got {:?}", other),
    }
}

#[test]
fn dispatch_priority_cdc() {
    let tokens = tokenize(String::from("-->")).unwrap();
    assert_eq!(tokens.len(), 1);
    assert!(matches!(tokens[0], CSSToken::CDC));
}

#[test]
fn cdo_and_lone_less_than() {
    let tokens = tokenize(String::from("<!--")).unwrap();
    assert_eq!(tokens.len(), 1);
    assert!(matches!(tokens[0], CSSToken::CDO));
    let tokens = tokenize(String::from("<a")).unwrap();
    assert!(matches!(tokens[0], CSSToken::Delim('<')));
    assert!(matches!(&tokens[1], CSSToken::Ident(n) if n == "a"));
}

#[test]
fn percentage_token() {
    let tokens = tokenize(String::from("50%")).unwrap();
    assert_eq!(tokens.len(), 1);
    match &tokens[0] {
        CSSToken::Percentage(v) => assert_eq!(num_value(v), 50.0),
        other => panic!("expected a percentage token, got {:?}", other),
    }
}

#[test]
fn string_unterminated_is_hard_error() {
    let err = tokenize(String::from("\"abc")).unwrap_err();
    assert_eq!(err.error_text, "Unexpected End Of File (EOF)");
    match err.token {
        Some(CSSToken::String(partial)) => assert_eq!(partial, "abc"),
        other => panic!("expected the partial string token, got {:?}", other),
    }
}

#[test]
fn string_embedded_newline_yields_bad_string_then_resumes() {
    // The tail after resynchronization is scanned normally; the input ends
    // before the second string closes, so the whole call still fails, and
    // the per-step behavior is checked in the consume tests.
    let tokens = tokenize(String::from("\"ab\nc")).unwrap();
    assert!(matches!(tokens[0], CSSToken::BadString));
    assert!(matches!(tokens[1], CSSToken::Whitespace));
    assert!(matches!(&tokens[2], CSSToken::Ident(n) if n == "c"));
    assert_eq!(tokens.len(), 3);
}

#[test]
fn string_escapes() {
    let tokens = tokenize(String::from("\"a\\41 b\"")).unwrap();
    assert!(matches!(&tokens[0], CSSToken::String(v) if v == "aAb"));
    let tokens = tokenize(String::from("\"a\\\nb\"")).unwrap();
    assert!(matches!(&tokens[0], CSSToken::String(v) if v == "ab"));
}

#[test]
fn url_quoted_defers_to_string_recognizer() {
    let tokens = tokenize(String::from("url( \"foo.png\" )")).unwrap();
    assert!(matches!(&tokens[0], CSSToken::Function(n) if n == "url"));
    assert!(matches!(tokens[1], CSSToken::Whitespace));
    assert!(matches!(&tokens[2], CSSToken::String(v) if v == "foo.png"));
    assert!(matches!(tokens[3], CSSToken::Whitespace));
    assert!(matches!(tokens[4], CSSToken::RightParentheses));
    assert_eq!(tokens.len(), 5);
}

#[test]
fn url_bare_token() {
    let tokens = tokenize(String::from("url(foo.png)")).unwrap();
    assert_eq!(tokens.len(), 1);
    assert!(matches!(&tokens[0], CSSToken::URL(v) if v == "foo.png"));
}

#[test]
fn url_interior_whitespace_is_bad_url() {
    let tokens = tokenize(String::from("url(foo bar) x")).unwrap();
    assert!(matches!(tokens[0], CSSToken::BadURL));
    // the remnants are consumed through the closing parenthesis
    assert!(matches!(tokens[1], CSSToken::Whitespace));
    assert!(matches!(&tokens[2], CSSToken::Ident(n) if n == "x"));
    assert_eq!(tokens.len(), 3);
}

#[test]
fn url_bad_with_escaped_close() {
    // the escaped parenthesis inside the remnants does not end them, so
    // one bad-URL token consumes through the final unescaped close
    let tokens = tokenize(String::from("url(a \\)b)")).unwrap();
    assert_eq!(tokens.len(), 1);
    assert!(matches!(tokens[0], CSSToken::BadURL));
}

#[test]
fn url_unterminated_is_hard_error() {
    let err = tokenize(String::from("url(abc")).unwrap_err();
    assert_eq!(err.error_text, "Unexpected End of File (EOF)");
    match err.token {
        Some(CSSToken::URL(partial)) => assert_eq!(partial, "abc"),
        other => panic!("expected the partial URL token, got {:?}", other),
    }
}

#[test]
fn url_upper_case_name() {
    let tokens = tokenize(String::from("URL(a)")).unwrap();
    assert_eq!(tokens.len(), 1);
    assert!(matches!(&tokens[0], CSSToken::URL(v) if v == "a"));
}

#[test]
fn lone_backslash_is_hard_error() {
    let err = tokenize(String::from("ab \\")).unwrap_err();
    assert_eq!(err.error_text, "Unexpected token \\");
    assert!(err.token.is_none());
    assert_eq!(err.at, 4);
}

#[test]
fn unterminated_comment_is_hard_error() {
    let err = tokenize(String::from("/* x")).unwrap_err();
    assert_eq!(err.error_text, "Unexpected End Of File (EOF)");
    assert!(matches!(err.token, Some(CSSToken::Comment)));
    assert_eq!(err.at, 4);
}

#[test]
fn end_to_end_declaration() {
    let tokens = tokenize(String::from("a { color: #fff; /* x */ }")).unwrap();
    let mut it = tokens.iter();
    assert!(matches!(it.next().unwrap(), CSSToken::Ident(n) if n == "a"));
    assert!(matches!(it.next().unwrap(), CSSToken::Whitespace));
    assert!(matches!(it.next().unwrap(), CSSToken::LeftBrace));
    assert!(matches!(it.next().unwrap(), CSSToken::Whitespace));
    assert!(matches!(it.next().unwrap(), CSSToken::Ident(n) if n == "color"));
    assert!(matches!(it.next().unwrap(), CSSToken::Colon));
    assert!(matches!(it.next().unwrap(), CSSToken::Whitespace));
    // `fff` would start an identifier, so the hash carries the `Id` flag
    assert!(matches!(it.next().unwrap(), CSSToken::Hash(n, HashFlag::Id) if n == "fff"));
    assert!(matches!(it.next().unwrap(), CSSToken::Semicolon));
    assert!(matches!(it.next().unwrap(), CSSToken::Whitespace));
    assert!(matches!(it.next().unwrap(), CSSToken::Comment));
    assert!(matches!(it.next().unwrap(), CSSToken::Whitespace));
    assert!(matches!(it.next().unwrap(), CSSToken::RightBrace));
    assert!(it.next().is_none());
}

#[test]
fn hash_without_name_is_delimiter() {
    let tokens = tokenize(String::from("# a")).unwrap();
    assert!(matches!(tokens[0], CSSToken::Delim('#')));
    let tokens = tokenize(String::from("#")).unwrap();
    assert_eq!(tokens.len(), 1);
    assert!(matches!(tokens[0], CSSToken::Delim('#')));
}

#[test]
fn hash_unrestricted_flag() {
    // a name that starts with a digit does not start an identifier
    let tokens = tokenize(String::from("#12ab")).unwrap();
    assert!(matches!(&tokens[0], CSSToken::Hash(n, HashFlag::Unrestricted) if n == "12ab"));
}

#[test]
fn at_keyword_and_lone_at() {
    let tokens = tokenize(String::from("@media x")).unwrap();
    assert!(matches!(&tokens[0], CSSToken::AtKeyword(n) if n == "media"));
    let tokens = tokenize(String::from("@ x")).unwrap();
    assert!(matches!(tokens[0], CSSToken::Delim('@')));
}

#[test]
fn escape_through_ident() {
    // relies on the hex escape decoding to the named scalar value
    let tokens = tokenize(String::from("a\\41 b")).unwrap();
    assert_eq!(tokens.len(), 1);
    assert!(matches!(&tokens[0], CSSToken::Ident(n) if n == "aAb"));
    let tokens = tokenize(String::from("\\41")).unwrap();
    assert!(matches!(&tokens[0], CSSToken::Ident(n) if n == "A"));
}

#[test]
fn whitespace_run_collapses() {
    let tokens = tokenize(String::from("a  \n\t b")).unwrap();
    assert_eq!(tokens.len(), 3);
    assert!(matches!(tokens[1], CSSToken::Whitespace));
}

#[test]
fn plus_number_and_plus_delimiter() {
    let tokens = tokenize(String::from("+5")).unwrap();
    assert!(matches!(&tokens[0], CSSToken::Number(_, NumericFlag::Integer)));
    let tokens = tokenize(String::from("a + p")).unwrap();
    assert!(matches!(tokens[2], CSSToken::Delim('+')));
}

#[test]
fn minimize_reserializes() {
    assert_eq!(
        minimize(String::from("a { color: #fff; /* x */ }")).unwrap(),
        "a { color: #fff;  }"
    );
    assert_eq!(minimize(String::from("-12.5e+2")).unwrap(), "-12.5e2");
    assert_eq!(minimize(String::from(".5")).unwrap(), "0.5");
    assert_eq!(minimize(String::from("-5px")).unwrap(), "-5px");
    assert_eq!(minimize(String::from("042")).unwrap(), "42");
    assert_eq!(minimize(String::from("url(foo.png)")).unwrap(), "url(foo.png)");
    assert_eq!(minimize(String::from("a   {\n}\n")).unwrap(), "a { } ");
}

#[test]
fn round_trip_non_trivia_tokens() {
    // a concrete instance of serialize-then-retokenize stability: the
    // non-trivia tokens of both passes agree pairwise
    let source = String::from("a{color:#fff;width:-5px}");
    let first = tokenize(source.clone()).unwrap();
    let serialized = minimize(source).unwrap();
    let second = tokenize(serialized).unwrap();
    let non_trivia = |ts: &[CSSToken]| {
        ts.iter()
            .filter(|t| !matches!(t, CSSToken::Whitespace | CSSToken::Comment))
            .cloned()
            .collect::<Vec<_>>()
    };
    let a = non_trivia(&first);
    let b = non_trivia(&second);
    assert_eq!(a.len(), b.len());
    for (x, y) in a.iter().zip(b.iter()) {
        assert!(x.same(y), "{:?} != {:?}", x, y);
    }
}

#[test]
fn empty_input_yields_no_tokens() {
    assert_eq!(tokenize(String::from("")).unwrap().len(), 0);
    assert_eq!(minimize(String::from("")).unwrap(), "");
}

#[test]
fn nul_is_replaced_before_scanning() {
    let tokens = tokenize(String::from("a\u{0}b")).unwrap();
    assert_eq!(tokens.len(), 1);
    assert!(matches!(&tokens[0], CSSToken::Ident(n) if n == "a\u{FFFD}b"));
}

#[test]
fn minimize_is_idempotent_on_separated_output() {
    // the serialized form of whitespace-separated stable tokens scans
    // back to the same tokens, so a second pass changes nothing
    let once = minimize(String::from("a  {  color  :  #fff  }")).unwrap();
    assert_eq!(once, "a { color : #fff }");
    let twice = minimize(once.clone()).unwrap();
    assert_eq!(twice, once);
}
