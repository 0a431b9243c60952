use chert::address::{Cidr, Ip};
use chert::lex::{lex, Error, Token};

fn kinds(text: &str) -> Vec<Token> {
    lex(text).unwrap().into_iter().map(|(token, _)| token).collect()
}

#[test]
fn operators_are_lexed_greedily() {
    assert_eq!(
        kinds("&&||==+-~"),
        vec![
            Token::Operator("&&".into()),
            Token::Operator("||".into()),
            Token::Operator("==".into()),
            Token::Operator("+".into()),
            Token::Operator("-".into()),
            Token::Operator("~".into()),
        ]
    );
}

#[test]
fn a_single_ampersand_bar_or_equals_sign_is_bad_syntax() {
    assert_eq!(lex("&"), Err(Error::BadSyntax));
    assert_eq!(lex("a | b"), Err(Error::BadSyntax));
    assert_eq!(lex("a = b"), Err(Error::BadSyntax));
    assert_eq!(lex("!a"), Err(Error::BadSyntax));
    assert_eq!(lex("A"), Err(Error::BadSyntax));
    assert_eq!(lex("a_b"), Err(Error::BadSyntax));
    assert_eq!(lex("a\tb"), Err(Error::BadSyntax));
    assert_eq!(lex("."), Err(Error::BadSyntax));
    assert_eq!(lex("1."), Err(Error::BadSyntax));
}

#[test]
fn identifiers_and_spaces_keep_their_text() {
    assert_eq!(
        lex("abC9  x"),
        Ok(vec![
            (Token::Identifier("abC9".into()), 0..4),
            (Token::Space("  ".into()), 4..6),
            (Token::Identifier("x".into()), 6..7),
        ])
    );
}

#[test]
fn numbers_take_an_optional_fraction() {
    assert_eq!(kinds("12"), vec![Token::Number("12".into())]);
    assert_eq!(kinds("12.5"), vec![Token::Number("12.5".into())]);
    assert_eq!(kinds(".5"), vec![Token::Number(".5".into())]);
    assert_eq!(
        kinds("1.2.3"),
        vec![Token::Number("1.2".into()), Token::Number(".3".into())]
    );
    assert_eq!(
        kinds("1234.1.1.1"),
        vec![
            Token::Number("1234.1".into()),
            Token::Number(".1".into()),
            Token::Number(".1".into()),
        ]
    );
}

#[test]
fn durations_sum_their_units_in_seconds() {
    assert_eq!(kinds("2w"), vec![Token::Duration(1_209_600)]);
    assert_eq!(kinds("1h30m"), vec![Token::Duration(5_400)]);
    assert_eq!(kinds("0s"), vec![Token::Duration(0)]);
    assert_eq!(kinds("007m"), vec![Token::Duration(420)]);
}

#[test]
fn duration_units_come_at_most_once_and_in_order() {
    assert_eq!(kinds("1s2w"), vec![Token::Duration(1), Token::Duration(1_209_600)]);
    assert_eq!(kinds("1d1d"), vec![Token::Duration(86_400), Token::Duration(86_400)]);
    assert_eq!(kinds("1w2"), vec![Token::Duration(604_800), Token::Number("2".into())]);
    assert_eq!(
        kinds("5min"),
        vec![Token::Duration(300), Token::Identifier("in".into())]
    );
    assert_eq!(kinds("1x"), vec![Token::Number("1".into()), Token::Identifier("x".into())]);
}

#[test]
fn a_duration_that_does_not_fit_is_bad_syntax() {
    assert_eq!(kinds("18446744073709551615s"), vec![Token::Duration(u64::MAX)]);
    assert_eq!(lex("18446744073709551616s"), Err(Error::BadSyntax));
    assert_eq!(lex("99999999999999999999w"), Err(Error::BadSyntax));
    assert_eq!(lex("30500568904944w"), Err(Error::BadSyntax));
    assert_eq!(lex("1m18446744073709551615s"), Err(Error::BadSyntax));
    assert_eq!(
        kinds("18446744073709551615s1m"),
        vec![Token::Duration(u64::MAX), Token::Duration(60)]
    );
}

#[test]
fn addresses_are_dotted_quads() {
    assert_eq!(lex("1.2.3.4"), Ok(vec![(Token::Ip(Ip::v4(1, 2, 3, 4)), 0..7)]));
    assert_eq!(kinds("255.255.255.255"), vec![Token::Ip(Ip::V4(u32::MAX))]);
    assert_eq!(kinds("0.0.0.0"), vec![Token::Ip(Ip::V4(0))]);
    assert_eq!(Ip::v4(1, 2, 3, 4), Ip::V4(0x0102_0304));
}

#[test]
fn an_octet_above_255_or_with_a_leading_zero_is_no_address() {
    assert_eq!(lex("1.2.3.256"), Err(Error::AddrParseError));
    assert_eq!(lex("999.1.1.1"), Err(Error::AddrParseError));
    assert_eq!(lex("01.1.1.1"), Err(Error::AddrParseError));
    assert_eq!(lex("1.1.1.00"), Err(Error::AddrParseError));
    assert_eq!(lex("1.1.1.2567"), Err(Error::AddrParseError));
    assert_eq!(
        kinds("1.1.1.1234"),
        vec![Token::Ip(Ip::v4(1, 1, 1, 123)), Token::Number("4".into())]
    );
}

#[test]
fn networks_are_dotted_quads_with_a_prefix_length() {
    assert_eq!(
        lex("1.1.1.0/24"),
        Ok(vec![(Token::Cidr(Cidr::new(Ip::v4(1, 1, 1, 0), 24).unwrap()), 0..10)])
    );
    assert_eq!(
        kinds("0.0.0.0/0"),
        vec![Token::Cidr(Cidr::new(Ip::V4(0), 0).unwrap())]
    );
    assert_eq!(
        kinds("1.2.3.4/32"),
        vec![Token::Cidr(Cidr::new_host(Ip::v4(1, 2, 3, 4)))]
    );
    assert_eq!(
        kinds("010.0.0.0/08"),
        vec![Token::Cidr(Cidr::new(Ip::v4(10, 0, 0, 0), 8).unwrap())]
    );
    assert_eq!(
        kinds("10.0.0.0/245"),
        vec![
            Token::Cidr(Cidr::new(Ip::v4(10, 0, 0, 0), 24).unwrap()),
            Token::Number("5".into()),
        ]
    );
}

#[test]
fn a_network_is_read_in_full_not_by_its_first_digits() {
    match &kinds("192.168.1.128/25")[..] {
        [Token::Cidr(network)] => {
            assert_eq!(network.first_address(), Ip::V4(0xc0a8_0180));
            assert_eq!(network.network_length(), 25);
            assert!(network.contains(&Ip::v4(192, 168, 1, 200)));
            assert!(!network.contains(&Ip::v4(192, 168, 1, 100)));
        }
        other => panic!("{other:?}"),
    }
}

#[test]
fn a_network_with_host_bits_or_a_long_prefix_is_refused() {
    assert_eq!(lex("1.1.1.1/24"), Err(Error::NetworkParseError));
    assert_eq!(lex("1.1.1.0/33"), Err(Error::NetworkParseError));
    assert_eq!(lex("1.1.1.0/99"), Err(Error::NetworkParseError));
    assert_eq!(lex("1.1.1.256/24"), Err(Error::NetworkParseError));
    assert_eq!(lex("1.1.1.1/"), Err(Error::BadSyntax));
}

#[test]
fn strings_end_at_the_same_quote_and_keep_their_escapes() {
    assert_eq!(kinds("'a\"b'"), vec![Token::String("a\"b".into())]);
    assert_eq!(kinds("\"it's\""), vec![Token::String("it's".into())]);
    assert_eq!(kinds(r"'a\'b'"), vec![Token::String(r"a\'b".into())]);
    assert_eq!(kinds(r"'a\\'"), vec![Token::String(r"a\\".into())]);
    assert_eq!(kinds("''"), vec![Token::String("".into())]);
}

#[test]
fn a_string_or_regex_that_is_not_closed_is_unfinished() {
    assert_eq!(lex("'abc"), Err(Error::Unfinished));
    assert_eq!(lex("\"abc'"), Err(Error::Unfinished));
    assert_eq!(lex(r"'abc\'"), Err(Error::Unfinished));
    assert_eq!(lex(r"'abc\"), Err(Error::Unfinished));
    assert_eq!(lex("m/abc"), Err(Error::Unfinished));
    assert_eq!(lex(r"m\abc\"), Err(Error::Unfinished));
}

#[test]
fn regexes_take_any_delimiter() {
    for text in ["m/f../", "m#f..#", "m(f..(", "m'f..'", "m=f..="] {
        match &kinds(text)[..] {
            [Token::Regex(pattern)] => assert_eq!(pattern.as_str(), "f.."),
            other => panic!("{other:?}"),
        }
    }
    match &kinds(r"m/a\/b/")[..] {
        [Token::Regex(pattern)] => assert_eq!(pattern.as_str(), r"a\/b"),
        other => panic!("{other:?}"),
    }
    assert_eq!(kinds("m"), vec![Token::Identifier("m".into())]);
    assert_eq!(
        kinds("m a"),
        vec![
            Token::Identifier("m".into()),
            Token::Space(" ".into()),
            Token::Identifier("a".into()),
        ]
    );
    assert_eq!(kinds("mx"), vec![Token::Identifier("mx".into())]);
}

#[test]
fn letters_after_a_regex_are_a_token_of_their_own() {
    let tokens = kinds("m/a/and");
    assert_eq!(tokens.len(), 2);
    assert_eq!(tokens[1], Token::Identifier("and".into()));
}

#[test]
fn a_pattern_that_the_engine_refuses_is_a_regex_error() {
    assert!(matches!(lex("m/(/"), Err(Error::Regex(_))));
    assert!(matches!(lex("m/a{2,1}/"), Err(Error::Regex(_))));
}

#[test]
fn the_first_fault_wins() {
    assert_eq!(lex("'abc' ? 1.1.1.999"), Err(Error::BadSyntax));
    assert_eq!(lex("1.1.1.999 ?"), Err(Error::AddrParseError));
}

#[test]
fn spans_count_bytes_and_tile_the_text() {
    let text = "a == 'héllo wörld' and ip in 10.0.0.0/8 ~ m/é+/ 1w2d";
    let tokens = lex(text).unwrap();
    let mut at = 0;
    for (_, span) in &tokens {
        assert_eq!(span.start, at);
        assert!(span.start < span.end);
        assert!(text.is_char_boundary(span.end));
        at = span.end;
    }
    assert_eq!(at, text.len());
    let joined: String = tokens.iter().map(|(_, span)| &text[span.clone()]).collect();
    assert_eq!(joined, text);
    assert_eq!(tokens[4], (Token::String("héllo wörld".into()), 5..20));
}

#[test]
fn the_empty_text_has_no_tokens() {
    assert_eq!(lex(""), Ok(vec![]));
}

#[test]
fn the_default_error_is_bad_syntax() {
    assert_eq!(Error::default(), Error::BadSyntax);
}
