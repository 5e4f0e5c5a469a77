use interact::lexer::{parse_to_tokens, TokenError};
use interact::{Deser, DeserError, ExpectTree, Token, TokenKind, TokenVec, Tracker};

fn kinds(s: &str) -> Vec<TokenKind> {
    parse_to_tokens(s)
        .expect("tokenizing should succeed")
        .into_iter()
        .map(|t| t.kind)
        .collect()
}

#[test]
fn tokenize_fields_and_brackets() {
    let toks = parse_to_tokens("a.b[3]").unwrap();
    assert_eq!(toks.len(), 6);
    assert!(matches!(toks[0].kind, TokenKind::Ident));
    assert_eq!(toks[0].text, "a");
    assert!(matches!(toks[1].kind, TokenKind::FieldAccess));
    assert!(matches!(toks[2].kind, TokenKind::Ident));
    assert_eq!(toks[2].text, "b");
    assert!(matches!(toks[3].kind, TokenKind::SubscriptOpen));
    assert!(matches!(toks[4].kind, TokenKind::NonNegativeDecimal(3)));
    assert!(matches!(toks[5].kind, TokenKind::SubscriptClose));
}

#[test]
fn tokenize_whitespace_offsets() {
    let toks = parse_to_tokens("ab  = 12").unwrap();
    assert_eq!(toks[0].space_diff, 0);
    assert_eq!(toks[1].space_diff, 2);
    assert_eq!(toks[2].space_diff, 1);
    assert!(matches!(toks[2].kind, TokenKind::NonNegativeDecimal(12)));
}

#[test]
fn tokenize_signed_and_ranges() {
    let toks = parse_to_tokens("-42 .. ..= . * , : { } ( )").unwrap();
    assert!(matches!(toks[0].kind, TokenKind::Decimal(-42)));
    assert!(matches!(toks[1].kind, TokenKind::Range(false)));
    assert!(matches!(toks[2].kind, TokenKind::Range(true)));
    assert!(matches!(toks[3].kind, TokenKind::FieldAccess));
    assert!(matches!(toks[4].kind, TokenKind::Asterix));
    assert!(matches!(toks[5].kind, TokenKind::Comma));
    assert!(matches!(toks[6].kind, TokenKind::Colon));
    assert!(matches!(toks[7].kind, TokenKind::CurlyOpen));
    assert!(matches!(toks[8].kind, TokenKind::CurlyClose));
    assert!(matches!(toks[9].kind, TokenKind::TupleOpen));
    assert!(matches!(toks[10].kind, TokenKind::TupleClose));
}

#[test]
fn tokenize_literals() {
    let toks = parse_to_tokens("\"a\\nb\" 'q' '\\\\'").unwrap();
    match &toks[0].kind {
        TokenKind::Str(s) => assert_eq!(s, "a\nb"),
        other => panic!("expected a string literal, got {:?}", other),
    }
    assert!(matches!(toks[1].kind, TokenKind::Char('q')));
    assert!(matches!(toks[2].kind, TokenKind::Char('\\')));
}

#[test]
fn tokenize_overflow_is_an_error() {
    assert!(matches!(
        parse_to_tokens("100000000000000000001"),
        Err(TokenError::IntError)
    ));
    assert!(matches!(
        parse_to_tokens("-100000000000000000001"),
        Err(TokenError::IntError)
    ));
}

#[test]
fn tokenize_invalid_stops() {
    let toks = parse_to_tokens("ab %rest ignored").unwrap();
    assert_eq!(toks.len(), 2);
    assert!(matches!(toks[0].kind, TokenKind::Ident));
    assert!(matches!(toks[1].kind, TokenKind::InvalidToken));
}

#[test]
fn tokenize_boundary_values() {
    assert_eq!(
        kinds("18446744073709551615"),
        vec![TokenKind::NonNegativeDecimal(u64::MAX)]
    );
    assert_eq!(
        kinds("-9223372036854775808"),
        vec![TokenKind::Decimal(i64::MIN)]
    );
}

fn tracker_for(s: &str) -> Tracker {
    let toks = parse_to_tokens(s).unwrap();
    Tracker::new(ExpectTree::new(), TokenVec::new(toks))
}

#[test]
fn deser_widths_are_enforced() {
    let mut t = tracker_for("256");
    assert!(matches!(u8::deser(&mut t), Err(DeserError::NumberTooLarge)));

    let mut t = tracker_for("255");
    assert_eq!(u8::deser(&mut t).unwrap(), 255);

    let mut t = tracker_for("-1");
    assert!(matches!(u16::deser(&mut t), Err(DeserError::NumberTooSmall)));

    let mut t = tracker_for("70000");
    assert!(matches!(u16::deser(&mut t), Err(DeserError::NumberTooLarge)));

    // The range check is exact: the carrier's largest value is accepted
    // in either literal form, one above it is not.
    let mut t = tracker_for("127");
    assert_eq!(i8::deser(&mut t).unwrap(), 127);
    let mut t = tracker_for("128");
    assert!(matches!(i8::deser(&mut t), Err(DeserError::NumberTooLarge)));
    let mut t = tracker_for("-128");
    assert_eq!(i8::deser(&mut t).unwrap(), -128);
    let mut t = tracker_for("-129");
    assert!(matches!(i8::deser(&mut t), Err(DeserError::NumberTooSmall)));

    let mut t = tracker_for("");
    assert!(matches!(u8::deser(&mut t), Err(DeserError::EndOfTokenList)));

    let mut t = tracker_for("x");
    assert!(matches!(u8::deser(&mut t), Err(DeserError::UnexpectedToken)));
}

#[test]
fn deser_bool_and_literals() {
    let mut t = tracker_for("true");
    assert_eq!(bool::deser(&mut t).unwrap(), true);
    let mut t = tracker_for("false");
    assert_eq!(bool::deser(&mut t).unwrap(), false);
    let mut t = tracker_for("maybe");
    assert!(matches!(bool::deser(&mut t), Err(DeserError::UnexpectedToken)));

    let mut t = tracker_for("\"hi\"");
    assert_eq!(String::deser(&mut t).unwrap(), "hi");
    let mut t = tracker_for("'c'");
    assert_eq!(char::deser(&mut t).unwrap(), 'c');
}

#[test]
fn try_token_records_expectations() {
    let toks = parse_to_tokens("tr").unwrap();
    let mut t = Tracker::new(ExpectTree::new(), TokenVec::new(toks));
    // "tr" is a prefix of "true": the candidate is recorded, not consumed.
    let cand = Token::new_borrowed(TokenKind::Ident, "true");
    assert_eq!(t.try_token(&cand).unwrap(), false);
    let (expect, tokenvec) = t.dismantle();
    assert_eq!(tokenvec.pos(), 0);
    let flats = expect.into_flatten();
    assert_eq!(flats.len(), 1);
    assert_eq!(flats[0][0].text, "true");
}

#[test]
fn token_similar_and_prefix() {
    let a = Token::new_borrowed(TokenKind::Ident, "ab");
    let b = Token::new_borrowed(TokenKind::Ident, "abc");
    assert!(a.is_prefix_of(&b));
    assert!(!b.is_prefix_of(&a));
    assert!(!a.similar(&b));
    let c = Token::new_borrowed(TokenKind::Ident, "ab");
    assert!(a.similar(&c));
    let d = Token::new_borrowed(TokenKind::Comma, "ab");
    assert!(!a.similar(&d));
}

#[test]
fn expr_parser_entry_point() {
    let toks = interact::ExprParser::parse("x.y").unwrap();
    assert_eq!(toks.len(), 3);
    assert!(interact::ExprParser::parse("99999999999999999999999").is_err());
}

#[test]
fn always_equal_ignores_contents() {
    let a = interact::AlwaysEqual(3u8);
    let b = interact::AlwaysEqual(250u8);
    assert!(a == b);
    assert!(!(a != b));
}
