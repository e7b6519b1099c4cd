use filterdsl::emit::serialize;
use filterdsl::grammar::Filter;
use filterdsl::grammar::parse;
use filterdsl::lexer::Span;
use filterdsl::lexer::Token;
use filterdsl::lexer::TokenStream;
use filterdsl::lexer::tokenize;

#[test]
fn tokenize_tags_spans() {
    let toks = tokenize(br#"a = "x""#).unwrap();
    assert_eq!(toks.len(), 3);
    assert!(matches!(&toks[0].0, Token::Ident(v) if v == b"a"));
    assert_eq!((toks[0].1.start, toks[0].1.end), (0, 1));
    assert!(matches!(&toks[1].0, Token::OpEq));
    assert_eq!((toks[1].1.start, toks[1].1.end), (2, 3));
    assert!(matches!(&toks[2].0, Token::StrLit(v) if v == b"x"));
    assert_eq!((toks[2].1.start, toks[2].1.end), (4, 7));
}

#[test]
fn tokenize_reports_first_error_span() {
    let sp = tokenize(br#"a = ?"#).unwrap_err();
    assert_eq!((sp.start, sp.end), (4, 5));
}

#[test]
fn stream_cursor_and_locations() {
    let src: &[u8] = br#"a = "x""#;
    let tokens = tokenize(src).unwrap();
    let st = TokenStream { size: src.len(), tokens };
    assert_eq!(st.start(), 0);
    assert!(!st.is_eof(2));
    assert!(st.is_eof(3));
    let loc = st.position_repr(2);
    assert_eq!((loc.0, loc.1), (4, 7));
    let end = st.position_repr(3);
    assert_eq!((end.0, end.1), (7, 7));
    assert!(matches!(st.parse_elem(1), Some(Token::OpEq)));
    assert!(st.parse_elem(3).is_none());
    let window = st.parse_slice(1, 3);
    assert_eq!(window.len(), 2);
    assert!(matches!(window[0], Token::OpEq));
    assert!(matches!(window[1], Token::StrLit(_)));
}

#[test]
fn parse_builds_desugared_tree() {
    let src: &[u8] = br#"a != "x""#;
    let tokens = tokenize(src).unwrap();
    let st = TokenStream { size: src.len(), tokens };
    let tree = parse(&st).unwrap();
    match tree {
        Filter::Not(inner) => match *inner {
            Filter::FieldEq { field, value } => {
                assert_eq!(field, b"a");
                assert_eq!(value, b"x");
            },
            _ => panic!("expected an equality under the negation"),
        },
        _ => panic!("expected a negation at the root"),
    }
}

#[test]
fn parse_rejects_with_position() {
    let src: &[u8] = br#"a = "x" OR"#;
    let tokens = tokenize(src).unwrap();
    let st = TokenStream { size: src.len(), tokens };
    let e = parse(&st).unwrap_err();
    assert_eq!(e.at, 4);
}

#[test]
fn serialize_is_stable() {
    let tree = Filter::FieldIn {
        field: b"a".to_vec(),
        values: vec![b"x".to_vec(), b"y".to_vec()],
    };
    let once = serialize(&tree);
    let twice = serialize(&tree);
    assert_eq!(once, twice);
    assert_eq!(
        String::from_utf8(once).unwrap(),
        r#"{"$in":{"field":"a","values":["x","y"]}}"#
    );
}

#[test]
fn serialize_escapes_controls_and_quotes() {
    let tree = Filter::FieldEq { field: b"a".to_vec(), value: vec![34, 92, 10, 9, 1, 31, 65] };
    assert_eq!(
        String::from_utf8(serialize(&tree)).unwrap(),
        "{\"$eq\":{\"field\":\"a\",\"value\":\"\\\"\\\\\\n\\t\\u0001\\u001fA\"}}"
    );
}

#[test]
fn end_of_input_span_uses_stored_size() {
    let st = TokenStream { size: 9, tokens: Vec::new() };
    let loc = st.position_repr(0);
    assert_eq!((loc.0, loc.1), (9, 9));
}

#[test]
fn spans_are_plain_byte_ranges() {
    let sp = Span { start: 2, end: 5 };
    assert_eq!((sp.start, sp.end), (2, 5));
    assert_eq!(sp, Span { start: 2, end: 5 });
}
