use filterdsl::compile;

fn ok(src: &[u8]) -> String {
    match compile(src) {
        Ok(v) => String::from_utf8(v).unwrap(),
        Err(m) => panic!("expected success, got error: {}", String::from_utf8_lossy(&m)),
    }
}

fn err(src: &[u8]) -> String {
    match compile(src) {
        Ok(v) => panic!("expected an error, got: {}", String::from_utf8_lossy(&v)),
        Err(m) => String::from_utf8(m).unwrap(),
    }
}

#[test]
fn eq_atom() {
    assert_eq!(ok(br#"a = "x""#), r#"{"$eq":{"field":"a","value":"x"}}"#);
}

#[test]
fn ne_desugars_to_not_eq() {
    assert_eq!(ok(br#"a != "x""#), r#"{"$not":{"$eq":{"field":"a","value":"x"}}}"#);
}

#[test]
fn in_list() {
    assert_eq!(
        ok(br#"a IN ["x","y"]"#),
        r#"{"$in":{"field":"a","values":["x","y"]}}"#
    );
}

#[test]
fn not_in_desugars_to_not_in() {
    assert_eq!(
        ok(br#"a NOT IN ["x"]"#),
        r#"{"$not":{"$in":{"field":"a","values":["x"]}}}"#
    );
}

#[test]
fn precedence_and_binds_tighter_than_or() {
    assert_eq!(
        ok(br#"a = "1" AND b = "2" OR c = "3""#),
        r#"{"$or":[{"$and":[{"$eq":{"field":"a","value":"1"}},{"$eq":{"field":"b","value":"2"}}]},{"$eq":{"field":"c","value":"3"}}]}"#
    );
}

#[test]
fn parentheses_change_grouping() {
    assert_eq!(
        ok(br#"a = "1" AND (b = "2" OR c = "3")"#),
        r#"{"$and":[{"$eq":{"field":"a","value":"1"}},{"$or":[{"$eq":{"field":"b","value":"2"}},{"$eq":{"field":"c","value":"3"}}]}]}"#
    );
}

#[test]
fn not_binds_to_single_atom() {
    assert_eq!(
        ok(br#"NOT a = "1" AND b = "2""#),
        r#"{"$and":[{"$not":{"$eq":{"field":"a","value":"1"}}},{"$eq":{"field":"b","value":"2"}}]}"#
    );
}

#[test]
fn or_chain_is_left_associative() {
    assert_eq!(
        ok(br#"a = "1" OR b = "2" OR c = "3""#),
        r#"{"$or":[{"$or":[{"$eq":{"field":"a","value":"1"}},{"$eq":{"field":"b","value":"2"}}]},{"$eq":{"field":"c","value":"3"}}]}"#
    );
}

#[test]
fn and_chain_is_left_associative() {
    assert_eq!(
        ok(br#"a = "1" AND b = "2" AND c = "3""#),
        r#"{"$and":[{"$and":[{"$eq":{"field":"a","value":"1"}},{"$eq":{"field":"b","value":"2"}}]},{"$eq":{"field":"c","value":"3"}}]}"#
    );
}

#[test]
fn double_not() {
    assert_eq!(
        ok(br#"NOT NOT a = "x""#),
        r#"{"$not":{"$not":{"$eq":{"field":"a","value":"x"}}}}"#
    );
}

#[test]
fn empty_in_list() {
    assert_eq!(ok(br#"a IN []"#), r#"{"$in":{"field":"a","values":[]}}"#);
}

#[test]
fn keywords_are_case_insensitive() {
    assert_eq!(
        ok(br#"a = "1" and b = "2" Or not c In ["3"]"#),
        r#"{"$or":[{"$and":[{"$eq":{"field":"a","value":"1"}},{"$eq":{"field":"b","value":"2"}}]},{"$not":{"$in":{"field":"c","values":["3"]}}}]}"#
    );
}

#[test]
fn keyword_prefixed_word_is_a_field() {
    assert_eq!(ok(br#"andx = "1""#), r#"{"$eq":{"field":"andx","value":"1"}}"#);
    assert_eq!(ok(br#"nota = "1""#), r#"{"$eq":{"field":"nota","value":"1"}}"#);
}

#[test]
fn single_quoted_field_name() {
    assert_eq!(ok(br#"'a b' = "x""#), r#"{"$eq":{"field":"a b","value":"x"}}"#);
}

#[test]
fn escapes_are_resolved_then_reescaped() {
    // The source carries `\n` inside the quoted value; the unescaped value
    // holds a line feed, which the canonical text escapes again.
    assert_eq!(ok(b"a = \"x\\ny\""), "{\"$eq\":{\"field\":\"a\",\"value\":\"x\\ny\"}}");
}

#[test]
fn escaped_quote_in_value() {
    assert_eq!(ok(b"a = \"x\\\"y\""), "{\"$eq\":{\"field\":\"a\",\"value\":\"x\\\"y\"}}");
}

#[test]
fn compile_is_deterministic() {
    let src: &[u8] = br#"a = "1" AND (b = "2" OR NOT c NOT IN ["3","4"])"#;
    assert_eq!(compile(src), compile(src));
    let bad: &[u8] = br#"a = "1" %"#;
    assert_eq!(compile(bad), compile(bad));
}

#[test]
fn unterminated_string_is_an_error_with_fragment() {
    let m = err(br#"a = "x"#);
    assert_eq!(m, "syntax error: \"x");
}

#[test]
fn stray_character_is_an_error_with_fragment() {
    let m = err(br#"a = %"x""#);
    assert_eq!(m, "syntax error: %");
}

#[test]
fn lone_bang_is_an_error() {
    assert_eq!(err(br#"a ! "x""#), "syntax error: !");
}

#[test]
fn carriage_return_is_not_whitespace() {
    assert_eq!(err(b"a = \"x\"\r"), "syntax error: \r");
}

#[test]
fn unknown_escape_is_an_error_with_fragment() {
    assert_eq!(err(b"a = \"\\q\""), "syntax error: \"\\q\"");
}

#[test]
fn unbalanced_bracket_is_an_error() {
    let m = err(br#"a IN ["x""#);
    assert_eq!(m, "unexpected token: , expected , or ]");
}

#[test]
fn unbalanced_paren_is_an_error() {
    let m = err(br#"(a = "x""#);
    assert_eq!(m, "unexpected token: , expected )");
}

#[test]
fn missing_value_is_an_error() {
    assert_eq!(err(br#"a = b"#), "unexpected token: b, expected a string value");
}

#[test]
fn missing_operator_is_an_error() {
    assert_eq!(err(br#"a b"#), "unexpected token: b, expected =, !=, IN or NOT IN");
}

#[test]
fn field_not_without_in_is_an_error() {
    assert_eq!(err(br#"a NOT b"#), "unexpected token: b, expected IN");
}

#[test]
fn in_without_bracket_is_an_error() {
    assert_eq!(err(br#"a IN "x""#), "unexpected token: \"x\", expected [");
}

#[test]
fn identifier_in_list_is_an_error() {
    assert_eq!(err(br#"a IN [x]"#), "unexpected token: x, expected a string value or ]");
}

#[test]
fn missing_separator_in_list_is_an_error() {
    assert_eq!(err(br#"a IN ["x" "y"]"#), "unexpected token: \"y\", expected , or ]");
}

#[test]
fn trailing_tokens_are_an_error() {
    assert_eq!(
        err(br#"a = "x" b = "y""#),
        "unexpected token: b, expected AND, OR or end of input"
    );
}

#[test]
fn leading_operator_is_an_error() {
    assert_eq!(err(br#"AND a = "x""#), "unexpected token: AND, expected a field, NOT or (");
}

#[test]
fn empty_input_is_an_error() {
    assert_eq!(err(b""), "unexpected token: , expected a field, NOT or (");
}

#[test]
fn error_never_yields_a_tree() {
    // A malformed input gives an error result, not a partial or default tree.
    assert!(compile(br#"a = "x" AND"#).is_err());
    assert!(compile(br#"a IN ["#).is_err());
    assert!(compile(br#"("#).is_err());
}

#[test]
fn single_quoted_literal_is_not_a_value() {
    // Single quotes make a field name, so it cannot stand where a
    // double-quoted string value is required.
    assert_eq!(err(br#"a = 'x'"#), "unexpected token: 'x', expected a string value");
}
