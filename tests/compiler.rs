use cashier_query::ast::{OrderOperator, Query};
use cashier_query::escape::codec_render;
use cashier_query::{
    escape_quoted, escape_unquoted, escape_unquoted_with_converter, parse, Codec, Error, FieldConfig,
    QueryConfig,
};

fn registry() -> QueryConfig {
    QueryConfig::new()
        .field(FieldConfig::new("id")
            .wildcard()
            .partial_equal()
            .partial_order()
            .escape_handler(escape_unquoted::<i32>()))
        .field(FieldConfig::new("text")
            .wildcard()
            .rename("\"text\"")
            .use_like()
            .partial_equal())
}

#[test]
fn compiling_twice_gives_the_same_text() {
    let config = registry();
    let input = "id > 1 and (id < 1 id: 1) text: \"a b\"";
    let first = config.parse_to_postgres(input);
    let second = config.parse_to_postgres(input);
    assert_eq!(first, second);
    assert_eq!(
        first,
        Ok(Some("(((id > 1) AND ((id < 1) OR (id = 1))) OR (\"text\" ILIKE '%' || 'a b' || '%' ESCAPE '^'))".into()))
    );
}

#[test]
fn quotes_are_doubled_in_literals() {
    assert_eq!(FieldConfig::new("name").escape("a'b''c"), Ok("'a''b''''c'".into()));
    assert_eq!(FieldConfig::new("name").escape("'"), Ok("''''".into()));
    let config = QueryConfig::new().field(FieldConfig::new("name").partial_equal());
    assert_eq!(
        config.parse_to_postgres("name: \"x');DROP\""),
        Ok(Some("(name = 'x'');DROP')".into()))
    );
}

#[test]
fn quotes_are_doubled_in_substring_matches() {
    assert_eq!(
        registry().parse_to_postgres("it's"),
        Ok(Some("(\"text\" ILIKE '%' || 'it''s' || '%' ESCAPE '^')".into()))
    );
}

#[test]
fn pattern_characters_are_escaped() {
    assert_eq!(
        registry().parse_to_postgres("text: a^b_c%"),
        Ok(Some("(\"text\" ILIKE '%' || 'a^^b^_c^%' || '%' ESCAPE '^')".into()))
    );
}

#[test]
fn a_value_one_field_reads_goes_to_that_field() {
    let config = QueryConfig::new()
        .field(FieldConfig::new("id").wildcard().partial_equal().escape_handler(escape_unquoted::<i32>()))
        .field(FieldConfig::new("flag").wildcard().partial_equal().escape_handler(escape_unquoted::<bool>()));
    assert_eq!(config.parse_to_postgres("true"), Ok(Some("(flag = true)".into())));
    assert_eq!(config.parse_to_postgres("-7"), Ok(Some("(id = -7)".into())));
}

#[test]
fn a_value_no_field_reads_is_an_empty_wildcard() {
    let config = QueryConfig::new()
        .field(FieldConfig::new("id").wildcard().partial_equal().escape_handler(escape_unquoted::<i32>()));
    assert_eq!(
        config.parse_to_postgres("abc"),
        Err(Error::EmptyWildcardOperation { required_operation: "equal".into() })
    );
    assert_eq!(
        config.parse_to_postgres("* > 1"),
        Err(Error::EmptyWildcardOperation { required_operation: "order".into() })
    );
    assert_eq!(
        QueryConfig::new().parse_to_postgres("1"),
        Err(Error::EmptyWildcardOperation { required_operation: "equal".into() })
    );
}

#[test]
fn non_wildcard_fields_are_not_tried() {
    let config = QueryConfig::new()
        .field(FieldConfig::new("id").partial_equal().escape_handler(escape_unquoted::<i32>()))
        .field(FieldConfig::new("name").wildcard().partial_equal());
    assert_eq!(config.parse_to_postgres("1"), Ok(Some("(name = '1')".into())));
}

#[test]
fn unknown_field_is_rejected() {
    assert_eq!(
        registry().parse_to_postgres("ghost: 1"),
        Err(Error::UnknownField { field: "ghost".into() })
    );
    assert_eq!(
        registry().parse_to_postgres("id: 1 ghost < 2"),
        Err(Error::UnknownField { field: "ghost".into() })
    );
}

#[test]
fn order_needs_the_order_capability() {
    assert_eq!(
        registry().parse_to_postgres("text > 1"),
        Err(Error::UnsupportedOperation { field: "text".into(), required_operation: "order".into() })
    );
    let config = QueryConfig::new().field(FieldConfig::new("id").partial_order());
    assert_eq!(
        config.parse_to_postgres("id: 1"),
        Err(Error::UnsupportedOperation { field: "id".into(), required_operation: "equal".into() })
    );
}

#[test]
fn blank_input_gives_no_predicate() {
    assert_eq!(registry().parse_to_postgres("\n"), Ok(None));
    assert_eq!(registry().parse_to_postgres(""), Ok(None));
    assert_eq!(registry().parse_to_postgres(" \t\r\n "), Ok(None));
}

#[test]
fn explicit_and_binds_tighter_than_juxtaposition() {
    assert_eq!(
        registry().parse_to_postgres("id > 1 and id < 5 id: 9"),
        Ok(Some("(((id > 1) AND (id < 5)) OR (id = 9))".into()))
    );
    assert_eq!(
        registry().parse_to_postgres("id >= 1 and id <= 5"),
        Ok(Some("((id >= 1) AND (id <= 5))".into()))
    );
}

#[test]
fn negation_wraps_its_term() {
    assert_eq!(
        registry().parse_to_postgres("not id: 1"),
        Ok(Some("(NOT (id = 1))".into()))
    );
    assert_eq!(
        registry().parse_to_postgres("not (id: 1 id: 2)"),
        Ok(Some("(NOT ((id = 1) OR (id = 2)))".into()))
    );
}

#[test]
fn invalid_value_names_field_and_type() {
    assert_eq!(
        registry().parse_to_postgres("id: abc"),
        Err(Error::InvalidValue { field: "id".into(), accepted_type: "i32".into() })
    );
    let config = QueryConfig::new()
        .field(FieldConfig::new("n").partial_order().declared_type("number").escape_handler(escape_unquoted::<u64>()));
    assert_eq!(
        config.parse_to_postgres("n > 1.5"),
        Err(Error::InvalidValue { field: "n".into(), accepted_type: "number".into() })
    );
}

#[test]
fn syntax_errors_carry_the_byte_offset() {
    assert_eq!(registry().parse_to_postgres("(id: 1"), Err(Error::ParseError { pos: 6 }));
    assert_eq!(registry().parse_to_postgres("id: 1)"), Err(Error::ParseError { pos: 5 }));
    assert_eq!(registry().parse_to_postgres("(id: \u{e9}"), Err(Error::ParseError { pos: 7 }));
    assert_eq!(registry().parse_to_postgres("id:"), Err(Error::ParseError { pos: 3 }));
    assert_eq!(registry().parse_to_postgres("()"), Err(Error::ParseError { pos: 1 }));
}

#[test]
fn later_registration_replaces_earlier() {
    let config = registry().field(FieldConfig::new("id").partial_equal());
    assert_eq!(
        config.parse_to_postgres("id > 1"),
        Err(Error::UnsupportedOperation { field: "id".into(), required_operation: "order".into() })
    );
    assert_eq!(config.parse_to_postgres("id: 1"), Ok(Some("(id = '1')".into())));
}

#[test]
fn empty_lists_compile_to_constants() {
    let config = registry();
    assert_eq!(config.query_to_postgres(&Query::Or { queries: vec![] }), Ok("(TRUE)".into()));
    assert_eq!(config.query_to_postgres(&Query::And { queries: vec![] }), Ok("(FALSE)".into()));
    let single = Query::Order { field: Some("id".into()), operator: OrderOperator::Gte, value: "3".into() };
    assert_eq!(config.query_to_postgres(&single), Ok("(id >= 3)".into()));
}

#[test]
fn quoted_values_keep_spaces_and_escapes() {
    assert_eq!(
        parse("text: \"a \\\"b\\\" c\""),
        Ok(Some(Query::Equal { field: Some("text".into()), value: "a \"b\" c".into() }))
    );
    assert_eq!(
        parse("*: x"),
        Ok(Some(Query::Equal { field: None, value: "x".into() }))
    );
    assert_eq!(parse("\"open"), Err(Error::ParseError { pos: 0 }));
}

#[test]
fn integers_are_written_canonically() {
    let i32_field = FieldConfig::new("").escape_handler(escape_unquoted::<i32>());
    assert_eq!(i32_field.escape("+5"), Ok("5".into()));
    assert_eq!(i32_field.escape("007"), Ok("7".into()));
    assert_eq!(i32_field.escape("-0"), Ok("0".into()));
    assert_eq!(i32_field.escape("-2147483648"), Ok("-2147483648".into()));
    assert!(i32_field.escape("2147483648").is_err());
    assert!(i32_field.escape("+").is_err());
    assert!(i32_field.escape("").is_err());
    assert!(i32_field.escape("1 ").is_err());
    let u64_field = FieldConfig::new("").escape_handler(escape_unquoted::<u64>());
    assert_eq!(u64_field.escape("18446744073709551615"), Ok("18446744073709551615".into()));
    assert_eq!(
        u64_field.escape("18446744073709551616"),
        Err(Error::InvalidValue { field: "".into(), accepted_type: "u64".into() })
    );
    let i64_field = FieldConfig::new("").escape_handler(escape_unquoted_with_converter(Codec::I64));
    assert_eq!(i64_field.escape("-9223372036854775808"), Ok("-9223372036854775808".into()));
    assert!(i64_field.escape("-9223372036854775809").is_err());
    let quoted = FieldConfig::new("").escape_handler(escape_quoted::<u32>());
    assert_eq!(quoted.escape("0042"), Ok("'42'".into()));
}

#[test]
fn booleans_read_only_true_and_false() {
    let field = FieldConfig::new("b").escape_handler(escape_unquoted::<bool>());
    assert_eq!(field.escape("true"), Ok("true".into()));
    assert_eq!(field.escape("false"), Ok("false".into()));
    assert_eq!(
        field.escape("True"),
        Err(Error::InvalidValue { field: "b".into(), accepted_type: "bool".into() })
    );
}

#[test]
fn timestamps_are_written_in_utc() {
    let field = FieldConfig::new("at").escape_handler(cashier_query::escape_quoted_with_converter(Codec::Timestamp));
    assert_eq!(field.escape("2014-11-28T21:00:09+09:00"), Ok("'2014-11-28T12:00:09+00:00'".into()));
    assert_eq!(field.escape("2014-11-28T12:00:09.5Z"), Ok("'2014-11-28T12:00:09.500+00:00'".into()));
}

#[test]
fn quote_literal_doubles_quotes() {
    assert_eq!(cashier_query::escape::quote_literal("it's"), "'it''s'");
    assert_eq!(cashier_query::escape::quote_literal(""), "''");
}

#[test]
fn codecs_write_their_own_form() {
    assert_eq!(codec_render(Codec::I32, "+12"), Some("12".to_string()));
    assert_eq!(codec_render(Codec::U32, "-1"), None);
    assert_eq!(codec_render(Codec::Text, "a'b"), Some("a'b".to_string()));
    assert_eq!(codec_render(Codec::Timestamp, "not a date"), None);
    assert_eq!(
        codec_render(Codec::Timestamp, "2020-02-29 23:59:59-01:00"),
        Some("2020-03-01T00:59:59+00:00".to_string())
    );
}

#[test]
fn bare_words_and_keywords() {
    assert_eq!(
        parse("a and b"),
        Ok(Some(Query::And { queries: vec![
            Query::Equal { field: None, value: "a".into() },
            Query::Equal { field: None, value: "b".into() },
        ] }))
    );
    assert_eq!(
        parse("a b"),
        Ok(Some(Query::Or { queries: vec![
            Query::Equal { field: None, value: "a".into() },
            Query::Equal { field: None, value: "b".into() },
        ] }))
    );
    assert_eq!(parse("nothing"), Ok(Some(Query::Equal { field: None, value: "nothing".into() })));
    assert_eq!(
        parse("x<=2"),
        Ok(Some(Query::Order { field: Some("x".into()), operator: OrderOperator::Lte, value: "2".into() }))
    );
}
