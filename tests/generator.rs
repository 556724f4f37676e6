use cashier_query::config::FieldConfig;
use cashier_query::error::Error;
use cashier_query::escape::{escape_quoted_with_converter, escape_unquoted, Codec};
use cashier_query::generator::QueryConfig;

#[test]
pub fn escape_to_string_test() {
    assert_eq!(
        FieldConfig::new("").escape("abc'inject"),
        Ok("'abc''inject'".into()));
}

#[test]
pub fn escape_to_chrono_test() {
    assert_eq!(
        FieldConfig::new("")
            .escape_handler(escape_quoted_with_converter(Codec::Timestamp))
            .escape("2014-11-28T12:00:09Z"),
        Ok("'2014-11-28T12:00:09+00:00'".into()));
    assert_eq!(
        FieldConfig::new("a")
            .escape_handler(escape_quoted_with_converter(Codec::Timestamp))
            .declared_type("DateTime")
            .escape("abc"),
        Err(Error::InvalidValue {
            field: "a".into(),
            accepted_type: "DateTime".into(),
        }));
}

#[test]
pub fn escape_to_number_test() {
    assert_eq!(
        FieldConfig::new("")
            .escape_handler(escape_unquoted::<i32>())
            .escape("-1"),
        Ok("-1".into()));
    assert_eq!(
        FieldConfig::new("")
            .escape_handler(escape_unquoted::<u32>())
            .escape("-1"),
        Err(Error::InvalidValue {
            field: "".into(),
            accepted_type: "u32".into(),
        }));
}

#[test]
pub fn generator_test1() {
    let generator = QueryConfig::new()
        .field(FieldConfig::new("id")
            .wildcard()
            .partial_equal()
            .partial_order()
            .escape_handler(escape_unquoted::<i32>())
        )
        .field(FieldConfig::new("text")
            .wildcard()
            .rename("\"text\"")
            .use_like()
            .partial_equal()
        );
    assert_eq!(
        generator.parse_to_postgres("id > 1 and (id < 1 id: 1)"),
        Ok(Some("((id > 1) AND ((id < 1) OR (id = 1)))".into()))
    );
    assert_eq!(
        generator.parse_to_postgres("\n"),
        Ok(None)
    );
    assert_eq!(
        generator.parse_to_postgres("* > 2"),
        Ok(Some("(id > 2)".into()))
    );
    let result = generator.parse_to_postgres("1");
    assert!(
        result == Ok(Some("(id = 1 OR \"text\" ILIKE '%' || '1' || '%' ESCAPE '^')".into()))
        || result == Ok(Some("(\"text\" ILIKE '%' || '1' || '%' ESCAPE '^' OR id = 1)".into()))
    );
    assert_eq!(
        generator.parse_to_postgres("ab%c"),
        Ok(Some("(\"text\" ILIKE '%' || 'ab^%c' || '%' ESCAPE '^')".into()))
    );
}
