use migrasquiel::dialect::SqlDialect;
use migrasquiel::dialects::mysql::MysqlDialect;
use migrasquiel::dialects::postgres::PostgresDialect;
use migrasquiel::sql_escape::{escape_identifier, escape_string, generate_insert_statement,
    sql_literal_from_value};
use migrasquiel::value::{FloatLit, SqlValue};

#[test]
fn mysql_quotes_identifiers() {
    assert_eq!(MysqlDialect.quote_identifier("users"), "`users`");
    assert_eq!(MysqlDialect.quote_identifier("user`table"), "`user``table`");
}

#[test]
fn escapes_strings() {
    assert_eq!(
        MysqlDialect.to_literal(&SqlValue::Text("O'Reilly".into())),
        "'O''Reilly'"
    );
}

#[test]
fn postgres_quotes_identifiers() {
    assert_eq!(PostgresDialect.quote_identifier("users"), "\"users\"");
    assert_eq!(
        PostgresDialect.quote_identifier("user\"table"),
        "\"user\"\"table\""
    );
}

#[test]
fn test_escape_string() {
    let bytes = b"Hello 'World'";
    assert_eq!(escape_string(bytes), "'Hello ''World'''");

    let bytes = b"Line1\nLine2";
    assert_eq!(escape_string(bytes), "'Line1\\nLine2'");
}

#[test]
fn test_escape_identifier() {
    assert_eq!(escape_identifier("my_table"), "`my_table`");
    assert_eq!(escape_identifier("my`table"), "`my``table`");
}

#[test]
fn test_sql_literal_null() {
    assert_eq!(sql_literal_from_value(&SqlValue::Null), "NULL");
}

#[test]
fn test_sql_literal_int() {
    assert_eq!(sql_literal_from_value(&SqlValue::Int(42)), "42");
    assert_eq!(sql_literal_from_value(&SqlValue::Int(-42)), "-42");
}

#[test]
fn test_sql_literal_string() {
    let bytes = SqlValue::Bytes(b"hello".to_vec());
    assert_eq!(sql_literal_from_value(&bytes), "'hello'");
}

#[test]
fn mysql_scalar_literals() {
    assert_eq!(MysqlDialect.to_literal(&SqlValue::Null), "NULL");
    assert_eq!(MysqlDialect.to_literal(&SqlValue::Bool(true)), "TRUE");
    assert_eq!(MysqlDialect.to_literal(&SqlValue::Bool(false)), "FALSE");
    assert_eq!(MysqlDialect.to_literal(&SqlValue::Int(i64::MIN)), "-9223372036854775808");
    assert_eq!(
        MysqlDialect.to_literal(&SqlValue::Decimal("12345.678900".into())),
        "12345.678900"
    );
}

#[test]
fn mysql_float_literals() {
    assert_eq!(
        MysqlDialect.to_literal(&SqlValue::Float(FloatLit::Finite("1.5".into()))),
        "1.5"
    );
    assert_eq!(MysqlDialect.to_literal(&SqlValue::Float(FloatLit::NaN)), "'NaN'");
    assert_eq!(
        MysqlDialect.to_literal(&SqlValue::Float(FloatLit::Infinity)),
        "'Infinity'"
    );
    assert_eq!(
        MysqlDialect.to_literal(&SqlValue::Float(FloatLit::NegInfinity)),
        "'-Infinity'"
    );
}

#[test]
fn postgres_float_literals() {
    assert_eq!(
        PostgresDialect.to_literal(&SqlValue::Float(FloatLit::NaN)),
        "'NaN'::float8"
    );
    assert_eq!(
        PostgresDialect.to_literal(&SqlValue::Float(FloatLit::NegInfinity)),
        "'-Infinity'::float8"
    );
    assert_eq!(
        PostgresDialect.to_literal(&SqlValue::Float(FloatLit::Finite("0.25".into()))),
        "0.25"
    );
}

#[test]
fn invalid_utf8_bytes_render_as_hex_literal() {
    // 0xFF 0xFE is not valid UTF-8, so it must never render as a quoted
    // string.
    let v = SqlValue::Bytes(vec![0xFF, 0xFE]);
    assert_eq!(MysqlDialect.to_literal(&v), "0xfffe");
    assert_eq!(PostgresDialect.to_literal(&v), "'\\\\xfffe'::bytea");
    assert_eq!(sql_literal_from_value(&v), "0xfffe");
}

#[test]
fn unprintable_bytes_render_as_hex_literal() {
    // Valid UTF-8 but under 90% printable bytes: still a hex literal.
    let v = SqlValue::Bytes(vec![0x01, 0x02, 0x03]);
    assert_eq!(MysqlDialect.to_literal(&v), "0x010203");
}

#[test]
fn printable_bytes_render_as_quoted_string() {
    assert_eq!(MysqlDialect.to_literal(&SqlValue::Bytes(b"abc".to_vec())), "'abc'");
    assert_eq!(MysqlDialect.to_literal(&SqlValue::Bytes(Vec::new())), "''");
}

#[test]
fn postgres_bytes_always_hex() {
    assert_eq!(
        PostgresDialect.to_literal(&SqlValue::Bytes(b"ab".to_vec())),
        "'\\\\x6162'::bytea"
    );
}

#[test]
fn date_time_timestamp_literals() {
    assert_eq!(
        MysqlDialect.to_literal(&SqlValue::Date { y: 2024, m: 1, d: 5 }),
        "'2024-01-05'"
    );
    assert_eq!(
        PostgresDialect.to_literal(&SqlValue::Date { y: 2024, m: 1, d: 5 }),
        "DATE '2024-01-05'"
    );
    assert_eq!(
        MysqlDialect.to_literal(&SqlValue::Time { neg: true, h: 10, m: 3, s: 7, us: 0 }),
        "'-10:03:07'"
    );
    assert_eq!(
        PostgresDialect.to_literal(&SqlValue::Time { neg: false, h: 1, m: 2, s: 3, us: 45 }),
        "TIME '01:02:03.000045'"
    );
    assert_eq!(
        MysqlDialect.to_literal(
            &SqlValue::Timestamp { y: 2024, m: 12, d: 31, hh: 23, mm: 59, ss: 58, us: 0 }
        ),
        "'2024-12-31 23:59:58'"
    );
    assert_eq!(
        PostgresDialect.to_literal(
            &SqlValue::Timestamp { y: 2024, m: 2, d: 29, hh: 0, mm: 0, ss: 1, us: 123 }
        ),
        "TIMESTAMP '2024-02-29 00:00:01.000123'"
    );
}

#[test]
fn sql_literal_collapses_zero_time_timestamp() {
    let v = SqlValue::Timestamp { y: 2024, m: 3, d: 4, hh: 0, mm: 0, ss: 0, us: 0 };
    assert_eq!(sql_literal_from_value(&v), "'2024-03-04'");
    let v2 = SqlValue::Timestamp { y: 2024, m: 3, d: 4, hh: 0, mm: 0, ss: 1, us: 0 };
    assert_eq!(sql_literal_from_value(&v2), "'2024-03-04 00:00:01'");
}

#[test]
fn mysql_insert_values_sql() {
    let columns = vec![String::from("id"), String::from("name")];
    let rows = vec![
        vec![SqlValue::Int(1), SqlValue::Text("a".into())],
        vec![SqlValue::Int(2), SqlValue::Null],
    ];
    assert_eq!(
        MysqlDialect.insert_values_sql("users", &columns, &rows),
        "INSERT INTO `users` (`id`, `name`) VALUES (1, 'a'), (2, NULL);"
    );
}

#[test]
fn qualified_table_names() {
    let columns = vec![String::from("c")];
    let rows = vec![vec![SqlValue::Int(7)]];
    assert_eq!(
        PostgresDialect.insert_values_sql("sch.tab", &columns, &rows),
        "INSERT INTO \"sch\".\"tab\" (\"c\") VALUES (7);"
    );
    assert_eq!(
        MysqlDialect.drop_table_statement("sch.tab"),
        "DROP TABLE IF EXISTS `sch`.`tab`"
    );
    // The dump-file writer escapes the table reference as one identifier.
    assert_eq!(
        generate_insert_statement("sch.tab", &columns, &rows),
        "INSERT INTO `sch.tab` (`c`) VALUES (7);"
    );
}

#[test]
fn split_table_name_on_first_dot() {
    let (schema, table) = migrasquiel::dialect::split_table_name("db.users");
    assert_eq!(schema.as_deref(), Some("db"));
    assert_eq!(table, "users");
    let (schema, table) = migrasquiel::dialect::split_table_name("users");
    assert!(schema.is_none());
    assert_eq!(table, "users");
    let (schema, table) = migrasquiel::dialect::split_table_name(".users");
    assert!(schema.is_none());
    assert_eq!(table, ".users");
    let (schema, table) = migrasquiel::dialect::split_table_name("a.b.c");
    assert_eq!(schema.as_deref(), Some("a"));
    assert_eq!(table, "b.c");
}

#[test]
fn value_constructors() {
    assert_eq!(
        SqlValue::from_date(2024, 5, 6),
        SqlValue::Date { y: 2024, m: 5, d: 6 }
    );
    assert_eq!(
        SqlValue::from_time(1, 2, 3, 4),
        SqlValue::Time { neg: false, h: 1, m: 2, s: 3, us: 4 }
    );
    assert_eq!(
        SqlValue::from_datetime(2024, 5, 6, 7, 8, 9, 10),
        SqlValue::Timestamp { y: 2024, m: 5, d: 6, hh: 7, mm: 8, ss: 9, us: 10 }
    );
    assert_eq!(SqlValue::from(Some(true)), SqlValue::Bool(true));
    assert_eq!(SqlValue::from(None), SqlValue::Null);
}
