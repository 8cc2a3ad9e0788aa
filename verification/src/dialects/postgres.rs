//! The PostgreSQL dialect: double-quote identifier quoting, quote doubling
//! (and nothing else) inside strings, typed sentinel literals for non-finite
//! floats, and `bytea` hex literals for binary data.
use crate::dialect::{
    build_drop_table_statement, build_insert_values_sql, date_chars, datetime_chars, doubled,
    quote_ident_with, quoted_ident, spec_drop_table_statement, spec_insert_values_sql, time_chars,
    SqlDialect,
};
use crate::octets::{hex_chars, hex_encode_chars};
use crate::text::{append_chars, append_str, chars_to_string, int_dec_chars};
use crate::value::{FloatLit, SqlValue};
use vstd::prelude::*;

verus! {

#[derive(Debug)]
pub struct PostgresDialect;

/// A float literal: finite values keep their decimal rendering; NaN and the
/// infinities become quoted sentinels cast to `float8`.
pub open spec fn postgres_float_literal(f: FloatLit) -> Seq<char> {
    match f {
        FloatLit::Finite(t) => t@,
        FloatLit::NaN => "'NaN'::float8"@,
        FloatLit::Infinity => "'Infinity'::float8"@,
        FloatLit::NegInfinity => "'-Infinity'::float8"@,
    }
}

/// A quoted PostgreSQL string literal: embedded quotes are doubled and no
/// other character is escaped.
pub open spec fn postgres_quoted_text(s: Seq<char>) -> Seq<char> {
    seq!['\''] + doubled(s, '\'') + seq!['\'']
}

/// A byte column value as a `bytea` escaped-hex literal.
pub open spec fn postgres_bytes_literal(b: Seq<u8>) -> Seq<char> {
    seq!['\'', '\\', '\\', 'x'] + hex_chars(b) + seq!['\''] + "::bytea"@
}

/// The PostgreSQL literal for any value.
pub open spec fn postgres_literal(v: SqlValue) -> Seq<char> {
    match v {
        SqlValue::Null => "NULL"@,
        SqlValue::Bool(b) => if b {
            "TRUE"@
        } else {
            "FALSE"@
        },
        SqlValue::Int(i) => int_dec_chars(i as int),
        SqlValue::Float(f) => postgres_float_literal(f),
        SqlValue::Decimal(s) => s@,
        SqlValue::Text(s) => postgres_quoted_text(s@),
        SqlValue::Bytes(b) => postgres_bytes_literal(b@),
        SqlValue::Date { y, m, d } => "DATE "@ + seq!['\''] + date_chars(
            y as int,
            m as nat,
            d as nat,
        ) + seq!['\''],
        SqlValue::Time { neg, h, m, s, us } => "TIME "@ + seq!['\''] + time_chars(
            neg,
            h as nat,
            m as nat,
            s as nat,
            us as nat,
        ) + seq!['\''],
        SqlValue::Timestamp { y, m, d, hh, mm, ss, us } => "TIMESTAMP "@ + seq!['\'']
            + datetime_chars(
            y as int,
            m as nat,
            d as nat,
            hh as nat,
            mm as nat,
            ss as nat,
            us as nat,
        ) + seq!['\''],
    }
}

/// The quoted PostgreSQL string literal for `value`: embedded single quotes
/// are doubled, nothing else changes.
pub fn escape_single_quotes(value: &str) -> (r: String)
    ensures
        r@ == postgres_quoted_text(value@),
{
    let mut out: Vec<char> = Vec::new();
    out.push('\'');
    crate::dialect::append_doubled(&mut out, value, '\'');
    out.push('\'');
    proof {
        assert(out@ =~= postgres_quoted_text(value@));
    }
    chars_to_string(&out)
}

/// Appends the PostgreSQL literal for `value`.
pub fn append_postgres_literal(out: &mut Vec<char>, value: &SqlValue)
    ensures
        final(out)@ == old(out)@ + postgres_literal(*value),
{
    match value {
        SqlValue::Null => append_str(out, "NULL"),
        SqlValue::Bool(b) => if *b {
            append_str(out, "TRUE")
        } else {
            append_str(out, "FALSE")
        },
        SqlValue::Int(i) => {
            let digits = crate::text::i64_dec_chars(*i);
            append_chars(out, &digits);
        },
        SqlValue::Float(f) => match f {
            FloatLit::Finite(t) => append_str(out, t.as_str()),
            FloatLit::NaN => append_str(out, "'NaN'::float8"),
            FloatLit::Infinity => append_str(out, "'Infinity'::float8"),
            FloatLit::NegInfinity => append_str(out, "'-Infinity'::float8"),
        },
        SqlValue::Decimal(s) => append_str(out, s.as_str()),
        SqlValue::Text(s) => {
            out.push('\'');
            crate::dialect::append_doubled(out, s.as_str(), '\'');
            out.push('\'');
            proof {
                assert(out@ =~= old(out)@ + postgres_quoted_text(s@));
            }
        },
        SqlValue::Bytes(b) => {
            out.push('\'');
            out.push('\\');
            out.push('\\');
            out.push('x');
            let h = hex_encode_chars(b.as_slice());
            append_chars(out, &h);
            out.push('\'');
            append_str(out, "::bytea");
            proof {
                assert(out@ =~= old(out)@ + postgres_bytes_literal(b@));
            }
        },
        SqlValue::Date { y, m, d } => {
            append_str(out, "DATE ");
            out.push('\'');
            crate::dialect::append_date(out, *y, *m, *d);
            out.push('\'');
            proof {
                assert(out@ =~= old(out)@ + postgres_literal(*value));
            }
        },
        SqlValue::Time { neg, h, m, s, us } => {
            append_str(out, "TIME ");
            out.push('\'');
            crate::dialect::append_time(out, *neg, *h, *m, *s, *us);
            out.push('\'');
            proof {
                assert(out@ =~= old(out)@ + postgres_literal(*value));
            }
        },
        SqlValue::Timestamp { y, m, d, hh, mm, ss, us } => {
            append_str(out, "TIMESTAMP ");
            out.push('\'');
            crate::dialect::append_date(out, *y, *m, *d);
            out.push(' ');
            crate::dialect::append_time(out, false, *hh, *mm, *ss, *us);
            out.push('\'');
            proof {
                assert(out@ =~= old(out)@ + postgres_literal(*value));
            }
        },
    }
}

impl SqlDialect for PostgresDialect {
    open spec fn spec_name(&self) -> Seq<char> {
        "PostgreSQL"@
    }

    open spec fn spec_quote_identifier(&self, name: Seq<char>) -> Seq<char> {
        quoted_ident(name, '"')
    }

    open spec fn spec_literal(&self, v: SqlValue) -> Seq<char> {
        postgres_literal(v)
    }

    fn name(&self) -> (r: &'static str) {
        "PostgreSQL"
    }

    fn quote_identifier(&self, name: &str) -> (r: String) {
        quote_ident_with(name, '"')
    }

    fn to_literal(&self, value: &SqlValue) -> (r: String) {
        let mut out: Vec<char> = Vec::new();
        append_postgres_literal(&mut out, value);
        chars_to_string(&out)
    }
}

impl PostgresDialect {
    /// Build an INSERT ... VALUES statement for the provided rows.
    pub fn insert_values_sql(&self, table: &str, columns: &[String], rows: &[Vec<SqlValue>]) -> (r:
        String)
        ensures
            r@ == spec_insert_values_sql(
                self,
                table@,
                columns@.map_values(|c: String| c@),
                rows@.map_values(|row: Vec<SqlValue>| row@),
            ),
    {
        build_insert_values_sql(self, table, columns, rows)
    }

    /// Format a drop table statement using the dialect's identifier rules.
    pub fn drop_table_statement(&self, table: &str) -> (r: String)
        ensures
            r@ == spec_drop_table_statement(self, table@),
    {
        build_drop_table_statement(self, table)
    }
}

} // verus!
