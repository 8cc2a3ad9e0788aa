//! The MySQL dialect: backtick identifier quoting, backslash escaping for
//! control characters inside strings, and bare `0x` hex literals for binary
//! data.
use crate::dialect::{
    build_drop_table_statement, build_insert_values_sql, date_chars, datetime_chars,
    quote_ident_with, quoted_ident, spec_drop_table_statement, spec_insert_values_sql, time_chars,
    SqlDialect,
};
use crate::octets::{hex_chars, hex_encode_chars, is_likely_text, likely_text, utf8_chars};
use crate::text::{append_chars, append_str, chars_to_string, int_dec_chars, str_to_chars};
use crate::value::{FloatLit, SqlValue};
use vstd::prelude::*;

verus! {

broadcast use vstd::utf8::group_utf8_lib;

#[derive(Debug)]
pub struct MysqlDialect;

/// A float literal: finite values keep their decimal rendering; NaN and the
/// infinities, which SQL has no literal form for, become quoted sentinels.
pub open spec fn mysql_float_literal(f: FloatLit) -> Seq<char> {
    match f {
        FloatLit::Finite(t) => t@,
        FloatLit::NaN => "'NaN'"@,
        FloatLit::Infinity => "'Infinity'"@,
        FloatLit::NegInfinity => "'-Infinity'"@,
    }
}

/// The escaping of one character inside a quoted MySQL string: quotes are
/// doubled; backslash, NUL, newline, carriage return and tab are
/// backslash-escaped; everything else passes through.
pub open spec fn mysql_escaped_char(c: char) -> Seq<char> {
    if c == '\'' {
        seq!['\'', '\'']
    } else if c == '\\' {
        seq!['\\', '\\']
    } else if c == '\u{0}' {
        seq!['\\', '0']
    } else if c == '\n' {
        seq!['\\', 'n']
    } else if c == '\r' {
        seq!['\\', 'r']
    } else if c == '\t' {
        seq!['\\', 't']
    } else {
        seq![c]
    }
}

/// Character-wise escaping of a whole string body.
pub open spec fn mysql_escaped(s: Seq<char>) -> Seq<char>
    decreases s.len(),
{
    if s.len() == 0 {
        Seq::empty()
    } else {
        mysql_escaped(s.drop_last()) + mysql_escaped_char(s.last())
    }
}

/// A quoted MySQL string literal.
pub open spec fn mysql_quoted_text(s: Seq<char>) -> Seq<char> {
    seq!['\''] + mysql_escaped(s) + seq!['\'']
}

/// A byte column value: empty bytes give an empty string literal; bytes that
/// look like text are escaped as a string; anything else becomes a hex
/// literal.
pub open spec fn mysql_bytes_literal(b: Seq<u8>) -> Seq<char> {
    if b.len() == 0 {
        "''"@
    } else if likely_text(b) {
        mysql_quoted_text(utf8_chars(b))
    } else {
        "0x"@ + hex_chars(b)
    }
}

/// The MySQL literal for any value.
pub open spec fn mysql_literal(v: SqlValue) -> Seq<char> {
    match v {
        SqlValue::Null => "NULL"@,
        SqlValue::Bool(b) => if b {
            "TRUE"@
        } else {
            "FALSE"@
        },
        SqlValue::Int(i) => int_dec_chars(i as int),
        SqlValue::Float(f) => mysql_float_literal(f),
        SqlValue::Decimal(s) => s@,
        SqlValue::Text(s) => mysql_quoted_text(s@),
        SqlValue::Bytes(b) => mysql_bytes_literal(b@),
        SqlValue::Date { y, m, d } => seq!['\''] + date_chars(y as int, m as nat, d as nat)
            + seq!['\''],
        SqlValue::Time { neg, h, m, s, us } => seq!['\''] + time_chars(
            neg,
            h as nat,
            m as nat,
            s as nat,
            us as nat,
        ) + seq!['\''],
        SqlValue::Timestamp { y, m, d, hh, mm, ss, us } => seq!['\''] + datetime_chars(
            y as int,
            m as nat,
            d as nat,
            hh as nat,
            mm as nat,
            ss as nat,
            us as nat,
        ) + seq!['\''],
    }
}

/// Appends the body of `s` with MySQL's string escaping applied.
pub fn append_mysql_escaped(out: &mut Vec<char>, s: &str)
    ensures
        final(out)@ == old(out)@ + mysql_escaped(s@),
{
    let chars = str_to_chars(s);
    let n_chars = chars.len();
    for k in 0..n_chars
        invariant
            n_chars == chars@.len(),
            chars@ == s@,
            out@ =~= old(out)@ + mysql_escaped(s@.take(k as int)),
    {
        let c = chars[k];
        proof {
            assert(s@.take(k + 1).drop_last() =~= s@.take(k as int));
            assert(s@.take(k + 1).last() == s@[k as int]);
        }
        if c == '\'' {
            out.push('\'');
            out.push('\'');
        } else if c == '\\' {
            out.push('\\');
            out.push('\\');
        } else if c == '\u{0}' {
            out.push('\\');
            out.push('0');
        } else if c == '\n' {
            out.push('\\');
            out.push('n');
        } else if c == '\r' {
            out.push('\\');
            out.push('r');
        } else if c == '\t' {
            out.push('\\');
            out.push('t');
        } else {
            out.push(c);
        }
        proof {
            assert(out@ =~= old(out)@ + mysql_escaped(s@.take(k + 1)));
        }
    }
    proof {
        assert(s@.take(n_chars as int) =~= s@);
        assert(out@ =~= old(out)@ + mysql_escaped(s@));
    }
}

/// The quoted, escaped MySQL string literal for `value`.
pub fn escape_string(value: &str) -> (r: String)
    ensures
        r@ == mysql_quoted_text(value@),
{
    let mut out: Vec<char> = Vec::new();
    out.push('\'');
    append_mysql_escaped(&mut out, value);
    out.push('\'');
    proof {
        assert(out@ =~= mysql_quoted_text(value@));
    }
    chars_to_string(&out)
}

/// The quoted, escaped MySQL string literal for text given as its UTF-8
/// bytes.
pub fn escape_bytes(bytes: &[u8]) -> (r: String)
    requires
        vstd::utf8::valid_utf8(bytes@),
    ensures
        r@ == mysql_quoted_text(utf8_chars(bytes@)),
{
    let decoded = crate::octets::utf8_to_str(bytes);
    match decoded {
        Some(s) => {
            proof {
                assert(utf8_chars(bytes@) == s@);
            }
            escape_string(s)
        },
        None => {
            proof {
                assert(false);
            }
            String::new()
        },
    }
}

/// Appends the MySQL byte-column literal for `bytes`.
fn append_mysql_bytes(out: &mut Vec<char>, bytes: &Vec<u8>)
    ensures
        final(out)@ == old(out)@ + mysql_bytes_literal(bytes@),
{
    if bytes.len() == 0 {
        append_str(out, "''");
    } else if is_likely_text(bytes.as_slice()) {
        let lit = escape_bytes(bytes.as_slice());
        append_str(out, lit.as_str());
    } else {
        append_str(out, "0x");
        let h = hex_encode_chars(bytes.as_slice());
        append_chars(out, &h);
    }
}

/// Appends the MySQL literal for `value`.
pub fn append_mysql_literal(out: &mut Vec<char>, value: &SqlValue)
    ensures
        final(out)@ == old(out)@ + mysql_literal(*value),
{
    match value {
        SqlValue::Null => append_str(out, "NULL"),
        SqlValue::Bool(b) => if *b {
            append_str(out, "TRUE")
        } else {
            append_str(out, "FALSE")
        },
        SqlValue::Int(i) => {
            let digits = crate::text::i64_dec_chars(*i);
            append_chars(out, &digits);
        },
        SqlValue::Float(f) => match f {
            FloatLit::Finite(t) => append_str(out, t.as_str()),
            FloatLit::NaN => append_str(out, "'NaN'"),
            FloatLit::Infinity => append_str(out, "'Infinity'"),
            FloatLit::NegInfinity => append_str(out, "'-Infinity'"),
        },
        SqlValue::Decimal(s) => append_str(out, s.as_str()),
        SqlValue::Text(s) => {
            out.push('\'');
            append_mysql_escaped(out, s.as_str());
            out.push('\'');
            proof {
                assert(out@ =~= old(out)@ + mysql_quoted_text(s@));
            }
        },
        SqlValue::Bytes(b) => append_mysql_bytes(out, b),
        SqlValue::Date { y, m, d } => {
            out.push('\'');
            crate::dialect::append_date(out, *y, *m, *d);
            out.push('\'');
            proof {
                assert(out@ =~= old(out)@ + mysql_literal(*value));
            }
        },
        SqlValue::Time { neg, h, m, s, us } => {
            out.push('\'');
            crate::dialect::append_time(out, *neg, *h, *m, *s, *us);
            out.push('\'');
            proof {
                assert(out@ =~= old(out)@ + mysql_literal(*value));
            }
        },
        SqlValue::Timestamp { y, m, d, hh, mm, ss, us } => {
            out.push('\'');
            crate::dialect::append_date(out, *y, *m, *d);
            out.push(' ');
            crate::dialect::append_time(out, false, *hh, *mm, *ss, *us);
            out.push('\'');
            proof {
                assert(out@ =~= old(out)@ + mysql_literal(*value));
            }
        },
    }
}

impl SqlDialect for MysqlDialect {
    open spec fn spec_name(&self) -> Seq<char> {
        "MySQL"@
    }

    open spec fn spec_quote_identifier(&self, name: Seq<char>) -> Seq<char> {
        quoted_ident(name, '`')
    }

    open spec fn spec_literal(&self, v: SqlValue) -> Seq<char> {
        mysql_literal(v)
    }

    fn name(&self) -> (r: &'static str) {
        "MySQL"
    }

    fn quote_identifier(&self, name: &str) -> (r: String) {
        quote_ident_with(name, '`')
    }

    fn to_literal(&self, value: &SqlValue) -> (r: String) {
        let mut out: Vec<char> = Vec::new();
        append_mysql_literal(&mut out, value);
        chars_to_string(&out)
    }
}

impl MysqlDialect {
    /// Build an INSERT ... VALUES statement for the provided rows.
    pub fn insert_values_sql(&self, table: &str, columns: &[String], rows: &[Vec<SqlValue>]) -> (r:
        String)
        ensures
            r@ == spec_insert_values_sql(
                self,
                table@,
                columns@.map_values(|c: String| c@),
                rows@.map_values(|row: Vec<SqlValue>| row@),
            ),
    {
        build_insert_values_sql(self, table, columns, rows)
    }

    /// Format a drop table statement using the dialect's identifier rules.
    pub fn drop_table_statement(&self, table: &str) -> (r: String)
        ensures
            r@ == spec_drop_table_statement(self, table@),
    {
        build_drop_table_statement(self, table)
    }
}

} // verus!
