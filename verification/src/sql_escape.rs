//! The dump-file SQL writer: MySQL-flavored literal rendering and identifier
//! escaping used when statements are written to a dump file rather than sent
//! to a live session. It differs from the MySQL dialect in two ways: the
//! table name is escaped as one identifier without schema splitting, and a
//! timestamp whose time-of-day is entirely zero collapses to a date literal.
use crate::dialect::{comma_join, date_chars, lemma_comma_join_step, quoted_ident, quote_ident_with};
use crate::dialects::mysql::{append_mysql_literal, mysql_literal, mysql_quoted_text};
use crate::octets::utf8_chars;
use crate::text::{append_str, chars_to_string};
use crate::value::SqlValue;
use vstd::prelude::*;

verus! {

/// The dump-file literal: like the MySQL literal, except that a timestamp
/// with zero hours, minutes, seconds and microseconds is written as a plain
/// date.
pub open spec fn spec_sql_literal(v: SqlValue) -> Seq<char> {
    match v {
        SqlValue::Timestamp { y, m, d, hh, mm, ss, us } => {
            if hh == 0 && mm == 0 && ss == 0 && us == 0 {
                seq!['\''] + date_chars(y as int, m as nat, d as nat) + seq!['\'']
            } else {
                mysql_literal(v)
            }
        },
        _ => mysql_literal(v),
    }
}

/// Convert a value to its dump-file SQL literal representation.
pub fn sql_literal_from_value(v: &SqlValue) -> (r: String)
    ensures
        r@ == spec_sql_literal(*v),
{
    let mut out: Vec<char> = Vec::new();
    match v {
        SqlValue::Timestamp { y, m, d, hh, mm, ss, us } => {
            if *hh == 0 && *mm == 0 && *ss == 0 && *us == 0 {
                out.push('\'');
                crate::dialect::append_date(&mut out, *y, *m, *d);
                out.push('\'');
                proof {
                    assert(out@ =~= spec_sql_literal(*v));
                }
            } else {
                append_mysql_literal(&mut out, v);
            }
        },
        _ => append_mysql_literal(&mut out, v),
    }
    chars_to_string(&out)
}

/// Escape a string value for SQL, given as its UTF-8 bytes (handles quotes,
/// backslashes, etc.).
pub fn escape_string(bytes: &[u8]) -> (r: String)
    requires
        vstd::utf8::valid_utf8(bytes@),
    ensures
        r@ == mysql_quoted_text(utf8_chars(bytes@)),
{
    crate::dialects::mysql::escape_bytes(bytes)
}

/// Escape an identifier (table name, column name) with backticks.
pub fn escape_identifier(name: &str) -> (r: String)
    ensures
        r@ == quoted_ident(name@, '`'),
{
    quote_ident_with(name, '`')
}

/// One row of a dump-file INSERT statement.
pub open spec fn spec_insert_row_tuple(row: Seq<SqlValue>) -> Seq<char> {
    seq!['('] + comma_join(row.map_values(|v: SqlValue| spec_sql_literal(v))) + seq![')']
}

/// A whole dump-file INSERT statement: the table escaped as one identifier,
/// the columns in caller order, one value tuple per row in row order,
/// terminated with a semicolon.
pub open spec fn spec_insert_statement(
    table: Seq<char>,
    cols: Seq<Seq<char>>,
    rows: Seq<Seq<SqlValue>>,
) -> Seq<char> {
    "INSERT INTO "@ + quoted_ident(table, '`') + " ("@ + comma_join(
        cols.map_values(|c: Seq<char>| quoted_ident(c, '`')),
    ) + ") VALUES "@ + comma_join(rows.map_values(|r: Seq<SqlValue>| spec_insert_row_tuple(r)))
        + seq![';']
}

/// Generate a multi-row INSERT statement.
#[verifier::rlimit(60)]
pub fn generate_insert_statement(table: &str, columns: &[String], rows: &[Vec<SqlValue>]) -> (r:
    String)
    ensures
        r@ == spec_insert_statement(
            table@,
            columns@.map_values(|c: String| c@),
            rows@.map_values(|row: Vec<SqlValue>| row@),
        ),
{
    let ghost cols_v: Seq<Seq<char>> = columns@.map_values(|c: String| c@);
    let ghost rows_v: Seq<Seq<SqlValue>> = rows@.map_values(|row: Vec<SqlValue>| row@);
    let ghost cols_q: Seq<Seq<char>> = cols_v.map_values(|c: Seq<char>| quoted_ident(c, '`'));
    let ghost row_tuples: Seq<Seq<char>> = rows_v.map_values(
        |r: Seq<SqlValue>| spec_insert_row_tuple(r),
    );

    let mut out: Vec<char> = Vec::new();
    append_str(&mut out, "INSERT INTO ");
    let q = escape_identifier(table);
    append_str(&mut out, q.as_str());
    append_str(&mut out, " (");
    let ghost prefix_cols = "INSERT INTO "@ + quoted_ident(table@, '`') + " ("@;

    let n_cols = columns.len();
    for idx in 0..n_cols
        invariant
            n_cols == columns@.len(),
            cols_v == columns@.map_values(|c: String| c@),
            cols_q == cols_v.map_values(|c: Seq<char>| quoted_ident(c, '`')),
            out@ == prefix_cols + comma_join(cols_q.take(idx as int)),
    {
        if idx > 0 {
            append_str(&mut out, ", ");
        }
        let qi = escape_identifier(columns[idx].as_str());
        append_str(&mut out, qi.as_str());
        proof {
            lemma_comma_join_step(cols_q, idx as int);
            assert(cols_q[idx as int] == quoted_ident(cols_v[idx as int], '`'));
            assert(cols_v[idx as int] == columns@[idx as int]@);
        }
    }
    proof {
        assert(cols_q.take(n_cols as int) =~= cols_q);
    }
    append_str(&mut out, ") VALUES ");
    let ghost prefix_rows = prefix_cols + comma_join(cols_q) + ") VALUES "@;

    let n_rows = rows.len();
    for ridx in 0..n_rows
        invariant
            n_rows == rows@.len(),
            rows_v == rows@.map_values(|row: Vec<SqlValue>| row@),
            row_tuples == rows_v.map_values(|r: Seq<SqlValue>| spec_insert_row_tuple(r)),
            out@ == prefix_rows + comma_join(row_tuples.take(ridx as int)),
    {
        if ridx > 0 {
            append_str(&mut out, ", ");
        }
        let ghost before_tuple = out@;
        out.push('(');
        let row: &Vec<SqlValue> = &rows[ridx];
        let ghost lits: Seq<Seq<char>> = row@.map_values(|v: SqlValue| spec_sql_literal(v));
        let n_vals = row.len();
        for cidx in 0..n_vals
            invariant
                n_vals == row@.len(),
                lits == row@.map_values(|v: SqlValue| spec_sql_literal(v)),
                out@ == before_tuple + seq!['('] + comma_join(lits.take(cidx as int)),
        {
            if cidx > 0 {
                append_str(&mut out, ", ");
            }
            let lit = sql_literal_from_value(&row[cidx]);
            append_str(&mut out, lit.as_str());
            proof {
                lemma_comma_join_step(lits, cidx as int);
                assert(lits[cidx as int] == spec_sql_literal(row@[cidx as int]));
            }
        }
        out.push(')');
        proof {
            assert(lits.take(n_vals as int) =~= lits);
            lemma_comma_join_step(row_tuples, ridx as int);
            assert(row_tuples[ridx as int] == spec_insert_row_tuple(rows_v[ridx as int]));
            assert(rows_v[ridx as int] == rows@[ridx as int]@);
            assert(out@ =~= prefix_rows + comma_join(row_tuples.take(ridx + 1)));
        }
    }
    proof {
        assert(row_tuples.take(n_rows as int) =~= row_tuples);
    }
    out.push(';');
    proof {
        assert(out@ =~= spec_insert_statement(
            table@,
            columns@.map_values(|c: String| c@),
            rows@.map_values(|row: Vec<SqlValue>| row@),
        ));
    }
    chars_to_string(&out)
}

} // verus!
