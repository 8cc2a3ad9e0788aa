//! The dialect abstraction: per-provider, stateless rendering rules for
//! identifiers, literals, and INSERT statements, stated as pure functions on
//! character sequences.
use crate::text::{
    append_chars, append_str, chars_to_string, find_char, find_char_in, padded_int, padded_nat,
    str_to_chars, subrange_chars,
};
use crate::value::SqlValue;
use vstd::prelude::*;

verus! {

broadcast use vstd::string::group_string_axioms;

/// `s` with every occurrence of `q` doubled.
pub open spec fn doubled(s: Seq<char>, q: char) -> Seq<char>
    decreases s.len(),
{
    if s.len() == 0 {
        Seq::empty()
    } else {
        doubled(s.drop_last(), q) + (if s.last() == q {
            seq![q, q]
        } else {
            seq![s.last()]
        })
    }
}

/// `s` wrapped in the delimiter `q`, with embedded delimiters doubled.
pub open spec fn quoted_ident(s: Seq<char>, q: char) -> Seq<char> {
    seq![q] + doubled(s, q) + seq![q]
}

/// Appends `s` with every `q` doubled.
pub fn append_doubled(out: &mut Vec<char>, s: &str, q: char)
    ensures
        final(out)@ == old(out)@ + doubled(s@, q),
{
    let chars = str_to_chars(s);
    let n_chars = chars.len();
    for k in 0..n_chars
        invariant
            n_chars == chars@.len(),
            chars@ == s@,
            out@ =~= old(out)@ + doubled(s@.take(k as int), q),
    {
        let c = chars[k];
        proof {
            assert(s@.take(k + 1).drop_last() =~= s@.take(k as int));
            assert(s@.take(k + 1).last() == s@[k as int]);
        }
        if c == q {
            out.push(q);
            out.push(q);
        } else {
            out.push(c);
        }
        proof {
            assert(out@ =~= old(out)@ + doubled(s@.take(k + 1), q));
        }
    }
    proof {
        assert(s@.take(n_chars as int) =~= s@);
        assert(out@ =~= old(out)@ + doubled(s@, q));
    }
}

/// The identifier `name` quoted with delimiter `q`.
pub fn quote_ident_with(name: &str, q: char) -> (r: String)
    ensures
        r@ == quoted_ident(name@, q),
{
    let mut out: Vec<char> = Vec::new();
    out.push(q);
    append_doubled(&mut out, name, q);
    out.push(q);
    proof {
        assert(out@ =~= quoted_ident(name@, q));
    }
    chars_to_string(&out)
}

/// The parts joined with a comma and a space between consecutive parts.
pub open spec fn comma_join(parts: Seq<Seq<char>>) -> Seq<char>
    decreases parts.len(),
{
    if parts.len() == 0 {
        Seq::empty()
    } else if parts.len() == 1 {
        parts.last()
    } else {
        comma_join(parts.drop_last()) + ", "@ + parts.last()
    }
}

pub proof fn lemma_comma_join_step(parts: Seq<Seq<char>>, k: int)
    requires
        0 <= k < parts.len(),
    ensures
        k == 0 ==> comma_join(parts.take(1)) == parts[0],
        k > 0 ==> comma_join(parts.take(k + 1)) == comma_join(parts.take(k)) + ", "@ + parts[k],
{
    assert(parts.take(k + 1).drop_last() =~= parts.take(k));
    assert(parts.take(k + 1).last() == parts[k]);
}

/// A schema-qualified table name split on its first `.`; a name without a
/// dot, or with an empty schema part, is a bare table name.
pub open spec fn spec_split_table_name(s: Seq<char>) -> (Option<Seq<char>>, Seq<char>) {
    let i = find_char(s, '.');
    if i > 0 {
        (Some(s.take(i)), s.skip(i + 1))
    } else {
        (None, s)
    }
}

/// Splits a possibly schema-qualified table name into schema and table parts.
pub fn split_table_name(name: &str) -> (r: (Option<String>, String))
    ensures
        r.0 matches Some(sch) ==> spec_split_table_name(name@).0 matches Some(sv) && sch@ == sv,
        r.0 is None <==> spec_split_table_name(name@).0 is None,
        r.1@ == spec_split_table_name(name@).1,
{
    let chars = str_to_chars(name);
    let found = find_char_in(&chars, '.');
    match found {
        Some(i) if i > 0 => {
            proof {
                crate::text::lemma_find_char_props(name@, '.');
            }
            let schema = subrange_chars(&chars, 0, i);
            let table = subrange_chars(&chars, i + 1, chars.len());
            proof {
                assert(chars@.subrange(0, i as int) =~= name@.take(i as int));
                assert(chars@.subrange(i + 1, chars@.len() as int) =~= name@.skip(i + 1));
            }
            (Some(chars_to_string(&schema)), chars_to_string(&table))
        },
        _ => (None, chars_to_string(&chars)),
    }
}

/// SQL dialect abstraction for identifier and literal formatting. A dialect
/// is immutable and stateless: every rule is a pure function of its input,
/// stated by the `spec_` members.
pub trait SqlDialect: Sized {
    /// Dialect display name, as a character sequence.
    spec fn spec_name(&self) -> Seq<char>;

    /// The identifier quoting rule.
    spec fn spec_quote_identifier(&self, name: Seq<char>) -> Seq<char>;

    /// The value-to-literal rule.
    spec fn spec_literal(&self, v: SqlValue) -> Seq<char>;

    /// Dialect display name (used in logs/comments).
    fn name(&self) -> (r: &'static str)
        ensures
            r@ == self.spec_name(),
    ;

    /// Quote an identifier (table/column name).
    fn quote_identifier(&self, name: &str) -> (r: String)
        ensures
            r@ == self.spec_quote_identifier(name@),
    ;

    /// Convert a neutral `SqlValue` into a literal for this dialect.
    fn to_literal(&self, value: &SqlValue) -> (r: String)
        ensures
            r@ == self.spec_literal(*value),
    ;
}

/// A table reference rendered with each segment quoted independently.
pub open spec fn spec_qualified_table<D: SqlDialect>(d: &D, name: Seq<char>) -> Seq<char> {
    match spec_split_table_name(name).0 {
        Some(schema) => d.spec_quote_identifier(schema) + seq!['.'] + d.spec_quote_identifier(
            spec_split_table_name(name).1,
        ),
        None => d.spec_quote_identifier(name),
    }
}

/// The DROP statement emitted before re-creating a table.
pub open spec fn spec_drop_table_statement<D: SqlDialect>(d: &D, name: Seq<char>) -> Seq<char> {
    "DROP TABLE IF EXISTS "@ + spec_qualified_table(d, name)
}

/// One row of an INSERT statement: the literals in row order, parenthesized.
pub open spec fn spec_row_tuple<D: SqlDialect>(d: &D, row: Seq<SqlValue>) -> Seq<char> {
    seq!['('] + comma_join(row.map_values(|v: SqlValue| d.spec_literal(v))) + seq![')']
}

/// The full INSERT ... VALUES statement: quoted qualified table name, the
/// columns in caller order, one value tuple per row in row order, terminated
/// with a semicolon.
pub open spec fn spec_insert_values_sql<D: SqlDialect>(
    d: &D,
    table: Seq<char>,
    cols: Seq<Seq<char>>,
    rows: Seq<Seq<SqlValue>>,
) -> Seq<char> {
    "INSERT INTO "@ + spec_qualified_table(d, table) + " ("@ + comma_join(
        cols.map_values(|c: Seq<char>| d.spec_quote_identifier(c)),
    ) + ") VALUES "@ + comma_join(rows.map_values(|r: Seq<SqlValue>| spec_row_tuple(d, r)))
        + seq![';']
}

/// Format a potentially schema-qualified table name using the dialect.
pub fn format_qualified_table<D: SqlDialect>(dialect: &D, name: &str) -> (r: String)
    ensures
        r@ == spec_qualified_table(dialect, name@),
{
    let parts = split_table_name(name);
    match parts.0 {
        Some(schema) => {
            let q_schema = dialect.quote_identifier(schema.as_str());
            let q_table = dialect.quote_identifier(parts.1.as_str());
            let mut out: Vec<char> = str_to_chars(q_schema.as_str());
            out.push('.');
            append_str(&mut out, q_table.as_str());
            proof {
                assert(out@ =~= spec_qualified_table(dialect, name@));
            }
            chars_to_string(&out)
        },
        None => dialect.quote_identifier(name),
    }
}

/// Builds the dialect's DROP TABLE statement.
pub fn build_drop_table_statement<D: SqlDialect>(dialect: &D, table: &str) -> (r: String)
    ensures
        r@ == spec_drop_table_statement(dialect, table@),
{
    let mut out: Vec<char> = Vec::new();
    append_str(&mut out, "DROP TABLE IF EXISTS ");
    let q = format_qualified_table(dialect, table);
    append_str(&mut out, q.as_str());
    chars_to_string(&out)
}

/// Builds the dialect's multi-row INSERT statement.
pub fn build_insert_values_sql<D: SqlDialect>(
    dialect: &D,
    table: &str,
    columns: &[String],
    rows: &[Vec<SqlValue>],
) -> (r: String)
    ensures
        r@ == spec_insert_values_sql(
            dialect,
            table@,
            columns@.map_values(|c: String| c@),
            rows@.map_values(|row: Vec<SqlValue>| row@),
        ),
{
    let ghost cols_v: Seq<Seq<char>> = columns@.map_values(|c: String| c@);
    let ghost rows_v: Seq<Seq<SqlValue>> = rows@.map_values(|row: Vec<SqlValue>| row@);
    let ghost cols_q: Seq<Seq<char>> = cols_v.map_values(
        |c: Seq<char>| dialect.spec_quote_identifier(c),
    );
    let ghost row_tuples: Seq<Seq<char>> = rows_v.map_values(
        |r: Seq<SqlValue>| spec_row_tuple(dialect, r),
    );

    let mut out: Vec<char> = Vec::new();
    append_str(&mut out, "INSERT INTO ");
    let q = format_qualified_table(dialect, table);
    append_str(&mut out, q.as_str());
    append_str(&mut out, " (");
    let ghost prefix_cols = "INSERT INTO "@ + spec_qualified_table(dialect, table@) + " ("@;

    let n_cols = columns.len();
    for idx in 0..n_cols
        invariant
            n_cols == columns@.len(),
            cols_v == columns@.map_values(|c: String| c@),
            cols_q == cols_v.map_values(|c: Seq<char>| dialect.spec_quote_identifier(c)),
            out@ == prefix_cols + comma_join(cols_q.take(idx as int)),
    {
        if idx > 0 {
            append_str(&mut out, ", ");
        }
        let qi = dialect.quote_identifier(columns[idx].as_str());
        append_str(&mut out, qi.as_str());
        proof {
            lemma_comma_join_step(cols_q, idx as int);
            assert(cols_q[idx as int] == dialect.spec_quote_identifier(cols_v[idx as int]));
            assert(cols_v[idx as int] == columns@[idx as int]@);
        }
    }
    proof {
        assert(cols_q.take(n_cols as int) =~= cols_q);
    }
    append_str(&mut out, ") VALUES ");
    let ghost prefix_rows = prefix_cols + comma_join(cols_q) + ") VALUES "@;

    let n_rows = rows.len();
    for ridx in 0..n_rows
        invariant
            n_rows == rows@.len(),
            rows_v == rows@.map_values(|row: Vec<SqlValue>| row@),
            row_tuples == rows_v.map_values(|r: Seq<SqlValue>| spec_row_tuple(dialect, r)),
            out@ == prefix_rows + comma_join(row_tuples.take(ridx as int)),
    {
        if ridx > 0 {
            append_str(&mut out, ", ");
        }
        let ghost before_tuple = out@;
        out.push('(');
        let row: &Vec<SqlValue> = &rows[ridx];
        let ghost lits: Seq<Seq<char>> = row@.map_values(|v: SqlValue| dialect.spec_literal(v));
        let n_vals = row.len();
        for cidx in 0..n_vals
            invariant
                n_vals == row@.len(),
                lits == row@.map_values(|v: SqlValue| dialect.spec_literal(v)),
                out@ == before_tuple + seq!['('] + comma_join(lits.take(cidx as int)),
        {
            if cidx > 0 {
                append_str(&mut out, ", ");
            }
            let lit = dialect.to_literal(&row[cidx]);
            append_str(&mut out, lit.as_str());
            proof {
                lemma_comma_join_step(lits, cidx as int);
                assert(lits[cidx as int] == dialect.spec_literal(row@[cidx as int]));
            }
        }
        out.push(')');
        proof {
            assert(lits.take(n_vals as int) =~= lits);
            lemma_comma_join_step(row_tuples, ridx as int);
            assert(row_tuples[ridx as int] == spec_row_tuple(dialect, rows_v[ridx as int]));
            assert(rows_v[ridx as int] == rows@[ridx as int]@);
            assert(out@ =~= prefix_rows + comma_join(row_tuples.take(ridx + 1)));
        }
    }
    proof {
        assert(row_tuples.take(n_rows as int) =~= row_tuples);
    }
    out.push(';');
    proof {
        assert(out@ =~= spec_insert_values_sql(
            dialect,
            table@,
            columns@.map_values(|c: String| c@),
            rows@.map_values(|row: Vec<SqlValue>| row@),
        ));
    }
    chars_to_string(&out)
}

/// The microsecond fraction: empty when zero, otherwise a dot and exactly
/// six digits.
pub open spec fn frac_chars(us: nat) -> Seq<char> {
    if us == 0 {
        Seq::empty()
    } else {
        seq!['.'] + padded_nat(us, 6)
    }
}

/// Zero-padded `YYYY-MM-DD` date fields.
pub open spec fn date_chars(y: int, m: nat, d: nat) -> Seq<char> {
    padded_int(y, 4) + seq!['-'] + padded_nat(m, 2) + seq!['-'] + padded_nat(d, 2)
}

/// Zero-padded `HH:MM:SS` with optional sign and microsecond fraction.
pub open spec fn time_chars(neg: bool, h: nat, m: nat, s: nat, us: nat) -> Seq<char> {
    (if neg {
        seq!['-']
    } else {
        Seq::<char>::empty()
    }) + padded_nat(h, 2) + seq![':'] + padded_nat(m, 2) + seq![':'] + padded_nat(s, 2)
        + frac_chars(us)
}

/// Zero-padded `YYYY-MM-DD HH:MM:SS` with optional microsecond fraction.
pub open spec fn datetime_chars(
    y: int,
    m: nat,
    d: nat,
    hh: nat,
    mm: nat,
    ss: nat,
    us: nat,
) -> Seq<char> {
    date_chars(y, m, d) + seq![' '] + time_chars(false, hh, mm, ss, us)
}

/// Appends the microsecond fraction of a time or timestamp.
pub fn append_frac(out: &mut Vec<char>, us: u32)
    ensures
        final(out)@ == old(out)@ + frac_chars(us as nat),
{
    if us != 0 {
        out.push('.');
        let digits = crate::text::u64_padded(us as u64, 6);
        append_chars(out, &digits);
    }
}

/// Appends the zero-padded date fields.
pub fn append_date(out: &mut Vec<char>, y: i32, m: u32, d: u32)
    ensures
        final(out)@ == old(out)@ + date_chars(y as int, m as nat, d as nat),
{
    let yd = crate::text::i64_padded(y as i64, 4);
    append_chars(out, &yd);
    out.push('-');
    let md = crate::text::u64_padded(m as u64, 2);
    append_chars(out, &md);
    out.push('-');
    let dd = crate::text::u64_padded(d as u64, 2);
    append_chars(out, &dd);
}

/// Appends the zero-padded time fields.
pub fn append_time(out: &mut Vec<char>, neg: bool, h: u32, m: u32, s: u32, us: u32)
    ensures
        final(out)@ == old(out)@ + time_chars(neg, h as nat, m as nat, s as nat, us as nat),
{
    if neg {
        out.push('-');
    }
    let hd = crate::text::u64_padded(h as u64, 2);
    append_chars(out, &hd);
    out.push(':');
    let md = crate::text::u64_padded(m as u64, 2);
    append_chars(out, &md);
    out.push(':');
    let sd = crate::text::u64_padded(s as u64, 2);
    append_chars(out, &sd);
    append_frac(out, us);
}

} // verus!
