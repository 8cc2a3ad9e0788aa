//! The dump-file layout: the fixed preamble and postamble around the
//! per-table sections, the section comments, and the batched INSERT
//! statements for a table's rows.
use crate::sql_escape::{generate_insert_statement, spec_insert_statement};
use crate::text::{append_str, chars_to_string};
use crate::value::SqlValue;
use vstd::prelude::*;

verus! {

/// Options for a dump run. When both `schema_only` and `data_only` are
/// set, neither schema nor data is written: each flag only suppresses the
/// other half of the work.
#[derive(Debug)]
pub struct DumpOptions {
    pub tables: Vec<String>,
    pub exclude: Vec<String>,
    pub schema_only: bool,
    pub data_only: bool,
    pub batch_rows: usize,
    pub consistent_snapshot: bool,
    pub gzip: bool,
}

/// The dump preamble: a banner with the generation timestamp, then the
/// session settings that are saved and overridden for the load.
pub open spec fn spec_dump_header(timestamp: Seq<char>) -> Seq<char> {
    "-- MySQL/MariaDB Database Dump\n-- Generated by migrasquiel\n-- Date: "@ + timestamp + "\n\n/*!40101 SET @OLD_CHARACTER_SET_CLIENT=@@CHARACTER_SET_CLIENT */;\n/*!40101 SET @OLD_CHARACTER_SET_RESULTS=@@CHARACTER_SET_RESULTS */;\n/*!40101 SET @OLD_COLLATION_CONNECTION=@@COLLATION_CONNECTION */;\n/*!40101 SET NAMES utf8mb4 */;\n/*!40014 SET @OLD_UNIQUE_CHECKS=@@UNIQUE_CHECKS, UNIQUE_CHECKS=0 */;\n/*!40014 SET @OLD_FOREIGN_KEY_CHECKS=@@FOREIGN_KEY_CHECKS, FOREIGN_KEY_CHECKS=0 */;\n/*!40101 SET @OLD_SQL_MODE=@@SQL_MODE, SQL_MODE='NO_AUTO_VALUE_ON_ZERO' */;\n\n"@
}

/// The dump postamble: restores the session settings the preamble saved.
pub open spec fn spec_dump_footer() -> Seq<char> {
    "\n/*!40101 SET SQL_MODE=@OLD_SQL_MODE */;\n/*!40014 SET FOREIGN_KEY_CHECKS=@OLD_FOREIGN_KEY_CHECKS */;\n/*!40014 SET UNIQUE_CHECKS=@OLD_UNIQUE_CHECKS */;\n/*!40101 SET CHARACTER_SET_CLIENT=@OLD_CHARACTER_SET_CLIENT */;\n/*!40101 SET CHARACTER_SET_RESULTS=@OLD_CHARACTER_SET_RESULTS */;\n/*!40101 SET COLLATION_CONNECTION=@OLD_COLLATION_CONNECTION */;\n"@
}

/// The dump preamble with the given generation timestamp.
pub fn write_dump_header(timestamp: &str) -> (r: String)
    ensures
        r@ == spec_dump_header(timestamp@),
{
    let mut out: Vec<char> = Vec::new();
    append_str(&mut out, "-- MySQL/MariaDB Database Dump\n-- Generated by migrasquiel\n-- Date: ");
    append_str(&mut out, timestamp);
    append_str(
        &mut out,
        "\n\n/*!40101 SET @OLD_CHARACTER_SET_CLIENT=@@CHARACTER_SET_CLIENT */;\n/*!40101 SET @OLD_CHARACTER_SET_RESULTS=@@CHARACTER_SET_RESULTS */;\n/*!40101 SET @OLD_COLLATION_CONNECTION=@@COLLATION_CONNECTION */;\n/*!40101 SET NAMES utf8mb4 */;\n/*!40014 SET @OLD_UNIQUE_CHECKS=@@UNIQUE_CHECKS, UNIQUE_CHECKS=0 */;\n/*!40014 SET @OLD_FOREIGN_KEY_CHECKS=@@FOREIGN_KEY_CHECKS, FOREIGN_KEY_CHECKS=0 */;\n/*!40101 SET @OLD_SQL_MODE=@@SQL_MODE, SQL_MODE='NO_AUTO_VALUE_ON_ZERO' */;\n\n",
    );
    proof {
        assert(out@ =~= spec_dump_header(timestamp@));
    }
    chars_to_string(&out)
}

/// The dump postamble.
pub fn write_dump_footer() -> (r: String)
    ensures
        r@ == spec_dump_footer(),
{
    let mut out: Vec<char> = Vec::new();
    append_str(
        &mut out,
        "\n/*!40101 SET SQL_MODE=@OLD_SQL_MODE */;\n/*!40014 SET FOREIGN_KEY_CHECKS=@OLD_FOREIGN_KEY_CHECKS */;\n/*!40014 SET UNIQUE_CHECKS=@OLD_UNIQUE_CHECKS */;\n/*!40101 SET CHARACTER_SET_CLIENT=@OLD_CHARACTER_SET_CLIENT */;\n/*!40101 SET CHARACTER_SET_RESULTS=@OLD_CHARACTER_SET_RESULTS */;\n/*!40101 SET COLLATION_CONNECTION=@OLD_COLLATION_CONNECTION */;\n",
    );
    proof {
        assert(out@ =~= spec_dump_footer());
    }
    chars_to_string(&out)
}

/// The schema section for one table: a structure comment, the DROP, and
/// the normalized CREATE, each terminated on its own line so that the
/// restore scanner replays them as separate statements.
pub open spec fn spec_schema_section(table: Seq<char>, create_stmt: Seq<char>) -> Seq<char> {
    "\n-- Table structure for `"@ + table + "`\nDROP TABLE IF EXISTS `"@ + table + "`;\n"@
        + create_stmt + ";\n"@
}

/// The schema section written to the dump for one table.
pub fn dump_schema_section(table: &str, create_stmt: &str) -> (r: String)
    ensures
        r@ == spec_schema_section(table@, create_stmt@),
{
    let mut out: Vec<char> = Vec::new();
    append_str(&mut out, "\n-- Table structure for `");
    append_str(&mut out, table);
    append_str(&mut out, "`\nDROP TABLE IF EXISTS `");
    append_str(&mut out, table);
    append_str(&mut out, "`;\n");
    append_str(&mut out, create_stmt);
    append_str(&mut out, ";\n");
    proof {
        assert(out@ =~= spec_schema_section(table@, create_stmt@));
    }
    chars_to_string(&out)
}

/// The comment opening a table's data section.
pub open spec fn spec_data_comment(table: Seq<char>) -> Seq<char> {
    "\n-- Data for table `"@ + table + "`\n"@
}

/// The data-section comment written to the dump for one table.
pub fn dump_data_comment(table: &str) -> (r: String)
    ensures
        r@ == spec_data_comment(table@),
{
    let mut out: Vec<char> = Vec::new();
    append_str(&mut out, "\n-- Data for table `");
    append_str(&mut out, table);
    append_str(&mut out, "`\n");
    proof {
        assert(out@ =~= spec_data_comment(table@));
    }
    chars_to_string(&out)
}

/// The rows of chunk `i` when `rows` is cut into chunks of `batch_rows`.
pub open spec fn spec_chunk(rows: Seq<Seq<SqlValue>>, batch_rows: int, i: int) -> Seq<
    Seq<SqlValue>,
> {
    rows.subrange(
        i * batch_rows,
        if (i + 1) * batch_rows <= rows.len() {
            (i + 1) * batch_rows
        } else {
            rows.len() as int
        },
    )
}

/// One INSERT statement per full or final partial batch, in original scan
/// order: statement `i` covers the rows of chunk `i`.
pub fn batch_insert_statements(
    table: &str,
    columns: &[String],
    rows: &[Vec<SqlValue>],
    batch_rows: usize,
) -> (r: Vec<String>)
    requires
        batch_rows > 0,
    ensures
        r@.len() == (rows@.len() + batch_rows - 1) / (batch_rows as int),
        forall|i: int|
            0 <= i < r@.len() ==> (#[trigger] r@[i])@ == spec_insert_statement(
                table@,
                columns@.map_values(|c: String| c@),
                spec_chunk(
                    rows@.map_values(|row: Vec<SqlValue>| row@),
                    batch_rows as int,
                    i,
                ),
            ),
{
    let ghost rows_v = rows@.map_values(|row: Vec<SqlValue>| row@);
    let mut r: Vec<String> = Vec::new();
    let mut start: usize = 0;
    let n_rows = rows.len();
    proof {
        assert(0int * (batch_rows as int) == 0) by (nonlinear_arith);
    }
    while start < n_rows
        invariant
            batch_rows > 0,
            n_rows == rows@.len(),
            rows_v == rows@.map_values(|row: Vec<SqlValue>| row@),
            start <= n_rows,
            start == r@.len() * batch_rows || (start == n_rows && r@.len() * batch_rows >= n_rows
                && (r@.len() - 1) * batch_rows < n_rows),
            forall|i: int|
                0 <= i < r@.len() ==> (#[trigger] r@[i])@ == spec_insert_statement(
                    table@,
                    columns@.map_values(|c: String| c@),
                    spec_chunk(rows_v, batch_rows as int, i),
                ),
        decreases n_rows - start,
    {
        let end: usize = if n_rows - start > batch_rows {
            start + batch_rows
        } else {
            n_rows
        };
        let chunk: &[Vec<SqlValue>] = &rows[start..end];
        let stmt = generate_insert_statement(table, columns, chunk);
        let ghost count_before = r@.len() as int;
        r.push(stmt);
        proof {
            assert(start == count_before * batch_rows);
            assert((count_before + 1) * (batch_rows as int) == count_before * (batch_rows as int)
                + batch_rows) by (nonlinear_arith);
            assert(chunk@.map_values(|row: Vec<SqlValue>| row@) =~= spec_chunk(
                rows_v,
                batch_rows as int,
                count_before,
            ));
        }
        start = end;
    }
    proof {
        assert(r@.len() == (rows@.len() + batch_rows - 1) / (batch_rows as int))
            by (nonlinear_arith)
            requires
                batch_rows > 0,
                start == n_rows == rows@.len(),
                start == r@.len() * batch_rows || (start == n_rows && r@.len() * batch_rows
                    >= n_rows && (r@.len() - 1) * batch_rows < n_rows),
        ;
    }
    r
}

} // verus!
