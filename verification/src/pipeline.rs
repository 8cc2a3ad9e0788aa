//! The transfer pipeline core shared by dump, migrate and import: table
//! filtering, streamed batch accumulation, and the two-tier flush strategy
//! that degrades a failed bulk insert to per-row inserts with individually
//! recorded outcomes.
use crate::dialect::{comma_join, lemma_comma_join_step, spec_insert_values_sql, SqlDialect};
use crate::sql_escape::{spec_sql_literal, sql_literal_from_value};
use crate::text::{append_str, chars_to_string, dec_chars, subrange_chars, u64_dec_chars};
use crate::value::SqlValue;
use vstd::prelude::*;

verus! {

/// Relies on std's slice::from_ref: the returned slice holds exactly the one
/// referenced value.
pub assume_specification<T>[ core::slice::from_ref::<T> ](s: &T) -> (r: &[T])
    ensures
        r@.len() == 1,
        r@[0] == *s,
;

/// Whether a table named `t` survives the filters: an empty allow list
/// admits every table, otherwise the table must be listed; the deny list is
/// applied after and always wins on overlap.
pub open spec fn spec_keep_table(t: Seq<char>, allow_list: Seq<Seq<char>>, deny_list: Seq<Seq<char>>) -> bool {
    (allow_list.len() == 0 || allow_list.contains(t)) && !deny_list.contains(t)
}

/// The tables surviving the filters, in their original order.
pub open spec fn spec_filter_tables(
    tables: Seq<Seq<char>>,
    allow_list: Seq<Seq<char>>,
    deny_list: Seq<Seq<char>>,
) -> Seq<Seq<char>>
    decreases tables.len(),
{
    if tables.len() == 0 {
        Seq::empty()
    } else {
        spec_filter_tables(tables.drop_last(), allow_list, deny_list) + (if spec_keep_table(
            tables.last(),
            allow_list,
            deny_list,
        ) {
            seq![tables.last()]
        } else {
            Seq::empty()
        })
    }
}

/// With empty filters every table is kept, in order.
pub proof fn lemma_filter_tables_all(tables: Seq<Seq<char>>)
    ensures
        spec_filter_tables(tables, Seq::empty(), Seq::empty()) =~= tables,
    decreases tables.len(),
{
    if tables.len() > 0 {
        lemma_filter_tables_all(tables.drop_last());
    }
}

/// The deny list wins over the allow list on overlap: when every allowed
/// name is also denied, nothing survives.
pub proof fn lemma_filter_tables_exclude_wins(
    tables: Seq<Seq<char>>,
    allow_list: Seq<Seq<char>>,
    deny_list: Seq<Seq<char>>,
)
    requires
        allow_list.len() > 0,
        forall|t: Seq<char>| allow_list.contains(t) ==> deny_list.contains(t),
    ensures
        spec_filter_tables(tables, allow_list, deny_list) =~= Seq::<Seq<char>>::empty(),
    decreases tables.len(),
{
    if tables.len() > 0 {
        lemma_filter_tables_exclude_wins(tables.drop_last(), allow_list, deny_list);
    }
}

fn list_contains(list: &Vec<String>, t: &String) -> (r: bool)
    ensures
        r == list@.map_values(|s: String| s@).contains(t@),
{
    let ghost views = list@.map_values(|s: String| s@);
    let n_items = list.len();
    for k in 0..n_items
        invariant
            n_items == list@.len(),
            views == list@.map_values(|s: String| s@),
            forall|j: int| 0 <= j < k ==> views[j] != t@,
    {
        if list[k].eq(t) {
            proof {
                assert(views[k as int] == t@);
            }
            return true;
        }
    }
    proof {
        assert(!views.contains(t@));
    }
    false
}

/// Applies the table filters: an empty allow list means all tables; the
/// deny list is applied after and wins over the allow list on overlap.
pub fn filter_tables(tables: &Vec<String>, allow_list: &Vec<String>, deny_list: &Vec<String>) -> (r: Vec<
    String,
>)
    ensures
        r@.map_values(|s: String| s@) == spec_filter_tables(
            tables@.map_values(|s: String| s@),
            allow_list@.map_values(|s: String| s@),
            deny_list@.map_values(|s: String| s@),
        ),
{
    let ghost tv = tables@.map_values(|s: String| s@);
    let ghost iv = allow_list@.map_values(|s: String| s@);
    let ghost ev = deny_list@.map_values(|s: String| s@);
    let mut r: Vec<String> = Vec::new();
    let n_tables = tables.len();
    for k in 0..n_tables
        invariant
            n_tables == tables@.len(),
            tv == tables@.map_values(|s: String| s@),
            iv == allow_list@.map_values(|s: String| s@),
            ev == deny_list@.map_values(|s: String| s@),
            r@.map_values(|s: String| s@) =~= spec_filter_tables(tv.take(k as int), iv, ev),
    {
        let t = &tables[k];
        let keep = (allow_list.len() == 0 || list_contains(allow_list, t)) && !list_contains(deny_list, t);
        proof {
            assert(tv.take(k + 1).drop_last() =~= tv.take(k as int));
            assert(tv.take(k + 1).last() == tv[k as int]);
        }
        if keep {
            let copy = crate::text::chars_to_string(&crate::text::str_to_chars(t.as_str()));
            r.push(copy);
            proof {
                assert(r@.map_values(|s: String| s@) =~= spec_filter_tables(tv.take(k + 1), iv, ev));
            }
        } else {
            proof {
                assert(r@.map_values(|s: String| s@) =~= spec_filter_tables(tv.take(k + 1), iv, ev));
            }
        }
    }
    proof {
        assert(tv.take(n_tables as int) =~= tv);
    }
    r
}

/// One live connection's transaction flag: a snapshot transaction is opened
/// at most once, and commit is owed exactly when one was opened.
pub struct SessionTxn {
    pub in_transaction: bool,
}

impl SessionTxn {
    /// A fresh session has no open transaction.
    pub fn new() -> (s: SessionTxn)
        ensures
            !s.in_transaction,
    {
        SessionTxn { in_transaction: false }
    }

    /// Records that a consistent-snapshot transaction was opened.
    pub fn on_snapshot_started(&mut self)
        ensures
            final(self).in_transaction,
    {
        self.in_transaction = true;
    }

    /// Whether a COMMIT must be sent now: true exactly when a transaction
    /// was opened and not yet committed; the flag is cleared either way.
    pub fn take_commit(&mut self) -> (r: bool)
        ensures
            r == old(self).in_transaction,
            !final(self).in_transaction,
    {
        let r = self.in_transaction;
        self.in_transaction = false;
        r
    }
}

/// An ephemeral ordered batch of rows: each row's 1-based source ordinal
/// next to its values.
#[derive(Debug)]
pub struct Batch {
    pub ordinals: Vec<u64>,
    pub rows: Vec<Vec<SqlValue>>,
}

impl Batch {
    /// Each row has exactly one ordinal.
    pub open spec fn wf(self) -> bool {
        self.ordinals@.len() == self.rows@.len()
    }

    /// An empty batch.
    pub fn new() -> (b: Batch)
        ensures
            b.wf(),
            b.rows@.len() == 0,
            b.ordinals@.len() == 0,
    {
        Batch { ordinals: Vec::new(), rows: Vec::new() }
    }

    /// Number of rows in the batch.
    pub fn len(&self) -> (n: usize)
        ensures
            n == self.rows@.len(),
    {
        self.rows.len()
    }
}

/// Accumulates streamed rows into bounded batches, assigning each row its
/// 1-based ordinal in the source's scan order.
pub struct BatchBuilder {
    pub batch_rows: usize,
    pub next_ordinal: u64,
    pub pending: Batch,
}

impl BatchBuilder {
    /// The capacity is positive, the pending batch is below it, and the
    /// pending rows carry the consecutive ordinals just before
    /// `next_ordinal`.
    pub open spec fn wf(self) -> bool {
        &&& self.batch_rows > 0
        &&& self.pending.wf()
        &&& self.pending.rows@.len() < self.batch_rows
        &&& self.next_ordinal >= 1 + self.pending.rows@.len()
        &&& forall|i: int|
            0 <= i < self.pending.ordinals@.len() ==> self.pending.ordinals@[i]
                == self.next_ordinal - self.pending.ordinals@.len() + i
    }

    /// A fresh builder; ordinals start at 1.
    pub fn new(batch_rows: usize) -> (b: BatchBuilder)
        requires
            batch_rows > 0,
        ensures
            b.wf(),
            b.batch_rows == batch_rows,
            b.next_ordinal == 1,
            b.pending.rows@.len() == 0,
    {
        BatchBuilder { batch_rows, next_ordinal: 1, pending: Batch::new() }
    }

    /// Takes the pending batch out, leaving an empty one behind.
    fn take_pending(&mut self) -> (b: Batch)
        ensures
            b == old(self).pending,
            final(self).pending.rows@.len() == 0,
            final(self).pending.ordinals@.len() == 0,
            final(self).batch_rows == old(self).batch_rows,
            final(self).next_ordinal == old(self).next_ordinal,
    {
        let mut taken = Batch::new();
        core::mem::swap(&mut taken, &mut self.pending);
        taken
    }

    /// Accepts the next streamed row. When the row fills the batch, the
    /// whole batch is handed back for flushing and the builder starts a new
    /// one; otherwise the row is retained.
    pub fn push_row(&mut self, values: Vec<SqlValue>) -> (r: Option<Batch>)
        requires
            old(self).wf(),
            old(self).next_ordinal < u64::MAX,
        ensures
            final(self).wf(),
            final(self).batch_rows == old(self).batch_rows,
            final(self).next_ordinal == old(self).next_ordinal + 1,
            old(self).pending.rows@.len() + 1 == old(self).batch_rows ==> {
                &&& r matches Some(b)
                &&& b.rows@ == old(self).pending.rows@.push(values)
                &&& b.ordinals@ == old(self).pending.ordinals@.push(old(self).next_ordinal)
                &&& b.wf()
                &&& final(self).pending.rows@.len() == 0
            },
            old(self).pending.rows@.len() + 1 < old(self).batch_rows ==> {
                &&& r is None
                &&& final(self).pending.rows@ == old(self).pending.rows@.push(values)
                &&& final(self).pending.ordinals@ == old(self).pending.ordinals@.push(
                    old(self).next_ordinal,
                )
            },
    {
        let ordinal = self.next_ordinal;
        self.pending.ordinals.push(ordinal);
        self.pending.rows.push(values);
        self.next_ordinal = self.next_ordinal + 1;
        if self.pending.rows.len() >= self.batch_rows {
            Some(self.take_pending())
        } else {
            None
        }
    }

    /// Hands back the final, partially filled batch at stream exhaustion,
    /// if any rows are pending.
    pub fn finish(&mut self) -> (r: Option<Batch>)
        requires
            old(self).wf(),
        ensures
            final(self).wf(),
            final(self).batch_rows == old(self).batch_rows,
            final(self).pending.rows@.len() == 0,
            old(self).pending.rows@.len() == 0 ==> r is None,
            old(self).pending.rows@.len() > 0 ==> (r matches Some(b) && b == old(self).pending),
    {
        if self.pending.rows.len() == 0 {
            None
        } else {
            Some(self.take_pending())
        }
    }
}

/// A row that could not be inserted: its source ordinal and a diagnostic
/// detail.
#[derive(Debug)]
pub struct RowFailure {
    pub ordinal: u64,
    pub detail: String,
}

/// A one-line rendering of a row's values for diagnostics, truncated to 200
/// characters (with an ellipsis) when longer.
pub open spec fn spec_record_summary(row: Seq<SqlValue>) -> Seq<char> {
    let full = seq!['('] + comma_join(row.map_values(|v: SqlValue| spec_sql_literal(v)))
        + seq![')'];
    if full.len() <= 200 {
        full
    } else {
        full.take(200) + "..."@
    }
}

/// Renders a row's value list for diagnostics, truncated to 200 characters.
#[verifier::rlimit(30)]
pub fn summarize_record(row: &Vec<SqlValue>) -> (r: String)
    ensures
        r@ == spec_record_summary(row@),
{
    let ghost lits: Seq<Seq<char>> = row@.map_values(|v: SqlValue| spec_sql_literal(v));
    let mut out: Vec<char> = Vec::new();
    out.push('(');
    let n_vals = row.len();
    for k in 0..n_vals
        invariant
            n_vals == row@.len(),
            lits == row@.map_values(|v: SqlValue| spec_sql_literal(v)),
            out@ == seq!['('] + comma_join(lits.take(k as int)),
    {
        if k > 0 {
            append_str(&mut out, ", ");
        }
        let lit = sql_literal_from_value(&row[k]);
        append_str(&mut out, lit.as_str());
        proof {
            lemma_comma_join_step(lits, k as int);
            assert(lits[k as int] == spec_sql_literal(row@[k as int]));
            assert(out@ =~= seq!['('] + comma_join(lits.take(k + 1)));
        }
    }
    out.push(')');
    proof {
        assert(lits.take(n_vals as int) =~= lits);
    }
    if out.len() <= 200 {
        chars_to_string(&out)
    } else {
        let mut t = subrange_chars(&out, 0, 200);
        append_str(&mut t, "...");
        chars_to_string(&t)
    }
}

/// The diagnostic recorded for one failed row: the backend's error text and
/// the offending row's value list.
pub open spec fn spec_failure_detail(err: Seq<char>, row: Seq<SqlValue>) -> Seq<char> {
    "Insert error: "@ + err + " | record: "@ + spec_record_summary(row)
}

fn failure_detail(err: &str, row: &Vec<SqlValue>) -> (r: String)
    ensures
        r@ == spec_failure_detail(err@, row@),
{
    let mut out: Vec<char> = Vec::new();
    append_str(&mut out, "Insert error: ");
    append_str(&mut out, err);
    append_str(&mut out, " | record: ");
    let summary = summarize_record(row);
    append_str(&mut out, summary.as_str());
    chars_to_string(&out)
}

/// Where a flush stands: the bulk attempt, the per-row fallback, finished,
/// or aborted by an unskippable row failure.
#[derive(Debug, Clone, Copy, PartialEq, Eq, Structural)]
pub enum FlushPhase {
    Bulk,
    Rows,
    Done,
    Aborted,
}

/// The outcome of replaying rows one by one with the given per-row success
/// flags: how many rows went through, and the ordinals of those that did
/// not, in order.
pub open spec fn per_row_result(ordinals: Seq<u64>, oks: Seq<bool>) -> (int, Seq<u64>)
    decreases oks.len(),
{
    if oks.len() == 0 {
        (0, Seq::empty())
    } else {
        let prev = per_row_result(ordinals, oks.drop_last());
        if oks.last() {
            (prev.0 + 1, prev.1)
        } else {
            (prev.0, prev.1.push(ordinals[oks.len() - 1]))
        }
    }
}

/// Every row transferred or recorded: the two counts always add up to the
/// number of rows attempted.
pub proof fn lemma_per_row_result_total(ordinals: Seq<u64>, oks: Seq<bool>)
    ensures
        per_row_result(ordinals, oks).0 >= 0,
        per_row_result(ordinals, oks).0 + per_row_result(ordinals, oks).1.len() == oks.len(),
    decreases oks.len(),
{
    if oks.len() > 0 {
        lemma_per_row_result_total(ordinals, oks.drop_last());
    }
}

/// Replaying a batch of valid rows transfers every row and records no
/// failure.
pub proof fn lemma_per_row_all_ok(ordinals: Seq<u64>, oks: Seq<bool>)
    requires
        forall|i: int| 0 <= i < oks.len() ==> oks[i],
    ensures
        per_row_result(ordinals, oks).0 == oks.len(),
        per_row_result(ordinals, oks).1.len() == 0,
    decreases oks.len(),
{
    if oks.len() > 0 {
        lemma_per_row_all_ok(ordinals, oks.drop_last());
    }
}

/// Replaying a batch in which exactly the row at position `k` is invalid
/// transfers all other rows and records exactly that row's ordinal.
pub proof fn lemma_per_row_single_failure(ordinals: Seq<u64>, oks: Seq<bool>, k: int)
    requires
        0 <= k < oks.len(),
        forall|i: int| 0 <= i < oks.len() ==> (oks[i] <==> i != k),
    ensures
        per_row_result(ordinals, oks).0 == oks.len() - 1,
        per_row_result(ordinals, oks).1 =~= seq![ordinals[k]],
    decreases oks.len(),
{
    if oks.len() - 1 == k {
        lemma_per_row_all_ok(ordinals, oks.drop_last());
    } else {
        lemma_per_row_single_failure(ordinals, oks.drop_last(), k);
    }
}

/// One batch flush with two-tier recovery: first one multi-row insert for
/// the whole batch; on failure the batch is not discarded but replayed row
/// by row, recording each row that still fails. With skip-errors off, the
/// first such row aborts the whole command.
pub struct BatchFlush {
    pub batch: Batch,
    pub skip_errors: bool,
    pub phase: FlushPhase,
    pub next_row: usize,
    pub transferred: u64,
    pub failures: Vec<RowFailure>,
    pub outcomes: Ghost<Seq<bool>>,
}

/// The ordinals of recorded failures, in recording order.
pub open spec fn failure_ordinals(fails: Seq<RowFailure>) -> Seq<u64> {
    fails.map_values(|f: RowFailure| f.ordinal)
}

impl BatchFlush {
    /// The machine's invariant: in the per-row phase the counts so far agree
    /// with `per_row_result` over the outcomes seen so far.
    pub open spec fn wf(self) -> bool {
        &&& self.batch.wf()
        &&& self.batch.rows@.len() > 0
        &&& match self.phase {
            FlushPhase::Bulk => self.next_row == 0 && self.transferred == 0 && self.failures@.len()
                == 0 && self.outcomes@.len() == 0,
            FlushPhase::Rows => {
                &&& self.next_row < self.batch.rows@.len()
                &&& self.outcomes@.len() == self.next_row
                &&& per_row_result(self.batch.ordinals@, self.outcomes@).0 == self.transferred
                &&& failure_ordinals(self.failures@) =~= per_row_result(
                    self.batch.ordinals@,
                    self.outcomes@,
                ).1
            },
            FlushPhase::Done => true,
            FlushPhase::Aborted => true,
        }
    }

    /// Starts a flush for a non-empty batch; the bulk attempt comes first.
    pub fn new(batch: Batch, skip_errors: bool) -> (s: BatchFlush)
        requires
            batch.wf(),
            batch.rows@.len() > 0,
        ensures
            s.wf(),
            s.batch == batch,
            s.skip_errors == skip_errors,
            s.phase == FlushPhase::Bulk,
            s.transferred == 0,
            s.failures@.len() == 0,
    {
        BatchFlush {
            batch,
            skip_errors,
            phase: FlushPhase::Bulk,
            next_row: 0,
            transferred: 0,
            failures: Vec::new(),
            outcomes: Ghost(Seq::empty()),
        }
    }

    /// The single multi-row INSERT covering the whole batch.
    pub fn bulk_sql<D: SqlDialect>(&self, dialect: &D, table: &str, columns: &[String]) -> (r:
        String)
        ensures
            r@ == spec_insert_values_sql(
                dialect,
                table@,
                columns@.map_values(|c: String| c@),
                self.batch.rows@.map_values(|row: Vec<SqlValue>| row@),
            ),
    {
        crate::dialect::build_insert_values_sql(dialect, table, columns, self.batch.rows.as_slice())
    }

    /// The single-row INSERT for the row the per-row fallback stands at.
    pub fn row_sql<D: SqlDialect>(&self, dialect: &D, table: &str, columns: &[String]) -> (r:
        String)
        requires
            self.wf(),
            self.phase == FlushPhase::Rows,
        ensures
            r@ == spec_insert_values_sql(
                dialect,
                table@,
                columns@.map_values(|c: String| c@),
                seq![self.batch.rows@[self.next_row as int]@],
            ),
    {
        let single = core::slice::from_ref(&self.batch.rows[self.next_row]);
        let r = crate::dialect::build_insert_values_sql(dialect, table, columns, single);
        proof {
            assert(single@.map_values(|row: Vec<SqlValue>| row@) =~= seq![
                self.batch.rows@[self.next_row as int]@,
            ]);
        }
        r
    }

    /// Records the outcome of the bulk attempt. Success transfers the whole
    /// batch with no recorded failure; failure moves to the per-row
    /// fallback without discarding any row.
    pub fn on_bulk_result(&mut self, ok: bool)
        requires
            old(self).wf(),
            old(self).phase == FlushPhase::Bulk,
        ensures
            final(self).wf(),
            final(self).batch == old(self).batch,
            final(self).skip_errors == old(self).skip_errors,
            ok ==> {
                &&& final(self).phase == FlushPhase::Done
                &&& final(self).transferred == old(self).batch.rows@.len()
                &&& final(self).failures@.len() == 0
            },
            !ok ==> {
                &&& final(self).phase == FlushPhase::Rows
                &&& final(self).next_row == 0
                &&& final(self).transferred == 0
                &&& final(self).failures@.len() == 0
            },
    {
        if ok {
            self.transferred = self.batch.rows.len() as u64;
            self.phase = FlushPhase::Done;
        } else {
            self.phase = FlushPhase::Rows;
        }
    }

    /// Records the outcome of one single-row insert in the fallback phase.
    /// A row that still fails is recorded with its source ordinal and a
    /// diagnostic; with skip-errors off it aborts the whole flush at once.
    pub fn on_row_result(&mut self, ok: bool, err: &str)
        requires
            old(self).wf(),
            old(self).phase == FlushPhase::Rows,
        ensures
            final(self).wf(),
            final(self).batch == old(self).batch,
            final(self).skip_errors == old(self).skip_errors,
            final(self).outcomes@ == old(self).outcomes@.push(ok),
            final(self).transferred == old(self).transferred + (if ok {
                1int
            } else {
                0int
            }),
            ok ==> final(self).failures@ == old(self).failures@,
            !ok ==> final(self).failures@.len() == old(self).failures@.len() + 1
                && final(self).failures@.last().ordinal == old(self).batch.ordinals@[old(
                self,
            ).next_row as int] && final(self).failures@.last().detail@ == spec_failure_detail(
                err@,
                old(self).batch.rows@[old(self).next_row as int]@,
            ) && final(self).failures@.drop_last() == old(self).failures@,
            !ok && !old(self).skip_errors ==> final(self).phase == FlushPhase::Aborted,
            (ok || old(self).skip_errors) ==> {
                &&& old(self).next_row + 1 < old(self).batch.rows@.len() ==> final(self).phase
                    == FlushPhase::Rows && final(self).next_row == old(self).next_row + 1
                &&& old(self).next_row + 1 == old(self).batch.rows@.len() ==> final(self).phase
                    == FlushPhase::Done
            },
            final(self).phase == FlushPhase::Done || final(self).phase == FlushPhase::Aborted ==> {
                &&& final(self).transferred == per_row_result(
                    old(self).batch.ordinals@,
                    final(self).outcomes@,
                ).0
                &&& failure_ordinals(final(self).failures@) =~= per_row_result(
                    old(self).batch.ordinals@,
                    final(self).outcomes@,
                ).1
            },
    {
        let batch_len = self.batch.rows.len();
        proof {
            lemma_per_row_result_total(self.batch.ordinals@, self.outcomes@);
            assert(self.outcomes@.push(ok).drop_last() =~= self.outcomes@);
        }
        let ghost new_outcomes = self.outcomes@.push(ok);
        if ok {
            self.transferred = self.transferred + 1;
        } else {
            let detail = failure_detail(err, &self.batch.rows[self.next_row]);
            let ordinal = self.batch.ordinals[self.next_row];
            self.failures.push(RowFailure { ordinal, detail });
            proof {
                assert(failure_ordinals(self.failures@) =~= per_row_result(
                    self.batch.ordinals@,
                    new_outcomes,
                ).1);
            }
        }
        proof {
            self.outcomes@ = new_outcomes;
        }
        if !ok && !self.skip_errors {
            self.phase = FlushPhase::Aborted;
        } else if self.next_row < batch_len - 1 {
            self.next_row = self.next_row + 1;
        } else {
            self.phase = FlushPhase::Done;
        }
    }
}

/// The failure report shown after a table's transfer: the first ten
/// failures with their reasons, then the count of any remainder.
pub open spec fn spec_failure_report(fails: Seq<RowFailure>) -> Seq<Seq<char>> {
    let shown = if fails.len() <= 10 {
        fails
    } else {
        fails.take(10)
    };
    let lines = shown.map_values(|f: RowFailure| spec_failure_line(f));
    if fails.len() > 10 {
        lines.push("  ... and "@ + dec_chars((fails.len() - 10) as nat) + " more errors"@)
    } else {
        lines
    }
}

/// One line of the failure report.
pub open spec fn spec_failure_line(f: RowFailure) -> Seq<char> {
    "  Line "@ + dec_chars(f.ordinal as nat) + ": "@ + f.detail@
}

/// Renders the failure report lines: at most ten failures, then the count
/// of the rest.
pub fn failure_report_lines(fails: &Vec<RowFailure>) -> (r: Vec<String>)
    ensures
        r@.map_values(|s: String| s@) == spec_failure_report(fails@),
{
    let mut r: Vec<String> = Vec::new();
    let shown: usize = if fails.len() <= 10 {
        fails.len()
    } else {
        10
    };
    let ghost shown_seq = if fails@.len() <= 10 {
        fails@
    } else {
        fails@.take(10)
    };
    let ghost mapped = shown_seq.map_values(|f: RowFailure| spec_failure_line(f));
    for k in 0..shown
        invariant
            shown == if fails@.len() <= 10 {
                fails@.len() as int
            } else {
                10int
            },
            shown <= fails@.len(),
            shown_seq == if fails@.len() <= 10 {
                fails@
            } else {
                fails@.take(10)
            },
            mapped == shown_seq.map_values(|f: RowFailure| spec_failure_line(f)),
            r@.map_values(|s: String| s@) =~= mapped.take(k as int),
    {
        let mut line: Vec<char> = Vec::new();
        append_str(&mut line, "  Line ");
        let digits = u64_dec_chars(fails[k].ordinal);
        crate::text::append_chars(&mut line, &digits);
        append_str(&mut line, ": ");
        append_str(&mut line, fails[k].detail.as_str());
        let ls = chars_to_string(&line);
        let ghost r_before = r@;
        r.push(ls);
        proof {
            assert(shown_seq[k as int] == fails@[k as int]);
            assert(mapped[k as int] == spec_failure_line(shown_seq[k as int]));
            assert(line@ =~= spec_failure_line(fails@[k as int]));
            assert(r@.map_values(|s: String| s@) =~= r_before.map_values(|s: String| s@).push(
                line@,
            ));
            assert(r@.map_values(|s: String| s@) =~= mapped.take(k + 1));
        }
    }
    proof {
        assert(mapped.take(shown as int) =~= mapped);
    }
    if fails.len() > 10 {
        let mut line: Vec<char> = Vec::new();
        append_str(&mut line, "  ... and ");
        let digits = u64_dec_chars((fails.len() - 10) as u64);
        crate::text::append_chars(&mut line, &digits);
        append_str(&mut line, " more errors");
        r.push(chars_to_string(&line));
        proof {
            assert(r@.map_values(|s: String| s@) =~= spec_failure_report(fails@));
        }
    }
    proof {
        assert(r@.map_values(|s: String| s@) =~= spec_failure_report(fails@));
    }
    r
}

} // verus!
