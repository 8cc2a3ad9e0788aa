use migrasquiel::dialects::mysql::MysqlDialect;
use migrasquiel::pipeline::{
    failure_report_lines, filter_tables, Batch, BatchBuilder, BatchFlush, FlushPhase, RowFailure,
    SessionTxn,
};
use migrasquiel::value::SqlValue;

fn strings(items: &[&str]) -> Vec<String> {
    items.iter().map(|s| s.to_string()).collect()
}

#[test]
fn empty_filters_keep_all_tables() {
    let tables = strings(&["a", "b", "c"]);
    let kept = filter_tables(&tables, &Vec::new(), &Vec::new());
    assert_eq!(kept, tables);
}

#[test]
fn exclude_wins_over_include() {
    let tables = strings(&["a", "b"]);
    let kept = filter_tables(&tables, &strings(&["a"]), &strings(&["a"]));
    assert!(kept.is_empty());
}

#[test]
fn include_and_exclude_filters() {
    let tables = strings(&["a", "b", "c", "d"]);
    let kept = filter_tables(&tables, &strings(&["a", "c", "d"]), &strings(&["c"]));
    assert_eq!(kept, strings(&["a", "d"]));
}

fn three_row_batch() -> Batch {
    let mut builder = BatchBuilder::new(10);
    assert!(builder.push_row(vec![SqlValue::Int(1)]).is_none());
    assert!(builder.push_row(vec![SqlValue::Int(2)]).is_none());
    assert!(builder.push_row(vec![SqlValue::Int(3)]).is_none());
    builder.finish().expect("three rows pending")
}

#[test]
fn bulk_success_transfers_whole_batch() {
    let mut flush = BatchFlush::new(three_row_batch(), false);
    assert_eq!(flush.phase, FlushPhase::Bulk);
    flush.on_bulk_result(true);
    assert_eq!(flush.phase, FlushPhase::Done);
    assert_eq!(flush.transferred, 3);
    assert_eq!(flush.failures.len(), 0);
}

#[test]
fn row_fallback_isolates_one_bad_row_with_skip() {
    let mut flush = BatchFlush::new(three_row_batch(), true);
    flush.on_bulk_result(false);
    assert_eq!(flush.phase, FlushPhase::Rows);
    flush.on_row_result(true, "");
    flush.on_row_result(false, "duplicate key");
    flush.on_row_result(true, "");
    assert_eq!(flush.phase, FlushPhase::Done);
    assert_eq!(flush.transferred, 2);
    assert_eq!(flush.failures.len(), 1);
    assert_eq!(flush.failures[0].ordinal, 2);
    assert_eq!(
        flush.failures[0].detail,
        "Insert error: duplicate key | record: (2)"
    );
}

#[test]
fn row_failure_without_skip_aborts_at_once() {
    let mut flush = BatchFlush::new(three_row_batch(), false);
    flush.on_bulk_result(false);
    flush.on_row_result(true, "");
    flush.on_row_result(false, "bad row");
    assert_eq!(flush.phase, FlushPhase::Aborted);
    assert_eq!(flush.transferred, 1);
    assert_eq!(flush.failures.len(), 1);
    assert_eq!(flush.failures[0].ordinal, 2);
}

#[test]
fn bulk_and_row_sql_cover_expected_rows() {
    let columns = vec![String::from("n")];
    let mut flush = BatchFlush::new(three_row_batch(), true);
    assert_eq!(
        flush.bulk_sql(&MysqlDialect, "t", &columns),
        "INSERT INTO `t` (`n`) VALUES (1), (2), (3);"
    );
    flush.on_bulk_result(false);
    assert_eq!(
        flush.row_sql(&MysqlDialect, "t", &columns),
        "INSERT INTO `t` (`n`) VALUES (1);"
    );
    flush.on_row_result(true, "");
    assert_eq!(
        flush.row_sql(&MysqlDialect, "t", &columns),
        "INSERT INTO `t` (`n`) VALUES (2);"
    );
}

#[test]
fn batch_builder_emits_full_batches_with_ordinals() {
    let mut builder = BatchBuilder::new(2);
    assert!(builder.push_row(vec![SqlValue::Int(10)]).is_none());
    let full = builder.push_row(vec![SqlValue::Int(20)]).expect("batch is full");
    assert_eq!(full.ordinals, vec![1, 2]);
    assert_eq!(full.rows.len(), 2);
    assert!(builder.push_row(vec![SqlValue::Int(30)]).is_none());
    let rest = builder.finish().expect("one row pending");
    assert_eq!(rest.ordinals, vec![3]);
    assert!(builder.finish().is_none());
}

#[test]
fn dump_batches_split_three_rows_into_two_statements() {
    // Dumping a 3-row table with batch size 2 yields two INSERT statements,
    // two rows then one, in original scan order.
    let columns = vec![String::from("n")];
    let rows = vec![
        vec![SqlValue::Int(1)],
        vec![SqlValue::Int(2)],
        vec![SqlValue::Int(3)],
    ];
    let stmts = migrasquiel::dump::batch_insert_statements("t", &columns, &rows, 2);
    assert_eq!(stmts.len(), 2);
    assert_eq!(stmts[0], "INSERT INTO `t` (`n`) VALUES (1), (2);");
    assert_eq!(stmts[1], "INSERT INTO `t` (`n`) VALUES (3);");
}

#[test]
fn record_summary_truncates_to_200_chars() {
    let long = "x".repeat(300);
    let row = vec![SqlValue::Text(long)];
    let summary = migrasquiel::pipeline::summarize_record(&row);
    assert_eq!(summary.chars().count(), 203);
    assert!(summary.ends_with("..."));
    let short = migrasquiel::pipeline::summarize_record(&vec![SqlValue::Int(5)]);
    assert_eq!(short, "(5)");
}

#[test]
fn failure_report_shows_first_ten_and_remainder() {
    let fails: Vec<RowFailure> = (1..=12)
        .map(|i| RowFailure { ordinal: i, detail: format!("e{}", i) })
        .collect();
    let lines = failure_report_lines(&fails);
    assert_eq!(lines.len(), 11);
    assert_eq!(lines[0], "  Line 1: e1");
    assert_eq!(lines[9], "  Line 10: e10");
    assert_eq!(lines[10], "  ... and 2 more errors");
    let few_fails: Vec<RowFailure> = (1..=3)
        .map(|i| RowFailure { ordinal: i, detail: format!("e{}", i) })
        .collect();
    let few = failure_report_lines(&few_fails);
    assert_eq!(few.len(), 3);
}

#[test]
fn session_commit_owed_only_after_snapshot() {
    let mut txn = SessionTxn::new();
    assert!(!txn.take_commit());
    txn.on_snapshot_started();
    assert!(txn.take_commit());
    assert!(!txn.take_commit());
}
