//! The direct source-to-destination transfer: its options, and the
//! same-dialect precheck that rejects a cross-provider migration before
//! anything is read or written.
use crate::text::{append_chars, append_str, chars_eq, chars_to_string, str_to_chars};
use vstd::prelude::*;

verus! {

/// Options for a migrate run. When both `schema_only` and `data_only` are
/// set, neither schema nor data is transferred: each flag only suppresses
/// the other half of the work.
#[derive(Debug)]
pub struct MigrateOptions {
    pub tables: Vec<String>,
    pub exclude: Vec<String>,
    pub schema_only: bool,
    pub data_only: bool,
    pub batch_rows: usize,
    pub consistent_snapshot: bool,
    pub disable_fk_checks: bool,
}

/// The error reported when source and destination speak different
/// dialects.
pub open spec fn spec_dialect_mismatch_message(source: Seq<char>, destination: Seq<char>) -> Seq<
    char,
> {
    "dialect mismatch: source is "@ + source + " but destination is "@ + destination
}

/// Rejects a cross-provider transfer outright: succeeds exactly when the
/// two dialect names are equal, and must be checked before any table is
/// touched, leaving the destination unmodified on mismatch.
pub fn require_same_dialect(source_name: &str, destination_name: &str) -> (r: Result<(), String>)
    ensures
        r is Ok <==> source_name@ == destination_name@,
        r matches Err(e) ==> e@ == spec_dialect_mismatch_message(
            source_name@,
            destination_name@,
        ),
{
    let a = str_to_chars(source_name);
    let b = str_to_chars(destination_name);
    if chars_eq(&a, &b) {
        Ok(())
    } else {
        let mut msg: Vec<char> = Vec::new();
        append_str(&mut msg, "dialect mismatch: source is ");
        append_chars(&mut msg, &a);
        append_str(&mut msg, " but destination is ");
        append_chars(&mut msg, &b);
        Err(chars_to_string(&msg))
    }
}

} // verus!
