//! The CSV import surface: its options and the column-mapping parser. The
//! column-type inference itself is a collaborator outside the verified
//! core; the insert pipeline it feeds is the shared one in `pipeline`.
use crate::text::{chars_to_string, split_char, split_char_in, str_to_chars, trim_chars, trim_spec};
use vstd::prelude::*;

verus! {

/// Options for a CSV import run. The column mapping associates CSV header
/// names with database column names, in the order given.
#[derive(Debug)]
pub struct ImportOptions {
    pub input: String,
    pub table: String,
    pub batch_rows: usize,
    pub disable_fk_checks: bool,
    pub skip_errors: bool,
    pub column_mapping: Option<Vec<(String, String)>>,
}

/// The parsed form of a `csv_col:db_col,...` mapping: each comma-separated
/// pair, trimmed, must split on `:` into exactly two parts.
pub open spec fn spec_parse_column_mapping(s: Seq<char>) -> Option<Seq<(Seq<char>, Seq<char>)>> {
    let pairs = split_char(s, ',');
    if forall|p: int|
        0 <= p < pairs.len() ==> split_char(trim_spec(#[trigger] pairs[p]), ':').len() == 2 {
        Some(
            pairs.map_values(
                |p: Seq<char>|
                    (split_char(trim_spec(p), ':')[0], split_char(trim_spec(p), ':')[1]),
            ),
        )
    } else {
        None
    }
}

/// Parse column mapping from string format: "col1:db_col1,col2:db_col2".
pub fn parse_column_mapping(mapping: &str) -> (r: Result<Vec<(String, String)>, String>)
    ensures
        r is Ok <==> spec_parse_column_mapping(mapping@) is Some,
        r matches Ok(v) ==> Some(v@.map_values(|p: (String, String)| (p.0@, p.1@)))
            == spec_parse_column_mapping(mapping@),
        r matches Err(e) ==> e@
            == "Invalid column mapping format. Expected 'csv_col:db_col,csv_col2:db_col2'"@,
{
    let chars = str_to_chars(mapping);
    let pairs = split_char_in(&chars, ',');
    let ghost pairs_v = pairs@.map_values(|p: Vec<char>| p@);
    let ghost mapped = pairs_v.map_values(
        |p: Seq<char>| (split_char(trim_spec(p), ':')[0], split_char(trim_spec(p), ':')[1]),
    );
    let mut out: Vec<(String, String)> = Vec::new();
    let n_pairs = pairs.len();
    for k in 0..n_pairs
        invariant
            n_pairs == pairs@.len(),
            pairs_v == pairs@.map_values(|p: Vec<char>| p@),
            pairs_v == split_char(mapping@, ','),
            mapped == pairs_v.map_values(
                |p: Seq<char>|
                    (split_char(trim_spec(p), ':')[0], split_char(trim_spec(p), ':')[1]),
            ),
            forall|p: int|
                0 <= p < k ==> split_char(trim_spec(#[trigger] pairs_v[p]), ':').len() == 2,
            out@.map_values(|p: (String, String)| (p.0@, p.1@)) =~= mapped.take(k as int),
    {
        let t = trim_chars(&pairs[k]);
        let halves = split_char_in(&t, ':');
        if halves.len() != 2 {
            proof {
                assert(split_char(mapping@, ',')[k as int] == pairs_v[k as int]);
                assert(split_char(trim_spec(pairs_v[k as int]), ':').len() != 2);
            }
            return Err(
                chars_to_string(
                    &str_to_chars(
                        "Invalid column mapping format. Expected 'csv_col:db_col,csv_col2:db_col2'",
                    ),
                ),
            );
        }
        let csv_col = chars_to_string(&halves[0]);
        let db_col = chars_to_string(&halves[1]);
        let ghost out_before = out@;
        out.push((csv_col, db_col));
        proof {
            assert(halves@.map_values(|p: Vec<char>| p@)[0] == halves@[0]@);
            assert(halves@.map_values(|p: Vec<char>| p@)[1] == halves@[1]@);
            assert(mapped[k as int] == (
                split_char(trim_spec(pairs_v[k as int]), ':')[0],
                split_char(trim_spec(pairs_v[k as int]), ':')[1],
            ));
            assert(out@.map_values(|p: (String, String)| (p.0@, p.1@)) =~= out_before.map_values(
                |p: (String, String)| (p.0@, p.1@),
            ).push((csv_col@, db_col@)));
            assert(out@.map_values(|p: (String, String)| (p.0@, p.1@)) =~= mapped.take(k + 1));
        }
    }
    proof {
        assert(mapped.take(n_pairs as int) =~= mapped);
        assert(pairs_v == split_char(mapping@, ','));
        assert forall|p: int| 0 <= p < split_char(mapping@, ',').len() implies split_char(
            trim_spec(#[trigger] split_char(mapping@, ',')[p]),
            ':',
        ).len() == 2 by {
            assert(split_char(mapping@, ',')[p] == pairs_v[p]);
            assert(split_char(trim_spec(pairs_v[p]), ':').len() == 2);
        }
        assert(spec_parse_column_mapping(mapping@) matches Some(m) && m =~= mapped);
    }
    Ok(out)
}

} // verus!
