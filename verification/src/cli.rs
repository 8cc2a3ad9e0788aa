//! The command surface: the three subcommands with their options, and the
//! URL redaction applied before any connection string is logged.
use crate::text::{
    append_chars, append_str, chars_to_string, find_char, find_char_in, lemma_find_char_props,
    lemma_rfind_char_before_props, rfind_char_before, rfind_char_before_in, str_to_chars,
    subrange_chars,
};
use vstd::prelude::*;

verus! {

/// The command-line surface of the tool.
#[derive(Debug)]
pub struct Cli {
    pub command: Commands,
}

/// One invocation: dump a database to a SQL file, restore one from a file,
/// or migrate directly from source to destination.
#[derive(Debug)]
pub enum Commands {
    Dump {
        source: Option<String>,
        source_env: Option<String>,
        output: String,
        provider: String,
        tables: Vec<String>,
        exclude: Vec<String>,
        schema_only: bool,
        data_only: bool,
        batch_rows: usize,
        consistent_snapshot: bool,
        gzip: bool,
    },
    Restore {
        destination: Option<String>,
        destination_env: Option<String>,
        input: String,
        provider: String,
        disable_fk_checks: bool,
    },
    Migrate {
        source: Option<String>,
        source_env: Option<String>,
        destination: Option<String>,
        destination_env: Option<String>,
        provider: String,
        tables: Vec<String>,
        exclude: Vec<String>,
        schema_only: bool,
        data_only: bool,
        batch_rows: usize,
        consistent_snapshot: bool,
        disable_fk_checks: bool,
    },
}

/// A URL with the password segment — between the last `:` before the first
/// `@` and that `@` — replaced by a fixed mask; a URL without both markers
/// is unchanged.
pub open spec fn spec_redact_url(s: Seq<char>) -> Seq<char> {
    let a = find_char(s, '@');
    if a >= 0 {
        let cpos = rfind_char_before(s, ':', a);
        if cpos >= 0 {
            s.take(cpos + 1) + "***"@ + s.skip(a)
        } else {
            s
        }
    } else {
        s
    }
}

impl Commands {
    /// Redact password from URL for logging.
    pub fn redact_url(url: &str) -> (r: String)
        ensures
            r@ == spec_redact_url(url@),
    {
        let chars = str_to_chars(url);
        let found_at = find_char_in(&chars, '@');
        match found_at {
            Some(a) => {
                proof {
                    lemma_find_char_props(url@, '@');
                }
                let found_colon = rfind_char_before_in(&chars, ':', a);
                match found_colon {
                    Some(cpos) => {
                        proof {
                            lemma_rfind_char_before_props(url@, ':', a as int);
                        }
                        let mut out = subrange_chars(&chars, 0, cpos + 1);
                        append_str(&mut out, "***");
                        let tail = subrange_chars(&chars, a, chars.len());
                        append_chars(&mut out, &tail);
                        proof {
                            assert(chars@.subrange(0, cpos + 1) =~= url@.take(cpos + 1));
                            assert(chars@.subrange(a as int, chars@.len() as int) =~= url@.skip(
                                a as int,
                            ));
                            assert(out@ =~= spec_redact_url(url@));
                        }
                        chars_to_string(&out)
                    },
                    None => chars_to_string(&chars),
                }
            },
            None => chars_to_string(&chars),
        }
    }
}

} // verus!
