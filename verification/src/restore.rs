//! The restore input scanner: line-oriented, not a SQL tokenizer. Blank
//! lines and comment lines are skipped; other lines accumulate in a
//! statement buffer that is handed out whole as soon as a line's trimmed
//! text ends with a semicolon. This is safe only for self-produced dumps,
//! where each CREATE and INSERT is a single logical line.
use crate::text::{
    append_chars, chars_start_with, chars_to_string, starts_with, str_to_chars, trim_chars,
    trim_spec,
};
use vstd::prelude::*;

verus! {

/// Options for a restore run.
#[derive(Debug)]
pub struct RestoreOptions {
    pub disable_fk_checks: bool,
}

/// A line the scanner ignores: blank, or a comment line.
pub open spec fn spec_line_skipped(line: Seq<char>) -> bool {
    trim_spec(line).len() == 0 || starts_with(trim_spec(line), "--"@)
}

/// A line that completes the buffered statement: its trimmed text ends
/// with a semicolon.
pub open spec fn spec_line_completes(line: Seq<char>) -> bool {
    trim_spec(line).len() > 0 && trim_spec(line).last() == ';'
}

/// Accumulates dump-file lines into executable statements.
#[derive(Debug)]
pub struct RestoreScanner {
    pub buffer: Vec<char>,
}

impl RestoreScanner {
    /// A fresh scanner with an empty statement buffer.
    pub fn new() -> (s: RestoreScanner)
        ensures
            s.buffer@.len() == 0,
    {
        RestoreScanner { buffer: Vec::new() }
    }

    /// Feeds one input line. A blank or comment line is skipped; any other
    /// line is buffered (with a space after it), and when its trimmed text
    /// ends with a semicolon the whole buffered statement is returned,
    /// trimmed, and the buffer cleared.
    pub fn feed_line(&mut self, line: &str) -> (r: Option<String>)
        ensures
            spec_line_skipped(line@) ==> r is None && final(self).buffer == old(self).buffer,
            !spec_line_skipped(line@) && !spec_line_completes(line@) ==> r is None
                && final(self).buffer@ == old(self).buffer@ + line@ + seq![' '],
            !spec_line_skipped(line@) && spec_line_completes(line@) ==> (r matches Some(stmt)
                && stmt@ == trim_spec(old(self).buffer@ + line@ + seq![' '])
                && final(self).buffer@.len() == 0),
    {
        let lc = str_to_chars(line);
        let t = trim_chars(&lc);
        if t.len() == 0 {
            return None;
        }
        if chars_start_with(&t, "--") {
            return None;
        }
        append_chars(&mut self.buffer, &lc);
        self.buffer.push(' ');
        proof {
            assert(self.buffer@ =~= old(self).buffer@ + line@ + seq![' ']);
        }
        if t[t.len() - 1] == ';' {
            let stmt = trim_chars(&self.buffer);
            self.buffer = Vec::new();
            Some(chars_to_string(&stmt))
        } else {
            None
        }
    }

    /// Hands out whatever remains buffered at end of input, trimmed, if it
    /// is not blank.
    pub fn finish(&mut self) -> (r: Option<String>)
        ensures
            final(self).buffer@.len() == 0,
            trim_spec(old(self).buffer@).len() == 0 ==> r is None,
            trim_spec(old(self).buffer@).len() > 0 ==> (r matches Some(stmt) && stmt@ == trim_spec(
                old(self).buffer@,
            )),
    {
        let t = trim_chars(&self.buffer);
        self.buffer = Vec::new();
        if t.len() == 0 {
            None
        } else {
            Some(chars_to_string(&t))
        }
    }
}

} // verus!
