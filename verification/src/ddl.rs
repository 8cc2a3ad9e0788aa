//! Normalization of introspected CREATE TABLE statements: the provider's
//! canonical DDL is collapsed to a single line and rewritten to be
//! idempotent by inserting an if-not-exists clause right after the
//! create-table keyword. The substitution is safe because that clause
//! position is fixed by construction, not recovered by parsing.
use crate::text::{
    append_chars, chars_start_with, chars_to_string, is_space, join_space, lemma_join_space_step,
    lemma_split_char_len, lemma_split_char_parts_free, split_char, split_char_in, starts_with,
    str_to_chars, subrange_chars, trim_back, trim_chars, trim_front, trim_spec,
};
use vstd::prelude::*;

verus! {

/// The statement's lines, each trimmed, joined with single spaces.
pub open spec fn spec_joined_lines(s: Seq<char>) -> Seq<char> {
    join_space(split_char(s, '\n').map_values(|l: Seq<char>| trim_spec(l)))
}

/// The normalized CREATE statement: one line, and when it begins with the
/// create-table keyword, the if-not-exists variant of it.
pub open spec fn spec_minify_create_table(s: Seq<char>) -> Seq<char> {
    let j = spec_joined_lines(s);
    if starts_with(j, "CREATE TABLE"@) {
        "CREATE TABLE IF NOT EXISTS"@ + j.skip("CREATE TABLE"@.len() as int)
    } else {
        j
    }
}

/// Minify CREATE TABLE statement to single line and add IF NOT EXISTS.
pub fn minify_create_table(create_stmt: &str) -> (r: String)
    ensures
        r@ == spec_minify_create_table(create_stmt@),
{
    let chars = str_to_chars(create_stmt);
    let parts = split_char_in(&chars, '\n');
    let ghost parts_v = parts@.map_values(|p: Vec<char>| p@);
    let ghost trimmed_v = parts_v.map_values(|l: Seq<char>| trim_spec(l));
    let mut j: Vec<char> = Vec::new();
    let n_parts = parts.len();
    for k in 0..n_parts
        invariant
            n_parts == parts@.len(),
            parts_v == parts@.map_values(|p: Vec<char>| p@),
            trimmed_v == parts_v.map_values(|l: Seq<char>| trim_spec(l)),
            j@ == join_space(trimmed_v.take(k as int)),
    {
        if k > 0 {
            j.push(' ');
        }
        let t = trim_chars(&parts[k]);
        append_chars(&mut j, &t);
        proof {
            lemma_join_space_step(trimmed_v, k as int);
            assert(trimmed_v[k as int] == trim_spec(parts_v[k as int]));
            assert(parts_v[k as int] == parts@[k as int]@);
        }
    }
    proof {
        assert(trimmed_v.take(n_parts as int) =~= trimmed_v);
    }
    if chars_start_with(&j, "CREATE TABLE") {
        proof {
            reveal_strlit("CREATE TABLE");
        }
        let tail = subrange_chars(&j, 12, j.len());
        let mut out = str_to_chars("CREATE TABLE IF NOT EXISTS");
        append_chars(&mut out, &tail);
        proof {
            assert(tail@ =~= spec_joined_lines(create_stmt@).skip(12));
            assert(out@ =~= spec_minify_create_table(create_stmt@));
        }
        chars_to_string(&out)
    } else {
        chars_to_string(&j)
    }
}

proof fn lemma_trim_front_free(s: Seq<char>, c: char)
    requires
        forall|i: int| 0 <= i < s.len() ==> s[i] != c,
    ensures
        forall|i: int| 0 <= i < trim_front(s).len() ==> trim_front(s)[i] != c,
    decreases s.len(),
{
    if s.len() > 0 && is_space(s[0]) {
        assert(forall|i: int|
            0 <= i < s.drop_first().len() ==> #[trigger] s.drop_first()[i] == s[i + 1]);
        lemma_trim_front_free(s.drop_first(), c);
        assert forall|i: int| 0 <= i < trim_front(s).len() implies trim_front(s)[i] != c by {
            assert(trim_front(s) == trim_front(s.drop_first()));
            assert(trim_front(s.drop_first())[i] != c);
        }
    }
}

proof fn lemma_trim_back_free(s: Seq<char>, c: char)
    requires
        forall|i: int| 0 <= i < s.len() ==> s[i] != c,
    ensures
        forall|i: int| 0 <= i < trim_back(s).len() ==> trim_back(s)[i] != c,
    decreases s.len(),
{
    if s.len() > 0 && is_space(s.last()) {
        assert(forall|i: int|
            0 <= i < s.drop_last().len() ==> #[trigger] s.drop_last()[i] == s[i]);
        lemma_trim_back_free(s.drop_last(), c);
        assert forall|i: int| 0 <= i < trim_back(s).len() implies trim_back(s)[i] != c by {
            assert(trim_back(s) == trim_back(s.drop_last()));
            assert(trim_back(s.drop_last())[i] != c);
        }
    }
}

proof fn lemma_join_space_free(parts: Seq<Seq<char>>, c: char)
    requires
        c != ' ',
        forall|p: int, i: int|
            0 <= p < parts.len() && 0 <= i < parts[p].len() ==> parts[p][i] != c,
    ensures
        forall|i: int| 0 <= i < join_space(parts).len() ==> join_space(parts)[i] != c,
    decreases parts.len(),
{
    if parts.len() == 1 {
        assert forall|i: int| 0 <= i < join_space(parts).len() implies join_space(parts)[i]
            != c by {
            assert(parts.last() == parts[0]);
            assert(parts[0][i] != c);
        }
    } else if parts.len() > 1 {
        assert(forall|p: int, i: int|
            0 <= p < parts.drop_last().len() && 0 <= i < parts.drop_last()[p].len()
                ==> #[trigger] parts.drop_last()[p][i] != c);
        lemma_join_space_free(parts.drop_last(), c);
        let jp = join_space(parts.drop_last());
        assert forall|i: int| 0 <= i < join_space(parts).len() implies join_space(parts)[i]
            != c by {
            assert(parts.last() == parts[parts.len() - 1]);
            if i < jp.len() {
                assert(jp[i] != c);
            } else if i > jp.len() {
                assert(join_space(parts)[i] == parts.last()[i - jp.len() - 1]);
                assert(parts[parts.len() - 1][i - jp.len() - 1] != c);
            }
        }
    }
}

/// A normalized CREATE statement is a single line: it contains no line
/// break, and when the provider's DDL began with the create-table keyword,
/// the normalized form begins with its if-not-exists variant.
pub proof fn lemma_minify_single_line(s: Seq<char>)
    ensures
        forall|i: int|
            0 <= i < spec_minify_create_table(s).len() ==> spec_minify_create_table(s)[i] != '\n',
        starts_with(spec_joined_lines(s), "CREATE TABLE"@) ==> starts_with(
            spec_minify_create_table(s),
            "CREATE TABLE IF NOT EXISTS"@,
        ),
{
    let parts = split_char(s, '\n');
    let trimmed = parts.map_values(|l: Seq<char>| trim_spec(l));
    lemma_split_char_parts_free(s, '\n');
    assert forall|p: int, i: int|
        0 <= p < trimmed.len() && 0 <= i < trimmed[p].len() implies trimmed[p][i] != '\n' by {
        lemma_trim_front_free(parts[p], '\n');
        lemma_trim_back_free(trim_front(parts[p]), '\n');
    }
    lemma_join_space_free(trimmed, '\n');
    let j = spec_joined_lines(s);
    if starts_with(j, "CREATE TABLE"@) {
        reveal_strlit("CREATE TABLE");
        reveal_strlit("CREATE TABLE IF NOT EXISTS");
        let m = spec_minify_create_table(s);
        assert(m.take("CREATE TABLE IF NOT EXISTS"@.len() as int) =~= "CREATE TABLE IF NOT EXISTS"@);
        assert(forall|i: int| 0 <= i < m.len() ==> m[i] != '\n');
    }
}

} // verus!
