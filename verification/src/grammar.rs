//! A specification-level reading of the literals the dialects emit: each
//! dialect's grammar, written as parse functions on character sequences,
//! with proofs that rendering and parsing are inverse. These are the
//! value-fidelity laws: a literal always conveys exactly the value it was
//! rendered from.
use crate::dialect::doubled;
use crate::value::{FloatLit, SqlValue};
use crate::dialects::mysql::{mysql_escaped, mysql_escaped_char};
use crate::text::{dec_chars, dec_digit, int_dec_chars, padded_nat, repeat_char};
use vstd::prelude::*;

verus! {

/// A decimal digit character.
pub open spec fn is_digit(c: char) -> bool {
    c == '0' || c == '1' || c == '2' || c == '3' || c == '4' || c == '5' || c == '6' || c == '7'
        || c == '8' || c == '9'
}

/// The value of a decimal digit character.
pub open spec fn digit_val(c: char) -> nat {
    if c == '0' {
        0
    } else if c == '1' {
        1
    } else if c == '2' {
        2
    } else if c == '3' {
        3
    } else if c == '4' {
        4
    } else if c == '5' {
        5
    } else if c == '6' {
        6
    } else if c == '7' {
        7
    } else if c == '8' {
        8
    } else {
        9
    }
}

/// A non-empty all-digit token read as an unsigned number.
pub open spec fn parse_uint(s: Seq<char>) -> Option<nat>
    decreases s.len(),
{
    if s.len() == 0 {
        None
    } else if !is_digit(s.last()) {
        None
    } else if s.len() == 1 {
        Some(digit_val(s.last()))
    } else {
        match parse_uint(s.drop_last()) {
            Some(v) => Some(v * 10 + digit_val(s.last())),
            None => None,
        }
    }
}

/// An integer token: an optional leading minus sign before the digits.
pub open spec fn parse_int(s: Seq<char>) -> Option<int> {
    if s.len() > 0 && s[0] == '-' {
        match parse_uint(s.skip(1)) {
            Some(v) => Some(-(v as int)),
            None => None,
        }
    } else {
        match parse_uint(s) {
            Some(v) => Some(v as int),
            None => None,
        }
    }
}

pub proof fn lemma_dec_chars_digits(n: nat)
    ensures
        dec_chars(n).len() >= 1,
        forall|i: int| 0 <= i < dec_chars(n).len() ==> is_digit(#[trigger] dec_chars(n)[i]),
    decreases n,
{
    if n >= 10 {
        lemma_dec_chars_digits(n / 10);
        assert forall|i: int| 0 <= i < dec_chars(n).len() implies is_digit(
            #[trigger] dec_chars(n)[i],
        ) by {
            if i < dec_chars(n / 10).len() {
                assert(dec_chars(n)[i] == dec_chars(n / 10)[i]);
            }
        }
    }
}

/// Reading back the decimal rendering of a number gives the number.
pub proof fn lemma_parse_uint_dec(n: nat)
    ensures
        parse_uint(dec_chars(n)) == Some(n),
    decreases n,
{
    if n < 10 {
        assert(dec_chars(n) == seq![dec_digit(n as int)]);
        assert(digit_val(dec_digit(n as int)) == n);
    } else {
        lemma_parse_uint_dec(n / 10);
        let s = dec_chars(n);
        assert(s.drop_last() =~= dec_chars(n / 10));
        assert(s.last() == dec_digit((n % 10) as int));
        assert(digit_val(dec_digit((n % 10) as int)) == n % 10);
        assert((n / 10) * 10 + n % 10 == n) by (nonlinear_arith);
    }
}

proof fn lemma_repeat_char_all(c: char, n: nat)
    ensures
        repeat_char(c, n).len() == n,
        forall|i: int| 0 <= i < n ==> #[trigger] repeat_char(c, n)[i] == c,
    decreases n,
{
    if n > 0 {
        lemma_repeat_char_all(c, (n - 1) as nat);
    }
}

proof fn lemma_parse_uint_zero_prefix(z: Seq<char>, s: Seq<char>)
    requires
        forall|i: int| 0 <= i < z.len() ==> z[i] == '0',
        parse_uint(z + s) is Some || parse_uint(s) is Some,
        s.len() >= 1,
        forall|i: int| 0 <= i < s.len() ==> is_digit(#[trigger] s[i]),
    ensures
        parse_uint(z + s) == parse_uint(s),
    decreases s.len(),
{
    let w = z + s;
    assert(w.last() == s.last());
    if s.len() == 1 {
        if z.len() == 0 {
            assert(w =~= s);
        } else {
            assert(w.drop_last() =~= z);
            assert(forall|i: int| 0 <= i < z.len() ==> is_digit(#[trigger] z[i]));
            lemma_parse_uint_all_zeros_val(z);
        }
    } else {
        assert(w.drop_last() =~= z + s.drop_last());
        assert(forall|i: int|
            0 <= i < s.drop_last().len() ==> is_digit(#[trigger] s.drop_last()[i]));
        lemma_parse_uint_zero_prefix(z, s.drop_last());
    }
}

proof fn lemma_parse_uint_all_zeros_val(z: Seq<char>)
    requires
        z.len() >= 1,
        forall|i: int| 0 <= i < z.len() ==> z[i] == '0',
    ensures
        parse_uint(z) == Some(0nat),
    decreases z.len(),
{
    if z.len() > 1 {
        assert(forall|i: int| 0 <= i < z.drop_last().len() ==> z.drop_last()[i] == z[i]);
        lemma_parse_uint_all_zeros_val(z.drop_last());
    }
}

/// Reading back a zero-padded number gives the number, whatever the width.
pub proof fn lemma_parse_uint_padded(n: nat, w: nat)
    ensures
        parse_uint(padded_nat(n, w)) == Some(n),
        padded_nat(n, w).len() >= 1,
        forall|i: int| 0 <= i < padded_nat(n, w).len() ==> is_digit(#[trigger] padded_nat(n, w)[i]),
    decreases w,
{
    lemma_dec_chars_digits(n);
    lemma_parse_uint_dec(n);
    let d = dec_chars(n);
    if d.len() >= w {
        assert(padded_nat(n, w) == d);
    } else {
        let z = repeat_char('0', (w - d.len()) as nat);
        lemma_repeat_char_all(('0'), (w - d.len()) as nat);
        lemma_parse_uint_zero_prefix(z, d);
        assert forall|i: int| 0 <= i < padded_nat(n, w).len() implies is_digit(
            #[trigger] padded_nat(n, w)[i],
        ) by {
            if i < z.len() {
                assert(padded_nat(n, w)[i] == '0');
            } else {
                assert(padded_nat(n, w)[i] == d[i - z.len()]);
            }
        }
    }
}

/// Reading back the signed decimal rendering of an integer gives the
/// integer.
pub proof fn lemma_parse_int_dec(i: int)
    ensures
        parse_int(int_dec_chars(i)) == Some(i),
{
    if i < 0 {
        lemma_dec_chars_digits((-i) as nat);
        lemma_parse_uint_dec((-i) as nat);
        let s = int_dec_chars(i);
        assert(s[0] == '-');
        assert(s.skip(1) =~= dec_chars((-i) as nat));
    } else {
        lemma_dec_chars_digits(i as nat);
        lemma_parse_uint_dec(i as nat);
        assert(int_dec_chars(i) == dec_chars(i as nat));
        assert(!(int_dec_chars(i)[0] == '-'));
    }
}

/// A sequence without the separator splits as itself.
pub proof fn lemma_split_char_sepfree(s: Seq<char>, c: char)
    requires
        forall|i: int| 0 <= i < s.len() ==> s[i] != c,
    ensures
        crate::text::split_char(s, c) =~~= seq![s],
    decreases s.len(),
{
    if s.len() > 0 {
        assert(forall|i: int| 0 <= i < s.drop_last().len() ==> s.drop_last()[i] == s[i]);
        lemma_split_char_sepfree(s.drop_last(), c);
        assert(crate::text::split_char(s, c) =~~= seq![s.drop_last().push(s.last())]);
        assert(s.drop_last().push(s.last()) =~~= s);
    }
}

/// Splitting `a`, a separator, then `b` yields `a` and then the parts of
/// `b`, provided `a` is separator-free.
pub proof fn lemma_split_char_concat(a: Seq<char>, b: Seq<char>, c: char)
    requires
        forall|i: int| 0 <= i < a.len() ==> a[i] != c,
    ensures
        crate::text::split_char(a + seq![c] + b, c) =~~= seq![a] + crate::text::split_char(b, c),
    decreases b.len(),
{
    let w = a + seq![c] + b;
    if b.len() == 0 {
        assert(w.drop_last() =~~= a);
        assert(w.last() == c);
        lemma_split_char_sepfree(a, c);
        assert(crate::text::split_char(w, c) =~~= seq![a] + crate::text::split_char(b, c));
    } else {
        assert(w.drop_last() =~~= a + seq![c] + b.drop_last());
        assert(w.last() == b.last());
        lemma_split_char_concat(a, b.drop_last(), c);
        crate::text::lemma_split_char_len(b.drop_last(), c);
        if b.last() == c {
            assert(crate::text::split_char(w, c) =~~= seq![a] + crate::text::split_char(b, c));
        } else {
            let rest = crate::text::split_char(a + seq![c] + b.drop_last(), c);
            let brest = crate::text::split_char(b.drop_last(), c);
            assert(rest =~~= seq![a] + brest);
            assert(rest.last() == brest.last());
            assert(crate::text::split_char(w, c) =~~= rest.update(
                rest.len() - 1,
                rest.last().push(b.last()),
            ));
            assert(crate::text::split_char(b, c) =~~= brest.update(
                brest.len() - 1,
                brest.last().push(b.last()),
            ));
            assert(crate::text::split_char(w, c) =~~= seq![a] + crate::text::split_char(b, c));
        }
    }
}

/// Undoing the quote-doubling of an identifier or string body: every
/// doubled `q` becomes one `q`; a lone `q` cannot appear.
pub open spec fn undouble(s: Seq<char>, q: char) -> Option<Seq<char>>
    decreases s.len(),
{
    if s.len() == 0 {
        Some(Seq::empty())
    } else if s[0] == q {
        if s.len() >= 2 && s[1] == q {
            match undouble(s.skip(2), q) {
                Some(r) => Some(seq![q] + r),
                None => None,
            }
        } else {
            None
        }
    } else {
        match undouble(s.skip(1), q) {
            Some(r) => Some(seq![s[0]] + r),
            None => None,
        }
    }
}

proof fn lemma_doubled_front(s: Seq<char>, q: char)
    requires
        s.len() > 0,
    ensures
        doubled(s, q) == (if s[0] == q {
            seq![q, q]
        } else {
            seq![s[0]]
        }) + doubled(s.drop_first(), q),
    decreases s.len(),
{
    if s.len() == 1 {
        assert(s.drop_last() =~= Seq::<char>::empty());
        assert(s.drop_first() =~= Seq::<char>::empty());
        assert(doubled(s, q) =~= (if s[0] == q {
            seq![q, q]
        } else {
            seq![s[0]]
        }) + doubled(s.drop_first(), q));
    } else {
        lemma_doubled_front(s.drop_last(), q);
        assert(s.drop_last()[0] == s[0]);
        assert(s.drop_last().drop_first() =~= s.drop_first().drop_last());
        assert(s.drop_first().last() == s.last());
        assert(doubled(s, q) =~= (if s[0] == q {
            seq![q, q]
        } else {
            seq![s[0]]
        }) + doubled(s.drop_first(), q));
    }
}

/// Undoubling inverts doubling exactly.
pub proof fn lemma_undouble_doubled(s: Seq<char>, q: char)
    ensures
        undouble(doubled(s, q), q) == Some(s),
    decreases s.len(),
{
    if s.len() == 0 {
    } else {
        lemma_doubled_front(s, q);
        lemma_undouble_doubled(s.drop_first(), q);
        let d = doubled(s, q);
        if s[0] == q {
            assert(d[0] == q && d[1] == q);
            assert(d.skip(2) =~= doubled(s.drop_first(), q));
            assert(seq![q] + s.drop_first() =~= s);
        } else {
            assert(d[0] == s[0]);
            assert(d.skip(1) =~= doubled(s.drop_first(), q));
            assert(seq![s[0]] + s.drop_first() =~= s);
        }
    }
}

/// Reading back a quoted identifier: the delimiters are stripped and the
/// doubling undone.
pub open spec fn parse_quoted_ident(s: Seq<char>, q: char) -> Option<Seq<char>> {
    if s.len() >= 2 && s[0] == q && s.last() == q {
        undouble(s.subrange(1, s.len() - 1), q)
    } else {
        None
    }
}

/// Identifier quoting round trip: quoting never loses a character, doubles
/// every embedded delimiter, and un-quoting recovers exactly the original
/// identifier — so quoting is applied exactly once per render and re-quoting
/// an already-quoted identifier never happens inside one rendering.
pub proof fn lemma_quote_identifier_round_trip(name: Seq<char>, q: char)
    ensures
        parse_quoted_ident(crate::dialect::quoted_ident(name, q), q) == Some(name),
{
    let lit = crate::dialect::quoted_ident(name, q);
    assert(lit[0] == q);
    assert(lit.last() == q);
    assert(lit.subrange(1, lit.len() - 1) =~= doubled(name, q));
    lemma_undouble_doubled(name, q);
}

/// Undoing MySQL string escaping: doubled quotes and backslash escapes
/// become their plain characters; a lone quote or backslash cannot appear.
pub open spec fn unescape_mysql(s: Seq<char>) -> Option<Seq<char>>
    decreases s.len(),
{
    if s.len() == 0 {
        Some(Seq::empty())
    } else if s[0] == '\'' {
        if s.len() >= 2 && s[1] == '\'' {
            match unescape_mysql(s.skip(2)) {
                Some(r) => Some(seq!['\''] + r),
                None => None,
            }
        } else {
            None
        }
    } else if s[0] == '\\' {
        if s.len() >= 2 {
            let c = s[1];
            let decoded = if c == '\\' {
                Some('\\')
            } else if c == '0' {
                Some('\u{0}')
            } else if c == 'n' {
                Some('\n')
            } else if c == 'r' {
                Some('\r')
            } else if c == 't' {
                Some('\t')
            } else {
                None
            };
            match decoded {
                Some(d) => match unescape_mysql(s.skip(2)) {
                    Some(r) => Some(seq![d] + r),
                    None => None,
                },
                None => None,
            }
        } else {
            None
        }
    } else {
        match unescape_mysql(s.skip(1)) {
            Some(r) => Some(seq![s[0]] + r),
            None => None,
        }
    }
}

proof fn lemma_mysql_escaped_front(s: Seq<char>)
    requires
        s.len() > 0,
    ensures
        mysql_escaped(s) == mysql_escaped_char(s[0]) + mysql_escaped(s.drop_first()),
    decreases s.len(),
{
    if s.len() == 1 {
        assert(s.drop_last() =~= Seq::<char>::empty());
        assert(s.drop_first() =~= Seq::<char>::empty());
        assert(mysql_escaped(s) =~= mysql_escaped_char(s[0]) + mysql_escaped(s.drop_first()));
    } else {
        lemma_mysql_escaped_front(s.drop_last());
        assert(s.drop_last()[0] == s[0]);
        assert(s.drop_last().drop_first() =~= s.drop_first().drop_last());
        assert(s.drop_first().last() == s.last());
        assert(mysql_escaped(s) =~= mysql_escaped_char(s[0]) + mysql_escaped(s.drop_first()));
    }
}

/// Unescaping inverts MySQL string escaping exactly.
pub proof fn lemma_unescape_mysql_escaped(s: Seq<char>)
    ensures
        unescape_mysql(mysql_escaped(s)) == Some(s),
    decreases s.len(),
{
    if s.len() > 0 {
        lemma_mysql_escaped_front(s);
        lemma_unescape_mysql_escaped(s.drop_first());
        let e = mysql_escaped(s);
        let c = s[0];
        let ec = mysql_escaped_char(c);
        assert(e =~= ec + mysql_escaped(s.drop_first()));
        if c == '\'' || c == '\\' || c == '\u{0}' || c == '\n' || c == '\r' || c == '\t' {
            assert(ec.len() == 2);
            assert(e.skip(2) =~= mysql_escaped(s.drop_first()));
            assert(seq![c] + s.drop_first() =~= s);
        } else {
            assert(ec =~= seq![c]);
            assert(e[0] == c);
            assert(e.skip(1) =~= mysql_escaped(s.drop_first()));
            assert(seq![c] + s.drop_first() =~= s);
        }
    }
}

/// A lowercase hexadecimal digit character.
pub open spec fn is_hex_digit_char(c: char) -> bool {
    is_digit(c) || c == 'a' || c == 'b' || c == 'c' || c == 'd' || c == 'e' || c == 'f'
}

/// The value of a lowercase hexadecimal digit character.
pub open spec fn hex_digit_val(c: char) -> nat {
    if is_digit(c) {
        digit_val(c)
    } else if c == 'a' {
        10
    } else if c == 'b' {
        11
    } else if c == 'c' {
        12
    } else if c == 'd' {
        13
    } else if c == 'e' {
        14
    } else {
        15
    }
}

/// An even-length hexadecimal token read back as bytes, two digits per
/// byte.
pub open spec fn hex_decode(s: Seq<char>) -> Option<Seq<u8>>
    decreases s.len(),
{
    if s.len() == 0 {
        Some(Seq::empty())
    } else if s.len() == 1 {
        None
    } else if !is_hex_digit_char(s[s.len() - 2]) || !is_hex_digit_char(s.last()) {
        None
    } else {
        match hex_decode(s.take(s.len() - 2)) {
            Some(r) => Some(
                r.push((hex_digit_val(s[s.len() - 2]) * 16 + hex_digit_val(s.last())) as u8),
            ),
            None => None,
        }
    }
}

/// Decoding inverts the hexadecimal rendering of bytes exactly.
pub proof fn lemma_hex_decode_chars(b: Seq<u8>)
    ensures
        hex_decode(crate::octets::hex_chars(b)) == Some(b),
    decreases b.len(),
{
    if b.len() > 0 {
        lemma_hex_decode_chars(b.drop_last());
        let h = crate::octets::hex_chars(b);
        let hi = crate::octets::hex_digit(b.last() as int / 16);
        let lo = crate::octets::hex_digit(b.last() as int % 16);
        assert(h.take(h.len() - 2) =~= crate::octets::hex_chars(b.drop_last()));
        assert(h[h.len() - 2] == hi && h.last() == lo);
        assert(is_hex_digit_char(hi) && hex_digit_val(hi) == b.last() as int / 16);
        assert(is_hex_digit_char(lo) && hex_digit_val(lo) == b.last() as int % 16);
        assert((b.last() as int / 16) * 16 + b.last() as int % 16 == b.last() as int)
            by (nonlinear_arith);
        assert(b.drop_last().push(b.last()) =~= b);
    }
}

/// Broken-down date fields read back from `YYYY-MM-DD`.
pub open spec fn parse_date_fields(s: Seq<char>) -> Option<(int, nat, nat)> {
    let parts = crate::text::split_char(s, '-');
    if parts.len() == 3 {
        match (parse_uint(parts[0]), parse_uint(parts[1]), parse_uint(parts[2])) {
            (Some(y), Some(m), Some(d)) => Some((y as int, m, d)),
            _ => None,
        }
    } else {
        None
    }
}

/// Broken-down time fields read back from `[-]HH:MM:SS[.ffffff]`.
pub open spec fn parse_time_fields(s: Seq<char>) -> Option<(bool, nat, nat, nat, nat)> {
    if s.len() > 0 && s[0] == '-' {
        match parse_time_body(s.skip(1)) {
            Some(t) => Some((true, t.0, t.1, t.2, t.3)),
            None => None,
        }
    } else {
        match parse_time_body(s) {
            Some(t) => Some((false, t.0, t.1, t.2, t.3)),
            None => None,
        }
    }
}

/// The unsigned part of a time: hours, minutes, seconds, microseconds.
pub open spec fn parse_time_body(s: Seq<char>) -> Option<(nat, nat, nat, nat)> {
    let parts = crate::text::split_char(s, ':');
    if parts.len() == 3 {
        match (parse_uint(parts[0]), parse_uint(parts[1])) {
            (Some(h), Some(m)) => {
                let sub = crate::text::split_char(parts[2], '.');
                if sub.len() == 1 {
                    match parse_uint(sub[0]) {
                        Some(sec) => Some((h, m, sec, 0)),
                        None => None,
                    }
                } else if sub.len() == 2 {
                    match (parse_uint(sub[0]), parse_uint(sub[1])) {
                        (Some(sec), Some(us)) => Some((h, m, sec, us)),
                        _ => None,
                    }
                } else {
                    None
                }
            },
            _ => None,
        }
    } else {
        None
    }
}

/// Broken-down timestamp fields read back from a date, a space, and a
/// time.
pub open spec fn parse_datetime_fields(s: Seq<char>) -> Option<(int, nat, nat, nat, nat, nat, nat)> {
    let parts = crate::text::split_char(s, ' ');
    if parts.len() == 2 {
        match (parse_date_fields(parts[0]), parse_time_body(parts[1])) {
            (Some(d), Some(t)) => Some((d.0, d.1, d.2, t.0, t.1, t.2, t.3)),
            _ => None,
        }
    } else {
        None
    }
}

proof fn lemma_concat_free(a: Seq<char>, b: Seq<char>, c: char)
    requires
        forall|i: int| 0 <= i < a.len() ==> a[i] != c,
        forall|i: int| 0 <= i < b.len() ==> b[i] != c,
    ensures
        forall|i: int| 0 <= i < (a + b).len() ==> (a + b)[i] != c,
{
    assert forall|i: int| 0 <= i < (a + b).len() implies (a + b)[i] != c by {
        if i < a.len() {
            assert((a + b)[i] == a[i]);
        } else {
            assert((a + b)[i] == b[i - a.len()]);
        }
    }
}

proof fn lemma_padded_free(n: nat, w: nat, c: char)
    requires
        !is_digit(c),
    ensures
        forall|i: int| 0 <= i < padded_nat(n, w).len() ==> #[trigger] padded_nat(n, w)[i] != c,
{
    lemma_parse_uint_padded(n, w);
}

/// Reading back a rendered date gives its fields.
pub proof fn lemma_parse_date_chars(y: int, m: nat, d: nat)
    requires
        y >= 0,
    ensures
        parse_date_fields(crate::dialect::date_chars(y, m, d)) == Some((y, m, d)),
{
    let ys = padded_nat(y as nat, 4);
    let ms = padded_nat(m, 2);
    let ds = padded_nat(d, 2);
    let s = crate::dialect::date_chars(y, m, d);
    assert(crate::text::padded_int(y, 4) == ys);
    assert(s =~= ys + seq!['-'] + (ms + seq!['-'] + ds));
    lemma_padded_free((y as nat), 4, ('-'));
    lemma_padded_free(m, 2, ('-'));
    lemma_padded_free(d, 2, ('-'));
    lemma_split_char_concat(ys, ms + seq!['-'] + ds, '-');
    lemma_split_char_concat(ms, ds, '-');
    lemma_split_char_sepfree(ds, '-');
    let parts = crate::text::split_char(s, '-');
    assert(parts =~~= seq![ys, ms, ds]);
    lemma_parse_uint_padded((y as nat), 4);
    lemma_parse_uint_padded(m, 2);
    lemma_parse_uint_padded(d, 2);
}

/// Reading back a rendered time gives its fields.
#[verifier::rlimit(60)]
pub proof fn lemma_parse_time_chars(neg: bool, h: nat, m: nat, s: nat, us: nat)
    ensures
        parse_time_fields(crate::dialect::time_chars(neg, h, m, s, us)) == Some(
            (neg, h, m, s, us),
        ),
{
    let hs = padded_nat(h, 2);
    let ms = padded_nat(m, 2);
    let ss = padded_nat(s, 2);
    let frac = crate::dialect::frac_chars(us);
    let body = crate::dialect::time_chars(false, h, m, s, us);
    lemma_parse_uint_padded(h, 2);
    lemma_parse_uint_padded(m, 2);
    lemma_parse_uint_padded(s, 2);
    lemma_padded_free(h, 2, (':'));
    lemma_padded_free(m, 2, (':'));
    lemma_padded_free(s, 2, (':'));
    lemma_padded_free(s, 2, ('.'));
    let third = ss + frac;
    assert(body =~= hs + seq![':'] + (ms + seq![':'] + third));
    if us == 0 {
        assert(third =~= ss);
    } else {
        lemma_parse_uint_padded(us, 6);
        lemma_padded_free(us, 6, (':'));
        lemma_padded_free(us, 6, ('.'));
    }
    assert(forall|i: int| 0 <= i < third.len() ==> third[i] != ':') by {
        if us != 0 {
            lemma_concat_free(ss, seq!['.'] + padded_nat(us, 6), (':'));
        }
    }
    lemma_split_char_concat(hs, ms + seq![':'] + third, ':');
    lemma_split_char_concat(ms, third, ':');
    lemma_split_char_sepfree(third, ':');
    let parts = crate::text::split_char(body, ':');
    assert(parts =~~= seq![hs, ms, third]);
    if us == 0 {
        lemma_split_char_sepfree(ss, '.');
        assert(crate::text::split_char(third, '.') =~~= seq![ss]);
    } else {
        lemma_split_char_concat(ss, padded_nat(us, 6), '.');
        lemma_split_char_sepfree(padded_nat(us, 6), '.');
        assert(third =~= ss + seq!['.'] + padded_nat(us, 6));
        assert(crate::text::split_char(third, '.') =~~= seq![ss, padded_nat(us, 6)]);
    }
    assert(parse_time_body(body) == Some((h, m, s, us)));
    if neg {
        let full = crate::dialect::time_chars(true, h, m, s, us);
        assert(full =~= seq!['-'] + body);
        assert(full[0] == '-');
        assert(full.skip(1) =~= body);
    } else {
        assert(body[0] == hs[0]);
        assert(is_digit(hs[0]));
        assert(crate::dialect::time_chars(neg, h, m, s, us) == body);
    }
}

/// Reading back a rendered timestamp gives its fields.
pub proof fn lemma_parse_datetime_chars(y: int, m: nat, d: nat, hh: nat, mm: nat, ss: nat, us: nat)
    requires
        y >= 0,
    ensures
        parse_datetime_fields(crate::dialect::datetime_chars(y, m, d, hh, mm, ss, us)) == Some(
            (y, m, d, hh, mm, ss, us),
        ),
{
    let ds = crate::dialect::date_chars(y, m, d);
    let ts = crate::dialect::time_chars(false, hh, mm, ss, us);
    let w = crate::dialect::datetime_chars(y, m, d, hh, mm, ss, us);
    assert(w =~= ds + seq![' '] + ts);
    lemma_padded_free((y as nat), 4, (' '));
    lemma_padded_free(m, 2, (' '));
    lemma_padded_free(d, 2, (' '));
    assert(crate::text::padded_int(y, 4) == padded_nat(y as nat, 4));
    assert(forall|i: int| 0 <= i < ds.len() ==> ds[i] != ' ') by {
        lemma_concat_free(padded_nat(y as nat, 4), seq!['-'], (' '));
        lemma_concat_free(padded_nat(y as nat, 4) + seq!['-'], padded_nat(m, 2), (' '));
        lemma_concat_free(
            padded_nat(y as nat, 4) + seq!['-'] + padded_nat(m, 2),
            seq!['-'],
            (' '),
        );
        lemma_concat_free(
            padded_nat(y as nat, 4) + seq!['-'] + padded_nat(m, 2) + seq!['-'],
            padded_nat(d, 2),
            (' '),
        );
    }
    lemma_split_char_concat(ds, ts, ' ');
    lemma_split_char_sepfree_time(hh, mm, ss, us);
    lemma_split_char_sepfree(ts, ' ');
    let parts = crate::text::split_char(w, ' ');
    assert(parts =~~= seq![ds, ts]);
    lemma_parse_date_chars(y, m, d);
    lemma_parse_time_chars(false, hh, mm, ss, us);
    assert(parse_time_fields(ts) == Some((false, hh, mm, ss, us)));
    assert(!(ts.len() > 0 && ts[0] == '-')) by {
        lemma_parse_uint_padded(hh, 2);
        assert(ts[0] == padded_nat(hh, 2)[0]);
    }
    assert(parse_time_body(ts) == Some((hh, mm, ss, us)));
}

/// Bytes that are not valid UTF-8 never render as a quoted string: the
/// emitted literal is always the bare hex form.
pub proof fn lemma_invalid_utf8_renders_hex(b: Seq<u8>)
    requires
        b.len() > 0,
        !vstd::utf8::valid_utf8(b),
    ensures
        crate::dialects::mysql::mysql_bytes_literal(b) == "0x"@ + crate::octets::hex_chars(b),
{
}

/// The mathematical reading of a column value: the same cases as
/// `SqlValue`, over sequences and unbounded integers.
pub enum SpecValue {
    Null,
    Bool(bool),
    Int(int),
    FloatNaN,
    FloatInf,
    FloatNegInf,
    FloatFinite(Seq<char>),
    Decimal(Seq<char>),
    Text(Seq<char>),
    Bytes(Seq<u8>),
    Date { y: int, m: nat, d: nat },
    Time { neg: bool, h: nat, m: nat, s: nat, us: nat },
    Timestamp { y: int, m: nat, d: nat, hh: nat, mm: nat, ss: nat, us: nat },
}

/// The reading of a concrete value.
pub open spec fn view_of(v: SqlValue) -> SpecValue {
    match v {
        SqlValue::Null => SpecValue::Null,
        SqlValue::Bool(b) => SpecValue::Bool(b),
        SqlValue::Int(i) => SpecValue::Int(i as int),
        SqlValue::Float(f) => match f {
            FloatLit::NaN => SpecValue::FloatNaN,
            FloatLit::Infinity => SpecValue::FloatInf,
            FloatLit::NegInfinity => SpecValue::FloatNegInf,
            FloatLit::Finite(t) => SpecValue::FloatFinite(t@),
        },
        SqlValue::Decimal(s) => SpecValue::Decimal(s@),
        SqlValue::Text(s) => SpecValue::Text(s@),
        SqlValue::Bytes(b) => SpecValue::Bytes(b@),
        SqlValue::Date { y, m, d } => SpecValue::Date { y: y as int, m: m as nat, d: d as nat },
        SqlValue::Time { neg, h, m, s, us } => SpecValue::Time {
            neg,
            h: h as nat,
            m: m as nat,
            s: s as nat,
            us: us as nat,
        },
        SqlValue::Timestamp { y, m, d, hh, mm, ss, us } => SpecValue::Timestamp {
            y: y as int,
            m: m as nat,
            d: d as nat,
            hh: hh as nat,
            mm: mm as nat,
            ss: ss as nat,
            us: us as nat,
        },
    }
}

/// The column kind a literal is read under; reading is type-directed, as
/// it is in a database, where the column's type is known.
pub enum LiteralKind {
    Null,
    Bool,
    Int,
    Float,
    Decimal,
    Text,
    Bytes,
    Date,
    Time,
    Timestamp,
}

/// The kind of a value.
pub open spec fn kind_of(v: SqlValue) -> LiteralKind {
    match v {
        SqlValue::Null => LiteralKind::Null,
        SqlValue::Bool(_) => LiteralKind::Bool,
        SqlValue::Int(_) => LiteralKind::Int,
        SqlValue::Float(_) => LiteralKind::Float,
        SqlValue::Decimal(_) => LiteralKind::Decimal,
        SqlValue::Text(_) => LiteralKind::Text,
        SqlValue::Bytes(_) => LiteralKind::Bytes,
        SqlValue::Date { .. } => LiteralKind::Date,
        SqlValue::Time { .. } => LiteralKind::Time,
        SqlValue::Timestamp { .. } => LiteralKind::Timestamp,
    }
}

/// The values the fidelity law speaks of: dates and timestamps carry a
/// non-negative year (as every provider's calendar does), and a finite
/// float's rendered digits are not spelled like one of the non-finite
/// sentinel literals (default decimal formatting never quotes).
pub open spec fn value_wf(v: SqlValue) -> bool {
    match v {
        SqlValue::Date { y, .. } => y >= 0,
        SqlValue::Timestamp { y, .. } => y >= 0,
        SqlValue::Float(f) => match f {
            FloatLit::Finite(t) => t@ != "'NaN'"@ && t@ != "'Infinity'"@ && t@ != "'-Infinity'"@
                && t@ != "'NaN'::float8"@ && t@ != "'Infinity'::float8"@ && t@
                != "'-Infinity'::float8"@,
            _ => true,
        },
        _ => true,
    }
}

/// A quoted MySQL string body: delimiters stripped, escaping undone.
pub open spec fn parse_mysql_quoted(s: Seq<char>) -> Option<Seq<char>> {
    if s.len() >= 2 && s[0] == '\'' && s.last() == '\'' {
        unescape_mysql(s.subrange(1, s.len() - 1))
    } else {
        None
    }
}

/// A quoted PostgreSQL string body: delimiters stripped, doubling undone.
pub open spec fn parse_postgres_quoted(s: Seq<char>) -> Option<Seq<char>> {
    if s.len() >= 2 && s[0] == '\'' && s.last() == '\'' {
        undouble(s.subrange(1, s.len() - 1), '\'')
    } else {
        None
    }
}

/// MySQL's reading of a literal under a column kind.
pub open spec fn parse_mysql_literal(kind: LiteralKind, s: Seq<char>) -> Option<SpecValue> {
    match kind {
        LiteralKind::Null => if s == "NULL"@ {
            Some(SpecValue::Null)
        } else {
            None
        },
        LiteralKind::Bool => if s == "TRUE"@ {
            Some(SpecValue::Bool(true))
        } else if s == "FALSE"@ {
            Some(SpecValue::Bool(false))
        } else {
            None
        },
        LiteralKind::Int => match parse_int(s) {
            Some(i) => Some(SpecValue::Int(i)),
            None => None,
        },
        LiteralKind::Float => if s == "'NaN'"@ {
            Some(SpecValue::FloatNaN)
        } else if s == "'Infinity'"@ {
            Some(SpecValue::FloatInf)
        } else if s == "'-Infinity'"@ {
            Some(SpecValue::FloatNegInf)
        } else {
            Some(SpecValue::FloatFinite(s))
        },
        LiteralKind::Decimal => Some(SpecValue::Decimal(s)),
        LiteralKind::Text => match parse_mysql_quoted(s) {
            Some(t) => Some(SpecValue::Text(t)),
            None => None,
        },
        LiteralKind::Bytes => if s.len() >= 2 && s[0] == '0' && s[1] == 'x' {
            match hex_decode(s.skip(2)) {
                Some(b) => Some(SpecValue::Bytes(b)),
                None => None,
            }
        } else {
            match parse_mysql_quoted(s) {
                Some(t) => Some(SpecValue::Bytes(vstd::utf8::encode_utf8(t))),
                None => None,
            }
        },
        LiteralKind::Date => match parse_quoted_date(s) {
            Some(f) => Some(SpecValue::Date { y: f.0, m: f.1, d: f.2 }),
            None => None,
        },
        LiteralKind::Time => match parse_quoted_time(s) {
            Some(f) => Some(SpecValue::Time { neg: f.0, h: f.1, m: f.2, s: f.3, us: f.4 }),
            None => None,
        },
        LiteralKind::Timestamp => match parse_quoted_datetime(s) {
            Some(f) => Some(
                SpecValue::Timestamp {
                    y: f.0,
                    m: f.1,
                    d: f.2,
                    hh: f.3,
                    mm: f.4,
                    ss: f.5,
                    us: f.6,
                },
            ),
            None => None,
        },
    }
}

/// A single-quoted date literal.
pub open spec fn parse_quoted_date(s: Seq<char>) -> Option<(int, nat, nat)> {
    if s.len() >= 2 && s[0] == '\'' && s.last() == '\'' {
        parse_date_fields(s.subrange(1, s.len() - 1))
    } else {
        None
    }
}

/// A single-quoted time literal.
pub open spec fn parse_quoted_time(s: Seq<char>) -> Option<(bool, nat, nat, nat, nat)> {
    if s.len() >= 2 && s[0] == '\'' && s.last() == '\'' {
        parse_time_fields(s.subrange(1, s.len() - 1))
    } else {
        None
    }
}

/// A single-quoted timestamp literal.
pub open spec fn parse_quoted_datetime(s: Seq<char>) -> Option<(int, nat, nat, nat, nat, nat, nat)> {
    if s.len() >= 2 && s[0] == '\'' && s.last() == '\'' {
        parse_datetime_fields(s.subrange(1, s.len() - 1))
    } else {
        None
    }
}

/// PostgreSQL's reading of a literal under a column kind.
pub open spec fn parse_postgres_literal(kind: LiteralKind, s: Seq<char>) -> Option<SpecValue> {
    match kind {
        LiteralKind::Null => if s == "NULL"@ {
            Some(SpecValue::Null)
        } else {
            None
        },
        LiteralKind::Bool => if s == "TRUE"@ {
            Some(SpecValue::Bool(true))
        } else if s == "FALSE"@ {
            Some(SpecValue::Bool(false))
        } else {
            None
        },
        LiteralKind::Int => match parse_int(s) {
            Some(i) => Some(SpecValue::Int(i)),
            None => None,
        },
        LiteralKind::Float => if s == "'NaN'::float8"@ {
            Some(SpecValue::FloatNaN)
        } else if s == "'Infinity'::float8"@ {
            Some(SpecValue::FloatInf)
        } else if s == "'-Infinity'::float8"@ {
            Some(SpecValue::FloatNegInf)
        } else {
            Some(SpecValue::FloatFinite(s))
        },
        LiteralKind::Decimal => Some(SpecValue::Decimal(s)),
        LiteralKind::Text => match parse_postgres_quoted(s) {
            Some(t) => Some(SpecValue::Text(t)),
            None => None,
        },
        LiteralKind::Bytes => {
            let suffix = seq!['\''] + "::bytea"@;
            if s.len() >= 4 + suffix.len() && s.take(4) == seq!['\'', '\\', '\\', 'x'] && s.skip(
                s.len() - suffix.len(),
            ) == suffix {
                match hex_decode(s.subrange(4, s.len() - suffix.len())) {
                    Some(b) => Some(SpecValue::Bytes(b)),
                    None => None,
                }
            } else {
                None
            }
        },
        LiteralKind::Date => if crate::text::starts_with(s, "DATE "@) {
            match parse_quoted_date(s.skip("DATE "@.len() as int)) {
                Some(f) => Some(SpecValue::Date { y: f.0, m: f.1, d: f.2 }),
                None => None,
            }
        } else {
            None
        },
        LiteralKind::Time => if crate::text::starts_with(s, "TIME "@) {
            match parse_quoted_time(s.skip("TIME "@.len() as int)) {
                Some(f) => Some(SpecValue::Time { neg: f.0, h: f.1, m: f.2, s: f.3, us: f.4 }),
                None => None,
            }
        } else {
            None
        },
        LiteralKind::Timestamp => if crate::text::starts_with(s, "TIMESTAMP "@) {
            match parse_quoted_datetime(s.skip("TIMESTAMP "@.len() as int)) {
                Some(f) => Some(
                    SpecValue::Timestamp {
                        y: f.0,
                        m: f.1,
                        d: f.2,
                        hh: f.3,
                        mm: f.4,
                        ss: f.5,
                        us: f.6,
                    },
                ),
                None => None,
            }
        } else {
            None
        },
    }
}

/// Value fidelity for the MySQL dialect: for every well-formed value but
/// `Decimal` (which is only passed through verbatim), the emitted literal
/// reads back, under the value's own kind, to exactly the value it was
/// rendered from.
pub proof fn lemma_mysql_literal_round_trip(v: SqlValue)
    requires
        value_wf(v),
        !(v matches SqlValue::Decimal(_)),
    ensures
        parse_mysql_literal(kind_of(v), crate::dialects::mysql::mysql_literal(v)) == Some(
            view_of(v),
        ),
{
    broadcast use vstd::utf8::group_utf8_lib;

    let lit = crate::dialects::mysql::mysql_literal(v);
    match v {
        SqlValue::Null => {},
        SqlValue::Bool(b) => {
            reveal_strlit("TRUE");
            reveal_strlit("FALSE");
        },
        SqlValue::Int(i) => {
            lemma_parse_int_dec(i as int);
        },
        SqlValue::Float(f) => {
            reveal_strlit("'NaN'");
            reveal_strlit("'Infinity'");
            reveal_strlit("'-Infinity'");
        },
        SqlValue::Decimal(_) => {},
        SqlValue::Text(t) => {
            assert(lit[0] == '\'' && lit.last() == '\'');
            assert(lit.subrange(1, lit.len() - 1) =~= mysql_escaped(t@));
            lemma_unescape_mysql_escaped(t@);
        },
        SqlValue::Bytes(b) => {
            lemma_mysql_bytes_round_trip(b@);
            assert(lit == crate::dialects::mysql::mysql_bytes_literal(b@));
        },
        SqlValue::Date { y, m, d } => {
            let body = crate::dialect::date_chars(y as int, m as nat, d as nat);
            assert(lit[0] == '\'' && lit.last() == '\'');
            assert(lit.subrange(1, lit.len() - 1) =~= body);
            lemma_parse_date_chars(y as int, m as nat, d as nat);
        },
        SqlValue::Time { neg, h, m, s, us } => {
            let body = crate::dialect::time_chars(neg, h as nat, m as nat, s as nat, us as nat);
            assert(lit[0] == '\'' && lit.last() == '\'');
            assert(lit.subrange(1, lit.len() - 1) =~= body);
            lemma_parse_time_chars(neg, h as nat, m as nat, s as nat, us as nat);
        },
        SqlValue::Timestamp { y, m, d, hh, mm, ss, us } => {
            let body = crate::dialect::datetime_chars(
                y as int,
                m as nat,
                d as nat,
                hh as nat,
                mm as nat,
                ss as nat,
                us as nat,
            );
            assert(lit[0] == '\'' && lit.last() == '\'');
            assert(lit.subrange(1, lit.len() - 1) =~= body);
            lemma_parse_datetime_chars(
                y as int,
                m as nat,
                d as nat,
                hh as nat,
                mm as nat,
                ss as nat,
                us as nat,
            );
        },
    }
}

proof fn lemma_mysql_bytes_round_trip(b: Seq<u8>)
    ensures
        parse_mysql_literal(
            LiteralKind::Bytes,
            crate::dialects::mysql::mysql_bytes_literal(b),
        ) == Some(SpecValue::Bytes(b)),
{
    broadcast use vstd::utf8::group_utf8_lib;

    let lit = crate::dialects::mysql::mysql_bytes_literal(b);
    if b.len() == 0 {
        reveal_strlit("''");
        assert(lit.len() == 2 && lit[0] == '\'' && lit[1] == '\'');
        assert(lit.last() == '\'');
        assert(lit.subrange(1, lit.len() - 1) =~= Seq::<char>::empty());
        assert(unescape_mysql(Seq::<char>::empty()) == Some(Seq::<char>::empty()));
        assert(vstd::utf8::encode_utf8(Seq::<char>::empty()) =~= b);
    } else if crate::octets::likely_text(b) {
        let t = crate::octets::utf8_chars(b);
        assert(lit == crate::dialects::mysql::mysql_quoted_text(t));
        assert(lit[0] == '\'' && lit.last() == '\'');
        assert(lit.subrange(1, lit.len() - 1) =~= mysql_escaped(t));
        lemma_unescape_mysql_escaped(t);
        vstd::utf8::decode_utf8_encode_utf8(b);
    } else {
        reveal_strlit("0x");
        assert(lit == "0x"@ + crate::octets::hex_chars(b));
        assert(lit[0] == '0' && lit[1] == 'x');
        assert(lit.skip(2) =~= crate::octets::hex_chars(b));
        lemma_hex_decode_chars(b);
    }
}

/// Value fidelity for the PostgreSQL dialect, stated as for MySQL.
#[verifier::rlimit(100)]
pub proof fn lemma_postgres_literal_round_trip(v: SqlValue)
    requires
        value_wf(v),
        !(v matches SqlValue::Decimal(_)),
    ensures
        parse_postgres_literal(kind_of(v), crate::dialects::postgres::postgres_literal(v)) == Some(
            view_of(v),
        ),
{
    let lit = crate::dialects::postgres::postgres_literal(v);
    match v {
        SqlValue::Null => {},
        SqlValue::Bool(b) => {
            reveal_strlit("TRUE");
            reveal_strlit("FALSE");
        },
        SqlValue::Int(i) => {
            lemma_parse_int_dec(i as int);
        },
        SqlValue::Float(f) => {
            reveal_strlit("'NaN'::float8");
            reveal_strlit("'Infinity'::float8");
            reveal_strlit("'-Infinity'::float8");
        },
        SqlValue::Decimal(_) => {},
        SqlValue::Text(t) => {
            assert(lit[0] == '\'' && lit.last() == '\'');
            assert(lit.subrange(1, lit.len() - 1) =~= doubled(t@, '\''));
            lemma_undouble_doubled(t@, '\'');
        },
        SqlValue::Bytes(b) => {
            let suffix = seq!['\''] + "::bytea"@;
            let hex = crate::octets::hex_chars(b@);
            assert(lit =~= seq!['\'', '\\', '\\', 'x'] + hex + suffix);
            assert(lit.take(4) =~= seq!['\'', '\\', '\\', 'x']);
            assert(lit.skip(lit.len() - suffix.len()) =~= suffix);
            assert(lit.subrange(4, lit.len() - suffix.len()) =~= hex);
            lemma_hex_decode_chars(b@);
        },
        SqlValue::Date { y, m, d } => {
            let body = crate::dialect::date_chars(y as int, m as nat, d as nat);
            let quoted = seq!['\''] + body + seq!['\''];
            assert(lit =~= "DATE "@ + quoted);
            assert(lit.take("DATE "@.len() as int) =~= "DATE "@);
            assert(lit.skip("DATE "@.len() as int) =~= quoted);
            assert(quoted[0] == '\'' && quoted.last() == '\'');
            assert(quoted.subrange(1, quoted.len() - 1) =~= body);
            lemma_parse_date_chars(y as int, m as nat, d as nat);
        },
        SqlValue::Time { neg, h, m, s, us } => {
            let body = crate::dialect::time_chars(neg, h as nat, m as nat, s as nat, us as nat);
            let quoted = seq!['\''] + body + seq!['\''];
            assert(lit =~= "TIME "@ + quoted);
            assert(lit.take("TIME "@.len() as int) =~= "TIME "@);
            assert(lit.skip("TIME "@.len() as int) =~= quoted);
            assert(quoted[0] == '\'' && quoted.last() == '\'');
            assert(quoted.subrange(1, quoted.len() - 1) =~= body);
            lemma_parse_time_chars(neg, h as nat, m as nat, s as nat, us as nat);
        },
        SqlValue::Timestamp { y, m, d, hh, mm, ss, us } => {
            let body = crate::dialect::datetime_chars(
                y as int,
                m as nat,
                d as nat,
                hh as nat,
                mm as nat,
                ss as nat,
                us as nat,
            );
            let quoted = seq!['\''] + body + seq!['\''];
            assert(lit =~= "TIMESTAMP "@ + quoted);
            assert(lit.take("TIMESTAMP "@.len() as int) =~= "TIMESTAMP "@);
            assert(lit.skip("TIMESTAMP "@.len() as int) =~= quoted);
            assert(quoted[0] == '\'' && quoted.last() == '\'');
            assert(quoted.subrange(1, quoted.len() - 1) =~= body);
            lemma_parse_datetime_chars(
                y as int,
                m as nat,
                d as nat,
                hh as nat,
                mm as nat,
                ss as nat,
                us as nat,
            );
        },
    }
}

proof fn lemma_split_char_sepfree_time(hh: nat, mm: nat, ss: nat, us: nat)
    ensures
        forall|i: int|
            0 <= i < crate::dialect::time_chars(false, hh, mm, ss, us).len()
                ==> #[trigger] crate::dialect::time_chars(false, hh, mm, ss, us)[i] != ' ',
{
    let hs = padded_nat(hh, 2);
    let ms = padded_nat(mm, 2);
    let ss_c = padded_nat(ss, 2);
    let frac = crate::dialect::frac_chars(us);
    lemma_padded_free(hh, 2, (' '));
    lemma_padded_free(mm, 2, (' '));
    lemma_padded_free(ss, 2, (' '));
    assert(forall|i: int| 0 <= i < frac.len() ==> frac[i] != ' ') by {
        if us != 0 {
            lemma_padded_free(us, 6, (' '));
            lemma_concat_free(seq!['.'], padded_nat(us, 6), (' '));
        }
    }
    lemma_concat_free(hs, seq![':'], (' '));
    lemma_concat_free(hs + seq![':'], ms, (' '));
    lemma_concat_free(hs + seq![':'] + ms, seq![':'], (' '));
    lemma_concat_free(hs + seq![':'] + ms + seq![':'], ss_c, (' '));
    lemma_concat_free(hs + seq![':'] + ms + seq![':'] + ss_c, frac, (' '));
    assert(crate::dialect::time_chars(false, hh, mm, ss, us) =~= hs + seq![':'] + ms + seq![':']
        + ss_c + frac);
}

} // verus!
