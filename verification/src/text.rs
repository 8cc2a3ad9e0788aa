//! Character-sequence utilities shared by the SQL renderers: decimal
//! rendering, zero padding, whitespace trimming, line splitting, and
//! conversions between `String` and `Vec<char>`.
use vstd::prelude::*;

verus! {

broadcast use vstd::string::group_string_axioms;

/// Relies on alloc's `String::push`: appends the given character to the end
/// of the string.
pub assume_specification[ String::push ](s: &mut String, c: char)
    ensures
        final(s)@ == old(s)@.push(c),
;

/// Digit character for a value between 0 and 9.
pub open spec fn dec_digit(d: int) -> char {
    if d == 0 {
        '0'
    } else if d == 1 {
        '1'
    } else if d == 2 {
        '2'
    } else if d == 3 {
        '3'
    } else if d == 4 {
        '4'
    } else if d == 5 {
        '5'
    } else if d == 6 {
        '6'
    } else if d == 7 {
        '7'
    } else if d == 8 {
        '8'
    } else {
        '9'
    }
}

/// Decimal digit sequence of a natural number, most significant digit first.
pub open spec fn dec_chars(n: nat) -> Seq<char>
    decreases n,
{
    if n < 10 {
        seq![dec_digit(n as int)]
    } else {
        dec_chars(n / 10) + seq![dec_digit((n % 10) as int)]
    }
}

/// Decimal rendering of a (possibly negative) integer.
pub open spec fn int_dec_chars(i: int) -> Seq<char> {
    if i < 0 {
        seq!['-'] + dec_chars((-i) as nat)
    } else {
        dec_chars(i as nat)
    }
}

/// `n` copies of the character `c`.
pub open spec fn repeat_char(c: char, n: nat) -> Seq<char>
    decreases n,
{
    if n == 0 {
        Seq::empty()
    } else {
        seq![c] + repeat_char(c, (n - 1) as nat)
    }
}

/// `s` left-padded with `'0'` up to width `w` (unchanged when already wider).
pub open spec fn pad_zeros(s: Seq<char>, w: nat) -> Seq<char> {
    if s.len() >= w {
        s
    } else {
        repeat_char('0', (w - s.len()) as nat) + s
    }
}

/// Zero-padded decimal rendering of a natural number, width `w`.
pub open spec fn padded_nat(n: nat, w: nat) -> Seq<char> {
    pad_zeros(dec_chars(n), w)
}

/// Zero-padded decimal rendering of an integer, width `w`; for a negative
/// number the sign occupies one column of the width.
pub open spec fn padded_int(i: int, w: nat) -> Seq<char> {
    if i < 0 {
        seq!['-'] + pad_zeros(dec_chars((-i) as nat), if w > 0 {
            (w - 1) as nat
        } else {
            0
        })
    } else {
        pad_zeros(dec_chars(i as nat), w)
    }
}

fn digit_char(d: u64) -> (c: char)
    requires
        d < 10,
    ensures
        c == dec_digit(d as int),
{
    if d == 0 {
        '0'
    } else if d == 1 {
        '1'
    } else if d == 2 {
        '2'
    } else if d == 3 {
        '3'
    } else if d == 4 {
        '4'
    } else if d == 5 {
        '5'
    } else if d == 6 {
        '6'
    } else if d == 7 {
        '7'
    } else if d == 8 {
        '8'
    } else {
        '9'
    }
}

/// Decimal digits of `n`, most significant first.
pub fn u64_dec_chars(n: u64) -> (v: Vec<char>)
    ensures
        v@ == dec_chars(n as nat),
{
    let mut rev: Vec<char> = Vec::new();
    let mut rest: u64 = n;
    loop
        invariant_except_break
            dec_chars(n as nat) =~= dec_chars(rest as nat) + rev@.reverse(),
        ensures
            dec_chars(n as nat) =~= rev@.reverse(),
        decreases rest,
    {
        let d = rest % 10;
        let c = digit_char(d);
        proof {
            assert((rev@.push(c)).reverse() =~= seq![c] + rev@.reverse());
        }
        rev.push(c);
        if rest < 10 {
            break;
        }
        rest = rest / 10;
    }
    let mut v: Vec<char> = Vec::new();
    let n_digits = rev.len();
    for i in 0..n_digits
        invariant
            n_digits == rev.len(),
            dec_chars(n as nat) =~= rev@.reverse(),
            v@ =~= rev@.reverse().take(i as int),
    {
        let c = rev[n_digits - 1 - i];
        proof {
            assert(rev@.reverse()[i as int] == rev@[n_digits - 1 - i]);
            assert(v@.push(c) =~= rev@.reverse().take(i + 1));
        }
        v.push(c);
    }
    proof {
        assert(v@ =~= rev@.reverse());
    }
    v
}

/// Decimal rendering of a signed integer, `-` first when negative.
pub fn i64_dec_chars(i: i64) -> (v: Vec<char>)
    ensures
        v@ == int_dec_chars(i as int),
{
    if i >= 0 {
        u64_dec_chars(i as u64)
    } else {
        let wide: i128 = i as i128;
        let mag: u64 = (-wide) as u64;
        let digits = u64_dec_chars(mag);
        let mut v: Vec<char> = Vec::new();
        v.push('-');
        let n_digits = digits.len();
        for k in 0..n_digits
            invariant
                n_digits == digits.len(),
                v@ =~= seq!['-'] + digits@.take(k as int),
        {
            let c = digits[k];
            proof {
                assert((seq!['-'] + digits@.take(k as int)).push(c) =~= seq!['-'] + digits@.take(
                    k + 1,
                ));
            }
            v.push(c);
        }
        proof {
            assert(digits@.take(n_digits as int) =~= digits@);
        }
        v
    }
}

/// Appends every character of `src` to `dst`.
pub fn append_chars(dst: &mut Vec<char>, src: &Vec<char>)
    ensures
        final(dst)@ == old(dst)@ + src@,
{
    let n_src = src.len();
    for k in 0..n_src
        invariant
            n_src == src.len(),
            dst@ =~= old(dst)@ + src@.take(k as int),
    {
        let c = src[k];
        proof {
            assert((old(dst)@ + src@.take(k as int)).push(c) =~= old(dst)@ + src@.take(k + 1));
        }
        dst.push(c);
    }
    proof {
        assert(src@.take(n_src as int) =~= src@);
        assert(final(dst)@ =~= old(dst)@ + src@);
    }
}

/// Appends every character of the string slice `src` to `dst`.
pub fn append_str(dst: &mut Vec<char>, src: &str)
    ensures
        final(dst)@ == old(dst)@ + src@,
{
    for c in it: src.chars()
        invariant
            dst@ =~= old(dst)@ + it.seq().take(it.index() as int),
    {
        proof {
            assert((old(dst)@ + it.seq().take(it.index() as int)).push(c) =~= old(dst)@
                + it.seq().take(it.index() + 1));
        }
        dst.push(c);
    }
    proof {
        assert(final(dst)@ =~= old(dst)@ + src@);
    }
}

/// The characters of a string slice as a vector.
pub fn str_to_chars(s: &str) -> (v: Vec<char>)
    ensures
        v@ == s@,
{
    let mut v: Vec<char> = Vec::new();
    append_str(&mut v, s);
    v
}

/// Index of the first occurrence of `c` in `s`, or -1 when absent.
pub open spec fn find_char(s: Seq<char>, c: char) -> int
    decreases s.len(),
{
    if s.len() == 0 {
        -1
    } else if s[0] == c {
        0
    } else {
        let r = find_char(s.drop_first(), c);
        if r < 0 {
            -1
        } else {
            r + 1
        }
    }
}

pub proof fn lemma_find_char_absent(s: Seq<char>, c: char)
    requires
        forall|k: int| 0 <= k < s.len() ==> s[k] != c,
    ensures
        find_char(s, c) == -1,
    decreases s.len(),
{
    if s.len() > 0 {
        lemma_find_char_absent(s.drop_first(), c);
    }
}

pub proof fn lemma_find_char_at(s: Seq<char>, c: char, i: int)
    requires
        0 <= i < s.len(),
        s[i] == c,
        forall|k: int| 0 <= k < i ==> s[k] != c,
    ensures
        find_char(s, c) == i,
    decreases s.len(),
{
    if i > 0 {
        lemma_find_char_at(s.drop_first(), c, i - 1);
    }
}

pub proof fn lemma_find_char_props(s: Seq<char>, c: char)
    ensures
        find_char(s, c) == -1 ==> forall|k: int| 0 <= k < s.len() ==> s[k] != c,
        find_char(s, c) >= 0 ==> {
            &&& find_char(s, c) < s.len()
            &&& s[find_char(s, c)] == c
            &&& forall|k: int| 0 <= k < find_char(s, c) ==> s[k] != c
        },
    decreases s.len(),
{
    if s.len() > 0 && s[0] != c {
        lemma_find_char_props(s.drop_first(), c);
        assert(forall|k: int| 1 <= k < s.len() ==> #[trigger] s[k] == s.drop_first()[k - 1]);
    }
}

/// First index of `c` in `v`, if any.
pub fn find_char_in(v: &Vec<char>, c: char) -> (r: Option<usize>)
    ensures
        r is Some ==> find_char(v@, c) == r->0,
        r is None ==> find_char(v@, c) == -1,
{
    let n_chars = v.len();
    for i in 0..n_chars
        invariant
            n_chars == v.len(),
            forall|k: int| 0 <= k < i ==> v@[k] != c,
    {
        if v[i] == c {
            proof {
                lemma_find_char_at(v@, c, i as int);
            }
            return Some(i);
        }
    }
    proof {
        lemma_find_char_absent(v@, c);
    }
    None
}

/// Index of the last occurrence of `c` strictly before position `end`, or -1.
pub open spec fn rfind_char_before(s: Seq<char>, c: char, end: int) -> int
    decreases end,
{
    if end <= 0 {
        -1
    } else if s[end - 1] == c {
        end - 1
    } else {
        rfind_char_before(s, c, end - 1)
    }
}

pub proof fn lemma_rfind_char_before_props(s: Seq<char>, c: char, end: int)
    requires
        end <= s.len(),
    ensures
        rfind_char_before(s, c, end) == -1 ==> forall|k: int| 0 <= k < end ==> s[k] != c,
        rfind_char_before(s, c, end) >= 0 ==> {
            &&& rfind_char_before(s, c, end) < end
            &&& s[rfind_char_before(s, c, end)] == c
        },
    decreases end,
{
    if end > 0 && s[end - 1] != c {
        lemma_rfind_char_before_props(s, c, end - 1);
    }
}

/// Last index of `c` in `v` strictly before `end`, if any.
pub fn rfind_char_before_in(v: &Vec<char>, c: char, end: usize) -> (r: Option<usize>)
    requires
        end <= v@.len(),
    ensures
        r is Some ==> rfind_char_before(v@, c, end as int) == r->0,
        r is None ==> rfind_char_before(v@, c, end as int) == -1,
{
    let mut j: usize = end;
    while j > 0
        invariant
            j <= end <= v@.len(),
            rfind_char_before(v@, c, end as int) == rfind_char_before(v@, c, j as int),
        decreases j,
    {
        if v[j - 1] == c {
            return Some(j - 1);
        }
        j = j - 1;
    }
    None
}

/// The SQL-relevant whitespace characters trimmed from statement edges.
pub open spec fn is_space(c: char) -> bool {
    c == ' ' || c == '\t' || c == '\n' || c == '\r' || c == '\u{b}' || c == '\u{c}'
}

fn is_space_char(c: char) -> (r: bool)
    ensures
        r == is_space(c),
{
    c == ' ' || c == '\t' || c == '\n' || c == '\r' || c == '\u{b}' || c == '\u{c}'
}

/// `s` with leading whitespace removed.
pub open spec fn trim_front(s: Seq<char>) -> Seq<char>
    decreases s.len(),
{
    if s.len() > 0 && is_space(s[0]) {
        trim_front(s.drop_first())
    } else {
        s
    }
}

/// `s` with trailing whitespace removed.
pub open spec fn trim_back(s: Seq<char>) -> Seq<char>
    decreases s.len(),
{
    if s.len() > 0 && is_space(s.last()) {
        trim_back(s.drop_last())
    } else {
        s
    }
}

/// `s` with both leading and trailing whitespace removed.
pub open spec fn trim_spec(s: Seq<char>) -> Seq<char> {
    trim_back(trim_front(s))
}

/// Characters of `v` with leading and trailing whitespace removed.
pub fn trim_chars(v: &Vec<char>) -> (r: Vec<char>)
    ensures
        r@ == trim_spec(v@),
{
    let n_chars = v.len();
    let mut i: usize = 0;
    proof {
        assert(v@.skip(0) =~= v@);
    }
    while i < n_chars && is_space_char(v[i])
        invariant
            i <= n_chars == v@.len(),
            trim_front(v@) == trim_front(v@.skip(i as int)),
        decreases n_chars - i,
    {
        proof {
            assert(v@.skip(i as int).drop_first() =~= v@.skip(i + 1));
        }
        i = i + 1;
    }
    proof {
        if i < n_chars {
            assert(trim_front(v@.skip(i as int)) == v@.skip(i as int));
        } else {
            assert(v@.skip(i as int) =~= Seq::<char>::empty());
        }
    }
    let mut j: usize = n_chars;
    proof {
        assert(v@.skip(i as int) =~= v@.subrange(i as int, n_chars as int));
    }
    while j > i && is_space_char(v[j - 1])
        invariant
            i <= j <= n_chars == v@.len(),
            trim_front(v@) == v@.skip(i as int),
            trim_back(v@.skip(i as int)) == trim_back(v@.subrange(i as int, j as int)),
        decreases j,
    {
        proof {
            assert(v@.subrange(i as int, j as int).last() == v@[j - 1]);
            assert(v@.subrange(i as int, j as int).drop_last() =~= v@.subrange(i as int, j - 1));
        }
        j = j - 1;
    }
    proof {
        if j > i {
            assert(v@.subrange(i as int, j as int).last() == v@[j - 1]);
            assert(trim_back(v@.subrange(i as int, j as int)) == v@.subrange(i as int, j as int));
        } else {
            assert(v@.subrange(i as int, j as int) =~= Seq::<char>::empty());
        }
    }
    let mut r: Vec<char> = Vec::new();
    let mut k: usize = i;
    while k < j
        invariant
            i <= k <= j <= v@.len(),
            r@ =~= v@.subrange(i as int, k as int),
        decreases j - k,
    {
        let c = v[k];
        proof {
            assert(v@.subrange(i as int, k as int).push(c) =~= v@.subrange(i as int, k + 1));
        }
        r.push(c);
        k = k + 1;
    }
    proof {
        assert(r@ =~= trim_spec(v@));
    }
    r
}

/// `s` split on the separator `c`; always at least one (possibly empty)
/// part, one more part per separator.
pub open spec fn split_char(s: Seq<char>, c: char) -> Seq<Seq<char>>
    decreases s.len(),
{
    if s.len() == 0 {
        seq![Seq::<char>::empty()]
    } else {
        let rest = split_char(s.drop_last(), c);
        if s.last() == c {
            rest.push(Seq::empty())
        } else {
            rest.update(rest.len() - 1, rest.last().push(s.last()))
        }
    }
}

pub proof fn lemma_split_char_len(s: Seq<char>, c: char)
    ensures
        split_char(s, c).len() >= 1,
    decreases s.len(),
{
    if s.len() > 0 {
        lemma_split_char_len(s.drop_last(), c);
    }
}

/// No part of a split contains the separator.
pub proof fn lemma_split_char_parts_free(s: Seq<char>, c: char)
    ensures
        forall|p: int, i: int|
            0 <= p < split_char(s, c).len() && 0 <= i < split_char(s, c)[p].len()
                ==> split_char(s, c)[p][i] != c,
    decreases s.len(),
{
    if s.len() > 0 {
        lemma_split_char_parts_free(s.drop_last(), c);
        lemma_split_char_len(s.drop_last(), c);
    }
}

/// Splits the characters of `v` on the separator `c`.
pub fn split_char_in(v: &Vec<char>, c: char) -> (r: Vec<Vec<char>>)
    ensures
        r@.map_values(|p: Vec<char>| p@) == split_char(v@, c),
{
    let mut done: Vec<Vec<char>> = Vec::new();
    let mut cur: Vec<char> = Vec::new();
    let n_chars = v.len();
    for k in 0..n_chars
        invariant
            n_chars == v@.len(),
            done@.map_values(|p: Vec<char>| p@).push(cur@) =~= split_char(v@.take(k as int), c),
    {
        let ch = v[k];
        proof {
            assert(v@.take(k + 1).drop_last() =~= v@.take(k as int));
            assert(v@.take(k + 1).last() == v@[k as int]);
            lemma_split_char_len(v@.take(k as int), c);
        }
        if ch == c {
            let mut finished: Vec<char> = Vec::new();
            core::mem::swap(&mut finished, &mut cur);
            let ghost done_before = done@;
            done.push(finished);
            proof {
                assert(done@.map_values(|p: Vec<char>| p@) =~= done_before.map_values(
                    |p: Vec<char>| p@,
                ).push(finished@));
                assert(done@.map_values(|p: Vec<char>| p@).push(cur@) =~= split_char(
                    v@.take(k + 1),
                    c,
                ));
            }
        } else {
            cur.push(ch);
            proof {
                assert(done@.map_values(|p: Vec<char>| p@).push(cur@) =~= split_char(
                    v@.take(k + 1),
                    c,
                ));
            }
        }
    }
    let ghost done_before = done@;
    done.push(cur);
    proof {
        assert(v@.take(n_chars as int) =~= v@);
        assert(done@.map_values(|p: Vec<char>| p@) =~= done_before.map_values(
            |p: Vec<char>| p@,
        ).push(cur@));
        assert(done@.map_values(|p: Vec<char>| p@) =~= split_char(v@, c));
    }
    done
}

/// The parts joined with a single space between consecutive parts.
pub open spec fn join_space(parts: Seq<Seq<char>>) -> Seq<char>
    decreases parts.len(),
{
    if parts.len() == 0 {
        Seq::empty()
    } else if parts.len() == 1 {
        parts.last()
    } else {
        join_space(parts.drop_last()) + seq![' '] + parts.last()
    }
}

pub proof fn lemma_join_space_step(parts: Seq<Seq<char>>, k: int)
    requires
        0 <= k < parts.len(),
    ensures
        k == 0 ==> join_space(parts.take(1)) == parts[0],
        k > 0 ==> join_space(parts.take(k + 1)) == join_space(parts.take(k)) + seq![' ']
            + parts[k],
{
    assert(parts.take(k + 1).drop_last() =~= parts.take(k));
    assert(parts.take(k + 1).last() == parts[k]);
}

/// Whether `p` is a prefix of `s`.
pub open spec fn starts_with(s: Seq<char>, p: Seq<char>) -> bool {
    s.len() >= p.len() && s.take(p.len() as int) == p
}

/// Whether the characters of `v` start with the characters of `p`.
pub fn chars_start_with(v: &Vec<char>, p: &str) -> (r: bool)
    ensures
        r == starts_with(v@, p@),
{
    let pc = str_to_chars(p);
    let n_p = pc.len();
    if v.len() < n_p {
        proof {
            assert(!starts_with(v@, p@));
        }
        return false;
    }
    for k in 0..n_p
        invariant
            n_p == pc.len() <= v.len(),
            pc@ == p@,
            forall|t: int| 0 <= t < k ==> v@[t] == p@[t],
    {
        if v[k] != pc[k] {
            proof {
                assert(v@.take(p@.len() as int)[k as int] != p@[k as int]);
            }
            return false;
        }
    }
    proof {
        assert(v@.take(p@.len() as int) =~= p@);
    }
    true
}

/// Whether two character vectors hold the same characters.
pub fn chars_eq(a: &Vec<char>, b: &Vec<char>) -> (r: bool)
    ensures
        r == (a@ == b@),
{
    if a.len() != b.len() {
        proof {
            assert(a@ != b@);
        }
        return false;
    }
    let n_chars = a.len();
    for k in 0..n_chars
        invariant
            n_chars == a@.len() == b@.len(),
            forall|j: int| 0 <= j < k ==> a@[j] == b@[j],
    {
        if a[k] != b[k] {
            proof {
                assert(a@ != b@);
            }
            return false;
        }
    }
    proof {
        assert(a@ =~= b@);
    }
    true
}

pub proof fn lemma_repeat_char_push(c: char, n: nat)
    ensures
        repeat_char(c, n).push(c) =~= repeat_char(c, n + 1),
    decreases n,
{
    if n > 0 {
        lemma_repeat_char_push(c, (n - 1) as nat);
        assert(repeat_char(c, n).push(c) =~= seq![c] + repeat_char(c, (n - 1) as nat).push(c));
    }
}

/// Decimal digits of `n` left-padded with zeros to width `w`.
pub fn u64_padded(n: u64, w: usize) -> (v: Vec<char>)
    ensures
        v@ == padded_nat(n as nat, w as nat),
{
    let digits = u64_dec_chars(n);
    let d_len = digits.len();
    let zeros: usize = if w > d_len {
        w - d_len
    } else {
        0
    };
    let mut v: Vec<char> = Vec::new();
    while v.len() < zeros
        invariant
            zeros <= w,
            v@.len() <= zeros,
            v@ =~= repeat_char('0', v@.len() as nat),
        decreases zeros - v.len(),
    {
        proof {
            lemma_repeat_char_push('0', v@.len() as nat);
        }
        v.push('0');
    }
    append_chars(&mut v, &digits);
    proof {
        assert(v@ =~= padded_nat(n as nat, w as nat));
    }
    v
}

/// Zero-padded decimal rendering of a signed integer; the sign occupies one
/// column of the width, as Rust's zero-padded formatting does.
pub fn i64_padded(i: i64, w: usize) -> (v: Vec<char>)
    ensures
        v@ == padded_int(i as int, w as nat),
{
    if i >= 0 {
        u64_padded(i as u64, w)
    } else {
        let wide: i128 = i as i128;
        let mag: u64 = (-wide) as u64;
        let inner = u64_padded(mag, if w > 0 {
            w - 1
        } else {
            0
        });
        let mut v: Vec<char> = Vec::new();
        v.push('-');
        append_chars(&mut v, &inner);
        proof {
            assert(v@ =~= padded_int(i as int, w as nat));
        }
        v
    }
}

/// The characters of `v` from position `a` (inclusive) to `b` (exclusive).
pub fn subrange_chars(v: &Vec<char>, a: usize, b: usize) -> (r: Vec<char>)
    requires
        a <= b <= v@.len(),
    ensures
        r@ == v@.subrange(a as int, b as int),
{
    let mut r: Vec<char> = Vec::new();
    let mut k: usize = a;
    while k < b
        invariant
            a <= k <= b <= v@.len(),
            r@ =~= v@.subrange(a as int, k as int),
        decreases b - k,
    {
        let c = v[k];
        proof {
            assert(v@.subrange(a as int, k as int).push(c) =~= v@.subrange(a as int, k + 1));
        }
        r.push(c);
        k = k + 1;
    }
    r
}

/// A string holding exactly the characters of `v`.
pub fn chars_to_string(v: &Vec<char>) -> (s: String)
    ensures
        s@ == v@,
{
    let mut s = String::new();
    let n_chars = v.len();
    for k in 0..n_chars
        invariant
            n_chars == v.len(),
            s@ =~= v@.take(k as int),
    {
        let c = v[k];
        proof {
            assert(v@.take(k as int).push(c) =~= v@.take(k + 1));
        }
        s.push(c);
    }
    proof {
        assert(v@.take(n_chars as int) =~= v@);
    }
    s
}

} // verus!
