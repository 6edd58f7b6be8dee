//! Text on sequences of characters: conversion, splitting, trimming,
//! decimal numbers.
use vstd::prelude::*;

verus! {

broadcast use vstd::string::group_string_axioms;

/// Calls `String::push`: appends one character.
#[verifier::external_body]
pub(crate) fn push_char(s: &mut String, c: char)
    ensures
        final(s)@ == old(s)@.push(c),
{
    s.push(c);
}

/// The characters of `s`.
pub fn chars_of(s: &str) -> (r: Vec<char>)
    ensures
        r@ == s@,
{
    let mut out: Vec<char> = Vec::new();
    for c in it: s.chars()
        invariant
            out@ == it.seq().take(it.index() as int),
    {
        out.push(c);
    }
    out
}


/// The text made of the characters `cs`.
pub fn string_of(cs: &Vec<char>) -> (r: String)
    ensures
        r@ == cs@,
{
    let mut out = String::new();
    let n = cs.len();
    let mut i: usize = 0;
    while i < n
        invariant
            n == cs@.len(),
            i <= n,
            out@ == cs@.take(i as int),
        decreases n - i,
    {
        push_char(&mut out, cs[i]);
        proof {
            assert(cs@.take(i + 1) =~= cs@.take(i as int).push(cs@[i as int]));
        }
        i += 1;
    }
    proof {
        assert(cs@.take(n as int) =~= cs@);
    }
    out
}

/// The characters that `char::is_whitespace` accepts: those with the Unicode
/// White_Space property.
pub open spec fn is_whitespace(c: char) -> bool {
    let u = c as u32;
    ||| 0x09 <= u <= 0x0d
    ||| u == 0x20
    ||| u == 0x85
    ||| u == 0xa0
    ||| u == 0x1680
    ||| 0x2000 <= u <= 0x200a
    ||| u == 0x2028
    ||| u == 0x2029
    ||| u == 0x202f
    ||| u == 0x205f
    ||| u == 0x3000
}

/// Whether `c` is white space.
pub fn is_space(c: char) -> (r: bool)
    ensures
        r == is_whitespace(c),
{
    let u = c as u32;
    (0x09 <= u && u <= 0x0d) || u == 0x20 || u == 0x85 || u == 0xa0 || u == 0x1680 || (0x2000 <= u
        && u <= 0x200a) || u == 0x2028 || u == 0x2029 || u == 0x202f || u == 0x205f || u == 0x3000
}

/// `s` without its leading white space.
pub open spec fn trim_front(s: Seq<char>) -> Seq<char>
    decreases s.len(),
{
    if s.len() > 0 && is_whitespace(s[0]) {
        trim_front(s.drop_first())
    } else {
        s
    }
}

/// `s` without its trailing white space.
pub open spec fn trim_back(s: Seq<char>) -> Seq<char>
    decreases s.len(),
{
    if s.len() > 0 && is_whitespace(s.last()) {
        trim_back(s.drop_last())
    } else {
        s
    }
}

/// `s` without leading and trailing white space (as `str::trim`).
pub open spec fn trim(s: Seq<char>) -> Seq<char> {
    trim_back(trim_front(s))
}

/// The characters of `cs` from `start` up to (not including) `end`.
pub fn sub_chars(cs: &Vec<char>, start: usize, end: usize) -> (r: Vec<char>)
    requires
        start <= end <= cs@.len(),
    ensures
        r@ == cs@.subrange(start as int, end as int),
{
    let mut out: Vec<char> = Vec::new();
    let mut i = start;
    while i < end
        invariant
            start <= i <= end,
            end <= cs@.len(),
            out@ == cs@.subrange(start as int, i as int),
        decreases end - i,
    {
        out.push(cs[i]);
        proof {
            assert(out@ =~= cs@.subrange(start as int, i + 1));
        }
        i += 1;
    }
    out
}

/// `cs` without leading and trailing white space.
pub fn trim_chars(cs: &Vec<char>) -> (r: Vec<char>)
    ensures
        r@ == trim(cs@),
{
    let n = cs.len();
    let mut a: usize = 0;
    proof {
        assert(cs@.skip(0) =~= cs@);
    }
    while a < n && is_space(cs[a])
        invariant
            n == cs@.len(),
            a <= n,
            trim_front(cs@) == trim_front(cs@.skip(a as int)),
        decreases n - a,
    {
        proof {
            assert(cs@.skip(a as int).drop_first() =~= cs@.skip(a + 1));
        }
        a += 1;
    }
    proof {
        if a == n {
            assert(cs@.skip(a as int) =~= Seq::<char>::empty());
        }
        assert(cs@.subrange(a as int, n as int) =~= cs@.skip(a as int));
    }
    let mut b: usize = n;
    while b > a && is_space(cs[b - 1])
        invariant
            n == cs@.len(),
            a <= b <= n,
            trim(cs@) == trim_back(cs@.subrange(a as int, b as int)),
        decreases b - a,
    {
        proof {
            assert(cs@.subrange(a as int, b as int).drop_last() =~= cs@.subrange(a as int, b - 1));
        }
        b -= 1;
    }
    sub_chars(cs, a, b)
}

/// The pieces of `s` between occurrences of `sep` (as `str::split` with a
/// character): one more piece than there are separators, empty pieces
/// included.
pub open spec fn split_on(s: Seq<char>, sep: char) -> Seq<Seq<char>>
    decreases s.len(),
{
    if s.len() == 0 {
        seq![Seq::<char>::empty()]
    } else {
        let prev = split_on(s.drop_last(), sep);
        if s.last() == sep {
            prev.push(Seq::<char>::empty())
        } else {
            prev.update(prev.len() - 1, prev.last().push(s.last()))
        }
    }
}

/// There is always at least one piece.
pub proof fn lemma_split_nonempty(s: Seq<char>, sep: char)
    ensures
        split_on(s, sep).len() >= 1,
    decreases s.len(),
{
    if s.len() > 0 {
        lemma_split_nonempty(s.drop_last(), sep);
    }
}

/// Appending text without the separator only lengthens the last piece.
pub proof fn lemma_split_append(p: Seq<char>, q: Seq<char>, sep: char)
    requires
        forall|i: int| 0 <= i < q.len() ==> q[i] != sep,
    ensures
        split_on(p + q, sep) == split_on(p, sep).update(
            split_on(p, sep).len() - 1,
            split_on(p, sep).last() + q,
        ),
    decreases q.len(),
{
    lemma_split_nonempty(p, sep);
    let sp = split_on(p, sep);
    if q.len() == 0 {
        assert(p + q =~= p);
        assert(sp.last() + q =~= sp.last());
        assert(sp.update(sp.len() - 1, sp.last()) =~= sp);
    } else {
        let qd = q.drop_last();
        lemma_split_append(p, qd, sep);
        assert((p + q).drop_last() =~= p + qd);
        assert((p + q).last() == q.last());
        assert((sp.last() + qd).push(q.last()) =~= sp.last() + q);
        let prev = sp.update(sp.len() - 1, sp.last() + qd);
        assert(prev.update(prev.len() - 1, prev.last().push(q.last())) =~= sp.update(sp.len() - 1, sp.last() + q));
    }
}

/// Text without the separator is one piece.
pub proof fn lemma_split_single(a: Seq<char>, sep: char)
    requires
        forall|i: int| 0 <= i < a.len() ==> a[i] != sep,
    ensures
        split_on(a, sep) == seq![a],
{
    lemma_split_append(Seq::empty(), a, sep);
    assert(Seq::<char>::empty() + a =~= a);
    assert(Seq::<char>::empty() + a =~= a);
    assert(seq![Seq::<char>::empty()].update(0, Seq::<char>::empty() + a) =~= seq![a]);
}

/// The pieces before a separator stay the first pieces, whatever follows it.
pub proof fn lemma_split_prefix(p: Seq<char>, r: Seq<char>, sep: char)
    ensures
        split_on(p + seq![sep] + r, sep).len() >= split_on(p, sep).len() + 1,
        forall|k: int| 0 <= k < split_on(p, sep).len() ==> #[trigger] split_on(p + seq![sep] + r, sep)[k] == split_on(p, sep)[k],
    decreases r.len(),
{
    lemma_split_nonempty(p, sep);
    if r.len() == 0 {
        assert(p + seq![sep] + r =~= p + seq![sep]);
        assert((p + seq![sep]).drop_last() =~= p);
    } else {
        lemma_split_prefix(p, r.drop_last(), sep);
        assert((p + seq![sep] + r).drop_last() =~= p + seq![sep] + r.drop_last());
        assert((p + seq![sep] + r).last() == r.last());
    }
}

/// The texts of a list of character vectors.
pub open spec fn views(p: Seq<Vec<char>>) -> Seq<Seq<char>> {
    p.map_values(|v: Vec<char>| v@)
}

/// The pieces of `cs` between occurrences of `sep`.
pub fn split_chars(cs: &Vec<char>, sep: char) -> (r: Vec<Vec<char>>)
    ensures
        views(r@) == split_on(cs@, sep),
        r@.len() >= 1,
{
    let mut parts: Vec<Vec<char>> = Vec::new();
    let mut cur: Vec<char> = Vec::new();
    let n = cs.len();
    let mut i: usize = 0;
    proof {
        assert(cs@.take(0) =~= Seq::<char>::empty());
        assert(views(parts@).push(cur@) =~= split_on(cs@.take(0), sep));
    }
    while i < n
        invariant
            n == cs@.len(),
            i <= n,
            views(parts@).push(cur@) == split_on(cs@.take(i as int), sep),
        decreases n - i,
    {
        proof {
            assert(cs@.take(i + 1).drop_last() =~= cs@.take(i as int));
            assert(cs@.take(i + 1).last() == cs@[i as int]);
        }
        let c = cs[i];
        if c == sep {
            let ghost before = parts@;
            let ghost cur_before = cur@;
            parts.push(cur);
            cur = Vec::new();
            proof {
                assert(views(parts@) =~= views(before).push(cur_before));
                assert(views(parts@).push(cur@) =~= split_on(cs@.take(i + 1), sep));
            }
        } else {
            cur.push(c);
            proof {
                assert(views(parts@).push(cur@) =~= split_on(cs@.take(i + 1), sep));
            }
        }
        i += 1;
    }
    let ghost before = parts@;
    let ghost cur_before = cur@;
    parts.push(cur);
    proof {
        assert(views(parts@) =~= views(before).push(cur_before));
        assert(cs@.take(n as int) =~= cs@);
    }
    parts
}

/// `pat` occurs in `s` at position `i`.
pub open spec fn occurs_at(s: Seq<char>, pat: Seq<char>, i: int) -> bool {
    0 <= i && i + pat.len() <= s.len() && s.subrange(i, i + pat.len()) == pat
}

/// `pat` occurs in `s` (as `str::contains`).
pub open spec fn contains_text(s: Seq<char>, pat: Seq<char>) -> bool {
    exists|i: int| occurs_at(s, pat, i)
}

/// Whether `pat` occurs in `s` at position `i`.
pub fn matches_at(s: &Vec<char>, pat: &Vec<char>, i: usize) -> (r: bool)
    requires
        i + pat@.len() <= s@.len(),
    ensures
        r == occurs_at(s@, pat@, i as int),
{
    let m = pat.len();
    let sl = s.len();
    let mut k: usize = 0;
    while k < m
        invariant
            m == pat@.len(),
            sl == s@.len(),
            i + m <= s@.len(),
            k <= m,
            forall|j: int| 0 <= j < k ==> s@[i + j] == pat@[j],
        decreases m - k,
    {
        if s[i + k] != pat[k] {
            proof {
                assert(s@.subrange(i as int, i + m)[k as int] != pat@[k as int]);
            }
            return false;
        }
        k += 1;
    }
    proof {
        assert(s@.subrange(i as int, i + m) =~= pat@);
    }
    true
}

/// Whether `pat` occurs in `s`.
pub fn contains_chars(s: &Vec<char>, pat: &Vec<char>) -> (r: bool)
    ensures
        r == contains_text(s@, pat@),
{
    let n = s.len();
    let m = pat.len();
    if m > n {
        return false;
    }
    if m == 0 {
        proof {
            assert(s@.subrange(0, 0) =~= pat@);
            assert(occurs_at(s@, pat@, 0));
        }
        return true;
    }
    let last = n - m;
    let mut i: usize = 0;
    while i <= last
        invariant
            n == s@.len(),
            m == pat@.len(),
            last == n - m,
            m >= 1,
            i <= last + 1,
            forall|j: int| 0 <= j < i ==> !#[trigger] occurs_at(s@, pat@, j),
        decreases last + 1 - i,
    {
        if matches_at(s, pat, i) {
            return true;
        }
        i += 1;
    }
    false
}

/// `p` is a prefix of `s` (as `str::starts_with`).
pub open spec fn starts_with(s: Seq<char>, p: Seq<char>) -> bool {
    p.len() <= s.len() && s.take(p.len() as int) == p
}

/// Whether `p` is a prefix of `s`.
pub fn starts_with_chars(s: &Vec<char>, p: &Vec<char>) -> (r: bool)
    ensures
        r == starts_with(s@, p@),
{
    if p.len() > s.len() {
        return false;
    }
    let r = matches_at(s, p, 0);
    proof {
        assert(s@.subrange(0, p@.len() as int) =~= s@.take(p@.len() as int));
    }
    r
}

/// `s` with each occurrence of `pat` replaced by `rep`, occurrences found
/// from the left without overlapping (as `str::replace`, for a pattern that
/// is not empty).
pub open spec fn replace_all(s: Seq<char>, pat: Seq<char>, rep: Seq<char>) -> Seq<char>
    decreases s.len(),
{
    if pat.len() == 0 || s.len() < pat.len() {
        s
    } else if s.take(pat.len() as int) == pat {
        rep + replace_all(s.skip(pat.len() as int), pat, rep)
    } else {
        seq![s[0]] + replace_all(s.skip(1), pat, rep)
    }
}

/// `s` with each occurrence of `pat` replaced by `rep` (see `replace_all`).
pub fn replace_all_chars(s: &Vec<char>, pat: &Vec<char>, rep: &Vec<char>) -> (r: Vec<char>)
    requires
        pat@.len() > 0,
    ensures
        r@ == replace_all(s@, pat@, rep@),
{
    let n = s.len();
    let m = pat.len();
    let mut out: Vec<char> = Vec::new();
    let mut i: usize = 0;
    proof {
        assert(s@.skip(0) =~= s@);
    }
    while i < n
        invariant
            n == s@.len(),
            m == pat@.len(),
            m > 0,
            i <= n,
            out@ + replace_all(s@.skip(i as int), pat@, rep@) == replace_all(s@, pat@, rep@),
        decreases n - i,
    {
        let ghost rest = s@.skip(i as int);
        if m <= n - i && matches_at(s, pat, i) {
            proof {
                assert(rest.take(m as int) =~= s@.subrange(i as int, i + m));
                assert(rest.skip(m as int) =~= s@.skip(i + m));
            }
            let mut k: usize = 0;
            let ghost before = out@;
            while k < rep.len()
                invariant
                    k <= rep@.len(),
                    out@ == before + rep@.take(k as int),
                decreases rep@.len() - k,
            {
                out.push(rep[k]);
                proof {
                    assert(out@ =~= before + rep@.take(k + 1));
                }
                k += 1;
            }
            proof {
                assert(rep@.take(rep@.len() as int) =~= rep@);
                assert(before + (rep@ + replace_all(s@.skip(i + m), pat@, rep@)) =~= out@ + replace_all(
                    s@.skip(i + m),
                    pat@,
                    rep@,
                ));
            }
            i = i + m;
        } else {
            proof {
                if m <= n - i {
                    assert(rest.take(m as int) =~= s@.subrange(i as int, i + m));
                }
                assert(rest.skip(1) =~= s@.skip(i + 1));
                assert(rest[0] == s@[i as int]);
            }
            let ghost before = out@;
            out.push(s[i]);
            proof {
                if m <= n - i {
                    assert(before + (seq![s@[i as int]] + replace_all(s@.skip(i + 1), pat@, rep@)) =~= out@
                        + replace_all(s@.skip(i + 1), pat@, rep@));
                } else {
                    assert(replace_all(rest, pat@, rep@) == rest);
                    assert(replace_all(s@.skip(i + 1), pat@, rep@) == s@.skip(i + 1));
                    assert(before + rest =~= out@ + s@.skip(i + 1));
                }
            }
            i = i + 1;
        }
    }
    proof {
        assert(s@.skip(n as int) =~= Seq::<char>::empty());
        assert(out@ + Seq::<char>::empty() =~= out@);
    }
    out
}

/// The decimal digit character of `d`.
pub open spec fn digit_char(d: int) -> char {
    if d == 0 { '0' } else if d == 1 { '1' } else if d == 2 { '2' } else if d == 3 { '3' } else if d == 4 { '4' }
    else if d == 5 { '5' } else if d == 6 { '6' } else if d == 7 { '7' } else if d == 8 { '8' } else { '9' }
}

/// The decimal notation of `n`, without leading zeros.
pub open spec fn decimal(n: nat) -> Seq<char>
    decreases n,
{
    if n < 10 {
        seq![digit_char(n as int)]
    } else {
        decimal(n / 10).push(digit_char((n % 10) as int))
    }
}

fn digit(d: u64) -> (r: char)
    requires
        d < 10,
    ensures
        r == digit_char(d as int),
{
    match d {
        0 => '0',
        1 => '1',
        2 => '2',
        3 => '3',
        4 => '4',
        5 => '5',
        6 => '6',
        7 => '7',
        8 => '8',
        _ => '9',
    }
}

/// Appends the decimal notation of `n` to `out`.
pub fn push_decimal(out: &mut String, n: u64)
    ensures
        final(out)@ == old(out)@ + decimal(n as nat),
    decreases n,
{
    if n >= 10 {
        push_decimal(out, n / 10);
    }
    push_char(out, digit(n % 10));
}

/// A decimal digit character.
pub open spec fn is_digit(c: char) -> bool {
    48 <= c as u32 <= 57
}

/// The value of a string of decimal digits.
pub open spec fn digits_value(d: Seq<char>) -> int
    decreases d.len(),
{
    if d.len() == 0 {
        0
    } else {
        digits_value(d.drop_last()) * 10 + (d.last() as u32 - 48)
    }
}

/// What `str::parse::<u64>` gives: an optional `+` followed by at least one
/// decimal digit and nothing else, whose value fits in 64 bits.
pub open spec fn parse_u64_spec(s: Seq<char>) -> Option<u64> {
    parse_u64_spec_digits(if s.len() > 0 && s[0] == '+' { s.drop_first() } else { s })
}

/// A longer string of digits is worth at least as much.
proof fn lemma_digits_monotone(d: Seq<char>, k: int)
    requires
        0 <= k <= d.len(),
        forall|i: int| 0 <= i < d.len() ==> is_digit(#[trigger] d[i]),
    ensures
        digits_value(d.take(k)) <= digits_value(d),
        digits_value(d.take(k)) >= 0,
    decreases d.len() - k,
{
    if k < d.len() {
        lemma_digits_monotone(d, k + 1);
        assert(d.take(k + 1).drop_last() =~= d.take(k));
        assert(is_digit(d[k]));
    } else {
        assert(d.take(k) =~= d);
        lemma_digits_nonneg(d);
    }
}

proof fn lemma_digits_nonneg(d: Seq<char>)
    requires
        forall|i: int| 0 <= i < d.len() ==> is_digit(#[trigger] d[i]),
    ensures
        digits_value(d) >= 0,
    decreases d.len(),
{
    if d.len() > 0 {
        assert(is_digit(d[d.len() - 1]));
        lemma_digits_nonneg(d.drop_last());
    }
}

/// Reads `cs` as an unsigned 64-bit decimal number (as `str::parse::<u64>`).
pub fn parse_u64(cs: &Vec<char>) -> (r: Option<u64>)
    ensures
        r == parse_u64_spec(cs@),
{
    let n = cs.len();
    let start: usize = if n > 0 && cs[0] == '+' { 1 } else { 0 };
    let ghost d = if cs@.len() > 0 && cs@[0] == '+' { cs@.drop_first() } else { cs@ };
    proof {
        assert(d =~= cs@.skip(start as int));
        assert(parse_u64_spec(cs@) == parse_u64_spec_digits(d));
    }
    if start == n {
        return None;
    }
    let mut acc: u64 = 0;
    let mut i = start;
    proof {
        assert(d.take(0) =~= Seq::<char>::empty());
    }
    while i < n
        invariant
            n == cs@.len(),
            start <= i <= n,
            start < n,
            d == cs@.skip(start as int),
            parse_u64_spec(cs@) == parse_u64_spec_digits(d),
            forall|j: int| 0 <= j < i - start ==> is_digit(#[trigger] d[j]),
            acc == digits_value(d.take(i - start)),
        decreases n - i,
    {
        let c = cs[i];
        let u = c as u32;
        if !(48 <= u && u <= 57) {
            proof {
                assert(d[i - start] == c);
                assert(!is_digit(d[i - start]));
                assert(parse_u64_spec_digits(d) is None);
            }
            return None;
        }
        let v = (u - 48) as u64;
        proof {
            assert(d.take(i + 1 - start).drop_last() =~= d.take(i - start));
            assert(d.take(i + 1 - start).last() == c);
        }
        match acc.checked_mul(10) {
            None => {
                proof {
                    lemma_overflow_stays(d, (i - start) as int);
                }
                return None;
            },
            Some(t) => match t.checked_add(v) {
                None => {
                    proof {
                        lemma_overflow_stays(d, (i - start) as int);
                    }
                    return None;
                },
                Some(nacc) => {
                    acc = nacc;
                },
            },
        }
        i += 1;
    }
    proof {
        assert(d.take(n - start) =~= d);
    }
    Some(acc)
}

/// Once a prefix of the digits overflows, the whole does (or is no number).
proof fn lemma_overflow_stays(d: Seq<char>, k: int)
    requires
        0 <= k < d.len(),
        forall|j: int| 0 <= j < k ==> is_digit(#[trigger] d[j]),
        is_digit(d[k]),
        digits_value(d.take(k + 1)) > u64::MAX,
    ensures
        parse_u64_spec_digits(d) is None,
{
    if forall|i: int| 0 <= i < d.len() ==> is_digit(#[trigger] d[i]) {
        lemma_digits_monotone(d, k + 1);
    }
}

/// The number written by the digits `d`, if it is one and fits in 64 bits.
pub open spec fn parse_u64_spec_digits(d: Seq<char>) -> Option<u64> {
    if d.len() > 0 && (forall|i: int| 0 <= i < d.len() ==> is_digit(#[trigger] d[i])) && digits_value(d) <= u64::MAX {
        Some(digits_value(d) as u64)
    } else {
        None
    }
}

} // verus!
