//! Character-level building blocks shared by the textual grammars: decimal
//! numbers, whitespace trimming and splitting on a separator.
//!
//! Every function works on the characters of a string, `Seq<char>` in
//! contracts and `Vec<char>` in executable code.
use vstd::prelude::*;

verus! {

broadcast use vstd::string::group_string_axioms;

/// The characters of `s`, in order.
pub fn chars_of(s: &str) -> (out: Vec<char>)
    ensures
        out@ == s@,
{
    let mut out: Vec<char> = Vec::new();
    for c in it: s.chars()
        invariant
            it.seq() == s@,
            out@ == s@.take(it.index() as int),
    {
        out.push(c);
        assert(s@.take(it.index() + 1) =~= s@.take(it.index() as int).push(c));
    }
    assert(s@.take(s@.len() as int) =~= s@);
    out
}

/// `String::push`: appends one character.
#[verifier::external_body]
fn push_char(s: &mut String, c: char)
    ensures
        final(s)@ == old(s)@.push(c),
{
    s.push(c);
}

/// The string made of `chars`, in order.
pub fn string_of(chars: &Vec<char>) -> (s: String)
    ensures
        s@ == chars@,
{
    let mut s = String::new();
    let mut i: usize = 0;
    while i < chars.len()
        invariant
            i <= chars.len(),
            s@ == chars@.take(i as int),
        decreases chars.len() - i,
    {
        push_char(&mut s, chars[i]);
        assert(chars@.take(i + 1) =~= chars@.take(i as int).push(chars@[i as int]));
        i += 1;
    }
    assert(chars@.take(chars@.len() as int) =~= chars@);
    s
}

/// An ASCII decimal digit.
pub open spec fn is_digit(c: char) -> bool {
    '0' <= c && c <= '9'
}

/// The number a decimal digit stands for.
pub open spec fn digit_value(c: char) -> nat
    recommends
        is_digit(c),
{
    (c as int - '0' as int) as nat
}

/// Every character of `s` is a decimal digit.
pub open spec fn all_digits(s: Seq<char>) -> bool {
    forall|i: int| 0 <= i < s.len() ==> is_digit(#[trigger] s[i])
}

/// The number written by the digit string `s`, most significant digit first.
pub open spec fn decimal_value(s: Seq<char>) -> nat
    decreases s.len(),
{
    if s.len() == 0 {
        0
    } else {
        10 * decimal_value(s.drop_last()) + digit_value(s.last())
    }
}

/// What the standard integer parsers accept: an optional sign (`+` always,
/// `-` only where `signed`), then one or more decimal digits whose value,
/// with the sign applied, lies in `lo..=hi`.
pub open spec fn parse_integer(s: Seq<char>, signed: bool, lo: int, hi: int) -> Option<int> {
    if s.len() == 0 {
        None
    } else {
        let negative = signed && s[0] == '-';
        let body = if s[0] == '+' || negative {
            s.skip(1)
        } else {
            s
        };
        let value = if negative {
            -(decimal_value(body) as int)
        } else {
            decimal_value(body) as int
        };
        if body.len() > 0 && all_digits(body) && lo <= value <= hi {
            Some(value)
        } else {
            None
        }
    }
}

/// Appending a digit never makes the written number smaller.
pub proof fn lemma_decimal_value_grows(s: Seq<char>, c: char)
    ensures
        decimal_value(s.push(c)) == 10 * decimal_value(s) + digit_value(c),
        decimal_value(s.push(c)) >= decimal_value(s),
{
    assert(s.push(c).drop_last() =~= s);
}

/// A longer digit string never writes a smaller number than its own prefix.
pub proof fn lemma_decimal_value_prefix(s: Seq<char>, n: int)
    requires
        0 <= n <= s.len(),
    ensures
        decimal_value(s.take(n)) <= decimal_value(s),
    decreases s.len() - n,
{
    if n < s.len() {
        assert(s.take(n + 1) =~= s.take(n).push(s[n]));
        lemma_decimal_value_grows(s.take(n), s[n]);
        lemma_decimal_value_prefix(s, n + 1);
    } else {
        assert(s.take(n) =~= s);
    }
}

/// Reads `v[start..end]` as a run of decimal digits.
///
/// Gives the number they write when the range is non-empty, holds digits
/// only and the number does not exceed `bound`; nothing otherwise.
pub fn parse_digits(v: &Vec<char>, start: usize, end: usize, bound: u64) -> (out: Option<u64>)
    requires
        start <= end <= v.len(),
    ensures
        out is Some <==> start < end && all_digits(v@.subrange(start as int, end as int))
            && decimal_value(v@.subrange(start as int, end as int)) <= bound,
        out matches Some(n) ==> n == decimal_value(v@.subrange(start as int, end as int)),
{
    if start == end {
        return None;
    }
    let ghost run = v@.subrange(start as int, end as int);
    let mut acc: u128 = 0;
    let mut i: usize = start;
    while i < end
        invariant
            start <= i <= end <= v.len(),
            run == v@.subrange(start as int, end as int),
            all_digits(run.take(i - start)),
            acc == decimal_value(run.take(i - start)),
            acc <= bound,
        decreases end - i,
    {
        let c = v[i];
        assert(run[i - start] == c);
        if !(c >= '0' && c <= '9') {
            return None;
        }
        let d: u128 = (c as u32 - '0' as u32) as u128;
        proof {
            assert(run.take(i - start + 1) =~= run.take(i - start).push(c));
            lemma_decimal_value_grows(run.take(i - start), c);
            lemma_decimal_value_prefix(run, i - start + 1);
        }
        acc = acc * 10 + d;
        if acc > bound as u128 {
            return None;
        }
        i += 1;
    }
    assert(run.take(end - start) =~= run);
    Some(acc as u64)
}

/// Reads `v[start..end]` as an unsigned 32-bit decimal number.
pub fn parse_u32(v: &Vec<char>, start: usize, end: usize) -> (out: Option<u32>)
    requires
        start <= end <= v.len(),
    ensures
        match parse_integer(v@.subrange(start as int, end as int), false, 0, u32::MAX as int) {
            Some(n) => out == Some(n as u32),
            None => out is None,
        },
{
    if start == end {
        return None;
    }
    let ghost run = v@.subrange(start as int, end as int);
    let body_start = if v[start] == '+' {
        start + 1
    } else {
        start
    };
    assert(run[0] == v@[start as int]);
    assert(v@.subrange(body_start as int, end as int) =~= if run[0] == '+' {
        run.skip(1)
    } else {
        run
    });
    match parse_digits(v, body_start, end, 0xffff_ffff) {
        Some(n) => Some(n as u32),
        None => None,
    }
}

/// Reads `v[start..end]` as a signed 64-bit decimal number.
pub fn parse_i64(v: &Vec<char>, start: usize, end: usize) -> (out: Option<i64>)
    requires
        start <= end <= v.len(),
    ensures
        match parse_integer(
            v@.subrange(start as int, end as int),
            true,
            i64::MIN as int,
            i64::MAX as int,
        ) {
            Some(n) => out == Some(n as i64),
            None => out is None,
        },
{
    if start == end {
        return None;
    }
    let ghost run = v@.subrange(start as int, end as int);
    let negative = v[start] == '-';
    let body_start = if v[start] == '+' || negative {
        start + 1
    } else {
        start
    };
    assert(run[0] == v@[start as int]);
    assert(v@.subrange(body_start as int, end as int) =~= if run[0] == '+' || negative {
        run.skip(1)
    } else {
        run
    });
    if negative {
        match parse_digits(v, body_start, end, 0x8000_0000_0000_0000) {
            Some(n) => if n == 0x8000_0000_0000_0000 {
                Some(i64::MIN)
            } else {
                Some(-(n as i64))
            },
            None => None,
        }
    } else {
        match parse_digits(v, body_start, end, 0x7fff_ffff_ffff_ffff) {
            Some(n) => Some(n as i64),
            None => None,
        }
    }
}

/// A character with the Unicode property `White_Space`.
pub open spec fn is_whitespace(c: char) -> bool {
    let u = c as u32;
    ||| 0x09 <= u <= 0x0d
    ||| u == 0x20
    ||| u == 0x85
    ||| u == 0xa0
    ||| u == 0x1680
    ||| 0x2000 <= u <= 0x200a
    ||| u == 0x2028
    ||| u == 0x2029
    ||| u == 0x202f
    ||| u == 0x205f
    ||| u == 0x3000
}

/// Tells whether `c` is white space.
pub fn is_whitespace_char(c: char) -> (b: bool)
    ensures
        b == is_whitespace(c),
{
    let u: u32 = c as u32;
    (0x09 <= u && u <= 0x0d) || u == 0x20 || u == 0x85 || u == 0xa0 || u == 0x1680 || (0x2000 <= u
        && u <= 0x200a) || u == 0x2028 || u == 0x2029 || u == 0x202f || u == 0x205f || u == 0x3000
}

/// `s` without its leading white space.
pub open spec fn trim_start(s: Seq<char>) -> Seq<char>
    decreases s.len(),
{
    if s.len() > 0 && is_whitespace(s[0]) {
        trim_start(s.skip(1))
    } else {
        s
    }
}

/// `s` without its trailing white space.
pub open spec fn trim_end(s: Seq<char>) -> Seq<char>
    decreases s.len(),
{
    if s.len() > 0 && is_whitespace(s.last()) {
        trim_end(s.drop_last())
    } else {
        s
    }
}

/// `s` without leading and trailing white space.
pub open spec fn trim(s: Seq<char>) -> Seq<char> {
    trim_end(trim_start(s))
}

/// The bounds of `v[start..end]` once leading and trailing white space is
/// left out.
pub fn trim_range(v: &Vec<char>, start: usize, end: usize) -> (out: (usize, usize))
    requires
        start <= end <= v.len(),
    ensures
        start <= out.0 <= out.1 <= end,
        v@.subrange(out.0 as int, out.1 as int) == trim(v@.subrange(start as int, end as int)),
{
    let ghost run = v@.subrange(start as int, end as int);
    let mut lo: usize = start;
    while lo < end && is_whitespace_char(v[lo])
        invariant
            start <= lo <= end <= v.len(),
            trim_start(run) == trim_start(v@.subrange(lo as int, end as int)),
        decreases end - lo,
    {
        assert(v@.subrange(lo as int, end as int).skip(1) =~= v@.subrange(lo + 1, end as int));
        lo += 1;
    }
    let ghost front = v@.subrange(lo as int, end as int);
    assert(trim_start(run) == front);
    let mut hi: usize = end;
    while hi > lo && is_whitespace_char(v[hi - 1])
        invariant
            lo <= hi <= end <= v.len(),
            trim_end(front) == trim_end(v@.subrange(lo as int, hi as int)),
        decreases hi - lo,
    {
        assert(v@.subrange(lo as int, hi as int).drop_last() =~= v@.subrange(lo as int, hi - 1));
        hi -= 1;
    }
    (lo, hi)
}

/// `s` without its leading run of the character `c`.
pub open spec fn strip_leading(s: Seq<char>, c: char) -> Seq<char>
    decreases s.len(),
{
    if s.len() > 0 && s[0] == c {
        strip_leading(s.skip(1), c)
    } else {
        s
    }
}

/// The start of `v[start..end]` once its leading run of `c` is left out.
pub fn strip_leading_range(v: &Vec<char>, start: usize, end: usize, c: char) -> (lo: usize)
    requires
        start <= end <= v.len(),
    ensures
        start <= lo <= end,
        v@.subrange(lo as int, end as int) == strip_leading(
            v@.subrange(start as int, end as int),
            c,
        ),
{
    let ghost run = v@.subrange(start as int, end as int);
    let mut lo: usize = start;
    while lo < end && v[lo] == c
        invariant
            start <= lo <= end <= v.len(),
            strip_leading(run, c) == strip_leading(v@.subrange(lo as int, end as int), c),
        decreases end - lo,
    {
        assert(v@.subrange(lo as int, end as int).skip(1) =~= v@.subrange(lo + 1, end as int));
        lo += 1;
    }
    lo
}

/// `pat` stands in `s` at position `i`.
pub open spec fn occurs_at(s: Seq<char>, pat: Seq<char>, i: int) -> bool {
    0 <= i && i + pat.len() <= s.len() && s.subrange(i, i + pat.len()) == pat
}

/// The first position at or after `from` where the non-empty `pat` stands
/// in `s`, or `-1` when there is none.
pub open spec fn first_occurrence(s: Seq<char>, pat: Seq<char>, from: int) -> int
    decreases s.len() - from,
{
    if from < 0 || pat.len() == 0 || from + pat.len() > s.len() {
        -1
    } else if occurs_at(s, pat, from) {
        from
    } else {
        first_occurrence(s, pat, from + 1)
    }
}

/// The pieces of `s` between the occurrences of the separator `pat`, taken
/// from left to right without overlap. A string that holds no separator is
/// its own single piece.
pub open spec fn split(s: Seq<char>, pat: Seq<char>) -> Seq<Seq<char>>
    decreases s.len(),
{
    let i = first_occurrence(s, pat, 0);
    if pat.len() > 0 && 0 <= i && i + pat.len() <= s.len() {
        seq![s.take(i)] + split(s.skip(i + pat.len()), pat)
    } else {
        seq![s]
    }
}

/// Tells whether `pat` stands in `v[..end]` at position `at`.
fn matches_at(v: &Vec<char>, at: usize, end: usize, pat: &Vec<char>) -> (b: bool)
    requires
        at <= end <= v.len(),
        at + pat.len() <= end,
    ensures
        b == (v@.subrange(at as int, at + pat.len()) == pat@),
{
    let mut k: usize = 0;
    while k < pat.len()
        invariant
            k <= pat.len(),
            at + pat.len() <= end <= v.len(),
            v@.subrange(at as int, at + k) == pat@.take(k as int),
        decreases pat.len() - k,
    {
        if v[at + k] != pat[k] {
            assert(v@.subrange(at as int, at + pat.len())[k as int] != pat@[k as int]);
            return false;
        }
        assert(v@.subrange(at as int, at + k + 1) =~= v@.subrange(at as int, at + k).push(
            v@[at + k],
        ));
        assert(pat@.take(k + 1) =~= pat@.take(k as int).push(pat@[k as int]));
        k += 1;
    }
    assert(pat@.take(pat@.len() as int) =~= pat@);
    true
}

/// The first position in `v[start..end]`, counted from `start`, where `pat`
/// stands, or nothing.
fn find_in_range(v: &Vec<char>, start: usize, end: usize, pat: &Vec<char>) -> (out: Option<usize>)
    requires
        start <= end <= v.len(),
        pat.len() > 0,
    ensures
        match out {
            Some(i) => start + i + pat.len() <= end && i == first_occurrence(
                v@.subrange(start as int, end as int),
                pat@,
                0,
            ),
            None => first_occurrence(v@.subrange(start as int, end as int), pat@, 0) == -1,
        },
{
    let ghost run = v@.subrange(start as int, end as int);
    let n = pat.len();
    let mut j: usize = start;
    while end - j >= n
        invariant
            start <= j <= end <= v.len(),
            n == pat.len(),
            n > 0,
            run == v@.subrange(start as int, end as int),
            first_occurrence(run, pat@, 0) == first_occurrence(run, pat@, j - start),
        decreases end - j,
    {
        let found = matches_at(v, j, end, pat);
        assert(run.subrange(j - start, j - start + n) =~= v@.subrange(j as int, j + n));
        if found {
            return Some(j - start);
        }
        j += 1;
    }
    None
}

/// The pieces of `v[start..end]` between the occurrences of the separator
/// `pat`, each as its bounds in `v`.
pub fn split_range(v: &Vec<char>, start: usize, end: usize, pat: &Vec<char>) -> (out: Vec<
    (usize, usize),
>)
    requires
        start <= end <= v.len(),
        pat.len() > 0,
    ensures
        out@.len() == split(v@.subrange(start as int, end as int), pat@).len(),
        forall|k: int|
            0 <= k < out@.len() ==> start <= (#[trigger] out@[k]).0 <= out@[k].1 <= end
                && v@.subrange(out@[k].0 as int, out@[k].1 as int) == split(
                v@.subrange(start as int, end as int),
                pat@,
            )[k],
{
    let ghost run = v@.subrange(start as int, end as int);
    let mut out: Vec<(usize, usize)> = Vec::new();
    let mut cur: usize = start;
    loop
        invariant
            start <= cur <= end <= v.len(),
            pat.len() > 0,
            run == v@.subrange(start as int, end as int),
            split(run, pat@).len() == out@.len() + split(
                v@.subrange(cur as int, end as int),
                pat@,
            ).len(),
            forall|k: int|
                0 <= k < out@.len() ==> start <= (#[trigger] out@[k]).0 <= out@[k].1 <= end
                    && v@.subrange(out@[k].0 as int, out@[k].1 as int) == split(run, pat@)[k],
            forall|k: int|
                0 <= k < split(v@.subrange(cur as int, end as int), pat@).len() ==> split(
                    run,
                    pat@,
                )[out@.len() + k] == #[trigger] split(v@.subrange(cur as int, end as int), pat@)[k],
        decreases end - cur,
    {
        let ghost rest = v@.subrange(cur as int, end as int);
        let ghost done = out@.len();
        match find_in_range(v, cur, end, pat) {
            Some(i) => {
                let ghost tail = split(rest.skip(i + pat.len()), pat@);
                assert(split(rest, pat@) == seq![rest.take(i as int)] + tail);
                assert(rest.take(i as int) =~= v@.subrange(cur as int, cur + i));
                assert(rest.skip(i + pat.len()) =~= v@.subrange(cur + i + pat.len(), end as int));
                assert(split(rest, pat@)[0] == rest.take(i as int));
                assert forall|k: int| 0 <= k < tail.len() implies split(run, pat@)[done + 1 + k]
                    == #[trigger] tail[k] by {
                    assert(split(rest, pat@)[k + 1] == tail[k]);
                }
                out.push((cur, cur + i));
                cur = cur + i + pat.len();
            },
            None => {
                assert(split(rest, pat@) == seq![rest]);
                assert(split(rest, pat@)[0] == rest);
                out.push((cur, end));
                return out;
            },
        }
    }
}

/// The character that writes the digit `d`.
pub open spec fn digit_char(d: int) -> char
    recommends
        0 <= d < 10,
{
    (d + 48) as char
}

/// The decimal digits of `n`, most significant first, without leading
/// zeros; the single digit `0` for zero.
pub open spec fn decimal_digits(n: nat) -> Seq<char>
    decreases n,
{
    if n < 10 {
        seq![digit_char(n as int)]
    } else {
        decimal_digits(n / 10).push(digit_char((n % 10) as int))
    }
}

/// The decimal form of a signed number: a minus sign where it is
/// negative, then the digits of its magnitude.
pub open spec fn signed_decimal(n: int) -> Seq<char> {
    if n < 0 {
        seq!['-'] + decimal_digits((-n) as nat)
    } else {
        decimal_digits(n as nat)
    }
}

/// Numbers are read as they are written: the digits of `n` are digits,
/// start with no zero but for zero itself, and write `n`.
pub proof fn lemma_decimal_round_trip(n: nat)
    ensures
        decimal_digits(n).len() >= 1,
        all_digits(decimal_digits(n)),
        decimal_value(decimal_digits(n)) == n,
        n > 0 ==> decimal_digits(n)[0] != '0',
    decreases n,
{
    if n < 10 {
        let s = seq![digit_char(n as int)];
        assert(s.drop_last() =~= Seq::<char>::empty());
        assert(decimal_value(s.drop_last()) == 0);
        assert(decimal_digits(n) == s);
    } else {
        lemma_decimal_round_trip(n / 10);
        let head = decimal_digits(n / 10);
        let last = digit_char((n % 10) as int);
        lemma_decimal_value_grows(head, last);
        assert(decimal_digits(n) == head.push(last));
        assert(decimal_digits(n)[0] == head[0]);
    }
}

/// A signed number in its decimal form is read back as itself by the
/// parser of signed numbers, where it lies within the bounds.
pub proof fn lemma_signed_decimal_round_trip(n: int, lo: int, hi: int)
    requires
        lo <= n <= hi,
    ensures
        parse_integer(signed_decimal(n), true, lo, hi) == Some(n),
{
    let digits = decimal_digits(if n < 0 {
        (-n) as nat
    } else {
        n as nat
    });
    lemma_decimal_round_trip(if n < 0 {
        (-n) as nat
    } else {
        n as nat
    });
    if n < 0 {
        assert(signed_decimal(n).skip(1) =~= digits);
        assert(signed_decimal(n)[0] == '-');
    } else {
        assert(signed_decimal(n) == digits);
        assert(is_digit(digits[0]));
    }
}

/// The character that writes the digit `d`.
pub fn digit_to_char(d: u8) -> (c: char)
    requires
        d < 10,
    ensures
        c == digit_char(d as int),
        is_digit(c),
        digit_value(c) == d,
{
    (d + 48) as char
}

/// Appends the decimal digits of `n` to `out`.
pub fn push_decimal(out: &mut Vec<char>, n: u64)
    ensures
        final(out)@ == old(out)@ + decimal_digits(n as nat),
    decreases n,
{
    if n >= 10 {
        push_decimal(out, n / 10);
    }
    out.push(digit_to_char((n % 10) as u8));
    assert(final(out)@ =~= old(out)@ + decimal_digits(n as nat));
}

/// Appends the decimal form of the signed number `n` to `out`.
pub fn push_signed_decimal(out: &mut Vec<char>, n: i64)
    ensures
        final(out)@ == old(out)@ + signed_decimal(n as int),
{
    if n < 0 {
        out.push('-');
        let magnitude: u64 = if n == i64::MIN {
            0x8000_0000_0000_0000
        } else {
            (-n) as u64
        };
        push_decimal(out, magnitude);
        assert(final(out)@ =~= old(out)@ + signed_decimal(n as int));
    } else {
        push_decimal(out, n as u64);
    }
}

/// Appends the characters of `s` to `out`.
pub fn push_str(out: &mut Vec<char>, s: &str)
    ensures
        final(out)@ == old(out)@ + s@,
{
    let mut tail = chars_of(s);
    out.append(&mut tail);
}

} // verus!
