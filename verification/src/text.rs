//! Characters and strings: conversions between `&str`, `String` and
//! sequences of `char`, and decimal numbers as text.

use vstd::prelude::*;

verus! {

/// `String::push` of the standard library, taken on trust from its
/// documentation: the character is added at the end of the text.
pub assume_specification[ String::push ](s: &mut String, ch: char)
    ensures
        final(s)@ == old(s)@.push(ch),
;

/// The characters of `s`, in order.
pub fn to_chars(s: &str) -> (out: Vec<char>)
    ensures
        out@ == s@,
{
    let mut out: Vec<char> = Vec::new();
    for c in it: s.chars()
        invariant
            out@ == it.seq().take(it.index() as int),
            it.seq() == s@,
    {
        out.push(c);
    }
    out
}

/// The characters of `chars` from `from` up to `to`, as a string.
pub fn to_string(chars: &Vec<char>, from: usize, to: usize) -> (out: String)
    requires
        from <= to <= chars.len(),
    ensures
        out@ == chars@.subrange(from as int, to as int),
{
    let mut out = String::new();
    let mut i: usize = from;
    while i < to
        invariant
            from <= i <= to <= chars.len(),
            out@ == chars@.subrange(from as int, i as int),
        decreases to - i,
    {
        out.push(chars[i]);
        proof {
            assert(chars@.subrange(from as int, i + 1) =~= chars@.subrange(
                from as int,
                i as int,
            ).push(chars@[i as int]));
        }
        i = i + 1;
    }
    out
}

/// Whether `c` is one of the ten decimal digits.
pub open spec fn is_digit(c: char) -> bool {
    '0' <= c <= '9'
}

/// The value of a decimal digit.
pub open spec fn digit_value(c: char) -> int {
    c as int - '0' as int
}

/// The digit that stands for `d`, for `d` from 0 to 9.
pub open spec fn digit_char(d: int) -> char {
    (d + '0' as int) as char
}

/// The value of `c` where it is a decimal digit.
pub fn digit_of(c: char) -> (r: Option<u8>)
    ensures
        r is Some <==> is_digit(c),
        r matches Some(d) ==> d == digit_value(c) && d <= 9,
{
    if '0' <= c && c <= '9' {
        Some((c as u32 - '0' as u32) as u8)
    } else {
        None
    }
}

/// The digit that stands for `d`.
pub fn digit_to_char(d: u8) -> (c: char)
    requires
        d <= 9,
    ensures
        c == digit_char(d as int),
        is_digit(c),
        digit_value(c) == d,
{
    (d + 48u8) as char
}

/// A natural number in decimal, without leading zeros.
pub open spec fn nat_text(n: nat) -> Seq<char>
    decreases n,
{
    if n < 10 {
        seq![digit_char(n as int)]
    } else {
        nat_text(n / 10).push(digit_char((n % 10) as int))
    }
}

/// An integer in decimal: a minus sign before a negative number, no sign
/// before any other.
pub open spec fn int_text(v: int) -> Seq<char> {
    if v < 0 {
        seq!['-'] + nat_text((-v) as nat)
    } else {
        nat_text(v as nat)
    }
}

/// Whether `s` holds decimal digits only.
pub open spec fn all_digits(s: Seq<char>) -> bool {
    forall|i: int| 0 <= i < s.len() ==> is_digit(#[trigger] s[i])
}

/// The number that the digits of `s` stand for, read in decimal.
pub open spec fn digits_value(s: Seq<char>) -> nat
    decreases s.len(),
{
    if s.len() == 0 {
        0
    } else {
        (digits_value(s.drop_last()) * 10 + digit_value(s.last())) as nat
    }
}

/// Whether `s` begins with a sign.
pub open spec fn has_sign(s: Seq<char>) -> bool {
    s.len() > 0 && (s[0] == '-' || s[0] == '+')
}

/// The digits of `s`: what follows its sign, if it has one.
pub open spec fn unsigned_part(s: Seq<char>) -> Seq<char> {
    if has_sign(s) {
        s.skip(1)
    } else {
        s
    }
}

/// The integer that `s` stands for: an optional `+` or `-`, then one or
/// more decimal digits and nothing else.
pub open spec fn signed_value(s: Seq<char>) -> Option<int> {
    let body = unsigned_part(s);
    if body.len() == 0 || !all_digits(body) {
        None
    } else if s[0] == '-' {
        Some(-(digits_value(body) as int))
    } else {
        Some(digits_value(body) as int)
    }
}

/// The `i64` that `s` stands for, if it stands for an integer in range.
pub open spec fn i64_value(s: Seq<char>) -> Option<int> {
    match signed_value(s) {
        Some(v) => if i64::MIN <= v <= i64::MAX {
            Some(v)
        } else {
            None
        },
        None => None,
    }
}

/// The decimal text of a number is made of digits, and reading it gives
/// the number back.
pub proof fn lemma_nat_text(n: nat)
    ensures
        nat_text(n).len() > 0,
        all_digits(nat_text(n)),
        digits_value(nat_text(n)) == n,
    decreases n,
{
    if n < 10 {
        assert(nat_text(n).drop_last() =~= Seq::<char>::empty());
        assert(digits_value(nat_text(n).drop_last()) == 0);
    } else {
        lemma_nat_text(n / 10);
        assert(nat_text(n).drop_last() =~= nat_text(n / 10));
    }
}

/// Reading the decimal text of an integer gives the integer back.
pub proof fn lemma_int_text_value(v: int)
    ensures
        signed_value(int_text(v)) == Some(v),
{
    if v < 0 {
        lemma_nat_text((-v) as nat);
        assert(int_text(v).skip(1) =~= nat_text((-v) as nat));
    } else {
        lemma_nat_text(v as nat);
    }
}

/// A number read from digits is at least the number read from fewer of
/// them.
pub proof fn lemma_digits_value_grows(s: Seq<char>, k: int)
    requires
        all_digits(s),
        0 <= k <= s.len(),
    ensures
        digits_value(s.take(k)) <= digits_value(s),
    decreases s.len() - k,
{
    if k == s.len() {
        assert(s.take(k) =~= s);
    } else {
        lemma_digits_value_grows(s, k + 1);
        assert(s.take(k + 1).drop_last() =~= s.take(k));
        assert(is_digit(s[k]));
    }
}

/// Appends `n` in decimal.
pub fn push_decimal(out: &mut String, n: u64)
    ensures
        final(out)@ == old(out)@ + nat_text(n as nat),
    decreases n,
{
    if n >= 10 {
        push_decimal(out, n / 10);
    }
    out.push(digit_to_char((n % 10) as u8));
    proof {
        if n < 10 {
            assert(old(out)@.push(digit_char(n as int)) =~= old(out)@ + nat_text(n as nat));
        } else {
            assert((old(out)@ + nat_text((n / 10) as nat)).push(digit_char((n % 10) as int))
                =~= old(out)@ + nat_text(n as nat));
        }
    }
}

/// Appends `v` in decimal, with a minus sign if it is negative.
pub fn push_signed(out: &mut String, v: i64)
    ensures
        final(out)@ == old(out)@ + int_text(v as int),
{
    if v < 0 {
        out.push('-');
        let magnitude: u64 = (-(v as i128)) as u64;
        push_decimal(out, magnitude);
        proof {
            assert(old(out)@.push('-') + nat_text(magnitude as nat) =~= old(out)@ + int_text(
                v as int,
            ));
        }
    } else {
        push_decimal(out, v as u64);
    }
}

/// Reads the characters of `chars` from `from` up to `to` as an `i64` in
/// decimal: an optional sign, then digits. Returns `None` where they are
/// no such number or the number is out of range.
pub fn parse_i64(chars: &Vec<char>, from: usize, to: usize) -> (r: Option<i64>)
    requires
        from <= to <= chars.len(),
    ensures
        match r {
            Some(v) => i64_value(chars@.subrange(from as int, to as int)) == Some(v as int),
            None => i64_value(chars@.subrange(from as int, to as int)) is None,
        },
{
    let ghost s = chars@.subrange(from as int, to as int);
    if from == to {
        return None;
    }
    let first = chars[from];
    proof {
        assert(s[0] == first);
    }
    let negative = first == '-';
    let begin: usize = if first == '-' || first == '+' {
        from + 1
    } else {
        from
    };
    let ghost body = unsigned_part(s);
    proof {
        assert(body =~= chars@.subrange(begin as int, to as int));
    }
    if begin == to {
        return None;
    }
    let limit: u64 = if negative {
        9223372036854775808u64
    } else {
        9223372036854775807u64
    };
    let mut acc: u64 = 0;
    let mut i: usize = begin;
    proof {
        assert(body.take(0) =~= Seq::<char>::empty());
    }
    while i < to
        invariant
            begin <= i <= to <= chars.len(),
            body == chars@.subrange(begin as int, to as int),
            all_digits(body.take(i - begin)),
            acc == digits_value(body.take(i - begin)),
            acc <= limit,
            limit == if negative {
                9223372036854775808u64
            } else {
                9223372036854775807u64
            },
            s == chars@.subrange(from as int, to as int),
            s.len() > 0,
            negative == (s[0] == '-'),
            body == unsigned_part(s),
            body.len() > 0,
        decreases to - i,
    {
        let c = chars[i];
        let ghost k = i - begin;
        proof {
            assert(body[k] == c);
            assert(body.take(k + 1).drop_last() =~= body.take(k));
            assert(body.take(k + 1).last() == c);
        }
        match digit_of(c) {
            Some(d) => {
                proof {
                    assert forall|j: int| 0 <= j < k + 1 implies is_digit(
                        #[trigger] body.take(k + 1)[j],
                    ) by {
                        if j < k {
                            assert(body.take(k)[j] == body.take(k + 1)[j]);
                        }
                    }
                }
                if acc > (limit - d as u64) / 10 {
                    proof {
                        assert(digits_value(body.take(k + 1)) > limit);
                        if all_digits(body) {
                            lemma_digits_value_grows(body, k + 1);
                        }
                    }
                    return None;
                }
                acc = acc * 10 + d as u64;
            },
            None => {
                proof {
                    assert(!is_digit(body[k]));
                }
                return None;
            },
        }
        i = i + 1;
    }
    proof {
        assert(body.take(to - begin) =~= body);
    }
    if negative {
        if acc == 9223372036854775808u64 {
            Some(i64::MIN)
        } else {
            Some(-(acc as i64))
        }
    } else {
        Some(acc as i64)
    }
}

/// The index of the first `c` in `s`, or the length of `s` where it holds
/// none.
pub open spec fn index_of(s: Seq<char>, c: char) -> int
    decreases s.len(),
{
    if s.len() == 0 {
        0
    } else if s[0] == c {
        0
    } else {
        1 + index_of(s.skip(1), c)
    }
}

/// An index with no `c` before it, and `c` at it unless it is the end, is
/// the index of the first `c`.
pub proof fn lemma_index_of(s: Seq<char>, c: char, i: int)
    requires
        0 <= i <= s.len(),
        forall|j: int| 0 <= j < i ==> s[j] != c,
        i < s.len() ==> s[i] == c,
    ensures
        index_of(s, c) == i,
    decreases i,
{
    if i > 0 {
        assert(s[0] != c);
        lemma_index_of(s.skip(1), c, i - 1);
    }
}

/// The index of the first `c` among the characters from `from` up to `to`,
/// or `to` where there is none.
pub fn find(chars: &Vec<char>, from: usize, to: usize, c: char) -> (at: usize)
    requires
        from <= to <= chars.len(),
    ensures
        from <= at <= to,
        at - from == index_of(chars@.subrange(from as int, to as int), c),
{
    let mut at: usize = from;
    while at < to && chars[at] != c
        invariant
            from <= at <= to <= chars.len(),
            forall|j: int| from <= j < at ==> chars@[j] != c,
        decreases to - at,
    {
        at = at + 1;
    }
    proof {
        lemma_index_of(chars@.subrange(from as int, to as int), c, at - from);
    }
    at
}

/// Whether the characters from `from` up to `to` spell `word`.
pub fn spells(chars: &Vec<char>, from: usize, to: usize, word: &str) -> (r: bool)
    requires
        from <= to <= chars.len(),
    ensures
        r == (chars@.subrange(from as int, to as int) == word@),
{
    let w = to_chars(word);
    if w.len() != to - from {
        return false;
    }
    let mut i: usize = 0;
    while i < w.len()
        invariant
            from <= to <= chars.len(),
            w.len() == to - from,
            w@ == word@,
            i <= w.len(),
            forall|j: int| 0 <= j < i ==> chars@[from + j] == w@[j],
        decreases w.len() - i,
    {
        if chars[from + i] != w[i] {
            proof {
                assert(chars@.subrange(from as int, to as int)[i as int] != w@[i as int]);
            }
            return false;
        }
        i = i + 1;
    }
    proof {
        assert(chars@.subrange(from as int, to as int) =~= w@);
    }
    true
}

} // verus!
