//! Text building blocks: joining, decimal rendering and decimal parsing.
//!
//! Every statement text and every bound value of the crate is assembled from
//! the functions of this module, and their contracts are stated over
//! sequences of characters.

use vstd::prelude::*;
use vstd::string::*;

verus! {

/// The character sequences held by a sequence of strings.
pub open spec fn texts(v: Seq<String>) -> Seq<Seq<char>> {
    Seq::new(v.len(), |i: int| v[i]@)
}

/// `parts` written one after another with `sep` between neighbours.
pub open spec fn join(parts: Seq<Seq<char>>, sep: Seq<char>) -> Seq<char>
    decreases parts.len(),
{
    if parts.len() == 0 {
        Seq::empty()
    } else if parts.len() == 1 {
        parts[0]
    } else {
        join(parts.drop_last(), sep) + sep + parts.last()
    }
}

/// Joins the strings of `parts` with `sep` between neighbours.
pub fn join_strings(parts: &Vec<String>, sep: &str) -> (r: String)
    ensures
        r@ == join(texts(parts@), sep@),
{
    let mut out = String::new();
    let mut i: usize = 0;
    while i < parts.len()
        invariant
            i <= parts.len(),
            out@ == join(texts(parts@).take(i as int), sep@),
        decreases parts.len() - i,
    {
        let ghost all = texts(parts@);
        if i > 0 {
            out.append(sep);
        }
        out.append(parts[i].as_str());
        proof {
            let next = all.take(i + 1);
            assert(next.drop_last() == all.take(i as int));
            assert(next.last() == parts@[i as int]@);
            if i == 0 {
                assert(out@ == next[0]);
            }
        }
        i += 1;
    }
    proof {
        assert(texts(parts@).take(parts.len() as int) == texts(parts@));
    }
    out
}

/// The decimal digit character of `d`, for `0 <= d <= 9`.
pub open spec fn digit_char(d: int) -> char {
    if d == 0 {
        '0'
    } else if d == 1 {
        '1'
    } else if d == 2 {
        '2'
    } else if d == 3 {
        '3'
    } else if d == 4 {
        '4'
    } else if d == 5 {
        '5'
    } else if d == 6 {
        '6'
    } else if d == 7 {
        '7'
    } else if d == 8 {
        '8'
    } else {
        '9'
    }
}

/// The decimal numeral of `n`: most significant digit first, no leading zero
/// except for zero itself.
pub open spec fn decimal(n: nat) -> Seq<char>
    decreases n,
{
    if n < 10 {
        seq![digit_char(n as int)]
    } else {
        decimal(n / 10).push(digit_char((n % 10) as int))
    }
}

/// The decimal numeral of `i`, with a leading `-` for negative numbers.
pub open spec fn signed_decimal(i: int) -> Seq<char> {
    if i < 0 {
        seq!['-'] + decimal((-i) as nat)
    } else {
        decimal(i as nat)
    }
}

fn digit_str(d: u64) -> (r: &'static str)
    requires
        d < 10,
    ensures
        r@ == seq![digit_char(d as int)],
{
    proof {
        reveal_strlit("0");
        reveal_strlit("1");
        reveal_strlit("2");
        reveal_strlit("3");
        reveal_strlit("4");
        reveal_strlit("5");
        reveal_strlit("6");
        reveal_strlit("7");
        reveal_strlit("8");
        reveal_strlit("9");
    }
    let r = if d == 0 {
        "0"
    } else if d == 1 {
        "1"
    } else if d == 2 {
        "2"
    } else if d == 3 {
        "3"
    } else if d == 4 {
        "4"
    } else if d == 5 {
        "5"
    } else if d == 6 {
        "6"
    } else if d == 7 {
        "7"
    } else if d == 8 {
        "8"
    } else {
        "9"
    };
    assert(r@ =~= seq![digit_char(d as int)]);
    r
}

fn push_decimal(out: &mut String, n: u64)
    ensures
        final(out)@ == old(out)@ + decimal(n as nat),
    decreases n,
{
    if n >= 10 {
        push_decimal(out, n / 10);
    }
    out.append(digit_str(n % 10));
    proof {
        if n >= 10 {
            assert(decimal(n as nat) == decimal((n / 10) as nat).push(digit_char((n % 10) as int)));
            assert(final(out)@ =~= old(out)@ + decimal(n as nat));
        } else {
            assert(final(out)@ =~= old(out)@ + decimal(n as nat));
        }
    }
}

/// Renders `n` as its decimal numeral.
pub fn u64_text(n: u64) -> (r: String)
    ensures
        r@ == decimal(n as nat),
{
    let mut out = String::new();
    push_decimal(&mut out, n);
    assert(out@ =~= decimal(n as nat));
    out
}

/// Renders `i` as its decimal numeral, with a leading `-` when negative.
pub fn i64_text(i: i64) -> (r: String)
    ensures
        r@ == signed_decimal(i as int),
{
    let mut out = String::new();
    if i < 0 {
        proof {
            reveal_strlit("-");
        }
        out.append("-");
        let magnitude: u64 = if i == i64::MIN {
            0x8000_0000_0000_0000u64
        } else {
            (-i) as u64
        };
        push_decimal(&mut out, magnitude);
        assert(out@ =~= signed_decimal(i as int));
    } else {
        push_decimal(&mut out, i as u64);
        assert(out@ =~= signed_decimal(i as int));
    }
    out
}

/// Whether `c` is one of the ten decimal digit characters.
pub open spec fn is_digit(c: char) -> bool {
    '0' <= c && c <= '9'
}

/// The number a decimal digit character stands for.
pub open spec fn digit_value(c: char) -> nat {
    (c as int - '0' as int) as nat
}

/// Whether every character of `s` is a decimal digit.
pub open spec fn all_digits(s: Seq<char>) -> bool {
    forall|i: int| 0 <= i < s.len() ==> is_digit(#[trigger] s[i])
}

/// The number that the digit string `s` denotes; zero for the empty string.
pub open spec fn digits_value(s: Seq<char>) -> nat
    decreases s.len(),
{
    if s.len() == 0 {
        0
    } else {
        digits_value(s.drop_last()) * 10 + digit_value(s.last())
    }
}

/// The integer that `s` denotes as a decimal numeral: one or more digits,
/// optionally preceded by `+`, or by `-` where `signed` holds. Anything else,
/// the empty string and a lone sign included, denotes nothing.
pub open spec fn parse_decimal(s: Seq<char>, signed: bool) -> Option<int> {
    if s.len() == 0 {
        None
    } else if s[0] == '+' || (signed && s[0] == '-') {
        let body = s.skip(1);
        if body.len() > 0 && all_digits(body) {
            if s[0] == '-' {
                Some(-(digits_value(body) as int))
            } else {
                Some(digits_value(body) as int)
            }
        } else {
            None
        }
    } else if all_digits(s) {
        Some(digits_value(s) as int)
    } else {
        None
    }
}

/// `parse_decimal`, narrowed to the numbers from `lo` to `hi`.
pub open spec fn parse_in_range(s: Seq<char>, signed: bool, lo: int, hi: int) -> Option<int> {
    match parse_decimal(s, signed) {
        Some(v) => if lo <= v <= hi {
            Some(v)
        } else {
            None
        },
        None => None,
    }
}

/// A digit string denotes at least what any of its prefixes denotes.
pub proof fn lemma_digits_value_prefix(s: Seq<char>, k: int)
    requires
        0 <= k <= s.len(),
    ensures
        digits_value(s.take(k)) <= digits_value(s),
    decreases s.len(),
{
    if k == s.len() {
        assert(s.take(k) == s);
    } else {
        lemma_digits_value_prefix(s.drop_last(), k);
        assert(s.drop_last().take(k) == s.take(k));
    }
}

/// The numeral of `n` consists of digits only, is not empty, and denotes `n`.
pub proof fn lemma_decimal_digits(n: nat)
    ensures
        decimal(n).len() > 0,
        all_digits(decimal(n)),
        digits_value(decimal(n)) == n,
    decreases n,
{
    if n < 10 {
        let s = decimal(n);
        assert(s.len() == 1);
        assert(s.drop_last().len() == 0);
        assert(digits_value(s) == digits_value(s.drop_last()) * 10 + digit_value(s.last()));
    } else {
        lemma_decimal_digits(n / 10);
        let head = decimal(n / 10);
        let s = decimal(n);
        assert(s == head.push(digit_char((n % 10) as int)));
        assert(s.drop_last() == head);
        assert forall|i: int| 0 <= i < s.len() implies is_digit(#[trigger] s[i]) by {
            if i < head.len() {
                assert(s[i] == head[i]);
            }
        }
    }
}

/// Reading back the numeral of an integer gives that integer.
pub proof fn lemma_parse_signed_decimal(i: int)
    ensures
        parse_decimal(signed_decimal(i), true) == Some(i),
        i >= 0 ==> parse_decimal(signed_decimal(i), false) == Some(i),
{
    if i < 0 {
        let body = decimal((-i) as nat);
        lemma_decimal_digits((-i) as nat);
        let s = signed_decimal(i);
        assert(s[0] == '-');
        assert(s.skip(1) == body);
    } else {
        lemma_decimal_digits(i as nat);
        let s = decimal(i as nat);
        assert(is_digit(s[0]));
    }
}

/// Reads a decimal numeral, giving its sign and magnitude.
///
/// `None` stands for a text that denotes nothing, or whose magnitude does not
/// fit in 64 bits.
fn parse_magnitude(s: &str, signed: bool) -> (r: Option<(bool, u64)>)
    ensures
        match r {
            Some((negative, m)) => parse_decimal(s@, signed) == Some(
                if negative {
                    -(m as int)
                } else {
                    m as int
                },
            ),
            None => match parse_decimal(s@, signed) {
                Some(v) => v > u64::MAX || v < -(u64::MAX as int),
                None => true,
            },
        },
{
    let mut negative = false;
    let mut acc: u64 = 0;
    let mut any = false;
    let mut first = true;
    let ghost mut start: int = 0;
    for c in it: s.chars()
        invariant
            it.seq() == s@,
            start == 0 || start == 1,
            start <= it.index() || (start == 0 && it.index() == 0),
            start == 1 ==> s@.len() > 0 && (s@[0] == '+' || (signed && s@[0] == '-')),
            start == 0 && it.index() > 0 ==> !(s@[0] == '+' || (signed && s@[0] == '-')),
            negative <==> (start == 1 && s@[0] == '-'),
            any <==> it.index() > start,
            first <==> it.index() == 0,
            all_digits(s@.subrange(start, it.index() as int)),
            acc == digits_value(s@.subrange(start, it.index() as int)),
    {
        let ghost k = it.index() as int;
        assert(c == s@[k]);
        let leading = first;
        first = false;
        if leading && (c == '+' || (signed && c == '-')) {
            negative = c == '-';
            proof {
                start = 1;
                assert(s@.subrange(1, 1).len() == 0);
            }
        } else if c >= '0' && c <= '9' {
            let d: u64 = (c as u64) - ('0' as u64);
            let ghost prev = s@.subrange(start, k);
            let ghost next = s@.subrange(start, k + 1);
            proof {
                assert(next.drop_last() == prev);
                assert(next.last() == c);
                assert(digits_value(next) == acc * 10 + d);
                assert forall|i: int| 0 <= i < next.len() implies is_digit(#[trigger] next[i]) by {
                    if i < prev.len() {
                        assert(next[i] == prev[i]);
                    }
                }
            }
            if acc > (u64::MAX - d) / 10 {
                proof {
                    let body = s@.skip(start);
                    if all_digits(body) {
                        lemma_digits_value_prefix(body, k + 1 - start);
                        assert(body.take(k + 1 - start) == next);
                    }
                    if start == 0 {
                        assert(body == s@);
                    }
                }
                return None;
            }
            acc = acc * 10 + d;
            any = true;
        } else {
            proof {
                let body = s@.skip(start);
                assert(body[k - start] == c);
                if start == 0 {
                    assert(body == s@);
                }
            }
            return None;
        }
    }
    proof {
        assert(s@.subrange(start, s@.len() as int) == s@.skip(start));
        if start == 0 {
            assert(s@.skip(0) == s@);
        }
    }
    if any {
        Some((negative, acc))
    } else {
        None
    }
}

/// Reads `s` as a signed 64-bit decimal numeral.
pub fn parse_i64(s: &str) -> (r: Option<i64>)
    ensures
        match parse_in_range(s@, true, i64::MIN as int, i64::MAX as int) {
            Some(v) => r == Some(v as i64),
            None => r is None,
        },
{
    match parse_magnitude(s, true) {
        None => None,
        Some((negative, m)) => {
            if negative {
                if m < 0x8000_0000_0000_0000u64 {
                    Some(-(m as i64))
                } else if m == 0x8000_0000_0000_0000u64 {
                    Some(i64::MIN)
                } else {
                    None
                }
            } else if m <= 0x7fff_ffff_ffff_ffffu64 {
                Some(m as i64)
            } else {
                None
            }
        },
    }
}

/// Reads `s` as an unsigned 64-bit decimal numeral.
pub fn parse_u64(s: &str) -> (r: Option<u64>)
    ensures
        match parse_in_range(s@, false, 0, u64::MAX as int) {
            Some(v) => r == Some(v as u64),
            None => r is None,
        },
{
    match parse_magnitude(s, false) {
        None => None,
        Some((_, m)) => Some(m),
    }
}

/// How often the character `c` occurs in `s`.
pub open spec fn count(s: Seq<char>, c: char) -> nat
    decreases s.len(),
{
    if s.len() == 0 {
        0
    } else {
        count(s.drop_last(), c) + if s.last() == c {
            1nat
        } else {
            0nat
        }
    }
}

/// How often the character `c` occurs in all of `parts` together.
pub open spec fn count_all(parts: Seq<Seq<char>>, c: char) -> nat
    decreases parts.len(),
{
    if parts.len() == 0 {
        0
    } else {
        count_all(parts.drop_last(), c) + count(parts.last(), c)
    }
}

/// A character occurs in a concatenation as often as in its two parts
/// together.
pub proof fn lemma_count_concat(a: Seq<char>, b: Seq<char>, c: char)
    ensures
        count(a + b, c) == count(a, c) + count(b, c),
    decreases b.len(),
{
    if b.len() == 0 {
        assert(a + b == a);
    } else {
        lemma_count_concat(a, b.drop_last(), c);
        assert((a + b).drop_last() == a + b.drop_last());
        assert((a + b).last() == b.last());
    }
}

/// A character that occurs nowhere in `s` is counted zero times.
pub proof fn lemma_count_absent(s: Seq<char>, c: char)
    requires
        forall|i: int| 0 <= i < s.len() ==> s[i] != c,
    ensures
        count(s, c) == 0,
    decreases s.len(),
{
    if s.len() > 0 {
        lemma_count_absent(s.drop_last(), c);
    }
}

/// A character occurs in a joined text as often as in the parts, and once
/// more in each separator between them.
pub proof fn lemma_count_join(parts: Seq<Seq<char>>, sep: Seq<char>, c: char)
    ensures
        count(join(parts, sep), c) == count_all(parts, c) + if parts.len() > 0 {
            (parts.len() - 1) * count(sep, c)
        } else {
            0
        },
    decreases parts.len(),
{
    if parts.len() == 0 {
    } else if parts.len() == 1 {
        assert(count_all(parts.drop_last(), c) == 0);
        assert(parts.last() == parts[0]);
        assert((parts.len() - 1) * count(sep, c) == 0) by (nonlinear_arith)
            requires
                parts.len() == 1,
        ;
    } else {
        let rest = parts.drop_last();
        lemma_count_join(rest, sep, c);
        assert(join(parts, sep) == join(rest, sep) + sep + parts.last());
        lemma_count_concat(join(rest, sep), sep, c);
        lemma_count_concat(join(rest, sep) + sep, parts.last(), c);
        assert((parts.len() - 1) * count(sep, c) == (rest.len() - 1) * count(sep, c) + count(
            sep,
            c,
        )) by (nonlinear_arith)
            requires
                rest.len() == parts.len() - 1,
        ;
    }
}

/// Where a character occurs the same number of times in each part, it occurs
/// that many times the number of parts in all of them.
pub proof fn lemma_count_all_uniform(parts: Seq<Seq<char>>, c: char, each: nat)
    requires
        forall|i: int| 0 <= i < parts.len() ==> count(#[trigger] parts[i], c) == each,
    ensures
        count_all(parts, c) == parts.len() * each,
    decreases parts.len(),
{
    if parts.len() > 0 {
        let rest = parts.drop_last();
        assert forall|i: int| 0 <= i < rest.len() implies count(#[trigger] rest[i], c) == each by {
            assert(rest[i] == parts[i]);
        }
        lemma_count_all_uniform(rest, c, each);
        assert(parts.len() * each == rest.len() * each + each) by (nonlinear_arith)
            requires
                rest.len() == parts.len() - 1,
        ;
    }
}

/// A numeral holds nothing but digits.
pub proof fn lemma_count_decimal(n: nat, c: char)
    requires
        !is_digit(c),
    ensures
        count(decimal(n), c) == 0,
{
    lemma_decimal_digits(n);
    let s = decimal(n);
    assert forall|i: int| 0 <= i < s.len() implies s[i] != c by {
        assert(is_digit(s[i]));
    }
    lemma_count_absent(s, c);
}

/// Whether the text holds no `?`.
pub open spec fn plain(s: Seq<char>) -> bool {
    count(s, '?') == 0
}

/// Whether each of the texts holds no `?`.
pub open spec fn all_plain(parts: Seq<Seq<char>>) -> bool {
    forall|i: int| 0 <= i < parts.len() ==> plain(#[trigger] parts[i])
}

/// Parts that each hold `each` occurrences of `?`, joined by a separator
/// without any, hold `each` times their number.
pub proof fn lemma_count_join_uniform(parts: Seq<Seq<char>>, sep: Seq<char>, each: nat)
    requires
        plain(sep),
        forall|i: int| 0 <= i < parts.len() ==> count(#[trigger] parts[i], '?') == each,
    ensures
        count(join(parts, sep), '?') == parts.len() * each,
{
    lemma_count_join(parts, sep, '?');
    lemma_count_all_uniform(parts, '?', each);
    if parts.len() > 0 {
        assert((parts.len() - 1) * count(sep, '?') == 0) by (nonlinear_arith)
            requires
                count(sep, '?') == 0,
        ;
    }
}

} // verus!
