//! Decimal text of byte counts.

use vstd::prelude::*;
use crate::text::{chars_of, push_char};

verus! {

/// The value of an ASCII digit.
pub open spec fn digit_value(c: char) -> nat {
    ((c as u32) - ('0' as u32)) as nat
}

/// The value of `c` as a digit in `base` (10 or 16; hex digits in either
/// case), if it is one.
pub open spec fn digit_in(c: char, base: nat) -> Option<nat> {
    if '0' <= c && c <= '9' {
        Some(((c as u32) - ('0' as u32)) as nat)
    } else if base == 16 && 'a' <= c && c <= 'f' {
        Some(((c as u32) - ('a' as u32) + 10) as nat)
    } else if base == 16 && 'A' <= c && c <= 'F' {
        Some(((c as u32) - ('A' as u32) + 10) as nat)
    } else {
        None
    }
}

/// Whether every character of `s` is a digit in `base`.
pub open spec fn all_digits_in(s: Seq<char>, base: nat) -> bool {
    forall|i: int| 0 <= i < s.len() ==> (#[trigger] digit_in(s[i], base)) is Some
}

/// The number that digits in `base` write, most significant first.
pub open spec fn value_in(s: Seq<char>, base: nat) -> nat
    decreases s.len(),
{
    if s.len() == 0 {
        0
    } else {
        value_in(s.drop_last(), base) * base + digit_in(s.last(), base)->0
    }
}

/// The number written in `base`: an optional `+`, then one or more digits,
/// whose value fits in a `u64`.
pub open spec fn parse_unsigned(s: Seq<char>, base: nat) -> Option<u64> {
    let u = if s.len() > 0 && s[0] == '+' {
        s.drop_first()
    } else {
        s
    };
    if u.len() > 0 && all_digits_in(u, base) && value_in(u, base) <= u64::MAX {
        Some(value_in(u, base) as u64)
    } else {
        None
    }
}

/// The byte count written in `s`: hexadecimal after a `0x` prefix,
/// decimal otherwise, each with an optional `+`.
pub open spec fn parse_count(s: Seq<char>) -> Option<u64> {
    if s.len() >= 2 && s[0] == '0' && s[1] == 'x' {
        parse_unsigned(s.subrange(2, s.len() as int), 16)
    } else {
        parse_unsigned(s, 10)
    }
}

/// The digit character of `d < 10`.
pub open spec fn digit_char(d: nat) -> char {
    if d == 0 {
        '0'
    } else if d == 1 {
        '1'
    } else if d == 2 {
        '2'
    } else if d == 3 {
        '3'
    } else if d == 4 {
        '4'
    } else if d == 5 {
        '5'
    } else if d == 6 {
        '6'
    } else if d == 7 {
        '7'
    } else if d == 8 {
        '8'
    } else {
        '9'
    }
}

/// The shortest decimal text of `n`.
pub open spec fn decimal_of(n: nat) -> Seq<char>
    decreases n,
{
    if n < 10 {
        seq![digit_char(n)]
    } else {
        decimal_of(n / 10).push(digit_char(n % 10))
    }
}

proof fn lemma_value_prefix_bound(s: Seq<char>, base: nat, i: int)
    requires
        0 <= i <= s.len(),
        base >= 1,
    ensures
        value_in(s.subrange(0, i), base) <= value_in(s, base),
    decreases s.len(),
{
    if i < s.len() {
        assert(s.drop_last() =~= s.subrange(0, s.len() - 1));
        assert(s.subrange(0, i) =~= s.drop_last().subrange(0, i));
        lemma_value_prefix_bound(s.drop_last(), base, i);
        let v = value_in(s.drop_last(), base);
        assert(v * base >= v) by (nonlinear_arith)
            requires
                base >= 1,
        ;
    } else {
        assert(s.subrange(0, i) =~= s);
    }
}

fn digit_of(c: char, base: u64) -> (r: Option<u64>)
    requires
        base == 10 || base == 16,
    ensures
        match r {
            Some(d) => digit_in(c, base as nat) == Some(d as nat) && d < base,
            None => digit_in(c, base as nat) is None,
        },
{
    if '0' <= c && c <= '9' {
        Some((c as u32 - '0' as u32) as u64)
    } else if base == 16 && 'a' <= c && c <= 'f' {
        Some((c as u32 - 'a' as u32 + 10) as u64)
    } else if base == 16 && 'A' <= c && c <= 'F' {
        Some((c as u32 - 'A' as u32 + 10) as u64)
    } else {
        None
    }
}

/// Reads the digits `cs[from..]` in `base` after an optional `+`; see
/// `parse_unsigned`.
fn parse_digits(cs: &Vec<char>, from: usize, base: u64) -> (r: Option<u64>)
    requires
        from <= cs@.len(),
        base == 10 || base == 16,
    ensures
        r == parse_unsigned(cs@.subrange(from as int, cs@.len() as int), base as nat),
{
    let ghost s = cs@.subrange(from as int, cs@.len() as int);
    let mut start = from;
    if start < cs.len() && cs[start] == '+' {
        start += 1;
        assert(s.drop_first() =~= cs@.subrange(start as int, cs@.len() as int));
    }
    let ghost u = cs@.subrange(start as int, cs@.len() as int);
    assert(u == (if s.len() > 0 && s[0] == '+' { s.drop_first() } else { s }));
    if start == cs.len() {
        return None;
    }
    let mut v: u64 = 0;
    let mut i: usize = start;
    while i < cs.len()
        invariant
            start <= i <= cs@.len(),
            start < cs@.len(),
            from <= start,
            base == 10 || base == 16,
            s == cs@.subrange(from as int, cs@.len() as int),
            u == (if s.len() > 0 && s[0] == '+' {
                s.drop_first()
            } else {
                s
            }),
            u == cs@.subrange(start as int, cs@.len() as int),
            all_digits_in(cs@.subrange(start as int, i as int), base as nat),
            v as nat == value_in(cs@.subrange(start as int, i as int), base as nat),
        decreases cs@.len() - i,
    {
        let d = match digit_of(cs[i], base) {
            None => {
                assert(u[i - start] == cs@[i as int]);
                assert(digit_in(u[i - start], base as nat) is None);
                assert(!all_digits_in(u, base as nat));
                return None;
            },
            Some(d) => d,
        };
        let ghost pre = cs@.subrange(start as int, i + 1);
        assert(pre.drop_last() =~= cs@.subrange(start as int, i as int));
        assert(pre.last() == cs@[i as int]);
        if v > (u64::MAX - d) / base {
            assert(v * base + d > u64::MAX) by (nonlinear_arith)
                requires
                    v as int > (u64::MAX as int - d as int) / (base as int),
                    base >= 1,
            ;
            proof {
                lemma_value_prefix_bound(u, base as nat, i + 1 - start);
                assert(u.subrange(0, i + 1 - start) =~= pre);
                assert(value_in(pre, base as nat) == v * base + d);
                assert(value_in(u, base as nat) > u64::MAX);
            }
            return None;
        }
        assert(v * base + d <= u64::MAX) by (nonlinear_arith)
            requires
                v as int <= (u64::MAX as int - d as int) / (base as int),
                base >= 1,
        ;
        v = v * base + d;
        i += 1;
        assert forall|k: int| 0 <= k < pre.len() implies (#[trigger] digit_in(pre[k], base as nat)) is Some by {
            if k < pre.len() - 1 {
                assert(pre[k] == cs@.subrange(start as int, i - 1)[k]);
            }
        }
    }
    assert(cs@.subrange(start as int, cs@.len() as int) == u);
    Some(v)
}

/// Reads a byte count; see `parse_count`.
pub fn parse_count_text(s: &str) -> (r: Option<u64>)
    ensures
        r == parse_count(s@),
{
    let cs = chars_of(s);
    if cs.len() >= 2 && cs[0] == '0' && cs[1] == 'x' {
        parse_digits(&cs, 2, 16)
    } else {
        assert(cs@.subrange(0, cs@.len() as int) =~= cs@);
        parse_digits(&cs, 0, 10)
    }
}

fn digit_char_of(d: u64) -> (c: char)
    requires
        d < 10,
    ensures
        c == digit_char(d as nat),
{
    if d == 0 {
        '0'
    } else if d == 1 {
        '1'
    } else if d == 2 {
        '2'
    } else if d == 3 {
        '3'
    } else if d == 4 {
        '4'
    } else if d == 5 {
        '5'
    } else if d == 6 {
        '6'
    } else if d == 7 {
        '7'
    } else if d == 8 {
        '8'
    } else {
        '9'
    }
}

/// Appends the decimal text of `n` to `out`.
pub fn push_decimal(out: &mut String, n: u64)
    ensures
        final(out)@ == old(out)@ + decimal_of(n as nat),
    decreases n,
{
    if n >= 10 {
        push_decimal(out, n / 10);
    }
    push_char(out, digit_char_of(n % 10));
    assert(final(out)@ =~= old(out)@ + decimal_of(n as nat));
}

/// Decimal text reads back as the number it was written from.
pub proof fn lemma_decimal_round_trip(n: u64)
    ensures
        parse_count(decimal_of(n as nat)) == Some(n),
{
    lemma_decimal_digits(n as nat);
    let s = decimal_of(n as nat);
    if s.len() >= 2 {
        lemma_decimal_lead(n as nat);
    }
}

proof fn lemma_digit_char(d: nat)
    requires
        d < 10,
    ensures
        digit_in(digit_char(d), 10) == Some(d),
        digit_char(d) != '+',
{
}

proof fn lemma_decimal_lead(n: nat)
    requires
        n >= 10,
    ensures
        decimal_of(n)[0] != '0',
    decreases n,
{
    if n / 10 >= 10 {
        lemma_decimal_lead(n / 10);
        assert(decimal_of(n)[0] == decimal_of(n / 10)[0]);
    } else {
        assert(decimal_of(n / 10) == seq![digit_char(n / 10)]);
        assert(decimal_of(n)[0] == digit_char(n / 10));
    }
}

proof fn lemma_decimal_digits(n: nat)
    ensures
        decimal_of(n).len() > 0,
        decimal_of(n).len() >= 2 ==> n >= 10,
        all_digits_in(decimal_of(n), 10),
        value_in(decimal_of(n), 10) == n,
        decimal_of(n)[0] != '+',
    decreases n,
{
    let s = decimal_of(n);
    if n < 10 {
        lemma_digit_char(n);
        assert(s.drop_last() =~= Seq::<char>::empty());
        assert(value_in(s.drop_last(), 10) == 0);
        assert(value_in(s, 10) == value_in(s.drop_last(), 10) * 10 + digit_in(s.last(), 10)->0);
    } else {
        lemma_digit_char(n % 10);
        lemma_decimal_digits(n / 10);
        assert(n == (n / 10) * 10 + n % 10);
        assert(s.drop_last() =~= decimal_of(n / 10));
        assert(s.last() == digit_char(n % 10));
        assert(value_in(s, 10) == value_in(s.drop_last(), 10) * 10 + digit_in(s.last(), 10)->0);
        assert(s[0] == decimal_of(n / 10)[0]);
        assert forall|i: int| 0 <= i < s.len() implies (#[trigger] digit_in(s[i], 10)) is Some by {
            if i < s.len() - 1 {
                assert(s[i] == decimal_of(n / 10)[i]);
            }
        }
    }
}

} // verus!
