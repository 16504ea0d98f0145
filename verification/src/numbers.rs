//! Decimal rendering and parsing of integers, as the remote service
//! exchanges every cell value as text.

use vstd::prelude::*;
use crate::text::push_char;

verus! {

/// The character for the decimal digit `d`.
pub open spec fn digit_char(d: int) -> char {
    if d == 0 {
        '0'
    } else if d == 1 {
        '1'
    } else if d == 2 {
        '2'
    } else if d == 3 {
        '3'
    } else if d == 4 {
        '4'
    } else if d == 5 {
        '5'
    } else if d == 6 {
        '6'
    } else if d == 7 {
        '7'
    } else if d == 8 {
        '8'
    } else {
        '9'
    }
}

pub open spec fn is_digit(c: char) -> bool {
    48 <= c as u32 <= 57
}

/// The value of a decimal digit character.
pub open spec fn digit_val(c: char) -> int {
    c as u32 - 48
}

/// The decimal rendering of a natural number, most significant digit first,
/// without leading zeros.
pub open spec fn dec_str(n: nat) -> Seq<char>
    decreases n,
{
    if n < 10 {
        seq![digit_char(n as int)]
    } else {
        dec_str(n / 10) + seq![digit_char((n % 10) as int)]
    }
}

/// The decimal rendering of an integer: a minus sign before the magnitude
/// for negative values.
pub open spec fn int_dec_str(n: int) -> Seq<char> {
    if n >= 0 {
        dec_str(n as nat)
    } else {
        seq!['-'] + dec_str((-n) as nat)
    }
}

pub open spec fn all_digits(s: Seq<char>) -> bool {
    forall|i: int| 0 <= i < s.len() ==> is_digit(#[trigger] s[i])
}

/// The value of a sequence of decimal digit characters.
pub open spec fn digits_val(s: Seq<char>) -> int
    decreases s.len(),
{
    if s.len() == 0 {
        0
    } else {
        digits_val(s.drop_last()) * 10 + digit_val(s.last())
    }
}

/// The integer denoted by `s` under the standard library's parsing rules for
/// signed integers: an optional `+` or `-` sign followed by one or more
/// decimal digits, and nothing else.
pub open spec fn parse_int_str(s: Seq<char>) -> Option<int> {
    if s.len() == 0 {
        None
    } else {
        let neg = s[0] == '-';
        let ds = if s[0] == '-' || s[0] == '+' {
            s.drop_first()
        } else {
            s
        };
        if ds.len() == 0 || !all_digits(ds) {
            None
        } else if neg {
            Some(-digits_val(ds))
        } else {
            Some(digits_val(ds))
        }
    }
}

/// `parse_int_str` restricted to values representable as `i64`.
pub open spec fn parse_i64_str(s: Seq<char>) -> Option<i64> {
    match parse_int_str(s) {
        Some(v) => if i64::MIN <= v <= i64::MAX {
            Some(v as i64)
        } else {
            None
        },
        None => None,
    }
}

pub proof fn lemma_dec_str_digits(n: nat)
    ensures
        dec_str(n).len() >= 1,
        all_digits(dec_str(n)),
        digits_val(dec_str(n)) == n,
    decreases n,
{
    if n < 10 {
        let s = dec_str(n);
        assert(s =~= Seq::empty().push(digit_char(n as int)));
        assert(s.drop_last() =~= Seq::<char>::empty());
        assert(digits_val(Seq::<char>::empty()) == 0);
        assert(s.last() == digit_char(n as int));
        assert(digit_val(digit_char(n as int)) == n);
        assert(digits_val(s) == digits_val(s.drop_last()) * 10 + digit_val(s.last()));
    } else {
        lemma_dec_str_digits(n / 10);
        let a = dec_str(n / 10);
        let c = digit_char((n % 10) as int);
        assert((a + seq![c]).drop_last() =~= a);
        assert((a + seq![c]).last() == c);
        assert(digits_val(a + seq![c]) == n / 10 * 10 + n % 10);
    }
}

/// A digit sequence has a value no smaller than any of its prefixes.
proof fn lemma_digits_val_prefix(s: Seq<char>, k: int)
    requires
        all_digits(s),
        0 <= k <= s.len(),
    ensures
        digits_val(s) >= digits_val(s.take(k)) >= 0,
    decreases s.len() - k,
{
    if k == s.len() {
        assert(s.take(k) =~= s);
        lemma_digits_val_nonneg(s);
    } else {
        lemma_digits_val_prefix(s, k + 1);
        let t = s.take(k + 1);
        assert(t.drop_last() =~= s.take(k));
        lemma_digits_val_nonneg(s.take(k));
        assert(digits_val(t) == digits_val(s.take(k)) * 10 + digit_val(t.last()));
    }
}

proof fn lemma_digits_val_nonneg(s: Seq<char>)
    requires
        all_digits(s),
    ensures
        digits_val(s) >= 0,
    decreases s.len(),
{
    if s.len() > 0 {
        lemma_digits_val_nonneg(s.drop_last());
    }
}

/// Picks the character for one decimal digit.
fn digit_to_char(d: u64) -> (c: char)
    requires
        d < 10,
    ensures
        c == digit_char(d as int),
{
    match d {
        0 => '0',
        1 => '1',
        2 => '2',
        3 => '3',
        4 => '4',
        5 => '5',
        6 => '6',
        7 => '7',
        8 => '8',
        _ => '9',
    }
}

/// Renders an unsigned value in decimal.
pub fn u64_to_dec(n: u64) -> (r: String)
    ensures
        r@ == dec_str(n as nat),
    decreases n,
{
    if n < 10 {
        let mut s = String::new();
        push_char(&mut s, digit_to_char(n));
        proof {
            assert(s@ =~= seq![digit_char(n as int)]);
        }
        s
    } else {
        let mut s = u64_to_dec(n / 10);
        push_char(&mut s, digit_to_char(n % 10));
        proof {
            assert(s@ =~= dec_str((n / 10) as nat) + seq![digit_char((n % 10) as int)]);
        }
        s
    }
}

/// Renders a signed value in decimal.
pub fn i64_to_dec(n: i64) -> (r: String)
    ensures
        r@ == int_dec_str(n as int),
{
    if n >= 0 {
        u64_to_dec(n as u64)
    } else {
        let mag: u64 = ((-(n + 1)) as u64) + 1;
        let mut s = String::new();
        push_char(&mut s, '-');
        let d = u64_to_dec(mag);
        s.append(d.as_str());
        proof {
            assert(mag == -(n as int));
            assert(s@ =~= seq!['-'] + dec_str((-(n as int)) as nat));
        }
        s
    }
}

/// Parses a signed decimal integer exactly as the standard library does for
/// `i64`: `None` where the text is empty, malformed or out of range.
pub fn parse_i64(s: &str) -> (r: Option<i64>)
    ensures
        r == parse_i64_str(s@),
{
    let n = s.unicode_len();
    if n == 0 {
        return None;
    }
    let first = s.get_char(0);
    let neg = first == '-';
    let start: usize = if first == '-' || first == '+' {
        1
    } else {
        0
    };
    if start == n {
        return None;
    }
    let ghost ds = if start == 1 {
        s@.drop_first()
    } else {
        s@
    };
    proof {
        assert(ds =~= s@.skip(start as int));
    }
    let mut acc: u64 = 0;
    let mut i: usize = start;
    while i < n
        invariant
            n == s@.len(),
            start <= i <= n,
            start < n,
            start == if s@[0] == '-' || s@[0] == '+' {
                1int
            } else {
                0int
            },
            ds == s@.skip(start as int),
            all_digits(ds.take(i - start)),
            acc == digits_val(ds.take(i - start)),
        decreases n - i,
    {
        let c = s.get_char(i);
        let cp = c as u32;
        if cp < 48 || cp > 57 {
            proof {
                assert(ds[i - start] == c);
                assert(0 <= i - start < ds.len());
                assert(!is_digit(c));
                assert(!all_digits(ds));
                assert(parse_int_str(s@) is None);
            }
            return None;
        }
        let d = (cp - 48) as u64;
        let ghost prefix = ds.take(i - start);
        proof {
            assert(ds.take(i + 1 - start).drop_last() =~= prefix);
            assert(ds.take(i + 1 - start).last() == c);
        }
        let step = match acc.checked_mul(10) {
            Some(m) => m.checked_add(d),
            None => None,
        };
        match step {
            Some(v) => {
                acc = v;
            },
            None => {
                proof {
                    lemma_digits_val_nonneg(prefix);
                    assert(digits_val(ds.take(i + 1 - start)) > u64::MAX) by {
                        assert(acc * 10 + d > u64::MAX);
                    }
                    if all_digits(ds) {
                        lemma_digits_val_prefix(ds, i + 1 - start);
                        assert(digits_val(ds) >= digits_val(ds.take(i + 1 - start)));
                        assert(digits_val(ds) > i64::MAX);
                        assert(-digits_val(ds) < i64::MIN);
                        assert(ds.len() > 0);
                        assert(s@.skip(0) =~= s@);
                        assert(s@.skip(1) =~= s@.drop_first());
                        if s@[0] == '-' {
                            assert(parse_int_str(s@) == Some(-digits_val(ds)));
                        } else {
                            assert(parse_int_str(s@) == Some(digits_val(ds)));
                        }
                        assert(parse_i64_str(s@) is None);
                    } else {
                        assert(parse_i64_str(s@) is None);
                    }
                }
                return None;
            },
        }
        i = i + 1;
    }
    proof {
        assert(ds.take(n - start) =~= ds);
    }
    if neg {
        if acc > 9223372036854775808u64 {
            proof {
                assert(-digits_val(ds) < i64::MIN);
            }
            None
        } else if acc == 9223372036854775808u64 {
            Some(i64::MIN)
        } else {
            Some(-(acc as i64))
        }
    } else {
        if acc > i64::MAX as u64 {
            None
        } else {
            Some(acc as i64)
        }
    }
}

/// Round trip: rendering a signed value in decimal and parsing it back
/// returns the value itself.
pub proof fn lemma_i64_dec_round_trip(v: i64)
    ensures
        parse_i64_str(int_dec_str(v as int)) == Some(v),
{
    if v >= 0 {
        let s = int_dec_str(v as int);
        lemma_dec_str_digits(v as nat);
        assert(is_digit(s[0]));
        assert(s[0] != '-' && s[0] != '+') by {
            assert(s[0] as u32 >= 48);
            assert('-' as u32 == 45 && '+' as u32 == 43);
        }
    } else {
        let m = (-(v as int)) as nat;
        lemma_dec_str_digits(m);
        let s = int_dec_str(v as int);
        assert(s[0] == '-');
        assert(s.drop_first() =~= dec_str(m));
    }
}

} // verus!
