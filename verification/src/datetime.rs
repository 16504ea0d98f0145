//! Calendar timestamps with second precision, the form in which the remote
//! service exchanges datetime cells (`YYYY-MM-DD HH:MM:SS`).

use vstd::prelude::*;
use crate::numbers::{dec_str, digit_val, is_digit, lemma_dec_str_digits, u64_to_dec};
use crate::text::push_char;

verus! {

/// A wall-clock timestamp, held as plain calendar fields. The remote wire
/// format carries no zone and no sub-second part, so neither is modelled.
#[derive(Clone, Copy, PartialEq, Eq, Structural, Debug)]
pub struct Datetime {
    pub year: u16,
    pub month: u8,
    pub day: u8,
    pub hour: u8,
    pub minute: u8,
    pub second: u8,
}

pub open spec fn is_leap_year(y: int) -> bool {
    (y % 4 == 0 && y % 100 != 0) || y % 400 == 0
}

pub open spec fn days_in_month(y: int, m: int) -> int {
    if m == 2 {
        if is_leap_year(y) {
            29
        } else {
            28
        }
    } else if m == 4 || m == 6 || m == 9 || m == 11 {
        30
    } else {
        31
    }
}

impl Datetime {
    /// A valid calendar date with in-range time-of-day fields; the year is
    /// bounded so that it prints as four digits.
    pub open spec fn well_formed(self) -> bool {
        &&& self.year <= 9999
        &&& 1 <= self.month <= 12
        &&& 1 <= self.day <= days_in_month(self.year as int, self.month as int)
        &&& self.hour <= 23
        &&& self.minute <= 59
        &&& self.second <= 59
    }
}

/// Checks every field of a prospective timestamp and builds it only when the
/// result would be well formed.
pub fn datetime_new(year: u16, month: u8, day: u8, hour: u8, minute: u8, second: u8) -> (r: Option<
    Datetime,
>)
    ensures
        match r {
            Some(dt) => dt == (Datetime { year, month, day, hour, minute, second })
                && dt.well_formed(),
            None => !(Datetime { year, month, day, hour, minute, second }).well_formed(),
        },
{
    if year <= 9999 && 1 <= month && month <= 12 && 1 <= day && hour <= 23 && minute <= 59
        && second <= 59 {
        let dim: u8 = if month == 2 {
            if (year % 4 == 0 && year % 100 != 0) || year % 400 == 0 {
                29
            } else {
                28
            }
        } else if month == 4 || month == 6 || month == 9 || month == 11 {
            30
        } else {
            31
        };
        if day <= dim {
            return Some(Datetime { year, month, day, hour, minute, second });
        }
    }
    None
}

/// Decides well-formedness of a timestamp at run time.
pub fn datetime_is_well_formed(dt: &Datetime) -> (r: bool)
    ensures
        r == dt.well_formed(),
{
    if dt.year <= 9999 && 1 <= dt.month && dt.month <= 12 && 1 <= dt.day && dt.hour <= 23
        && dt.minute <= 59 && dt.second <= 59 {
        let dim: u8 = if dt.month == 2 {
            if (dt.year % 4 == 0 && dt.year % 100 != 0) || dt.year % 400 == 0 {
                29
            } else {
                28
            }
        } else if dt.month == 4 || dt.month == 6 || dt.month == 9 || dt.month == 11 {
            30
        } else {
            31
        };
        dt.day <= dim
    } else {
        false
    }
}

/// The default timestamp used where a field is left at its type default.
pub fn datetime_default() -> (r: Datetime)
    ensures
        r == (Datetime { year: 1970u16, month: 1u8, day: 1u8, hour: 0u8, minute: 0u8, second: 0u8 }),
        r.well_formed(),
{
    Datetime { year: 1970, month: 1, day: 1, hour: 0, minute: 0, second: 0 }
}

/// `n` in decimal, padded with zeros on the left to two digits.
pub open spec fn pad2(n: nat) -> Seq<char> {
    if n < 10 {
        seq!['0'] + dec_str(n)
    } else {
        dec_str(n)
    }
}

/// `n` in decimal, padded with zeros on the left to four digits.
pub open spec fn pad4(n: nat) -> Seq<char> {
    if n < 10 {
        seq!['0', '0', '0'] + dec_str(n)
    } else if n < 100 {
        seq!['0', '0'] + dec_str(n)
    } else if n < 1000 {
        seq!['0'] + dec_str(n)
    } else {
        dec_str(n)
    }
}

pub proof fn lemma_pad2(n: nat)
    requires
        n < 100,
    ensures
        pad2(n).len() == 2,
        is_digit(pad2(n)[0]) && is_digit(pad2(n)[1]),
        digit_val(pad2(n)[0]) * 10 + digit_val(pad2(n)[1]) == n,
{
    lemma_dec_str_digits(n);
    if n < 10 {
        assert(digit_val('0') == 0);
        assert(is_digit('0'));
        assert(pad2(n)[1] == dec_str(n)[0]);
        assert(crate::numbers::digits_val(dec_str(n)) == n) by {
            assert(dec_str(n).drop_last() =~= Seq::<char>::empty());
        }
    } else {
        lemma_dec_str_digits(n / 10);
        let s = dec_str(n);
        assert(s =~= dec_str(n / 10) + seq![crate::numbers::digit_char((n % 10) as int)]);
        assert(dec_str(n / 10).len() == 1);
        assert(s[0] == dec_str(n / 10)[0]);
        assert(digit_val(s[0]) == n / 10) by {
            assert(dec_str(n / 10).drop_last() =~= Seq::<char>::empty());
        }
        assert(digit_val(s[1]) == n % 10);
    }
}

pub proof fn lemma_pad4(n: nat)
    requires
        n < 10000,
    ensures
        pad4(n).len() == 4,
        is_digit(pad4(n)[0]) && is_digit(pad4(n)[1]) && is_digit(pad4(n)[2]) && is_digit(
            pad4(n)[3],
        ),
        digit_val(pad4(n)[0]) * 1000 + digit_val(pad4(n)[1]) * 100 + digit_val(pad4(n)[2]) * 10
            + digit_val(pad4(n)[3]) == n,
{
    lemma_dec_str_digits(n);
    assert(digit_val('0') == 0);
    assert(is_digit('0'));
    if n < 10 {
        assert(digit_val(pad4(n)[3]) == n) by {
            assert(pad4(n)[3] == dec_str(n)[0]);
            assert(dec_str(n).drop_last() =~= Seq::<char>::empty());
        }
    } else if n < 100 {
        lemma_pad2(n);
        assert(pad2(n) =~= dec_str(n));
        assert(pad4(n)[2] == dec_str(n)[0] && pad4(n)[3] == dec_str(n)[1]);
    } else if n < 1000 {
        let s = dec_str(n);
        lemma_dec_str_digits(n / 10);
        lemma_pad2(n / 10);
        assert(pad2(n / 10) =~= dec_str(n / 10));
        assert(s =~= dec_str(n / 10) + seq![crate::numbers::digit_char((n % 10) as int)]);
        assert(dec_str(n / 10).len() == 2);
        assert(s.len() == 3);
        assert(digit_val(s[0]) * 10 + digit_val(s[1]) == n / 10);
        assert(digit_val(s[2]) == n % 10);
        assert(digit_val(s[0]) * 100 + digit_val(s[1]) * 10 + digit_val(s[2]) == n);
    } else {
        let s = dec_str(n);
        lemma_dec_str_digits(n / 10);
        assert(s =~= dec_str(n / 10) + seq![crate::numbers::digit_char((n % 10) as int)]);
        // n / 10 is in [100, 1000): reuse the three-digit reasoning
        let t = dec_str(n / 10);
        lemma_dec_str_digits(n / 10 / 10);
        lemma_pad2(n / 10 / 10);
        assert(pad2(n / 10 / 10) =~= dec_str(n / 10 / 10));
        assert(t =~= dec_str(n / 10 / 10) + seq![
            crate::numbers::digit_char((n / 10 % 10) as int),
        ]);
        assert(t.len() == 3);
        assert(digit_val(t[0]) * 10 + digit_val(t[1]) == n / 10 / 10);
        assert(digit_val(t[2]) == n / 10 % 10);
        assert(s.len() == 4);
        assert(digit_val(s[0]) * 100 + digit_val(s[1]) * 10 + digit_val(s[2]) == n / 10);
        assert(digit_val(s[3]) == n % 10);
        assert(pad4(n) =~= s);
    }
}

/// The wire rendering of a timestamp: `YYYY-MM-DD HH:MM:SS`.
pub open spec fn datetime_str(dt: Datetime) -> Seq<char> {
    pad4(dt.year as nat) + seq!['-'] + pad2(dt.month as nat) + seq!['-'] + pad2(dt.day as nat)
        + seq![' '] + pad2(dt.hour as nat) + seq![':'] + pad2(dt.minute as nat) + seq![':'] + pad2(
        dt.second as nat,
    )
}

/// Appends `n` zero-padded to two digits.
fn pad2_push(out: &mut String, n: u8)
    requires
        n < 100,
    ensures
        final(out)@ == old(out)@ + pad2(n as nat),
{
    if n < 10 {
        push_char(out, '0');
    }
    let d = u64_to_dec(n as u64);
    out.append(d.as_str());
    proof {
        if n < 10 {
            assert(old(out)@.push('0') + dec_str(n as nat) =~= old(out)@ + (seq!['0'] + dec_str(
                n as nat,
            )));
        }
    }
}

/// Appends `n` zero-padded to four digits.
fn pad4_push(out: &mut String, n: u16)
    requires
        n < 10000,
    ensures
        final(out)@ == old(out)@ + pad4(n as nat),
{
    if n < 10 {
        push_char(out, '0');
        push_char(out, '0');
        push_char(out, '0');
    } else if n < 100 {
        push_char(out, '0');
        push_char(out, '0');
    } else if n < 1000 {
        push_char(out, '0');
    }
    let d = u64_to_dec(n as u64);
    out.append(d.as_str());
    proof {
        if n < 10 {
            assert(old(out)@.push('0').push('0').push('0') + dec_str(n as nat) =~= old(out)@ + (
            seq!['0', '0', '0'] + dec_str(n as nat)));
        } else if n < 100 {
            assert(old(out)@.push('0').push('0') + dec_str(n as nat) =~= old(out)@ + (seq![
                '0',
                '0',
            ] + dec_str(n as nat)));
        } else if n < 1000 {
            assert(old(out)@.push('0') + dec_str(n as nat) =~= old(out)@ + (seq!['0'] + dec_str(
                n as nat,
            )));
        }
    }
}

/// Renders a timestamp in the remote wire form, `YYYY-MM-DD HH:MM:SS`.
pub fn format_datetime(dt: &Datetime) -> (r: String)
    requires
        dt.well_formed(),
    ensures
        r@ == datetime_str(*dt),
{
    let mut out = String::new();
    pad4_push(&mut out, dt.year);
    push_char(&mut out, '-');
    pad2_push(&mut out, dt.month);
    push_char(&mut out, '-');
    pad2_push(&mut out, dt.day);
    push_char(&mut out, ' ');
    pad2_push(&mut out, dt.hour);
    push_char(&mut out, ':');
    pad2_push(&mut out, dt.minute);
    push_char(&mut out, ':');
    pad2_push(&mut out, dt.second);
    proof {
        assert(out@ =~= datetime_str(*dt));
    }
    out
}

/// The timestamp denoted by a string in the exact form
/// `YYYY-MM-DD HH:MM:SS`, provided every field is in range and the date
/// exists in the calendar.
pub open spec fn parse_datetime_str(s: Seq<char>) -> Option<Datetime> {
    if s.len() != 19 {
        None
    } else if !(is_digit(s[0]) && is_digit(s[1]) && is_digit(s[2]) && is_digit(s[3]) && s[4] == '-'
        && is_digit(s[5]) && is_digit(s[6]) && s[7] == '-' && is_digit(s[8]) && is_digit(s[9])
        && s[10] == ' ' && is_digit(s[11]) && is_digit(s[12]) && s[13] == ':' && is_digit(s[14])
        && is_digit(s[15]) && s[16] == ':' && is_digit(s[17]) && is_digit(s[18])) {
        None
    } else {
        let y = digit_val(s[0]) * 1000 + digit_val(s[1]) * 100 + digit_val(s[2]) * 10 + digit_val(
            s[3],
        );
        let mo = digit_val(s[5]) * 10 + digit_val(s[6]);
        let d = digit_val(s[8]) * 10 + digit_val(s[9]);
        let h = digit_val(s[11]) * 10 + digit_val(s[12]);
        let mi = digit_val(s[14]) * 10 + digit_val(s[15]);
        let sec = digit_val(s[17]) * 10 + digit_val(s[18]);
        if 1 <= mo <= 12 && 1 <= d <= days_in_month(y, mo) && h <= 23 && mi <= 59 && sec <= 59 {
            Some(
                Datetime {
                    year: y as u16,
                    month: mo as u8,
                    day: d as u8,
                    hour: h as u8,
                    minute: mi as u8,
                    second: sec as u8,
                },
            )
        } else {
            None
        }
    }
}

/// Reads one digit character of `s` at position `i` as its value.
fn read_digit(s: &str, i: usize) -> (r: Option<u16>)
    requires
        i < s@.len(),
    ensures
        match r {
            Some(v) => is_digit(s@[i as int]) && v == digit_val(s@[i as int]) && v <= 9,
            None => !is_digit(s@[i as int]),
        },
{
    let c = s.get_char(i);
    let cp = c as u32;
    if 48 <= cp && cp <= 57 {
        Some((cp - 48) as u16)
    } else {
        None
    }
}

/// Checks that `s` holds the given punctuation character at position `i`.
fn expect_char(s: &str, i: usize, c: char) -> (r: bool)
    requires
        i < s@.len(),
    ensures
        r == (s@[i as int] == c),
{
    s.get_char(i) == c
}

/// Parses the exact form `YYYY-MM-DD HH:MM:SS`, rejecting out-of-range
/// fields and dates that do not exist in the calendar.
pub fn parse_datetime(s: &str) -> (r: Option<Datetime>)
    ensures
        r == parse_datetime_str(s@),
        r is Some ==> r.unwrap().well_formed(),
{
    let n = s.unicode_len();
    if n != 19 {
        return None;
    }
    let d0 = read_digit(s, 0);
    let d1 = read_digit(s, 1);
    let d2 = read_digit(s, 2);
    let d3 = read_digit(s, 3);
    let d5 = read_digit(s, 5);
    let d6 = read_digit(s, 6);
    let d8 = read_digit(s, 8);
    let d9 = read_digit(s, 9);
    let d11 = read_digit(s, 11);
    let d12 = read_digit(s, 12);
    let d14 = read_digit(s, 14);
    let d15 = read_digit(s, 15);
    let d17 = read_digit(s, 17);
    let d18 = read_digit(s, 18);
    if !(expect_char(s, 4, '-') && expect_char(s, 7, '-') && expect_char(s, 10, ' ')
        && expect_char(s, 13, ':') && expect_char(s, 16, ':')) {
        return None;
    }
    match (d0, d1, d2, d3, d5, d6, d8, d9, d11, d12, d14, d15, d17, d18) {
        (
            Some(y0),
            Some(y1),
            Some(y2),
            Some(y3),
            Some(mo0),
            Some(mo1),
            Some(da0),
            Some(da1),
            Some(h0),
            Some(h1),
            Some(mi0),
            Some(mi1),
            Some(se0),
            Some(se1),
        ) => {
            let y: u16 = y0 * 1000 + y1 * 100 + y2 * 10 + y3;
            let mo: u8 = (mo0 * 10 + mo1) as u8;
            let da: u8 = (da0 * 10 + da1) as u8;
            let h: u8 = (h0 * 10 + h1) as u8;
            let mi: u8 = (mi0 * 10 + mi1) as u8;
            let se: u8 = (se0 * 10 + se1) as u8;
            datetime_new(y, mo, da, h, mi, se)
        },
        _ => None,
    }
}

/// Replaces every `T` with a space and removes every `Z`: the punctuation
/// normalization applied to incoming datetime text before parsing.
pub open spec fn strip_tz(s: Seq<char>) -> Seq<char>
    decreases s.len(),
{
    if s.len() == 0 {
        s
    } else if s[0] == 'Z' {
        strip_tz(s.drop_first())
    } else if s[0] == 'T' {
        seq![' '] + strip_tz(s.drop_first())
    } else {
        seq![s[0]] + strip_tz(s.drop_first())
    }
}

proof fn lemma_strip_tz_single(c: char)
    ensures
        strip_tz(seq![c]) == if c == 'Z' {
            Seq::<char>::empty()
        } else if c == 'T' {
            seq![' ']
        } else {
            seq![c]
        },
{
    assert(seq![c].drop_first() =~= Seq::<char>::empty());
    assert(strip_tz(Seq::<char>::empty()) == Seq::<char>::empty());
    if c == 'Z' {
    } else if c == 'T' {
        assert(seq![' '] + Seq::<char>::empty() =~= seq![' ']);
    } else {
        assert(seq![c] + Seq::<char>::empty() =~= seq![c]);
    }
}

proof fn lemma_strip_tz_push(s: Seq<char>, c: char)
    ensures
        strip_tz(s.push(c)) == strip_tz(s) + strip_tz(seq![c]),
    decreases s.len(),
{
    if s.len() == 0 {
        assert(s.push(c) =~= seq![c]);
        assert(strip_tz(s) + strip_tz(seq![c]) =~= strip_tz(seq![c]));
    } else {
        lemma_strip_tz_push(s.drop_first(), c);
        assert(s.push(c).drop_first() =~= s.drop_first().push(c));
        assert(s.push(c)[0] == s[0]);
        if s[0] == 'Z' {
        } else if s[0] == 'T' {
            assert(seq![' '] + (strip_tz(s.drop_first()) + strip_tz(seq![c])) =~= (seq![' ']
                + strip_tz(s.drop_first())) + strip_tz(seq![c]));
        } else {
            assert(seq![s[0]] + (strip_tz(s.drop_first()) + strip_tz(seq![c])) =~= (seq![s[0]]
                + strip_tz(s.drop_first())) + strip_tz(seq![c]));
        }
    }
}

/// Applies the `T`/`Z` normalization to a string.
pub fn strip_tz_exec(s: &str) -> (r: String)
    ensures
        r@ == strip_tz(s@),
{
    let n = s.unicode_len();
    let mut out = String::new();
    let mut i: usize = 0;
    while i < n
        invariant
            n == s@.len(),
            i <= n,
            out@ == strip_tz(s@.take(i as int)),
        decreases n - i,
    {
        let c = s.get_char(i);
        proof {
            lemma_strip_tz_push(s@.take(i as int), c);
            assert(s@.take(i + 1int) =~= s@.take(i as int).push(c));
        }
        proof {
            lemma_strip_tz_single(c);
        }
        if c == 'T' {
            push_char(&mut out, ' ');
            proof {
                assert(out@ =~= strip_tz(s@.take(i + 1int)));
            }
        } else if c == 'Z' {
            proof {
                assert(out@ =~= strip_tz(s@.take(i + 1int)));
            }
        } else {
            push_char(&mut out, c);
            proof {
                assert(out@ =~= strip_tz(s@.take(i + 1int)));
            }
        }
        i = i + 1;
    }
    proof {
        assert(s@.take(n as int) =~= s@);
    }
    out
}

/// A string without `T` or `Z` passes through the normalization unchanged.
proof fn lemma_strip_tz_identity(s: Seq<char>)
    requires
        forall|i: int| 0 <= i < s.len() ==> s[i] != 'T' && s[i] != 'Z',
    ensures
        strip_tz(s) == s,
    decreases s.len(),
{
    if s.len() > 0 {
        lemma_strip_tz_identity(s.drop_first());
        assert(seq![s[0]] + s.drop_first() =~= s);
    }
}

/// Round trip at second granularity: rendering a well-formed timestamp and
/// parsing the rendering back (normalization included) returns the same
/// timestamp.
pub proof fn lemma_datetime_round_trip(dt: Datetime)
    requires
        dt.well_formed(),
    ensures
        parse_datetime_str(strip_tz(datetime_str(dt))) == Some(dt),
{
    let s = datetime_str(dt);
    lemma_pad4(dt.year as nat);
    lemma_pad2(dt.month as nat);
    lemma_pad2(dt.day as nat);
    lemma_pad2(dt.hour as nat);
    lemma_pad2(dt.minute as nat);
    lemma_pad2(dt.second as nat);
    assert(s.len() == 19);
    assert(s[0] == pad4(dt.year as nat)[0]);
    assert(s[1] == pad4(dt.year as nat)[1]);
    assert(s[2] == pad4(dt.year as nat)[2]);
    assert(s[3] == pad4(dt.year as nat)[3]);
    assert(s[4] == '-');
    assert(s[5] == pad2(dt.month as nat)[0]);
    assert(s[6] == pad2(dt.month as nat)[1]);
    assert(s[7] == '-');
    assert(s[8] == pad2(dt.day as nat)[0]);
    assert(s[9] == pad2(dt.day as nat)[1]);
    assert(s[10] == ' ');
    assert(s[11] == pad2(dt.hour as nat)[0]);
    assert(s[12] == pad2(dt.hour as nat)[1]);
    assert(s[13] == ':');
    assert(s[14] == pad2(dt.minute as nat)[0]);
    assert(s[15] == pad2(dt.minute as nat)[1]);
    assert(s[16] == ':');
    assert(s[17] == pad2(dt.second as nat)[0]);
    assert(s[18] == pad2(dt.second as nat)[1]);
    assert(forall|i: int| 0 <= i < s.len() ==> s[i] != 'T' && s[i] != 'Z') by {
        assert(forall|c: char| is_digit(c) ==> c != 'T' && c != 'Z') by {
            assert('T' as u32 == 84 && 'Z' as u32 == 90);
        }
    }
    lemma_strip_tz_identity(s);
    assert(parse_datetime_str(s) == Some(dt));
}

} // verus!
