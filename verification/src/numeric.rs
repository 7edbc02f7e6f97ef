//! Decimal integers in text: the reading that `str::parse` performs for the
//! integer types, and the writing that `format!("{}", n)` performs.
use vstd::prelude::*;

verus! {

/// `c` is one of the ASCII digits `0`..`9`.
pub open spec fn is_digit(c: char) -> bool {
    48 <= (c as u32) <= 57
}

/// The value of the digit `c`.
pub open spec fn digit_value(c: char) -> int {
    (c as u32) - 48
}

/// Every character of `s` is an ASCII digit.
pub open spec fn all_digits(s: Seq<char>) -> bool {
    forall|i: int| 0 <= i < s.len() ==> is_digit(#[trigger] s[i])
}

/// The number that the digits `s` spell in base ten.
pub open spec fn digits_value(s: Seq<char>) -> int
    decreases s.len(),
{
    if s.len() == 0 {
        0
    } else {
        10 * digits_value(s.drop_last()) + digit_value(s.last())
    }
}

/// The integer that `s` spells: an optional sign (`+`, or `-` where
/// `signed`), then one or more ASCII digits and nothing else. This is the
/// grammar that std documents for `from_str` on the integer types.
pub open spec fn spec_parse_integer(s: Seq<char>, signed: bool) -> Option<int> {
    if s.len() == 0 {
        None
    } else if s[0] == '+' || (signed && s[0] == '-') {
        let rest = s.drop_first();
        if rest.len() > 0 && all_digits(rest) {
            Some(if s[0] == '-' { -digits_value(rest) } else { digits_value(rest) })
        } else {
            None
        }
    } else if all_digits(s) {
        Some(digits_value(s))
    } else {
        None
    }
}

/// The integer that `s` spells, where it lies in `lo..=hi`; `None` for text
/// that is no integer and for a value out of range.
pub open spec fn spec_parse_in_range(s: Seq<char>, signed: bool, lo: int, hi: int) -> Option<int> {
    match spec_parse_integer(s, signed) {
        Some(v) => if lo <= v <= hi {
            Some(v)
        } else {
            None
        },
        None => None,
    }
}

proof fn lemma_digits_value_nonneg(s: Seq<char>)
    requires
        all_digits(s),
    ensures
        digits_value(s) >= 0,
    decreases s.len(),
{
    if s.len() > 0 {
        lemma_digits_value_nonneg(s.drop_last());
    }
}

/// Appending digits never makes the value smaller.
proof fn lemma_digits_value_prefix(s: Seq<char>, k: int)
    requires
        all_digits(s),
        0 <= k <= s.len(),
    ensures
        digits_value(s.take(k)) <= digits_value(s),
    decreases s.len() - k,
{
    if k < s.len() {
        lemma_digits_value_prefix(s, k + 1);
        assert(s.take(k + 1).drop_last() =~= s.take(k));
        lemma_digits_value_nonneg(s.take(k));
    } else {
        assert(s.take(k) =~= s);
    }
}

/// Reads the magnitude `s[start..]` as base-ten digits; `None` where a
/// character is no digit or where the value exceeds `u64::MAX`.
fn read_digits(s: &[char], start: usize) -> (r: Option<u64>)
    requires
        start <= s@.len(),
    ensures
        ({
            let rest = s@.skip(start as int);
            match r {
                Some(v) => all_digits(rest) && v == digits_value(rest),
                None => !all_digits(rest) || digits_value(rest) > u64::MAX,
            }
        }),
{
    let ghost rest = s@.skip(start as int);
    let mut acc: u64 = 0;
    let mut i = start;
    while i < s.len()
        invariant
            start <= i <= s@.len(),
            rest == s@.skip(start as int),
            all_digits(rest.take(i - start)),
            acc == digits_value(rest.take(i - start)),
        decreases s@.len() - i,
    {
        let c = s[i];
        let u = c as u32;
        if u < 48 || u > 57 {
            assert(rest[i - start] == c);
            return None;
        }
        let d = (u - 48) as u64;
        assert(rest.take(i - start + 1).drop_last() =~= rest.take(i - start));
        assert(rest.take(i - start + 1).last() == c);
        if acc > (u64::MAX - d) / 10 {
            proof {
                let t = rest.take(i - start + 1);
                assert(all_digits(t)) by {
                    assert forall|m: int| 0 <= m < t.len() implies is_digit(#[trigger] t[m]) by {
                        if m < t.len() - 1 {
                            assert(t[m] == rest.take(i - start)[m]);
                        }
                    }
                }
                if all_digits(rest) {
                    lemma_digits_value_prefix(rest, i - start + 1);
                    assert(rest.take(i - start + 1) =~= t);
                }
            }
            return None;
        }
        acc = acc * 10 + d;
        i = i + 1;
        proof {
            let t = rest.take(i - start);
            assert forall|m: int| 0 <= m < t.len() implies is_digit(#[trigger] t[m]) by {
                if m < t.len() - 1 {
                    assert(t[m] == rest.take(i - start - 1)[m]);
                }
            }
        }
    }
    assert(rest.take(i - start) =~= rest);
    Some(acc)
}

/// Reads `s` as an optionally signed decimal integer. `None` where `s` is
/// no integer, or where its magnitude exceeds `u64::MAX`.
pub fn parse_integer(s: &[char], signed: bool) -> (r: Option<i128>)
    ensures
        match r {
            Some(v) => spec_parse_integer(s@, signed) == Some(v as int),
            None => match spec_parse_integer(s@, signed) {
                Some(v) => v > u64::MAX || v < -u64::MAX,
                None => true,
            },
        },
{
    if s.len() == 0 {
        return None;
    }
    let first = s[0];
    if first == '+' || (signed && first == '-') {
        if s.len() == 1 {
            return None;
        }
        assert(s@.skip(1) =~= s@.drop_first());
        match read_digits(s, 1) {
            Some(m) => {
                if first == '-' {
                    Some(-(m as i128))
                } else {
                    Some(m as i128)
                }
            },
            None => None,
        }
    } else {
        assert(s@.skip(0) =~= s@);
        match read_digits(s, 0) {
            Some(m) => Some(m as i128),
            None => None,
        }
    }
}

/// A type that a header value can be read as, the way `str::parse` reads it.
pub trait FromHeaderValue: Sized {
    /// What reading `s` gives, where it gives anything.
    spec fn spec_from_value(s: Seq<char>) -> Option<Self>;

    /// Reads `s`.
    fn from_value(s: &str) -> (r: Option<Self>)
        ensures
            r == Self::spec_from_value(s@),
    ;
}

impl FromHeaderValue for i64 {
    open spec fn spec_from_value(s: Seq<char>) -> Option<i64> {
        match spec_parse_in_range(s, true, i64::MIN as int, i64::MAX as int) {
            Some(v) => Some(v as i64),
            None => None,
        }
    }

    fn from_value(s: &str) -> (r: Option<i64>) {
        let cs = crate::text::chars_of(s);
        match parse_integer(cs.as_slice(), true) {
            Some(v) => if i64::MIN as i128 <= v && v <= i64::MAX as i128 {
                Some(v as i64)
            } else {
                None
            },
            None => None,
        }
    }
}

impl FromHeaderValue for isize {
    open spec fn spec_from_value(s: Seq<char>) -> Option<isize> {
        match spec_parse_in_range(s, true, isize::MIN as int, isize::MAX as int) {
            Some(v) => Some(v as isize),
            None => None,
        }
    }

    fn from_value(s: &str) -> (r: Option<isize>) {
        let cs = crate::text::chars_of(s);
        match parse_integer(cs.as_slice(), true) {
            Some(v) => if isize::MIN as i128 <= v && v <= isize::MAX as i128 {
                Some(v as isize)
            } else {
                None
            },
            None => None,
        }
    }
}

impl FromHeaderValue for usize {
    open spec fn spec_from_value(s: Seq<char>) -> Option<usize> {
        match spec_parse_in_range(s, false, 0, usize::MAX as int) {
            Some(v) => Some(v as usize),
            None => None,
        }
    }

    fn from_value(s: &str) -> (r: Option<usize>) {
        let cs = crate::text::chars_of(s);
        match parse_integer(cs.as_slice(), false) {
            Some(v) => if 0 <= v && v <= usize::MAX as i128 {
                Some(v as usize)
            } else {
                None
            },
            None => None,
        }
    }
}

impl FromHeaderValue for i8 {
    open spec fn spec_from_value(s: Seq<char>) -> Option<i8> {
        match spec_parse_in_range(s, true, i8::MIN as int, i8::MAX as int) {
            Some(v) => Some(v as i8),
            None => None,
        }
    }

    fn from_value(s: &str) -> (r: Option<i8>) {
        let cs = crate::text::chars_of(s);
        match parse_integer(cs.as_slice(), true) {
            Some(v) => if i8::MIN as i128 <= v && v <= i8::MAX as i128 {
                Some(v as i8)
            } else {
                None
            },
            None => None,
        }
    }
}

impl FromHeaderValue for i16 {
    open spec fn spec_from_value(s: Seq<char>) -> Option<i16> {
        match spec_parse_in_range(s, true, i16::MIN as int, i16::MAX as int) {
            Some(v) => Some(v as i16),
            None => None,
        }
    }

    fn from_value(s: &str) -> (r: Option<i16>) {
        let cs = crate::text::chars_of(s);
        match parse_integer(cs.as_slice(), true) {
            Some(v) => if i16::MIN as i128 <= v && v <= i16::MAX as i128 {
                Some(v as i16)
            } else {
                None
            },
            None => None,
        }
    }
}

impl FromHeaderValue for i32 {
    open spec fn spec_from_value(s: Seq<char>) -> Option<i32> {
        match spec_parse_in_range(s, true, i32::MIN as int, i32::MAX as int) {
            Some(v) => Some(v as i32),
            None => None,
        }
    }

    fn from_value(s: &str) -> (r: Option<i32>) {
        let cs = crate::text::chars_of(s);
        match parse_integer(cs.as_slice(), true) {
            Some(v) => if i32::MIN as i128 <= v && v <= i32::MAX as i128 {
                Some(v as i32)
            } else {
                None
            },
            None => None,
        }
    }
}

impl FromHeaderValue for u8 {
    open spec fn spec_from_value(s: Seq<char>) -> Option<u8> {
        match spec_parse_in_range(s, false, u8::MIN as int, u8::MAX as int) {
            Some(v) => Some(v as u8),
            None => None,
        }
    }

    fn from_value(s: &str) -> (r: Option<u8>) {
        let cs = crate::text::chars_of(s);
        match parse_integer(cs.as_slice(), false) {
            Some(v) => if u8::MIN as i128 <= v && v <= u8::MAX as i128 {
                Some(v as u8)
            } else {
                None
            },
            None => None,
        }
    }
}

impl FromHeaderValue for u16 {
    open spec fn spec_from_value(s: Seq<char>) -> Option<u16> {
        match spec_parse_in_range(s, false, u16::MIN as int, u16::MAX as int) {
            Some(v) => Some(v as u16),
            None => None,
        }
    }

    fn from_value(s: &str) -> (r: Option<u16>) {
        let cs = crate::text::chars_of(s);
        match parse_integer(cs.as_slice(), false) {
            Some(v) => if u16::MIN as i128 <= v && v <= u16::MAX as i128 {
                Some(v as u16)
            } else {
                None
            },
            None => None,
        }
    }
}

impl FromHeaderValue for u32 {
    open spec fn spec_from_value(s: Seq<char>) -> Option<u32> {
        match spec_parse_in_range(s, false, u32::MIN as int, u32::MAX as int) {
            Some(v) => Some(v as u32),
            None => None,
        }
    }

    fn from_value(s: &str) -> (r: Option<u32>) {
        let cs = crate::text::chars_of(s);
        match parse_integer(cs.as_slice(), false) {
            Some(v) => if u32::MIN as i128 <= v && v <= u32::MAX as i128 {
                Some(v as u32)
            } else {
                None
            },
            None => None,
        }
    }
}

impl FromHeaderValue for u64 {
    open spec fn spec_from_value(s: Seq<char>) -> Option<u64> {
        match spec_parse_in_range(s, false, u64::MIN as int, u64::MAX as int) {
            Some(v) => Some(v as u64),
            None => None,
        }
    }

    fn from_value(s: &str) -> (r: Option<u64>) {
        let cs = crate::text::chars_of(s);
        match parse_integer(cs.as_slice(), false) {
            Some(v) => if u64::MIN as i128 <= v && v <= u64::MAX as i128 {
                Some(v as u64)
            } else {
                None
            },
            None => None,
        }
    }
}

impl FromHeaderValue for bool {
    /// `true` and `false` are the only texts that read as a `bool`, as
    /// `str::parse` reads them.
    open spec fn spec_from_value(s: Seq<char>) -> Option<bool> {
        if s == seq!['t', 'r', 'u', 'e'] {
            Some(true)
        } else if s == seq!['f', 'a', 'l', 's', 'e'] {
            Some(false)
        } else {
            None
        }
    }

    fn from_value(s: &str) -> (r: Option<bool>) {
        let cs = crate::text::chars_of(s);
        let t = vec!['t', 'r', 'u', 'e'];
        let f = vec!['f', 'a', 'l', 's', 'e'];
        assert(t@ =~= seq!['t', 'r', 'u', 'e']);
        assert(f@ =~= seq!['f', 'a', 'l', 's', 'e']);
        if crate::text::chars_equal(cs.as_slice(), t.as_slice()) {
            Some(true)
        } else if crate::text::chars_equal(cs.as_slice(), f.as_slice()) {
            Some(false)
        } else {
            None
        }
    }
}

/// The ASCII digit for `d`.
pub open spec fn digit_char(d: int) -> char {
    ((d + 48) as u32) as char
}

/// The base-ten digits of `n`, without leading zeros, as `format!("{}", n)`
/// writes them.
pub open spec fn decimal(n: nat) -> Seq<char>
    decreases n,
{
    if n < 10 {
        seq![digit_char(n as int)]
    } else {
        decimal(n / 10).push(digit_char((n % 10) as int))
    }
}

/// The decimal text of `n`.
pub fn decimal_chars(n: usize) -> (r: Vec<char>)
    ensures
        r@ == decimal(n as nat),
    decreases n,
{
    let d = (n % 10) as u8;
    let c = (48u8 + d) as char;
    if n < 10 {
        let mut r: Vec<char> = Vec::new();
        r.push(c);
        assert(r@ =~= seq![digit_char(n as int)]);
        r
    } else {
        let mut r = decimal_chars(n / 10);
        r.push(c);
        r
    }
}

proof fn lemma_digit_char(d: int)
    requires
        0 <= d < 10,
    ensures
        is_digit(digit_char(d)),
        digit_value(digit_char(d)) == d,
{
    assert(((d + 48) as u32) as char as u32 == (d + 48) as u32);
}

/// Reading back the decimal text of `n` gives `n`.
pub proof fn lemma_decimal_digits(n: nat)
    ensures
        all_digits(decimal(n)),
        digits_value(decimal(n)) == n,
        decimal(n).len() > 0,
        decimal(n)[0] != '+' && decimal(n)[0] != '-',
    decreases n,
{
    lemma_digit_char((n % 10) as int);
    if n >= 10 {
        lemma_decimal_digits(n / 10);
        let p = decimal(n / 10);
        assert(decimal(n).drop_last() =~= p);
        assert(decimal(n).last() == digit_char((n % 10) as int));
        assert(10 * (n / 10) + n % 10 == n) by (nonlinear_arith);
        assert(digits_value(decimal(n)) == 10 * digits_value(p) + digit_value(decimal(n).last()));
        assert forall|i: int| 0 <= i < decimal(n).len() implies is_digit(#[trigger] decimal(n)[i]) by {
            if i < p.len() {
                assert(decimal(n)[i] == p[i]);
            }
        }
    } else {
        assert(decimal(n).drop_last() =~= Seq::<char>::empty());
        assert(n % 10 == n);
        assert(decimal(n).last() == digit_char(n as int));
        assert(digits_value(decimal(n)) == 10 * digits_value(decimal(n).drop_last()) + digit_value(decimal(n).last()));
    }
}

/// Writing a number in decimal and reading it back as an unsigned integer
/// gives the number again.
pub proof fn lemma_decimal_roundtrip(n: usize)
    ensures
        spec_parse_integer(decimal(n as nat), false) == Some(n as int),
        <usize as FromHeaderValue>::spec_from_value(decimal(n as nat)) == Some(n),
{
    lemma_decimal_digits(n as nat);
}

} // verus!
