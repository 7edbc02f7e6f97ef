//! FITS header cards and headers: reading a card from its 80 bytes, looking
//! values up by keyword, and the basic layout of an HDU.
pub mod info;
pub mod parser;
pub mod scan;

use crate::numeric::FromHeaderValue;
use crate::text::{
    all_ascii, ascii_text, chars_equal, chars_of, from_utf8_lossy, lemma_ascii_utf8, lemma_trim_ends, lemma_trim_fixed,
    lemma_trim_idempotent, string_from_chars, subrange_vec, trim, trim_chars, utf8_lossy,
};
use vstd::prelude::*;
use vstd::utf8::{decode_utf8, valid_utf8};

verus! {

/// One header card: its keyword, and the value and comment where present.
#[derive(Debug)]
pub struct Card {
    pub key: String,
    pub value: Option<String>,
    pub comment: Option<String>,
}

/// The text of an optional string.
pub open spec fn opt_text(o: Option<String>) -> Option<Seq<char>> {
    match o {
        Some(s) => Some(s@),
        None => None,
    }
}

impl View for Card {
    /// Keyword, value and comment, as text.
    type V = (Seq<char>, Option<Seq<char>>, Option<Seq<char>>);

    open spec fn view(&self) -> Self::V {
        (self.key@, opt_text(self.value), opt_text(self.comment))
    }
}

/// The position of the first byte `x` in `b`.
pub open spec fn find_byte(b: Seq<u8>, x: u8) -> Option<int>
    decreases b.len(),
{
    if b.len() == 0 {
        None
    } else if b[0] == x {
        Some(0)
    } else {
        match find_byte(b.drop_first(), x) {
            Some(i) => Some(i + 1),
            None => None,
        }
    }
}

/// `Some(s)` unless `s` is empty.
pub open spec fn non_empty(s: Seq<char>) -> Option<Seq<char>> {
    if s.len() == 0 {
        None
    } else {
        Some(s)
    }
}

/// The text of a byte sequence, decoded as `String::from_utf8_lossy` does
/// and trimmed.
pub open spec fn field_text(b: Seq<u8>) -> Seq<char> {
    trim(utf8_lossy(b))
}

/// `s` with every `D` turned into `E`, so that a Fortran exponent reads as a
/// Rust one.
pub open spec fn exponent_d_to_e(s: Seq<char>) -> Seq<char> {
    s.map_values(|c: char| if c == 'D' { 'E' } else { c })
}

/// `s` is a single quote and nothing else.
pub open spec fn is_lone_quote(s: Seq<char>) -> bool {
    s.len() == 1 && s[0] == '\''
}

/// The value that a card holds, given the trimmed text before its comment:
/// a quoted string loses its quotes and the blanks inside them, a `D`
/// exponent becomes `E`, the logicals `T` and `F` become `true` and `false`.
pub open spec fn spec_card_value(v: Seq<char>) -> Option<Seq<char>> {
    if v.len() == 0 {
        None
    } else if v[0] == '\'' && v.last() == '\'' {
        Some(trim(v.subrange(1, v.len() - 1)))
    } else if v.contains('D') {
        Some(exponent_d_to_e(v))
    } else if v == seq!['T'] {
        Some(seq!['t', 'r', 'u', 'e'])
    } else if v == seq!['F'] {
        Some(seq!['f', 'a', 'l', 's', 'e'])
    } else {
        Some(v)
    }
}

/// The bytes of a card after `=`: the value part and, after the first `/`,
/// the comment part.
pub open spec fn value_and_comment(b: Seq<u8>) -> (Seq<u8>, Option<Seq<u8>>) {
    let rest = b.subrange(9, 80);
    match find_byte(rest, 47u8) {
        Some(i) => (rest.take(i), Some(rest.skip(i + 1))),
        None => (rest, None),
    }
}

/// The card that the 80 bytes `b` hold, where `decode` turns bytes into
/// text. Bytes 0..8 are the keyword. Where byte 8 is `=`, the rest is a
/// value, then after the first `/` a comment; otherwise bytes 8..80 are all
/// comment (HISTORY, COMMENT, blank cards).
pub open spec fn spec_card_decoded(b: Seq<u8>, decode: spec_fn(Seq<u8>) -> Seq<char>) -> (
    Seq<char>,
    Option<Seq<char>>,
    Option<Seq<char>>,
) {
    let key = trim(decode(b.subrange(0, 8)));
    if b[8] == 61u8 {
        let (val, comm) = value_and_comment(b);
        let comment = match comm {
            Some(c) => non_empty(trim(decode(c))),
            None => None,
        };
        (key, spec_card_value(trim(decode(val))), comment)
    } else {
        (key, None, non_empty(trim(decode(b.subrange(8, 80)))))
    }
}

/// The card that the 80 bytes `b` hold, each field decoded as
/// `String::from_utf8_lossy` does.
pub open spec fn spec_card(b: Seq<u8>) -> (Seq<char>, Option<Seq<char>>, Option<Seq<char>>) {
    spec_card_decoded(b, |x: Seq<u8>| utf8_lossy(x))
}

/// The card that the 80 ASCII bytes `b` hold: each byte is one character.
pub open spec fn spec_ascii_card(b: Seq<u8>) -> (Seq<char>, Option<Seq<char>>, Option<Seq<char>>) {
    spec_card_decoded(b, |x: Seq<u8>| ascii_text(x))
}

/// The card's value text is a lone `'`, on which the quote stripping of
/// `Card::from_bytes` would slice out of bounds.
pub open spec fn card_has_lone_quote(b: Seq<u8>) -> bool {
    b[8] == 61u8 && is_lone_quote(field_text(value_and_comment(b).0))
}

/// The decoded, trimmed text of some bytes.
fn field_chars(b: &[u8]) -> (v: Vec<char>)
    ensures
        v@ == field_text(b@),
        all_ascii(b@) ==> v@ == trim(ascii_text(b@)),
        valid_utf8(b@) ==> v@ == trim(decode_utf8(b@)),
{
    proof {
        if all_ascii(b@) {
            lemma_ascii_utf8(b@);
        }
    }
    let s = from_utf8_lossy(b);
    let cs = chars_of(s.as_str());
    trim_chars(cs.as_slice())
}

/// The position of the first byte `x` in `b`.
fn position_of(b: &[u8], x: u8) -> (r: Option<usize>)
    ensures
        match r {
            Some(i) => i < b@.len() && find_byte(b@, x) == Some(i as int),
            None => find_byte(b@, x) is None,
        },
{
    let mut i: usize = 0;
    assert(b@.skip(0) =~= b@);
    while i < b.len()
        invariant
            i <= b@.len(),
            find_byte(b@, x) == match find_byte(b@.skip(i as int), x) {
                Some(k) => Some(k + i),
                None => None,
            },
        decreases b@.len() - i,
    {
        assert(b@.skip(i as int).drop_first() =~= b@.skip(i + 1));
        if b[i] == x {
            return Some(i);
        }
        i = i + 1;
    }
    assert(b@.skip(i as int).len() == 0);
    None
}

/// `s` with every `D` turned into `E`.
fn replace_d_with_e(s: &[char]) -> (r: Vec<char>)
    ensures
        r@ == exponent_d_to_e(s@),
{
    let mut r: Vec<char> = Vec::new();
    let mut i: usize = 0;
    while i < s.len()
        invariant
            i <= s@.len(),
            r@ == exponent_d_to_e(s@.take(i as int)),
        decreases s@.len() - i,
    {
        let c = s[i];
        r.push(if c == 'D' { 'E' } else { c });
        i = i + 1;
        assert(r@ =~= exponent_d_to_e(s@.take(i as int)));
    }
    assert(s@.take(i as int) =~= s@);
    r
}

/// Whether `c` occurs in `s`.
fn has_char(s: &[char], c: char) -> (b: bool)
    ensures
        b == s@.contains(c),
{
    let mut i: usize = 0;
    while i < s.len()
        invariant
            i <= s@.len(),
            forall|k: int| 0 <= k < i ==> s@[k] != c,
        decreases s@.len() - i,
    {
        if s[i] == c {
            return true;
        }
        i = i + 1;
    }
    false
}

/// The value held by a card whose trimmed value text is `v`.
fn card_value(v: Vec<char>) -> (r: Option<String>)
    requires
        !is_lone_quote(v@),
    ensures
        opt_text(r) == spec_card_value(v@),
{
    let n = v.len();
    if n == 0 {
        None
    } else if v[0] == '\'' && v[n - 1] == '\'' {
        let inner = subrange_vec(v.as_slice(), 1, n - 1);
        let t = trim_chars(inner.as_slice());
        Some(string_from_chars(t.as_slice()))
    } else if has_char(v.as_slice(), 'D') {
        let e = replace_d_with_e(v.as_slice());
        Some(string_from_chars(e.as_slice()))
    } else if n == 1 && v[0] == 'T' {
        assert(v@ =~= seq!['T']);
        let t = vec!['t', 'r', 'u', 'e'];
        assert(t@ =~= seq!['t', 'r', 'u', 'e']);
        Some(string_from_chars(t.as_slice()))
    } else if n == 1 && v[0] == 'F' {
        assert(v@ =~= seq!['F']);
        let f = vec!['f', 'a', 'l', 's', 'e'];
        assert(f@ =~= seq!['f', 'a', 'l', 's', 'e']);
        Some(string_from_chars(f.as_slice()))
    } else {
        assert(v@ != seq!['T'] && v@ != seq!['F']) by {
            if v@.len() == 1 {
                assert(seq!['T'][0] == 'T');
                assert(seq!['F'][0] == 'F');
            }
        }
        Some(string_from_chars(v.as_slice()))
    }
}

impl Card {
    /// Whether reading `card` would meet a value that is a lone `'`.
    pub fn has_lone_quote(card: &[u8; 80]) -> (b: bool)
        ensures
            b == card_has_lone_quote(card@),
    {
        let bytes: &[u8] = card.as_slice();
        if bytes[8] != 61u8 {
            return false;
        }
        let rest = &bytes[9..80];
        let val = match position_of(rest, 47u8) {
            Some(i) => &rest[0..i],
            None => rest,
        };
        proof {
            assert(rest@ =~= card@.subrange(9, 80));
        }
        let v = field_chars(val);
        assert(val@ =~= value_and_comment(card@).0);
        v.len() == 1 && v[0] == '\''
    }

    /// Reads a card from its 80 bytes.
    pub fn from_bytes(card: &[u8; 80]) -> (c: Card)
        requires
            !card_has_lone_quote(card@),
        ensures
            c@ == spec_card(card@),
            all_ascii(card@) ==> c@ == spec_ascii_card(card@),
    {
        let bytes: &[u8] = card.as_slice();
        let key_chars = field_chars(&bytes[0..8]);
        let key = string_from_chars(key_chars.as_slice());
        if bytes[8] == 61u8 {
            let rest = &bytes[9..80];
            assert(rest@ =~= card@.subrange(9, 80));
            let (val, comm) = match position_of(rest, 47u8) {
                Some(i) => (&rest[0..i], Some(&rest[i + 1..80 - 9])),
                None => (rest, None),
            };
            proof {
                let (sv, sc) = value_and_comment(card@);
                assert(val@ =~= sv);
                match comm {
                    Some(c) => assert(c@ =~= sc.unwrap()),
                    None => {},
                }
            }
            let value = card_value(field_chars(val));
            let comment = match comm {
                Some(c) => {
                    let t = field_chars(c);
                    if t.len() == 0 {
                        None
                    } else {
                        Some(string_from_chars(t.as_slice()))
                    }
                },
                None => None,
            };
            Card { key, value, comment }
        } else {
            let t = field_chars(&bytes[8..80]);
            let comment = if t.len() == 0 {
                None
            } else {
                Some(string_from_chars(t.as_slice()))
            };
            Card { key, value: None, comment }
        }
    }
}

/// An HDU header: its cards in file order.
#[derive(Debug, Default)]
pub struct FitsHeader {
    pub cards: Vec<Card>,
}

impl View for FitsHeader {
    type V = Seq<(Seq<char>, Option<Seq<char>>, Option<Seq<char>>)>;

    open spec fn view(&self) -> Self::V {
        self.cards@.map_values(|c: Card| c@)
    }
}

/// The position of the first card whose keyword is `key`.
pub open spec fn find_key(
    cards: Seq<(Seq<char>, Option<Seq<char>>, Option<Seq<char>>)>,
    key: Seq<char>,
) -> Option<int>
    decreases cards.len(),
{
    if cards.len() == 0 {
        None
    } else if cards[0].0 == key {
        Some(0)
    } else {
        match find_key(cards.drop_first(), key) {
            Some(i) => Some(i + 1),
            None => None,
        }
    }
}

/// The value of the first card whose keyword is `key`; `None` where there is
/// no such card or where that card holds no value.
pub open spec fn spec_get_value(
    cards: Seq<(Seq<char>, Option<Seq<char>>, Option<Seq<char>>)>,
    key: Seq<char>,
) -> Option<Seq<char>> {
    match find_key(cards, key) {
        Some(i) => cards[i].1,
        None => None,
    }
}

/// The value under `key` read as a `T`.
pub open spec fn spec_get<T: FromHeaderValue>(
    cards: Seq<(Seq<char>, Option<Seq<char>>, Option<Seq<char>>)>,
    key: Seq<char>,
) -> Option<T> {
    match spec_get_value(cards, key) {
        Some(v) => T::spec_from_value(v),
        None => None,
    }
}

impl FitsHeader {
    /// The position of the first card whose keyword is `key`.
    fn position_of_key(&self, key: &str) -> (r: Option<usize>)
        ensures
            match r {
                Some(i) => i < self.cards@.len() && find_key(self@, key@) == Some(i as int),
                None => find_key(self@, key@) is None,
            },
    {
        let wanted = chars_of(key);
        let mut i: usize = 0;
        assert(self@.skip(0) =~= self@);
        while i < self.cards.len()
            invariant
                i <= self.cards@.len(),
                wanted@ == key@,
                find_key(self@, key@) == match find_key(self@.skip(i as int), key@) {
                    Some(k) => Some(k + i),
                    None => None,
                },
            decreases self.cards@.len() - i,
        {
            assert(self@.skip(i as int).drop_first() =~= self@.skip(i + 1));
            assert(self@.skip(i as int)[0] == self.cards@[i as int]@);
            let k = chars_of(self.cards[i].key.as_str());
            if chars_equal(k.as_slice(), wanted.as_slice()) {
                return Some(i);
            }
            i = i + 1;
        }
        None
    }

    /// The value of the first card whose keyword is `key`.
    pub fn get_value(&self, key: &str) -> (r: Option<&str>)
        ensures
            match r {
                Some(v) => spec_get_value(self@, key@) == Some(v@),
                None => spec_get_value(self@, key@) is None,
            },
    {
        match self.position_of_key(key) {
            Some(i) => {
                assert(self@[i as int] == self.cards@[i as int]@);
                match &self.cards[i].value {
                    Some(v) => Some(v.as_str()),
                    None => None,
                }
            },
            None => None,
        }
    }

    /// The value under `key` read as a signed 64-bit integer.
    pub fn get_int(&self, key: &str) -> (r: Option<i64>)
        ensures
            r == spec_get::<i64>(self@, key@),
    {
        self.get::<i64>(key)
    }

    /// The value under `key` read as a `T`.
    pub fn get<T: FromHeaderValue>(&self, key: &str) -> (r: Option<T>)
        ensures
            r == spec_get::<T>(self@, key@),
    {
        match self.get_value(key) {
            Some(v) => T::from_value(v),
            None => None,
        }
    }
}

/// The keyword, value and comment of a card never carry surrounding white
/// space: trimming them changes nothing.
pub proof fn lemma_card_fields_trimmed(b: Seq<u8>)
    requires
        b.len() == 80,
    ensures
        trim(spec_card(b).0) == spec_card(b).0,
        spec_card(b).1 matches Some(v) ==> trim(v) == v,
        spec_card(b).2 matches Some(c) ==> trim(c) == c,
{
    lemma_trim_idempotent(utf8_lossy(b.subrange(0, 8)));
    lemma_trim_idempotent(utf8_lossy(b.subrange(8, 80)));
    let (val, comm) = value_and_comment(b);
    if let Some(c) = comm {
        lemma_trim_idempotent(utf8_lossy(c));
    }
    let v = field_text(val);
    lemma_trim_idempotent(utf8_lossy(val));
    lemma_trim_ends(utf8_lossy(val));
    if v.len() > 0 {
        if v[0] == '\'' && v.last() == '\'' {
            lemma_trim_idempotent(v.subrange(1, v.len() - 1));
        } else if v.contains('D') {
            let e = exponent_d_to_e(v);
            lemma_trim_fixed(e);
        } else if v == seq!['T'] {
            lemma_trim_fixed(seq!['t', 'r', 'u', 'e']);
        } else if v == seq!['F'] {
            lemma_trim_fixed(seq!['f', 'a', 'l', 's', 'e']);
        }
    }
}

/// A value written as a quoted string is read as the trimmed text between
/// the quotes, whatever it holds: a `D` inside the quotes stays a `D`, and a
/// quoted `T` stays `T`. Only an unquoted value has its `D` exponent turned
/// into `E`.
pub proof fn lemma_quoted_value_kept(b: Seq<u8>)
    requires
        b.len() == 80,
        b[8] == 61u8,
    ensures
        ({
            let v = trim(utf8_lossy(value_and_comment(b).0));
            v.len() >= 2 && v[0] == '\'' && v[v.len() - 1] == '\'' ==> spec_card(b).1 == Some(
                trim(v.subrange(1, v.len() - 1)),
            )
        }),
        ({
            let v = trim(utf8_lossy(value_and_comment(b).0));
            v.len() > 0 && v[0] != '\'' && v.contains('D') ==> spec_card(b).1 == Some(
                v.map_values(|c: char| if c == 'D' { 'E' } else { c }),
            )
        }),
{
}

} // verus!
