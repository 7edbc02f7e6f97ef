//! The labels under which HDUs are offered for selection.
use crate::header::{spec_get_value, FitsHeader};
use crate::numeric::{decimal, decimal_chars};
use crate::text::{chars_of, string_from_chars, subrange_vec, trim, trim_chars};
use vstd::prelude::*;

verus! {

/// `s` without leading single quotes.
pub open spec fn strip_quotes_start(s: Seq<char>) -> Seq<char>
    decreases s.len(),
{
    if s.len() > 0 && s[0] == '\'' {
        strip_quotes_start(s.drop_first())
    } else {
        s
    }
}

/// `s` without trailing single quotes.
pub open spec fn strip_quotes_end(s: Seq<char>) -> Seq<char>
    decreases s.len(),
{
    if s.len() > 0 && s.last() == '\'' {
        strip_quotes_end(s.drop_last())
    } else {
        s
    }
}

/// `s` without leading and trailing single quotes, as
/// `str::trim_matches('\'')` gives it.
pub open spec fn strip_quotes(s: Seq<char>) -> Seq<char> {
    strip_quotes_end(strip_quotes_start(s))
}

/// The extension type that a header names: its XTENSION value, unquoted and
/// trimmed, or `PRIMARY` where it has none.
pub open spec fn spec_extension_name(
    h: Seq<(Seq<char>, Option<Seq<char>>, Option<Seq<char>>)>,
) -> Seq<char> {
    match spec_get_value(h, "XTENSION"@) {
        Some(v) => trim(strip_quotes(v)),
        None => trim(strip_quotes("PRIMARY"@)),
    }
}

/// The label of an HDU: `HDU <index>: <extension> (<naxis> axes)`.
pub open spec fn spec_hdu_label(
    index: usize,
    h: Seq<(Seq<char>, Option<Seq<char>>, Option<Seq<char>>)>,
    naxis: usize,
) -> Seq<char> {
    "HDU "@ + decimal(index as nat) + ": "@ + spec_extension_name(h) + " ("@ + decimal(
        naxis as nat,
    ) + " axes)"@
}

proof fn lemma_strip_start_skip(s: Seq<char>, i: int)
    requires
        0 <= i < s.len(),
        s[i] == '\'',
    ensures
        strip_quotes_start(s.skip(i)) == strip_quotes_start(s.skip(i + 1)),
{
    assert(s.skip(i).drop_first() =~= s.skip(i + 1));
}

proof fn lemma_strip_end_take(s: Seq<char>, j: int)
    requires
        0 < j <= s.len(),
        s[j - 1] == '\'',
    ensures
        strip_quotes_end(s.take(j)) == strip_quotes_end(s.take(j - 1)),
{
    assert(s.take(j).drop_last() =~= s.take(j - 1));
}

/// `s` without leading and trailing single quotes.
fn strip_quote_chars(s: &[char]) -> (r: Vec<char>)
    ensures
        r@ == strip_quotes(s@),
{
    let n = s.len();
    let mut i: usize = 0;
    assert(s@.skip(0) =~= s@);
    while i < n && s[i] == '\''
        invariant
            n == s@.len(),
            i <= n,
            strip_quotes_start(s@) == strip_quotes_start(s@.skip(i as int)),
        decreases n - i,
    {
        proof {
            lemma_strip_start_skip(s@, i as int);
        }
        i = i + 1;
    }
    let ghost t = s@.skip(i as int);
    let mut j: usize = n;
    assert(t.take((n - i) as int) =~= t);
    while j > i && s[j - 1] == '\''
        invariant
            n == s@.len(),
            i <= j <= n,
            t == s@.skip(i as int),
            strip_quotes_start(s@) == t,
            strip_quotes_end(t) == strip_quotes_end(t.take((j - i) as int)),
        decreases j,
    {
        proof {
            lemma_strip_end_take(t, (j - i) as int);
        }
        j = j - 1;
    }
    assert(t.take((j - i) as int) =~= s@.subrange(i as int, j as int));
    subrange_vec(s, i, j)
}

/// The label under which an HDU is offered: its index, its extension type
/// and its number of axes.
pub fn hdu_label(index: usize, header: &FitsHeader, naxis: usize) -> (s: String)
    ensures
        s@ == spec_hdu_label(index, header@, naxis),
{
    let ext = match header.get_value("XTENSION") {
        Some(v) => chars_of(v),
        None => chars_of("PRIMARY"),
    };
    let unquoted = strip_quote_chars(ext.as_slice());
    let mut clean = trim_chars(unquoted.as_slice());
    let mut label = chars_of("HDU ");
    let mut d = decimal_chars(index);
    label.append(&mut d);
    let mut sep = chars_of(": ");
    label.append(&mut sep);
    label.append(&mut clean);
    let mut open = chars_of(" (");
    label.append(&mut open);
    let mut n = decimal_chars(naxis);
    label.append(&mut n);
    let mut close = chars_of(" axes)");
    label.append(&mut close);
    string_from_chars(label.as_slice())
}

} // verus!
