//! The state of the header table: which column it is sorted by, the
//! per-column filters, and the rows that it shows.
use crate::header::{Card, FitsHeader};
use crate::text::{
    chars_equal, chars_of, contains_chars, lex_less, lex_lt, lemma_lex_lt_asymmetric,
    lemma_lex_lt_irreflexive, lemma_lex_lt_total, lemma_lex_lt_transitive, lowercase,
    spec_contains, to_lowercase,
};
use vstd::prelude::*;

verus! {

/// The direction in which a column is sorted.
#[derive(Clone, Copy, Debug, PartialEq, Eq, Structural)]
pub enum TableColumnSort {
    Ascending,
    Descending,
    Unsorted,
}

/// What the header table shows and how.
#[derive(Debug)]
pub struct TableState {
    pub sort_column: Option<usize>,
    pub sort_direction: TableColumnSort,
    pub filters: Vec<String>,
    pub cached_indices: Vec<usize>,
    pub last_hdu_index: Option<usize>,
    pub needs_sort: bool,
}

/// The sort state after a click on the header of `column`: the same column
/// cycles Ascending, Descending, None; another column starts Ascending.
pub open spec fn spec_toggle(
    sort_column: Option<usize>,
    direction: TableColumnSort,
    column: usize,
) -> (Option<usize>, TableColumnSort) {
    if sort_column == Some(column) {
        (
            sort_column,
            match direction {
                TableColumnSort::Ascending => TableColumnSort::Descending,
                TableColumnSort::Descending => TableColumnSort::Unsorted,
                TableColumnSort::Unsorted => TableColumnSort::Ascending,
            },
        )
    } else {
        (Some(column), TableColumnSort::Ascending)
    }
}

/// The texts of the filters.
pub open spec fn filter_texts(filters: Seq<String>) -> Seq<Seq<char>> {
    filters.map_values(|s: String| s@)
}

type CardText = (Seq<char>, Option<Seq<char>>, Option<Seq<char>>);

/// An optional text, or the empty text.
pub open spec fn text_or_empty(o: Option<Seq<char>>) -> Seq<char> {
    match o {
        Some(s) => s,
        None => Seq::empty(),
    }
}

/// The text that column `col` shows for a card: keyword, value, comment;
/// any other column shows nothing.
pub open spec fn column_text(card: CardText, col: int) -> Seq<char> {
    if col == 0 {
        card.0
    } else if col == 1 {
        text_or_empty(card.1)
    } else if col == 2 {
        text_or_empty(card.2)
    } else {
        Seq::empty()
    }
}

/// The card has a keyword, a value or a comment.
pub open spec fn has_data(card: CardText) -> bool {
    card.0.len() > 0 || text_or_empty(card.1).len() > 0 || text_or_empty(card.2).len() > 0
}

/// The filter of column `col` lets `text` through: there is no filter, it is
/// empty, or its lowercase form occurs in the lowercase form of `text`.
pub open spec fn filter_admits(filters: Seq<Seq<char>>, col: int, text: Seq<char>) -> bool {
    filters.len() <= col || filters[col].len() == 0 || spec_contains(
        lowercase(text),
        lowercase(filters[col]),
    )
}

/// The table shows a row for the card.
pub open spec fn row_visible(card: CardText, filters: Seq<Seq<char>>) -> bool {
    &&& has_data(card)
    &&& filter_admits(filters, 0, column_text(card, 0))
    &&& filter_admits(filters, 1, column_text(card, 1))
    &&& filter_admits(filters, 2, column_text(card, 2))
}

/// The sort that the table applies: a column and whether it is descending.
pub open spec fn sort_order(sort_column: Option<usize>, direction: TableColumnSort) -> Option<
    (usize, bool),
> {
    match sort_column {
        Some(c) => match direction {
            TableColumnSort::Ascending => Some((c, false)),
            TableColumnSort::Descending => Some((c, true)),
            TableColumnSort::Unsorted => None,
        },
        None => None,
    }
}

/// Row `i` comes before row `j` when sorting by `keys`: by key, in the
/// direction asked, and rows with equal keys in card order (a stable sort).
pub open spec fn key_precedes(keys: Seq<Seq<char>>, desc: bool, i: int, j: int) -> bool {
    if keys[i] == keys[j] {
        i < j
    } else if desc {
        lex_lt(keys[j], keys[i])
    } else {
        lex_lt(keys[i], keys[j])
    }
}

/// The texts that column `col` shows, card by card.
pub open spec fn column_keys(cards: Seq<CardText>, col: int) -> Seq<Seq<char>> {
    cards.map_values(|c: CardText| column_text(c, col))
}

/// Row `i` comes before row `j` in the table.
pub open spec fn row_precedes(cards: Seq<CardText>, order: Option<(usize, bool)>, i: int, j: int) -> bool {
    match order {
        Some((col, desc)) => key_precedes(column_keys(cards, col as int), desc, i, j),
        None => i < j,
    }
}

/// `rows` are the rows that the table shows for `cards`: each visible card
/// once, none other, in table order.
pub open spec fn is_table_rows(
    cards: Seq<CardText>,
    filters: Seq<Seq<char>>,
    order: Option<(usize, bool)>,
    rows: Seq<usize>,
) -> bool {
    &&& forall|a: int| 0 <= a < rows.len() ==> #[trigger] rows[a] < cards.len() && row_visible(
        cards[rows[a] as int],
        filters,
    )
    &&& forall|n: int| 0 <= n < cards.len() && row_visible(#[trigger] cards[n], filters) ==> rows.contains(
        n as usize,
    )
    &&& forall|a: int, b: int|
        0 <= a < b < rows.len() ==> row_precedes(cards, order, #[trigger] rows[a] as int, #[trigger] rows[b] as int)
}

/// Row order by key is a strict total order on the rows.
pub proof fn lemma_key_precedes_order(keys: Seq<Seq<char>>, desc: bool, i: int, j: int, k: int)
    ensures
        !key_precedes(keys, desc, i, i),
        i != j ==> (key_precedes(keys, desc, i, j) || key_precedes(keys, desc, j, i)),
        key_precedes(keys, desc, i, j) ==> !key_precedes(keys, desc, j, i),
        key_precedes(keys, desc, i, j) && key_precedes(keys, desc, j, k) ==> key_precedes(
            keys,
            desc,
            i,
            k,
        ),
{
    lemma_lex_lt_irreflexive(keys[i]);
    if keys[i] != keys[j] {
        lemma_lex_lt_total(keys[i], keys[j]);
        if lex_lt(keys[i], keys[j]) {
            lemma_lex_lt_asymmetric(keys[i], keys[j]);
        }
        if lex_lt(keys[j], keys[i]) {
            lemma_lex_lt_asymmetric(keys[j], keys[i]);
        }
    }
    if key_precedes(keys, desc, i, j) && key_precedes(keys, desc, j, k) {
        if keys[i] == keys[j] && keys[j] == keys[k] {
        } else if keys[i] == keys[j] {
        } else if keys[j] == keys[k] {
        } else if desc {
            lemma_lex_lt_transitive(keys[k], keys[j], keys[i]);
            lemma_lex_lt_irreflexive(keys[i]);
        } else {
            lemma_lex_lt_transitive(keys[i], keys[j], keys[k]);
            lemma_lex_lt_irreflexive(keys[i]);
        }
    }
}

/// Whether row `i` comes before row `j` when sorting by `keys`.
fn precedes(keys: &Vec<Vec<char>>, desc: bool, i: usize, j: usize) -> (r: bool)
    requires
        i < keys@.len(),
        j < keys@.len(),
    ensures
        r == key_precedes(keys@.map_values(|k: Vec<char>| k@), desc, i as int, j as int),
{
    let ghost ks = keys@.map_values(|k: Vec<char>| k@);
    assert(ks[i as int] == keys@[i as int]@ && ks[j as int] == keys@[j as int]@);
    if chars_equal(keys[i].as_slice(), keys[j].as_slice()) {
        i < j
    } else if desc {
        lex_less(keys[j].as_slice(), keys[i].as_slice())
    } else {
        lex_less(keys[i].as_slice(), keys[j].as_slice())
    }
}

/// The rows `s` are strictly in key order.
pub open spec fn sorted_by(keys: Seq<Seq<char>>, desc: bool, s: Seq<usize>) -> bool {
    forall|a: int, b: int|
        0 <= a < b < s.len() ==> key_precedes(keys, desc, #[trigger] s[a] as int, #[trigger] s[b] as int)
}

/// Inserts row `x` into the key-ordered rows `sorted`, keeping them ordered.
fn insert_in_order(sorted: &mut Vec<usize>, x: usize, keys: &Vec<Vec<char>>, desc: bool)
    requires
        x < keys@.len(),
        forall|a: int| 0 <= a < old(sorted)@.len() ==> #[trigger] old(sorted)@[a] < keys@.len(),
        !old(sorted)@.contains(x),
        sorted_by(keys@.map_values(|k: Vec<char>| k@), desc, old(sorted)@),
    ensures
        sorted_by(keys@.map_values(|k: Vec<char>| k@), desc, final(sorted)@),
        forall|v: usize| final(sorted)@.contains(v) <==> (old(sorted)@.contains(v) || v == x),
        forall|a: int| 0 <= a < final(sorted)@.len() ==> #[trigger] final(sorted)@[a] < keys@.len(),
{
    let ghost ks = keys@.map_values(|k: Vec<char>| k@);
    let ghost s0 = sorted@;
    let mut p: usize = 0;
    while p < sorted.len() && !precedes(keys, desc, x, sorted[p])
        invariant
            sorted@ == s0,
            ks == keys@.map_values(|k: Vec<char>| k@),
            p <= s0.len(),
            x < keys@.len(),
            forall|a: int| 0 <= a < s0.len() ==> #[trigger] s0[a] < keys@.len(),
            forall|a: int| 0 <= a < p ==> #[trigger] key_precedes(ks, desc, s0[a] as int, x as int),
            !s0.contains(x),
        decreases s0.len() - p,
    {
        proof {
            assert(s0[p as int] != x);
            lemma_key_precedes_order(ks, desc, x as int, s0[p as int] as int, 0);
        }
        p = p + 1;
    }
    sorted.insert(p, x);
    let ghost s1 = sorted@;
    assert(s1 == s0.insert(p as int, x));
    assert forall|a: int, b: int| 0 <= a < b < s1.len() implies key_precedes(
        ks,
        desc,
        #[trigger] s1[a] as int,
        #[trigger] s1[b] as int,
    ) by {
        if b < p {
            assert(s1[a] == s0[a] && s1[b] == s0[b]);
        } else if b == p {
            assert(s1[a] == s0[a]);
        } else if a < p {
            assert(s1[a] == s0[a] && s1[b] == s0[b - 1]);
        } else if a == p {
            assert(s1[b] == s0[b - 1]);
            // x precedes s0[p], which precedes or is s0[b - 1]
            if b - 1 > p {
                assert(key_precedes(ks, desc, s0[p as int] as int, s0[b - 1] as int));
                lemma_key_precedes_order(ks, desc, x as int, s0[p as int] as int, s0[b - 1] as int);
            }
        } else {
            assert(s1[a] == s0[a - 1] && s1[b] == s0[b - 1]);
        }
    }
    assert forall|v: usize| s1.contains(v) <==> (s0.contains(v) || v == x) by {
        if s1.contains(v) {
            let a = choose|a: int| 0 <= a < s1.len() && s1[a] == v;
            if a < p {
                assert(s0[a] == v);
            } else if a > p {
                assert(s0[a - 1] == v);
            }
        }
        if s0.contains(v) {
            let a = choose|a: int| 0 <= a < s0.len() && s0[a] == v;
            if a < p {
                assert(s1[a] == v);
            } else {
                assert(s1[a + 1] == v);
            }
        }
        if v == x {
            assert(s1[p as int] == x);
        }
    }
    assert forall|a: int| 0 <= a < s1.len() implies #[trigger] s1[a] < keys@.len() by {
        if a < p {
            assert(s1[a] == s0[a]);
        } else if a > p {
            assert(s1[a] == s0[a - 1]);
        }
    }
}

/// The text of an optional string, or nothing.
fn chars_or_empty(o: &Option<String>) -> (v: Vec<char>)
    ensures
        v@ == text_or_empty(crate::header::opt_text(*o)),
{
    match o {
        Some(s) => chars_of(s.as_str()),
        None => Vec::new(),
    }
}

/// The text that column `col` shows for `card`.
fn column_chars(card: &Card, col: usize) -> (v: Vec<char>)
    ensures
        v@ == column_text(card@, col as int),
{
    if col == 0 {
        chars_of(card.key.as_str())
    } else if col == 1 {
        chars_or_empty(&card.value)
    } else if col == 2 {
        chars_or_empty(&card.comment)
    } else {
        Vec::new()
    }
}

/// The lowercase form of `text`.
fn lowercase_chars(text: &[char]) -> (v: Vec<char>)
    ensures
        v@ == lowercase(text@),
{
    let s = crate::text::string_from_chars(text);
    let l = to_lowercase(s.as_str());
    chars_of(l.as_str())
}

/// `f` is the filter of column `col` prepared for matching: nothing where
/// the filter lets all through, else its lowercase text.
pub open spec fn prepared_ok(f: Option<Vec<char>>, filters: Seq<Seq<char>>, col: int) -> bool {
    match f {
        Some(p) => col < filters.len() && filters[col].len() > 0 && p@ == lowercase(filters[col]),
        None => filters.len() <= col || filters[col].len() == 0,
    }
}

/// The filter of column `col` in lowercase, `None` where it lets all through.
fn prepared_filter(filters: &Vec<String>, col: usize) -> (r: Option<Vec<char>>)
    ensures
        prepared_ok(r, filter_texts(filters@), col as int),
{
    if filters.len() <= col {
        return None;
    }
    let text = chars_of(filters[col].as_str());
    if text.len() == 0 {
        None
    } else {
        Some(lowercase_chars(text.as_slice()))
    }
}

/// Whether a prepared filter lets `text` through.
fn admits(f: &Option<Vec<char>>, text: &[char]) -> (b: bool)
    ensures
        b == match f {
            Some(p) => spec_contains(lowercase(text@), p@),
            None => true,
        },
{
    match f {
        Some(p) => {
            let l = lowercase_chars(text);
            contains_chars(l.as_slice(), p.as_slice())
        },
        None => true,
    }
}

/// Whether the table shows a row for `card`.
fn card_visible(
    card: &Card,
    f0: &Option<Vec<char>>,
    f1: &Option<Vec<char>>,
    f2: &Option<Vec<char>>,
    filters: &Vec<String>,
) -> (b: bool)
    requires
        prepared_ok(*f0, filter_texts(filters@), 0),
        prepared_ok(*f1, filter_texts(filters@), 1),
        prepared_ok(*f2, filter_texts(filters@), 2),
    ensures
        b == row_visible(card@, filter_texts(filters@)),
{
    let k = column_chars(card, 0);
    let v = column_chars(card, 1);
    let c = column_chars(card, 2);
    let has = k.len() > 0 || v.len() > 0 || c.len() > 0;
    has && admits(f0, k.as_slice()) && admits(f1, v.as_slice()) && admits(f2, c.as_slice())
}

/// The rows of the table for `header`: the cards that hold something and
/// that every filter lets through, sorted by the chosen column and direction
/// where there is one, in card order otherwise.
pub fn table_rows(
    header: &FitsHeader,
    filters: &Vec<String>,
    sort_column: Option<usize>,
    sort_direction: TableColumnSort,
) -> (rows: Vec<usize>)
    ensures
        is_table_rows(header@, filter_texts(filters@), sort_order(sort_column, sort_direction), rows@),
{
    let ghost cards = header@;
    let ghost ft = filter_texts(filters@);
    let f0 = prepared_filter(filters, 0);
    let f1 = prepared_filter(filters, 1);
    let f2 = prepared_filter(filters, 2);
    let n = header.cards.len();
    let mut visible: Vec<usize> = Vec::new();
    let mut i: usize = 0;
    while i < n
        invariant
            n == cards.len(),
            cards == header@,
            ft == filter_texts(filters@),
            prepared_ok(f0, ft, 0),
            prepared_ok(f1, ft, 1),
            prepared_ok(f2, ft, 2),
            i <= n,
            forall|a: int| 0 <= a < visible@.len() ==> #[trigger] visible@[a] < i && row_visible(
                cards[visible@[a] as int],
                ft,
            ),
            forall|m: int| 0 <= m < i && row_visible(#[trigger] cards[m], ft) ==> visible@.contains(
                m as usize,
            ),
            forall|a: int, b: int|
                0 <= a < b < visible@.len() ==> #[trigger] visible@[a] < #[trigger] visible@[b],
        decreases n - i,
    {
        assert(cards[i as int] == header.cards@[i as int]@);
        if card_visible(&header.cards[i], &f0, &f1, &f2, filters) {
            let ghost v0 = visible@;
            visible.push(i);
            assert forall|m: int| 0 <= m < i + 1 && row_visible(#[trigger] cards[m], ft) implies visible@.contains(
                m as usize,
            ) by {
                if m < i {
                    let a = choose|a: int| 0 <= a < v0.len() && v0[a] == m as usize;
                    assert(visible@[a] == m as usize);
                } else {
                    assert(visible@[v0.len() as int] == i);
                }
            }
        }
        i = i + 1;
    }
    let order = match sort_column {
        Some(c) => match sort_direction {
            TableColumnSort::Ascending => Some((c, false)),
            TableColumnSort::Descending => Some((c, true)),
            TableColumnSort::Unsorted => None,
        },
        None => None,
    };
    match order {
        None => visible,
        Some((col, desc)) => {
            let mut keys: Vec<Vec<char>> = Vec::new();
            let mut k: usize = 0;
            while k < n
                invariant
                    n == cards.len(),
                    cards == header@,
                    k <= n,
                    keys@.len() == k,
                    forall|m: int| 0 <= m < k ==> #[trigger] keys@[m]@ == column_text(cards[m], col as int),
                decreases n - k,
            {
                assert(cards[k as int] == header.cards@[k as int]@);
                keys.push(column_chars(&header.cards[k], col));
                k = k + 1;
            }
            let ghost ks = keys@.map_values(|v: Vec<char>| v@);
            assert(ks =~= column_keys(cards, col as int));
            let mut sorted: Vec<usize> = Vec::new();
            let mut j: usize = 0;
            while j < visible.len()
                invariant
                    n == cards.len(),
                    keys@.len() == n,
                    ks == keys@.map_values(|v: Vec<char>| v@),
                    ks == column_keys(cards, col as int),
                    j <= visible@.len(),
                    forall|a: int| 0 <= a < visible@.len() ==> #[trigger] visible@[a] < n,
                    forall|a: int, b: int|
                        0 <= a < b < visible@.len() ==> #[trigger] visible@[a] < #[trigger] visible@[b],
                    sorted_by(ks, desc, sorted@),
                    forall|a: int| 0 <= a < sorted@.len() ==> #[trigger] sorted@[a] < keys@.len(),
                    forall|v: usize| sorted@.contains(v) <==> visible@.take(j as int).contains(v),
                decreases visible@.len() - j,
            {
                let x = visible[j];
                assert(!sorted@.contains(x)) by {
                    if visible@.take(j as int).contains(x) {
                        let a = choose|a: int| 0 <= a < j && #[trigger] visible@.take(j as int)[a] == x;
                        assert(visible@[a] < visible@[j as int]);
                    }
                }
                insert_in_order(&mut sorted, x, &keys, desc);
                assert forall|v: usize| sorted@.contains(v) <==> visible@.take(j + 1).contains(v) by {
                    if visible@.take(j + 1).contains(v) {
                        let a = choose|a: int| 0 <= a < j + 1 && #[trigger] visible@.take(j + 1)[a] == v;
                        if a < j {
                            assert(visible@.take(j as int)[a] == v);
                        }
                    }
                    if visible@.take(j as int).contains(v) {
                        let a = choose|a: int| 0 <= a < j && #[trigger] visible@.take(j as int)[a] == v;
                        assert(visible@.take(j + 1)[a] == v);
                    }
                    if v == x {
                        assert(visible@.take(j + 1)[j as int] == v);
                    }
                }
                j = j + 1;
            }
            assert(visible@.take(visible@.len() as int) =~= visible@);
            assert forall|a: int| 0 <= a < sorted@.len() implies #[trigger] sorted@[a] < cards.len()
                && row_visible(cards[sorted@[a] as int], ft) by {
                assert(sorted@.contains(sorted@[a]));
                let b = choose|b: int| 0 <= b < visible@.len() && visible@[b] == sorted@[a];
            }
            assert forall|m: int| 0 <= m < cards.len() && row_visible(#[trigger] cards[m], ft) implies sorted@.contains(
                m as usize,
            ) by {
                assert(visible@.contains(m as usize));
            }
            sorted
        },
    }
}

/// The heading of column `column`: its name, then an up arrow where the
/// table is sorted by it ascending, a down arrow where descending.
pub open spec fn spec_heading_text(
    sort_column: Option<usize>,
    direction: TableColumnSort,
    column: usize,
) -> Seq<char> {
    let name = if column == 0 {
        "Key"@
    } else if column == 1 {
        "Value"@
    } else {
        "Comment"@
    };
    let up = if column == 0 {
        "Key \u{25b2}"@
    } else if column == 1 {
        "Value \u{25b2}"@
    } else {
        "Comment \u{25b2}"@
    };
    let down = if column == 0 {
        "Key \u{25bc}"@
    } else if column == 1 {
        "Value \u{25bc}"@
    } else {
        "Comment \u{25bc}"@
    };
    if sort_column == Some(column) && direction == TableColumnSort::Ascending {
        up
    } else if sort_column == Some(column) && direction == TableColumnSort::Descending {
        down
    } else {
        name
    }
}

impl TableState {
    /// A table with `cols` empty filters, unsorted, that has yet to compute
    /// its rows.
    pub fn new(cols: usize) -> (t: Self)
        ensures
            t.sort_column is None,
            t.sort_direction == TableColumnSort::Unsorted,
            t.filters@.len() == cols,
            forall|i: int| 0 <= i < cols ==> (#[trigger] t.filters@[i])@.len() == 0,
            t.cached_indices@.len() == 0,
            t.last_hdu_index is None,
            t.needs_sort,
    {
        let mut filters: Vec<String> = Vec::new();
        let mut i: usize = 0;
        while i < cols
            invariant
                i <= cols,
                filters@.len() == i,
                forall|k: int| 0 <= k < i ==> (#[trigger] filters@[k])@.len() == 0,
            decreases cols - i,
        {
            filters.push(String::new());
            i = i + 1;
        }
        TableState {
            sort_column: None,
            sort_direction: TableColumnSort::Unsorted,
            filters,
            cached_indices: Vec::new(),
            last_hdu_index: None,
            needs_sort: true,
        }
    }

    /// Records a click on the header of `column`: the same column cycles
    /// Ascending, Descending, Unsorted; another column is sorted Ascending.
    /// Either way the rows are to be sorted again.
    pub fn toggle_sort(&mut self, column: usize)
        ensures
            (final(self).sort_column, final(self).sort_direction) == spec_toggle(
                old(self).sort_column,
                old(self).sort_direction,
                column,
            ),
            final(self).needs_sort,
            final(self).filters@ == old(self).filters@,
            final(self).cached_indices@ == old(self).cached_indices@,
            final(self).last_hdu_index == old(self).last_hdu_index,
    {
        let same = match self.sort_column {
            Some(c) => c == column,
            None => false,
        };
        if same {
            self.sort_direction = match self.sort_direction {
                TableColumnSort::Ascending => TableColumnSort::Descending,
                TableColumnSort::Descending => TableColumnSort::Unsorted,
                TableColumnSort::Unsorted => TableColumnSort::Ascending,
            };
        } else {
            self.sort_column = Some(column);
            self.sort_direction = TableColumnSort::Ascending;
        }
        self.needs_sort = true;
    }

    /// The heading of column `column` (Key, Value, Comment), with an arrow
    /// where the table is sorted by it: up for ascending, down for descending.
    pub fn heading_text(&self, column: usize) -> (s: &'static str)
        requires
            column < 3,
        ensures
            s@ == spec_heading_text(self.sort_column, self.sort_direction, column),
    {
        let sorted_here = match self.sort_column {
            Some(c) => c == column,
            None => false,
        };
        if column == 0 {
            if sorted_here && self.sort_direction == TableColumnSort::Ascending {
                "Key \u{25b2}"
            } else if sorted_here && self.sort_direction == TableColumnSort::Descending {
                "Key \u{25bc}"
            } else {
                "Key"
            }
        } else if column == 1 {
            if sorted_here && self.sort_direction == TableColumnSort::Ascending {
                "Value \u{25b2}"
            } else if sorted_here && self.sort_direction == TableColumnSort::Descending {
                "Value \u{25bc}"
            } else {
                "Value"
            }
        } else {
            if sorted_here && self.sort_direction == TableColumnSort::Ascending {
                "Comment \u{25b2}"
            } else if sorted_here && self.sort_direction == TableColumnSort::Descending {
                "Comment \u{25bc}"
            } else {
                "Comment"
            }
        }
    }

    /// Brings the cached rows up to date for the header of HDU `hdu_index`:
    /// where the HDU changed or a sort was asked for, computes the rows anew.
    pub fn update_cached_indices(&mut self, header: &FitsHeader, hdu_index: usize)
        ensures
            final(self).last_hdu_index == Some(hdu_index),
            !final(self).needs_sort,
            final(self).sort_column == old(self).sort_column,
            final(self).sort_direction == old(self).sort_direction,
            final(self).filters@ == old(self).filters@,
            (old(self).needs_sort || old(self).last_hdu_index != Some(hdu_index)) ==> is_table_rows(
                header@,
                filter_texts(old(self).filters@),
                sort_order(old(self).sort_column, old(self).sort_direction),
                final(self).cached_indices@,
            ),
            !(old(self).needs_sort || old(self).last_hdu_index != Some(hdu_index))
                ==> final(self).cached_indices@ == old(self).cached_indices@,
    {
        let same_hdu = match self.last_hdu_index {
            Some(h) => h == hdu_index,
            None => false,
        };
        if !same_hdu {
            self.last_hdu_index = Some(hdu_index);
            self.needs_sort = true;
        }
        if self.needs_sort {
            self.cached_indices = table_rows(header, &self.filters, self.sort_column, self.sort_direction);
            self.needs_sort = false;
        }
    }
}

/// Clicking the same column three times gives back the sort it had.
pub proof fn lemma_toggle_cycle(column: usize, direction: TableColumnSort)
    ensures
        ({
            let s1 = spec_toggle(Some(column), direction, column);
            let s2 = spec_toggle(s1.0, s1.1, column);
            let s3 = spec_toggle(s2.0, s2.1, column);
            s3 == (Some(column), direction)
        }),
{
}

/// A click on a column that is not the sorted one sorts by it, ascending.
pub proof fn lemma_toggle_new_column(sort_column: Option<usize>, direction: TableColumnSort, column: usize)
    requires
        sort_column != Some(column),
    ensures
        spec_toggle(sort_column, direction, column) == (Some(column), TableColumnSort::Ascending),
{
}

/// With every filter empty, the table shows exactly the cards that hold a
/// non-empty keyword, a non-empty value or a non-empty comment; a card that
/// holds only a comment is shown.
pub proof fn lemma_empty_filters_show_cards_with_data(card: CardText, filters: Seq<Seq<char>>)
    requires
        forall|i: int| 0 <= i < filters.len() ==> (#[trigger] filters[i]).len() == 0,
    ensures
        row_visible(card, filters) == (card.0.len() > 0 || (card.1 matches Some(v) && v.len() > 0)
            || (card.2 matches Some(c) && c.len() > 0)),
{
}

/// Whatever the filters and the sort, a card with no keyword, value or
/// comment is never shown, and with empty filters every other card is.
pub proof fn lemma_table_rows_with_empty_filters(
    cards: Seq<CardText>,
    filters: Seq<Seq<char>>,
    order: Option<(usize, bool)>,
    rows: Seq<usize>,
)
    requires
        is_table_rows(cards, filters, order, rows),
    ensures
        forall|a: int| 0 <= a < rows.len() ==> ({
            let c = #[trigger] cards[rows[a] as int];
            c.0.len() > 0 || (c.1 matches Some(v) && v.len() > 0) || (c.2 matches Some(t) && t.len()
                > 0)
        }),
        (forall|i: int| 0 <= i < filters.len() ==> (#[trigger] filters[i]).len() == 0) ==> forall|
            n: int,
        |
            0 <= n < cards.len() && ((#[trigger] cards[n]).0.len() > 0 || (cards[n].1 matches Some(
                v,
            ) && v.len() > 0) || (cards[n].2 matches Some(t) && t.len() > 0)) ==> rows.contains(
                n as usize,
            ),
{
    assert forall|a: int| 0 <= a < rows.len() implies ({
        let c = #[trigger] cards[rows[a] as int];
        c.0.len() > 0 || (c.1 matches Some(v) && v.len() > 0) || (c.2 matches Some(t) && t.len()
            > 0)
    }) by {
        assert(row_visible(cards[rows[a] as int], filters));
    }
    if forall|i: int| 0 <= i < filters.len() ==> (#[trigger] filters[i]).len() == 0 {
        assert forall|n: int|
            0 <= n < cards.len() && ((#[trigger] cards[n]).0.len() > 0 || (cards[n].1 matches Some(
                v,
            ) && v.len() > 0) || (cards[n].2 matches Some(t) && t.len() > 0)) implies rows.contains(
            n as usize,
        ) by {
            lemma_empty_filters_show_cards_with_data(cards[n], filters);
        }
    }
}

/// Row order never puts a row before itself, nor two rows both ways.
proof fn lemma_row_precedes_strict(cards: Seq<CardText>, order: Option<(usize, bool)>, i: int, j: int)
    ensures
        !row_precedes(cards, order, i, i),
        row_precedes(cards, order, i, j) ==> !row_precedes(cards, order, j, i),
{
    if let Some((col, desc)) = order {
        lemma_key_precedes_order(column_keys(cards, col as int), desc, i, j, i);
    }
}

/// Two row lists in strict row order that hold the same rows are equal.
proof fn lemma_sorted_rows_unique(
    cards: Seq<CardText>,
    order: Option<(usize, bool)>,
    s: Seq<usize>,
    t: Seq<usize>,
)
    requires
        forall|a: int, b: int|
            0 <= a < b < s.len() ==> row_precedes(cards, order, #[trigger] s[a] as int, #[trigger] s[b] as int),
        forall|a: int, b: int|
            0 <= a < b < t.len() ==> row_precedes(cards, order, #[trigger] t[a] as int, #[trigger] t[b] as int),
        forall|v: usize| s.contains(v) <==> t.contains(v),
    ensures
        s == t,
    decreases s.len(),
{
    if s.len() == 0 {
        if t.len() > 0 {
            assert(t.contains(t[0]));
        }
        assert(s =~= t);
    } else {
        assert(s.contains(s[0]));
        assert(t.contains(s[0]));
        let k = choose|k: int| 0 <= k < t.len() && t[k] == s[0];
        assert(t.contains(t[0]));
        let j = choose|j: int| 0 <= j < s.len() && s[j] == t[0];
        if s[0] != t[0] {
            assert(j > 0 && k > 0);
            assert(row_precedes(cards, order, s[0] as int, s[j] as int));
            assert(row_precedes(cards, order, t[0] as int, t[k] as int));
            lemma_row_precedes_strict(cards, order, s[0] as int, t[0] as int);
        }
        let s1 = s.drop_first();
        let t1 = t.drop_first();
        assert forall|v: usize| s1.contains(v) <==> t1.contains(v) by {
            if s1.contains(v) {
                let a = choose|a: int| 0 <= a < s1.len() && s1[a] == v;
                assert(s[a + 1] == v);
                assert(row_precedes(cards, order, s[0] as int, s[a + 1] as int));
                lemma_row_precedes_strict(cards, order, s[0] as int, s[0] as int);
                assert(t.contains(v));
                let b = choose|b: int| 0 <= b < t.len() && t[b] == v;
                assert(b != 0);
                assert(t1[b - 1] == v);
            }
            if t1.contains(v) {
                let a = choose|a: int| 0 <= a < t1.len() && t1[a] == v;
                assert(t[a + 1] == v);
                assert(row_precedes(cards, order, t[0] as int, t[a + 1] as int));
                lemma_row_precedes_strict(cards, order, t[0] as int, t[0] as int);
                assert(s.contains(v));
                let b = choose|b: int| 0 <= b < s.len() && s[b] == v;
                assert(b != 0);
                assert(s1[b - 1] == v);
            }
        }
        assert forall|a: int, b: int| 0 <= a < b < s1.len() implies row_precedes(
            cards,
            order,
            #[trigger] s1[a] as int,
            #[trigger] s1[b] as int,
        ) by {
            assert(s1[a] == s[a + 1] && s1[b] == s[b + 1]);
        }
        assert forall|a: int, b: int| 0 <= a < b < t1.len() implies row_precedes(
            cards,
            order,
            #[trigger] t1[a] as int,
            #[trigger] t1[b] as int,
        ) by {
            assert(t1[a] == t[a + 1] && t1[b] == t[b + 1]);
        }
        lemma_sorted_rows_unique(cards, order, s1, t1);
        assert(s =~= seq![s[0]] + s1);
        assert(t =~= seq![t[0]] + t1);
    }
}

/// The rows of the table are determined by the cards, the filters and the
/// sort: two row lists that fit them are the same list.
pub proof fn lemma_table_rows_unique(
    cards: Seq<CardText>,
    filters: Seq<Seq<char>>,
    order: Option<(usize, bool)>,
    r1: Seq<usize>,
    r2: Seq<usize>,
)
    requires
        is_table_rows(cards, filters, order, r1),
        is_table_rows(cards, filters, order, r2),
    ensures
        r1 == r2,
{
    assert forall|v: usize| r1.contains(v) <==> r2.contains(v) by {
        if r1.contains(v) {
            let a = choose|a: int| 0 <= a < r1.len() && r1[a] == v;
            assert(v < cards.len() && row_visible(cards[v as int], filters));
        }
        if r2.contains(v) {
            let a = choose|a: int| 0 <= a < r2.len() && r2[a] == v;
            assert(v < cards.len() && row_visible(cards[v as int], filters));
        }
    }
    lemma_sorted_rows_unique(cards, order, r1, r2);
}

} // verus!
