//! Reading a header block by block: the decisions of the scan through a FITS
//! file. Reading the blocks, and mapping the data that follows a header,
//! are left to the caller.
use crate::constants::{end_card, is_end_card, CARDS_PER_BLOCK, FITS_CARDSIZE};
use crate::header::{card_has_lone_quote, spec_card, Card};
use vstd::prelude::*;

verus! {

/// Card `j` of a header block.
pub open spec fn block_card(block: Seq<u8>, j: int) -> Seq<u8> {
    block.subrange(80 * j, 80 * j + 80)
}

/// The first END card among cards `from ..` of a 36-card block.
pub open spec fn first_end_card(block: Seq<u8>, from: nat) -> Option<nat>
    decreases 36 - from,
{
    if from >= 36 {
        None
    } else if block_card(block, from as int) == end_card() {
        Some(from)
    } else {
        first_end_card(block, from + 1)
    }
}

/// How many cards of the block belong to the header being read: up to and
/// including the END card, or all 36 where there is none.
pub open spec fn cards_in_block(block: Seq<u8>) -> nat {
    match first_end_card(block, 0) {
        Some(j) => j + 1,
        None => 36,
    }
}

/// The cards of the block that belong to the header being read.
pub open spec fn scanned_cards(block: Seq<u8>) -> Seq<(Seq<char>, Option<Seq<char>>, Option<Seq<char>>)> {
    Seq::new(cards_in_block(block), |j: int| spec_card(block_card(block, j)))
}

/// The first card of the block, among those that belong to the header, whose
/// value is a lone quote.
pub open spec fn first_lone_quote(block: Seq<u8>, from: nat) -> Option<nat>
    decreases cards_in_block(block) - from,
{
    if from >= cards_in_block(block) {
        None
    } else if card_has_lone_quote(block_card(block, from as int)) {
        Some(from)
    } else {
        first_lone_quote(block, from + 1)
    }
}

proof fn lemma_first_end_card_bound(block: Seq<u8>, from: nat)
    ensures
        first_end_card(block, from) matches Some(j) ==> from <= j < 36 && block_card(block, j as int)
            == end_card(),
    decreases 36 - from,
{
    if from < 36 {
        lemma_first_end_card_bound(block, from + 1);
    }
}

proof fn lemma_first_lone_quote_bound(block: Seq<u8>, from: nat)
    ensures
        first_lone_quote(block, from) matches Some(j) ==> from <= j < cards_in_block(block)
            && card_has_lone_quote(block_card(block, j as int)),
    decreases cards_in_block(block) - from,
{
    if from < cards_in_block(block) {
        lemma_first_lone_quote_bound(block, from + 1);
    }
}

/// Card `j` of a header block, as an array.
fn card_array(block: &[u8], j: usize) -> (a: [u8; 80])
    requires
        block@.len() == 2880,
        j < 36,
    ensures
        a@ == block_card(block@, j as int),
{
    let start = j * FITS_CARDSIZE;
    let mut a = [0u8; 80];
    let mut k: usize = 0;
    while k < 80
        invariant
            block@.len() == 2880,
            j < 36,
            start == 80 * j,
            k <= 80,
            forall|m: int| 0 <= m < k ==> a@[m] == block@[start + m],
        decreases 80 - k,
    {
        a[k] = block[start + k];
        k = k + 1;
    }
    assert(a@ =~= block_card(block@, j as int));
    a
}

/// The number of cards of the block that belong to the header being read.
fn count_header_cards(block: &[u8]) -> (r: (usize, bool))
    requires
        block@.len() == 2880,
    ensures
        r.0 == cards_in_block(block@),
        r.1 == (first_end_card(block@, 0) is Some),
{
    let mut j: usize = 0;
    while j < CARDS_PER_BLOCK
        invariant
            block@.len() == 2880,
            j <= 36,
            first_end_card(block@, 0) == first_end_card(block@, j as nat),
        decreases 36 - j,
    {
        let start = j * FITS_CARDSIZE;
        let c = &block[start..start + FITS_CARDSIZE];
        assert(c@ == block_card(block@, j as int));
        if is_end_card(c) {
            return (j + 1, true);
        }
        j = j + 1;
    }
    (36, false)
}

/// Reads the cards of one 2880-byte header block onto `cards`, up to and
/// including the END card. Returns whether the END card was met. Where a card
/// to be read has a value that is a lone quote, reads nothing and returns
/// that card's position in the block instead.
pub fn scan_header_block(cards: &mut Vec<Card>, block: &[u8]) -> (r: Result<bool, usize>)
    requires
        block@.len() == 2880,
    ensures
        match r {
            Ok(found_end) => {
                &&& found_end == (first_end_card(block@, 0) is Some)
                &&& first_lone_quote(block@, 0) is None
                &&& final(cards)@.map_values(|c: Card| c@) == old(cards)@.map_values(|c: Card| c@)
                    + scanned_cards(block@)
            },
            Err(j) => {
                &&& first_lone_quote(block@, 0) == Some(j as nat)
                &&& final(cards)@ == old(cards)@
            },
        },
{
    let (n, found_end) = count_header_cards(block);
    proof {
        lemma_first_end_card_bound(block@, 0);
    }
    let mut j: usize = 0;
    while j < n
        invariant
            block@.len() == 2880,
            n == cards_in_block(block@),
            n <= 36,
            j <= n,
            first_lone_quote(block@, 0) == first_lone_quote(block@, j as nat),
        decreases n - j,
    {
        let a = card_array(block, j);
        if Card::has_lone_quote(&a) {
            return Err(j);
        }
        j = j + 1;
    }
    let ghost before = cards@.map_values(|c: Card| c@);
    let mut j: usize = 0;
    while j < n
        invariant
            block@.len() == 2880,
            n == cards_in_block(block@),
            n <= 36,
            j <= n,
            first_lone_quote(block@, 0) is None,
            cards@.map_values(|c: Card| c@) == before + scanned_cards(block@).take(j as int),
        decreases n - j,
    {
        let a = card_array(block, j);
        proof {
            if card_has_lone_quote(a@) {
                lemma_no_lone_quote(block@, 0, j as nat);
            }
        }
        let c = Card::from_bytes(&a);
        let ghost cv = c@;
        let ghost prev = cards@;
        assert(cv == scanned_cards(block@)[j as int]);
        cards.push(c);
        assert(cards@ == prev.push(c));
        assert(cards@.map_values(|c: Card| c@) =~= prev.map_values(|c: Card| c@).push(cv));
        j = j + 1;
        assert(cards@.map_values(|c: Card| c@) =~= before + scanned_cards(block@).take(j as int));
    }
    assert(scanned_cards(block@).take(n as int) =~= scanned_cards(block@));
    Ok(found_end)
}

proof fn lemma_no_lone_quote(block: Seq<u8>, from: nat, j: nat)
    requires
        first_lone_quote(block, from) is None,
        from <= j < cards_in_block(block),
    ensures
        !card_has_lone_quote(block_card(block, j as int)),
    decreases j - from,
{
    if from < j {
        lemma_no_lone_quote(block, from + 1, j);
    }
}

} // verus!
