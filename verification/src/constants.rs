//! Sizes and keywords fixed by the FITS standard.
use vstd::prelude::*;

verus! {

/// The size in bytes of a FITS block.
pub const FITS_BLOCKSIZE: usize = 2880;

/// The size in bytes of a header card.
pub const FITS_CARDSIZE: usize = 80;

/// The number of cards in one header block.
pub const CARDS_PER_BLOCK: usize = 36;

/// Bound on the search for a data block.
pub const DEFAULT_FIND_DATA_MAX_RECURSIONS: usize = 128;

/// The card that ends a header: `END` followed by 77 spaces.
pub open spec fn end_card() -> Seq<u8> {
    seq![69u8, 78u8, 68u8] + Seq::new(77, |i: int| 32u8)
}

/// Whether `card` is the END card.
pub fn is_end_card(card: &[u8]) -> (b: bool)
    requires
        card@.len() == 80,
    ensures
        b == (card@ == end_card()),
{
    if card[0] != 69u8 || card[1] != 78u8 || card[2] != 68u8 {
        assert(end_card()[0] == 69u8 && end_card()[1] == 78u8 && end_card()[2] == 68u8);
        return false;
    }
    let mut i: usize = 3;
    while i < 80
        invariant
            3 <= i <= 80,
            card@.len() == 80,
            forall|k: int| 3 <= k < i ==> card@[k] == 32u8,
        decreases 80 - i,
    {
        if card[i] != 32u8 {
            assert(end_card()[i as int] == 32u8);
            return false;
        }
        i = i + 1;
    }
    assert(card@ =~= end_card());
    true
}

} // verus!
