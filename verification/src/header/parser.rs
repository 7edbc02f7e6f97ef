//! Searching raw header bytes: cards by keyword, the block that ends a
//! header, and the signature that opens a FITS file.
use crate::constants::{FITS_BLOCKSIZE, FITS_CARDSIZE};
use crate::errors::FitsError;
use vstd::prelude::*;
use vstd::string::StringSliceAdditionalSpecFns;

verus! {

/// The number of card-sized chunks that `len` bytes split into, the last one
/// possibly short.
pub open spec fn n_chunks(len: int) -> int {
    (len + 79) / 80
}

/// Chunk `i` of `block`: bytes `80 * i` up to `80 * (i + 1)` or the end.
pub open spec fn chunk(block: Seq<u8>, i: int) -> Seq<u8> {
    let start = 80 * i;
    let end = if 80 * i + 80 <= block.len() {
        80 * i + 80
    } else {
        block.len() as int
    };
    block.subrange(start, end)
}

/// The 8-byte keyword field `kw` holds `name` padded with spaces.
pub open spec fn keyword_matches(kw: Seq<u8>, name: Seq<u8>) -> bool {
    &&& name.len() <= kw.len()
    &&& kw.take(name.len() as int) == name
    &&& forall|j: int| name.len() <= j < kw.len() ==> kw[j] == 32u8
}

/// Chunk `i` of `block` is a card with keyword `name`.
pub open spec fn chunk_matches(block: Seq<u8>, name: Seq<u8>, i: int) -> bool {
    keyword_matches(chunk(block, i).take(8), name)
}

/// The first chunk at or after `from` that is a card with keyword `name`.
pub open spec fn find_chunk(block: Seq<u8>, name: Seq<u8>, from: nat) -> Option<nat>
    decreases n_chunks(block.len() as int) - from,
{
    if from >= n_chunks(block.len() as int) {
        None
    } else if chunk_matches(block, name, from as int) {
        Some(from)
    } else {
        find_chunk(block, name, from + 1)
    }
}

/// Searching `block` for `name` never reads the keyword of a chunk shorter
/// than 8 bytes: either no chunk is that short, or a full chunk before it
/// matches.
pub open spec fn card_search_in_bounds(block: Seq<u8>, name: Seq<u8>) -> bool {
    let r = block.len() % 80;
    r == 0 || r >= 8 || (find_chunk(block, name, 0) matches Some(i) && i < block.len() / 80)
}

/// Whether the 8-byte keyword field `kw` holds `name` padded with spaces.
fn keyword_is(kw: &[u8], name: &[u8]) -> (b: bool)
    ensures
        b == keyword_matches(kw@, name@),
{
    if name.len() > kw.len() {
        return false;
    }
    let mut j: usize = 0;
    while j < name.len()
        invariant
            name@.len() <= kw@.len(),
            j <= name@.len(),
            forall|m: int| 0 <= m < j ==> kw@[m] == name@[m],
        decreases name@.len() - j,
    {
        if kw[j] != name[j] {
            assert(kw@.take(name@.len() as int)[j as int] != name@[j as int]);
            return false;
        }
        j = j + 1;
    }
    assert(kw@.take(name@.len() as int) =~= name@);
    while j < kw.len()
        invariant
            name@.len() <= j <= kw@.len(),
            kw@.take(name@.len() as int) == name@,
            forall|m: int| name@.len() <= m < j ==> kw@[m] == 32u8,
        decreases kw@.len() - j,
    {
        if kw[j] != 32u8 {
            return false;
        }
        j = j + 1;
    }
    true
}

/// The first card in `block` whose keyword is `name` (as bytes).
fn find_card_bytes<'a>(block: &'a [u8], name: &[u8]) -> (r: Option<&'a [u8]>)
    requires
        card_search_in_bounds(block@, name@),
    ensures
        match r {
            Some(c) => find_chunk(block@, name@, 0) matches Some(i) && c@ == chunk(
                block@,
                i as int,
            ),
            None => find_chunk(block@, name@, 0) is None,
        },
{
    let len = block.len();
    let mut start: usize = 0;
    let ghost mut i: nat = 0;
    while start < len
        invariant
            len == block@.len(),
            start <= len,
            start < len ==> start == 80 * i && i < n_chunks(len as int),
            start == len ==> i == n_chunks(len as int),
            card_search_in_bounds(block@, name@),
            find_chunk(block@, name@, 0) == find_chunk(block@, name@, i),
        decreases len - start,
    {
        let end = if len - start >= FITS_CARDSIZE {
            start + FITS_CARDSIZE
        } else {
            len
        };
        let c = &block[start..end];
        assert(c@ == chunk(block@, i as int));
        if c.len() < 8 {
            // Only the last chunk can be short; the search reaches it only
            // where no full chunk matched.
            assert(false);
            return None;
        }
        if keyword_is(&c[0..8], name) {
            assert(c@.subrange(0, 8) =~= chunk(block@, i as int).take(8));
            return Some(c);
        }
        assert(c@.subrange(0, 8) =~= chunk(block@, i as int).take(8));
        start = end;
        proof {
            i = i + 1;
        }
    }
    None
}

/// The first card in `block` whose keyword is `name`.
pub fn find_card<'a>(block: &'a [u8], name: &str) -> (r: Option<&'a [u8]>)
    requires
        card_search_in_bounds(block@, name.spec_bytes()),
    ensures
        match r {
            Some(c) => find_chunk(block@, name.spec_bytes(), 0) matches Some(i) && c@ == chunk(
                block@,
                i as int,
            ),
            None => find_chunk(block@, name.spec_bytes(), 0) is None,
        },
{
    find_card_bytes(block, name.as_bytes())
}

/// The bytes of the keyword `END`.
pub open spec fn end_keyword() -> Seq<u8> {
    seq![69u8, 78u8, 68u8]
}

/// Block `i` of `data`: bytes `2880 * i .. 2880 * (i + 1)`.
pub open spec fn block(data: Seq<u8>, i: int) -> Seq<u8> {
    data.subrange(2880 * i, 2880 * i + 2880)
}

/// Block `i` of `data` holds an END card.
pub open spec fn block_has_end(data: Seq<u8>, i: int) -> bool {
    find_chunk(block(data, i), end_keyword(), 0) is Some
}

/// The index of the first whole block of `data_slice` that holds an END
/// card; `NoEndBlock` where no whole block does. A partial block at the end
/// is not searched.
pub fn find_end_block(data_slice: &[u8]) -> (r: Result<usize, FitsError>)
    ensures
        match r {
            Ok(i) => i < data_slice@.len() / 2880 && block_has_end(data_slice@, i as int) && forall|
                j: int,
            |
                0 <= j < i ==> !block_has_end(data_slice@, j),
            Err(e) => e is NoEndBlock && forall|j: int|
                0 <= j < data_slice@.len() / 2880 ==> !block_has_end(data_slice@, j),
        },
{
    let len = data_slice.len();
    let n = len / FITS_BLOCKSIZE;
    let end_name: [u8; 3] = [69u8, 78u8, 68u8];
    let name: &[u8] = end_name.as_slice();
    assert(name@ =~= end_keyword());
    let mut i: usize = 0;
    while i < n
        invariant
            len == data_slice@.len(),
            n == len / 2880,
            i <= n,
            name@ == end_keyword(),
            forall|j: int| 0 <= j < i ==> !block_has_end(data_slice@, j),
        decreases n - i,
    {
        assert(i * 2880 + 2880 <= len) by (nonlinear_arith)
            requires
                i < n,
                n == len / 2880,
        ;
        let start = i * FITS_BLOCKSIZE;
        let b = &data_slice[start..start + FITS_BLOCKSIZE];
        assert(b@ == block(data_slice@, i as int));
        if find_card_bytes(b, name).is_some() {
            return Ok(i);
        }
        i = i + 1;
    }
    Err(FitsError::NoEndBlock)
}

/// The bytes `SIMPLE  ` that open every FITS file.
pub open spec fn simple_signature() -> Seq<u8> {
    seq![83u8, 73u8, 77u8, 80u8, 76u8, 69u8, 32u8, 32u8]
}

/// `data` starts with `SIMPLE  `.
pub open spec fn spec_is_fits(data: Seq<u8>) -> bool {
    data.len() >= 8 && data.take(8) == simple_signature()
}

/// Whether `data` starts the way a FITS file must, with `SIMPLE  `.
pub fn check_file_validity(data: &[u8]) -> (b: bool)
    ensures
        b == spec_is_fits(data@),
{
    if data.len() < 8 {
        return false;
    }
    let sig: [u8; 8] = [83u8, 73u8, 77u8, 80u8, 76u8, 69u8, 32u8, 32u8];
    let mut k: usize = 0;
    while k < 8
        invariant
            data@.len() >= 8,
            k <= 8,
            sig@ == simple_signature(),
            forall|m: int| 0 <= m < k ==> data@[m] == simple_signature()[m],
        decreases 8 - k,
    {
        if data[k] != sig[k] {
            assert(data@.take(8)[k as int] != simple_signature()[k as int]);
            return false;
        }
        k = k + 1;
    }
    assert(data@.take(8) =~= simple_signature());
    true
}

/// Checks that bytes read from a file are a FITS file, and hands them back.
pub fn validate_file_data(data: Vec<u8>) -> (r: Result<Vec<u8>, FitsError>)
    ensures
        match r {
            Ok(d) => spec_is_fits(data@) && d@ == data@,
            Err(e) => !spec_is_fits(data@) && e is InvalidFile,
        },
{
    if !check_file_validity(data.as_slice()) {
        return Err(FitsError::InvalidFile);
    }
    Ok(data)
}

/// A keyword field that holds a name of at most 8 bytes followed by spaces
/// (none for an 8-byte name such as `XTENSION`) is a card of that name.
pub proof fn lemma_padded_keyword_matches(kw: Seq<u8>, name: Seq<u8>)
    requires
        name.len() <= 8,
        kw.len() == 8,
        forall|j: int| 0 <= j < name.len() ==> kw[j] == name[j],
        forall|j: int| name.len() <= j < 8 ==> kw[j] == 32u8,
    ensures
        keyword_matches(kw, name),
{
    assert(kw.take(name.len() as int) =~= name);
}

proof fn lemma_find_chunk_from(block: Seq<u8>, name: Seq<u8>, from: nat, i: nat)
    requires
        from <= i < n_chunks(block.len() as int),
        chunk_matches(block, name, i as int),
    ensures
        find_chunk(block, name, from) matches Some(j) && from <= j <= i,
    decreases i - from,
{
    if from < i && !chunk_matches(block, name, from as int) {
        lemma_find_chunk_from(block, name, from + 1, i);
    }
}

/// Where a full card of `block` holds `name` (at most 8 bytes) padded with
/// spaces in its keyword field, the search finds a card of that name, at
/// that position or before it.
pub proof fn lemma_find_card_finds_padded(block: Seq<u8>, name: Seq<u8>, i: nat)
    requires
        name.len() <= 8,
        80 * i + 80 <= block.len(),
        block.subrange(80 * i as int, 80 * i as int + 8) == name + Seq::new((8 - name.len()) as nat, |j: int| 32u8),
    ensures
        find_chunk(block, name, 0) matches Some(k) && k <= i && chunk_matches(block, name, k as int),
{
    let kw = chunk(block, i as int).take(8);
    let padded = name + Seq::new((8 - name.len()) as nat, |j: int| 32u8);
    assert(kw =~= block.subrange(80 * i as int, 80 * i as int + 8));
    assert forall|j: int| 0 <= j < name.len() implies kw[j] == name[j] by {
        assert(padded[j] == name[j]);
    }
    assert forall|j: int| name.len() <= j < 8 implies kw[j] == 32u8 by {
        assert(padded[j] == 32u8);
    }
    lemma_padded_keyword_matches(kw, name);
    lemma_find_chunk_from(block, name, 0, i);
    lemma_find_chunk_found(block, name, 0);
}

proof fn lemma_find_chunk_found(block: Seq<u8>, name: Seq<u8>, from: nat)
    ensures
        find_chunk(block, name, from) matches Some(k) ==> chunk_matches(block, name, k as int),
    decreases n_chunks(block.len() as int) - from,
{
    if from < n_chunks(block.len() as int) && !chunk_matches(block, name, from as int) {
        lemma_find_chunk_found(block, name, from + 1);
    }
}

} // verus!
