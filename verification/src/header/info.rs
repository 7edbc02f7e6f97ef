//! The layout of an HDU that its header fixes: bits per pixel, axes, and the
//! size of the data that follows the header.
use crate::constants::FITS_BLOCKSIZE;
use crate::header::{spec_get, FitsHeader};
use crate::numeric::{decimal, decimal_chars};
use crate::text::{chars_of, string_from_chars};
use vstd::prelude::*;

verus! {

/// Keyword of the bits per pixel.
pub const HEADER_BITPIX: &'static str = "BITPIX";
/// Keyword of the number of axes.
pub const HEADER_NAXIS: &'static str = "NAXIS";
/// Keyword of the value scale.
pub const HEADER_BSCALE: &'static str = "BSCALE";
/// Keyword of the value offset.
pub const HEADER_BZERO: &'static str = "BZERO";
/// Keyword of the parameter count.
pub const HEADER_PCOUNT: &'static str = "PCOUNT";
/// Keyword of the group count.
pub const HEADER_GCOUNT: &'static str = "GCOUNT";

/// Why a header does not describe an HDU layout.
#[derive(Debug, PartialEq, Eq, Clone, Copy)]
pub enum HeaderError {
    /// No readable BITPIX value.
    MissingBitpix,
    /// No readable NAXIS value.
    MissingNaxis,
    /// The header names `naxis` axes, but the NAXISn card for axis `axis`
    /// is missing or unreadable.
    MissingAxis { naxis: usize, axis: usize },
}

/// The integer parts of an HDU's layout.
#[derive(Debug)]
pub struct BasicHDUInfo {
    pub bitpix: isize,
    pub naxis: usize,
    pub axes: Vec<usize>,
    pub n_pixels: usize,
    pub n_bytes: usize,
}

/// The keyword text `NAXISn` of axis `n`.
pub open spec fn naxis_key(n: nat) -> Seq<char> {
    seq!['N', 'A', 'X', 'I', 'S'] + decimal(n)
}

type Cards = Seq<(Seq<char>, Option<Seq<char>>, Option<Seq<char>>)>;

/// The length of axis `n` as the header gives it.
pub open spec fn axis_len(h: Cards, n: nat) -> Option<usize> {
    spec_get::<usize>(h, naxis_key(n))
}

/// The first axis among `from + 1 ..= naxis` whose length the header lacks.
pub open spec fn first_missing_axis(h: Cards, from: nat, naxis: nat) -> Option<nat>
    decreases naxis - from,
{
    if from >= naxis {
        None
    } else if axis_len(h, from + 1) is None {
        Some(from + 1)
    } else {
        first_missing_axis(h, from + 1, naxis)
    }
}

/// The lengths of axes `1 ..= naxis`.
pub open spec fn spec_axes(h: Cards, naxis: nat) -> Seq<usize> {
    Seq::new(naxis, |i: int| axis_len(h, (i + 1) as nat).unwrap())
}

/// The product of all the numbers in `s`.
pub open spec fn seq_product(s: Seq<usize>) -> int
    decreases s.len(),
{
    if s.len() == 0 {
        1
    } else {
        seq_product(s.drop_last()) * s.last()
    }
}

/// Every running product of `s`, taken left to right, fits in a `usize`.
pub open spec fn products_fit(s: Seq<usize>) -> bool {
    forall|k: int| 0 <= k <= s.len() ==> #[trigger] seq_product(s.take(k)) <= usize::MAX
}

/// The magnitude of `b`.
pub open spec fn abs(b: int) -> int {
    if b < 0 {
        -b
    } else {
        b
    }
}

/// The number of pixels: the product of the axes, none where there are none.
pub open spec fn spec_n_pixels(axes: Seq<usize>) -> int {
    if axes.len() == 0 {
        0
    } else {
        seq_product(axes)
    }
}

/// The bytes per pixel times the group count.
pub open spec fn group_factor(bitpix: isize, gcount: usize) -> int {
    (abs(bitpix as int) / 8) * gcount
}

/// The size of the data: `(|BITPIX| / 8) * GCOUNT * (PCOUNT + pixels)`.
pub open spec fn spec_n_bytes(bitpix: isize, gcount: usize, pcount: usize, n_pixels: int) -> int {
    group_factor(bitpix, gcount) * (pcount + n_pixels)
}

/// PCOUNT, where the header gives it, else 0.
pub open spec fn spec_pcount(h: Cards) -> usize {
    match spec_get::<usize>(h, HEADER_PCOUNT@) {
        Some(p) => p,
        None => 0,
    }
}

/// GCOUNT, where the header gives it, else 1.
pub open spec fn spec_gcount(h: Cards) -> usize {
    match spec_get::<usize>(h, HEADER_GCOUNT@) {
        Some(g) => g,
        None => 1,
    }
}

/// The fields a header must give, or the first that it lacks: BITPIX, then
/// NAXIS, then NAXIS1, NAXIS2, ... in order.
pub open spec fn spec_layout_fields(h: Cards) -> Result<(isize, usize, Seq<usize>), HeaderError> {
    match spec_get::<isize>(h, HEADER_BITPIX@) {
        None => Err(HeaderError::MissingBitpix),
        Some(bitpix) => match spec_get::<usize>(h, HEADER_NAXIS@) {
            None => Err(HeaderError::MissingNaxis),
            Some(naxis) => match first_missing_axis(h, 0, naxis as nat) {
                Some(a) => Err(HeaderError::MissingAxis { naxis, axis: a as usize }),
                None => Ok((bitpix, naxis, spec_axes(h, naxis as nat))),
            },
        },
    }
}

/// The layout arithmetic of the header stays within `usize`: `|BITPIX|`
/// exists, every running product of the axes fits, and so do the factors
/// and the product of the data size.
pub open spec fn sizes_fit(bitpix: isize, axes: Seq<usize>, pcount: usize, gcount: usize) -> bool {
    &&& bitpix != isize::MIN
    &&& products_fit(axes)
    &&& group_factor(bitpix, gcount) <= usize::MAX
    &&& pcount + spec_n_pixels(axes) <= usize::MAX
    &&& spec_n_bytes(bitpix, gcount, pcount, spec_n_pixels(axes)) <= usize::MAX
}

/// Where the header gives a layout, computing its sizes does not overflow.
pub open spec fn spec_layout_fits(h: Cards) -> bool {
    match spec_layout_fields(h) {
        Ok((bitpix, _naxis, axes)) => sizes_fit(bitpix, axes, spec_pcount(h), spec_gcount(h)),
        Err(_) => true,
    }
}

/// The layout that a header describes, as the fields of a `BasicHDUInfo`:
/// `(bitpix, naxis, axes, n_pixels, n_bytes)`.
pub open spec fn spec_hdu_info(h: Cards) -> Result<(isize, usize, Seq<usize>, int, int), HeaderError> {
    match spec_layout_fields(h) {
        Err(e) => Err(e),
        Ok((bitpix, naxis, axes)) => Ok(
            (
                bitpix,
                naxis,
                axes,
                spec_n_pixels(axes),
                spec_n_bytes(bitpix, spec_gcount(h), spec_pcount(h), spec_n_pixels(axes)),
            ),
        ),
    }
}

proof fn lemma_first_missing_none(h: Cards, from: nat, naxis: nat, k: nat)
    requires
        first_missing_axis(h, from, naxis) is None,
        from < k <= naxis,
    ensures
        axis_len(h, k) is Some,
    decreases naxis - from,
{
    if from + 1 < k {
        lemma_first_missing_none(h, from + 1, naxis, k);
    }
}

proof fn lemma_all_axes_present(h: Cards, from: nat, naxis: nat)
    requires
        forall|k: nat| from < k <= naxis ==> #[trigger] axis_len(h, k) is Some,
    ensures
        first_missing_axis(h, from, naxis) is None,
    decreases naxis - from,
{
    if from < naxis {
        assert(axis_len(h, from + 1) is Some);
        lemma_all_axes_present(h, from + 1, naxis);
    }
}

/// A header describes a layout exactly when BITPIX, NAXIS and every NAXISn
/// up to NAXIS can be read; the layout then has one length per axis, in
/// axis order.
pub proof fn lemma_layout_complete(h: Cards)
    ensures
        spec_hdu_info(h) is Ok <==> ({
            &&& spec_get::<isize>(h, HEADER_BITPIX@) is Some
            &&& spec_get::<usize>(h, HEADER_NAXIS@) matches Some(naxis)
            &&& forall|k: nat| 1 <= k <= naxis ==> #[trigger] axis_len(h, k) is Some
        }),
        spec_hdu_info(h) matches Ok((_, naxis, axes, _, _)) ==> axes.len() == naxis && forall|
            i: int,
        |
            0 <= i < naxis ==> Some(#[trigger] axes[i]) == axis_len(h, (i + 1) as nat),
{
    if let Some(naxis) = spec_get::<usize>(h, HEADER_NAXIS@) {
        if first_missing_axis(h, 0, naxis as nat) is None {
            assert forall|k: nat| 1 <= k <= naxis implies #[trigger] axis_len(h, k) is Some by {
                lemma_first_missing_none(h, 0, naxis as nat, k);
            }
        }
        if forall|k: nat| 1 <= k <= naxis ==> #[trigger] axis_len(h, k) is Some {
            lemma_all_axes_present(h, 0, naxis as nat);
        }
        if spec_hdu_info(h) is Ok {
            assert forall|i: int| 0 <= i < naxis implies Some(
                #[trigger] spec_axes(h, naxis as nat)[i],
            ) == axis_len(h, (i + 1) as nat) by {
                lemma_first_missing_none(h, 0, naxis as nat, (i + 1) as nat);
            }
        }
    }
}

/// The keyword of axis `n`.
fn naxis_key_string(n: usize) -> (s: String)
    ensures
        s@ == naxis_key(n as nat),
{
    let mut v: Vec<char> = vec!['N', 'A', 'X', 'I', 'S'];
    let mut d = decimal_chars(n);
    v.append(&mut d);
    assert(v@ =~= naxis_key(n as nat));
    string_from_chars(v.as_slice())
}

impl BasicHDUInfo {
    /// Reads the fields that the layout needs from `header`, in the order
    /// BITPIX, NAXIS, NAXIS1, NAXIS2, ..., stopping at the first one missing.
    fn read_layout_fields(header: &FitsHeader) -> (r: Result<(isize, usize, Vec<usize>), HeaderError>)
        ensures
            match r {
                Ok((b, n, axes)) => spec_layout_fields(header@) == Ok::<_, HeaderError>((b, n, axes@)),
                Err(e) => spec_layout_fields(header@) == Err::<(isize, usize, Seq<usize>), _>(e),
            },
    {
        let bitpix: isize = match header.get::<isize>(HEADER_BITPIX) {
            Some(b) => b,
            None => return Err(HeaderError::MissingBitpix),
        };
        let naxis: usize = match header.get::<usize>(HEADER_NAXIS) {
            Some(n) => n,
            None => return Err(HeaderError::MissingNaxis),
        };
        let mut axes: Vec<usize> = Vec::new();
        let mut i: usize = 0;
        while i < naxis
            invariant
                i <= naxis,
                spec_get::<usize>(header@, HEADER_NAXIS@) == Some(naxis),
                spec_get::<isize>(header@, HEADER_BITPIX@) == Some(bitpix),
                first_missing_axis(header@, 0, naxis as nat) == first_missing_axis(
                    header@,
                    i as nat,
                    naxis as nat,
                ),
                axes@ == spec_axes(header@, naxis as nat).take(i as int),
            decreases naxis - i,
        {
            let key = naxis_key_string(i + 1);
            match header.get::<usize>(key.as_str()) {
                Some(len) => {
                    axes.push(len);
                },
                None => {
                    assert(axis_len(header@, (i + 1) as nat) is None);
                    assert(first_missing_axis(header@, i as nat, naxis as nat) == Some(
                        (i + 1) as nat,
                    ));
                    return Err(HeaderError::MissingAxis { naxis, axis: i + 1 });
                },
            }
            i = i + 1;
            assert(axes@ =~= spec_axes(header@, naxis as nat).take(i as int));
        }
        assert(axes@ =~= spec_axes(header@, naxis as nat));
        Ok((bitpix, naxis, axes))
    }

    /// The running product of `axes`, `None` once it exceeds `usize::MAX`.
    fn checked_product(axes: &[usize]) -> (r: Option<usize>)
        ensures
            match r {
                Some(p) => products_fit(axes@) && p == seq_product(axes@),
                None => !products_fit(axes@),
            },
    {
        let mut p: usize = 1;
        let mut k: usize = 0;
        assert(axes@.take(0) =~= Seq::<usize>::empty());
        while k < axes.len()
            invariant
                k <= axes@.len(),
                p == seq_product(axes@.take(k as int)),
                forall|j: int| 0 <= j <= k ==> #[trigger] seq_product(axes@.take(j)) <= usize::MAX,
            decreases axes@.len() - k,
        {
            assert(axes@.take(k + 1).drop_last() =~= axes@.take(k as int));
            match p.checked_mul(axes[k]) {
                Some(q) => {
                    p = q;
                },
                None => {
                    assert(seq_product(axes@.take(k + 1)) > usize::MAX);
                    return None;
                },
            }
            k = k + 1;
        }
        assert(axes@.take(k as int) =~= axes@);
        Some(p)
    }

    /// `(n_pixels, n_bytes)` for the given fields, `None` where the
    /// arithmetic leaves `usize`.
    fn checked_sizes(bitpix: isize, axes: &[usize], pcount: usize, gcount: usize) -> (r: Option<
        (usize, usize),
    >)
        ensures
            match r {
                Some((p, b)) => sizes_fit(bitpix, axes@, pcount, gcount) && p == spec_n_pixels(
                    axes@,
                ) && b == spec_n_bytes(bitpix, gcount, pcount, spec_n_pixels(axes@)),
                None => !sizes_fit(bitpix, axes@, pcount, gcount),
            },
    {
        if bitpix == isize::MIN {
            return None;
        }
        let product = match Self::checked_product(axes) {
            Some(p) => p,
            None => return None,
        };
        let n_pixels: usize = if axes.len() == 0 {
            0
        } else {
            product
        };
        let magnitude: usize = if bitpix < 0 {
            (-bitpix) as usize
        } else {
            bitpix as usize
        };
        let per_pixel = magnitude / 8;
        let factor = match per_pixel.checked_mul(gcount) {
            Some(f) => f,
            None => return None,
        };
        let count = match pcount.checked_add(n_pixels) {
            Some(c) => c,
            None => return None,
        };
        match factor.checked_mul(count) {
            Some(n_bytes) => Some((n_pixels, n_bytes)),
            None => None,
        }
    }

    /// Whether the sizes of the layout that `header` describes fit in a
    /// `usize`; `true` for a header that describes no layout.
    pub fn layout_fits(header: &FitsHeader) -> (b: bool)
        ensures
            b == spec_layout_fits(header@),
    {
        match Self::read_layout_fields(header) {
            Ok((bitpix, _naxis, axes)) => {
                let pcount: usize = match header.get::<usize>(HEADER_PCOUNT) {
                    Some(p) => p,
                    None => 0,
                };
                let gcount: usize = match header.get::<usize>(HEADER_GCOUNT) {
                    Some(g) => g,
                    None => 1,
                };
                Self::checked_sizes(bitpix, axes.as_slice(), pcount, gcount).is_some()
            },
            Err(_) => true,
        }
    }

    /// The layout that `header` describes, or the first mandatory keyword
    /// that it lacks.
    pub fn from_header(header: &FitsHeader) -> (r: Result<Self, HeaderError>)
        requires
            spec_layout_fits(header@),
        ensures
            match r {
                Ok(info) => spec_hdu_info(header@) == Ok::<_, HeaderError>(
                    (
                        info.bitpix,
                        info.naxis,
                        info.axes@,
                        info.n_pixels as int,
                        info.n_bytes as int,
                    ),
                ),
                Err(e) => spec_hdu_info(header@) == Err::<(isize, usize, Seq<usize>, int, int), _>(
                    e,
                ),
            },
            r matches Ok(info) ==> info.n_bytes == (if info.bitpix < 0 {
                -info.bitpix
            } else {
                info.bitpix as int
            }) / 8 * spec_gcount(header@) * (spec_pcount(header@) + info.n_pixels),
            r matches Ok(info) ==> info.axes@.len() == info.naxis,
    {
        let (bitpix, naxis, axes) = match Self::read_layout_fields(header) {
            Ok(f) => f,
            Err(e) => return Err(e),
        };
        let pcount: usize = match header.get::<usize>(HEADER_PCOUNT) {
            Some(p) => p,
            None => 0,
        };
        let gcount: usize = match header.get::<usize>(HEADER_GCOUNT) {
            Some(g) => g,
            None => 1,
        };
        match Self::checked_sizes(bitpix, axes.as_slice(), pcount, gcount) {
            Some((n_pixels, n_bytes)) => Ok(BasicHDUInfo { bitpix, naxis, axes, n_pixels, n_bytes }),
            None => {
                assert(false);
                Err(HeaderError::MissingBitpix)
            },
        }
    }
}

/// The number of whole blocks that hold `n_bytes` of data.
pub open spec fn spec_data_blocks(n_bytes: int) -> int {
    (n_bytes + FITS_BLOCKSIZE - 1) / FITS_BLOCKSIZE as int
}

/// The number of 2880-byte blocks that the HDU's data takes.
pub fn calculate_data_n_blocks(basic_info: &BasicHDUInfo) -> (n: usize)
    ensures
        n == spec_data_blocks(basic_info.n_bytes as int),
        n * FITS_BLOCKSIZE >= basic_info.n_bytes,
        n * FITS_BLOCKSIZE < basic_info.n_bytes + FITS_BLOCKSIZE,
{
    let n_bytes = basic_info.n_bytes;
    let q = n_bytes / FITS_BLOCKSIZE;
    if n_bytes % FITS_BLOCKSIZE == 0 {
        q
    } else {
        q + 1
    }
}

/// The size of the data is the bytes per pixel, `|BITPIX| / 8`, times
/// GCOUNT times PCOUNT plus the pixels: 4 bytes a pixel for BITPIX 32 and
/// -32, 8 for 64 and -64, whatever the sign.
pub proof fn lemma_data_size(h: Cards)
    ensures
        spec_hdu_info(h) matches Ok((bitpix, naxis, axes, n_pixels, n_bytes)) ==> {
            &&& n_bytes == (if bitpix < 0 {
                -bitpix
            } else {
                bitpix as int
            }) / 8 * spec_gcount(h) * (spec_pcount(h) + n_pixels)
            &&& (bitpix == 32 || bitpix == -32) ==> n_bytes == 4 * spec_gcount(h) * (spec_pcount(
                h,
            ) + n_pixels)
            &&& (bitpix == 64 || bitpix == -64) ==> n_bytes == 8 * spec_gcount(h) * (spec_pcount(
                h,
            ) + n_pixels)
            &&& axes.len() == naxis
        },
{
}

/// The text that reports a header error.
pub open spec fn spec_header_error_message(e: HeaderError) -> Seq<char> {
    match e {
        HeaderError::MissingBitpix => "Missing mandatory BITPIX header"@,
        HeaderError::MissingNaxis => "Missing mandatory NAXIS header"@,
        HeaderError::MissingAxis { naxis, axis } => "HDU has "@ + decimal(naxis as nat)
            + " axes but "@ + naxis_key(axis as nat) + " header is not preset"@,
    }
}

impl HeaderError {
    /// The text that reports the error.
    pub fn message(&self) -> (s: String)
        ensures
            s@ == spec_header_error_message(*self),
    {
        match self {
            HeaderError::MissingBitpix => chars_to_string_of("Missing mandatory BITPIX header"),
            HeaderError::MissingNaxis => chars_to_string_of("Missing mandatory NAXIS header"),
            HeaderError::MissingAxis { naxis, axis } => {
                let mut v = chars_of("HDU has ");
                let mut n = decimal_chars(*naxis);
                v.append(&mut n);
                let mut mid = chars_of(" axes but ");
                v.append(&mut mid);
                let mut k = chars_of(naxis_key_string(*axis).as_str());
                v.append(&mut k);
                let mut tail = chars_of(" header is not preset");
                v.append(&mut tail);
                string_from_chars(v.as_slice())
            },
        }
    }
}

/// An owned copy of a string slice.
fn chars_to_string_of(s: &str) -> (r: String)
    ensures
        r@ == s@,
{
    let v = chars_of(s);
    string_from_chars(v.as_slice())
}

/// The product of the axes from the third on: the number of image planes.
pub open spec fn spec_plane_count(naxis: usize, axes: Seq<usize>) -> int {
    if naxis <= 2 {
        1
    } else {
        seq_product(axes.skip(2))
    }
}

/// The product of a single number is that number.
pub proof fn lemma_product_one(a: Seq<usize>)
    requires
        a.len() == 1,
    ensures
        seq_product(a) == a[0],
{
    assert(a.drop_last() =~= Seq::<usize>::empty());
    assert(seq_product(a.drop_last()) == 1);
    assert(a.last() == a[0]);
    assert(seq_product(a) == seq_product(a.drop_last()) * a.last());
}

/// The product of a list of at least two numbers is its first times its
/// second times the product of the rest.
pub proof fn lemma_product_split(a: Seq<usize>)
    requires
        a.len() >= 2,
    ensures
        seq_product(a) == a[0] * a[1] * seq_product(a.skip(2)),
    decreases a.len(),
{
    if a.len() == 2 {
        assert(a.skip(2) =~= Seq::<usize>::empty());
        lemma_product_one(a.drop_last());
    } else {
        let d = a.drop_last();
        lemma_product_split(d);
        assert(a.skip(2).drop_last() =~= d.skip(2));
        assert(a.skip(2).last() == a.last());
        let x = a[0] as int;
        let y = a[1] as int;
        let r = seq_product(d.skip(2));
        let l = a.last() as int;
        assert(x * y * r * l == x * y * (r * l)) by (nonlinear_arith);
    }
}

/// The width, height and plane count of a layout multiply to its number of
/// pixels: the planes are all the axes after the second.
pub proof fn lemma_geometry_covers_pixels(info: BasicHDUInfo, w: usize, h: usize, p: usize)
    requires
        info.axes@.len() == info.naxis,
        info.naxis >= 2,
        w == info.axes@[0],
        h == info.axes@[1],
        p == spec_plane_count(info.naxis, info.axes@),
    ensures
        w * h * p == spec_n_pixels(info.axes@),
{
    lemma_product_split(info.axes@);
    if info.naxis == 2 {
        assert(info.axes@.skip(2) =~= Seq::<usize>::empty());
    }
}

impl BasicHDUInfo {
    /// The width and height of the image (1 for a missing axis) and its
    /// number of planes. `None` where the planes cannot be counted: the
    /// layout claims more than two axes but lists fewer than two, or their
    /// product leaves `usize`.
    pub fn image_geometry(&self) -> (r: Option<(usize, usize, usize)>)
        ensures
            match r {
                Some((w, h, p)) => {
                    &&& w == if self.axes@.len() > 0 {
                        self.axes@[0]
                    } else {
                        1
                    }
                    &&& h == if self.axes@.len() > 1 {
                        self.axes@[1]
                    } else {
                        1
                    }
                    &&& p == spec_plane_count(self.naxis, self.axes@)
                },
                None => self.naxis > 2 && (self.axes@.len() < 2 || !products_fit(
                    self.axes@.skip(2),
                )),
            },
            self.axes@.len() == self.naxis && self.naxis >= 2 ==> (r matches Some((w, h, p)) ==> w
                * h * p == seq_product(self.axes@)),
            self.axes@.len() == 3 && self.naxis == 3 ==> (r matches Some((w, h, p)) ==> p
                == self.axes@[2]),
            self.axes@.len() == 4 && self.naxis == 4 ==> (r matches Some((w, h, p)) ==> p
                == self.axes@[2] * self.axes@[3]),
    {
        proof {
            if self.axes@.len() == self.naxis && self.naxis >= 2 {
                lemma_product_split(self.axes@);
            }
            if self.axes@.len() == 3 {
                lemma_product_one(self.axes@.skip(2));
            }
            if self.axes@.len() == 4 {
                let t = self.axes@.skip(2);
                lemma_product_one(t.drop_last());
            }
        }
        let width = if self.axes.len() > 0 {
            self.axes[0]
        } else {
            1
        };
        let height = if self.axes.len() > 1 {
            self.axes[1]
        } else {
            1
        };
        if self.naxis <= 2 {
            return Some((width, height, 1));
        }
        if self.axes.len() < 2 {
            return None;
        }
        let rest = &self.axes.as_slice()[2..self.axes.len()];
        assert(rest@ =~= self.axes@.skip(2));
        match Self::checked_product(rest) {
            Some(p) => Some((width, height, p)),
            None => None,
        }
    }
}

} // verus!
