//! The errors that reading a FITS file can end in.
use crate::numeric::{decimal, decimal_chars};
use crate::text::{chars_of, string_from_chars};
use vstd::prelude::*;
use vstd::string::StringExecFns;

verus! {

/// `std::io::Error`, carried by [`FitsError::ReadError`].
#[verifier::external_type_specification]
#[verifier::external_body]
pub struct ExIoError(std::io::Error);

/// `std::num::ParseFloatError`, carried by [`FitsError::ParseError`].
#[verifier::external_type_specification]
#[verifier::external_body]
pub struct ExParseFloatError(std::num::ParseFloatError);

/// `std::str::Utf8Error`, carried by [`FitsError::Utf8Error`].
#[verifier::external_type_specification]
#[verifier::external_body]
pub struct ExUtf8Error(std::str::Utf8Error);

/// Errors met while reading and parsing a FITS file.
#[derive(Debug)]
pub enum FitsError {
    /// A header card that is not 80 bytes long; holds the length found.
    InvalidCardLength(usize),
    /// A header card without the `=` separator.
    MissingEqualSign,
    /// A header value that is no number.
    ParseError(std::num::ParseFloatError),
    /// Bytes that are not UTF-8.
    Utf8Error(std::str::Utf8Error),
    /// The file ended early.
    UnexpectedEof,
    /// A BITPIX value other than 8, 16, 32, -32, 64, -64.
    InvalidBitpix(i32),
    /// No BITPIX value.
    MissingBitpix,
    /// A data length that does not fit.
    InvalidLength,
    /// The file does not start with `SIMPLE  `.
    InvalidFile,
    /// A block index past the data.
    InvalidBlock,
    /// No block holds an END card.
    NoEndBlock,
    /// The file could not be read.
    ReadError(std::io::Error),
    /// A data cube with three axes.
    NAxis3Error,
}

/// The decimal text of `v`, with a minus sign where it is negative.
pub open spec fn signed_decimal(v: int) -> Seq<char> {
    if v < 0 {
        seq!['-'] + decimal((-v) as nat)
    } else {
        decimal(v as nat)
    }
}

/// The text that reports an error whose text does not show an outside
/// value.
pub open spec fn spec_fits_error_message(e: FitsError) -> Option<Seq<char>> {
    match e {
        FitsError::InvalidCardLength(n) => Some(
            "Invalid card length: expected 80, got "@ + decimal(n as nat),
        ),
        FitsError::MissingEqualSign => Some("Invalid header card: missing '=' separator"@),
        FitsError::ParseError(_) => None,
        FitsError::Utf8Error(_) => Some("Invalid UTF-8 sequence"@),
        FitsError::UnexpectedEof => Some("Unexpected end of file"@),
        FitsError::InvalidBitpix(b) => Some(
            "Invalid BITPIX value: "@ + signed_decimal(b as int)
                + " . Allowed values are 8, 16, 32, -32, 64, -64"@,
        ),
        FitsError::MissingBitpix => Some("Missing BITPIX value"@),
        FitsError::InvalidLength => Some("Invalid data length"@),
        FitsError::InvalidFile => Some(
            "Error parsing fits file: the file does not start with 'SIMPLE  '"@,
        ),
        FitsError::InvalidBlock => Some(
            "Error parsing fits file: attempted to find invalid block index"@,
        ),
        FitsError::NoEndBlock => Some("Error parsing fits file: could not file END block"@),
        FitsError::ReadError(_) => None,
        FitsError::NAxis3Error => Some("3D Datacubes are not supported"@),
    }
}

/// The fixed opening of the text of an error that shows an outside value.
pub open spec fn spec_fits_error_prefix(e: FitsError) -> Seq<char> {
    match e {
        FitsError::ParseError(_) => "Failed to parse header value: "@,
        FitsError::ReadError(_) => "Error reading fits file: could not read file "@,
        _ => Seq::empty(),
    }
}

/// An owned copy of a string slice.
fn owned(s: &str) -> (r: String)
    ensures
        r@ == s@,
{
    String::from_str(s)
}

impl FitsError {
    /// The text that reports the error. Where the error carries an outside
    /// error, the text goes on with that error's own text.
    pub fn message(&self) -> (s: String)
        ensures
            match spec_fits_error_message(*self) {
                Some(m) => s@ == m,
                None => s@.len() >= spec_fits_error_prefix(*self).len() && s@.subrange(
                    0,
                    spec_fits_error_prefix(*self).len() as int,
                ) == spec_fits_error_prefix(*self),
            },
    {
        match self {
            FitsError::InvalidCardLength(n) => {
                let mut v = chars_of("Invalid card length: expected 80, got ");
                let mut d = decimal_chars(*n);
                v.append(&mut d);
                string_from_chars(v.as_slice())
            },
            FitsError::MissingEqualSign => owned("Invalid header card: missing '=' separator"),
            FitsError::ParseError(e) => {
                let mut s = owned("Failed to parse header value: ");
                let ghost p = s@;
                let shown = e.to_string();
                s.append(shown.as_str());
                assert(s@.subrange(0, p.len() as int) =~= p);
                s
            },
            FitsError::Utf8Error(_) => owned("Invalid UTF-8 sequence"),
            FitsError::UnexpectedEof => owned("Unexpected end of file"),
            FitsError::InvalidBitpix(b) => {
                let mut v = chars_of("Invalid BITPIX value: ");
                let b = *b;
                if b < 0 {
                    v.push('-');
                    let magnitude: usize = if b == i32::MIN {
                        2147483648usize
                    } else {
                        (-b) as usize
                    };
                    let mut d = decimal_chars(magnitude);
                    v.append(&mut d);
                } else {
                    let mut d = decimal_chars(b as usize);
                    v.append(&mut d);
                }
                let mut tail = chars_of(" . Allowed values are 8, 16, 32, -32, 64, -64");
                v.append(&mut tail);
                assert(v@ =~= "Invalid BITPIX value: "@ + signed_decimal(b as int)
                    + " . Allowed values are 8, 16, 32, -32, 64, -64"@);
                string_from_chars(v.as_slice())
            },
            FitsError::MissingBitpix => owned("Missing BITPIX value"),
            FitsError::InvalidLength => owned("Invalid data length"),
            FitsError::InvalidFile => owned(
                "Error parsing fits file: the file does not start with 'SIMPLE  '",
            ),
            FitsError::InvalidBlock => owned(
                "Error parsing fits file: attempted to find invalid block index",
            ),
            FitsError::NoEndBlock => owned("Error parsing fits file: could not file END block"),
            FitsError::ReadError(e) => {
                let mut s = owned("Error reading fits file: could not read file ");
                let ghost p = s@;
                let shown = e.to_string();
                s.append(shown.as_str());
                assert(s@.subrange(0, p.len() as int) =~= p);
                s
            },
            FitsError::NAxis3Error => owned("3D Datacubes are not supported"),
        }
    }
}

} // verus!
