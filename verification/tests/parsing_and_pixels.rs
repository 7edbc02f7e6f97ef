use fits_viewer::errors::FitsError;
use fits_viewer::header::parser::{check_file_validity, find_card, find_end_block, validate_file_data};
use fits_viewer::image::image::{decode_i16, decode_i32, decode_i64, decode_u8};
use fits_viewer::numeric::{decimal_chars, parse_integer};
use fits_viewer::text::{chars_of, contains_chars, lex_less, string_from_chars, trim_chars};

fn block(cards: &[&str]) -> Vec<u8> {
    let mut b = vec![b' '; 2880];
    for (i, c) in cards.iter().enumerate() {
        for (j, byte) in c.bytes().enumerate() {
            b[i * 80 + j] = byte;
        }
    }
    b
}

#[test]
fn find_card_matches_padded_keyword() {
    let b = block(&["SIMPLE  =                    T", "NAXIS1  =                   10", "NAXIS   =                    2"]);
    let found = find_card(&b, "NAXIS").unwrap();
    assert_eq!(&found[0..30], b"NAXIS   =                    2".as_slice());
    assert_eq!(found.len(), 80);
    assert!(find_card(&b, "NAXIS1").is_some());
    assert!(find_card(&b, "END").is_none());
    assert!(find_card(&b, "TOOLONGKEY").is_none());
}

#[test]
fn find_card_in_short_tail() {
    let mut b = block(&["SIMPLE  =                    T"])[..80].to_vec();
    b.extend_from_slice(b"END       ");
    let found = find_card(&b, "END").unwrap();
    assert_eq!(found, b"END       ".as_slice());
}

#[test]
fn end_block_is_first_block_with_end() {
    let mut data = block(&["SIMPLE  =                    T"]);
    data.extend(block(&["BITPIX  =                    8", "END"]));
    data.extend(block(&["END"]));
    assert_eq!(find_end_block(&data).unwrap(), 1);
    let only = block(&["SIMPLE  =                    T"]);
    assert!(matches!(find_end_block(&only), Err(FitsError::NoEndBlock)));
    let mut partial = block(&["SIMPLE  =                    T"]);
    partial.extend_from_slice(b"END     ");
    assert!(matches!(find_end_block(&partial), Err(FitsError::NoEndBlock)));
}

#[test]
fn file_signature() {
    assert!(check_file_validity(b"SIMPLE  =   T"));
    assert!(check_file_validity(b"SIMPLE  "));
    assert!(!check_file_validity(b"SIMPLE "));
    assert!(!check_file_validity(b"XTENSION"));
    assert_eq!(validate_file_data(b"SIMPLE  x".to_vec()).unwrap(), b"SIMPLE  x".to_vec());
    assert!(matches!(validate_file_data(b"NOPE".to_vec()), Err(FitsError::InvalidFile)));
}

#[test]
fn big_endian_pixels() {
    assert_eq!(decode_u8(&[1, 2, 255]), vec![1, 2, 255]);
    assert_eq!(decode_i16(&[0x01, 0x02, 0xff, 0xfe]), vec![258, -2]);
    assert_eq!(decode_i32(&[0x00, 0x00, 0x01, 0x00, 0x80, 0x00, 0x00, 0x00]), vec![256, i32::MIN]);
    assert_eq!(
        decode_i64(&[0xff, 0xff, 0xff, 0xff, 0xff, 0xff, 0xff, 0xff, 0, 0, 0, 0, 0, 0, 0, 7]),
        vec![-1, 7]
    );
    assert!(decode_i16(&[]).is_empty());
}

#[test]
fn decimal_text_and_back() {
    assert_eq!(decimal_chars(0), vec!['0']);
    assert_eq!(decimal_chars(1024).into_iter().collect::<String>(), "1024");
    assert_eq!(decimal_chars(usize::MAX).into_iter().collect::<String>(), usize::MAX.to_string());
    let parse = |s: &str, signed| parse_integer(&chars_of(s), signed);
    assert_eq!(parse("123", false), Some(123));
    assert_eq!(parse("+123", false), Some(123));
    assert_eq!(parse("-123", true), Some(-123));
    assert_eq!(parse("-123", false), None);
    assert_eq!(parse("+", true), None);
    assert_eq!(parse("", true), None);
    assert_eq!(parse("1 2", true), None);
    assert_eq!(parse("18446744073709551615", false), Some(18446744073709551615));
    assert_eq!(parse("18446744073709551616", false), None);
    assert_eq!(parse("0000000000000000000000000042", false), Some(42));
}

#[test]
fn text_helpers() {
    let t = trim_chars(&chars_of("\t  a b \u{3000}\n"));
    assert_eq!(string_from_chars(&t), "a b");
    assert!(trim_chars(&chars_of("   ")).is_empty());
    assert!(contains_chars(&chars_of("naxis1"), &chars_of("xis")));
    assert!(contains_chars(&chars_of("abc"), &chars_of("")));
    assert!(!contains_chars(&chars_of("ab"), &chars_of("abc")));
    assert!(lex_less(&chars_of("ab"), &chars_of("abc")));
    assert!(lex_less(&chars_of("B"), &chars_of("a")));
    assert!(!lex_less(&chars_of("b"), &chars_of("b")));
}

#[test]
fn fits_error_messages() {
    assert_eq!(FitsError::InvalidCardLength(79).message(), "Invalid card length: expected 80, got 79");
    assert_eq!(FitsError::MissingEqualSign.message(), "Invalid header card: missing '=' separator");
    assert_eq!(FitsError::UnexpectedEof.message(), "Unexpected end of file");
    assert_eq!(
        FitsError::InvalidBitpix(-7).message(),
        "Invalid BITPIX value: -7 . Allowed values are 8, 16, 32, -32, 64, -64"
    );
    assert_eq!(
        FitsError::InvalidBitpix(i32::MIN).message(),
        "Invalid BITPIX value: -2147483648 . Allowed values are 8, 16, 32, -32, 64, -64"
    );
    assert_eq!(
        FitsError::InvalidBitpix(12).message(),
        "Invalid BITPIX value: 12 . Allowed values are 8, 16, 32, -32, 64, -64"
    );
    assert_eq!(FitsError::MissingBitpix.message(), "Missing BITPIX value");
    assert_eq!(FitsError::InvalidLength.message(), "Invalid data length");
    assert_eq!(
        FitsError::InvalidFile.message(),
        "Error parsing fits file: the file does not start with 'SIMPLE  '"
    );
    assert_eq!(
        FitsError::InvalidBlock.message(),
        "Error parsing fits file: attempted to find invalid block index"
    );
    assert_eq!(FitsError::NoEndBlock.message(), "Error parsing fits file: could not file END block");
    assert_eq!(FitsError::NAxis3Error.message(), "3D Datacubes are not supported");
    let parse_err = "x".parse::<f64>().unwrap_err();
    assert_eq!(
        FitsError::ParseError(parse_err.clone()).message(),
        format!("Failed to parse header value: {}", parse_err)
    );
    let utf8_err = std::str::from_utf8(&[0xff]).unwrap_err();
    assert_eq!(FitsError::Utf8Error(utf8_err).message(), "Invalid UTF-8 sequence");
    let io = std::io::Error::new(std::io::ErrorKind::NotFound, "gone");
    assert_eq!(FitsError::ReadError(io).message(), "Error reading fits file: could not read file gone");
}
