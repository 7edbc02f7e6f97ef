use fits_viewer::constants::is_end_card;
use fits_viewer::header::info::{calculate_data_n_blocks, BasicHDUInfo, HeaderError};
use fits_viewer::header::scan::scan_header_block;
use fits_viewer::header::{Card, FitsHeader};

fn card_bytes(text: &str) -> [u8; 80] {
    let mut a = [b' '; 80];
    for (i, b) in text.bytes().enumerate() {
        a[i] = b;
    }
    a
}

fn card(text: &str) -> Card {
    Card::from_bytes(&card_bytes(text))
}

fn header(lines: &[&str]) -> FitsHeader {
    FitsHeader { cards: lines.iter().map(|l| card(l)).collect() }
}

#[test]
fn logical_true_value_and_comment() {
    let c = card("SIMPLE  =                    T / conforms to FITS standard");
    assert_eq!(c.key, "SIMPLE");
    assert_eq!(c.value.as_deref(), Some("true"));
    assert_eq!(c.comment.as_deref(), Some("conforms to FITS standard"));
}

#[test]
fn logical_false_value() {
    let c = card("EXTEND  =                    F");
    assert_eq!(c.value.as_deref(), Some("false"));
    assert_eq!(c.comment, None);
}

#[test]
fn quoted_string_value_is_unquoted_and_trimmed() {
    let c = card("XTENSION= 'IMAGE   '           / Image extension");
    assert_eq!(c.key, "XTENSION");
    assert_eq!(c.value.as_deref(), Some("IMAGE"));
    assert_eq!(c.comment.as_deref(), Some("Image extension"));
}

#[test]
fn empty_quoted_string_is_an_empty_value() {
    let c = card("OBJECT  = ''");
    assert_eq!(c.value.as_deref(), Some(""));
}

#[test]
fn fortran_exponent_becomes_rust_exponent() {
    let c = card("BSCALE  =              1.0D+00 / scale");
    assert_eq!(c.value.as_deref(), Some("1.0E+00"));
    assert_eq!(c.comment.as_deref(), Some("scale"));
}

#[test]
fn plain_number_value() {
    let c = card("BITPIX  =                  -32 / bits per pixel");
    assert_eq!(c.key, "BITPIX");
    assert_eq!(c.value.as_deref(), Some("-32"));
}

#[test]
fn end_card_has_keyword_only() {
    let bytes = card_bytes("END");
    assert!(is_end_card(&bytes));
    let c = Card::from_bytes(&bytes);
    assert_eq!(c.key, "END");
    assert_eq!(c.value, None);
    assert_eq!(c.comment, None);
    assert!(!is_end_card(&card_bytes("ENDX")));
}

#[test]
fn commentary_card_keeps_text_as_comment() {
    let c = card("COMMENT   This is a comment");
    assert_eq!(c.key, "COMMENT");
    assert_eq!(c.value, None);
    assert_eq!(c.comment.as_deref(), Some("This is a comment"));
}

#[test]
fn blank_card_holds_nothing() {
    let c = card("");
    assert_eq!(c.key, "");
    assert_eq!(c.value, None);
    assert_eq!(c.comment, None);
}

#[test]
fn value_is_split_at_first_slash() {
    let c = card("ORIGIN  = 'http://example'");
    assert_eq!(c.value.as_deref(), Some("'http:"));
    assert_eq!(c.comment.as_deref(), Some("/example'"));
}

#[test]
fn empty_value_before_comment() {
    let c = card("DATE    =     / no value");
    assert_eq!(c.value, None);
    assert_eq!(c.comment.as_deref(), Some("no value"));
}

#[test]
fn invalid_utf8_is_replaced() {
    let mut bytes = card_bytes("KEY     = 'abc'");
    bytes[20] = b'/';
    bytes[21] = 0xff;
    let c = Card::from_bytes(&bytes);
    assert_eq!(c.value.as_deref(), Some("abc"));
    assert_eq!(c.comment.as_deref(), Some("\u{fffd}"));
    let mut odd = card_bytes("NOTE");
    odd[10] = 0xff;
    let c = Card::from_bytes(&odd);
    assert_eq!(c.comment.as_deref(), Some("\u{fffd}"));
}

#[test]
fn lone_quote_is_detected() {
    assert!(Card::has_lone_quote(&card_bytes("KEY     = '   / c")));
    assert!(!Card::has_lone_quote(&card_bytes("KEY     = ''")));
    assert!(!Card::has_lone_quote(&card_bytes("COMMENT '")));
}

#[test]
fn get_value_takes_first_card_with_key() {
    let h = header(&["NAXIS   =                    2", "NAXIS   =                    3", "HISTORY x"]);
    assert_eq!(h.get_value("NAXIS"), Some("2"));
    assert_eq!(h.get_value("HISTORY"), None);
    assert_eq!(h.get_value("MISSING"), None);
}

#[test]
fn typed_lookups_parse_like_str_parse() {
    let h = header(&[
        "A       =                   42",
        "B       =                  -42",
        "C       =                  +17",
        "D       =                 4.5",
        "E       = 99999999999999999999",
        "F       =                    -",
    ]);
    assert_eq!(h.get_int("A"), Some(42));
    assert_eq!(h.get_int("B"), Some(-42));
    assert_eq!(h.get_int("C"), Some(17));
    assert_eq!(h.get_int("D"), None);
    assert_eq!(h.get_int("E"), None);
    assert_eq!(h.get_int("F"), None);
    assert_eq!(h.get::<usize>("A"), Some(42));
    assert_eq!(h.get::<usize>("B"), None);
    assert_eq!(h.get::<usize>("C"), Some(17));
    assert_eq!(h.get::<isize>("B"), Some(-42));
    assert_eq!(h.get::<usize>("Z"), None);
}

#[test]
fn layout_of_a_two_axis_image() {
    let h = header(&[
        "SIMPLE  =                    T",
        "BITPIX  =                   16",
        "NAXIS   =                    2",
        "NAXIS1  =                  100",
        "NAXIS2  =                   50",
        "END",
    ]);
    assert!(BasicHDUInfo::layout_fits(&h));
    let info = BasicHDUInfo::from_header(&h).unwrap();
    assert_eq!(info.bitpix, 16);
    assert_eq!(info.naxis, 2);
    assert_eq!(info.axes, vec![100, 50]);
    assert_eq!(info.n_pixels, 5000);
    assert_eq!(info.n_bytes, 10000);
    assert_eq!(calculate_data_n_blocks(&info), 4);
    assert_eq!(info.image_geometry(), Some((100, 50, 1)));
}

#[test]
fn layout_with_groups_and_negative_bitpix() {
    let h = header(&[
        "BITPIX  =                  -64",
        "NAXIS   =                    3",
        "NAXIS1  =                   10",
        "NAXIS2  =                   10",
        "NAXIS3  =                    4",
        "PCOUNT  =                    5",
        "GCOUNT  =                    2",
    ]);
    let info = BasicHDUInfo::from_header(&h).unwrap();
    assert_eq!(info.n_pixels, 400);
    assert_eq!(info.n_bytes, 8 * 2 * 405);
    assert_eq!(info.image_geometry(), Some((10, 10, 4)));
}

#[test]
fn layout_without_axes_has_no_data() {
    let h = header(&["BITPIX  =                    8", "NAXIS   =                    0"]);
    let info = BasicHDUInfo::from_header(&h).unwrap();
    assert_eq!(info.n_pixels, 0);
    assert_eq!(info.n_bytes, 0);
    assert_eq!(calculate_data_n_blocks(&info), 0);
    assert_eq!(info.image_geometry(), Some((1, 1, 1)));
}

#[test]
fn data_blocks_round_up() {
    let mk = |n_bytes| BasicHDUInfo { bitpix: 8, naxis: 1, axes: vec![n_bytes], n_pixels: n_bytes, n_bytes };
    assert_eq!(calculate_data_n_blocks(&mk(1)), 1);
    assert_eq!(calculate_data_n_blocks(&mk(2880)), 1);
    assert_eq!(calculate_data_n_blocks(&mk(2881)), 2);
}

#[test]
fn missing_keywords_are_reported_in_order() {
    let h = header(&["NAXIS   =                    2"]);
    let e = BasicHDUInfo::from_header(&h).unwrap_err();
    assert_eq!(e, HeaderError::MissingBitpix);
    assert_eq!(e.message(), "Missing mandatory BITPIX header");
    let h = header(&["BITPIX  =                    8"]);
    let e = BasicHDUInfo::from_header(&h).unwrap_err();
    assert_eq!(e, HeaderError::MissingNaxis);
    assert_eq!(e.message(), "Missing mandatory NAXIS header");
    let h = header(&[
        "BITPIX  =                    8",
        "NAXIS   =                    2",
        "NAXIS1  =                    4",
    ]);
    let e = BasicHDUInfo::from_header(&h).unwrap_err();
    assert_eq!(e, HeaderError::MissingAxis { naxis: 2, axis: 2 });
    assert_eq!(e.message(), "HDU has 2 axes but NAXIS2 header is not preset");
}

#[test]
fn overflowing_layout_is_detected() {
    let h = header(&[
        "BITPIX  =                   64",
        "NAXIS   =                    2",
        "NAXIS1  =  4294967296",
        "NAXIS2  =  4294967296",
    ]);
    assert!(!BasicHDUInfo::layout_fits(&h));
    let ok = header(&["NAXIS   =                    2"]);
    assert!(BasicHDUInfo::layout_fits(&ok));
}

#[test]
fn geometry_of_inconsistent_layout() {
    let info = BasicHDUInfo { bitpix: 8, naxis: 3, axes: vec![5], n_pixels: 5, n_bytes: 5 };
    assert_eq!(info.image_geometry(), None);
}

fn block_of(lines: &[&str]) -> Vec<u8> {
    let mut b = vec![b' '; 2880];
    for (i, l) in lines.iter().enumerate() {
        let c = card_bytes(l);
        b[i * 80..i * 80 + 80].copy_from_slice(&c);
    }
    b
}

#[test]
fn scan_stops_after_end_card() {
    let block = block_of(&["SIMPLE  =                    T", "BITPIX  =                    8", "END", "JUNK    =                    1"]);
    let mut cards = Vec::new();
    assert_eq!(scan_header_block(&mut cards, &block), Ok(true));
    assert_eq!(cards.len(), 3);
    assert_eq!(cards[2].key, "END");
    assert_eq!(cards[1].value.as_deref(), Some("8"));
}

#[test]
fn scan_reads_whole_block_without_end() {
    let block = block_of(&["SIMPLE  =                    T"]);
    let mut cards = Vec::new();
    assert_eq!(scan_header_block(&mut cards, &block), Ok(false));
    assert_eq!(cards.len(), 36);
    assert_eq!(cards[1].key, "");
    let next = block_of(&["NAXIS   =                    0", "END"]);
    assert_eq!(scan_header_block(&mut cards, &next), Ok(true));
    assert_eq!(cards.len(), 38);
}

#[test]
fn scan_reports_lone_quote_card() {
    let block = block_of(&["SIMPLE  =                    T", "BAD     = '", "END"]);
    let mut cards = Vec::new();
    assert_eq!(scan_header_block(&mut cards, &block), Err(1));
    assert!(cards.is_empty());
}

#[test]
fn logical_and_integer_lookups_of_read_cards() {
    let h = FitsHeader {
        cards: vec![
            Card::from_bytes(&card_bytes("SIMPLE  =                    T")),
            Card::from_bytes(&card_bytes("BITPIX  =                  -32")),
            Card::from_bytes(&card_bytes("EXTEND  =                    F")),
        ],
    };
    assert_eq!(h.get::<bool>("SIMPLE"), Some(true));
    assert_eq!(h.get::<bool>("EXTEND"), Some(false));
    assert_eq!(h.get::<bool>("BITPIX"), None);
    assert_eq!(h.get::<isize>("BITPIX"), Some(-32));
    assert_eq!(h.get::<usize>("BITPIX"), None);
    assert_eq!(h.get::<isize>("NAXIS"), None);
    assert_eq!(h.get::<i8>("BITPIX"), Some(-32));
    assert_eq!(h.get::<i16>("BITPIX"), Some(-32));
    assert_eq!(h.get::<i32>("BITPIX"), Some(-32));
    assert_eq!(h.get::<u8>("BITPIX"), None);
}

#[test]
fn integer_widths_check_their_range() {
    let h = header(&[
        "A       =                  255",
        "B       =                  256",
        "C       =                -128",
        "D       = 18446744073709551615",
        "E       =                70000",
    ]);
    assert_eq!(h.get::<u8>("A"), Some(255));
    assert_eq!(h.get::<u8>("B"), None);
    assert_eq!(h.get::<u16>("B"), Some(256));
    assert_eq!(h.get::<i8>("C"), Some(-128));
    assert_eq!(h.get::<i8>("A"), None);
    assert_eq!(h.get::<u64>("D"), Some(u64::MAX));
    assert_eq!(h.get::<u32>("D"), None);
    assert_eq!(h.get::<i16>("E"), None);
    assert_eq!(h.get::<i32>("E"), Some(70000));
    assert_eq!(h.get::<u32>("E"), Some(70000));
}

#[test]
fn logical_value_text_must_be_exact() {
    let h = FitsHeader {
        cards: vec![Card { key: "X".to_string(), value: Some("True".to_string()), comment: None }],
    };
    assert_eq!(h.get::<bool>("X"), None);
}
