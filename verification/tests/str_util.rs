use wp::str_util::{
    ansi_to_utf8, clone_utf16, u32_to_decimal, unit_to_char, utf16_len, utf16_to_utf8, utf8_to_utf16,
};

#[test]
fn utf16_text_stops_at_the_first_zero() {
    let units: Vec<u16> = vec![0x48, 0x69, 0, 0x21];
    assert_eq!(utf16_to_utf8(&units), "Hi");
    assert_eq!(utf16_len(&units), 2);
}

#[test]
fn utf16_text_without_zero_ends_with_the_slice() {
    let units: Vec<u16> = vec![0x48, 0x69];
    assert_eq!(utf16_to_utf8(&units), "Hi");
    assert_eq!(utf16_len(&units), 2);
    assert_eq!(utf16_to_utf8(&[]), "");
}

#[test]
fn utf16_surrogate_units_become_replacement_characters() {
    let units: Vec<u16> = vec![0x41, 0xD83D, 0xDE00, 0x42, 0];
    assert_eq!(utf16_to_utf8(&units), "A\u{FFFD}\u{FFFD}B");
}

#[test]
fn utf16_units_outside_ascii_keep_their_code_point() {
    let units: Vec<u16> = vec![0x00E9, 0x4E2D, 0xFFFF, 0xD7FF, 0xE000, 0];
    assert_eq!(utf16_to_utf8(&units), "\u{E9}\u{4E2D}\u{FFFF}\u{D7FF}\u{E000}");
}

#[test]
fn ansi_bytes_are_code_points() {
    let bytes: Vec<u8> = vec![0x41, 0xE9, 0xFF, 0, 0x42];
    assert_eq!(ansi_to_utf8(&bytes), "A\u{E9}\u{FF}");
    assert_eq!(ansi_to_utf8(&[]), "");
    assert_eq!(ansi_to_utf8(&[0]), "");
}

#[test]
fn utf8_to_utf16_ends_with_a_zero() {
    assert_eq!(utf8_to_utf16("ping.exe"), vec![0x70, 0x69, 0x6E, 0x67, 0x2E, 0x65, 0x78, 0x65, 0]);
    assert_eq!(utf8_to_utf16(""), vec![0]);
}

#[test]
fn utf8_to_utf16_writes_surrogate_pairs() {
    assert_eq!(utf8_to_utf16("a\u{1F600}\u{E9}"), vec![0x61, 0xD83D, 0xDE00, 0xE9, 0]);
    assert_eq!(utf8_to_utf16("\u{10000}\u{10FFFF}"), vec![0xD800, 0xDC00, 0xDBFF, 0xDFFF, 0]);
    assert_eq!(utf8_to_utf16("\u{FFFF}"), vec![0xFFFF, 0]);
}

#[test]
fn utf8_to_utf16_agrees_with_std() {
    for text in ["", "CUSTOM", "h\u{E9}llo", "\u{4E2D}\u{6587}", "x\u{1F680}y\u{10FFFF}"] {
        let mut expected: Vec<u16> = text.encode_utf16().collect();
        expected.push(0);
        assert_eq!(utf8_to_utf16(text), expected);
    }
}

#[test]
fn clone_utf16_copies_up_to_the_first_zero() {
    assert_eq!(clone_utf16(&[0x41, 0x42, 0, 0x43, 0]), vec![0x41, 0x42, 0]);
    assert_eq!(clone_utf16(&[0x41, 0x42]), vec![0x41, 0x42, 0]);
    assert_eq!(clone_utf16(&[]), vec![0]);
    assert_eq!(clone_utf16(&[0xD800, 0]), vec![0xD800, 0]);
}

#[test]
fn decimal_numerals() {
    assert_eq!(u32_to_decimal(0), "0");
    assert_eq!(u32_to_decimal(7), "7");
    assert_eq!(u32_to_decimal(10), "10");
    assert_eq!(u32_to_decimal(126), "126");
    assert_eq!(u32_to_decimal(65535), "65535");
    assert_eq!(u32_to_decimal(4294967295), "4294967295");
    assert_eq!(u32_to_decimal(1000000), "1000000");
}

#[test]
fn a_unit_is_its_code_point_unless_a_surrogate() {
    assert_eq!(unit_to_char(0), '\0');
    assert_eq!(unit_to_char(0x41), 'A');
    assert_eq!(unit_to_char(0xD7FF), '\u{D7FF}');
    assert_eq!(unit_to_char(0xD800), '\u{FFFD}');
    assert_eq!(unit_to_char(0xDBFF), '\u{FFFD}');
    assert_eq!(unit_to_char(0xDC00), '\u{FFFD}');
    assert_eq!(unit_to_char(0xDFFF), '\u{FFFD}');
    assert_eq!(unit_to_char(0xE000), '\u{E000}');
    assert_eq!(unit_to_char(0xFFFF), '\u{FFFF}');
}

#[test]
fn every_unit_that_is_no_surrogate_comes_back_from_utf16() {
    for unit in 1..=0xFFFFu16 {
        if (0xD800..=0xDFFF).contains(&unit) {
            continue;
        }
        let text = utf16_to_utf8(&[unit, 0]);
        assert_eq!(utf8_to_utf16(&text), vec![unit, 0]);
    }
}
