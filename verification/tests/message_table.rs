use wp::message_table::{decode_message_table, DecodeError};

fn u16_le(value: u16) -> Vec<u8> {
    vec![(value & 0xff) as u8, (value >> 8) as u8]
}

fn u32_le(value: u32) -> Vec<u8> {
    vec![
        (value & 0xff) as u8,
        ((value >> 8) & 0xff) as u8,
        ((value >> 16) & 0xff) as u8,
        (value >> 24) as u8,
    ]
}

/// A record with the given flags and text bytes, its length as it is.
fn record(flags: u16, body: &[u8]) -> Vec<u8> {
    let mut out = u16_le((4 + body.len()) as u16);
    out.extend(u16_le(flags));
    out.extend_from_slice(body);
    out
}

/// A byte record, with its terminator and padded to four bytes.
fn ansi(text: &str) -> Vec<u8> {
    let mut body: Vec<u8> = text.chars().map(|c| c as u8).collect();
    body.push(0);
    while body.len() % 4 != 0 {
        body.push(0);
    }
    record(0, &body)
}

/// A record of 16-bit units, with its terminator and padded to four bytes.
fn wide(text: &str) -> Vec<u8> {
    let mut body: Vec<u8> = Vec::new();
    for unit in text.encode_utf16() {
        body.extend(u16_le(unit));
    }
    body.extend(u16_le(0));
    while body.len() % 4 != 0 {
        body.push(0);
    }
    record(1, &body)
}

/// A table of the given blocks, each with its lowest id, its highest id and
/// its records, the records laid out block behind block.
fn table(blocks: &[(u32, u32, Vec<Vec<u8>>)]) -> Vec<u8> {
    let mut out = u32_le(blocks.len() as u32);
    let mut offset = 4 + 12 * blocks.len();
    for (low, high, records) in blocks {
        out.extend(u32_le(*low));
        out.extend(u32_le(*high));
        out.extend(u32_le(offset as u32));
        offset += records.iter().map(|r| r.len()).sum::<usize>();
    }
    for (_, _, records) in blocks {
        for r in records {
            out.extend_from_slice(r);
        }
    }
    out
}

fn pairs(entries: &[(u32, &str)]) -> Vec<(u32, String)> {
    entries.iter().map(|(id, text)| (*id, text.to_string())).collect()
}

#[test]
fn one_block_of_three_ansi_records() {
    let data = table(&[(1, 3, vec![ansi("a"), ansi("bb"), ansi("ccc")])]);
    assert_eq!(decode_message_table(&data), Ok(pairs(&[(1, "a"), (2, "bb"), (3, "ccc")])));
}

#[test]
fn one_block_written_out_byte_by_byte() {
    let data: Vec<u8> = vec![
        1, 0, 0, 0, // one block
        0x10, 0, 0, 0, // lowest id 0x10
        0x11, 0, 0, 0, // highest id 0x11
        16, 0, 0, 0, // records at 16
        8, 0, 0, 0, b'O', b'K', 0, 0, // bytes
        8, 0, 1, 0, b'h', 0, b'i', 0, // units, no terminator within the length
    ];
    assert_eq!(decode_message_table(&data), Ok(pairs(&[(0x10, "OK"), (0x11, "hi")])));
}

#[test]
fn alternating_encodings_do_not_mix() {
    let data = table(&[(
        100,
        104,
        vec![ansi("one"), wide("tw\u{F6}"), ansi("thr\u{E9}e"), wide("\u{4E2D}\u{6587}"), ansi("")],
    )]);
    assert_eq!(
        decode_message_table(&data),
        Ok(pairs(&[
            (100, "one"),
            (101, "tw\u{F6}"),
            (102, "thr\u{E9}e"),
            (103, "\u{4E2D}\u{6587}"),
            (104, ""),
        ]))
    );
}

#[test]
fn a_byte_record_is_not_read_as_units() {
    // The same body under both flags: two bytes are two characters, or one unit.
    let bytes = table(&[(1, 1, vec![record(0, &[0x41, 0x42, 0, 0])])]);
    let units = table(&[(1, 1, vec![record(1, &[0x41, 0x42, 0, 0])])]);
    assert_eq!(decode_message_table(&bytes), Ok(pairs(&[(1, "AB")])));
    assert_eq!(decode_message_table(&units), Ok(pairs(&[(1, "\u{4241}")])));
}

#[test]
fn ansi_bytes_are_taken_as_code_points() {
    let data = table(&[(1, 1, vec![record(0, &[0x80, 0xE9, 0xFF, 0])])]);
    assert_eq!(decode_message_table(&data), Ok(pairs(&[(1, "\u{80}\u{E9}\u{FF}")])));
}

#[test]
fn text_ends_at_the_first_terminator() {
    let data = table(&[(
        1,
        2,
        vec![record(0, b"ab\0cd\0\0\0"), record(1, &[b'x', 0, 0, 0, b'y', 0, 0, 0])],
    )]);
    assert_eq!(decode_message_table(&data), Ok(pairs(&[(1, "ab"), (2, "x")])));
}

#[test]
fn text_without_terminator_ends_with_the_record() {
    let data = table(&[(1, 2, vec![record(0, b"abcd"), record(0, b"efgh")])]);
    assert_eq!(decode_message_table(&data), Ok(pairs(&[(1, "abcd"), (2, "efgh")])));
}

#[test]
fn a_unit_record_of_odd_length_drops_its_last_byte() {
    let data = table(&[(1, 2, vec![record(1, &[b'a', 0, b'b']), record(0, b"c")])]);
    assert_eq!(decode_message_table(&data), Ok(pairs(&[(1, "a"), (2, "c")])));
}

#[test]
fn surrogate_units_become_replacement_characters() {
    let data = table(&[(1, 1, vec![record(1, &[0x3D, 0xD8, 0x00, 0xDE, b'!', 0, 0, 0])])]);
    assert_eq!(decode_message_table(&data), Ok(pairs(&[(1, "\u{FFFD}\u{FFFD}!")])));
}

#[test]
fn a_record_of_header_only_has_empty_text() {
    let data = table(&[(7, 8, vec![record(0, &[]), record(1, &[])])]);
    assert_eq!(decode_message_table(&data), Ok(pairs(&[(7, ""), (8, "")])));
}

#[test]
fn more_records_declared_than_bytes_is_truncated() {
    let data = table(&[(1, 4, vec![ansi("a"), ansi("bb"), ansi("ccc")])]);
    assert_eq!(decode_message_table(&data), Err(DecodeError::Truncated));
}

#[test]
fn a_huge_id_range_is_truncated() {
    let data = table(&[(0, 0xFFFF_FFFF, vec![ansi("a")])]);
    assert_eq!(decode_message_table(&data), Err(DecodeError::Truncated));
}

#[test]
fn a_record_longer_than_the_table_is_truncated() {
    let mut data = table(&[(1, 1, vec![ansi("abc")])]);
    data.pop();
    assert_eq!(decode_message_table(&data), Err(DecodeError::Truncated));
    let mut data = table(&[(1, 1, vec![ansi("abc")])]);
    data.truncate(16 + 3);
    assert_eq!(decode_message_table(&data), Err(DecodeError::Truncated));
}

#[test]
fn a_record_shorter_than_its_header_is_truncated() {
    for len in 0..4u16 {
        let mut data = table(&[(1, 1, vec![])]);
        data.extend(u16_le(len));
        data.extend(u16_le(0));
        data.extend_from_slice(&[0, 0, 0, 0]);
        assert_eq!(decode_message_table(&data), Err(DecodeError::Truncated));
    }
}

#[test]
fn an_offset_outside_the_table_is_truncated() {
    let mut data = u32_le(1);
    data.extend(u32_le(1));
    data.extend(u32_le(1));
    data.extend(u32_le(1000));
    data.extend(ansi("a"));
    assert_eq!(decode_message_table(&data), Err(DecodeError::Truncated));
    let mut data = u32_le(1);
    data.extend(u32_le(1));
    data.extend(u32_le(1));
    data.extend(u32_le(0xFFFF_FFFF));
    assert_eq!(decode_message_table(&data), Err(DecodeError::Truncated));
}

#[test]
fn a_table_without_its_header_is_truncated() {
    assert_eq!(decode_message_table(&[]), Err(DecodeError::Truncated));
    assert_eq!(decode_message_table(&[1]), Err(DecodeError::Truncated));
    assert_eq!(decode_message_table(&[0, 0, 0]), Err(DecodeError::Truncated));
}

#[test]
fn a_missing_descriptor_is_truncated() {
    let mut data = table(&[(1, 1, vec![ansi("a")])]);
    data[0] = 2;
    assert_eq!(decode_message_table(&data), Err(DecodeError::Truncated));
    assert_eq!(decode_message_table(&[1, 0, 0, 0, 1, 0, 0, 0]), Err(DecodeError::Truncated));
    assert_eq!(decode_message_table(&[0xFF, 0xFF, 0xFF, 0xFF]), Err(DecodeError::Truncated));
}

#[test]
fn a_table_of_no_blocks_is_empty() {
    assert_eq!(decode_message_table(&[0, 0, 0, 0]), Ok(vec![]));
    assert_eq!(decode_message_table(&[0, 0, 0, 0, 9, 9]), Ok(vec![]));
}

#[test]
fn a_block_whose_highest_id_is_below_its_lowest_has_no_records() {
    let data = table(&[(5, 4, vec![ansi("unused")]), (9, 9, vec![ansi("used")])]);
    // The second block's offset lies behind the unused record.
    assert_eq!(decode_message_table(&data), Ok(pairs(&[(9, "used")])));
    let mut empty = u32_le(1);
    empty.extend(u32_le(5));
    empty.extend(u32_le(4));
    empty.extend(u32_le(0xFFFF_FFFF));
    assert_eq!(decode_message_table(&empty), Ok(vec![]));
}

#[test]
fn unknown_flags_end_the_decoding() {
    let data = table(&[(1, 3, vec![ansi("a"), record(2, b"bb\0\0"), ansi("ccc")])]);
    assert_eq!(decode_message_table(&data), Err(DecodeError::UnknownEncodingFlag));
    for _ in 0..3 {
        assert_eq!(decode_message_table(&data), Err(DecodeError::UnknownEncodingFlag));
    }
}

#[test]
fn unknown_flags_in_a_later_block_end_the_decoding() {
    let data = table(&[
        (1, 2, vec![ansi("a"), wide("b")]),
        (10, 10, vec![record(0x100, b"x\0\0\0")]),
        (20, 20, vec![ansi("z")]),
    ]);
    assert_eq!(decode_message_table(&data), Err(DecodeError::UnknownEncodingFlag));
    let high = table(&[(1, 1, vec![record(0xFFFF, b"x\0\0\0")])]);
    assert_eq!(decode_message_table(&high), Err(DecodeError::UnknownEncodingFlag));
}

#[test]
fn the_first_error_on_the_way_is_reported() {
    // Unknown flags before the table runs out.
    let flags_first = table(&[(1, 3, vec![record(2, b"a\0\0\0"), ansi("b")])]);
    assert_eq!(decode_message_table(&flags_first), Err(DecodeError::UnknownEncodingFlag));
    // The table runs out before the record with unknown flags would be read.
    let mut short_first = u32_le(2);
    for (low, high, offset) in [(1u32, 2u32, 36u32), (3, 3, 28)] {
        short_first.extend(u32_le(low));
        short_first.extend(u32_le(high));
        short_first.extend(u32_le(offset));
    }
    short_first.extend(record(2, b"b\0\0\0"));
    short_first.extend(ansi("a"));
    assert_eq!(short_first.len(), 44);
    assert_eq!(decode_message_table(&short_first), Err(DecodeError::Truncated));
    // A record too long for the table is truncated whatever its flags.
    let mut both = table(&[(1, 1, vec![record(2, b"a\0\0\0")])]);
    both.pop();
    assert_eq!(decode_message_table(&both), Err(DecodeError::Truncated));
}

#[test]
fn overlapping_blocks_both_appear_in_declaration_order() {
    let data = table(&[
        (5, 7, vec![ansi("five"), ansi("six"), ansi("seven")]),
        (1, 2, vec![wide("one"), wide("two")]),
        (6, 8, vec![ansi("six again"), ansi("seven again"), ansi("eight")]),
    ]);
    assert_eq!(
        decode_message_table(&data),
        Ok(pairs(&[
            (5, "five"),
            (6, "six"),
            (7, "seven"),
            (1, "one"),
            (2, "two"),
            (6, "six again"),
            (7, "seven again"),
            (8, "eight"),
        ]))
    );
}

#[test]
fn blocks_may_share_their_records() {
    let mut data = u32_le(2);
    for low in [1u32, 0x8000_0001] {
        data.extend(u32_le(low));
        data.extend(u32_le(low + 1));
        data.extend(u32_le(28));
    }
    data.extend(ansi("x"));
    data.extend(wide("y"));
    assert_eq!(
        decode_message_table(&data),
        Ok(pairs(&[(1, "x"), (2, "y"), (0x8000_0001, "x"), (0x8000_0002, "y")]))
    );
}

#[test]
fn exactly_the_declared_records_are_read() {
    let data = table(&[(1, 2, vec![ansi("a"), ansi("b"), ansi("left over")])]);
    assert_eq!(decode_message_table(&data), Ok(pairs(&[(1, "a"), (2, "b")])));
}

#[test]
fn the_highest_id_is_reached_without_overflow() {
    let data = table(&[(0xFFFF_FFFE, 0xFFFF_FFFF, vec![ansi("a"), ansi("b")])]);
    assert_eq!(
        decode_message_table(&data),
        Ok(pairs(&[(0xFFFF_FFFE, "a"), (0xFFFF_FFFF, "b")]))
    );
}

#[test]
fn records_need_not_be_aligned() {
    let data = table(&[(1, 3, vec![record(0, b"a"), record(1, &[b'b', 0]), record(0, b"cde")])]);
    assert_eq!(decode_message_table(&data), Ok(pairs(&[(1, "a"), (2, "b"), (3, "cde")])));
}
