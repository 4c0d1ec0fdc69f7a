//! The decoder for one message-table resource.
//!
//! A table starts with a 32-bit block count and as many block descriptors of
//! three 32-bit numbers each: the lowest id of the block, its highest id, and
//! the offset of its first record from the start of the table. All numbers
//! are little-endian. The records of a block lie one behind the other. Each
//! starts with two 16-bit numbers, its length in bytes (these four included)
//! and its flags, and the rest of it is its text: bytes where the flags are 0,
//! 16-bit units where they are 1.
//!
//! The decoder reads no byte outside the table. What it returns is stated by
//! [`decode_table`], a function of the table's bytes alone.

use vstd::prelude::*;
use vstd::slice::slice_subrange;
use crate::str_util::{ansi_text, ansi_to_utf8, utf16_to_utf8, wide_text};

verus! {

/// Why a table could not be decoded.
#[derive(Clone, Copy, Debug, PartialEq, Eq, Structural)]
pub enum DecodeError {
    /// A descriptor or a record does not lie within the table, or a record
    /// is shorter than its own header.
    Truncated,
    /// A record's flags are neither 0 nor 1. The table does not follow its
    /// layout, and nothing of it is returned.
    UnknownEncodingFlag,
}

/// A decoded table in specifications: ids with their texts, in output order.
pub type Entries = Seq<(u32, Seq<char>)>;

/// The 16-bit number that lies at `at`.
pub open spec fn le16(data: Seq<u8>, at: int) -> int {
    data[at] as int + 256 * (data[at + 1] as int)
}

/// The 32-bit number that lies at `at`.
pub open spec fn le32(data: Seq<u8>, at: int) -> int {
    le16(data, at) + 65536 * le16(data, at + 2)
}

/// The 16-bit units that `bytes` hold, a byte left over at the end dropped.
pub open spec fn le_units(bytes: Seq<u8>) -> Seq<u16> {
    Seq::new((bytes.len() / 2) as nat, |k: int| le16(bytes, 2 * k) as u16)
}

/// The number of blocks that the table declares.
pub open spec fn block_count(data: Seq<u8>) -> int {
    le32(data, 0)
}

/// Where the descriptor of block `i` starts.
pub open spec fn descriptor_at(i: int) -> int {
    4 + 12 * i
}

/// The lowest id of block `i`.
pub open spec fn block_low(data: Seq<u8>, i: int) -> int {
    le32(data, descriptor_at(i))
}

/// The highest id of block `i`.
pub open spec fn block_high(data: Seq<u8>, i: int) -> int {
    le32(data, descriptor_at(i) + 4)
}

/// The offset of the first record of block `i`.
pub open spec fn block_offset(data: Seq<u8>, i: int) -> int {
    le32(data, descriptor_at(i) + 8)
}

/// The number of records of block `i`: one for each id from the lowest to
/// the highest, none where the highest is below the lowest.
pub open spec fn block_records(data: Seq<u8>, i: int) -> nat {
    if block_high(data, i) >= block_low(data, i) {
        (block_high(data, i) - block_low(data, i) + 1) as nat
    } else {
        0
    }
}

/// The declared length of the record at `cursor`.
pub open spec fn record_len(data: Seq<u8>, cursor: int) -> int {
    le16(data, cursor)
}

/// The flags of the record at `cursor`.
pub open spec fn record_flags(data: Seq<u8>, cursor: int) -> int {
    le16(data, cursor + 2)
}

/// The record at `cursor` lies within the table, header and declared length.
pub open spec fn record_fits(data: Seq<u8>, cursor: int) -> bool {
    &&& 0 <= cursor
    &&& cursor + 4 <= data.len()
    &&& 4 <= record_len(data, cursor)
    &&& cursor + record_len(data, cursor) <= data.len()
}

/// The text of the record at `cursor`: what follows the header within the
/// declared length, up to the first zero.
pub open spec fn record_text(data: Seq<u8>, cursor: int) -> Seq<char> {
    let body = data.subrange(cursor + 4, cursor + record_len(data, cursor));
    if record_flags(data, cursor) == 0 {
        ansi_text(body)
    } else {
        wide_text(le_units(body))
    }
}

/// `head` followed by what `tail` holds; the error of `tail` where it is one.
pub open spec fn prepend(head: Entries, tail: Result<Entries, DecodeError>) -> Result<
    Entries,
    DecodeError,
> {
    match tail {
        Ok(rest) => Ok(head + rest),
        Err(e) => Err(e),
    }
}

/// The result of reading `remaining` records one behind the other, the first
/// at `cursor` and with the id `id`.
pub open spec fn decode_run(data: Seq<u8>, cursor: int, id: int, remaining: nat) -> Result<
    Entries,
    DecodeError,
>
    decreases remaining,
{
    if remaining == 0 {
        Ok(Seq::empty())
    } else if !record_fits(data, cursor) {
        Err(DecodeError::Truncated)
    } else if record_flags(data, cursor) > 1 {
        Err(DecodeError::UnknownEncodingFlag)
    } else {
        prepend(
            seq![(id as u32, record_text(data, cursor))],
            decode_run(data, cursor + record_len(data, cursor), id + 1, (remaining - 1) as nat),
        )
    }
}

/// The result of reading block `i`.
pub open spec fn decode_block(data: Seq<u8>, i: int) -> Result<Entries, DecodeError> {
    if descriptor_at(i + 1) > data.len() {
        Err(DecodeError::Truncated)
    } else {
        decode_run(data, block_offset(data, i), block_low(data, i), block_records(data, i))
    }
}

/// The result of reading the blocks from `from` up to `count`, in the order
/// of their descriptors.
pub open spec fn decode_blocks(data: Seq<u8>, from: int, count: int) -> Result<
    Entries,
    DecodeError,
>
    decreases count - from,
{
    if from >= count {
        Ok(Seq::empty())
    } else {
        match decode_block(data, from) {
            Err(e) => Err(e),
            Ok(entries) => prepend(entries, decode_blocks(data, from + 1, count)),
        }
    }
}

/// The result of decoding a table: the entries of all its blocks, or the
/// first error met on the way.
pub open spec fn decode_table(data: Seq<u8>) -> Result<Entries, DecodeError> {
    if data.len() < 4 {
        Err(DecodeError::Truncated)
    } else {
        decode_blocks(data, 0, block_count(data))
    }
}

/// What a vector of decoded entries holds.
pub open spec fn entries_model(entries: Seq<(u32, String)>) -> Entries {
    Seq::new(entries.len(), |k: int| (entries[k].0, entries[k].1@))
}

fn read_u16(data: &[u8], at: usize) -> (value: u16)
    requires
        at + 2 <= data.len(),
    ensures
        value == le16(data@, at as int),
{
    let low: u16 = data[at] as u16;
    let high: u16 = data[at + 1] as u16;
    low + 256 * high
}

fn read_u32(data: &[u8], at: usize) -> (value: u32)
    requires
        at + 4 <= data.len(),
    ensures
        value == le32(data@, at as int),
{
    let low: u32 = read_u16(data, at) as u32;
    let high: u32 = read_u16(data, at + 2) as u32;
    low + 65536 * high
}

fn read_units(bytes: &[u8]) -> (units: Vec<u16>)
    ensures
        units@ == le_units(bytes@),
{
    let mut units: Vec<u16> = Vec::new();
    let count: usize = bytes.len() / 2;
    assert(2 * count <= bytes.len());
    let mut k: usize = 0;
    while k < count
        invariant
            count == bytes@.len() / 2,
            2 * count <= bytes.len(),
            0 <= k <= count,
            units@ == Seq::new(k as nat, |j: int| le16(bytes@, 2 * j) as u16),
        decreases count - k,
    {
        units.push(read_u16(bytes, 2 * k));
        k += 1;
    }
    units
}

/// Decodes the text of the record at `cursor`, whose flags are 0 or 1.
fn read_text(data: &[u8], cursor: usize, len: usize, flags: u16) -> (text: String)
    requires
        record_fits(data@, cursor as int),
        len == record_len(data@, cursor as int),
        flags == record_flags(data@, cursor as int),
        flags <= 1,
    ensures
        text@ == record_text(data@, cursor as int),
{
    assert(data@.len() == data.len());
    let body = slice_subrange(data, cursor + 4, cursor + len);
    if flags == 0 {
        ansi_to_utf8(body)
    } else {
        let units = read_units(body);
        utf16_to_utf8(units.as_slice())
    }
}

/// Reads `count` records one behind the other, the first at `offset` and
/// with the id `low`, and appends their entries to `out`.
fn read_run(data: &[u8], offset: u32, low: u32, count: u64, out: &mut Vec<(u32, String)>) -> (result:
    Result<(), DecodeError>)
    requires
        low + count <= 0x1_0000_0000,
    ensures
        match result {
            Ok(()) => prepend(
                entries_model(old(out)@),
                decode_run(data@, offset as int, low as int, count as nat),
            ) == Ok::<Entries, DecodeError>(entries_model(final(out)@)),
            Err(e) => decode_run(data@, offset as int, low as int, count as nat) == Err::<
                Entries,
                DecodeError,
            >(e),
        },
{
    let size: usize = data.len();
    if count == 0 {
        assert(entries_model(out@) + Seq::<(u32, Seq<char>)>::empty() == entries_model(out@));
        return Ok(());
    }
    if offset as u64 > size as u64 {
        return Err(DecodeError::Truncated);
    }
    let ghost before = entries_model(out@);
    let ghost mut done: Entries = Seq::empty();
    let mut cursor: usize = offset as usize;
    let mut k: u64 = 0;
    while k < count
        invariant
            size == data@.len(),
            0 <= k <= count,
            low + count <= 0x1_0000_0000,
            0 <= cursor <= size,
            before == entries_model(old(out)@),
            entries_model(out@) == before + done,
            decode_run(data@, offset as int, low as int, count as nat) == prepend(
                done,
                decode_run(data@, cursor as int, low + k, (count - k) as nat),
            ),
        decreases count - k,
    {
        if size - cursor < 4 {
            return Err(DecodeError::Truncated);
        }
        let len: usize = read_u16(data, cursor) as usize;
        if len < 4 || size - cursor < len {
            return Err(DecodeError::Truncated);
        }
        let flags: u16 = read_u16(data, cursor + 2);
        if flags > 1 {
            return Err(DecodeError::UnknownEncodingFlag);
        }
        let text = read_text(data, cursor, len, flags);
        let id: u32 = (low as u64 + k) as u32;
        proof {
            let entry = (id, text@);
            let rest = decode_run(data@, cursor + len, low + k + 1, (count - k - 1) as nat);
            assert(decode_run(data@, cursor as int, low + k, (count - k) as nat) == prepend(
                seq![entry],
                rest,
            ));
            assert(done + (seq![entry] + rest->Ok_0) == done.push(entry) + rest->Ok_0);
            assert(entries_model(out@.push((id, text))) == (before + done).push(entry));
            assert((before + done).push(entry) == before + done.push(entry));
            done = done.push(entry);
        }
        out.push((id, text));
        cursor += len;
        k += 1;
    }
    proof {
        assert(done + Seq::<(u32, Seq<char>)>::empty() == done);
    }
    Ok(())
}

/// Decodes one message table: the entries of its blocks in the order of
/// their descriptors, within a block by ascending id. Every block yields
/// exactly the records that its id range declares. The first descriptor or
/// record that does not lie within `data`, or whose flags are unknown, ends
/// the decoding with its error, and no entry is returned.
pub fn decode_message_table(data: &[u8]) -> (result: Result<Vec<(u32, String)>, DecodeError>)
    ensures
        match result {
            Ok(entries) => decode_table(data@) == Ok::<Entries, DecodeError>(
                entries_model(entries@),
            ),
            Err(e) => decode_table(data@) == Err::<Entries, DecodeError>(e),
        },
{
    let size: usize = data.len();
    if size < 4 {
        return Err(DecodeError::Truncated);
    }
    let count: u32 = read_u32(data, 0);
    let mut out: Vec<(u32, String)> = Vec::new();
    let mut i: u32 = 0;
    proof {
        assert(entries_model(out@) == Seq::<(u32, Seq<char>)>::empty());
        assert(prepend(Seq::empty(), decode_table(data@)) == decode_table(data@)) by {
            if decode_table(data@) is Ok {
                assert(Seq::<(u32, Seq<char>)>::empty() + decode_table(data@)->Ok_0
                    == decode_table(data@)->Ok_0);
            }
        }
    }
    while i < count
        invariant
            size == data@.len(),
            size >= 4,
            count == block_count(data@),
            0 <= i <= count,
            decode_table(data@) == prepend(
                entries_model(out@),
                decode_blocks(data@, i as int, count as int),
            ),
        decreases count - i,
    {
        let at: u64 = 4 + 12 * (i as u64);
        if size as u64 - 4 < 12 * (i as u64) + 12 {
            return Err(DecodeError::Truncated);
        }
        let at: usize = at as usize;
        let low: u32 = read_u32(data, at);
        let high: u32 = read_u32(data, at + 4);
        let offset: u32 = read_u32(data, at + 8);
        let records: u64 = if high >= low {
            (high - low) as u64 + 1
        } else {
            0
        };
        let ghost before = entries_model(out@);
        let ghost rest = decode_blocks(data@, i + 1, count as int);
        match read_run(data, offset, low, records, &mut out) {
            Err(e) => {
                return Err(e);
            },
            Ok(()) => {
                proof {
                    let block = decode_block(data@, i as int)->Ok_0;
                    assert(entries_model(out@) == before + block);
                    if rest is Ok {
                        assert(before + (block + rest->Ok_0) == (before + block) + rest->Ok_0);
                    }
                }
            },
        }
        i += 1;
    }
    proof {
        assert(entries_model(out@) + Seq::<(u32, Seq<char>)>::empty() == entries_model(out@));
    }
    Ok(out)
}

} // verus!
