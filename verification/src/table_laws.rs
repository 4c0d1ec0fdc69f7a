//! What holds of every decoded message table.
//!
//! [`decode_run`] and [`decode_table`] say what the decoder returns by
//! walking the table as the decoder does. The laws here say the same of the
//! walk's outcome without walking: where each record lies, what each entry
//! holds, which error ends the decoding, and which ids come out.

use vstd::prelude::*;
use crate::message_table::{
    block_count, block_low, block_offset, block_records, decode_block, decode_blocks, decode_run,
    decode_table, descriptor_at, record_fits, record_flags, record_len, record_text, DecodeError,
    Entries,
};

verus! {

/// Where record `k` of a run that starts at `start` lies: behind the records
/// before it, each as long as it declares.
pub open spec fn record_at(data: Seq<u8>, start: int, k: nat) -> int
    decreases k,
{
    if k == 0 {
        start
    } else {
        record_at(data, start + record_len(data, start), (k - 1) as nat)
    }
}

/// The record at `cursor` can be decoded: it lies within the table and its
/// flags are 0 or 1.
pub open spec fn record_ok(data: Seq<u8>, cursor: int) -> bool {
    record_fits(data, cursor) && record_flags(data, cursor) <= 1
}

/// The ids of `len` records, the first with the id `low`.
pub open spec fn id_range(low: int, len: nat) -> Seq<u32> {
    Seq::new(len, |k: int| (low + k) as u32)
}

/// The ids of decoded entries, in their order.
pub open spec fn ids_of(entries: Entries) -> Seq<u32> {
    Seq::new(entries.len(), |k: int| entries[k].0)
}

/// The ids that the blocks from `from` up to `count` declare, block by block
/// in the order of the descriptors.
pub open spec fn declared_ids(data: Seq<u8>, from: int, count: int) -> Seq<u32>
    decreases count - from,
{
    if from >= count {
        Seq::empty()
    } else {
        id_range(block_low(data, from), block_records(data, from)) + declared_ids(
            data,
            from + 1,
            count,
        )
    }
}

/// A run whose records can all be decoded yields one entry for each, in
/// their order: the ids count up from the first, and each text is decoded
/// from the entry's own record by that record's own flags.
pub proof fn lemma_run_entries(data: Seq<u8>, start: int, id: int, remaining: nat)
    requires
        forall|j: nat| j < remaining ==> record_ok(data, #[trigger] record_at(data, start, j)),
    ensures
        decode_run(data, start, id, remaining) is Ok,
        decode_run(data, start, id, remaining)->Ok_0.len() == remaining,
        forall|j: nat|
            j < remaining ==> decode_run(data, start, id, remaining)->Ok_0[j as int] == (
                (id + j) as u32,
                record_text(data, #[trigger] record_at(data, start, j)),
            ),
    decreases remaining,
{
    if remaining > 0 {
        let next = start + record_len(data, start);
        let rest = (remaining - 1) as nat;
        assert(record_at(data, start, 0) == start);
        assert forall|j: nat| j < rest implies record_ok(
            data,
            #[trigger] record_at(data, next, j),
        ) by {
            assert(record_at(data, start, j + 1) == record_at(data, next, j));
        }
        lemma_run_entries(data, next, id + 1, rest);
        let tail = decode_run(data, next, id + 1, rest)->Ok_0;
        let all = decode_run(data, start, id, remaining)->Ok_0;
        assert(all == seq![(id as u32, record_text(data, start))] + tail);
        assert forall|j: nat| j < remaining implies all[j as int] == (
            (id + j) as u32,
            record_text(data, #[trigger] record_at(data, start, j)),
        ) by {
            if j > 0 {
                let i = (j - 1) as nat;
                assert(record_at(data, start, j) == record_at(data, next, i));
                assert(all[j as int] == tail[i as int]);
            }
        }
    }
}

/// The first record of a run that cannot be decoded ends the run with its
/// error, whatever follows it: `Truncated` where the record does not lie
/// within the table, `UnknownEncodingFlag` where it does and its flags are
/// neither 0 nor 1.
pub proof fn lemma_run_error(data: Seq<u8>, start: int, id: int, remaining: nat, k: nat)
    requires
        k < remaining,
        forall|j: nat| j < k ==> record_ok(data, #[trigger] record_at(data, start, j)),
        !record_ok(data, record_at(data, start, k)),
    ensures
        decode_run(data, start, id, remaining) == Err::<Entries, DecodeError>(
            if record_fits(data, record_at(data, start, k)) {
                DecodeError::UnknownEncodingFlag
            } else {
                DecodeError::Truncated
            },
        ),
    decreases k,
{
    if k > 0 {
        let next = start + record_len(data, start);
        assert(record_at(data, start, 0) == start);
        assert forall|j: nat| j < k - 1 implies record_ok(
            data,
            #[trigger] record_at(data, next, j),
        ) by {
            assert(record_at(data, start, j + 1) == record_at(data, next, j));
        }
        lemma_run_error(data, next, id + 1, (remaining - 1) as nat, (k - 1) as nat);
    }
}

/// A run that is decoded lies within the table, and every record takes at
/// least the four bytes of its header.
pub proof fn lemma_run_within(data: Seq<u8>, start: int, id: int, remaining: nat)
    requires
        decode_run(data, start, id, remaining) is Ok,
    ensures
        remaining > 0 ==> 0 <= start && start + 4 * remaining <= data.len(),
        decode_run(data, start, id, remaining)->Ok_0.len() == remaining,
    decreases remaining,
{
    if remaining > 0 {
        lemma_run_within(data, start + record_len(data, start), id + 1, (remaining - 1) as nat);
    }
}

/// A run that declares more records than the table has bytes for is not
/// decoded: no part of it comes back as a result.
pub proof fn lemma_short_run_is_rejected(data: Seq<u8>, start: int, id: int, remaining: nat)
    requires
        start + 4 * remaining > data.len(),
        remaining > 0,
    ensures
        decode_run(data, start, id, remaining) is Err,
{
    if decode_run(data, start, id, remaining) is Ok {
        lemma_run_within(data, start, id, remaining);
    }
}

/// A run that declares more records than the table has bytes for, and in
/// which no record has unknown flags, ends with `Truncated`.
pub proof fn lemma_short_run_is_truncated(data: Seq<u8>, start: int, id: int, remaining: nat)
    requires
        start + 4 * remaining > data.len(),
        remaining > 0,
        forall|j: nat|
            j < remaining && record_fits(data, #[trigger] record_at(data, start, j))
                ==> record_flags(data, record_at(data, start, j)) <= 1,
    ensures
        decode_run(data, start, id, remaining) == Err::<Entries, DecodeError>(
            DecodeError::Truncated,
        ),
    decreases remaining,
{
    assert(record_at(data, start, 0) == start);
    if record_fits(data, start) {
        let next = start + record_len(data, start);
        let rest = (remaining - 1) as nat;
        assert forall|j: nat|
            j < rest && record_fits(data, #[trigger] record_at(data, next, j)) implies record_flags(
            data,
            record_at(data, next, j),
        ) <= 1 by {
            assert(record_at(data, start, j + 1) == record_at(data, next, j));
        }
        lemma_short_run_is_truncated(data, next, id + 1, rest);
    }
}

/// The ids of a decoded run are the ids of its range.
pub proof fn lemma_run_ids(data: Seq<u8>, start: int, id: int, remaining: nat)
    requires
        decode_run(data, start, id, remaining) is Ok,
    ensures
        ids_of(decode_run(data, start, id, remaining)->Ok_0) == id_range(id, remaining),
    decreases remaining,
{
    if remaining > 0 {
        let next = start + record_len(data, start);
        lemma_run_ids(data, next, id + 1, (remaining - 1) as nat);
        let tail = decode_run(data, next, id + 1, (remaining - 1) as nat)->Ok_0;
        let all = decode_run(data, start, id, remaining)->Ok_0;
        assert(all == seq![(id as u32, record_text(data, start))] + tail);
        assert(ids_of(tail).len() == remaining - 1);
        assert forall|k: int| 0 <= k < remaining implies ids_of(all)[k] == id_range(
            id,
            remaining,
        )[k] by {
            if k > 0 {
                assert(all[k] == tail[k - 1]);
                assert(ids_of(tail)[k - 1] == id_range(id + 1, (remaining - 1) as nat)[k - 1]);
            }
        }
        assert(ids_of(all).len() == remaining) by {
            assert(ids_of(tail).len() == tail.len());
        }
    } else {
        assert(ids_of(decode_run(data, start, id, remaining)->Ok_0).len() == 0);
    }
}

/// Where the blocks from `from` on are decoded, each of them is.
proof fn lemma_blocks_each(data: Seq<u8>, from: int, count: int, i: int)
    requires
        decode_blocks(data, from, count) is Ok,
        from <= i < count,
    ensures
        decode_block(data, i) is Ok,
    decreases count - from,
{
    if from < i {
        lemma_blocks_each(data, from + 1, count, i);
    }
}

/// The first block that cannot be decoded ends the decoding of the blocks
/// with its error.
proof fn lemma_blocks_error(data: Seq<u8>, from: int, count: int, i: int, error: DecodeError)
    requires
        from <= i < count,
        forall|j: int| from <= j < i ==> (#[trigger] decode_block(data, j)) is Ok,
        decode_block(data, i) == Err::<Entries, DecodeError>(error),
    ensures
        decode_blocks(data, from, count) == Err::<Entries, DecodeError>(error),
    decreases count - from,
{
    if from < i {
        assert(decode_block(data, from) is Ok);
        lemma_blocks_error(data, from + 1, count, i, error);
    }
}

/// The ids of decoded blocks are the ids that the blocks declare.
proof fn lemma_blocks_ids(data: Seq<u8>, from: int, count: int)
    requires
        decode_blocks(data, from, count) is Ok,
    ensures
        ids_of(decode_blocks(data, from, count)->Ok_0) == declared_ids(data, from, count),
    decreases count - from,
{
    if from < count {
        let block = decode_block(data, from)->Ok_0;
        let rest = decode_blocks(data, from + 1, count)->Ok_0;
        lemma_run_ids(
            data,
            block_offset(data, from),
            block_low(data, from),
            block_records(data, from),
        );
        lemma_blocks_ids(data, from + 1, count);
        assert(decode_blocks(data, from, count)->Ok_0 == block + rest);
        assert(ids_of(block + rest) == ids_of(block) + ids_of(rest));
    } else {
        assert(ids_of(decode_blocks(data, from, count)->Ok_0) == Seq::<u32>::empty());
    }
}

/// An error ends the whole decoding, not only its block: where a block
/// cannot be decoded and every block before it can, the table's result is
/// that block's error, whatever the blocks behind it hold. The result
/// depends on the table's bytes alone, so it is the same at every
/// decoding.
pub proof fn lemma_first_error_ends_decoding(data: Seq<u8>, i: int, error: DecodeError)
    requires
        data.len() >= 4,
        0 <= i < block_count(data),
        forall|j: int| 0 <= j < i ==> (#[trigger] decode_block(data, j)) is Ok,
        decode_block(data, i) == Err::<Entries, DecodeError>(error),
    ensures
        decode_table(data) == Err::<Entries, DecodeError>(error),
{
    lemma_blocks_error(data, 0, block_count(data), i, error);
}

/// A decoded table holds the entries of every block in full, in the order
/// of the descriptors and within a block by ascending id. Blocks whose id
/// ranges overlap are not merged: their ids come out once for each block.
pub proof fn lemma_ids_as_declared(data: Seq<u8>)
    requires
        decode_table(data) is Ok,
    ensures
        ids_of(decode_table(data)->Ok_0) == declared_ids(data, 0, block_count(data)),
{
    lemma_blocks_ids(data, 0, block_count(data));
}

/// A table that declares for one of its blocks more records than it has
/// bytes for ends with `Truncated`, where the blocks before that block can
/// be decoded and no record of the block has unknown flags.
pub proof fn lemma_short_table_is_truncated(data: Seq<u8>, i: int)
    requires
        data.len() >= 4,
        0 <= i < block_count(data),
        forall|j: int| 0 <= j < i ==> (#[trigger] decode_block(data, j)) is Ok,
        block_records(data, i) > 0,
        block_offset(data, i) + 4 * block_records(data, i) > data.len(),
        forall|j: nat|
            j < block_records(data, i) && record_fits(
                data,
                #[trigger] record_at(data, block_offset(data, i), j),
            ) ==> record_flags(data, record_at(data, block_offset(data, i), j)) <= 1,
    ensures
        decode_table(data) == Err::<Entries, DecodeError>(DecodeError::Truncated),
{
    if descriptor_at(i + 1) <= data.len() {
        lemma_short_run_is_truncated(
            data,
            block_offset(data, i),
            block_low(data, i),
            block_records(data, i),
        );
    }
    lemma_first_error_ends_decoding(data, i, DecodeError::Truncated);
}

/// A table that declares for one of its blocks more records than it has
/// bytes for is not decoded, whatever else it holds: the result is an error
/// and never a shorter list of entries.
pub proof fn lemma_short_table_is_rejected(data: Seq<u8>, i: int)
    requires
        0 <= i < block_count(data),
        block_records(data, i) > 0,
        block_offset(data, i) + 4 * block_records(data, i) > data.len(),
    ensures
        decode_table(data) is Err,
{
    if decode_table(data) is Ok {
        lemma_blocks_each(data, 0, block_count(data), i);
        assert(descriptor_at(i + 1) <= data.len());
        lemma_short_run_is_rejected(
            data,
            block_offset(data, i),
            block_low(data, i),
            block_records(data, i),
        );
    }
}

} // verus!
