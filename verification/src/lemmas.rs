//! What holds of loading, for every buffer.
//!
//! The statements are over `load_spec`, the function that the contract of
//! `load_bytes` equates its result with.

use vstd::prelude::*;
use vstd::utf8::*;
use crate::archive::{load_spec, ArchiveView};
use crate::error::ArchiveError;
use crate::header::{entry_of, header_of, header_valid, name_field, record_valid, EntryView};
use crate::layout::{
    entry_count, has_magic, le_bytes, lemma_le_bytes_read, lemma_read_le_bytes, magic, record_at,
    record_start, COUNT_AT, MAGIC_LEN, NAME_LEN, OFFSET_AT, PRELUDE_LEN, RECORD_LEN, SIZE_AT,
};
use crate::text::{
    lemma_decoding_without_nul, lemma_encoding_without_nul, lemma_text_len, lemma_text_len_is,
    text_bytes,
};

verus! {

/// A loaded archive has one payload for each entry, and each payload has the
/// size that its entry declares.
pub proof fn lemma_loaded_aligned(bytes: Seq<u8>)
    ensures
        load_spec(bytes) matches Ok(archive) ==> archive.aligned(),
{
}

/// Each payload of a loaded archive is the range of the buffer that its
/// entry names.
pub proof fn lemma_loaded_payloads(bytes: Seq<u8>, i: int)
    requires
        load_spec(bytes) is Ok,
        0 <= i < load_spec(bytes)->Ok_0.entries.len(),
    ensures
        ({
            let archive = load_spec(bytes)->Ok_0;
            let entry = archive.entries[i];
            &&& entry.offset + entry.size <= bytes.len()
            &&& archive.data[i] == bytes.subrange(
                entry.offset as int,
                (entry.offset + entry.size) as int,
            )
        }),
{
}

/// A buffer that differs from the magic tag at one of its first eight
/// places, or ends before that place, is rejected with a format error.
pub proof fn lemma_wrong_magic_rejected(bytes: Seq<u8>, k: int)
    requires
        0 <= k < MAGIC_LEN,
        k < bytes.len() ==> bytes[k] != magic()[k],
    ensures
        load_spec(bytes) == Err::<ArchiveView, ArchiveError>(ArchiveError::Format),
{
    if has_magic(bytes) {
        assert(bytes.subrange(0, MAGIC_LEN as int)[k] == bytes[k]);
    }
}

/// A buffer with a well-formed header in which some entry's payload reaches
/// past the end of the buffer is rejected with a range error.
pub proof fn lemma_payload_out_of_range_rejected(bytes: Seq<u8>, i: int)
    requires
        header_valid(bytes),
        0 <= i < header_of(bytes).len(),
        header_of(bytes)[i].offset + header_of(bytes)[i].size > bytes.len(),
    ensures
        load_spec(bytes) == Err::<ArchiveView, ArchiveError>(ArchiveError::Range),
{
}

/// A buffer in which the filename field of some declared record holds no NUL
/// byte is rejected with a format error.
pub proof fn lemma_unterminated_name_rejected(bytes: Seq<u8>, i: int)
    requires
        0 <= i < entry_count(bytes),
        !name_field(record_at(bytes, i)).contains(0u8),
    ensures
        load_spec(bytes) == Err::<ArchiveView, ArchiveError>(ArchiveError::Format),
{
    if header_valid(bytes) {
        lemma_text_len(name_field(record_at(bytes, i)));
    }
}

/// Whether `record` is a record that describes `entry`: the filename in
/// UTF-8 at its start, free of NUL and followed by one, and the size and the
/// offset in their places, least significant byte first.
pub open spec fn record_holds(record: Seq<u8>, entry: EntryView) -> bool {
    let name = encode_utf8(entry.filename);
    &&& record.len() == RECORD_LEN
    &&& !entry.filename.contains('\0')
    &&& name.len() < NAME_LEN
    &&& record.subrange(0, name.len() as int) == name
    &&& record[name.len() as int] == 0
    &&& entry.size <= u32::MAX
    &&& record.subrange(SIZE_AT as int, SIZE_AT + 4) == le_bytes(entry.size)
    &&& entry.offset <= u32::MAX
    &&& record.subrange(OFFSET_AT as int, OFFSET_AT + 4) == le_bytes(entry.offset)
}

/// Whether `bytes` starts with a header that describes `entries`: the magic
/// tag, their number, and one record for each, in their order.
pub open spec fn header_holds(bytes: Seq<u8>, entries: Seq<EntryView>) -> bool {
    &&& has_magic(bytes)
    &&& PRELUDE_LEN <= bytes.len()
    &&& entries.len() <= u32::MAX
    &&& bytes.subrange(COUNT_AT as int, COUNT_AT + 4) == le_bytes(entries.len())
    &&& record_start(entries.len() as int) <= bytes.len()
    &&& forall|i: int|
        0 <= i < entries.len() ==> record_holds(#[trigger] record_at(bytes, i), entries[i])
}

/// A record that describes an entry is well formed, and decodes to that
/// entry.
pub proof fn lemma_record_round_trip(record: Seq<u8>, entry: EntryView)
    requires
        record_holds(record, entry),
    ensures
        record_valid(record),
        entry_of(record) == entry,
{
    let name = encode_utf8(entry.filename);
    let field = name_field(record);
    let n = name.len() as int;
    lemma_encoding_without_nul(entry.filename);
    assert forall|j: int| 0 <= j < n implies field[j] != 0 by {
        assert(field[j] == name[j]);
    }
    lemma_text_len_is(field, n);
    assert(text_bytes(field) =~= name);
    encode_utf8_valid_utf8(entry.filename);
    encode_utf8_decode_utf8(entry.filename);
    lemma_le_bytes_read(record, SIZE_AT as int, entry.size);
    lemma_le_bytes_read(record, OFFSET_AT as int, entry.offset);
}

/// A header that describes a list of entries is well formed, and decodes to
/// that list.
pub proof fn lemma_header_round_trip(bytes: Seq<u8>, entries: Seq<EntryView>)
    requires
        header_holds(bytes, entries),
    ensures
        header_valid(bytes),
        header_of(bytes) == entries,
{
    lemma_le_bytes_read(bytes, COUNT_AT as int, entries.len());
    assert forall|i: int| 0 <= i < entries.len() implies record_valid(
        #[trigger] record_at(bytes, i),
    ) && entry_of(record_at(bytes, i)) == entries[i] by {
        lemma_record_round_trip(record_at(bytes, i), entries[i]);
    }
}

/// A well-formed record describes the entry that it decodes to.
pub proof fn lemma_valid_record_holds(record: Seq<u8>)
    requires
        record.len() == RECORD_LEN,
        record_valid(record),
    ensures
        record_holds(record, entry_of(record)),
{
    let field = name_field(record);
    let name = text_bytes(field);
    lemma_text_len(field);
    lemma_decoding_without_nul(name);
    decode_utf8_encode_utf8(name);
    assert(record.subrange(0, name.len() as int) =~= name);
    lemma_read_le_bytes(record, SIZE_AT as int);
    lemma_read_le_bytes(record, OFFSET_AT as int);
}

/// A well-formed header describes the entries that it decodes to. With
/// `lemma_header_round_trip`: the well-formed headers are those that
/// describe some list of entries, and that list is what they decode to.
pub proof fn lemma_valid_header_holds(bytes: Seq<u8>)
    requires
        header_valid(bytes),
    ensures
        header_holds(bytes, header_of(bytes)),
{
    lemma_read_le_bytes(bytes, COUNT_AT as int);
    assert forall|i: int| 0 <= i < header_of(bytes).len() implies record_holds(
        #[trigger] record_at(bytes, i),
        header_of(bytes)[i],
    ) by {
        lemma_valid_record_holds(record_at(bytes, i));
    }
}

/// Loading a buffer that holds a header for a list of entries, each with its
/// payload inside the buffer, gives back those entries, and for each the
/// bytes that the buffer holds in the range that the entry names.
pub proof fn lemma_round_trip(bytes: Seq<u8>, entries: Seq<EntryView>)
    requires
        header_holds(bytes, entries),
        forall|i: int|
            0 <= i < entries.len() ==> (#[trigger] entries[i]).offset + entries[i].size
                <= bytes.len(),
    ensures
        load_spec(bytes) is Ok,
        load_spec(bytes)->Ok_0.entries == entries,
        load_spec(bytes)->Ok_0.data.len() == entries.len(),
        forall|i: int|
            0 <= i < entries.len() ==> (#[trigger] load_spec(bytes)->Ok_0.data[i])
                == bytes.subrange(
                entries[i].offset as int,
                (entries[i].offset + entries[i].size) as int,
            ),
{
    lemma_header_round_trip(bytes, entries);
}

} // verus!
