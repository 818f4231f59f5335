//! The header: the table of entries at the start of an archive.

use vstd::prelude::*;
use vstd::slice::slice_subrange;
use crate::error::ArchiveError;
use crate::layout::{
    entry_count, has_magic, le_u32_at, read_le_u32, record_at, record_start, starts_with_magic,
    COUNT_AT, NAME_LEN, OFFSET_AT, PRELUDE_LEN, RECORD_LEN, SIZE_AT,
};
use crate::text::{c_string, holds_text, text_of};

verus! {

/// One record of the entry table: a contained file's name, and where in the
/// archive buffer its bytes lie.
#[derive(Debug)]
pub struct HeaderEntry {
    /// The file's name, as the record's filename field spells it.
    pub filename: String,
    /// Length of the payload, in bytes.
    pub size: usize,
    /// Where the payload starts, counted from the start of the buffer.
    pub offset: usize,
}

/// What a [`HeaderEntry`] says, as plain values.
pub struct EntryView {
    pub filename: Seq<char>,
    pub size: nat,
    pub offset: nat,
}

impl View for HeaderEntry {
    type V = EntryView;

    open spec fn view(&self) -> EntryView {
        EntryView {
            filename: self.filename@,
            size: self.size as nat,
            offset: self.offset as nat,
        }
    }
}

/// The entry table, in the order in which the buffer lists the entries.
#[derive(Debug)]
pub struct Header {
    pub entries: Vec<HeaderEntry>,
}

impl View for Header {
    type V = Seq<EntryView>;

    open spec fn view(&self) -> Seq<EntryView> {
        self.entries@.map_values(|e: HeaderEntry| e@)
    }
}

/// The filename field of a record.
pub open spec fn name_field(record: Seq<u8>) -> Seq<u8> {
    record.subrange(0, NAME_LEN as int)
}

/// Whether `record` starts with a well-formed record: it is long enough, and
/// its filename field holds text.
pub open spec fn record_valid(record: Seq<u8>) -> bool {
    RECORD_LEN <= record.len() && holds_text(name_field(record))
}

/// The entry that a well-formed record describes.
pub open spec fn entry_of(record: Seq<u8>) -> EntryView
    recommends
        record_valid(record),
{
    EntryView {
        filename: text_of(name_field(record)),
        size: le_u32_at(record, SIZE_AT as int),
        offset: le_u32_at(record, OFFSET_AT as int),
    }
}

/// Whether `bytes` starts with a well-formed header: the magic tag, the
/// prelude, and as many well-formed records as the prelude declares.
pub open spec fn header_valid(bytes: Seq<u8>) -> bool {
    &&& has_magic(bytes)
    &&& PRELUDE_LEN <= bytes.len()
    &&& record_start(entry_count(bytes) as int) <= bytes.len()
    &&& forall|i: int|
        0 <= i < entry_count(bytes) ==> record_valid(#[trigger] record_at(bytes, i))
}

/// The entries that a well-formed header lists.
pub open spec fn header_of(bytes: Seq<u8>) -> Seq<EntryView>
    recommends
        header_valid(bytes),
{
    Seq::new(entry_count(bytes), |i: int| entry_of(record_at(bytes, i)))
}

/// Decodes the record at the start of `input`. Fails where `input` is
/// shorter than a record or the filename field holds no text.
pub fn header_entry(input: &[u8]) -> (res: Result<HeaderEntry, ArchiveError>)
    ensures
        res is Ok <==> record_valid(input@),
        res matches Ok(entry) ==> entry@ == entry_of(input@),
        res matches Err(e) ==> e == ArchiveError::Format,
{
    if input.len() < RECORD_LEN {
        return Err(ArchiveError::Format);
    }
    let filename = match c_string(slice_subrange(input, 0, NAME_LEN)) {
        Ok(name) => name.to_owned(),
        Err(e) => {
            return Err(e);
        },
    };
    let size = read_le_u32(input, SIZE_AT) as usize;
    let offset = read_le_u32(input, OFFSET_AT) as usize;
    Ok(HeaderEntry { filename, size, offset })
}

/// Decodes the header at the start of `bytes`. Fails where fewer than 16
/// bytes are there, the magic tag is wrong, the buffer is too short for the
/// number of records that the prelude declares, or a record's filename field
/// holds no text.
pub fn header(bytes: &[u8]) -> (res: Result<Header, ArchiveError>)
    ensures
        res is Ok <==> header_valid(bytes@),
        res matches Ok(h) ==> h@ == header_of(bytes@),
        res matches Err(e) ==> e == ArchiveError::Format,
{
    if !starts_with_magic(bytes) || bytes.len() < PRELUDE_LEN {
        return Err(ArchiveError::Format);
    }
    let count = read_le_u32(bytes, COUNT_AT) as usize;
    if count > (bytes.len() - PRELUDE_LEN) / RECORD_LEN {
        return Err(ArchiveError::Format);
    }
    let mut entries: Vec<HeaderEntry> = Vec::new();
    let mut i: usize = 0;
    while i < count
        invariant
            i <= count,
            count == entry_count(bytes@),
            record_start(count as int) <= bytes@.len() <= usize::MAX,
            entries@.len() == i,
            forall|j: int| 0 <= j < i ==> record_valid(#[trigger] record_at(bytes@, j)),
            forall|j: int| 0 <= j < i ==> (#[trigger] entries@[j])@ == entry_of(record_at(bytes@, j)),
        decreases count - i,
    {
        let start = PRELUDE_LEN + RECORD_LEN * i;
        match header_entry(slice_subrange(bytes, start, start + RECORD_LEN)) {
            Ok(entry) => {
                entries.push(entry);
            },
            Err(e) => {
                assert(!record_valid(record_at(bytes@, i as int)));
                return Err(e);
            },
        }
        i += 1;
    }
    let h = Header { entries };
    assert(h@ =~= header_of(bytes@));
    Ok(h)
}

} // verus!
