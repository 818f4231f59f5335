//! The loader: from a byte buffer to the header and the payload of every
//! entry.

use vstd::prelude::*;
use vstd::slice::{slice_subrange, slice_to_vec};
use crate::error::ArchiveError;
use crate::header::{header, header_of, header_valid, EntryView, Header, HeaderEntry};

verus! {

/// A loaded archive: the entry table, and for each entry, at the same index,
/// a copy of its payload.
#[derive(Debug)]
pub struct Archive {
    pub header: Header,
    pub data: Vec<Vec<u8>>,
}

/// What an [`Archive`] holds, as plain values.
pub struct ArchiveView {
    pub entries: Seq<EntryView>,
    pub data: Seq<Seq<u8>>,
}

impl View for Archive {
    type V = ArchiveView;

    open spec fn view(&self) -> ArchiveView {
        ArchiveView { entries: self.header@, data: self.data@.map_values(|p: Vec<u8>| p@) }
    }
}

impl ArchiveView {
    /// Whether there is one payload for each entry, of the size that the
    /// entry declares.
    pub open spec fn aligned(self) -> bool {
        &&& self.data.len() == self.entries.len()
        &&& forall|i: int|
            0 <= i < self.entries.len() ==> (#[trigger] self.data[i]).len() == self.entries[i].size
    }
}

/// Whether the payload of `entry` lies within a buffer of `len` bytes.
pub open spec fn in_bounds(entry: EntryView, len: nat) -> bool {
    entry.offset + entry.size <= len
}

/// Whether the payload of every entry lies within a buffer of `len` bytes.
pub open spec fn all_in_bounds(entries: Seq<EntryView>, len: nat) -> bool {
    forall|i: int| 0 <= i < entries.len() ==> in_bounds(#[trigger] entries[i], len)
}

/// The payload of `entry`: the `size` bytes of the buffer from `offset` on.
pub open spec fn payload_of(bytes: Seq<u8>, entry: EntryView) -> Seq<u8>
    recommends
        in_bounds(entry, bytes.len()),
{
    bytes.subrange(entry.offset as int, (entry.offset + entry.size) as int)
}

/// The payloads of `entries`, in their order.
pub open spec fn payloads_of(bytes: Seq<u8>, entries: Seq<EntryView>) -> Seq<Seq<u8>>
    recommends
        all_in_bounds(entries, bytes.len()),
{
    Seq::new(entries.len(), |i: int| payload_of(bytes, entries[i]))
}

/// What loading a buffer gives: a format error where the header is
/// malformed; else a range error where some payload reaches past the end of
/// the buffer; else the header's entries and their payloads.
pub open spec fn load_spec(bytes: Seq<u8>) -> Result<ArchiveView, ArchiveError> {
    if !header_valid(bytes) {
        Err(ArchiveError::Format)
    } else if !all_in_bounds(header_of(bytes), bytes.len()) {
        Err(ArchiveError::Range)
    } else {
        Ok(ArchiveView { entries: header_of(bytes), data: payloads_of(bytes, header_of(bytes)) })
    }
}

/// Copies the payload of `entry` out of the buffer. Fails where the payload
/// reaches past the end of the buffer.
pub fn payload(bytes: &[u8], entry: &HeaderEntry) -> (res: Result<Vec<u8>, ArchiveError>)
    ensures
        res is Ok <==> in_bounds(entry@, bytes@.len()),
        res matches Ok(p) ==> p@ == payload_of(bytes@, entry@),
        res matches Err(e) ==> e == ArchiveError::Range,
{
    if entry.offset > bytes.len() || entry.size > bytes.len() - entry.offset {
        return Err(ArchiveError::Range);
    }
    Ok(slice_to_vec(slice_subrange(bytes, entry.offset, entry.offset + entry.size)))
}

/// Copies the payload of every entry of `header` out of the buffer, in the
/// header's order. Fails where some payload reaches past the end of the
/// buffer.
pub fn extract(bytes: &[u8], header: &Header) -> (res: Result<Vec<Vec<u8>>, ArchiveError>)
    ensures
        res is Ok <==> all_in_bounds(header@, bytes@.len()),
        res matches Ok(data) ==> data@.map_values(|p: Vec<u8>| p@) == payloads_of(
            bytes@,
            header@,
        ),
        res matches Err(e) ==> e == ArchiveError::Range,
{
    let mut data: Vec<Vec<u8>> = Vec::new();
    let mut i: usize = 0;
    while i < header.entries.len()
        invariant
            i <= header.entries@.len(),
            data@.len() == i,
            forall|j: int| 0 <= j < i ==> in_bounds(#[trigger] header@[j], bytes@.len()),
            forall|j: int| 0 <= j < i ==> (#[trigger] data@[j])@ == payload_of(bytes@, header@[j]),
        decreases header.entries@.len() - i,
    {
        match payload(bytes, &header.entries[i]) {
            Ok(p) => {
                data.push(p);
            },
            Err(e) => {
                assert(!in_bounds(header@[i as int], bytes@.len()));
                return Err(e);
            },
        }
        i += 1;
    }
    Ok(data)
}

/// Loads an archive from the bytes of a whole archive file: decodes the
/// header, then copies out the payload of every entry.
///
/// The result is `load_spec` of the buffer. On success every entry's payload
/// lies within the buffer, and there is one payload for each entry, of the
/// size that the entry declares.
pub fn load_bytes(bytes: &[u8]) -> (res: Result<Archive, ArchiveError>)
    ensures
        match res {
            Ok(archive) => load_spec(bytes@) == Ok::<ArchiveView, ArchiveError>(archive@),
            Err(e) => load_spec(bytes@) == Err::<ArchiveView, ArchiveError>(e),
        },
        res matches Ok(archive) ==> all_in_bounds(archive.header@, bytes@.len()),
        res matches Ok(archive) ==> archive.data@.len() == archive.header.entries@.len(),
        res matches Ok(archive) ==> forall|i: int|
            0 <= i < archive.data@.len() ==> (#[trigger] archive.data@[i])@.len()
                == archive.header.entries@[i].size,
{
    let header = match header(bytes) {
        Ok(h) => h,
        Err(e) => {
            return Err(e);
        },
    };
    let data = match extract(bytes, &header) {
        Ok(d) => d,
        Err(e) => {
            return Err(e);
        },
    };
    let archive = Archive { header, data };
    proof {
        let view = archive@;
        assert(view.data == payloads_of(bytes@, header_of(bytes@)));
        assert forall|i: int| 0 <= i < archive.data@.len() implies (#[trigger] archive.data@[i])@.len()
            == archive.header.entries@[i].size by {
            assert(view.data[i] == archive.data@[i]@);
        }
    }
    Ok(archive)
}

} // verus!
