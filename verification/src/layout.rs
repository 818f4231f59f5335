//! The byte layout of the archive header, as constants and as a model on
//! byte sequences.
//!
//! ```text
//! 0x00   8 bytes   magic tag "DSARC FL"
//! 0x08   4 bytes   number of entries
//! 0x0c   4 bytes   reserved
//! 0x10   one 128-byte record per entry:
//!          +0x00  112 bytes  filename, NUL-terminated, padded
//!          +0x70    4 bytes  reserved
//!          +0x74    4 bytes  payload size
//!          +0x78    4 bytes  payload offset from the start of the buffer
//!          +0x7c    4 bytes  reserved
//! ```
//!
//! Every integer is little-endian.

use vstd::prelude::*;

verus! {

/// Length of the magic tag.
pub const MAGIC_LEN: usize = 8;

/// Where the entry count stands.
pub const COUNT_AT: usize = 8;

/// Length of what precedes the entry table: tag, count and a reserved word.
pub const PRELUDE_LEN: usize = 16;

/// Length of one record of the entry table.
pub const RECORD_LEN: usize = 128;

/// Length of the filename field at the start of a record.
pub const NAME_LEN: usize = 112;

/// Where, within a record, the payload size stands.
pub const SIZE_AT: usize = 116;

/// Where, within a record, the payload offset stands.
pub const OFFSET_AT: usize = 120;

/// The magic tag: the ASCII bytes of `DSARC FL`.
pub const MAGIC: [u8; 8] = [0x44, 0x53, 0x41, 0x52, 0x43, 0x20, 0x46, 0x4c];

/// The magic tag, as a sequence.
pub open spec fn magic() -> Seq<u8> {
    MAGIC@
}

/// The number that the four bytes at `at` hold, least significant byte first.
pub open spec fn le_u32_at(bytes: Seq<u8>, at: int) -> nat
    recommends
        0 <= at,
        at + 4 <= bytes.len(),
{
    (bytes[at] + 0x100 * bytes[at + 1] + 0x1_0000 * bytes[at + 2] + 0x100_0000 * bytes[at + 3]) as nat
}

/// The number of entries that the prelude declares.
pub open spec fn entry_count(bytes: Seq<u8>) -> nat
    recommends
        PRELUDE_LEN <= bytes.len(),
{
    le_u32_at(bytes, COUNT_AT as int)
}

/// Where record `i` of the entry table starts.
pub open spec fn record_start(i: int) -> int {
    PRELUDE_LEN + RECORD_LEN * i
}

/// Record `i` of the entry table.
pub open spec fn record_at(bytes: Seq<u8>, i: int) -> Seq<u8>
    recommends
        0 <= i,
        record_start(i + 1) <= bytes.len(),
{
    bytes.subrange(record_start(i), record_start(i + 1))
}

/// Whether the buffer starts with the magic tag.
pub open spec fn has_magic(bytes: Seq<u8>) -> bool {
    MAGIC_LEN <= bytes.len() && bytes.subrange(0, MAGIC_LEN as int) == magic()
}

/// Reads the little-endian `u32` that starts at `at`.
pub(crate) fn read_le_u32(bytes: &[u8], at: usize) -> (v: u32)
    requires
        at + 4 <= bytes@.len(),
    ensures
        v == le_u32_at(bytes@, at as int),
{
    let b0: u32 = bytes[at] as u32;
    let b1: u32 = bytes[at + 1] as u32;
    let b2: u32 = bytes[at + 2] as u32;
    let b3: u32 = bytes[at + 3] as u32;
    b0 + 0x100 * b1 + 0x1_0000 * b2 + 0x100_0000 * b3
}

/// Tells whether the buffer starts with the magic tag.
pub fn starts_with_magic(bytes: &[u8]) -> (res: bool)
    ensures
        res == has_magic(bytes@),
{
    if bytes.len() < MAGIC_LEN {
        return false;
    }
    let mut k: usize = 0;
    while k < MAGIC_LEN
        invariant
            k <= MAGIC_LEN <= bytes@.len(),
            forall|j: int| 0 <= j < k ==> bytes@[j] == magic()[j],
        decreases MAGIC_LEN - k,
    {
        if bytes[k] != MAGIC[k] {
            return false;
        }
        k += 1;
    }
    assert(bytes@.subrange(0, MAGIC_LEN as int) =~= magic());
    true
}

/// The four bytes that hold `v`, least significant byte first.
pub open spec fn le_bytes(v: nat) -> Seq<u8>
    recommends
        v <= u32::MAX,
{
    seq![
        (v % 0x100) as u8,
        (v / 0x100 % 0x100) as u8,
        (v / 0x1_0000 % 0x100) as u8,
        (v / 0x100_0000 % 0x100) as u8,
    ]
}

/// Four bytes that hold `v` read back as `v`.
pub proof fn lemma_le_bytes_read(bytes: Seq<u8>, at: int, v: nat)
    requires
        0 <= at,
        at + 4 <= bytes.len(),
        v <= u32::MAX,
        bytes.subrange(at, at + 4) == le_bytes(v),
    ensures
        le_u32_at(bytes, at) == v,
{
    let word = bytes.subrange(at, at + 4);
    assert(word[0] == bytes[at] && word[1] == bytes[at + 1] && word[2] == bytes[at + 2]
        && word[3] == bytes[at + 3]);
}

/// Four bytes of a buffer are the bytes that hold the number read from them.
pub proof fn lemma_read_le_bytes(bytes: Seq<u8>, at: int)
    requires
        0 <= at,
        at + 4 <= bytes.len(),
    ensures
        le_u32_at(bytes, at) <= u32::MAX,
        bytes.subrange(at, at + 4) == le_bytes(le_u32_at(bytes, at)),
{
    let b0 = bytes[at] as int;
    let b1 = bytes[at + 1] as int;
    let b2 = bytes[at + 2] as int;
    let b3 = bytes[at + 3] as int;
    let v = le_u32_at(bytes, at) as int;
    assert(v == 0x100 * (b1 + 0x100 * b2 + 0x1_0000 * b3) + b0);
    assert(v / 0x100 == b1 + 0x100 * b2 + 0x1_0000 * b3);
    assert(v == 0x1_0000 * (b2 + 0x100 * b3) + (b0 + 0x100 * b1));
    assert(v / 0x1_0000 == b2 + 0x100 * b3);
    assert(v == 0x100_0000 * b3 + (b0 + 0x100 * b1 + 0x1_0000 * b2));
    assert(v / 0x100_0000 == b3);
    assert(bytes.subrange(at, at + 4) =~= le_bytes(le_u32_at(bytes, at)));
}

} // verus!
