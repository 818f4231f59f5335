use dsarc::archive::{extract, payload};
use dsarc::header::{header, header_entry};
use dsarc::text::c_string;
use dsarc::{load_bytes, ArchiveError, Header, HeaderEntry};

const MAGIC: &[u8; 8] = b"DSARC FL";

fn prelude(count: u32) -> Vec<u8> {
    let mut out = MAGIC.to_vec();
    out.extend_from_slice(&count.to_le_bytes());
    out.extend_from_slice(&[0u8; 4]);
    out
}

fn record(name: &[u8], size: u32, offset: u32) -> Vec<u8> {
    let mut out = name.to_vec();
    out.resize(112, 0);
    out.extend_from_slice(&0u32.to_le_bytes());
    out.extend_from_slice(&size.to_le_bytes());
    out.extend_from_slice(&offset.to_le_bytes());
    out.extend_from_slice(&0u32.to_le_bytes());
    assert_eq!(out.len(), 128);
    out
}

fn hello_archive() -> Vec<u8> {
    let mut buf = prelude(1);
    buf.extend_from_slice(&record(b"hello.txt", 5, 144));
    buf.extend_from_slice(b"world");
    buf
}

fn three_files() -> Vec<u8> {
    let mut buf = prelude(3);
    buf.extend_from_slice(&record(b"a.txt", 4, 400));
    buf.extend_from_slice(&record(b"dir/b.bin", 0, 404));
    buf.extend_from_slice(&record(b"c", 7, 405));
    assert_eq!(buf.len(), 400);
    buf.extend_from_slice(b"AAAA");
    buf.push(0xee);
    buf.extend_from_slice(b"CCCCCCC");
    buf
}

#[test]
fn one_entry_with_its_payload() {
    let buf = hello_archive();
    assert_eq!(buf.len(), 149);
    let archive = load_bytes(&buf).unwrap();
    assert_eq!(archive.header.entries.len(), 1);
    assert_eq!(archive.header.entries[0].filename, "hello.txt");
    assert_eq!(archive.header.entries[0].size, 5);
    assert_eq!(archive.header.entries[0].offset, 144);
    assert_eq!(archive.data, vec![b"world".to_vec()]);
}

#[test]
fn no_entries_is_a_valid_archive() {
    let archive = load_bytes(&prelude(0)).unwrap();
    assert!(archive.header.entries.is_empty());
    assert!(archive.data.is_empty());
}

#[test]
fn payloads_are_aligned_with_entries() {
    let archive = load_bytes(&three_files()).unwrap();
    assert_eq!(archive.header.entries.len(), 3);
    assert_eq!(archive.data.len(), archive.header.entries.len());
}

#[test]
fn payload_lengths_are_the_declared_sizes() {
    let archive = load_bytes(&three_files()).unwrap();
    for (entry, data) in archive.header.entries.iter().zip(archive.data.iter()) {
        assert_eq!(data.len(), entry.size);
    }
}

#[test]
fn built_archive_is_recovered() {
    let buf = three_files();
    let archive = load_bytes(&buf).unwrap();
    let found: Vec<(&str, usize, usize)> = archive
        .header
        .entries
        .iter()
        .map(|e| (e.filename.as_str(), e.offset, e.size))
        .collect();
    assert_eq!(found, vec![("a.txt", 400, 4), ("dir/b.bin", 404, 0), ("c", 405, 7)]);
    assert_eq!(archive.data[0], b"AAAA".to_vec());
    assert_eq!(archive.data[1], Vec::<u8>::new());
    assert_eq!(archive.data[2], b"CCCCCCC".to_vec());
    for (entry, data) in archive.header.entries.iter().zip(archive.data.iter()) {
        assert_eq!(data.as_slice(), &buf[entry.offset..entry.offset + entry.size]);
    }
}

#[test]
fn payloads_may_overlap_and_lie_in_the_header() {
    let mut buf = prelude(2);
    buf.extend_from_slice(&record(b"tag", 8, 0));
    buf.extend_from_slice(&record(b"tag-tail", 5, 3));
    let archive = load_bytes(&buf).unwrap();
    assert_eq!(archive.data[0], b"DSARC FL".to_vec());
    assert_eq!(archive.data[1], b"RC FL".to_vec());
}

#[test]
fn altered_magic_is_a_format_error() {
    for k in 0..8 {
        let mut buf = hello_archive();
        buf[k] ^= 0x20;
        assert_eq!(load_bytes(&buf).unwrap_err(), ArchiveError::Format);
        assert_eq!(header(&buf).unwrap_err(), ArchiveError::Format);
    }
    let mut buf = hello_archive();
    buf[..8].copy_from_slice(b"DSARC FM");
    assert_eq!(load_bytes(&buf).unwrap_err(), ArchiveError::Format);
}

#[test]
fn payload_past_the_end_is_a_range_error() {
    let mut buf = prelude(1);
    buf.extend_from_slice(&record(b"hello.txt", 6, 144));
    buf.extend_from_slice(b"world");
    assert_eq!(load_bytes(&buf).unwrap_err(), ArchiveError::Range);
    assert!(header(&buf).is_ok());

    let mut buf = prelude(1);
    buf.extend_from_slice(&record(b"hello.txt", 5, 145));
    buf.extend_from_slice(b"world");
    assert_eq!(load_bytes(&buf).unwrap_err(), ArchiveError::Range);
}

#[test]
fn payload_that_ends_with_the_buffer_is_in_range() {
    let mut buf = prelude(2);
    buf.extend_from_slice(&record(b"all", 272, 0));
    buf.extend_from_slice(&record(b"none", 0, 272));
    assert_eq!(buf.len(), 272);
    let archive = load_bytes(&buf).unwrap();
    assert_eq!(archive.data[0], buf);
    assert!(archive.data[1].is_empty());

    let mut buf = prelude(1);
    buf.extend_from_slice(&record(b"none", 0, 145));
    assert_eq!(load_bytes(&buf).unwrap_err(), ArchiveError::Range);
}

#[test]
fn largest_offset_and_size_are_a_range_error() {
    let mut buf = prelude(1);
    buf.extend_from_slice(&record(b"big", u32::MAX, u32::MAX));
    assert_eq!(load_bytes(&buf).unwrap_err(), ArchiveError::Range);
    let h = header(&buf).unwrap();
    assert_eq!(h.entries[0].size, 0xffff_ffff);
    assert_eq!(h.entries[0].offset, 0xffff_ffff);
}

#[test]
fn one_payload_out_of_range_fails_the_whole_load() {
    let mut buf = prelude(2);
    buf.extend_from_slice(&record(b"good", 4, 0));
    buf.extend_from_slice(&record(b"bad", 1, 272));
    assert_eq!(load_bytes(&buf).unwrap_err(), ArchiveError::Range);
}

#[test]
fn unterminated_filename_is_a_format_error() {
    let mut buf = prelude(1);
    buf.extend_from_slice(&record(&[b'x'; 112], 0, 0));
    assert_eq!(load_bytes(&buf).unwrap_err(), ArchiveError::Format);
    assert_eq!(header(&buf).unwrap_err(), ArchiveError::Format);
}

#[test]
fn filename_may_fill_the_field_up_to_the_terminator() {
    let mut buf = prelude(1);
    buf.extend_from_slice(&record(&[b'x'; 111], 0, 0));
    let archive = load_bytes(&buf).unwrap();
    assert_eq!(archive.header.entries[0].filename, "x".repeat(111));
}

#[test]
fn empty_filename_is_accepted() {
    let mut buf = prelude(1);
    buf.extend_from_slice(&record(b"", 2, 0));
    let archive = load_bytes(&buf).unwrap();
    assert_eq!(archive.header.entries[0].filename, "");
    assert_eq!(archive.data[0], b"DS".to_vec());
}

#[test]
fn bytes_after_the_terminator_are_ignored() {
    let mut name = b"name.dat\0".to_vec();
    name.resize(112, 0xff);
    let mut buf = prelude(1);
    buf.extend_from_slice(&record(&name, 1, 0));
    let archive = load_bytes(&buf).unwrap();
    assert_eq!(archive.header.entries[0].filename, "name.dat");

    let mut name = b"first\0second\0".to_vec();
    name.resize(112, b'z');
    let mut buf = prelude(1);
    buf.extend_from_slice(&record(&name, 1, 0));
    let archive = load_bytes(&buf).unwrap();
    assert_eq!(archive.header.entries[0].filename, "first");
}

#[test]
fn filename_is_decoded_as_utf8() {
    let name = "h\u{e9}llo_\u{65e5}\u{672c}_\u{1f600}.bin";
    assert_eq!(name.len(), 22);
    let mut buf = prelude(1);
    buf.extend_from_slice(&record(name.as_bytes(), 0, 0));
    let archive = load_bytes(&buf).unwrap();
    assert_eq!(archive.header.entries[0].filename, name);
    assert_eq!(archive.header.entries[0].filename.chars().count(), 14);
}

#[test]
fn filename_that_is_not_utf8_is_a_format_error() {
    let bad: [&[u8]; 5] = [
        &[0xff],
        &[b'a', 0x80, b'b'],
        &[0xc0, 0x80],
        &[0xed, 0xa0, 0x80],
        &[0xe6, 0x97],
    ];
    for name in bad {
        let mut buf = prelude(1);
        buf.extend_from_slice(&record(name, 0, 0));
        assert_eq!(load_bytes(&buf).unwrap_err(), ArchiveError::Format);
    }
}

#[test]
fn short_prelude_is_a_format_error() {
    let full = prelude(0);
    for len in 0..16 {
        assert_eq!(load_bytes(&full[..len]).unwrap_err(), ArchiveError::Format);
    }
    assert!(load_bytes(&full).is_ok());
}

#[test]
fn short_entry_table_is_a_format_error() {
    let mut buf = prelude(2);
    buf.extend_from_slice(&record(b"only", 0, 0));
    assert_eq!(load_bytes(&buf).unwrap_err(), ArchiveError::Format);

    let whole = hello_archive();
    assert_eq!(load_bytes(&whole[..143]).unwrap_err(), ArchiveError::Format);
    assert_eq!(load_bytes(&whole[..144]).unwrap_err(), ArchiveError::Range);

    let mut buf = prelude(u32::MAX);
    buf.extend_from_slice(&record(b"only", 0, 0));
    assert_eq!(load_bytes(&buf).unwrap_err(), ArchiveError::Format);
}

#[test]
fn format_error_comes_before_range_error() {
    let mut buf = prelude(2);
    buf.extend_from_slice(&record(b"far", 1, 100_000));
    buf.extend_from_slice(&record(&[b'x'; 112], 0, 0));
    assert_eq!(load_bytes(&buf).unwrap_err(), ArchiveError::Format);
}

#[test]
fn integers_are_little_endian() {
    let mut buf = MAGIC.to_vec();
    buf.extend_from_slice(&[0x01, 0x00, 0x00, 0x00]);
    buf.extend_from_slice(&[0xde, 0xad, 0xbe, 0xef]);
    let mut rec = vec![0u8; 112];
    rec[0] = b'n';
    rec.extend_from_slice(&[0x11, 0x22, 0x33, 0x44]);
    rec.extend_from_slice(&[0x78, 0x56, 0x34, 0x12]);
    rec.extend_from_slice(&[0x04, 0x03, 0x02, 0x01]);
    rec.extend_from_slice(&[0x55, 0x66, 0x77, 0x88]);
    buf.extend_from_slice(&rec);
    let h = header(&buf).unwrap();
    assert_eq!(h.entries.len(), 1);
    assert_eq!(h.entries[0].filename, "n");
    assert_eq!(h.entries[0].size, 0x1234_5678);
    assert_eq!(h.entries[0].offset, 0x0102_0304);
}

#[test]
fn entry_count_uses_all_four_bytes() {
    let mut buf = MAGIC.to_vec();
    buf.extend_from_slice(&[0x02, 0x01, 0x00, 0x00]);
    buf.extend_from_slice(&[0u8; 4]);
    for i in 0..258u32 {
        buf.extend_from_slice(&record(format!("f{}", i).as_bytes(), 1, i));
    }
    let archive = load_bytes(&buf).unwrap();
    assert_eq!(archive.header.entries.len(), 258);
    assert_eq!(archive.header.entries[257].filename, "f257");
    assert_eq!(archive.data[257], vec![buf[257]]);
    buf.truncate(buf.len() - 1);
    assert_eq!(load_bytes(&buf).unwrap_err(), ArchiveError::Format);
}

#[test]
fn reserved_fields_are_ignored() {
    let mut plain = hello_archive();
    let loaded = load_bytes(&plain).unwrap();
    for at in [12, 13, 14, 15, 16 + 112, 16 + 115, 16 + 124, 16 + 127] {
        plain[at] = 0xa5;
    }
    let again = load_bytes(&plain).unwrap();
    assert_eq!(again.header.entries[0].filename, loaded.header.entries[0].filename);
    assert_eq!(again.header.entries[0].size, loaded.header.entries[0].size);
    assert_eq!(again.header.entries[0].offset, loaded.header.entries[0].offset);
    assert_eq!(again.data, loaded.data);
}

#[test]
fn entries_keep_the_order_of_the_table() {
    let mut buf = prelude(3);
    buf.extend_from_slice(&record(b"z", 1, 2));
    buf.extend_from_slice(&record(b"a", 1, 1));
    buf.extend_from_slice(&record(b"m", 1, 0));
    let archive = load_bytes(&buf).unwrap();
    let names: Vec<&str> = archive.header.entries.iter().map(|e| e.filename.as_str()).collect();
    assert_eq!(names, vec!["z", "a", "m"]);
    assert_eq!(archive.data, vec![b"A".to_vec(), b"S".to_vec(), b"D".to_vec()]);
}

#[test]
fn header_reads_the_table_alone() {
    let buf = three_files();
    let h = header(&buf[..400]).unwrap();
    assert_eq!(h.entries.len(), 3);
    assert_eq!(h.entries[1].filename, "dir/b.bin");
    assert_eq!(load_bytes(&buf[..400]).unwrap_err(), ArchiveError::Range);
}

#[test]
fn header_entry_reads_the_first_record_of_its_input() {
    let mut input = record(b"one", 10, 20);
    input.extend_from_slice(&record(b"two", 30, 40));
    let entry = header_entry(&input).unwrap();
    assert_eq!(entry.filename, "one");
    assert_eq!(entry.size, 10);
    assert_eq!(entry.offset, 20);
    let entry = header_entry(&input[128..]).unwrap();
    assert_eq!(entry.filename, "two");
    assert_eq!(entry.size, 30);
    assert_eq!(entry.offset, 40);
    assert_eq!(header_entry(&input[..127]).unwrap_err(), ArchiveError::Format);
    assert_eq!(header_entry(&[]).unwrap_err(), ArchiveError::Format);
}

#[test]
fn c_string_stops_at_the_first_nul() {
    assert_eq!(c_string(b"abc\0def\0"), Ok("abc"));
    assert_eq!(c_string(b"\0"), Ok(""));
    assert_eq!(c_string(b"\0abc"), Ok(""));
    assert_eq!(c_string("\u{e9}\0".as_bytes()), Ok("\u{e9}"));
    assert_eq!(c_string(b"abc\0\xff"), Ok("abc"));
    assert_eq!(c_string(b"abc"), Err(ArchiveError::Format));
    assert_eq!(c_string(b""), Err(ArchiveError::Format));
    assert_eq!(c_string(b"\xff\0"), Err(ArchiveError::Format));
}

#[test]
fn payload_copies_the_range_of_one_entry() {
    let entry = |offset: usize, size: usize| HeaderEntry {
        filename: String::from("f"),
        size,
        offset,
    };
    let bytes = b"0123456789";
    assert_eq!(payload(bytes, &entry(2, 3)), Ok(b"234".to_vec()));
    assert_eq!(payload(bytes, &entry(0, 10)), Ok(bytes.to_vec()));
    assert_eq!(payload(bytes, &entry(10, 0)), Ok(Vec::new()));
    assert_eq!(payload(bytes, &entry(10, 1)), Err(ArchiveError::Range));
    assert_eq!(payload(bytes, &entry(11, 0)), Err(ArchiveError::Range));
    assert_eq!(payload(bytes, &entry(3, 8)), Err(ArchiveError::Range));
    assert_eq!(payload(bytes, &entry(usize::MAX, 1)), Err(ArchiveError::Range));
    assert_eq!(payload(bytes, &entry(1, usize::MAX)), Err(ArchiveError::Range));
}

#[test]
fn extract_copies_every_payload_in_order() {
    let entry = |name: &str, offset: usize, size: usize| HeaderEntry {
        filename: String::from(name),
        size,
        offset,
    };
    let bytes = b"0123456789";
    let h = Header { entries: vec![entry("b", 5, 5), entry("a", 0, 5), entry("e", 3, 0)] };
    assert_eq!(extract(bytes, &h), Ok(vec![b"56789".to_vec(), b"01234".to_vec(), Vec::new()]));
    let h = Header { entries: vec![entry("a", 0, 5), entry("b", 6, 5)] };
    assert_eq!(extract(bytes, &h), Err(ArchiveError::Range));
    assert_eq!(extract(bytes, &Header { entries: Vec::new() }), Ok(Vec::new()));
}

#[test]
fn errors_describe_themselves() {
    assert_eq!(ArchiveError::Format.message(), "not a valid DSARC FL archive");
    assert_eq!(ArchiveError::Range.message(), "entry payload lies outside the archive");
    assert_ne!(ArchiveError::Format, ArchiveError::Range);
}

#[test]
fn trailing_bytes_are_not_an_error() {
    let mut buf = hello_archive();
    buf.extend_from_slice(&[0x5a; 1000]);
    let archive = load_bytes(&buf).unwrap();
    assert_eq!(archive.data, vec![b"world".to_vec()]);
}
