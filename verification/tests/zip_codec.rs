use zip_codec::{compress, decompress, pack, unpack, Entry, ZipError};

fn entry(name: &str, data: &[u8]) -> Entry {
    Entry { name: name.to_string(), data: data.to_vec() }
}

fn le16(x: u16) -> [u8; 2] {
    x.to_le_bytes()
}

fn le32(x: u32) -> [u8; 4] {
    x.to_le_bytes()
}

/// A bare local header with the given flags, method, sizes and name
/// length, followed by nothing.
fn bare_header(flags: u16, method: u16, comp_size: u32, name_len: u16) -> Vec<u8> {
    let mut v: Vec<u8> = Vec::new();
    v.extend_from_slice(b"PK\x03\x04");
    v.extend_from_slice(&le16(20));
    v.extend_from_slice(&le16(flags));
    v.extend_from_slice(&le16(method));
    v.extend_from_slice(&le16(0));
    v.extend_from_slice(&le16(0));
    v.extend_from_slice(&le32(0));
    v.extend_from_slice(&le32(comp_size));
    v.extend_from_slice(&le32(0));
    v.extend_from_slice(&le16(name_len));
    v.extend_from_slice(&le16(0));
    v
}

fn pseudo_random_bytes(n: usize) -> Vec<u8> {
    let mut v: Vec<u8> = Vec::with_capacity(n);
    let mut x: u32 = 0x12345678;
    for _ in 0..n {
        x = x.wrapping_mul(1664525).wrapping_add(1013904223);
        v.push((x >> 24) as u8);
    }
    v
}

fn assert_entries_equal(got: &[Entry], want: &[Entry]) {
    assert_eq!(got.len(), want.len());
    for i in 0..got.len() {
        assert_eq!(got[i].name, want[i].name);
        assert_eq!(got[i].data, want[i].data);
    }
}

#[test]
fn round_trip_store() {
    let entries = vec![
        entry("a.txt", b"hi"),
        entry("dir/b.bin", &pseudo_random_bytes(3000)),
        entry("a.txt", b"same name, other data"),
        entry("empty", b""),
    ];
    let archive = pack(&entries, false, None).unwrap();
    let back = unpack(&archive).unwrap();
    assert_entries_equal(&back, &entries);
}

#[test]
fn round_trip_deflate() {
    let mut big: Vec<u8> = Vec::new();
    for _ in 0..2000 {
        big.extend_from_slice(b"the same phrase again and again ");
    }
    let entries = vec![
        entry("big.txt", &big),
        entry("noise.bin", &pseudo_random_bytes(4096)),
        entry("nothing", b""),
    ];
    let archive = pack(&entries, true, Some(6)).unwrap();
    assert_eq!(archive[8], 8);
    assert_eq!(archive[9], 0);
    let back = unpack(&archive).unwrap();
    assert_entries_equal(&back, &entries);
}

#[test]
fn crc_field_deterministic_and_method_independent() {
    let entries = vec![entry("x", b"checksummed payload")];
    let a1 = pack(&entries, false, None).unwrap();
    let a2 = pack(&entries, false, None).unwrap();
    assert_eq!(a1, a2);
    let a3 = pack(&entries, true, Some(9)).unwrap();
    // the crc32 field (bytes 14..18 of the local header) is the same
    // whether the entry is stored or deflated
    assert_eq!(a1[14..18], a3[14..18]);
}

#[test]
fn method_fidelity_store_fields() {
    let data = b"some stored bytes";
    let archive = pack(&vec![entry("s.txt", data)], false, Some(9)).unwrap();
    assert_eq!(archive[8], 0);
    assert_eq!(archive[9], 0);
    let n = data.len() as u32;
    assert_eq!(archive[18..22], le32(n));
    assert_eq!(archive[22..26], le32(n));
}

#[test]
fn pack_nothing_gives_bare_trailer() {
    let archive = pack(&Vec::new(), false, None).unwrap();
    let mut want: Vec<u8> = Vec::new();
    want.extend_from_slice(b"PK\x05\x06");
    want.extend_from_slice(&[0u8; 18]);
    assert_eq!(archive, want);
    let back = unpack(&archive).unwrap();
    assert_eq!(back.len(), 0);
}

#[test]
fn data_descriptor_flag_rejected() {
    let stream = bare_header(0x0008, 0, 0, 0);
    assert_eq!(unpack(&stream).unwrap_err(), ZipError::UnsupportedFeature);
    assert_eq!(decompress(&stream).unwrap_err(), ZipError::UnsupportedFeature);
    // the same header behind a sound entry still fails the whole
    // parse: the sound entry is not returned
    // first 40 bytes: the whole local section of a 6-byte name and a
    // 4-byte stored payload
    let mut chained = pack(&vec![entry("ok.txt", b"fine")], false, None).unwrap()[..40].to_vec();
    chained.extend_from_slice(&bare_header(0x0008, 0, 0, 0));
    assert_eq!(unpack(&chained).unwrap_err(), ZipError::UnsupportedFeature);
}

#[test]
fn truncated_payload_rejected() {
    let archive = pack(&vec![entry("a.txt", b"hi")], false, None).unwrap();
    // cut one byte off the end of the payload: local header (30) +
    // name (5) + payload (2) would end at 37
    let cut: Vec<u8> = archive[..36].to_vec();
    assert_eq!(unpack(&cut).unwrap_err(), ZipError::CorruptArchive);
    // a cut inside the first of two payloads fails the same way: no
    // partial list with the damaged or the missing entry dropped
    let two = pack(&vec![entry("a.txt", b"hi"), entry("b", b"xy")], false, None).unwrap();
    let cut_first: Vec<u8> = two[..36].to_vec();
    assert_eq!(unpack(&cut_first).unwrap_err(), ZipError::CorruptArchive);
}

#[test]
fn filename_length_boundary() {
    let just_fits = "a".repeat(65535);
    let archive = pack(&vec![Entry { name: just_fits.clone(), data: vec![1u8] }], false, None)
        .unwrap();
    let back = unpack(&archive).unwrap();
    assert_eq!(back[0].name, just_fits);

    let too_long = "a".repeat(65536);
    let err = pack(&vec![Entry { name: too_long.clone(), data: vec![1u8] }], false, None)
        .unwrap_err();
    assert_eq!(err, ZipError::FilenameTooLong);
    let err2 = compress(&vec![1u8], Some(too_long), None).unwrap_err();
    assert_eq!(err2, ZipError::FilenameTooLong);
}

#[test]
fn unknown_method_rejected() {
    let stream = bare_header(0, 1, 0, 0);
    assert_eq!(unpack(&stream).unwrap_err(), ZipError::UnsupportedMethod);
    assert_eq!(decompress(&stream).unwrap_err(), ZipError::UnsupportedMethod);
}

#[test]
fn bad_filename_bytes_rejected() {
    let mut stream = bare_header(0, 0, 0, 1);
    stream.push(0xff);
    assert_eq!(unpack(&stream).unwrap_err(), ZipError::InvalidEncoding);
}

#[test]
fn header_past_end_rejected() {
    let stream = bare_header(0, 0, 0, 10);
    assert_eq!(unpack(&stream).unwrap_err(), ZipError::CorruptArchive);
}

#[test]
fn deflate_payload_that_does_not_decode_rejected() {
    let mut stream = bare_header(0, 8, 4, 0);
    stream.extend_from_slice(&[0xaa, 0xbb, 0xcc, 0xdd]);
    assert_eq!(unpack(&stream).unwrap_err(), ZipError::CorruptArchive);
}

#[test]
fn streams_without_headers_or_trailer_rejected() {
    assert_eq!(unpack(&b"hello".to_vec()).unwrap_err(), ZipError::NotAnArchive);
    assert_eq!(unpack(&vec![0xaau8; 40]).unwrap_err(), ZipError::NotAnArchive);
    assert_eq!(unpack(&Vec::new()).unwrap_err(), ZipError::NotAnArchive);
}

#[test]
fn trailer_alone_is_an_empty_archive() {
    // an end-of-central-directory record makes the stream an archive
    // with no entries, even behind leading padding
    let mut stream: Vec<u8> = vec![0x01, 0x02, 0x03];
    stream.extend_from_slice(b"PK\x05\x06");
    stream.extend_from_slice(&[0u8; 18]);
    assert_eq!(unpack(&stream).unwrap().len(), 0);
}

#[test]
fn scan_tolerates_leading_padding() {
    let entries = vec![entry("padded.txt", b"reachable")];
    let archive = pack(&entries, false, None).unwrap();
    let mut padded: Vec<u8> = vec![0x00, 0x50, 0x4b];
    padded.extend_from_slice(&archive);
    let back = unpack(&padded).unwrap();
    assert_entries_equal(&back, &entries);
}

#[test]
fn compress_level_zero_stores() {
    let data = b"store me as i am".to_vec();
    let archive = compress(&data, None, Some(0)).unwrap();
    assert_eq!(archive[8], 0);
    // default entry name
    assert_eq!(&archive[30..38], b"data.bin");
    assert_eq!(decompress(&archive).unwrap(), data);
}

#[test]
fn compress_default_level_deflates() {
    let mut data: Vec<u8> = Vec::new();
    for _ in 0..500 {
        data.extend_from_slice(b"squeeze this down ");
    }
    let archive = compress(&data, Some("z.bin".to_string()), None).unwrap();
    assert_eq!(archive[8], 8);
    assert_eq!(&archive[30..35], b"z.bin");
    assert!(archive.len() < data.len());
    assert_eq!(decompress(&archive).unwrap(), data);
    // the single-entry archive is also a well-formed one-entry archive
    let back = unpack(&archive).unwrap();
    assert_eq!(back.len(), 1);
    assert_eq!(back[0].name, "z.bin");
    assert_eq!(back[0].data, data);
}

#[test]
fn decompress_needs_a_header() {
    assert_eq!(decompress(&Vec::new()).unwrap_err(), ZipError::NotAnArchive);
    assert_eq!(decompress(&b"not a zip at all".to_vec()).unwrap_err(), ZipError::NotAnArchive);
}

#[test]
fn concrete_single_store_entry() {
    let archive = pack(&vec![entry("a.txt", b"hi")], false, None).unwrap();
    // 30 (local header) + 5 (name) + 2 (payload)
    // + 46 (central directory) + 5 (name) + 22 (trailer)
    assert_eq!(archive.len(), 110);
    assert_eq!(&archive[..10], &[0x50, 0x4b, 0x03, 0x04, 0x14, 0x00, 0x00, 0x00, 0x00, 0x00]);
    assert_eq!(&archive[30..35], b"a.txt");
    assert_eq!(&archive[35..37], b"hi");
    // central directory entry offset and trailer bookkeeping
    assert_eq!(&archive[37..41], b"PK\x01\x02");
    assert_eq!(&archive[88..92], b"PK\x05\x06");
    assert_eq!(archive[96..98], le16(1));
    assert_eq!(archive[98..100], le16(1));
    assert_eq!(archive[100..104], le32(51));
    assert_eq!(archive[104..108], le32(37));
    let back = unpack(&archive).unwrap();
    assert_eq!(back.len(), 1);
    assert_eq!(back[0].name, "a.txt");
    assert_eq!(back[0].data, b"hi");
}

#[test]
fn too_many_entries_rejected() {
    // 65 536 entries cannot be counted in the 16-bit entry fields
    let mut entries: Vec<Entry> = Vec::new();
    for _ in 0..65536 {
        entries.push(entry("", b""));
    }
    assert_eq!(pack(&entries, false, None).unwrap_err(), ZipError::ArchiveTooLarge);
}

#[test]
fn whole_archive_truncated_at_payload_end_still_decodes() {
    // the decoder never reads the central directory, so a stream cut
    // right after the last payload still yields the entries
    let entries = vec![entry("a.txt", b"hi")];
    let archive = pack(&entries, false, None).unwrap();
    let cut: Vec<u8> = archive[..37].to_vec();
    let back = unpack(&cut).unwrap();
    assert_entries_equal(&back, &entries);
}
