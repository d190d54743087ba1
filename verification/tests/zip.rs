use kozue::zip::{
    crc32, ZipWriter, CENTRAL_DIR_HEADER_SIG, END_OF_CENTRAL_DIR_SIG, FIXED_DOS_DATE, FIXED_DOS_TIME,
    LOCAL_FILE_HEADER_SIG,
};

#[test]
fn crc32_known_vectors() {
    // Well-known CRC-32 test vectors.
    assert_eq!(crc32(b""), 0x0000_0000);
    assert_eq!(crc32(b"123456789"), 0xCBF4_3926);
    assert_eq!(
        crc32(b"The quick brown fox jumps over the lazy dog"),
        0x414F_A339
    );
}

#[test]
fn empty_archive_has_eocd_only() {
    let zw = ZipWriter::new();
    let bytes = zw.finish();
    assert_eq!(bytes.len(), 22, "EOCD record is exactly 22 bytes");
    assert_eq!(&bytes[0..4], &END_OF_CENTRAL_DIR_SIG.to_le_bytes());
}

#[test]
fn single_entry_starts_with_local_header_signature() {
    let mut zw = ZipWriter::new();
    zw.add("hello.txt", b"hello world");
    let bytes = zw.finish();
    assert_eq!(&bytes[0..4], &LOCAL_FILE_HEADER_SIG.to_le_bytes());
    assert!(
        bytes
            .windows(4)
            .any(|w| w == CENTRAL_DIR_HEADER_SIG.to_le_bytes()),
        "must contain a central directory header"
    );
    assert!(
        bytes.ends_with(&{
            // EOCD is the final 22 bytes; just check the signature is present near the end.
            let mut v = END_OF_CENTRAL_DIR_SIG.to_le_bytes().to_vec();
            v.extend_from_slice(&bytes[bytes.len() - 18..]);
            v
        }),
        "archive must end with the EOCD record"
    );
}

#[test]
fn store_method_sizes_match_data_len() {
    let mut zw = ZipWriter::new();
    let data = b"some content here";
    zw.add("a.xml", data);
    let bytes = zw.finish();
    // compression method field (offset 8..10 in local header) must be 0 (STORE).
    let method = u16::from_le_bytes([bytes[8], bytes[9]]);
    assert_eq!(method, 0, "compression method must be STORE");
    // compressed size (offset 18..22) and uncompressed size (22..26) both equal data.len().
    let compressed = u32::from_le_bytes([bytes[18], bytes[19], bytes[20], bytes[21]]);
    let uncompressed = u32::from_le_bytes([bytes[22], bytes[23], bytes[24], bytes[25]]);
    assert_eq!(compressed, data.len() as u32);
    assert_eq!(uncompressed, data.len() as u32);
}

#[test]
fn fixed_mtime_mdate_in_local_header() {
    let mut zw = ZipWriter::new();
    zw.add("a.xml", b"x");
    let bytes = zw.finish();
    let mtime = u16::from_le_bytes([bytes[10], bytes[11]]);
    let mdate = u16::from_le_bytes([bytes[12], bytes[13]]);
    assert_eq!(mtime, FIXED_DOS_TIME);
    assert_eq!(mdate, FIXED_DOS_DATE);
}

#[test]
fn multiple_entries_preserve_add_order() {
    let mut zw = ZipWriter::new();
    zw.add("first.xml", b"1");
    zw.add("second.xml", b"22");
    zw.add("third.xml", b"333");
    let bytes = zw.finish();

    // Names should appear in add() order within the byte stream (local headers).
    let pos_first = find_bytes(&bytes, b"first.xml").expect("first.xml present");
    let pos_second = find_bytes(&bytes, b"second.xml").expect("second.xml present");
    let pos_third = find_bytes(&bytes, b"third.xml").expect("third.xml present");
    assert!(pos_first < pos_second);
    assert!(pos_second < pos_third);
}

#[test]
fn deterministic_output_for_same_input() {
    let build = || {
        let mut zw = ZipWriter::new();
        zw.add("a.xml", b"aaa");
        zw.add("b.xml", b"bbbbb");
        zw.finish()
    };
    assert_eq!(
        build(),
        build(),
        "same entries must produce byte-identical archive"
    );
}

fn find_bytes(haystack: &[u8], needle: &[u8]) -> Option<usize> {
    haystack.windows(needle.len()).position(|w| w == needle)
}
