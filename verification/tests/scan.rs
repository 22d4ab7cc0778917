use dcm_dump::{read_preamble_and_prefix, read_transfer_syntax_uid, ByteStream, ReadError};

fn short_element(group: u16, element: u16, vr: &[u8; 2], value: &[u8]) -> Vec<u8> {
    let mut bytes = Vec::new();
    bytes.extend_from_slice(&group.to_le_bytes());
    bytes.extend_from_slice(&element.to_le_bytes());
    bytes.extend_from_slice(vr);
    bytes.extend_from_slice(&(value.len() as u16).to_le_bytes());
    bytes.extend_from_slice(value);
    bytes
}

fn long_element(group: u16, element: u16, vr: &[u8; 2], value: &[u8]) -> Vec<u8> {
    let mut bytes = Vec::new();
    bytes.extend_from_slice(&group.to_le_bytes());
    bytes.extend_from_slice(&element.to_le_bytes());
    bytes.extend_from_slice(vr);
    bytes.extend_from_slice(&[0, 0]);
    bytes.extend_from_slice(&(value.len() as u32).to_le_bytes());
    bytes.extend_from_slice(value);
    bytes
}

fn meta_group() -> Vec<u8> {
    let mut bytes = short_element(0x0002, 0x0000, b"UL", &[0x40, 0, 0, 0]);
    bytes.extend_from_slice(&long_element(0x0002, 0x0001, b"OB", &[0x00, 0x01]));
    bytes.extend_from_slice(&short_element(0x0002, 0x0002, b"UI", b"1.2.840.10008.5.1.4.1.1.7\0"));
    bytes.extend_from_slice(&short_element(0x0002, 0x0010, b"UI", b"1.2.840.10008.1.2.1\0"));
    bytes
}

#[test]
fn reads_preamble_prefix_and_transfer_syntax() {
    let mut file = vec![0u8; 128];
    file[..17].copy_from_slice(b"Rubo DICOM Viewer");
    file.extend_from_slice(b"DICM");
    file.extend_from_slice(&meta_group());
    file.extend_from_slice(&short_element(0x0008, 0x0016, b"UI", b"1.2\0\0"));
    let mut reader = ByteStream::new(file);

    let info = read_preamble_and_prefix(&mut reader).unwrap();

    let preamble = info.preamble.expect("preamble bytes should be populated when present");
    assert!(!preamble.is_zeroed());
    assert!(preamble.ascii_preview().as_deref().unwrap_or_default().starts_with("Rubo"));

    let prefix = info.prefix.expect("prefix should be present");
    assert!(prefix.is_dicom());

    let uid = read_transfer_syntax_uid(&mut reader)
        .unwrap()
        .expect("transfer syntax UID should be present");
    assert_eq!(uid.trim_end_matches('\0'), "1.2.840.10008.1.2.1");
}

#[test]
fn uid_is_found_without_its_padding() {
    let mut s = ByteStream::new(short_element(0x0002, 0x0010, b"UI", b"1.2.840.10008.1.2.1\0"));
    assert_eq!(read_transfer_syntax_uid(&mut s), Ok(Some(String::from("1.2.840.10008.1.2.1"))));
    assert_eq!(s.remaining(), 0);
}

#[test]
fn uid_is_found_behind_other_meta_elements() {
    let mut bytes = meta_group();
    let behind = short_element(0x0002, 0x0012, b"UI", b"1.2.3\0");
    bytes.extend_from_slice(&behind);
    for chunk in [1usize, 7, 4096] {
        let mut s = ByteStream::new(bytes.clone()).with_chunk(chunk);
        assert_eq!(
            read_transfer_syntax_uid(&mut s),
            Ok(Some(String::from("1.2.840.10008.1.2.1")))
        );
        assert_eq!(s.remaining(), behind.len());
    }
}

#[test]
fn uid_ends_at_the_first_nul_only() {
    let mut s = ByteStream::new(short_element(0x0002, 0x0010, b"UI", b"1.2\0 3\0"));
    assert_eq!(read_transfer_syntax_uid(&mut s), Ok(Some(String::from("1.2"))));

    let mut s = ByteStream::new(short_element(0x0002, 0x0010, b"UI", b"1.2 \n"));
    assert_eq!(read_transfer_syntax_uid(&mut s), Ok(Some(String::from("1.2 \n"))));

    let mut s = ByteStream::new(short_element(0x0002, 0x0010, b"UI", b"\x001.2"));
    assert_eq!(read_transfer_syntax_uid(&mut s), Ok(Some(String::new())));

    let mut s = ByteStream::new(short_element(0x0002, 0x0010, b"UI", b""));
    assert_eq!(read_transfer_syntax_uid(&mut s), Ok(Some(String::new())));
}

#[test]
fn uid_that_is_no_utf8_has_replacement_characters() {
    let mut s = ByteStream::new(short_element(0x0002, 0x0010, b"UI", &[0x31, 0xFF, 0x32, 0x00]));
    assert_eq!(read_transfer_syntax_uid(&mut s), Ok(Some(String::from("1\u{FFFD}2"))));

    let mut s = ByteStream::new(short_element(0x0002, 0x0010, b"UI", &[0xC3, 0xA9, 0x00, 0x00]));
    assert_eq!(read_transfer_syntax_uid(&mut s), Ok(Some(String::from("\u{e9}"))));
}

#[test]
fn other_group_ends_the_scan() {
    let first = short_element(0x0008, 0x0016, b"UI", b"1.2\0\0");
    let mut bytes = first.clone();
    bytes.extend_from_slice(&short_element(0x0002, 0x0010, b"UI", b"1.2.840.10008.1.2.1\0"));
    let total = bytes.len();
    let mut s = ByteStream::new(bytes);
    assert_eq!(read_transfer_syntax_uid(&mut s), Ok(None));
    assert_eq!(s.remaining(), total - first.len());
}

#[test]
fn other_group_behind_meta_elements_ends_the_scan() {
    let mut bytes = short_element(0x0002, 0x0000, b"UL", &[0, 0, 0, 0]);
    bytes.extend_from_slice(&long_element(0x0002, 0x0001, b"OB", &[0, 1]));
    bytes.extend_from_slice(&short_element(0x0008, 0x0010, b"UI", b"x\0"));
    bytes.extend_from_slice(&[1, 2, 3]);
    let mut s = ByteStream::new(bytes).with_chunk(5);
    assert_eq!(read_transfer_syntax_uid(&mut s), Ok(None));
    assert_eq!(s.remaining(), 3);
}

#[test]
fn zero_bytes_end_the_scan_as_another_group() {
    let mut bytes = short_element(0x0002, 0x0000, b"UL", &[0, 0, 0, 0]);
    bytes.extend_from_slice(&[0u8; 8]);
    bytes.extend_from_slice(&short_element(0x0002, 0x0010, b"UI", b"1.2\0\0"));
    let mut s = ByteStream::new(bytes);
    assert_eq!(read_transfer_syntax_uid(&mut s), Ok(None));
    assert_eq!(s.remaining(), 8 + 5);
}

#[test]
fn empty_stream_has_no_uid() {
    let mut s = ByteStream::new(Vec::new());
    assert_eq!(read_transfer_syntax_uid(&mut s), Ok(None));
}

#[test]
fn meta_group_without_uid_has_none() {
    let mut bytes = short_element(0x0002, 0x0000, b"UL", &[0, 0, 0, 0]);
    bytes.extend_from_slice(&short_element(0x0002, 0x0012, b"UI", b"1.2.3\0"));
    let mut s = ByteStream::new(bytes);
    assert_eq!(read_transfer_syntax_uid(&mut s), Ok(None));
    assert_eq!(s.remaining(), 0);
}

#[test]
fn truncation_in_the_scan_is_an_error() {
    let whole = meta_group();
    let first = short_element(0x0002, 0x0000, b"UL", &[0x40, 0, 0, 0]).len();
    for cut in 1..whole.len() {
        if cut == first || cut == first + 14 || cut == first + 14 + 34 {
            continue;
        }
        let mut s = ByteStream::new(whole[..cut].to_vec());
        assert_eq!(read_transfer_syntax_uid(&mut s), Err(ReadError::UnexpectedEof));
    }
    for cut in [first, first + 14, first + 14 + 34] {
        let mut s = ByteStream::new(whole[..cut].to_vec());
        assert_eq!(read_transfer_syntax_uid(&mut s), Ok(None));
    }
}

#[test]
fn end_of_stream_behind_a_tag_is_a_truncation() {
    let mut s = ByteStream::new(vec![0x02, 0x00, 0x10, 0x00]);
    assert_eq!(read_transfer_syntax_uid(&mut s), Err(ReadError::UnexpectedEof));
    let mut s = ByteStream::new(vec![0x02, 0x00, 0x10, 0x00, b'U', b'I']);
    assert_eq!(read_transfer_syntax_uid(&mut s), Err(ReadError::UnexpectedEof));
}

#[test]
fn failing_source_is_an_error_in_the_scan() {
    let mut s = ByteStream::new(Vec::new()).failing(21);
    assert_eq!(read_transfer_syntax_uid(&mut s), Err(ReadError::Source(21)));

    let mut bytes = short_element(0x0002, 0x0000, b"UL", &[0, 0, 0, 0]);
    let mut s = ByteStream::new(bytes.clone()).failing(22);
    assert_eq!(read_transfer_syntax_uid(&mut s), Err(ReadError::Source(22)));

    bytes.extend_from_slice(&short_element(0x0002, 0x0010, b"UI", b"1.2\0\0"));
    let mut s = ByteStream::new(bytes).failing(23);
    assert_eq!(read_transfer_syntax_uid(&mut s), Ok(Some(String::from("1.2"))));
}
