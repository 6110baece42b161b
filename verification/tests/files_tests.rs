use arinc_explorer::error::DecodeError;
use arinc_explorer::files::file::File;
use arinc_explorer::files::FilesLum;

fn push_word(buf: &mut Vec<u8>, w: u16) {
    buf.push((w >> 8) as u8);
    buf.push((w & 0xFF) as u8);
}

fn push_text(buf: &mut Vec<u8>, s: &str) {
    buf.extend_from_slice(s.as_bytes());
}

fn push_file_entry(buf: &mut Vec<u8>, name: &str, pathname: &str, seq: u16) {
    push_word(buf, 0); // file pointer
    push_word(buf, name.len() as u16);
    push_text(buf, name);
    push_word(buf, pathname.len() as u16);
    push_text(buf, pathname);
    push_word(buf, seq); // member sequence number
    push_word(buf, 0); // entry CRC
}

/// A list-of-files record: 300 words (600 bytes), base format version,
/// fourteen file entries, no user-defined data.
fn files_fixture() -> Vec<u8> {
    let mut buf = Vec::new();
    push_word(&mut buf, 0x0000); // file length, most significant word
    push_word(&mut buf, 300); // file length, least significant word
    push_word(&mut buf, 0x8002); // format version
    push_word(&mut buf, 0x0000); // pointer to media set PN length
    push_word(&mut buf, 0x0009);
    push_word(&mut buf, 0x0000); // pointer to number of media set files
    push_word(&mut buf, 0x0010);
    push_word(&mut buf, 0x0000); // pointer to user defined data (absent)
    push_word(&mut buf, 0x0000);
    push_word(&mut buf, 10); // media set PN length in chars
    push_text(&mut buf, "ABC1813001");
    buf.push(1); // media sequence number
    buf.push(1); // number of media set members
    push_word(&mut buf, 14); // number of media set files
    for i in 0..13u16 {
        push_file_entry(&mut buf, "FILE0001", "/PATH/TO/FILES/0000001", i + 1);
    }
    push_file_entry(&mut buf, "FILE0014", "/PATH/TO/FILES/00000000014", 14);
    push_word(&mut buf, 0x3BE8); // trailing CRC
    assert_eq!(buf.len(), 600);
    buf
}

#[test]
fn test_simple_files_lum() {
    let buf = files_fixture();
    let files_lum = FilesLum::decode(&buf).unwrap();
    println!("{}", files_lum.report());

    assert_eq!(files_lum.get_file_length(), 300);
    assert_eq!(files_lum.media_file_format_version, 0x8002);
    assert_eq!(files_lum.get_pointer_to_media_set_pn_length(), 0x9);
    assert_eq!(files_lum.get_pointer_to_number_of_media_set_files(), 0x10);
    assert_eq!(files_lum.get_pointer_to_user_defined_data(), 0x0);
    assert_eq!(files_lum.media_set_pn_length, 10);
    assert_eq!(files_lum.media_set_pn.len(), 5);
    assert_eq!(files_lum.get_media_set_pn(), "ABC1813001");
    assert_eq!(files_lum.media_sequence_number_x, 1);
    assert_eq!(files_lum.number_of_media_set_members_y, 1);
    assert_eq!(files_lum.number_of_media_set_files, 14);
    assert_eq!(files_lum.media_set_files.len(), 14);
    assert_eq!(files_lum.user_defined_data, None);
    assert_eq!(files_lum.file_crc, 0x3BE8);
}

#[test]
fn test_files_lum_entry_fields() {
    let buf = files_fixture();
    let files_lum = FilesLum::decode(&buf).unwrap();
    let first = &files_lum.media_set_files[0];
    assert_eq!(first.get_file_name(), "FILE0001");
    assert_eq!(first.get_file_pathname(), "/PATH/TO/FILES/0000001");
    assert_eq!(first.member_sequence_number, 1);
    let last = &files_lum.media_set_files[13];
    assert_eq!(last.get_file_name(), "FILE0014");
    assert_eq!(last.get_file_pathname(), "/PATH/TO/FILES/00000000014");
    assert_eq!(last.member_sequence_number, 14);
    // The base version reads no spare and no file-check-value fields.
    assert_eq!(files_lum.spare, 0);
    assert_eq!(files_lum.file_check_value_length, None);
    assert_eq!(files_lum.file_check_value_type, None);
    assert_eq!(files_lum.file_check_value, None);
}

#[test]
fn test_files_lum_truncated() {
    // Truncating the record anywhere before its full length must yield a
    // structural decode failure, never a silent short read.
    let buf = files_fixture();
    for k in 0..buf.len() {
        let res = FilesLum::decode(&buf[..k]);
        assert_eq!(res.unwrap_err(), DecodeError::Truncated, "length {k}");
    }
    assert!(FilesLum::decode(&buf).is_ok());
}

#[test]
fn test_files_lum_decode_twice_equal() {
    let buf = files_fixture();
    let first = FilesLum::decode(&buf).unwrap();
    let second = FilesLum::decode(&buf).unwrap();
    assert_eq!(first, second);
}

/// A record whose format version is not the base version: the spare field,
/// the file-check-value pointer and the file-check-value triad are present.
fn files_fixture_versioned() -> Vec<u8> {
    let mut buf = Vec::new();
    push_word(&mut buf, 0x0000); // file length, most significant word
    push_word(&mut buf, 22); // file length, least significant word
    push_word(&mut buf, 0x8004); // format version
    push_word(&mut buf, 7); // spare
    push_word(&mut buf, 0x0000); // pointer to media set PN length
    push_word(&mut buf, 0x000C);
    push_word(&mut buf, 0x0000); // pointer to number of media set files
    push_word(&mut buf, 0x000F);
    push_word(&mut buf, 0x0000); // pointer to user defined data (absent)
    push_word(&mut buf, 0x0000);
    push_word(&mut buf, 0x0000); // pointer to file check value length
    push_word(&mut buf, 0x0011);
    push_word(&mut buf, 4); // media set PN length in chars
    push_text(&mut buf, "MS01");
    buf.push(1); // media sequence number
    buf.push(1); // number of media set members
    push_word(&mut buf, 0); // number of media set files
    push_word(&mut buf, 3); // file check value length in chars
    push_word(&mut buf, 1); // file check value type
    push_word(&mut buf, 0xAB00); // file check value, first word
    push_word(&mut buf, 0xCD00); // file check value, second word
    push_word(&mut buf, 0x1234); // trailing CRC
    assert_eq!(buf.len(), 44);
    buf
}

#[test]
fn test_files_lum_versioned_fields() {
    let buf = files_fixture_versioned();
    let files_lum = FilesLum::decode(&buf).unwrap();
    assert_eq!(files_lum.media_file_format_version, 0x8004);
    assert_eq!(files_lum.spare, 7);
    assert_eq!(files_lum.get_media_set_pn(), "MS01");
    assert_eq!(files_lum.media_set_files.len(), 0);
    assert_eq!(files_lum.file_check_value_length, Some(3));
    assert_eq!(files_lum.file_check_value_type, Some(1));
    assert_eq!(files_lum.file_check_value, Some(vec![0xAB00, 0xCD00]));
    assert_eq!(files_lum.file_crc, 0x1234);
}

#[test]
fn test_files_lum_versioned_truncated() {
    let buf = files_fixture_versioned();
    for k in 0..buf.len() {
        let res = FilesLum::decode(&buf[..k]);
        assert_eq!(res.unwrap_err(), DecodeError::Truncated, "length {k}");
    }
}

#[test]
fn test_file_entry_report() {
    let entry = File {
        file_pointer: 1,
        file_name_length: 2,
        file_name: vec![0x4142],
        file_pathname_length: 2,
        file_pathname: vec![0x4344],
        member_sequence_number: 5,
        file_crc: 0xBEEF,
    };
    let expected = "\t1 Offsets\n\t2 Chars in Filename\n\tAB Filename\n\
                    \t2 Chars in File Pathname\n\tCD File Pathname\n\
                    \t5 Sequence number\n\t0xbeef CRC\n\n";
    assert_eq!(entry.report(), expected);
}
