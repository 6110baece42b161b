use arinc_explorer::error::DecodeError;
use arinc_explorer::loads::LoadsLum;

fn push_word(buf: &mut Vec<u8>, w: u16) {
    buf.push((w >> 8) as u8);
    buf.push((w & 0xFF) as u8);
}

fn push_text(buf: &mut Vec<u8>, s: &str) {
    buf.extend_from_slice(s.as_bytes());
}

/// A list-of-loads record: 39 words (78 bytes), base format version, one
/// load entry with one target-hardware identifier, no user-defined data.
fn loads_fixture() -> Vec<u8> {
    let mut buf = Vec::new();
    push_word(&mut buf, 0x0000); // file length, most significant word
    push_word(&mut buf, 39); // file length, least significant word
    push_word(&mut buf, 0x8002); // format version
    push_word(&mut buf, 0x0000); // pointer to media set PN length
    push_word(&mut buf, 0x0009);
    push_word(&mut buf, 0x0000); // pointer to number of loads
    push_word(&mut buf, 0x0010);
    push_word(&mut buf, 0x0000); // pointer to user defined data (absent)
    push_word(&mut buf, 0x0000);
    push_word(&mut buf, 10); // media set PN length in chars
    push_text(&mut buf, "ABCDEFGH12");
    buf.push(1); // media sequence number
    buf.push(1); // number of media set members
    push_word(&mut buf, 1); // number of loads
    // One load entry.
    push_word(&mut buf, 0); // load pointer
    push_word(&mut buf, 16); // load PN length in chars
    push_text(&mut buf, "LOADPART00000001");
    push_word(&mut buf, 10); // header filename length in chars
    push_text(&mut buf, "HEADER.LUH");
    push_word(&mut buf, 1); // member sequence number
    push_word(&mut buf, 1); // number of target HW IDs
    push_word(&mut buf, 4); // target HW ID length in chars
    push_text(&mut buf, "HW01");
    push_word(&mut buf, 0x5246); // trailing CRC
    assert_eq!(buf.len(), 78);
    buf
}

#[test]
fn test_simple_loads_lum() {
    let buf = loads_fixture();
    let loads_lum = LoadsLum::decode(&buf).unwrap();
    println!("{}", loads_lum.report());

    assert_eq!(loads_lum.get_file_length(), 39);
    assert_eq!(loads_lum.media_file_format_version, 0x8002);
    assert_eq!(loads_lum.get_pointer_to_media_set_pn_length(), 0x9);
    assert_eq!(loads_lum.get_pointer_to_number_of_loads(), 0x10);
    assert_eq!(loads_lum.get_pointer_to_user_defined_data(), 0x0);
    assert_eq!(loads_lum.media_set_pn_length, 10);
    assert_eq!(loads_lum.media_set_pn.len(), 5);
    assert_eq!(loads_lum.get_media_set_pn(), "ABCDEFGH12");
    assert_eq!(loads_lum.media_sequence_number_x, 1);
    assert_eq!(loads_lum.number_of_media_set_members_y, 1);
    assert_eq!(loads_lum.number_of_loads, 1);
    assert_eq!(loads_lum.loads.len(), 1);
    assert_eq!(loads_lum.user_defined_data, None);
    assert_eq!(loads_lum.file_crc, 0x5246);
}

#[test]
fn test_loads_lum_entry_fields() {
    let buf = loads_fixture();
    let loads_lum = LoadsLum::decode(&buf).unwrap();
    let lsp = &loads_lum.loads[0];
    assert_eq!(lsp.load_pointer, 0);
    assert_eq!(lsp.load_pn_length, 16);
    assert_eq!(lsp.get_load_pn(), "LOADPART00000001");
    assert_eq!(lsp.header_filename_length, 10);
    assert_eq!(lsp.get_header_filename(), "HEADER.LUH");
    assert_eq!(lsp.member_sequence_number, 1);
    assert_eq!(lsp.number_of_target_hw_ids, 1);
    assert_eq!(lsp.target_hw_ids.len(), 1);
    assert_eq!(lsp.target_hw_ids[0].target_hw_id_length, 4);
    assert_eq!(lsp.target_hw_ids[0].get_target_hw_id(), "HW01");
}

#[test]
fn test_loads_lum_truncated() {
    // Truncating the record anywhere before its full length must yield a
    // structural decode failure, never a silent short read.
    let buf = loads_fixture();
    for k in 0..buf.len() {
        let res = LoadsLum::decode(&buf[..k]);
        assert_eq!(res.unwrap_err(), DecodeError::Truncated, "length {k}");
    }
    assert!(LoadsLum::decode(&buf).is_ok());
}

#[test]
fn test_loads_lum_decode_twice_equal() {
    let buf = loads_fixture();
    let first = LoadsLum::decode(&buf).unwrap();
    let second = LoadsLum::decode(&buf).unwrap();
    assert_eq!(first, second);
}

#[test]
fn test_loads_lum_user_defined_data() {
    let mut buf = loads_fixture();
    // Declare 41 total words and point user-defined data at word 36: its
    // derived length is 41 - 36 - 1 = 4 words of data, packed in two array
    // words, making the CRC the very last word of the record.
    buf[3] = 41;
    buf[17] = 36;
    let crc = [buf[76], buf[77]];
    buf.truncate(76);
    buf.extend_from_slice(&[0xDE, 0xAD, 0xBE, 0xEF]);
    buf.extend_from_slice(&crc);
    assert_eq!(buf.len(), 82);
    let loads_lum = LoadsLum::decode(&buf).unwrap();
    assert_eq!(loads_lum.get_pointer_to_user_defined_data(), 36);
    assert_eq!(loads_lum.user_defined_data, Some(vec![0xDEAD, 0xBEEF]));
    assert_eq!(loads_lum.file_crc, 0x5246);
}

#[test]
fn test_loads_lum_length_underflow() {
    let mut buf = loads_fixture();
    // Point user-defined data past the declared total length: the derived
    // length underflows.
    buf[17] = 50;
    let res = LoadsLum::decode(&buf);
    assert_eq!(res.unwrap_err(), DecodeError::LengthUnderflow);
}

#[test]
fn test_loads_lum_report() {
    let buf = loads_fixture();
    let loads_lum = LoadsLum::decode(&buf).unwrap();
    let report = loads_lum.report();
    let expected = "78 Bytes\nLoad File\n9 | 16 | 0 Offsets\n\
                    10 Chars in Media Set PN\nABCDEFGH12 Media Set PN\n\
                    1 Media number\n1 Total Media sets\n1 Total loads\n\
                    \t0 Offsets\n\t16 Chars in Load PN\n\
                    \tLOADPART00000001 Load PN\n\t10 Chars in Header filename\n\
                    \tHEADER.LUH Header filename\n\t1 Sequence number\n\
                    \t1 Total target HW IDs\n\
                    \t\t4 Chars in Target HW ID\n\t\tHW01 Target HW ID\n\n\
                    None User Data\n0x5246 CRC\n";
    assert_eq!(report, expected);
}
