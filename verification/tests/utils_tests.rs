use arinc_explorer::file_class::{class_string, FileClass};
use arinc_explorer::utils::{combine_words, vec16_to_string};

#[test]
fn test_combine_words() {
    let msb = 0x0;
    let lsb = 0x0;
    assert_eq!(combine_words(msb, lsb), 0x0);

    let msb = 0x0;
    let lsb = 0xa;
    assert_eq!(combine_words(msb, lsb), 0xa);

    let msb = 0xa;
    let lsb = 0x0;
    assert_eq!(combine_words(msb, lsb), 0xa0000);

    let msb = 0xa;
    let lsb = 0xa;
    assert_eq!(combine_words(msb, lsb), 0xa000a);

    let msb = 0xffff;
    let lsb = 0xeeee;
    assert_eq!(combine_words(msb, lsb), 0xffff_eeee);
}

#[test]
fn test_vec16_to_string() {
    let input = vec![0x4142_u16, 0x4344_u16];
    let length = 4;
    assert_eq!(vec16_to_string(input.as_slice(), length), "ABCD");

    let input = vec![0x4142_u16, 0x4344_u16];
    let length = 3;
    assert_eq!(vec16_to_string(input.as_slice(), length), "ABC");

    let input = vec![0x4142_u16];
    let length = 2;
    assert_eq!(vec16_to_string(input.as_slice(), length), "AB");

    let input = vec![0x4142_u16];
    let length = 1;
    assert_eq!(vec16_to_string(input.as_slice(), length), "A");
}

#[test]
fn test_vec16_to_string_replaces_invalid_utf8() {
    // 0xFF cannot start a UTF-8 sequence: it is replaced, never an error.
    let input = vec![0xFF41_u16];
    assert_eq!(vec16_to_string(input.as_slice(), 2), "\u{FFFD}A");
}

#[test]
fn test_classify() {
    assert_eq!(FileClass::get_file_type(0x8002), Some(FileClass::Load));
    assert_eq!(FileClass::get_file_type(0x8004), Some(FileClass::Load));
    assert_eq!(FileClass::get_file_type(0x9004), Some(FileClass::Batch));
    assert_eq!(FileClass::get_file_type(0xA004), Some(FileClass::Media));
    assert_eq!(FileClass::get_file_type(0x1234), None);
    // The Load class matches exactly 0x8002 and 0x8004, never the values
    // between them.
    assert_eq!(FileClass::get_file_type(0x8003), None);
}

#[test]
fn test_class_string() {
    assert_eq!(class_string(0x8002), "Load File");
    assert_eq!(class_string(0x9004), "Batch File");
    assert_eq!(class_string(0xA004), "Media File");
    assert_eq!(class_string(0x1234), "4660 unrecognised file class");
}
