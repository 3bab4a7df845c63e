use sch_gui::{clock_text, encode_file_name, file_text, movement_text, resolution_text, FileNameError, FILE_NAME_CAPACITY};

#[test]
fn clock_pads_single_digits() {
    assert_eq!(clock_text(9, 5, 30), "09:05:30");
    assert_eq!(clock_text(0, 0, 0), "00:00:00");
    assert_eq!(clock_text(23, 59, 59), "23:59:59");
}

#[test]
fn clock_brings_hour_back_by_a_day() {
    assert_eq!(clock_text(24, 1, 2), "00:01:02");
    assert_eq!(clock_text(30, 10, 10), "06:10:10");
    assert_eq!(clock_text(200, 100, 255), "176:100:255");
}

#[test]
fn resolution_is_comma_separated() {
    assert_eq!(resolution_text([65536, 0, 7]), "65536,0,7");
    assert_eq!(resolution_text([u64::MAX, 10, 1]), "18446744073709551615,10,1");
}

#[test]
fn movement_keeps_signs() {
    assert_eq!(movement_text([-12, 0, 340]), "-12,0,340");
    assert_eq!(movement_text([i32::MIN, i32::MAX, -1]), "-2147483648,2147483647,-1");
}

#[test]
fn file_text_reads_one_char_per_byte() {
    let mut buffer = [0u8; 4096];
    buffer[..5].copy_from_slice(b"hi\xe9!\n");
    assert_eq!(file_text(&buffer, 5), "hi\u{e9}!\n");
    assert_eq!(file_text(&buffer, 0), "");
}

#[test]
fn file_text_counts_the_low_byte_of_the_position() {
    let buffer = [b'a'; 4096];
    assert_eq!(file_text(&buffer, 300).len(), 44);
    assert_eq!(file_text(&buffer, 256), "");
}

#[test]
fn file_name_becomes_ucs2_with_nul() {
    let units = encode_file_name("a.txt").unwrap();
    assert_eq!(units, vec![97, 46, 116, 120, 116, 0]);
    let units = encode_file_name("\u{e9}\u{4e2d}").unwrap();
    assert_eq!(units, vec![0xe9, 0x4e2d, 0]);
    assert_eq!(encode_file_name("").unwrap(), vec![0]);
}

#[test]
fn file_name_with_nul_is_refused() {
    assert_eq!(encode_file_name("ab\0c"), Err(FileNameError::InteriorNul(2)));
}

#[test]
fn file_name_beyond_ucs2_is_refused() {
    assert_eq!(encode_file_name("x\u{1F600}y"), Err(FileNameError::InvalidChar(1)));
    assert_eq!(encode_file_name("\u{10000}\0"), Err(FileNameError::InvalidChar(0)));
}

#[test]
fn file_name_too_long_is_refused() {
    let fits = "n".repeat(FILE_NAME_CAPACITY - 1);
    assert_eq!(encode_file_name(&fits).unwrap().len(), FILE_NAME_CAPACITY);
    let too_long = "n".repeat(FILE_NAME_CAPACITY);
    assert_eq!(encode_file_name(&too_long), Err(FileNameError::BufferTooSmall));
    let mut pairs = "n".repeat(FILE_NAME_CAPACITY - 2);
    pairs.push('\u{1F600}');
    assert_eq!(encode_file_name(&pairs), Err(FileNameError::BufferTooSmall));
}
