use hdlc::crc::{crc_16_ccitt, lookup_table};

#[test]
fn crc_16_ccitt_string_test() {
    let data = b"Hello World!";
    let crc = crc_16_ccitt(data);
    assert_eq!(crc, 0xCD3);
}

#[test]
fn crc_16_ccitt_array_test() {
    let data: &[u8] = &[0x00, 0x01, 0x02, 0x03, 0x04];
    let crc = crc_16_ccitt(data);
    assert_eq!(crc, 0xD03);
}

#[test]
fn crc_16_ccitt_empty_test() {
    assert_eq!(crc_16_ccitt(&[]), 0);
}

#[test]
fn crc_16_ccitt_check_value_test() {
    // The CRC-16/XMODEM check value
    assert_eq!(crc_16_ccitt(b"123456789"), 0x31C3);
}

#[test]
fn crc_16_ccitt_appended_crc_is_zero_test() {
    let mut data = b"Hello World!".to_vec();
    let crc = crc_16_ccitt(&data);
    data.extend_from_slice(&crc.to_be_bytes());
    assert_eq!(crc_16_ccitt(&data), 0);
}

#[test]
fn lookup_table_entries_test() {
    let table = lookup_table();
    assert_eq!(table[0], 0x0000);
    assert_eq!(table[1], 0x1021);
    assert_eq!(table[2], 0x2042);
    assert_eq!(table[255], 0x1EF0);
}

#[test]
fn crc_16_ccitt_linear_test() {
    let a = b"Hello World!";
    let b = b"0123456789ab";
    let x: Vec<u8> = a.iter().zip(b.iter()).map(|(p, q)| p ^ q).collect();
    assert_eq!(crc_16_ccitt(&x), crc_16_ccitt(a) ^ crc_16_ccitt(b));
}

#[test]
fn crc_16_ccitt_leading_zero_test() {
    let mut data = vec![0u8];
    data.extend_from_slice(b"Hello World!");
    assert_eq!(crc_16_ccitt(&data), 0xCD3);
}
