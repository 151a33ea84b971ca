use flac_writer::utils::{crc16_remainder, crc8_remainder, BitIter, BitIter16};

#[test]
fn bit_iter() {
    let slice: [u8; 3] = [0b0011_0100, 0b1100_0001, 0b0110_1100];
    let mut it = slice.bit_iter();
    assert_eq!(Some(0b0011_0100), it.next());
    assert_eq!(Some(0b0110_1001), it.next());
    assert_eq!(Some(0b1101_0011), it.next());
    assert_eq!(Some(0b1010_0110), it.next());
    assert_eq!(Some(0b0100_1100), it.next());
    assert_eq!(Some(0b1001_1000), it.next());
    assert_eq!(Some(0b0011_0000), it.next());
    assert_eq!(Some(0b0110_0000), it.next());
    assert_eq!(Some(0b1100_0001), it.next());
    assert_eq!(Some(0b1000_0010), it.next());
    assert_eq!(Some(0b0000_0101), it.next());
    assert_eq!(Some(0b0000_1011), it.next());
    assert_eq!(Some(0b0001_0110), it.next());
    assert_eq!(Some(0b0010_1101), it.next());
    assert_eq!(Some(0b0101_1011), it.next());
    assert_eq!(Some(0b1011_0110), it.next());
    assert_eq!(Some(0b0110_1100), it.next());
    assert_eq!(None, it.next());
}

#[test]
fn crc() {
    let slice: [u8; 3] = [0b0011_0100, 0b1100_0001, 0b0110_1100];
    let crc = crc8_remainder(&slice, 7, 0);
    assert_eq!(crc, 0b1011_0001);
}

#[test]
fn bit_iter16() {
    let slice: [u8; 3] = [0b0011_0100, 0b1100_0001, 0b0110_1100];
    let mut it = slice.bit_iter16();
    assert_eq!(Some(0b0011_0100_1100_0001), it.next());
    assert_eq!(Some(0b0110_1001_1000_0010), it.next());
    assert_eq!(Some(0b1101_0011_0000_0101), it.next());
    assert_eq!(Some(0b1010_0110_0000_1011), it.next());
    assert_eq!(Some(0b0100_1100_0001_0110), it.next());
    assert_eq!(Some(0b1001_1000_0010_1101), it.next());
    assert_eq!(Some(0b0011_0000_0101_1011), it.next());
    assert_eq!(Some(0b0110_0000_1011_0110), it.next());
    assert_eq!(Some(0b1100_0001_0110_1100), it.next());
    assert_eq!(None, it.next());
}

#[test]
fn crc16() {
    let slice: [u8; 8] = [0xAF, 0x72, 0x3C, 0x4C, 0x1E, 0x06, 0xC9, 0xA0];
    let crc = crc16_remainder(&slice, 32773, 0);
    assert_eq!(crc, 0x9753);
}

#[test]
fn crc8_of_an_empty_message_is_the_pad() {
    assert_eq!(crc8_remainder(&[], 7, 0), 0x00);
    assert_eq!(crc8_remainder(&[], 7, 0x5A), 0x5A);
}

#[test]
fn crc16_of_an_empty_message_is_the_pad() {
    assert_eq!(crc16_remainder(&[], 0x8005, 0), 0x0000);
    assert_eq!(crc16_remainder(&[], 0x8005, 0xBEEF), 0xBEEF);
}

#[test]
fn crc8_of_a_message_with_its_remainder_is_zero() {
    let message: [u8; 4] = [1, 2, 3, 250];
    let check = crc8_remainder(&message, 7, 0);
    assert_eq!(check, 0x17);
    assert_eq!(crc8_remainder(&message, 7, check), 0);
    let extended: [u8; 5] = [1, 2, 3, 250, check];
    assert_eq!(crc8_remainder(&extended, 7, 0), 0);
}

#[test]
fn crc8_self_check_holds_for_other_polynomials() {
    let message: [u8; 6] = [0xDE, 0xAD, 0xBE, 0xEF, 0x00, 0x7F];
    for poly in [0x07u8, 0x31, 0x9B, 0xFF, 0x00, 0x01] {
        let check = crc8_remainder(&message, poly, 0);
        assert_eq!(crc8_remainder(&message, poly, check), 0);
        let extended: [u8; 7] = [0xDE, 0xAD, 0xBE, 0xEF, 0x00, 0x7F, check];
        assert_eq!(crc8_remainder(&extended, poly, 0), 0);
    }
}

#[test]
fn crc16_of_a_message_with_its_remainder_is_zero() {
    let message: [u8; 4] = [1, 2, 3, 250];
    let check = crc16_remainder(&message, 0x8005, 0);
    assert_eq!(check, 0x1C34);
    assert_eq!(crc16_remainder(&message, 0x8005, check), 0);
    let extended: [u8; 6] = [1, 2, 3, 250, 0x1C, 0x34];
    assert_eq!(crc16_remainder(&extended, 0x8005, 0), 0);
}

#[test]
fn crc16_self_check_holds_for_other_polynomials() {
    let message: [u8; 5] = [0xDE, 0xAD, 0xBE, 0xEF, 0x42];
    for poly in [0x8005u16, 0x1021, 0xFFFF, 0x0000, 0x0001] {
        let check = crc16_remainder(&message, poly, 0);
        assert_eq!(crc16_remainder(&message, poly, check), 0);
        let extended: [u8; 7] =
            [0xDE, 0xAD, 0xBE, 0xEF, 0x42, (check >> 8) as u8, (check & 0xFF) as u8];
        assert_eq!(crc16_remainder(&extended, poly, 0), 0);
    }
}

#[test]
fn windows_over_an_empty_string() {
    let empty: [u8; 0] = [];
    assert_eq!(empty.bit_iter().next(), None);
    assert_eq!(empty.bit_iter16().next(), None);
}

#[test]
fn windows_over_one_byte() {
    let one: [u8; 1] = [0xA5];
    let mut it = one.bit_iter();
    assert_eq!(it.next(), Some(0xA5));
    assert_eq!(it.next(), None);
    assert_eq!(it.next(), None);
    assert_eq!(one.bit_iter16().next(), None);
}

#[test]
fn windows_over_two_parts() {
    let head: [u8; 2] = [0b0011_0100, 0b1100_0001];
    let tail: [u8; 1] = [0b0110_1100];
    let mut it = flac_writer::utils::BitIterator::chained(&head, &tail);
    let mut windows = 0;
    let mut last = None;
    while let Some(window) = it.next() {
        windows += 1;
        last = Some(window);
    }
    assert_eq!(windows, 17);
    assert_eq!(last, Some(0b0110_1100));
    let mut it = flac_writer::utils::BitIterator16::chained(&head, &tail);
    assert_eq!(it.next(), Some(0b0011_0100_1100_0001));
    assert_eq!(it.next(), Some(0b0110_1001_1000_0010));
}

#[test]
fn windows_from_new() {
    let bytes: [u8; 2] = [0xFF, 0x00];
    let mut it = flac_writer::utils::BitIterator::new(&bytes);
    assert_eq!(it.next(), Some(0xFF));
    assert_eq!(it.next(), Some(0xFE));
    let mut it = flac_writer::utils::BitIterator16::new(&bytes);
    assert_eq!(it.next(), Some(0xFF00));
    assert_eq!(it.next(), None);
}
