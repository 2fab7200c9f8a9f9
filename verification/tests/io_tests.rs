use avcmeta::io::{AvcBitReader, AvcBitWriter, ByteCounter};

#[test]
fn test_bit_by_bit_writing() {
    let expected: [u8; 2] = [0b10011010, 0b10010011];

    let mut writer = AvcBitWriter::new(Vec::new());

    for b in expected {
        for i in 0..8 {
            let offset = 8 - i - 1;
            let mask = 1 << offset;
            let bit = (b & mask) >> offset;

            writer.write_bit(bit);
        }
    }

    writer.flush();
    let actual = writer.into_vec();

    assert_eq!(expected.len(), actual.len());

    for i in 0..expected.len() {
        assert_eq!(expected[i], actual[i]);
    }
}

#[test]
fn test_ue() {
    let mut writer = AvcBitWriter::new(Vec::new());

    for i in 0..1_001 {
        writer.write_ue(i as u64);
    }

    writer.flush();
    let buffer = writer.into_vec();

    let mut reader = AvcBitReader::new(buffer);
    for i in 0..1_001 {
        assert_eq!(reader.read_ue().unwrap(), i as u64);
    }
}

#[test]
fn test_se() {
    let mut writer = AvcBitWriter::new(Vec::new());

    for i in -500..501 {
        writer.write_se(i as i64);
    }

    writer.flush();
    let buffer = writer.into_vec();

    let mut reader = AvcBitReader::new(buffer);
    for i in -500..501 {
        assert_eq!(reader.read_se().unwrap(), i as i64);
    }
}

#[test]
fn test_write_n_bits() {
    let mut writer = AvcBitWriter::new(Vec::new());
    let expected: [u8; 2] = [0b00001111, 0b11110000];

    writer.write_n_bits(4, 0);
    writer.write_n_bits(4, 0xFF);

    writer.write_n_bits(4, 0xFF);
    writer.write_n_bits(4, 0);
    writer.flush();
    let buffer = writer.into_vec();

    assert_eq!(expected.len(), buffer.len());

    for i in 0..buffer.len() {
        assert_eq!(expected[i], buffer[i]);
    }
}

#[test]
fn test_write_n_bits_across_bounds() {
    let mut writer = AvcBitWriter::new(Vec::new());
    let expected: [u8; 2] = [0b00000111, 0b11000000];

    writer.write_n_bits(5, 0);
    writer.write_n_bits(5, 0xFF);
    writer.flush();
    let buffer = writer.into_vec();

    assert_eq!(expected.len(), buffer.len());

    for i in 0..buffer.len() {
        assert_eq!(expected[i], buffer[i]);
    }
}

#[test]
fn test_ue_round_trip_exhaustive() {
    let mut writer = AvcBitWriter::new(Vec::new());
    for n in 0..=100_000u64 {
        writer.write_ue(n);
    }
    writer.flush();
    let buffer = writer.into_vec();

    let mut reader = AvcBitReader::new(buffer);
    for n in 0..=100_000u64 {
        assert_eq!(reader.read_ue().unwrap(), n);
    }
}

#[test]
fn test_read_bit_msb_first() {
    let mut reader = AvcBitReader::new(vec![0b1010_0000]);
    assert_eq!(reader.read_bit().unwrap(), 1);
    assert_eq!(reader.read_bit().unwrap(), 0);
    assert_eq!(reader.read_bit().unwrap(), 1);
    assert_eq!(reader.read_bit().unwrap(), 0);
}

#[test]
fn test_read_bit_underrun_is_invalid_input() {
    let mut reader = AvcBitReader::new(Vec::new());
    assert_eq!(reader.read_bit(), Err(avcmeta::Error::InvalidInput));
}

#[test]
fn test_read_ue_truncated_is_invalid_input() {
    // A lone zero bit promises a longer code than the buffer holds.
    let mut reader = AvcBitReader::new(vec![0b0000_0000]);
    assert_eq!(reader.read_ue(), Err(avcmeta::Error::InvalidInput));
}

#[test]
fn test_read_byte_realigns() {
    let mut reader = AvcBitReader::new(vec![0xAB, 0xCD, 0xEF]);
    assert_eq!(reader.read_byte().unwrap(), 0xAB);
    // Consume two bits of 0xCD (1100_1101), then realign.
    assert_eq!(reader.read_bit().unwrap(), 1);
    assert_eq!(reader.read_bit().unwrap(), 1);
    assert_eq!(reader.read_byte().unwrap(), 0xEF);
}

#[test]
fn test_write_byte_discards_pending_bits() {
    let mut writer = AvcBitWriter::new(Vec::new());
    writer.write_bit(1);
    writer.write_byte(0x42);
    writer.flush();
    assert_eq!(writer.into_vec(), vec![0x42]);
}

#[test]
fn test_flush_without_pending_bits_writes_nothing() {
    let mut writer = AvcBitWriter::new(Vec::new());
    writer.write_byte(0x01);
    writer.flush();
    assert_eq!(writer.into_vec(), vec![0x01]);
}

#[test]
fn test_byte_counter() {
    let mut counter = ByteCounter::new(());
    assert_eq!(counter.count(), 0);
    assert_eq!(counter.write(&[1, 2, 3]), Ok(3));
    assert_eq!(counter.write(&[4, 5]), Ok(2));
    assert_eq!(counter.count(), 5);
}

#[test]
fn test_read_ue_fixed_bit_pattern() {
    // 0101_1000: ue "010" is 1, then "1" is 0, then "1" is 0, then
    // two padding zero bits.
    let mut reader = AvcBitReader::new(vec![0b0101_1000]);
    assert_eq!(reader.read_ue().unwrap(), 1);
    assert_eq!(reader.read_ue().unwrap(), 0);
    assert_eq!(reader.read_ue().unwrap(), 0);
    assert_eq!(reader.read_bit().unwrap(), 0);
    assert_eq!(reader.read_bit().unwrap(), 0);
}

#[test]
fn test_se_fixed_code_mapping() {
    // Codes 0, 1, 2, 3, 4 map to 0, 1, -1, 2, -2.
    let mut writer = AvcBitWriter::new(Vec::new());
    for code in 0..5 {
        writer.write_ue(code);
    }
    writer.flush();
    let mut reader = AvcBitReader::new(writer.into_vec());
    assert_eq!(reader.read_se().unwrap(), 0);
    assert_eq!(reader.read_se().unwrap(), 1);
    assert_eq!(reader.read_se().unwrap(), -1);
    assert_eq!(reader.read_se().unwrap(), 2);
    assert_eq!(reader.read_se().unwrap(), -2);
}
