use avcmeta::nal::{ByteStreamFormatNalUnits, NalUnit, NalUnitType};
use avcmeta::Error;

#[test]
fn test_nal_splitting_two_units() {
    let buffer: Vec<u8> = vec![0x00, 0x00, 0x00, 0x01, 0xAA, 0xBB, 0x00, 0x00, 0x01, 0xCC, 0xDD];
    let mut units = ByteStreamFormatNalUnits::new(&buffer).unwrap();
    assert_eq!(units.next(), Some(vec![0xAA, 0xBB]));
    assert_eq!(units.next(), Some(vec![0xCC, 0xDD]));
    assert_eq!(units.next(), None);
}

#[test]
fn test_nal_splitting_three_byte_start_code() {
    let buffer: Vec<u8> = vec![0x00, 0x00, 0x01, 0x11, 0x00, 0x00, 0x00, 0x01, 0x22];
    let mut units = ByteStreamFormatNalUnits::new(&buffer).unwrap();
    assert_eq!(units.next(), Some(vec![0x11]));
    assert_eq!(units.next(), Some(vec![0x22]));
    assert_eq!(units.next(), None);
}

#[test]
fn test_nal_splitting_invalid_prefix_fails() {
    let buffer: Vec<u8> = vec![0x00, 0x01, 0x00, 0x01, 0xAA];
    assert!(ByteStreamFormatNalUnits::new(&buffer).is_err());
    let empty: Vec<u8> = Vec::new();
    assert!(ByteStreamFormatNalUnits::new(&empty).is_err());
}

#[test]
fn test_nal_unit_header_classification() {
    // 0x67: nal_ref_idc 3, type 7 (sequence parameter set).
    let unit = NalUnit::read_from(&vec![0x67, 0x42]).unwrap();
    assert_eq!(unit.nal_ref_idc, 3);
    assert_eq!(unit.nal_unit_type, NalUnitType::SequenceParameterSet);

    // 0x41: nal_ref_idc 2, type 1 (non-IDR slice).
    let unit = NalUnit::read_from(&vec![0x41]).unwrap();
    assert_eq!(unit.nal_ref_idc, 2);
    assert_eq!(unit.nal_unit_type, NalUnitType::CodedSliceOfANonIdrPicture);
}

#[test]
fn test_nal_unit_type_rejects_out_of_range_codes() {
    assert_eq!(NalUnitType::from_u8(0), Err(Error::InvalidInput));
    assert_eq!(NalUnitType::from_u8(16), Err(Error::InvalidInput));
    assert_eq!(NalUnitType::from_u8(17), Err(Error::InvalidInput));
    assert_eq!(NalUnitType::from_u8(18), Err(Error::InvalidInput));
    assert_eq!(NalUnitType::from_u8(22), Err(Error::InvalidInput));
    assert_eq!(NalUnitType::from_u8(19).unwrap(),
        NalUnitType::CodedSliceOfAnAuxiliaryCodedPictureWithoutPartitioning);
    assert_eq!(NalUnitType::from_u8(21).unwrap(),
        NalUnitType::CodedSliceExtensionForDepthViewComponents);
}

#[test]
fn test_nal_unit_header_invalid_type_fails() {
    // Type code 0 is outside the closed set.
    assert_eq!(NalUnit::read_from(&vec![0x60]), Err(Error::InvalidInput));
    assert_eq!(NalUnit::read_from(&Vec::new()), Err(Error::InvalidInput));
}

#[test]
fn test_nal_splitting_adjacent_start_codes_yield_empty_unit() {
    let buffer: Vec<u8> = vec![0x00, 0x00, 0x01, 0x00, 0x00, 0x01, 0xAA];
    let mut units = ByteStreamFormatNalUnits::new(&buffer).unwrap();
    assert_eq!(units.next(), Some(Vec::new()));
    assert_eq!(units.next(), Some(vec![0xAA]));
    assert_eq!(units.next(), None);
}
