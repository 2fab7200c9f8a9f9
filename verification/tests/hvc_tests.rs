use avcmeta::hvc::{HvcDecoderConfigurationRecord, HVC_NUM_OF_ARRAYS};

#[test]
fn test_hvc_record_bytes() {
    let record = HvcDecoderConfigurationRecord {
        general_profile_space: 1,
        general_tier_flag: 1,
        general_profile_idc: 5,
        general_profile_compatibility_flags: 0x12345678,
        general_constraint_indicator_flags: 0x0102030405060708,
        general_level_idc: 93,
        min_spatial_segmentation_idc: 0xFFFF,
        parallelism_type: 7,
        chroma_format_idc: 1,
        bit_depth_luma_minus8: 2,
        bit_depth_chroma_minus8: 10,
        avg_frame_rate: 0x1234,
        constant_frame_rate: 1,
        num_temporal_layers: 2,
        temporal_id_nested: 1,
        length_size_minus_one: 3,
        sps_data: vec![0xBB, 0xCC],
        pps_data: vec![0xDD],
        vps_data: vec![0xAA],
    };
    let mut out = Vec::new();
    record.write_to(&mut out);
    let expected: Vec<u8> = vec![
        1, // configuration_version
        0x65, // profile space 1, tier 1, profile 5
        0x12, 0x34, 0x56, 0x78, // compatibility flags
        0x01, 0x02, 0x03, 0x04, 0x05, 0x06, // top constraint bytes
        93, // level
        0x0F, 0xFF, // min spatial segmentation, masked to 12 bits
        3, // parallelism, masked to 2 bits
        1, // chroma format
        2, // luma depth
        10, // chroma depth
        0x12, 0x34, // average frame rate
        0x57, // cfr 1 | layers 2 | nested 1 | length size 3
        2, // declared array count
        32, 0x00, 0x01, 0x00, 0x01, 0xAA, // VPS array
        33, 0x00, 0x01, 0x00, 0x02, 0xBB, 0xCC, // SPS array
        34, 0x00, 0x01, 0x00, 0x01, 0xDD, // PPS array
    ];
    assert_eq!(out, expected);
}

#[test]
fn test_hvc_record_appends_after_existing_bytes() {
    let record = HvcDecoderConfigurationRecord {
        general_profile_space: 0,
        general_tier_flag: 0,
        general_profile_idc: 1,
        general_profile_compatibility_flags: 0,
        general_constraint_indicator_flags: 0,
        general_level_idc: 30,
        min_spatial_segmentation_idc: 0,
        parallelism_type: 0,
        chroma_format_idc: 1,
        bit_depth_luma_minus8: 0,
        bit_depth_chroma_minus8: 0,
        avg_frame_rate: 0,
        constant_frame_rate: 0,
        num_temporal_layers: 1,
        temporal_id_nested: 0,
        length_size_minus_one: 3,
        sps_data: Vec::new(),
        pps_data: Vec::new(),
        vps_data: Vec::new(),
    };
    let mut out = vec![0xEE];
    record.write_to(&mut out);
    assert_eq!(out[0], 0xEE);
    assert_eq!(out[1], 1);
    // The declared array count sits right before the three arrays.
    assert_eq!(out[23], HVC_NUM_OF_ARRAYS);
    // Three arrays follow nonetheless, each with an empty parameter set.
    assert_eq!(&out[24..], &[32, 0, 1, 0, 0, 33, 0, 1, 0, 0, 34, 0, 1, 0, 0]);
}
