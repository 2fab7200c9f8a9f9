use avcmeta::avc::{AvcDecoderConfigurationRecord, SpsSummary};
use avcmeta::io::AvcBitWriter;
use avcmeta::Error;

fn build_sps(profile: u8, constraint: u8, level: u8, bit_fields: AvcBitWriter) -> Vec<u8> {
    let mut writer = bit_fields;
    writer.flush();
    let mut bytes = vec![profile, constraint, level];
    for b in writer.into_vec() {
        bytes.push(b);
    }
    bytes
}

#[test]
fn test_sps_dimension_derivation() {
    let mut w = AvcBitWriter::new(Vec::new());
    w.write_ue(0); // seq_parameter_set_id
    w.write_ue(0); // log2_max_frame_num_minus4
    w.write_ue(0); // pic_order_cnt_type 0
    w.write_ue(0); // log2_max_pic_order_cnt_lsb_minus4
    w.write_ue(0); // num_ref_frames
    w.write_bit(0); // gaps_in_frame_num_value_allowed_flag
    w.write_ue(79); // pic_width_in_mbs_minus_1
    w.write_ue(44); // pic_height_in_map_units_minus_1
    w.write_bit(1); // frame_mbs_only_flag
    w.write_bit(0); // direct_8x8_inference_flag
    w.write_bit(0); // frame_cropping_flag
    let bytes = build_sps(66, 0, 30, w);

    let sps = SpsSummary::read_from(&bytes).unwrap();
    assert_eq!(sps.profile_idc, 66);
    assert_eq!(sps.constraint_set_flag, 0);
    assert_eq!(sps.level_idc, 30);
    assert!(sps.extended_configuration_data.is_none());
    assert_eq!(sps.width(), 1280);
    assert_eq!(sps.height(), 720);
}

#[test]
fn test_sps_cropping_offsets() {
    let mut w = AvcBitWriter::new(Vec::new());
    w.write_ue(0); // seq_parameter_set_id
    w.write_ue(0); // log2_max_frame_num_minus4
    w.write_ue(2); // pic_order_cnt_type 2: nothing further
    w.write_ue(0); // num_ref_frames
    w.write_bit(0); // gaps flag
    w.write_ue(119); // pic_width_in_mbs_minus_1
    w.write_ue(33); // pic_height_in_map_units_minus_1
    w.write_bit(1); // frame_mbs_only_flag
    w.write_bit(0); // direct_8x8_inference_flag
    w.write_bit(1); // frame_cropping_flag
    w.write_ue(1); // left
    w.write_ue(2); // right
    w.write_ue(3); // top
    w.write_ue(4); // bottom
    let bytes = build_sps(77, 0x40, 31, w);

    let sps = SpsSummary::read_from(&bytes).unwrap();
    // width = 120 * 16 - 2 * 2 - 2 * 1; height = 34 * 16 - 2 * 4 - 2 * 3
    assert_eq!(sps.width(), 1914);
    assert_eq!(sps.height(), 530);
}

#[test]
fn test_sps_scaling_list_fallback_all_absent() {
    let mut w = AvcBitWriter::new(Vec::new());
    w.write_ue(0); // seq_parameter_set_id
    w.write_ue(1); // chroma_format_idc (not 3: 8 entries)
    w.write_ue(0); // bit_depth_luma_minus_8
    w.write_ue(0); // bit_depth_chroma_minus_8
    w.write_bit(0); // qp_prime_y_zero_transform_bypass
    w.write_bit(1); // seq_scaling_matrix_present
    for _ in 0..8 {
        w.write_bit(0); // every scaling list absent
    }
    w.write_ue(0); // log2_max_frame_num_minus4
    w.write_ue(2); // pic_order_cnt_type 2
    w.write_ue(0); // num_ref_frames
    w.write_bit(0); // gaps flag
    w.write_ue(0); // pic_width_in_mbs_minus_1
    w.write_ue(0); // pic_height_in_map_units_minus_1
    w.write_bit(1); // frame_mbs_only_flag
    w.write_bit(0); // direct_8x8_inference_flag
    w.write_bit(0); // frame_cropping_flag
    let bytes = build_sps(100, 0, 40, w);

    let sps = SpsSummary::read_from(&bytes).unwrap();
    let ext = sps.extended_configuration_data.unwrap();
    assert_eq!(ext.chroma_format, 1);
    assert!(ext.seq_scaling_matrix_present);
    let l4 = ext.seq_scaling_list_4x4.unwrap();
    let f4 = ext.seq_scaling_list_4x4_use_default.unwrap();
    let l8 = ext.seq_scaling_list_8x8.unwrap();
    let f8 = ext.seq_scaling_list_8x8_use_default.unwrap();
    assert_eq!(l4.len(), 8);
    for i in 0..8 {
        // Fallback rule A scatters the four built-in tables over the
        // first eight entries; each is marked as using a default.
        assert_eq!(l4[i], SpsSummary::default_scaling_list_for_index(i));
        assert!(f4[i]);
    }
    for i in 0..8 {
        assert_eq!(l8[i], vec![0i64; 64]);
        assert!(!f8[i]);
    }
}

#[test]
fn test_sps_scaling_list_fallback_twelve_entries() {
    let mut w = AvcBitWriter::new(Vec::new());
    w.write_ue(0); // seq_parameter_set_id
    w.write_ue(3); // chroma_format_idc 3: 12 entries
    w.write_bit(0); // separate_color_plane_flag
    w.write_ue(0); // bit_depth_luma_minus_8
    w.write_ue(0); // bit_depth_chroma_minus_8
    w.write_bit(0); // bypass
    w.write_bit(1); // seq_scaling_matrix_present
    for _ in 0..12 {
        w.write_bit(0);
    }
    w.write_ue(0); // log2_max_frame_num_minus4
    w.write_ue(2); // pic_order_cnt_type 2
    w.write_ue(0); // num_ref_frames
    w.write_bit(0); // gaps flag
    w.write_ue(0);
    w.write_ue(0);
    w.write_bit(1);
    w.write_bit(0);
    w.write_bit(0);
    let bytes = build_sps(110, 0, 40, w);

    let sps = SpsSummary::read_from(&bytes).unwrap();
    let ext = sps.extended_configuration_data.unwrap();
    assert_eq!(ext.chroma_format, 3);
    assert_eq!(ext.separate_color_plane, Some(false));
    let l4 = ext.seq_scaling_list_4x4.unwrap();
    let f4 = ext.seq_scaling_list_4x4_use_default.unwrap();
    assert_eq!(l4.len(), 12);
    for i in 0..8 {
        assert_eq!(l4[i], SpsSummary::default_scaling_list_for_index(i));
        assert!(f4[i]);
    }
    for i in 8..12 {
        assert_eq!(l4[i], vec![0i64; 16]);
        assert!(!f4[i]);
    }
}

#[test]
fn test_sps_scaling_list_present_differential() {
    let mut w = AvcBitWriter::new(Vec::new());
    w.write_ue(0); // seq_parameter_set_id
    w.write_ue(1); // chroma_format_idc
    w.write_ue(0);
    w.write_ue(0);
    w.write_bit(0);
    w.write_bit(1); // seq_scaling_matrix_present
    w.write_bit(1); // entry 0 present
    for _ in 0..16 {
        w.write_se(1); // each delta raises the scale by one
    }
    for _ in 1..8 {
        w.write_bit(0); // the rest absent
    }
    w.write_ue(0);
    w.write_ue(2);
    w.write_ue(0);
    w.write_bit(0);
    w.write_ue(0);
    w.write_ue(0);
    w.write_bit(1);
    w.write_bit(0);
    w.write_bit(0);
    let bytes = build_sps(100, 0, 40, w);

    let sps = SpsSummary::read_from(&bytes).unwrap();
    let ext = sps.extended_configuration_data.unwrap();
    let l4 = ext.seq_scaling_list_4x4.unwrap();
    let f4 = ext.seq_scaling_list_4x4_use_default.unwrap();
    let expected: Vec<i64> = (9..=24).collect();
    assert_eq!(l4[0], expected);
    assert!(!f4[0]);
    // Entries 1 and 2 copy the decoded list; the flag copies with it.
    assert_eq!(l4[1], expected);
    assert_eq!(l4[2], expected);
    assert!(!f4[1]);
    // Entry 3 takes its own default table again.
    assert_eq!(l4[3], SpsSummary::default_scaling_list_for_index(3));
    assert!(f4[3]);
}

#[test]
fn test_sps_scaling_list_first_delta_to_zero_uses_default() {
    let mut w = AvcBitWriter::new(Vec::new());
    w.write_ue(0);
    w.write_ue(1); // chroma_format_idc
    w.write_ue(0);
    w.write_ue(0);
    w.write_bit(0);
    w.write_bit(1); // seq_scaling_matrix_present
    w.write_bit(1); // entry 0 present
    w.write_se(-8); // scale drops to zero at once: use the default
    for _ in 1..8 {
        w.write_bit(0);
    }
    w.write_ue(0);
    w.write_ue(2);
    w.write_ue(0);
    w.write_bit(0);
    w.write_ue(0);
    w.write_ue(0);
    w.write_bit(1);
    w.write_bit(0);
    w.write_bit(0);
    let bytes = build_sps(100, 0, 40, w);

    let sps = SpsSummary::read_from(&bytes).unwrap();
    let ext = sps.extended_configuration_data.unwrap();
    let l4 = ext.seq_scaling_list_4x4.unwrap();
    let f4 = ext.seq_scaling_list_4x4_use_default.unwrap();
    assert_eq!(l4[0], vec![8i64; 16]);
    assert!(f4[0]);
}

#[test]
fn test_sps_invalid_pic_order_cnt_type_fails() {
    let mut w = AvcBitWriter::new(Vec::new());
    w.write_ue(0); // seq_parameter_set_id
    w.write_ue(0); // log2_max_frame_num_minus4
    w.write_ue(3); // pic_order_cnt_type 3: a format error
    let bytes = build_sps(66, 0, 30, w);
    assert!(matches!(SpsSummary::read_from(&bytes), Err(Error::InvalidInput)));
}

#[test]
fn test_sps_truncated_fails() {
    let mut w = AvcBitWriter::new(Vec::new());
    w.write_ue(0); // seq_parameter_set_id only; everything else missing
    let bytes = build_sps(66, 0, 30, w);
    assert!(matches!(SpsSummary::read_from(&bytes), Err(Error::InvalidInput)));
    assert!(matches!(SpsSummary::read_from(&vec![66, 0]), Err(Error::InvalidInput)));
}

#[test]
fn test_avc_record_baseline_bytes() {
    let record = AvcDecoderConfigurationRecord {
        profile_idc: 66,
        constraint_set_flag: 0,
        level_idc: 30,
        sequence_parameter_set: vec![1, 2, 3],
        picture_parameter_set: vec![4],
        extended_configuration_data: None,
    };
    let mut out = Vec::new();
    record.write_to(&mut out).unwrap();
    assert_eq!(
        out,
        vec![1, 66, 0, 30, 0xFF, 0xE1, 0x00, 0x03, 1, 2, 3, 0x01, 0x00, 0x01, 4],
    );
}

#[test]
fn test_avc_record_high_profile_bytes() {
    let record = AvcDecoderConfigurationRecord {
        profile_idc: 100,
        constraint_set_flag: 0,
        level_idc: 40,
        sequence_parameter_set: vec![0xAA],
        picture_parameter_set: vec![0xBB],
        extended_configuration_data: Some(
            avcmeta::extended_configuration_data::ExtendedConfigurationData {
                chroma_format: 1,
                separate_color_plane: None,
                bit_depth_luma_minus_8: 0,
                bit_depth_chroma_minus_8: 0,
                qp_prime_y_zero_transform_bypass: false,
                seq_scaling_matrix_present: false,
                seq_scaling_list_4x4: None,
                seq_scaling_list_4x4_use_default: None,
                seq_scaling_list_8x8: None,
                seq_scaling_list_8x8_use_default: None,
            },
        ),
    };
    let mut out = Vec::new();
    record.write_to(&mut out).unwrap();
    // The bit-level tail: ue(1) = 010, ue(0) = 1, ue(0) = 1, bypass 0,
    // scaling-matrix-present 0, zero-padded: 0101_1000.
    assert_eq!(
        out,
        vec![1, 100, 0, 40, 0xFF, 0xE1, 0x00, 0x01, 0xAA, 0x01, 0x00, 0x01, 0xBB, 0b0101_1000],
    );
}

#[test]
fn test_avc_record_high_profile_without_extended_data_fails() {
    let record = AvcDecoderConfigurationRecord {
        profile_idc: 100,
        constraint_set_flag: 0,
        level_idc: 40,
        sequence_parameter_set: vec![1],
        picture_parameter_set: vec![2],
        extended_configuration_data: None,
    };
    let mut out = Vec::new();
    assert_eq!(record.write_to(&mut out), Err(Error::Unsupported));
    assert!(out.is_empty());
}

#[test]
fn test_avc_record_chroma_three_without_plane_flag_fails() {
    let record = AvcDecoderConfigurationRecord {
        profile_idc: 122,
        constraint_set_flag: 0,
        level_idc: 40,
        sequence_parameter_set: vec![1],
        picture_parameter_set: vec![2],
        extended_configuration_data: Some(
            avcmeta::extended_configuration_data::ExtendedConfigurationData {
                chroma_format: 3,
                separate_color_plane: None,
                bit_depth_luma_minus_8: 0,
                bit_depth_chroma_minus_8: 0,
                qp_prime_y_zero_transform_bypass: false,
                seq_scaling_matrix_present: false,
                seq_scaling_list_4x4: None,
                seq_scaling_list_4x4_use_default: None,
                seq_scaling_list_8x8: None,
                seq_scaling_list_8x8_use_default: None,
            },
        ),
    };
    let mut out = Vec::new();
    assert_eq!(record.write_to(&mut out), Err(Error::Unsupported));
    assert!(out.is_empty());
}

#[test]
fn test_stream_to_dimensions_pipeline() {
    // An Annex-B stream holding one SPS unit and one following unit.
    let mut w = AvcBitWriter::new(Vec::new());
    w.write_ue(0); // seq_parameter_set_id
    w.write_ue(0); // log2_max_frame_num_minus4
    w.write_ue(2); // pic_order_cnt_type 2
    w.write_ue(0); // num_ref_frames
    w.write_bit(0); // gaps flag
    w.write_ue(79); // pic_width_in_mbs_minus_1
    w.write_ue(44); // pic_height_in_map_units_minus_1
    w.write_bit(1); // frame_mbs_only_flag
    w.write_bit(0); // direct_8x8_inference_flag
    w.write_bit(0); // frame_cropping_flag
    w.write_bit(1); // rbsp stop bit, so the payload ends on no zero byte
    let payload = build_sps(66, 0, 30, w);

    let mut stream: Vec<u8> = vec![0x00, 0x00, 0x00, 0x01, 0x67];
    stream.extend_from_slice(&payload);
    stream.extend_from_slice(&[0x00, 0x00, 0x01, 0x68, 0xCE]);

    let mut units = avcmeta::nal::ByteStreamFormatNalUnits::new(&stream).unwrap();
    let unit = units.next().unwrap();
    let header = avcmeta::nal::NalUnit::read_from(&unit).unwrap();
    assert_eq!(header.nal_unit_type, avcmeta::nal::NalUnitType::SequenceParameterSet);

    let sps = SpsSummary::read_from(&unit[1..].to_vec()).unwrap();
    assert_eq!(sps.width(), 1280);
    assert_eq!(sps.height(), 720);

    let next_unit = units.next().unwrap();
    let next_header = avcmeta::nal::NalUnit::read_from(&next_unit).unwrap();
    assert_eq!(next_header.nal_unit_type, avcmeta::nal::NalUnitType::PictureParameterSet);
    assert_eq!(units.next(), None);
}

#[test]
fn test_avc_record_chroma_three_with_plane_flag_bytes() {
    let record = AvcDecoderConfigurationRecord {
        profile_idc: 144,
        constraint_set_flag: 0,
        level_idc: 51,
        sequence_parameter_set: vec![0x11],
        picture_parameter_set: vec![0x22],
        extended_configuration_data: Some(
            avcmeta::extended_configuration_data::ExtendedConfigurationData {
                chroma_format: 3,
                separate_color_plane: Some(true),
                bit_depth_luma_minus_8: 0,
                bit_depth_chroma_minus_8: 0,
                qp_prime_y_zero_transform_bypass: false,
                seq_scaling_matrix_present: false,
                seq_scaling_list_4x4: None,
                seq_scaling_list_4x4_use_default: None,
                seq_scaling_list_8x8: None,
                seq_scaling_list_8x8_use_default: None,
            },
        ),
    };
    let mut out = Vec::new();
    record.write_to(&mut out).unwrap();
    // The tail: ue(3) = 00100, plane 1, ue(0) = 1, ue(0) = 1, bypass 0,
    // matrix 0, zero-padded: 0010_0111 0000_0000.
    assert_eq!(
        out,
        vec![1, 144, 0, 51, 0xFF, 0xE1, 0x00, 0x01, 0x11, 0x01, 0x00, 0x01, 0x22, 0x27, 0x00],
    );
}
