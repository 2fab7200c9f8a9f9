//! H.265/HEVC decoder configuration records.
//!
//! Serialization here is purely byte-aligned packing: no bit-level
//! Exponential-Golomb coding is involved.
use vstd::prelude::*;
use crate::bits::{be16, be32};
use crate::io::{push_all, push_be16, push_be32};

verus! {

/// The value written into the record's "number of arrays" field. The
/// writer emits three parameter-set arrays (VPS, SPS and PPS) but
/// declares this count; the mismatch is preserved deliberately, as an
/// explicit constant, so that conformance tests can pin the produced
/// bytes either way.
pub const HVC_NUM_OF_ARRAYS: u8 = 2;

/// The top six bytes of the eight-byte big-endian encoding of `n`.
pub open spec fn be48_top(n: nat) -> Seq<u8> {
    seq![
        (n / 0x100_0000_0000_0000) as u8,
        (n / 0x1_0000_0000_0000 % 0x100) as u8,
        (n / 0x100_0000_0000 % 0x100) as u8,
        (n / 0x1_0000_0000 % 0x100) as u8,
        (n / 0x100_0000 % 0x100) as u8,
        (n / 0x1_0000 % 0x100) as u8,
    ]
}

/// One parameter-set array of the record: the set's NAL-unit-type tag
/// (masked to six bits), a count of one, and the length-prefixed raw
/// bytes.
pub open spec fn hvc_array_bytes(tag: u8, data: Seq<u8>) -> Seq<u8> {
    seq![(tag % 0x40) as u8] + be16(1) + be16(data.len()) + data
}

/// The whole HEVC decoder configuration record body, field for field:
/// the version byte; profile space, tier and profile packed in one byte;
/// the compatibility flags; the top six constraint bytes; the level; the
/// masked spatial-segmentation, parallelism, chroma and bit-depth
/// fields; the frame-rate fields packed with the length-size field; the
/// declared array count; and the three parameter-set arrays.
pub open spec fn hvc_record_bytes(r: HvcDecoderConfigurationRecord) -> Seq<u8> {
    seq![
        1u8,
        ((r.general_profile_space % 4) * 64 + (r.general_tier_flag % 2) * 32
            + r.general_profile_idc % 32) as u8,
    ] + be32(r.general_profile_compatibility_flags as nat) + be48_top(
        r.general_constraint_indicator_flags as nat,
    ) + seq![r.general_level_idc] + be16((r.min_spatial_segmentation_idc % 0x1000) as nat) + seq![
        (r.parallelism_type % 4) as u8,
        (r.chroma_format_idc % 4) as u8,
        (r.bit_depth_luma_minus8 % 8) as u8,
        (r.bit_depth_chroma_minus8 % 16) as u8,
    ] + be16(r.avg_frame_rate as nat) + seq![
        ((r.constant_frame_rate % 4) * 64 + (r.num_temporal_layers % 8) * 8 + r.temporal_id_nested
            * 4 + r.length_size_minus_one % 4) as u8,
        HVC_NUM_OF_ARRAYS,
    ] + hvc_array_bytes(32, r.vps_data@) + hvc_array_bytes(33, r.sps_data@) + hvc_array_bytes(
        34,
        r.pps_data@,
    )
}

/// An HEVC decoder configuration record: profile, tier and level fields,
/// stream-property fields, and the three raw parameter sets (VPS, SPS,
/// PPS). Constructed by the caller and serialized by `write_to`.
#[derive(Debug, Clone)]
pub struct HvcDecoderConfigurationRecord {
    /// The profile space (two bits).
    pub general_profile_space: u8,
    /// The tier flag (one bit).
    pub general_tier_flag: u8,
    /// The profile indicator (five bits).
    pub general_profile_idc: u8,
    /// The 32 profile-compatibility flags.
    pub general_profile_compatibility_flags: u32,
    /// The constraint-indicator flags; only the top six bytes are
    /// written.
    pub general_constraint_indicator_flags: u64,
    /// The level indicator.
    pub general_level_idc: u8,
    /// The minimum spatial segmentation (twelve bits).
    pub min_spatial_segmentation_idc: u16,
    /// The parallelism type (two bits).
    pub parallelism_type: u8,
    /// The chroma format indicator (two bits).
    pub chroma_format_idc: u8,
    /// Luma bit depth minus eight (three bits).
    pub bit_depth_luma_minus8: u8,
    /// Chroma bit depth minus eight (four bits).
    pub bit_depth_chroma_minus8: u8,
    /// The average frame rate.
    pub avg_frame_rate: u16,
    /// The constant-frame-rate indicator (two bits).
    pub constant_frame_rate: u8,
    /// How many temporal layers the stream holds (three bits).
    pub num_temporal_layers: u8,
    /// The temporal-id-nested flag (one bit).
    pub temporal_id_nested: u8,
    /// The NAL length-field size minus one (two bits).
    pub length_size_minus_one: u8,
    /// The raw SPS bytes to embed.
    pub sps_data: Vec<u8>,
    /// The raw PPS bytes to embed.
    pub pps_data: Vec<u8>,
    /// The raw VPS bytes to embed.
    pub vps_data: Vec<u8>,
}

impl HvcDecoderConfigurationRecord {
    /// The record's fields fit their wire encoding: 16-bit parameter-set
    /// lengths and a one-bit temporal-id-nested flag.
    pub open spec fn write_in_range(self) -> bool {
        &&& self.vps_data@.len() <= 0xFFFF
        &&& self.sps_data@.len() <= 0xFFFF
        &&& self.pps_data@.len() <= 0xFFFF
        &&& self.temporal_id_nested <= 1
    }

    /// Appends the serialized record body to `out`, byte for byte as
    /// `hvc_record_bytes` lays it out.
    #[verifier::rlimit(100)]
    pub fn write_to(&self, out: &mut Vec<u8>)
        requires
            self.write_in_range(),
        ensures
            final(out)@ == old(out)@ + hvc_record_bytes(*self),
    {
        let ghost pre = out@;
        out.push(1);  // configuration_version
        out.push(
            (self.general_profile_space % 4) * 64 + (self.general_tier_flag % 2) * 32
                + self.general_profile_idc % 32,
        );
        push_be32(out, self.general_profile_compatibility_flags);
        let c = self.general_constraint_indicator_flags;
        out.push((c / 0x100_0000_0000_0000) as u8);
        out.push((c / 0x1_0000_0000_0000 % 0x100) as u8);
        out.push((c / 0x100_0000_0000 % 0x100) as u8);
        out.push((c / 0x1_0000_0000 % 0x100) as u8);
        out.push((c / 0x100_0000 % 0x100) as u8);
        out.push((c / 0x1_0000 % 0x100) as u8);
        out.push(self.general_level_idc);
        push_be16(out, self.min_spatial_segmentation_idc % 0x1000);
        out.push(self.parallelism_type % 4);
        out.push(self.chroma_format_idc % 4);
        out.push(self.bit_depth_luma_minus8 % 8);
        out.push(self.bit_depth_chroma_minus8 % 16);
        push_be16(out, self.avg_frame_rate);
        out.push(
            (self.constant_frame_rate % 4) * 64 + (self.num_temporal_layers % 8) * 8
                + self.temporal_id_nested * 4 + self.length_size_minus_one % 4,
        );
        out.push(HVC_NUM_OF_ARRAYS);
        out.push(32 % 0x40);  // the VPS NAL-unit-type tag
        push_be16(out, 1);  // one VPS in this array
        push_be16(out, self.vps_data.len() as u16);
        push_all(out, &self.vps_data);
        out.push(33 % 0x40);  // the SPS NAL-unit-type tag
        push_be16(out, 1);  // one SPS in this array
        push_be16(out, self.sps_data.len() as u16);
        push_all(out, &self.sps_data);
        out.push(34 % 0x40);  // the PPS NAL-unit-type tag
        push_be16(out, 1);  // one PPS in this array
        push_be16(out, self.pps_data.len() as u16);
        push_all(out, &self.pps_data);
        proof {
            assert(out@ =~= pre + hvc_record_bytes(*self));
        }
    }
}

} // verus!
