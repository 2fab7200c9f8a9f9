//! Extended configuration data carried by high-profile streams.
use vstd::prelude::*;

verus! {

/// The mathematical shape of `ExtendedConfigurationData`: the same fields
/// with the scaling-list tables as sequences.
pub ghost struct ExtendedConfigurationDataView {
    pub chroma_format: u64,
    pub separate_color_plane: Option<bool>,
    pub bit_depth_luma_minus_8: u64,
    pub bit_depth_chroma_minus_8: u64,
    pub qp_prime_y_zero_transform_bypass: bool,
    pub seq_scaling_matrix_present: bool,
    pub seq_scaling_list_4x4: Option<Seq<Seq<i64>>>,
    pub seq_scaling_list_4x4_use_default: Option<Seq<bool>>,
    pub seq_scaling_list_8x8: Option<Seq<Seq<i64>>>,
    pub seq_scaling_list_8x8_use_default: Option<Seq<bool>>,
}

/// Chroma, bit-depth and scaling-list data present only for streams of
/// the high-profile family. The scaling-list tables and their
/// "use built-in default" flags are present exactly when
/// `seq_scaling_matrix_present` is set.
#[derive(Debug, Clone)]
pub struct ExtendedConfigurationData {
    /// The chroma format indicator (0 to 3; 3 is 4:4:4).
    pub chroma_format: u64,
    /// Whether the colour planes are coded separately; present exactly
    /// when `chroma_format` is 3.
    pub separate_color_plane: Option<bool>,
    /// Luma bit depth minus eight.
    pub bit_depth_luma_minus_8: u64,
    /// Chroma bit depth minus eight.
    pub bit_depth_chroma_minus_8: u64,
    /// The transform-bypass flag.
    pub qp_prime_y_zero_transform_bypass: bool,
    /// Whether a scaling matrix was signalled.
    pub seq_scaling_matrix_present: bool,
    /// The decoded 4x4-class scaling lists, one row per matrix entry.
    pub seq_scaling_list_4x4: Option<Vec<Vec<i64>>>,
    /// Whether each 4x4-class entry uses a built-in default table.
    pub seq_scaling_list_4x4_use_default: Option<Vec<bool>>,
    /// The decoded 8x8 scaling lists, one row per high-index entry.
    pub seq_scaling_list_8x8: Option<Vec<Vec<i64>>>,
    /// Whether each 8x8 entry uses a built-in default table.
    pub seq_scaling_list_8x8_use_default: Option<Vec<bool>>,
}

impl View for ExtendedConfigurationData {
    type V = ExtendedConfigurationDataView;

    open spec fn view(&self) -> ExtendedConfigurationDataView {
        ExtendedConfigurationDataView {
            chroma_format: self.chroma_format,
            separate_color_plane: self.separate_color_plane,
            bit_depth_luma_minus_8: self.bit_depth_luma_minus_8,
            bit_depth_chroma_minus_8: self.bit_depth_chroma_minus_8,
            qp_prime_y_zero_transform_bypass: self.qp_prime_y_zero_transform_bypass,
            seq_scaling_matrix_present: self.seq_scaling_matrix_present,
            seq_scaling_list_4x4: self.seq_scaling_list_4x4.deep_view(),
            seq_scaling_list_4x4_use_default: self.seq_scaling_list_4x4_use_default.deep_view(),
            seq_scaling_list_8x8: self.seq_scaling_list_8x8.deep_view(),
            seq_scaling_list_8x8_use_default: self.seq_scaling_list_8x8_use_default.deep_view(),
        }
    }
}

} // verus!
