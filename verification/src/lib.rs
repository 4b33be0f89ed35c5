//! H.264/AVC elementary-stream coding.
//!
//! Containers stay responsible for sample timing and framing. This crate splits and joins network
//! abstraction layer (NAL) units, codes residual blocks and slices, reconstructs pixels, and runs
//! the deterministic encoder. Every item is verified against the contract that it carries.

pub mod arithmetic;
pub mod arithmetic_laws;
pub mod b_direct;
pub mod b_picture;
pub mod b_select;
pub mod both_sides_laws;
pub mod bins;
pub mod bits;
pub mod block_coding;
pub mod cabac;
pub mod cabac_b;
pub mod cabac_inter;
pub mod cabac_intra;
pub mod cabac_laws;
pub mod cabac_p;
pub mod cabac_pcm;
pub mod cabac_tables;
pub mod cavlc;
pub mod cavlc_intra;
pub mod cavlc_laws;
pub mod cavlc_syntax;
pub mod cavlc_words;
pub mod code_tables;
pub mod codes;
pub mod coding_laws;
pub mod config;
pub mod contexts;
pub mod deblock;
pub mod deblock_laws;
pub mod deblock_places;
pub mod encoder;
pub mod encoder_laws;
pub mod error;
pub mod frame;
pub mod framing;
pub mod golomb;
pub mod hrd;
pub mod hrd_laws;
pub mod idr;
pub mod inner_symbols;
pub mod inter_bins;
pub mod inter_coding;
pub mod inter_predict;
pub mod inter_residual;
pub mod interpolate;
pub mod interpolate_laws;
pub mod intra;
pub mod intra_coding;
pub mod intra_laws;
pub mod intra_select;
pub mod level_bounds;
pub mod levels;
pub mod lossless;
pub mod lossless_streams;
pub mod marks;
pub mod math;
pub mod motion;
pub mod motion_laws;
pub mod nal;
pub mod neighbors;
pub mod option_map;
pub mod options;
pub mod p_picture;
pub mod p_select;
pub mod parameter_sets;
pub mod partitions;
pub mod patterns;
pub mod picture;
pub mod pictures;
pub mod placed_laws;
pub mod plain_laws;
pub mod plane;
pub mod prediction_laws;
pub mod quant_tables;
pub mod quantize;
pub mod quantizers;
pub mod rate;
pub mod rate_laws;
pub mod reconstruct;
pub mod residual;
pub mod residual_tables;
pub mod scaling;
pub mod search;
pub mod search_laws;
pub mod settings;
pub mod settings_laws;
pub mod starting_points;
pub mod stream_laws;
pub mod symbol_laws;
pub mod table_laws;
pub mod test_picture;
pub mod told_b_motion;
pub mod told_b_pictures;
pub mod told_cabac;
pub mod told_cabac_b;
pub mod told_cabac_inter;
pub mod told_cabac_p;
pub mod told_codes;
pub mod told_inter;
pub mod told_inter_symbols;
pub mod told_marks;
pub mod told_motion;
pub mod told_pictures;
pub mod told_predicted;
pub mod told_streams;
pub mod told_symbols;
pub mod transform;
pub mod transform_laws;

pub use crate::encoder::H264Encoder;
pub use crate::nal::{
    annex_b_nal_units, length_prefixed_nal_units, nal_units_to_annex_b,
    remove_emulation_prevention, AvcDecoderConfigurationRecord, NalUnit, NalUnitHeader,
    NalUnitType,
};
pub use crate::settings::CODEC_NAME;
