//! Verified core of the CalibRaw RAW developer: geometry, container parsing
//! and bookkeeping that the image pipeline relies on.
pub mod adjustment_groups;
pub mod codec;
pub mod dcp_profiles;
pub mod diagnostics;
pub mod int_util;
pub mod lens_match;
pub mod libraw_loader;
pub mod mask_region;
pub mod masks;
pub mod pixel_map;
pub mod point_colors;
pub mod processing;
pub mod raw_loader;
pub mod rawler_loader;
pub mod remove;
pub mod scaling;
pub mod text;
pub mod tiff;
pub mod white_balance_presets;
