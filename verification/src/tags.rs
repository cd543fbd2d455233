//! The numbers that TIFF and DNG assign to field types, tags and values.
use vstd::prelude::*;

verus! {

// Field types.

pub const TIFF_BYTE: u16 = 1;

pub const TIFF_ASCII: u16 = 2;

pub const TIFF_SHORT: u16 = 3;

pub const TIFF_LONG: u16 = 4;

pub const TIFF_RATIONAL: u16 = 5;

pub const TIFF_SRATIONAL: u16 = 10;

// Baseline TIFF tags.

pub const TAG_NEW_SUBFILE_TYPE: u16 = 254;

pub const TAG_IMAGE_WIDTH: u16 = 256;

pub const TAG_IMAGE_LENGTH: u16 = 257;

pub const TAG_BITS_PER_SAMPLE: u16 = 258;

pub const TAG_COMPRESSION: u16 = 259;

pub const TAG_PHOTOMETRIC_INTERPRETATION: u16 = 262;

pub const TAG_MAKE: u16 = 271;

pub const TAG_MODEL: u16 = 272;

pub const TAG_STRIP_OFFSETS: u16 = 273;

pub const TAG_SAMPLES_PER_PIXEL: u16 = 277;

pub const TAG_ROWS_PER_STRIP: u16 = 278;

pub const TAG_STRIP_BYTE_COUNTS: u16 = 279;

pub const TAG_PLANAR_CONFIGURATION: u16 = 284;

pub const TAG_SAMPLE_FORMAT: u16 = 339;

// Tags of the color filter array.

pub const TAG_CFA_REPEAT_PATTERN_DIM: u16 = 33421;

pub const TAG_CFA_PATTERN: u16 = 33422;

// DNG tags.

pub const TAG_DNG_VERSION: u16 = 50706;

pub const TAG_DNG_BACKWARD_VERSION: u16 = 50707;

pub const TAG_UNIQUE_CAMERA_MODEL: u16 = 50708;

pub const TAG_CFA_PLANE_COLOR: u16 = 50710;

pub const TAG_CFA_LAYOUT: u16 = 50711;

pub const TAG_BLACK_LEVEL_REPEAT_DIM: u16 = 50713;

pub const TAG_BLACK_LEVEL: u16 = 50714;

pub const TAG_WHITE_LEVEL: u16 = 50717;

pub const TAG_DEFAULT_CROP_ORIGIN: u16 = 50719;

pub const TAG_DEFAULT_CROP_SIZE: u16 = 50720;

pub const TAG_COLOR_MATRIX_1: u16 = 50721;

pub const TAG_AS_SHOT_NEUTRAL: u16 = 50728;

pub const TAG_CALIBRATION_ILLUMINANT_1: u16 = 50778;

pub const TAG_FORWARD_MATRIX_1: u16 = 50964;

// Values of tags.

pub const COMPRESSION_NONE: u16 = 1;

pub const PLANAR_CONFIGURATION_CHUNKY: u16 = 1;

pub const SAMPLE_FORMAT_UNSIGNED_INTEGER: u16 = 1;

pub const PHOTOMETRIC_CFA: u16 = 32803;

pub const PHOTOMETRIC_LINEAR_RAW: u16 = 34892;

/// The light source number of D65, for CalibrationIlluminant1.
pub const LIGHT_SOURCE_D65: u16 = 21;

} // verus!
