//! Writes 16-bit RGB images as DNG files, either with all three colors of each pixel or with the
//! one color that a color filter array would have let through.
//!
//! [`export::encode_dng`] turns an image into the bytes of a file. The other modules hold what it
//! is made of: the entries of a directory ([`ifd`], [`dng`]) and their order ([`order`]), the
//! placing of everything in the file ([`tiff`]), the samples of an image ([`raster`]), the
//! layouts ([`layout`]) and the colors of the camera ([`colors`]).
//!
//! The laws, proof functions whose names start with `law_`, say what a reader of such a file gets
//! back. Those in [`reading`] speak only of the bytes of a file and of the image, the name and the
//! colors that it was made from.

pub mod bytes;
pub mod colors;
pub mod dng;
pub mod error;
pub mod export;
pub mod ifd;
pub mod layout;
pub mod order;
pub mod raster;
pub mod reading;
pub mod tags;
pub mod text;
pub mod tiff;
