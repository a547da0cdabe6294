//! A writer for flat ISO 9660 (ECMA-119) Level 1 images.
//!
//! - `bytes`: both-endian integers, padded text fields, sector rounding.
//! - `record`: directory records.
//! - `name`: file names in Level 1 (8.3) form.
//! - `entries`: the files of a directory in image order, and whether an image can be built.
//! - `image`: the layout of an image and its assembly; `image_laws` what every image satisfies.
//! - `cli`: the `mkisofs`-style command line.

pub mod bytes;
pub mod record;
pub mod image;
pub mod image_laws;
pub mod name;
pub mod entries;
pub mod cli;
